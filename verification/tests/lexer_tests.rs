use lrs::lexer::lex;

fn cv(s: &str) -> Vec<char> {
    s.chars().collect()
}

fn terms(s: &str) -> Vec<String> {
    lex(&cv(s)).into_iter().map(|t| t.into_iter().collect()).collect()
}

#[test]
fn empty_input_yields_nothing() {
    assert_eq!(terms(""), Vec::<String>::new());
    assert_eq!(terms("  ,;! "), Vec::<String>::new());
}

#[test]
fn mixed_run_splits_into_two_terms() {
    assert_eq!(terms("abc123"), vec!["abc".to_string(), "123".to_string()]);
    assert_eq!(terms("123abc"), vec!["123".to_string(), "abc".to_string()]);
}

#[test]
fn alphabetic_runs_are_lowercased_and_stemmed() {
    assert_eq!(terms("Running HAPPINESS"), vec!["run".to_string(), "happi".to_string()]);
}

#[test]
fn numeric_runs_pass_through() {
    assert_eq!(terms("42 007"), vec!["42".to_string(), "007".to_string()]);
}

#[test]
fn separators_between_terms() {
    assert_eq!(
        terms("the-cat, sat?on 2 mats"),
        vec![
            "the".to_string(),
            "cat".to_string(),
            "sat".to_string(),
            "on".to_string(),
            "2".to_string(),
            "mat".to_string(),
        ],
    );
}
