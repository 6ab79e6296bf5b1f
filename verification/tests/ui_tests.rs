use lrs::ui::{parse_command, present_results, find_result, Command};
use lrs::pipeline::{is_hidden_name, format_of_extension, join_chunks, FileFormat};

fn cv(s: &str) -> Vec<char> {
    s.chars().collect()
}

#[test]
fn parse_exit() {
    assert!(matches!(parse_command(&cv("exit")), Command::Exit));
}

#[test]
fn parse_open() {
    match parse_command(&cv("open 2")) {
        Command::Open(n) => assert_eq!(n, 2),
        _ => panic!("expected an open command"),
    }
    match parse_command(&cv("  open   17 ")) {
        Command::Open(n) => assert_eq!(n, 17),
        _ => panic!("expected an open command"),
    }
}

#[test]
fn parse_open_malformed_is_invalid_not_fatal() {
    assert!(matches!(parse_command(&cv("open")), Command::Invalid));
    assert!(matches!(parse_command(&cv("open x")), Command::Invalid));
    assert!(matches!(parse_command(&cv("open 99999999999999999999999")), Command::Invalid));
}

#[test]
fn parse_search_and_nothing() {
    match parse_command(&cv("/cat dog")) {
        Command::Search(q) => assert_eq!(q, cv("/cat dog")),
        _ => panic!("expected a search command"),
    }
    assert!(matches!(parse_command(&cv("cat dog")), Command::Nothing));
    assert!(matches!(parse_command(&cv("")), Command::Nothing));
}

#[test]
fn presentation_filters_and_numbers() {
    let rs = vec![(cv("a"), 30u64), (cv("b"), 10u64), (cv("c"), 0u64)];
    let out = present_results(&rs);
    assert_eq!(out.len(), 2);
    assert_eq!(out[0], (1u64, cv("a"), 30u64));
    assert_eq!(out[1], (2u64, cv("b"), 10u64));
}

#[test]
fn presentation_caps_at_thirty() {
    let mut rs: Vec<(Vec<char>, u64)> = Vec::new();
    for i in 0..40u64 {
        rs.push((cv("p"), 100 - i));
    }
    let out = present_results(&rs);
    assert_eq!(out.len(), 30);
    assert_eq!(out[29].0, 30);
}

#[test]
fn open_by_number_finds_first_match() {
    let prev = vec![(1u64, cv("a.txt"), 9u64), (2u64, cv("b.txt"), 5u64)];
    assert_eq!(find_result(&prev, 2), Some(cv("b.txt")));
    assert_eq!(find_result(&prev, 3), None);
}

#[test]
fn hidden_names_are_skipped() {
    assert!(is_hidden_name(&cv(".git")));
    assert!(!is_hidden_name(&cv("src")));
    assert!(!is_hidden_name(&cv("")));
}

#[test]
fn extensions_choose_formats() {
    assert_eq!(format_of_extension(&cv("xml")), FileFormat::Xml);
    assert_eq!(format_of_extension(&cv("xhtml")), FileFormat::Xml);
    assert_eq!(format_of_extension(&cv("txt")), FileFormat::Text);
    assert_eq!(format_of_extension(&cv("md")), FileFormat::Text);
    assert_eq!(format_of_extension(&cv("pdf")), FileFormat::Pdf);
    assert_eq!(format_of_extension(&cv("exe")), FileFormat::Unsupported);
}

#[test]
fn chunks_join_with_separating_spaces() {
    let chunks = vec![cv("one"), cv("two")];
    assert_eq!(join_chunks(&chunks), cv("one two "));
    assert_eq!(join_chunks(&Vec::new()), cv(""));
}
