use lrs::rank::idf_scaled;
use lrs::model::Model;

fn cv(s: &str) -> Vec<char> {
    s.chars().collect()
}

#[test]
fn idf_exact_values() {
    // ln(1) scaled: zero.
    assert_eq!(idf_scaled(1, 1), 0);
    // ln(2) scaled by 65536.
    assert_eq!(idf_scaled(2, 1), 45426);
    // ln(4) = 2 ln(2).
    assert_eq!(idf_scaled(4, 1), 2 * 45426);
    // A term seen nowhere scores zero weight.
    assert_eq!(idf_scaled(5, 0), 0);
}

#[test]
fn idf_monotone_in_rarity() {
    // Rarer terms weigh at least as much.
    assert!(idf_scaled(8, 1) > idf_scaled(8, 2));
    assert!(idf_scaled(8, 2) > idf_scaled(8, 7));
    assert_eq!(idf_scaled(8, 8), 0);
}

#[test]
fn score_exact_value() {
    let mut m = Model::new();
    m.add_document(cv("a.txt"), 1, &cv("cat"));
    m.add_document(cv("b.txt"), 1, &cv("dog"));
    let r = m.search_query(&cv("cat"));
    // tf = 1/1 and idf = ln(2): the score is exactly ln(2) in Q32.
    assert_eq!(r[0], (cv("a.txt"), 45426u64 * 65536));
    assert_eq!(r[1], (cv("b.txt"), 0u64));
}
