use lrs::model::Model;

fn cv(s: &str) -> Vec<char> {
    s.chars().collect()
}

fn df_of(m: &Model, term: &str) -> u64 {
    let t = cv(term);
    for (k, v) in m.df.iter() {
        if *k == t {
            return *v;
        }
    }
    0
}

fn three_docs() -> Model {
    let mut m = Model::new();
    m.add_document(cv("a.txt"), 1, &cv("the cat sat"));
    m.add_document(cv("b.txt"), 1, &cv("the dog sat"));
    m.add_document(cv("c.txt"), 1, &cv("cat dog cat"));
    m
}

#[test]
fn document_frequencies_end_to_end() {
    let m = three_docs();
    assert_eq!(m.docs.len(), 3);
    assert_eq!(df_of(&m, "cat"), 2);
    assert_eq!(df_of(&m, "dog"), 2);
    assert_eq!(df_of(&m, "sat"), 2);
    assert_eq!(df_of(&m, "the"), 2);
}

#[test]
fn ranking_end_to_end() {
    let m = three_docs();
    let r = m.search_query(&cv("cat"));
    assert_eq!(r.len(), 3);
    assert_eq!(r[0].0, cv("c.txt"));
    assert_eq!(r[1].0, cv("a.txt"));
    assert_eq!(r[2].0, cv("b.txt"));
    assert!(r[0].1 > r[1].1);
    assert!(r[1].1 > 0);
    assert_eq!(r[2].1, 0);
}

#[test]
fn ranking_deterministic() {
    let m = three_docs();
    let r1 = m.search_query(&cv("cat dog"));
    let r2 = m.search_query(&cv("cat dog"));
    assert_eq!(r1, r2);
}

#[test]
fn insertion_idempotent() {
    let mut m1 = three_docs();
    let m2 = three_docs();
    m1.add_document(cv("c.txt"), 1, &cv("cat dog cat"));
    assert_eq!(df_of(&m1, "cat"), df_of(&m2, "cat"));
    assert_eq!(df_of(&m1, "dog"), df_of(&m2, "dog"));
    assert_eq!(m1.docs.len(), m2.docs.len());
    let r1 = m1.search_query(&cv("cat"));
    let r2 = m2.search_query(&cv("cat"));
    assert_eq!(r1, r2);
}

#[test]
fn reindex_undoes_old_contribution() {
    let mut m = three_docs();
    // c.txt no longer contains "cat": its old counts must leave df.
    m.add_document(cv("c.txt"), 2, &cv("dog dog bird"));
    assert_eq!(df_of(&m, "cat"), 1);
    assert_eq!(df_of(&m, "dog"), 2);
    assert_eq!(df_of(&m, "bird"), 1);
    assert_eq!(m.docs.len(), 3);
}

#[test]
fn staleness_monotonicity() {
    let mut m = Model::new();
    assert!(m.requires_reindexing(&cv("a.txt"), 5));
    m.add_document(cv("a.txt"), 5, &cv("the cat sat"));
    assert!(!m.requires_reindexing(&cv("a.txt"), 5));
    assert!(!m.requires_reindexing(&cv("a.txt"), 4));
    assert!(m.requires_reindexing(&cv("a.txt"), 6));
}

#[test]
fn empty_document_scores_zero() {
    let mut m = Model::new();
    m.add_document(cv("e.txt"), 1, &cv(""));
    m.add_document(cv("a.txt"), 1, &cv("cat"));
    let r = m.search_query(&cv("cat"));
    assert_eq!(r.len(), 2);
    assert_eq!(r[0].0, cv("a.txt"));
    assert_eq!(r[1].1, 0);
}

#[test]
fn empty_query_scores_zero() {
    let m = three_docs();
    let r = m.search_query(&cv(""));
    assert_eq!(r.len(), 3);
    for p in &r {
        assert_eq!(p.1, 0);
    }
}

#[test]
fn query_duplicates_count_once() {
    let m = three_docs();
    let r1 = m.search_query(&cv("cat"));
    let r2 = m.search_query(&cv("cat cat cat"));
    assert_eq!(r1, r2);
}

#[test]
fn presentation_excludes_zero_scoring_documents() {
    let m = three_docs();
    let r = m.search_query(&cv("cat"));
    let shown = lrs::ui::present_results(&r);
    assert_eq!(shown.len(), 2);
    assert_eq!(shown[0], (1u64, cv("c.txt"), shown[0].2));
    assert_eq!(shown[1], (2u64, cv("a.txt"), shown[1].2));
    for row in &shown {
        assert!(row.2 > 0);
    }
}
