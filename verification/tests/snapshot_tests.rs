use lrs::model::Model;
use lrs::snapshot::Snapshot;

fn cv(s: &str) -> Vec<char> {
    s.chars().collect()
}

fn three_docs() -> Model {
    let mut m = Model::new();
    m.add_document(cv("a.txt"), 7, &cv("the cat sat"));
    m.add_document(cv("b.txt"), 8, &cv("the dog sat"));
    m.add_document(cv("c.txt"), 9, &cv("cat dog cat"));
    m
}

fn df_of(m: &Model, term: &str) -> u64 {
    let t = cv(term);
    for (k, v) in m.df.iter() {
        if *k == t {
            return *v;
        }
    }
    0
}

#[test]
fn round_trip_reproduces_the_index() {
    let m = three_docs();
    let s = m.to_snapshot();
    let m2 = Model::from_snapshot(&s).expect("a saved snapshot loads");
    assert_eq!(m2.docs.len(), m.docs.len());
    for i in 0..m.docs.len() {
        assert_eq!(m2.docs[i].0, m.docs[i].0);
        assert_eq!(m2.docs[i].1.mtime, m.docs[i].1.mtime);
        assert_eq!(m2.docs[i].1.total, m.docs[i].1.total);
        assert_eq!(m2.docs[i].1.counts, m.docs[i].1.counts);
    }
    for term in ["cat", "dog", "sat", "the"] {
        assert_eq!(df_of(&m2, term), df_of(&m, term));
    }
    assert!(!m2.requires_reindexing(&cv("c.txt"), 9));
    assert!(m2.requires_reindexing(&cv("c.txt"), 10));
    assert_eq!(m2.search_query(&cv("cat dog")), m.search_query(&cv("cat dog")));
}

#[test]
fn zero_count_snapshot_is_rejected() {
    let s = Snapshot { entries: vec![(cv("a.txt"), 1, vec![(cv("cat"), 0)])] };
    assert!(Model::from_snapshot(&s).is_none());
}

#[test]
fn duplicate_term_snapshot_is_rejected() {
    let s = Snapshot { entries: vec![(cv("a.txt"), 1, vec![(cv("cat"), 1), (cv("cat"), 2)])] };
    assert!(Model::from_snapshot(&s).is_none());
}

#[test]
fn duplicate_path_snapshot_is_rejected() {
    let s = Snapshot {
        entries: vec![
            (cv("a.txt"), 1, vec![(cv("cat"), 1)]),
            (cv("a.txt"), 2, vec![(cv("dog"), 1)]),
        ],
    };
    assert!(Model::from_snapshot(&s).is_none());
}

#[test]
fn overflowing_total_snapshot_is_rejected() {
    let s = Snapshot {
        entries: vec![(cv("a.txt"), 1, vec![(cv("cat"), u64::MAX), (cv("dog"), 1)])],
    };
    assert!(Model::from_snapshot(&s).is_none());
}

#[test]
fn loaded_snapshot_restores_frequencies() {
    let s = Snapshot {
        entries: vec![
            (cv("a.txt"), 1, vec![(cv("cat"), 2), (cv("sat"), 1)]),
            (cv("b.txt"), 2, vec![(cv("cat"), 1)]),
        ],
    };
    let m = Model::from_snapshot(&s).expect("valid snapshot");
    assert_eq!(df_of(&m, "cat"), 2);
    assert_eq!(df_of(&m, "sat"), 1);
    assert_eq!(m.docs[0].1.total, 3);
    assert_eq!(m.docs[1].1.total, 1);
}
