//! Snapshots: the logical schema of the persisted index. A snapshot holds,
//! per document, the path, the modification time and the term counts; totals
//! and document frequencies are recomputed on load, and the frequency
//! invariant holds again immediately after a successful load.
use vstd::prelude::*;
use crate::chars::{chars_eq, clone_chars};
use crate::model::{Model, Document, DocModel, map_of, sum_vals, unique_keys, has_key,
    lemma_map_of_dom, lemma_doc_map_dom, find_key, lemma_sum_nonneg, lemma_val_le_sum};

verus! {

/// The persisted form of an index.
pub struct Snapshot {
    pub entries: Vec<(Vec<char>, u64, Vec<(Vec<char>, u64)>)>,
}

/// The document an entry denotes: its total is the sum of its counts.
pub open spec fn doc_of_entry(e: (Vec<char>, u64, Vec<(Vec<char>, u64)>)) -> DocModel {
    DocModel { mtime: e.1, counts: map_of(e.2@), total: sum_vals(e.2@) as u64 }
}

/// The document sequence a snapshot denotes.
pub open spec fn loaded_docs(es: Seq<(Vec<char>, u64, Vec<(Vec<char>, u64)>)>) -> Seq<
    (Seq<char>, DocModel),
> {
    Seq::new(es.len(), |i: int| (es[i].0@, doc_of_entry(es[i])))
}

pub open spec fn valid_counts(s: Seq<(Vec<char>, u64)>) -> bool {
    &&& unique_keys(s)
    &&& forall|k: int| 0 <= k < s.len() ==> #[trigger] s[k].1 >= 1
    &&& sum_vals(s) <= u64::MAX
}

/// What a snapshot must satisfy to load: paths unique, term keys unique per
/// entry, counts positive, totals representable.
pub open spec fn valid_entries(es: Seq<(Vec<char>, u64, Vec<(Vec<char>, u64)>)>) -> bool {
    &&& forall|i: int, j: int| 0 <= i < j < es.len() ==> es[i].0@ != es[j].0@
    &&& forall|i: int| 0 <= i < es.len() ==> valid_counts((#[trigger] es[i]).2@)
}

pub proof fn lemma_map_of_congruent(s: Seq<(Vec<char>, u64)>, t: Seq<(Vec<char>, u64)>)
    requires
        s.len() == t.len(),
        forall|i: int| 0 <= i < s.len() ==> (#[trigger] s[i]).0@ == t[i].0@ && s[i].1 == t[i].1,
    ensures
        map_of(s) =~= map_of(t),
        sum_vals(s) == sum_vals(t),
    decreases s.len(),
{
    if s.len() > 0 {
        assert forall|i: int|
            0 <= i < s.drop_last().len() implies (#[trigger] s.drop_last()[i]).0@
            == t.drop_last()[i].0@ && s.drop_last()[i].1 == t.drop_last()[i].1 by {
            assert(s.drop_last()[i] == s[i]);
            assert(t.drop_last()[i] == t[i]);
        }
        lemma_map_of_congruent(s.drop_last(), t.drop_last());
        assert(s[s.len() - 1].0@ == t[t.len() - 1].0@);
    }
}

pub proof fn lemma_sum_prefix(s: Seq<(Vec<char>, u64)>, j: int)
    requires
        0 <= j <= s.len(),
    ensures
        sum_vals(s.take(j)) <= sum_vals(s),
    decreases s.len() - j,
{
    if j == s.len() {
        assert(s.take(j) =~= s);
    } else {
        assert(s.take(j + 1).drop_last() =~= s.take(j));
        assert(s.take(j + 1).last() == s[j]);
        lemma_sum_prefix(s, j + 1);
    }
}

impl Model {
    /// Emit the whole index as a snapshot; what the snapshot denotes is
    /// exactly the stored document sequence.
    pub fn to_snapshot(&self) -> (s: Snapshot)
        requires
            self.inv(),
        ensures
            valid_entries(s.entries@),
            loaded_docs(s.entries@) == self.docs_seq(),
    {
        let mut entries: Vec<(Vec<char>, u64, Vec<(Vec<char>, u64)>)> = Vec::new();
        let mut i: usize = 0;
        while i < self.docs.len()
            invariant
                0 <= i <= self.docs@.len(),
                self.inv(),
                entries@.len() == i,
                forall|k: int|
                    0 <= k < i ==> (#[trigger] entries@[k]).0@ == self.docs@[k].0@
                        && entries@[k].1 == self.docs@[k].1.mtime && valid_counts(entries@[k].2@)
                        && map_of(entries@[k].2@) == self.docs@[k].1@.counts && sum_vals(
                        entries@[k].2@,
                    ) == self.docs@[k].1.total,
            decreases self.docs@.len() - i,
        {
            proof {
                assert(self.docs@[i as int].1.inv());
            }
            let doc = &self.docs[i].1;
            let mut cvec: Vec<(Vec<char>, u64)> = Vec::new();
            let mut j: usize = 0;
            while j < doc.counts.len()
                invariant
                    0 <= j <= doc.counts@.len(),
                    cvec@.len() == j,
                    forall|k: int|
                        0 <= k < j ==> (#[trigger] cvec@[k]).0@ == doc.counts@[k].0@
                            && cvec@[k].1 == doc.counts@[k].1,
                decreases doc.counts@.len() - j,
            {
                let t = clone_chars(&doc.counts[j].0);
                cvec.push((t, doc.counts[j].1));
                j += 1;
            }
            proof {
                lemma_map_of_congruent(cvec@, doc.counts@);
                assert(unique_keys(cvec@)) by {
                    assert forall|a: int, b: int|
                        0 <= a < b < cvec@.len() implies cvec@[a].0@ != cvec@[b].0@ by {
                        assert(cvec@[a].0@ == doc.counts@[a].0@);
                        assert(cvec@[b].0@ == doc.counts@[b].0@);
                    }
                }
                lemma_sum_nonneg(doc.counts@);
            }
            let p = clone_chars(&self.docs[i].0);
            entries.push((p, doc.mtime, cvec));
            i += 1;
        }
        let s = Snapshot { entries };
        proof {
            assert(loaded_docs(s.entries@) =~= self.docs_seq());
        }
        s
    }

    /// Rebuild an index from a snapshot: `Some` exactly for valid snapshots,
    /// and the loaded index stores the denoted documents, with the frequency
    /// table freshly derived so its invariant holds.
    pub fn from_snapshot(s: &Snapshot) -> (r: Option<Model>)
        ensures
            r is Some <==> valid_entries(s.entries@),
            match r {
                Some(m) => m.inv() && m.docs_seq() == loaded_docs(s.entries@),
                None => true,
            },
    {
        let ghost es = s.entries@;
        let mut m = Model::new();
        let mut i: usize = 0;
        proof {
            assert(loaded_docs(es).take(0) =~= Seq::<(Seq<char>, DocModel)>::empty());
        }
        while i < s.entries.len()
            invariant
                0 <= i <= es.len(),
                es == s.entries@,
                m.inv(),
                m.docs_seq() == loaded_docs(es).take(i as int),
                forall|a: int, b: int| 0 <= a < b < i ==> es[a].0@ != es[b].0@,
                forall|a: int| 0 <= a < i ==> valid_counts((#[trigger] es[a]).2@),
            decreases es.len() - i,
        {
            let e = &s.entries[i];
            match find_key(&m.docs, &e.0) {
                Some(dup) => {
                    proof {
                        let k = dup as int;
                        assert(m.docs@.len() == i);
                        assert(m.docs_seq()[k].0 == es[i as int].0@);
                        assert(m.docs_seq()[k] == loaded_docs(es).take(i as int)[k]);
                        assert(loaded_docs(es).take(i as int)[k] == loaded_docs(es)[k]);
                        assert(loaded_docs(es)[k].0 == es[k].0@);
                        assert(es[k].0@ == es[i as int].0@ && 0 <= k < i);
                        assert(!valid_entries(es));
                    }
                    return None;
                },
                None => {
                    proof {
                        lemma_doc_map_dom(m.docs@, es[i as int].0@);
                    }
                },
            }
            let mut cvec: Vec<(Vec<char>, u64)> = Vec::new();
            let mut total: u64 = 0;
            let mut j: usize = 0;
            while j < e.2.len()
                invariant
                    0 <= j <= e.2@.len(),
                    e.2@ == es[i as int].2@,
                    0 <= i < es.len(),
                    es == s.entries@,
                    cvec@.len() == j,
                    unique_keys(cvec@),
                    forall|k: int|
                        0 <= k < j ==> (#[trigger] cvec@[k]).0@ == e.2@[k].0@ && cvec@[k].1
                            == e.2@[k].1,
                    forall|k: int| 0 <= k < j ==> #[trigger] cvec@[k].1 >= 1,
                    total == sum_vals(cvec@),
                decreases e.2@.len() - j,
            {
                let c = e.2[j].1;
                if c < 1 {
                    proof {
                        assert(!valid_counts(es[i as int].2@));
                        assert(!valid_entries(es));
                    }
                    return None;
                }
                match find_key(&cvec, &e.2[j].0) {
                    Some(dup) => {
                        proof {
                            assert(cvec@[dup as int].0@ == e.2@[dup as int].0@);
                            assert(e.2@[dup as int].0@ == e.2@[j as int].0@);
                            assert(!unique_keys(es[i as int].2@));
                            assert(!valid_entries(es));
                        }
                        return None;
                    },
                    None => {},
                }
                if total > u64::MAX - c {
                    proof {
                        let pfx = e.2@.take(j + 1 as int);
                        assert(pfx.drop_last() =~= e.2@.take(j as int));
                        assert(pfx.last() == e.2@[j as int]);
                        assert forall|k: int|
                            0 <= k < e.2@.take(j as int).len() implies (#[trigger] e.2@.take(
                            j as int,
                        )[k]).0@ == cvec@[k].0@ && e.2@.take(j as int)[k].1 == cvec@[k].1 by {
                            assert(e.2@.take(j as int)[k] == e.2@[k]);
                        }
                        lemma_map_of_congruent(e.2@.take(j as int), cvec@);
                        lemma_sum_prefix(e.2@, j + 1);
                        assert(sum_vals(e.2@) > u64::MAX);
                        assert(!valid_counts(es[i as int].2@));
                        assert(!valid_entries(es));
                    }
                    return None;
                }
                let ghost oldc = cvec@;
                let t = clone_chars(&e.2[j].0);
                proof {
                    assert(!has_key(oldc, e.2@[j as int].0@)) by {
                        if has_key(oldc, e.2@[j as int].0@) {
                            let k = choose|k: int|
                                0 <= k < oldc.len() && oldc[k].0@ == e.2@[j as int].0@;
                            assert(false);
                        }
                    }
                    crate::model::lemma_push_unique(oldc, (t, c));
                }
                cvec.push((t, c));
                proof {
                    assert(cvec@.drop_last() =~= oldc);
                }
                total = total + c;
                j += 1;
            }
            proof {
                assert forall|k: int|
                    0 <= k < e.2@.len() implies (#[trigger] e.2@[k]).0@ == cvec@[k].0@ && e.2@[k].1
                    == cvec@[k].1 by {}
                lemma_map_of_congruent(e.2@, cvec@);
                assert(unique_keys(es[i as int].2@)) by {
                    assert forall|a: int, b: int|
                        0 <= a < b < e.2@.len() implies (#[trigger] e.2@[a]).0@ != (
                    #[trigger] e.2@[b]).0@ by {
                        assert(cvec@[a].0@ == e.2@[a].0@);
                        assert(cvec@[b].0@ == e.2@[b].0@);
                    }
                }
                assert(valid_counts(es[i as int].2@));
            }
            let doc = Document { mtime: e.1, counts: cvec, total };
            let ghost dvv = doc@;
            let p = clone_chars(&e.0);
            let ghost m_before = m;
            proof {
                assert(doc.inv());
                assert(!m@.contains_key(p@)) by {
                    lemma_doc_map_dom(m.docs@, p@);
                }
                assert(dvv =~= doc_of_entry(es[i as int]));
            }
            m.insert_prepared(p, doc);
            proof {
                assert(m.docs_seq() =~= loaded_docs(es).take(i + 1 as int));
                assert forall|a: int, b: int| 0 <= a < b < i + 1 implies (#[trigger] es[a]).0@
                    != (#[trigger] es[b]).0@ by {
                    if b == i as int {
                        assert(m_before.docs_seq()[a].0 == es[a].0@);
                        assert(!has_key(m_before.docs@, es[i as int].0@));
                        assert(m_before.docs@[a].0@ == es[a].0@);
                    }
                }
            }
            i += 1;
        }
        proof {
            assert(loaded_docs(es).take(es.len() as int) =~= loaded_docs(es));
        }
        Some(m)
    }
}

} // verus!
