//! The index model: per-document term counts, corpus-wide document
//! frequencies, staleness checks, ranked queries and snapshots.
//!
//! Documents and frequency tables are association vectors with unique keys;
//! their mathematical views are maps, and the central invariant ties the
//! stored document frequency of every term to the number of stored documents
//! that contain it.
use vstd::prelude::*;
use crate::chars::{seq_views, chars_eq, clone_chars};
use crate::lexer::{lex, lex_spec};

verus! {

pub open spec fn unique_keys<V>(s: Seq<(Vec<char>, V)>) -> bool {
    forall|i: int, j: int| 0 <= i < j < s.len() ==> s[i].0@ != s[j].0@
}

pub open spec fn has_key<V>(s: Seq<(Vec<char>, V)>, k: Seq<char>) -> bool {
    exists|i: int| 0 <= i < s.len() && s[i].0@ == k
}

/// The map an association vector denotes; later entries would win.
pub open spec fn map_of<V>(s: Seq<(Vec<char>, V)>) -> Map<Seq<char>, V>
    decreases s.len(),
{
    if s.len() == 0 {
        Map::empty()
    } else {
        map_of(s.drop_last()).insert(s.last().0@, s.last().1)
    }
}

pub proof fn lemma_map_of_dom<V>(s: Seq<(Vec<char>, V)>, k: Seq<char>)
    ensures
        map_of(s).contains_key(k) <==> has_key(s, k),
    decreases s.len(),
{
    if s.len() == 0 {
    } else {
        lemma_map_of_dom(s.drop_last(), k);
        if s.last().0@ == k {
            assert(s[s.len() - 1].0@ == k);
        } else {
            if has_key(s, k) {
                let i = choose|i: int| 0 <= i < s.len() && s[i].0@ == k;
                assert(s.drop_last()[i] == s[i]);
            }
            if has_key(s.drop_last(), k) {
                let i = choose|i: int| 0 <= i < s.drop_last().len() && s.drop_last()[i].0@ == k;
                assert(s[i] == s.drop_last()[i]);
            }
        }
    }
}

pub proof fn lemma_map_of_index<V>(s: Seq<(Vec<char>, V)>, i: int)
    requires
        unique_keys(s),
        0 <= i < s.len(),
    ensures
        map_of(s).contains_key(s[i].0@),
        map_of(s)[s[i].0@] == s[i].1,
    decreases s.len(),
{
    if i == s.len() - 1 {
    } else {
        assert(s.drop_last()[i] == s[i]);
        lemma_map_of_index(s.drop_last(), i);
        assert(s[i].0@ != s[s.len() - 1].0@);
    }
}

pub proof fn lemma_remove_unique<V>(s: Seq<(Vec<char>, V)>, j: int)
    requires
        unique_keys(s),
        0 <= j < s.len(),
    ensures
        unique_keys(s.remove(j)),
        !has_key(s.remove(j), s[j].0@),
    decreases s.len(),
{
    let t = s.remove(j);
    assert forall|a: int, b: int| 0 <= a < b < t.len() implies t[a].0@ != t[b].0@ by {
        let oa = if a < j {
            a
        } else {
            a + 1
        };
        let ob = if b < j {
            b
        } else {
            b + 1
        };
        assert(t[a] == s[oa]);
        assert(t[b] == s[ob]);
    }
    if has_key(t, s[j].0@) {
        let i = choose|i: int| 0 <= i < t.len() && t[i].0@ == s[j].0@;
        let oi = if i < j {
            i
        } else {
            i + 1
        };
        assert(t[i] == s[oi]);
    }
}

pub proof fn lemma_push_unique<V>(s: Seq<(Vec<char>, V)>, p: (Vec<char>, V))
    requires
        unique_keys(s),
        !has_key(s, p.0@),
    ensures
        unique_keys(s.push(p)),
{
    let t = s.push(p);
    assert forall|a: int, b: int| 0 <= a < b < t.len() implies t[a].0@ != t[b].0@ by {
        if b < s.len() {
            assert(t[a] == s[a] && t[b] == s[b]);
        } else {
            assert(t[a] == s[a] && t[b] == p);
        }
    }
}

pub open spec fn sum_vals(s: Seq<(Vec<char>, u64)>) -> int
    decreases s.len(),
{
    if s.len() == 0 {
        0
    } else {
        sum_vals(s.drop_last()) + s.last().1
    }
}

pub proof fn lemma_sum_nonneg(s: Seq<(Vec<char>, u64)>)
    ensures
        sum_vals(s) >= 0,
    decreases s.len(),
{
    if s.len() > 0 {
        lemma_sum_nonneg(s.drop_last());
    }
}

pub proof fn lemma_val_le_sum(s: Seq<(Vec<char>, u64)>, i: int)
    requires
        0 <= i < s.len(),
    ensures
        s[i].1 <= sum_vals(s),
    decreases s.len(),
{
    if i == s.len() - 1 {
        lemma_sum_nonneg(s.drop_last());
    } else {
        assert(s.drop_last()[i] == s[i]);
        lemma_val_le_sum(s.drop_last(), i);
    }
}

pub proof fn lemma_sum_remove(s: Seq<(Vec<char>, u64)>, i: int)
    requires
        0 <= i < s.len(),
    ensures
        sum_vals(s.remove(i)) == sum_vals(s) - s[i].1,
    decreases s.len(),
{
    if i == s.len() - 1 {
        assert(s.remove(i) =~= s.drop_last());
    } else {
        assert(s.remove(i).drop_last() =~= s.drop_last().remove(i));
        assert(s.remove(i).last() == s.last());
        lemma_sum_remove(s.drop_last(), i);
    }
}

pub proof fn lemma_map_of_remove<V>(s: Seq<(Vec<char>, V)>, i: int)
    requires
        unique_keys(s),
        0 <= i < s.len(),
    ensures
        map_of(s.remove(i)) =~= map_of(s).remove(s[i].0@),
    decreases s.len(),
{
    if i == s.len() - 1 {
        assert(s.remove(i) =~= s.drop_last());
        lemma_map_of_dom(s.drop_last(), s[i].0@);
        assert(!has_key(s.drop_last(), s[i].0@)) by {
            if has_key(s.drop_last(), s[i].0@) {
                let j = choose|j: int|
                    0 <= j < s.drop_last().len() && s.drop_last()[j].0@ == s[i].0@;
                assert(s[j] == s.drop_last()[j]);
            }
        }
        assert(map_of(s.drop_last()) =~= map_of(s.drop_last()).insert(
            s.last().0@,
            s.last().1,
        ).remove(s[i].0@));
    } else {
        assert(s.remove(i).drop_last() =~= s.drop_last().remove(i));
        assert(s.remove(i).last() == s.last());
        assert(s.drop_last()[i] == s[i]);
        lemma_map_of_remove(s.drop_last(), i);
        assert(s[i].0@ != s.last().0@);
        assert(map_of(s.remove(i)) =~= map_of(s).remove(s[i].0@));
    }
}

pub fn find_key<V>(s: &Vec<(Vec<char>, V)>, k: &Vec<char>) -> (r: Option<usize>)
    ensures
        match r {
            Some(i) => i < s@.len() && s@[i as int].0@ == k@,
            None => !has_key(s@, k@),
        },
{
    let mut i: usize = 0;
    while i < s.len()
        invariant
            0 <= i <= s@.len(),
            forall|j: int| 0 <= j < i ==> s@[j].0@ != k@,
        decreases s@.len() - i,
    {
        if chars_eq(&s[i].0, k) {
            return Some(i);
        }
        i += 1;
    }
    None
}

/// One indexed file: its modification time, its term counts (unique terms,
/// each count at least one) and the total number of terms it contained.
pub struct Document {
    pub mtime: u64,
    pub counts: Vec<(Vec<char>, u64)>,
    pub total: u64,
}

/// The mathematical content of a `Document`.
#[verifier::ext_equal]
pub ghost struct DocModel {
    pub mtime: u64,
    pub counts: Map<Seq<char>, u64>,
    pub total: u64,
}

impl Document {
    pub open spec fn view(self) -> DocModel {
        DocModel { mtime: self.mtime, counts: map_of(self.counts@), total: self.total }
    }

    pub open spec fn inv(self) -> bool {
        &&& unique_keys(self.counts@)
        &&& forall|i: int| 0 <= i < self.counts@.len() ==> #[trigger] self.counts@[i].1 >= 1
        &&& self.total == sum_vals(self.counts@)
    }
}

/// The count of one term in a document model.
pub open spec fn cnt(d: DocModel, t: Seq<char>) -> u64 {
    if d.counts.contains_key(t) {
        d.counts[t]
    } else {
        0
    }
}

pub open spec fn dcontains(d: DocModel, t: Seq<char>) -> bool {
    d.counts.contains_key(t) && d.counts[t] > 0
}

/// The term-count map of a term sequence.
pub open spec fn counts_of(ts: Seq<Seq<char>>) -> Map<Seq<char>, u64>
    decreases ts.len(),
{
    if ts.len() == 0 {
        Map::empty()
    } else {
        let m = counts_of(ts.drop_last());
        let prev: u64 = if m.contains_key(ts.last()) {
            m[ts.last()]
        } else {
            0u64
        };
        m.insert(ts.last(), ((prev + 1) as u64))
    }
}

pub open spec fn doc_from_terms(ts: Seq<Seq<char>>, mtime: u64) -> DocModel {
    DocModel { mtime: mtime, counts: counts_of(ts), total: ts.len() as u64 }
}

/// The document that indexing `content` at time `mtime` produces.
pub open spec fn doc_of(content: Seq<char>, mtime: u64) -> DocModel {
    doc_from_terms(lex_spec(content), mtime)
}

pub fn build_document(mtime: u64, terms: &Vec<Vec<char>>) -> (d: Document)
    ensures
        d.inv(),
        d@ =~= doc_from_terms(seq_views(terms@), mtime),
{
    let ghost ts = seq_views(terms@);
    let mut counts: Vec<(Vec<char>, u64)> = Vec::new();
    let mut i: usize = 0;
    proof {
        assert(ts.take(0) =~= Seq::<Seq<char>>::empty());
        assert(map_of(counts@) =~= counts_of(ts.take(0)));
    }
    while i < terms.len()
        invariant
            0 <= i <= terms@.len(),
            ts == seq_views(terms@),
            unique_keys(counts@),
            forall|j: int| 0 <= j < counts@.len() ==> #[trigger] counts@[j].1 >= 1,
            sum_vals(counts@) == i,
            map_of(counts@) == counts_of(ts.take(i as int)),
        decreases terms@.len() - i,
    {
        let ghost pre = counts@;
        proof {
            assert(ts.take(i + 1 as int).drop_last() =~= ts.take(i as int));
            assert(ts.take(i + 1 as int).last() == terms@[i as int]@);
        }
        match find_key(&counts, &terms[i]) {
            Some(j) => {
                proof {
                    lemma_map_of_index(pre, j as int);
                    lemma_val_le_sum(pre, j as int);
                    lemma_remove_unique(pre, j as int);
                    lemma_map_of_remove(pre, j as int);
                    lemma_sum_remove(pre, j as int);
                }
                let (k, c) = counts.remove(j);
                proof {
                    lemma_push_unique(counts@, (k, (c + 1) as u64));
                }
                counts.push((k, c + 1));
                proof {
                    assert(counts@.drop_last() =~= pre.remove(j as int));
                    assert(map_of(counts@) =~= counts_of(ts.take(i + 1 as int)));
                }
            },
            None => {
                proof {
                    lemma_map_of_dom(pre, terms@[i as int]@);
                }
                let t = clone_chars(&terms[i]);
                proof {
                    lemma_push_unique(counts@, (t, 1u64));
                }
                counts.push((t, 1));
                proof {
                    assert(counts@.drop_last() =~= pre);
                    assert(map_of(counts@) =~= counts_of(ts.take(i + 1 as int)));
                }
            },
        }
        i += 1;
    }
    proof {
        assert(ts.take(terms@.len() as int) =~= ts);
    }
    Document { mtime, counts, total: terms.len() as u64 }
}

/// The map a document vector denotes.
pub open spec fn doc_map(s: Seq<(Vec<char>, Document)>) -> Map<Seq<char>, DocModel>
    decreases s.len(),
{
    if s.len() == 0 {
        Map::empty()
    } else {
        doc_map(s.drop_last()).insert(s.last().0@, s.last().1@)
    }
}

pub proof fn lemma_doc_map_dom(s: Seq<(Vec<char>, Document)>, k: Seq<char>)
    ensures
        doc_map(s).contains_key(k) <==> has_key(s, k),
    decreases s.len(),
{
    if s.len() == 0 {
    } else {
        lemma_doc_map_dom(s.drop_last(), k);
        if s.last().0@ == k {
            assert(s[s.len() - 1].0@ == k);
        } else {
            if has_key(s, k) {
                let i = choose|i: int| 0 <= i < s.len() && s[i].0@ == k;
                assert(s.drop_last()[i] == s[i]);
            }
            if has_key(s.drop_last(), k) {
                let i = choose|i: int| 0 <= i < s.drop_last().len() && s.drop_last()[i].0@ == k;
                assert(s[i] == s.drop_last()[i]);
            }
        }
    }
}

pub proof fn lemma_doc_map_index(s: Seq<(Vec<char>, Document)>, i: int)
    requires
        unique_keys(s),
        0 <= i < s.len(),
    ensures
        doc_map(s).contains_key(s[i].0@),
        doc_map(s)[s[i].0@] == s[i].1@,
    decreases s.len(),
{
    if i == s.len() - 1 {
    } else {
        assert(s.drop_last()[i] == s[i]);
        lemma_doc_map_index(s.drop_last(), i);
        assert(s[i].0@ != s[s.len() - 1].0@);
    }
}

pub proof fn lemma_doc_map_remove(s: Seq<(Vec<char>, Document)>, i: int)
    requires
        unique_keys(s),
        0 <= i < s.len(),
    ensures
        doc_map(s.remove(i)) =~= doc_map(s).remove(s[i].0@),
    decreases s.len(),
{
    if i == s.len() - 1 {
        assert(s.remove(i) =~= s.drop_last());
        lemma_doc_map_dom(s.drop_last(), s[i].0@);
        assert(!has_key(s.drop_last(), s[i].0@)) by {
            if has_key(s.drop_last(), s[i].0@) {
                let j = choose|j: int|
                    0 <= j < s.drop_last().len() && s.drop_last()[j].0@ == s[i].0@;
                assert(s[j] == s.drop_last()[j]);
            }
        }
        assert(doc_map(s.drop_last()) =~= doc_map(s.drop_last()).insert(
            s.last().0@,
            s.last().1@,
        ).remove(s[i].0@));
    } else {
        assert(s.remove(i).drop_last() =~= s.drop_last().remove(i));
        assert(s.remove(i).last() == s.last());
        assert(s.drop_last()[i] == s[i]);
        lemma_doc_map_remove(s.drop_last(), i);
        assert(s[i].0@ != s.last().0@);
        assert(doc_map(s.remove(i)) =~= doc_map(s).remove(s[i].0@));
    }
}

pub open spec fn seq_of_docs(s: Seq<(Vec<char>, Document)>) -> Seq<(Seq<char>, DocModel)> {
    Seq::new(s.len(), |i: int| (s[i].0@, s[i].1@))
}

/// How many documents of `ds` contain the term `t`.
pub open spec fn df_seq(ds: Seq<(Seq<char>, DocModel)>, t: Seq<char>) -> int
    decreases ds.len(),
{
    if ds.len() == 0 {
        0
    } else {
        df_seq(ds.drop_last(), t) + if dcontains(ds.last().1, t) {
            1int
        } else {
            0int
        }
    }
}

pub proof fn lemma_df_seq_bounds(ds: Seq<(Seq<char>, DocModel)>, t: Seq<char>)
    ensures
        0 <= df_seq(ds, t) <= ds.len(),
    decreases ds.len(),
{
    if ds.len() > 0 {
        lemma_df_seq_bounds(ds.drop_last(), t);
    }
}

pub proof fn lemma_df_seq_remove(ds: Seq<(Seq<char>, DocModel)>, i: int, t: Seq<char>)
    requires
        0 <= i < ds.len(),
    ensures
        df_seq(ds.remove(i), t) == df_seq(ds, t) - (if dcontains(ds[i].1, t) {
            1int
        } else {
            0int
        }),
    decreases ds.len(),
{
    if i == ds.len() - 1 {
        assert(ds.remove(i) =~= ds.drop_last());
    } else {
        assert(ds.remove(i).drop_last() =~= ds.drop_last().remove(i));
        assert(ds.remove(i).last() == ds.last());
        assert(ds.drop_last()[i] == ds[i]);
        lemma_df_seq_remove(ds.drop_last(), i, t);
    }
}

/// The stored document frequency of `t`: the association value, or zero.
pub open spec fn dfv(s: Seq<(Vec<char>, u64)>, t: Seq<char>) -> int {
    if map_of(s).contains_key(t) {
        map_of(s)[t] as int
    } else {
        0
    }
}

pub open spec fn key_in_prefix(s: Seq<(Vec<char>, u64)>, j: int, t: Seq<char>) -> bool {
    exists|k: int| 0 <= k < j && s[k].0@ == t
}

fn df_dec(df: &mut Vec<(Vec<char>, u64)>, t: &Vec<char>)
    requires
        unique_keys(old(df)@),
        forall|i: int| 0 <= i < old(df)@.len() ==> #[trigger] old(df)@[i].1 >= 1,
        dfv(old(df)@, t@) >= 1,
    ensures
        unique_keys(final(df)@),
        forall|i: int| 0 <= i < final(df)@.len() ==> #[trigger] final(df)@[i].1 >= 1,
        dfv(final(df)@, t@) == dfv(old(df)@, t@) - 1,
        forall|u: Seq<char>| u != t@ ==> #[trigger] dfv(final(df)@, u) == dfv(old(df)@, u),
{
    let ghost pre = df@;
    match find_key(df, t) {
        Some(i) => {
            proof {
                lemma_map_of_index(pre, i as int);
                lemma_remove_unique(pre, i as int);
                lemma_map_of_remove(pre, i as int);
            }
            let (k, c) = df.remove(i);
            if c > 1 {
                proof {
                    lemma_push_unique(df@, (k, (c - 1) as u64));
                }
                let ghost mid = df@;
                df.push((k, c - 1));
                proof {
                    assert(df@.drop_last() =~= mid);
                    assert(map_of(df@) =~= map_of(pre).remove(t@).insert(t@, (c - 1) as u64));
                }
            } else {
                proof {
                    assert(map_of(df@) =~= map_of(pre).remove(t@));
                }
            }
        },
        None => {
            proof {
                lemma_map_of_dom(pre, t@);
                assert(false);
            }
        },
    }
}

fn df_inc(df: &mut Vec<(Vec<char>, u64)>, t: &Vec<char>)
    requires
        unique_keys(old(df)@),
        forall|i: int| 0 <= i < old(df)@.len() ==> #[trigger] old(df)@[i].1 >= 1,
        dfv(old(df)@, t@) < u64::MAX,
    ensures
        unique_keys(final(df)@),
        forall|i: int| 0 <= i < final(df)@.len() ==> #[trigger] final(df)@[i].1 >= 1,
        dfv(final(df)@, t@) == dfv(old(df)@, t@) + 1,
        forall|u: Seq<char>| u != t@ ==> #[trigger] dfv(final(df)@, u) == dfv(old(df)@, u),
{
    let ghost pre = df@;
    match find_key(df, t) {
        Some(i) => {
            proof {
                lemma_map_of_index(pre, i as int);
                lemma_remove_unique(pre, i as int);
                lemma_map_of_remove(pre, i as int);
            }
            let (k, c) = df.remove(i);
            proof {
                lemma_push_unique(df@, (k, (c + 1) as u64));
            }
            let ghost mid = df@;
            df.push((k, c + 1));
            proof {
                assert(df@.drop_last() =~= mid);
                assert(map_of(df@) =~= map_of(pre).remove(t@).insert(t@, (c + 1) as u64));
            }
        },
        None => {
            proof {
                lemma_map_of_dom(pre, t@);
            }
            let k = clone_chars(t);
            proof {
                lemma_push_unique(pre, (k, 1u64));
            }
            df.push((k, 1));
            proof {
                assert(df@.drop_last() =~= pre);
                assert(map_of(df@) =~= map_of(pre).insert(t@, 1u64));
            }
        },
    }
}

/// The index: documents keyed by path, and the derived document-frequency
/// table, kept consistent by every mutation.
pub struct Model {
    pub docs: Vec<(Vec<char>, Document)>,
    pub df: Vec<(Vec<char>, u64)>,
}

impl Model {
    /// The map from path to document content.
    pub open spec fn view(self) -> Map<Seq<char>, DocModel> {
        doc_map(self.docs@)
    }

    /// The stored documents in insertion order; ranking ties follow it.
    pub open spec fn docs_seq(self) -> Seq<(Seq<char>, DocModel)> {
        seq_of_docs(self.docs@)
    }

    pub open spec fn inv(self) -> bool {
        &&& unique_keys(self.docs@)
        &&& forall|i: int| 0 <= i < self.docs@.len() ==> (#[trigger] self.docs@[i].1).inv()
        &&& unique_keys(self.df@)
        &&& forall|i: int| 0 <= i < self.df@.len() ==> #[trigger] self.df@[i].1 >= 1
        &&& forall|t: Seq<char>| #[trigger] dfv(self.df@, t) == df_seq(self.docs_seq(), t)
    }

    pub fn new() -> (m: Model)
        ensures
            m.inv(),
            m@ =~= Map::<Seq<char>, DocModel>::empty(),
            m.docs_seq() =~= Seq::<(Seq<char>, DocModel)>::empty(),
    {
        let m = Model { docs: Vec::new(), df: Vec::new() };
        proof {
            assert(m.docs_seq() =~= Seq::<(Seq<char>, DocModel)>::empty());
            assert forall|t: Seq<char>| #[trigger] dfv(m.df@, t) == df_seq(m.docs_seq(), t) by {
                assert(map_of(m.df@) =~= Map::<Seq<char>, u64>::empty());
            }
        }
        m
    }

    /// True when `path` is absent, or stored with a strictly older timestamp.
    pub fn requires_reindexing(&self, path: &Vec<char>, mtime: u64) -> (r: bool)
        requires
            self.inv(),
        ensures
            r == needs_reindex(self@, path@, mtime),
    {
        match find_key(&self.docs, path) {
            Some(i) => {
                proof {
                    lemma_doc_map_index(self.docs@, i as int);
                }
                self.docs[i].1.mtime < mtime
            },
            None => {
                proof {
                    lemma_doc_map_dom(self.docs@, path@);
                }
                true
            },
        }
    }
}

/// Whether a path must be (re)indexed given a modification time.
pub open spec fn needs_reindex(m: Map<Seq<char>, DocModel>, p: Seq<char>, mtime: u64) -> bool {
    !m.contains_key(p) || m[p].mtime < mtime
}

impl Model {
    /// Replace or insert one already-built document. Any old document's
    /// contribution to the frequency table is undone before the new one's is
    /// added, which is what keeps the frequency invariant.
    #[verifier::rlimit(60)]
    pub fn insert_prepared(&mut self, path: Vec<char>, doc: Document)
        requires
            old(self).inv(),
            doc.inv(),
        ensures
            final(self).inv(),
            final(self)@ == old(self)@.insert(path@, doc@),
            !old(self)@.contains_key(path@) ==> final(self).docs_seq() == old(
                self,
            ).docs_seq().push((path@, doc@)),
            old(self)@.contains_key(path@) ==> exists|i: int|
                0 <= i < old(self).docs_seq().len() && old(self).docs_seq()[i].0 == path@
                    && final(self).docs_seq() == old(self).docs_seq().remove(i).push(
                    (path@, doc@),
                ),
    {
        let ghost ds0 = self.docs_seq();
        let ghost m0 = self@;
        let found = find_key(&self.docs, &path);
        match found {
            Some(i) => {
                let ghost pre = self.docs@;
                proof {
                    lemma_doc_map_dom(pre, path@);
                    lemma_remove_unique(pre, i as int);
                    lemma_doc_map_remove(pre, i as int);
                }
                proof {
                    assert(pre[i as int].1.inv());
                }
                let (_old_path, old_doc) = self.docs.remove(i);
                let ghost odv = old_doc@;
                let ghost oc = old_doc.counts@;
                let ghost ds2 = self.docs_seq();
                proof {
                    assert(old_doc.inv());
                    assert(ds2 =~= ds0.remove(i as int));
                    assert forall|t: Seq<char>| #[trigger] dfv(self.df@, t) == df_seq(ds2, t)
                        + (if dcontains(odv, t) && !key_in_prefix(oc, 0, t) {
                        1int
                    } else {
                        0int
                    }) by {
                        lemma_df_seq_remove(ds0, i as int, t);
                        assert(ds0[i as int].1 == odv);
                    }
                }
                let mut j: usize = 0;
                while j < old_doc.counts.len()
                    invariant
                        0 <= j <= oc.len(),
                        oc == old_doc.counts@,
                        odv == old_doc@,
                        old_doc.inv(),
                        unique_keys(self.df@),
                        forall|k: int|
                            0 <= k < self.df@.len() ==> #[trigger] self.df@[k].1 >= 1,
                        self.docs@ == pre.remove(i as int),
                        self.docs_seq() == ds2,
                        forall|t: Seq<char>| #[trigger] dfv(self.df@, t) == df_seq(ds2, t) + (
                        if dcontains(odv, t) && !key_in_prefix(oc, j as int, t) {
                            1int
                        } else {
                            0int
                        }),
                    decreases oc.len() - j,
                {
                    let ghost tj = oc[j as int].0@;
                    proof {
                        lemma_map_of_index(oc, j as int);
                        assert(oc[j as int].1 >= 1);
                        assert(odv.counts == map_of(oc));
                        assert(dcontains(odv, tj));
                        assert(!key_in_prefix(oc, j as int, tj));
                        lemma_df_seq_bounds(ds2, tj);
                    }
                    let ghost dfpre = self.df@;
                    df_dec(&mut self.df, &old_doc.counts[j].0);
                    proof {
                        assert forall|t: Seq<char>| #[trigger] dfv(self.df@, t) == df_seq(ds2, t)
                            + (if dcontains(odv, t) && !key_in_prefix(oc, j + 1 as int, t) {
                            1int
                        } else {
                            0int
                        }) by {
                            if t == tj {
                                assert(key_in_prefix(oc, j + 1 as int, t));
                            } else {
                                assert(dfv(self.df@, t) == dfv(dfpre, t));
                                assert(key_in_prefix(oc, j + 1 as int, t) == key_in_prefix(
                                    oc,
                                    j as int,
                                    t,
                                )) by {
                                    if key_in_prefix(oc, j + 1 as int, t) {
                                        let k = choose|k: int|
                                            0 <= k < j + 1 && oc[k].0@ == t;
                                        assert(k != j);
                                        assert(key_in_prefix(oc, j as int, t));
                                    }
                                }
                            }
                        }
                    }
                    j += 1;
                }
                proof {
                    assert forall|t: Seq<char>| #[trigger] dfv(self.df@, t) == df_seq(ds2, t) by {
                        if dcontains(odv, t) {
                            lemma_map_of_dom(oc, t);
                            assert(key_in_prefix(oc, oc.len() as int, t));
                        }
                    }
                    assert(pre[i as int].0@ == path@);
                    assert(!has_key(self.docs@, path@));
                }
            },
            None => {
                proof {
                    lemma_doc_map_dom(self.docs@, path@);
                    assert(!has_key(self.docs@, path@));
                }
            },
        }
        let ghost ds2 = self.docs_seq();
        let ghost m2 = self@;
        let ghost dv = doc@;
        let ghost nc = doc.counts@;
        let ghost pathv = path@;
        proof {
            assert(!has_key(self.docs@, path@));
            lemma_push_unique(self.docs@, (path, doc));
        }
        let ghost docs2 = self.docs@;
        self.docs.push((path, doc));
        let ghost docs3 = self.docs@;
        let ghost ds3 = self.docs_seq();
        proof {
            assert(self.docs@.drop_last() =~= docs2);
            assert(ds3.drop_last() =~= ds2);
            assert(ds3.last() == (pathv, dv));
            assert(ds3 =~= ds2.push((pathv, dv)));
            assert forall|t: Seq<char>| df_seq(ds3, t) == df_seq(ds2, t) + (if dcontains(dv, t) {
                1int
            } else {
                0int
            }) by {}
        }
        let di = self.docs.len() - 1;
        let mut j: usize = 0;
        while j < self.docs[di].1.counts.len()
            invariant
                0 <= j <= nc.len(),
                di == self.docs@.len() - 1,
                self.docs@ == docs3,
                self.docs@[di as int].1.counts@ == nc,
                self.docs_seq() == ds3,
                unique_keys(self.docs@),
                unique_keys(self.df@),
                dv.counts == map_of(nc),
                unique_keys(nc),
                forall|k: int| 0 <= k < nc.len() ==> #[trigger] nc[k].1 >= 1,
                forall|k: int| 0 <= k < self.df@.len() ==> #[trigger] self.df@[k].1 >= 1,
                forall|t: Seq<char>|
                    #[trigger] dfv(self.df@, t) + (if dcontains(dv, t) && !key_in_prefix(
                        nc,
                        j as int,
                        t,
                    ) {
                        1int
                    } else {
                        0int
                    }) == df_seq(ds3, t),
            decreases nc.len() - j,
        {
            let ghost tj = nc[j as int].0@;
            let n = self.docs.len();
            proof {
                lemma_map_of_index(nc, j as int);
                assert(nc[j as int].1 >= 1);
                assert(dv.counts == map_of(nc));
                assert(dcontains(dv, tj));
                assert(!key_in_prefix(nc, j as int, tj));
                lemma_df_seq_bounds(ds3, tj);
                assert(ds3.len() == self.docs@.len());
                assert(n == self.docs@.len());
                assert(dfv(self.df@, tj) + 1 <= n);
                assert(dfv(self.df@, tj) < u64::MAX);
            }
            let ghost dfpre = self.df@;
            df_inc(&mut self.df, &self.docs[di].1.counts[j].0);
            proof {
                assert forall|t: Seq<char>|
                    #[trigger] dfv(self.df@, t) + (if dcontains(dv, t) && !key_in_prefix(
                        nc,
                        j + 1 as int,
                        t,
                    ) {
                        1int
                    } else {
                        0int
                    }) == df_seq(ds3, t) by {
                    if t == tj {
                        assert(key_in_prefix(nc, j + 1 as int, t));
                    } else {
                        assert(dfv(self.df@, t) == dfv(dfpre, t));
                        assert(key_in_prefix(nc, j + 1 as int, t) == key_in_prefix(
                            nc,
                            j as int,
                            t,
                        )) by {
                            if key_in_prefix(nc, j + 1 as int, t) {
                                let k = choose|k: int| 0 <= k < j + 1 && nc[k].0@ == t;
                                assert(k != j);
                                assert(key_in_prefix(nc, j as int, t));
                            }
                        }
                    }
                }
            }
            j += 1;
        }
        proof {
            assert forall|t: Seq<char>| #[trigger] dfv(self.df@, t) == df_seq(
                self.docs_seq(),
                t,
            ) by {
                if dcontains(dv, t) {
                    lemma_map_of_dom(nc, t);
                    assert(key_in_prefix(nc, nc.len() as int, t));
                }
            }
            assert(self@ =~= doc_map(docs2).insert(pathv, dv));
            if let Some(i) = found {
                assert(ds0[i as int].0 == pathv);
                assert(m0.contains_key(pathv));
                assert(self.docs_seq() =~= ds0.remove(i as int).push((pathv, dv)));
            } else {
                assert(!m0.contains_key(pathv));
                assert(self.docs_seq() =~= ds0.push((pathv, dv)));
            }
            assert(self@ =~= m0.insert(pathv, dv));
            assert forall|k: int| 0 <= k < self.docs@.len() implies (#[trigger] self.docs@[k].1).inv() by {
                if k < docs2.len() {
                    assert(self.docs@[k] == docs2[k]);
                }
            }
        }
    }

    /// Build a document from `content` and store it under `path`, replacing
    /// any previous document for that path.
    pub fn add_document(&mut self, path: Vec<char>, mtime: u64, content: &Vec<char>)
        requires
            old(self).inv(),
        ensures
            final(self).inv(),
            final(self)@ == old(self)@.insert(path@, doc_of(content@, mtime)),
            !old(self)@.contains_key(path@) ==> final(self).docs_seq() == old(
                self,
            ).docs_seq().push((path@, doc_of(content@, mtime))),
            old(self)@.contains_key(path@) ==> exists|i: int|
                0 <= i < old(self).docs_seq().len() && old(self).docs_seq()[i].0 == path@
                    && final(self).docs_seq() == old(self).docs_seq().remove(i).push(
                    (path@, doc_of(content@, mtime)),
                ),
    {
        let terms = lex(content.as_slice());
        let doc = build_document(mtime, &terms);
        proof {
            assert(doc@ =~= doc_of(content@, mtime));
        }
        self.insert_prepared(path, doc);
    }
}

/// Query terms with later duplicates dropped: each term scores once.
pub open spec fn dedup(ts: Seq<Seq<char>>) -> Seq<Seq<char>>
    decreases ts.len(),
{
    if ts.len() == 0 {
        Seq::empty()
    } else {
        let d = dedup(ts.drop_last());
        if ts.drop_last().contains(ts.last()) {
            d
        } else {
            d.push(ts.last())
        }
    }
}

pub fn dedup_terms(ts: &Vec<Vec<char>>) -> (r: Vec<Vec<char>>)
    ensures
        seq_views(r@) == dedup(seq_views(ts@)),
{
    let ghost tv = seq_views(ts@);
    let mut out: Vec<Vec<char>> = Vec::new();
    let mut i: usize = 0;
    proof {
        assert(tv.take(0) =~= Seq::<Seq<char>>::empty());
        assert(seq_views(out@) =~= dedup(tv.take(0)));
    }
    while i < ts.len()
        invariant
            0 <= i <= ts@.len(),
            tv == seq_views(ts@),
            seq_views(out@) == dedup(tv.take(i as int)),
        decreases ts@.len() - i,
    {
        let mut found = false;
        let mut j: usize = 0;
        while j < i
            invariant
                0 <= j <= i < ts@.len(),
                tv == seq_views(ts@),
                found <==> exists|k: int| 0 <= k < j && tv[k] == tv[i as int],
            decreases i - j,
        {
            if chars_eq(&ts[j], &ts[i]) {
                found = true;
                proof {
                    assert(tv[j as int] == tv[i as int]);
                }
            } else {
                proof {
                    assert(tv[j as int] != tv[i as int]);
                }
            }
            j += 1;
        }
        proof {
            assert(tv.take(i + 1 as int).drop_last() =~= tv.take(i as int));
            assert(tv.take(i + 1 as int).last() == tv[i as int]);
            assert(found <==> tv.take(i as int).contains(tv[i as int])) by {
                if found {
                    let k = choose|k: int| 0 <= k < i && tv[k] == tv[i as int];
                    assert(tv.take(i as int)[k] == tv[i as int]);
                }
                if tv.take(i as int).contains(tv[i as int]) {
                    let k = choose|k: int|
                        0 <= k < i && tv.take(i as int)[k] == tv[i as int];
                    assert(tv[k] == tv[i as int]);
                }
            }
        }
        if !found {
            let ghost olddv = seq_views(out@);
            let t = clone_chars(&ts[i]);
            let ghost tvv = t@;
            out.push(t);
            proof {
                assert(seq_views(out@) =~= olddv.push(tvv));
            }
        }
        i += 1;
    }
    proof {
        assert(tv.take(ts@.len() as int) =~= tv);
    }
    out
}

/// One term's share of a document's score: `tf * idf`, in Q32 fixed point.
pub open spec fn term_share(d: DocModel, t: Seq<char>, ds: Seq<(Seq<char>, DocModel)>) -> int {
    if cnt(d, t) == 0 || d.total == 0 {
        0
    } else {
        (cnt(d, t) as int) * crate::rank::idf_spec(ds.len() as int, df_seq(ds, t)) * 65536 / (
        d.total as int)
    }
}

pub open spec fn score_terms(d: DocModel, qts: Seq<Seq<char>>, ds: Seq<(Seq<char>, DocModel)>)
    -> int
    decreases qts.len(),
{
    if qts.len() == 0 {
        0
    } else {
        score_terms(d, qts.drop_last(), ds) + term_share(d, qts.last(), ds)
    }
}

pub open spec fn clip64(x: int) -> u64 {
    if x > u64::MAX {
        u64::MAX
    } else if x < 0 {
        0
    } else {
        x as u64
    }
}

/// A document's score for the deduplicated query terms `qts` against the
/// corpus `ds`.
pub open spec fn score_spec(d: DocModel, qts: Seq<Seq<char>>, ds: Seq<(Seq<char>, DocModel)>)
    -> u64 {
    clip64(score_terms(d, qts, ds))
}

pub open spec fn scored_seq(ds: Seq<(Seq<char>, DocModel)>, qts: Seq<Seq<char>>) -> Seq<
    (Seq<char>, u64),
> {
    Seq::new(ds.len(), |i: int| (ds[i].0, score_spec(ds[i].1, qts, ds)))
}

/// The full ranked result list for query text `q`: every document, scored,
/// in stable descending order.
pub open spec fn rank_spec(ds: Seq<(Seq<char>, DocModel)>, q: Seq<char>) -> Seq<(Seq<char>, u64)> {
    crate::rank::sort_desc(scored_seq(ds, dedup(lex_spec(q))))
}

impl Model {
    #[verifier::rlimit(100)]
    fn doc_score(&self, doc: &Document, qd: &Vec<Vec<char>>, n: u64) -> (sc: u64)
        requires
            self.inv(),
            doc.inv(),
            n as int == self.docs_seq().len(),
        ensures
            sc == score_spec(doc@, seq_views(qd@), self.docs_seq()),
    {
        let ghost qv = seq_views(qd@);
        let ghost ds = self.docs_seq();
        let ghost dv = doc@;
        let mut num: u128 = 0;
        let mut k: usize = 0;
        proof {
            assert(qv.take(0) =~= Seq::<Seq<char>>::empty());
        }
        while k < qd.len()
            invariant
                0 <= k <= qd@.len(),
                qv == seq_views(qd@),
                ds == self.docs_seq(),
                dv == doc@,
                doc.inv(),
                self.inv(),
                n as int == ds.len(),
                num as int == score_terms(dv, qv.take(k as int), ds),
                num <= (k as int) * 0x4000000000,
            decreases qd@.len() - k,
        {
            let ghost tv = qv[k as int];
            let mut c: u64 = 0;
            match find_key(&doc.counts, &qd[k]) {
                Some(j) => {
                    proof {
                        lemma_map_of_index(doc.counts@, j as int);
                        lemma_val_le_sum(doc.counts@, j as int);
                    }
                    c = doc.counts[j].1;
                },
                None => {
                    proof {
                        lemma_map_of_dom(doc.counts@, tv);
                    }
                },
            }
            proof {
                assert(c == cnt(dv, tv));
                assert(c > 0 ==> c <= dv.total);
            }
            if c > 0 {
                let mut dfu: u64 = 0;
                match find_key(&self.df, &qd[k]) {
                    Some(j2) => {
                        proof {
                            lemma_map_of_index(self.df@, j2 as int);
                        }
                        dfu = self.df[j2].1;
                    },
                    None => {
                        proof {
                            lemma_map_of_dom(self.df@, tv);
                        }
                    },
                }
                proof {
                    assert(dfv(self.df@, tv) == df_seq(ds, tv));
                    assert(dfu as int == df_seq(ds, tv));
                }
                let idf = crate::rank::idf_scaled(n, dfu);
                proof {
                    assert((c as int) * (idf as int) <= 0xffffffffffffffff * 3_000_000int) by (
                    nonlinear_arith)
                        requires
                            0 <= c <= 0xffffffffffffffff,
                            0 <= idf <= 3_000_000,
                    ;
                }
                let prod: u128 = (c as u128) * (idf as u128) * 65536;
                let share: u128 = prod / (doc.total as u128);
                proof {
                    let ci = c as int;
                    let ii = idf as int;
                    let ti = dv.total as int;
                    let kk = ii * 65536;
                    assert(ci * ii * 65536 == ci * (ii * 65536)) by (nonlinear_arith);
                    assert(ci * ii * 65536 == ci * kk);
                    vstd::arithmetic::mul::lemma_mul_inequality(ci, ti, kk);
                    vstd::arithmetic::div_mod::lemma_div_is_ordered(ci * kk, ti * kk, ti);
                    vstd::arithmetic::div_mod::lemma_div_multiples_vanish(kk, ti);
                    assert(ti * kk == kk * ti) by (nonlinear_arith);
                    assert(share as int <= kk);
                    assert(share as int == term_share(dv, tv, ds));
                    assert(num + share <= (k as int + 1) * 0x4000000000) by (nonlinear_arith)
                        requires
                            num <= (k as int) * 0x4000000000,
                            0 <= share <= 0x4000000000,
                    ;
                }
                num = num + share;
            } else {
                proof {
                    assert(term_share(dv, tv, ds) == 0);
                }
            }
            proof {
                assert(qv.take(k + 1 as int).drop_last() =~= qv.take(k as int));
                assert(qv.take(k + 1 as int).last() == tv);
            }
            k += 1;
        }
        proof {
            assert(qv.take(qd@.len() as int) =~= qv);
        }
        if num > 0xffffffffffffffff {
            u64::MAX
        } else {
            num as u64
        }
    }

    /// Rank every stored document against `query`: the same lexer normalizes
    /// the query, each document gets its summed `tf * idf` score, and the
    /// list comes back sorted by descending score, ties in storage order.
    pub fn search_query(&self, query: &[char]) -> (r: Vec<(Vec<char>, u64)>)
        requires
            self.inv(),
        ensures
            crate::rank::seq_of_scored(r@) == rank_spec(self.docs_seq(), query@),
    {
        let qterms = lex(query);
        let qd = dedup_terms(&qterms);
        let ghost qv = seq_views(qd@);
        let n: u64 = self.docs.len() as u64;
        let ghost ds = self.docs_seq();
        let ghost scored = scored_seq(ds, qv);
        let mut out: Vec<(Vec<char>, u64)> = Vec::new();
        let mut i: usize = 0;
        proof {
            assert(scored.take(0) =~= Seq::<(Seq<char>, u64)>::empty());
            assert(crate::rank::seq_of_scored(out@) =~= crate::rank::sort_desc(
                scored.take(0),
            ));
        }
        while i < self.docs.len()
            invariant
                0 <= i <= self.docs@.len(),
                self.inv(),
                ds == self.docs_seq(),
                qv == seq_views(qd@),
                scored == scored_seq(ds, qv),
                n as int == ds.len(),
                crate::rank::seq_of_scored(out@) == crate::rank::sort_desc(
                    scored.take(i as int),
                ),
            decreases self.docs@.len() - i,
        {
            proof {
                assert(self.docs@[i as int].1.inv());
            }
            let sc = self.doc_score(&self.docs[i].1, &qd, n);
            let p = clone_chars(&self.docs[i].0);
            proof {
                assert(ds[i as int] == (self.docs@[i as int].0@, self.docs@[i as int].1@));
                assert(scored[i as int] == (self.docs@[i as int].0@, sc));
            }
            crate::rank::insert_scored(&mut out, (p, sc));
            proof {
                assert(scored.take(i + 1 as int).drop_last() =~= scored.take(i as int));
                assert(scored.take(i + 1 as int).last() == scored[i as int]);
            }
            i += 1;
        }
        proof {
            assert(scored.take(self.docs@.len() as int) =~= scored);
        }
        out
    }
}

} // verus!

