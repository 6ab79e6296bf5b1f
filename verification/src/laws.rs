//! The library's cross-function laws, each proved from the contracts and
//! spec functions that the public operations are specified with.
use vstd::prelude::*;
use crate::model::{Model, DocModel, doc_of, needs_reindex, rank_spec, dfv, df_seq, dedup,
    scored_seq};
use crate::lexer::lex_spec;
use crate::snapshot::{Snapshot, valid_entries, loaded_docs};

verus! {

/// Inserting the same (path, timestamp, content) twice leaves exactly the
/// index that one insertion leaves: term counts and document frequencies
/// included, since both are functions of the stored documents.
pub proof fn lemma_add_document_idempotent(
    m: Map<Seq<char>, DocModel>,
    p: Seq<char>,
    mtime: u64,
    content: Seq<char>,
)
    ensures
        m.insert(p, doc_of(content, mtime)).insert(p, doc_of(content, mtime)) == m.insert(
            p,
            doc_of(content, mtime),
        ),
{
    assert(m.insert(p, doc_of(content, mtime)).insert(p, doc_of(content, mtime)) =~= m.insert(
        p,
        doc_of(content, mtime),
    ));
}

/// After any sequence of insertions the stored document frequency of every
/// term equals the number of stored documents that contain it with a
/// positive count: the invariant every mutating operation preserves.
pub proof fn lemma_df_consistent(m: Model, t: Seq<char>)
    requires
        m.inv(),
    ensures
        dfv(m.df@, t) == df_seq(m.docs_seq(), t),
{
}

/// After indexing path `p` with timestamp `mtime`, re-indexing is not
/// required at `mtime`, and is required at every strictly later timestamp.
pub proof fn lemma_staleness_monotone(
    m: Map<Seq<char>, DocModel>,
    p: Seq<char>,
    mtime: u64,
    content: Seq<char>,
    later: u64,
)
    ensures
        !needs_reindex(m.insert(p, doc_of(content, mtime)), p, mtime),
        later > mtime ==> needs_reindex(m.insert(p, doc_of(content, mtime)), p, later),
{
}

/// Ranking is deterministic: the result sequence is a function of the stored
/// documents and the query text alone, so repeated queries against an
/// unchanged index return identical orderings and scores.
pub proof fn lemma_ranking_deterministic(
    ds: Seq<(Seq<char>, DocModel)>,
    q: Seq<char>,
    r1: Seq<(Seq<char>, u64)>,
    r2: Seq<(Seq<char>, u64)>,
)
    requires
        r1 == rank_spec(ds, q),
        r2 == rank_spec(ds, q),
    ensures
        r1 == r2,
{
}

/// Every ranked result list is in descending score order.
pub proof fn lemma_ranking_sorted(ds: Seq<(Seq<char>, DocModel)>, q: Seq<char>)
    ensures
        crate::rank::sorted_desc(rank_spec(ds, q)),
{
    crate::rank::lemma_sort_desc_sorted(scored_seq(ds, dedup(lex_spec(q))));
}

/// Saving and then loading reproduces the index observationally: the same
/// documents with the same term counts and timestamps, and the document
/// frequency of every term unchanged, under the re-established invariant.
pub proof fn lemma_snapshot_round_trip(m1: Model, s: Snapshot, m2: Model)
    requires
        m1.inv(),
        valid_entries(s.entries@),
        loaded_docs(s.entries@) == m1.docs_seq(),
        m2.inv(),
        m2.docs_seq() == loaded_docs(s.entries@),
    ensures
        m2.docs_seq() == m1.docs_seq(),
        forall|t: Seq<char>| df_seq(m2.docs_seq(), t) == df_seq(m1.docs_seq(), t),
        forall|t: Seq<char>| dfv(m2.df@, t) == dfv(m1.df@, t),
{
    assert forall|t: Seq<char>| dfv(m2.df@, t) == dfv(m1.df@, t) by {
        assert(dfv(m2.df@, t) == df_seq(m2.docs_seq(), t));
        assert(dfv(m1.df@, t) == df_seq(m1.docs_seq(), t));
    }
}

} // verus!
