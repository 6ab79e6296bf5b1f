//! The lexer: decoded text in, normalized terms out. Maximal alphabetic runs
//! are lowercased and stemmed; maximal numeric runs pass through unchanged;
//! everything else separates terms. The same lexer serves indexed content and
//! query text, which is what makes ranking meaningful.
use vstd::prelude::*;
use crate::chars::{is_alpha_char, is_numeric_char, lower_char, char_is_alphabetic,
    char_is_numeric, to_lower_char};
use crate::stemmer::stem_spec;
use crate::stemmer::stem;

verus! {

pub open spec fn cmatch(c: char, alpha: bool) -> bool {
    if alpha {
        is_alpha_char(c)
    } else {
        is_numeric_char(c)
    }
}

/// Length of the maximal leading run of one character class.
pub open spec fn run_len(s: Seq<char>, alpha: bool) -> int
    decreases s.len(),
{
    if s.len() == 0 || !cmatch(s[0], alpha) {
        0
    } else {
        1 + run_len(s.skip(1), alpha)
    }
}

pub proof fn lemma_run_scan(s: Seq<char>, m: int, alpha: bool)
    requires
        0 <= m <= s.len(),
        forall|k: int| 0 <= k < m ==> cmatch(s[k], alpha),
        m == s.len() || !cmatch(s[m], alpha),
    ensures
        run_len(s, alpha) == m,
    decreases s.len(),
{
    if s.len() == 0 {
    } else if m == 0 {
    } else {
        assert(cmatch(s[0], alpha));
        let t = s.skip(1);
        assert forall|k: int| 0 <= k < m - 1 implies cmatch(t[k], alpha) by {
            assert(t[k] == s[k + 1]);
        }
        if m - 1 < t.len() {
            assert(t[m - 1] == s[m]);
        }
        lemma_run_scan(t, m - 1, alpha);
    }
}

pub open spec fn lower_seq(s: Seq<char>) -> Seq<char> {
    Seq::new(s.len(), |i: int| lower_char(s[i]))
}

/// The sequence of terms the lexer produces from `s`.
pub open spec fn lex_spec(s: Seq<char>) -> Seq<Seq<char>>
    decreases s.len(),
    via lex_spec_dec
{
    if s.len() == 0 {
        Seq::empty()
    } else if is_numeric_char(s[0]) {
        let k = run_len(s, false);
        seq![s.take(k)] + lex_spec(s.skip(k))
    } else if is_alpha_char(s[0]) {
        let k = run_len(s, true);
        seq![stem_spec(lower_seq(s.take(k)))] + lex_spec(s.skip(k))
    } else {
        lex_spec(s.skip(1))
    }
}

pub proof fn lemma_run_bounds(s: Seq<char>, alpha: bool)
    ensures
        0 <= run_len(s, alpha) <= s.len(),
        s.len() > 0 && cmatch(s[0], alpha) ==> 1 <= run_len(s, alpha),
    decreases s.len(),
{
    if s.len() == 0 || !cmatch(s[0], alpha) {
    } else {
        lemma_run_bounds(s.skip(1), alpha);
    }
}

#[via_fn]
proof fn lex_spec_dec(s: Seq<char>) {
    lemma_run_bounds(s, false);
    lemma_run_bounds(s, true);
}

#[verifier::rlimit(60)]
pub fn lex(content: &[char]) -> (r: Vec<Vec<char>>)
    ensures
        crate::chars::seq_views(r@) == lex_spec(content@),
{
    let mut out: Vec<Vec<char>> = Vec::new();
    let mut i: usize = 0;
    proof {
        assert(content@.skip(0) =~= content@);
        assert(crate::chars::seq_views(out@) =~= Seq::<Seq<char>>::empty());
        assert(Seq::<Seq<char>>::empty() + lex_spec(content@) =~= lex_spec(content@));
    }
    while i < content.len()
        invariant
            0 <= i <= content@.len(),
            lex_spec(content@) == crate::chars::seq_views(out@) + lex_spec(
                content@.skip(i as int),
            ),
        decreases content@.len() - i,
    {
        let ghost rest = content@.skip(i as int);
        let c = content[i];
        proof {
            assert(rest[0] == content@[i as int]);
        }
        if char_is_numeric(c) {
            let start = i;
            let mut j = i + 1;
            while j < content.len() && char_is_numeric(content[j])
                invariant
                    start < j <= content@.len(),
                    start < content@.len(),
                    forall|k: int| start <= k < j ==> is_numeric_char(content@[k]),
                decreases content@.len() - j,
            {
                j += 1;
            }
            let mut term: Vec<char> = Vec::new();
            let mut p = start;
            while p < j
                invariant
                    start <= p <= j <= content@.len(),
                    term@ == content@.subrange(start as int, p as int),
                decreases j - p,
            {
                term.push(content[p]);
                proof {
                    assert(content@.subrange(start as int, p + 1 as int) =~= content@.subrange(
                        start as int,
                        p as int,
                    ).push(content@[p as int]));
                }
                p += 1;
            }
            proof {
                let m = j - start as int;
                assert forall|k: int| 0 <= k < m implies cmatch(rest[k], false) by {
                    assert(rest[k] == content@[k + start]);
                }
                if m < rest.len() {
                    assert(rest[m] == content@[j as int]);
                }
                lemma_run_scan(rest, m, false);
                assert(rest.take(m) =~= content@.subrange(start as int, j as int));
                assert(rest.skip(m) =~= content@.skip(j as int));
                assert(lex_spec(rest) == seq![term@] + lex_spec(content@.skip(j as int)));
                let olddv = crate::chars::seq_views(out@);
                assert(olddv + (seq![term@] + lex_spec(content@.skip(j as int))) =~= olddv.push(
                    term@,
                ) + lex_spec(content@.skip(j as int)));
            }
            let ghost olddv = crate::chars::seq_views(out@);
            let ghost tv = term@;
            out.push(term);
            proof {
                assert(crate::chars::seq_views(out@) =~= olddv.push(tv));
            }
            i = j;
        } else if char_is_alphabetic(c) {
            let start = i;
            let mut j = i + 1;
            while j < content.len() && char_is_alphabetic(content[j])
                invariant
                    start < j <= content@.len(),
                    start < content@.len(),
                    forall|k: int| start <= k < j ==> is_alpha_char(content@[k]),
                decreases content@.len() - j,
            {
                j += 1;
            }
            let mut low: Vec<char> = Vec::new();
            let mut p = start;
            while p < j
                invariant
                    start <= p <= j <= content@.len(),
                    low@.len() == p - start,
                    forall|k: int| 0 <= k < p - start ==> low@[k] == lower_char(content@[k + start]),
                decreases j - p,
            {
                low.push(to_lower_char(content[p]));
                p += 1;
            }
            let term = stem(&low);
            proof {
                let m = j - start as int;
                assert forall|k: int| 0 <= k < m implies cmatch(rest[k], true) by {
                    assert(rest[k] == content@[k + start]);
                }
                if m < rest.len() {
                    assert(rest[m] == content@[j as int]);
                }
                lemma_run_scan(rest, m, true);
                assert(low@ =~= lower_seq(rest.take(m)));
                assert(rest.skip(m) =~= content@.skip(j as int));
                assert(lex_spec(rest) == seq![term@] + lex_spec(content@.skip(j as int)));
                let olddv = crate::chars::seq_views(out@);
                assert(olddv + (seq![term@] + lex_spec(content@.skip(j as int))) =~= olddv.push(
                    term@,
                ) + lex_spec(content@.skip(j as int)));
            }
            let ghost olddv = crate::chars::seq_views(out@);
            let ghost tv = term@;
            out.push(term);
            proof {
                assert(crate::chars::seq_views(out@) =~= olddv.push(tv));
            }
            i = j;
        } else {
            proof {
                assert(rest.skip(1) =~= content@.skip(i + 1 as int));
                assert(lex_spec(rest) == lex_spec(content@.skip(i + 1 as int)));
            }
            i += 1;
        }
    }
    proof {
        assert(content@.skip(content@.len() as int) =~= Seq::<char>::empty());
        assert(crate::chars::seq_views(out@) + Seq::<Seq<char>>::empty() =~= crate::chars::seq_views(out@));
    }
    out
}

} // verus!
