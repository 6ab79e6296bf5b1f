//! Fixed-point scoring arithmetic: a scaled base-2-logarithm approximation of
//! the natural logarithm for inverse document frequency, and a stable
//! descending insertion sort for result lists.
use vstd::prelude::*;
use vstd::arithmetic::power2::{pow2, lemma_pow2_adds, lemma2_to64};
use vstd::arithmetic::mul::lemma_mul_inequality;
use vstd::arithmetic::div_mod::{lemma_div_is_ordered, lemma_div_nonincreasing};

verus! {

/// `ln(2)` scaled by 65536, rounded.
pub open spec fn spec_ln2_q16() -> int {
    45426
}

/// Number of halvings until the fixed-point value drops below two.
pub open spec fn int_part(x: int) -> int
    decreases x,
{
    if x < 131072 {
        0
    } else {
        1 + int_part(x / 2)
    }
}

/// What remains of the fixed-point value after those halvings.
pub open spec fn mantissa(x: int) -> int
    decreases x,
{
    if x < 131072 {
        x
    } else {
        mantissa(x / 2)
    }
}

/// `k` binary digits of the fractional part of the base-2 logarithm of a
/// fixed-point mantissa.
pub open spec fn ln_frac(x: int, k: nat) -> int
    decreases k,
{
    if k == 0 {
        0
    } else {
        let x2 = (x * x) / 65536;
        if x2 >= 131072 {
            pow2((k - 1) as nat) + ln_frac(x2 / 2, (k - 1) as nat)
        } else {
            ln_frac(x2, (k - 1) as nat)
        }
    }
}

/// The base-2 logarithm of `x` (a Q16 fixed-point value), itself in Q16.
pub open spec fn log2_q16(x: int) -> int {
    int_part(x) * 65536 + ln_frac(mantissa(x), 16)
}

/// The scaled inverse document frequency: `ln(n / df)` in Q16, and zero for
/// a term absent from the corpus.
pub open spec fn idf_spec(n: int, df: int) -> int {
    if df <= 0 {
        0
    } else {
        log2_q16(n * 65536 / df) * spec_ln2_q16() / 65536
    }
}

proof fn lemma_ln_frac_bounds(x: int, k: nat)
    ensures
        0 <= ln_frac(x, k) < pow2(k),
    decreases k,
{
    if k == 0 {
        assert(pow2(0) == 1) by {
            lemma2_to64();
        }
    } else {
        let x2 = (x * x) / 65536;
        lemma_pow2_adds((k - 1) as nat, 1);
        assert(pow2(1) == 2) by {
            lemma2_to64();
        }
        if x2 >= 131072 {
            lemma_ln_frac_bounds(x2 / 2, (k - 1) as nat);
        } else {
            lemma_ln_frac_bounds(x2, (k - 1) as nat);
        }
    }
}

/// Compute the scaled inverse document frequency of a term that `df` of the
/// `n` stored documents contain.
#[verifier::rlimit(100)]
pub fn idf_scaled(n: u64, df: u64) -> (r: u64)
    ensures
        r as int == idf_spec(n as int, df as int),
        r <= 3_000_000,
{
    if df == 0 {
        return 0;
    }
    let x0: u128 = (n as u128) * 65536 / (df as u128);
    proof {
        assert((n as int) * 65536 < 0x100000000000000000000) by {
            lemma_mul_inequality(n as int, 0xffffffffffffffff, 65536);
        }
        lemma_div_nonincreasing((n as int) * 65536, df as int);
        lemma_div_is_ordered(0, (n as int) * 65536, df as int);
        assert(x0 as int == (n as int) * 65536 / (df as int));
        assert(x0 < 0x100000000000000000000);
    }
    let mut x: u128 = x0;
    let mut e: u64 = 0;
    proof {
        assert(pow2(0) == 1) by {
            lemma2_to64();
        }
    }
    while x >= 131072
        invariant
            0 <= x <= x0,
            x0 < 0x100000000000000000000,
            int_part(x0 as int) == e + int_part(x as int),
            mantissa(x0 as int) == mantissa(x as int),
            (x as int) * pow2(e as nat) <= x0 as int,
            e > 0 ==> x >= 65536,
            e <= 64,
        decreases x,
    {
        proof {
            lemma_pow2_adds(e as nat, 1);
            assert(pow2(1) == 2) by {
                lemma2_to64();
            }
            assert(((x as int) / 2) * pow2((e + 1) as nat) <= (x as int) * pow2(e as nat)) by {
                assert(((x as int) / 2) * 2 <= x as int);
                lemma_mul_inequality(((x as int) / 2) * 2, x as int, pow2(e as nat) as int);
                assert(((x as int) / 2) * (2 * pow2(e as nat)) == (((x as int) / 2) * 2) * pow2(
                    e as nat,
                )) by (nonlinear_arith);
            }
            if e + 1 > 64 {
                assert(pow2(65) == 0x20000000000000000) by {
                    lemma2_to64();
                    lemma_pow2_adds(64, 1);
                }
                assert(((x as int) / 2) * pow2(65) >= 65536 * pow2(65)) by {
                    lemma_mul_inequality(65536, (x as int) / 2, pow2(65) as int);
                }
                assert(false);
            }
        }
        x = x / 2;
        e = e + 1;
    }
    proof {
        assert(int_part(x as int) == 0);
        assert(mantissa(x as int) == x as int);
    }
    let mant: u128 = x;
    let mut y: u64 = 0;
    let mut i: usize = 0;
    proof {
        assert(ln_frac(mant as int, 16) == (y as int) * pow2(16) + ln_frac(mant as int, 16)) by {
            lemma2_to64();
        }
        assert(pow2(0) == 1) by {
            lemma2_to64();
        }
    }
    while i < 16
        invariant
            0 <= i <= 16,
            x < 131072,
            x >= 0,
            y < pow2(i as nat),
            ln_frac(mant as int, 16) == (y as int) * pow2((16 - i) as nat) + ln_frac(
                x as int,
                (16 - i) as nat,
            ),
        decreases 16 - i,
    {
        let ghost k = (16 - i) as nat;
        proof {
            assert((x as int) * (x as int) < 131072 * 131072) by (nonlinear_arith)
                requires
                    0 <= x < 131072,
            ;
        }
        let x2: u128 = (x * x) / 65536;
        proof {
            lemma_pow2_adds((k - 1) as nat, 1);
            lemma_pow2_adds(i as nat, 1);
            lemma_pow2_adds(i as nat, (15 - i) as nat);
            assert(pow2(1) == 2 && pow2(15) == 32768) by {
                lemma2_to64();
            }
            assert(pow2((15 - i) as nat) >= 1) by {
                vstd::arithmetic::power2::lemma_pow2_pos((15 - i) as nat);
            }
            assert(pow2(i as nat) <= 32768) by (nonlinear_arith)
                requires
                    pow2((15 - i) as nat) >= 1,
                    32768 == pow2(i as nat) * pow2((15 - i) as nat),
            ;
        }
        let b: u64 = if x2 >= 131072 {
            x = x2 / 2;
            1
        } else {
            x = x2;
            0
        };
        proof {
            let yo = y as int;
            assert(yo < 32768);
            assert((2 * yo + b) * pow2((k - 1) as nat) == yo * (2 * pow2((k - 1) as nat)) + (
            b as int) * pow2((k - 1) as nat)) by (nonlinear_arith);
        }
        y = y * 2 + b;
        i += 1;
    }
    proof {
        assert(pow2(0) == 1) by {
            lemma2_to64();
        }
        assert(i == 16);
        assert(ln_frac(x as int, (16 - i) as nat) == 0);
        assert(pow2((16 - i) as nat) == 1);
        assert((y as int) * pow2((16 - i) as nat) == (y as int) * 1) by (nonlinear_arith)
            requires
                pow2((16 - i) as nat) == 1,
        ;
        assert(ln_frac(mant as int, 16) == y as int);
        lemma_ln_frac_bounds(mant as int, 16);
        assert(pow2(16) == 65536) by {
            lemma2_to64();
        }
    }
    let lg: u64 = e * 65536 + y;
    let r: u64 = lg * 45426 / 65536;
    proof {
        assert(lg as int == log2_q16(x0 as int));
        assert(lg <= 64 * 65536 + 65536);
        lemma_mul_inequality(lg as int, (64 * 65536 + 65536) as int, 45426);
        lemma_div_is_ordered((lg as int) * 45426, ((64 * 65536 + 65536) as int) * 45426, 65536);
        assert(r <= 3_000_000);
    }
    r
}

/// Insert one scored entry behind every entry that scores at least as much:
/// a stable descending order.
pub open spec fn insert_sorted(s: Seq<(Seq<char>, u64)>, x: (Seq<char>, u64)) -> Seq<
    (Seq<char>, u64),
>
    decreases s.len(),
{
    if s.len() == 0 {
        seq![x]
    } else if s.last().1 >= x.1 {
        s.push(x)
    } else {
        insert_sorted(s.drop_last(), x).push(s.last())
    }
}

/// Stable insertion sort by descending score.
pub open spec fn sort_desc(s: Seq<(Seq<char>, u64)>) -> Seq<(Seq<char>, u64)>
    decreases s.len(),
{
    if s.len() == 0 {
        s
    } else {
        insert_sorted(sort_desc(s.drop_last()), s.last())
    }
}

pub proof fn lemma_insert_sorted_at(s: Seq<(Seq<char>, u64)>, x: (Seq<char>, u64), idx: int)
    requires
        0 <= idx <= s.len(),
        forall|k: int| idx <= k < s.len() ==> s[k].1 < x.1,
        idx > 0 ==> s[idx - 1].1 >= x.1,
    ensures
        insert_sorted(s, x) == s.take(idx) + seq![x] + s.skip(idx),
    decreases s.len(),
{
    if idx == s.len() {
        if s.len() == 0 {
            assert(insert_sorted(s, x) =~= s.take(idx) + seq![x] + s.skip(idx));
        } else {
            assert(s.last().1 >= x.1);
            assert(s.push(x) =~= s.take(idx) + seq![x] + s.skip(idx));
        }
    } else {
        assert(s[s.len() - 1].1 < x.1);
        let t = s.drop_last();
        assert forall|k: int| idx <= k < t.len() implies t[k].1 < x.1 by {
            assert(t[k] == s[k]);
        }
        if idx > 0 {
            assert(t[idx - 1] == s[idx - 1]);
        }
        lemma_insert_sorted_at(t, x, idx);
        assert((t.take(idx) + seq![x] + t.skip(idx)).push(s.last()) =~= s.take(idx) + seq![x]
            + s.skip(idx));
    }
}

pub open spec fn sorted_desc(s: Seq<(Seq<char>, u64)>) -> bool {
    forall|a: int, b: int| 0 <= a <= b < s.len() ==> s[a].1 >= s[b].1
}

/// Every entry of an insertion result is the inserted entry or one of the
/// original ones.
pub proof fn lemma_insert_sorted_elems(s: Seq<(Seq<char>, u64)>, x: (Seq<char>, u64))
    ensures
        insert_sorted(s, x).len() == s.len() + 1,
        forall|k: int|
            0 <= k < insert_sorted(s, x).len() ==> (#[trigger] insert_sorted(s, x)[k]) == x
                || exists|j: int| 0 <= j < s.len() && s[j] == insert_sorted(s, x)[k],
    decreases s.len(),
{
    let t = insert_sorted(s, x);
    if s.len() == 0 {
    } else if s.last().1 >= x.1 {
        assert forall|k: int|
            0 <= k < t.len() implies (#[trigger] t[k]) == x || exists|j: int|
            0 <= j < s.len() && s[j] == t[k] by {
            if k < s.len() {
                assert(s[k] == t[k]);
            }
        }
    } else {
        lemma_insert_sorted_elems(s.drop_last(), x);
        let u = insert_sorted(s.drop_last(), x);
        assert forall|k: int|
            0 <= k < t.len() implies (#[trigger] t[k]) == x || exists|j: int|
            0 <= j < s.len() && s[j] == t[k] by {
            if k < u.len() {
                assert(t[k] == u[k]);
                if u[k] != x {
                    let j = choose|j: int| 0 <= j < s.drop_last().len() && s.drop_last()[j] == u[k];
                    assert(s[j] == u[k]);
                }
            } else {
                assert(t[k] == s[s.len() - 1]);
            }
        }
    }
}

pub proof fn lemma_insert_sorted_keeps_order(s: Seq<(Seq<char>, u64)>, x: (Seq<char>, u64))
    requires
        sorted_desc(s),
    ensures
        sorted_desc(insert_sorted(s, x)),
    decreases s.len(),
{
    let t = insert_sorted(s, x);
    if s.len() == 0 {
    } else if s.last().1 >= x.1 {
        assert forall|a: int, b: int| 0 <= a <= b < t.len() implies t[a].1 >= t[b].1 by {
            if b < s.len() {
                assert(t[a] == s[a] && t[b] == s[b]);
            } else if a < s.len() {
                assert(t[a] == s[a]);
                assert(s[a].1 >= s[s.len() - 1].1);
            }
        }
    } else {
        assert(sorted_desc(s.drop_last())) by {
            assert forall|a: int, b: int|
                0 <= a <= b < s.drop_last().len() implies s.drop_last()[a].1
                >= s.drop_last()[b].1 by {
                assert(s.drop_last()[a] == s[a] && s.drop_last()[b] == s[b]);
            }
        }
        lemma_insert_sorted_keeps_order(s.drop_last(), x);
        lemma_insert_sorted_elems(s.drop_last(), x);
        let u = insert_sorted(s.drop_last(), x);
        assert forall|a: int, b: int| 0 <= a <= b < t.len() implies t[a].1 >= t[b].1 by {
            if b < u.len() {
                assert(t[a] == u[a] && t[b] == u[b]);
            } else if a < u.len() {
                assert(t[a] == u[a] && t[b] == s[s.len() - 1]);
                if u[a] == x {
                } else {
                    let j = choose|j: int|
                        0 <= j < s.drop_last().len() && s.drop_last()[j] == u[a];
                    assert(s[j] == u[a]);
                    assert(s[j].1 >= s[s.len() - 1].1);
                }
            }
        }
    }
}

/// The result list is in descending score order: what `sort_desc` promises
/// of every ranked query result.
pub proof fn lemma_sort_desc_sorted(s: Seq<(Seq<char>, u64)>)
    ensures
        sorted_desc(sort_desc(s)),
    decreases s.len(),
{
    if s.len() > 0 {
        lemma_sort_desc_sorted(s.drop_last());
        lemma_insert_sorted_keeps_order(sort_desc(s.drop_last()), s.last());
    }
}

/// The views of a scored result vector.
pub open spec fn seq_of_scored(s: Seq<(Vec<char>, u64)>) -> Seq<(Seq<char>, u64)> {
    Seq::new(s.len(), |i: int| (s[i].0@, s[i].1))
}

pub fn insert_scored(out: &mut Vec<(Vec<char>, u64)>, p: (Vec<char>, u64))
    ensures
        seq_of_scored(final(out)@) == insert_sorted(seq_of_scored(old(out)@), (p.0@, p.1)),
{
    let ghost s = seq_of_scored(out@);
    let ghost xv = (p.0@, p.1);
    let mut idx: usize = out.len();
    while idx > 0 && out[idx - 1].1 < p.1
        invariant
            0 <= idx <= out@.len(),
            out@ == old(out)@,
            forall|k: int| idx <= k < out@.len() ==> (#[trigger] out@[k]).1 < p.1,
        decreases idx,
    {
        idx -= 1;
    }
    proof {
        assert forall|k: int| idx <= k < s.len() implies s[k].1 < xv.1 by {
            assert(s[k].1 == out@[k].1);
        }
        lemma_insert_sorted_at(s, xv, idx as int);
    }
    out.insert(idx, p);
    proof {
        assert(seq_of_scored(out@) =~= s.take(idx as int) + seq![xv] + s.skip(idx as int));
    }
}

} // verus!
