//! The Snowball English (Porter2) stemmer: a staged suffix-stripping
//! algorithm over lowercase words. Each executable stage is proved equal to
//! its specification-level definition, so `stem` is pinned exactly by
//! `stem_spec`.
use vstd::prelude::*;

verus! {

pub open spec fn is_v(c: char) -> bool {
    c == 'a' || c == 'e' || c == 'i' || c == 'o' || c == 'u' || c == 'y'
}

pub fn is_vowel(c: char) -> (r: bool)
    ensures
        r == is_v(c),
{
    c == 'a' || c == 'e' || c == 'i' || c == 'o' || c == 'u' || c == 'y'
}

pub open spec fn ends_with(s: Seq<char>, t: Seq<char>) -> bool {
    t.len() <= s.len() && (forall|i: int|
        0 <= i < t.len() ==> s[s.len() - t.len() + i] == t[i])
}

pub open spec fn starts_with(s: Seq<char>, t: Seq<char>) -> bool {
    t.len() <= s.len() && (forall|i: int| 0 <= i < t.len() ==> s[i] == t[i])
}

pub fn ends1(w: &Vec<char>, a: char) -> (r: bool)
    ensures
        r == ends_with(w@, seq![a]),
{
    let r = w.len() >= 1 && w[w.len() - 1] == a;
    proof {
        if !r && w@.len() >= 1 {
            assert(w@[w@.len() - 1 + 0] != seq![a][0]);
        }
    }
    r
}

pub fn ends2(w: &Vec<char>, a: char, b: char) -> (r: bool)
    ensures
        r == ends_with(w@, seq![a, b]),
{
    w.len() >= 2 && w[w.len() - 2] == a && w[w.len() - 1] == b
}

pub fn ends3(w: &Vec<char>, a: char, b: char, c: char) -> (r: bool)
    ensures
        r == ends_with(w@, seq![a, b, c]),
{
    w.len() >= 3 && w[w.len() - 3] == a && w[w.len() - 2] == b && w[w.len() - 1] == c
}

pub fn ends4(w: &Vec<char>, a: char, b: char, c: char, d: char) -> (r: bool)
    ensures
        r == ends_with(w@, seq![a, b, c, d]),
{
    w.len() >= 4 && w[w.len() - 4] == a && w[w.len() - 3] == b && w[w.len() - 2] == c && w[w.len()
        - 1] == d
}

pub fn ends5(w: &Vec<char>, a: char, b: char, c: char, d: char, e: char) -> (r: bool)
    ensures
        r == ends_with(w@, seq![a, b, c, d, e]),
{
    w.len() >= 5 && w[w.len() - 5] == a && w[w.len() - 4] == b && w[w.len() - 3] == c && w[w.len()
        - 2] == d && w[w.len() - 1] == e
}

pub fn ends6(w: &Vec<char>, a: char, b: char, c: char, d: char, e: char, f: char) -> (r: bool)
    ensures
        r == ends_with(w@, seq![a, b, c, d, e, f]),
{
    w.len() >= 6 && w[w.len() - 6] == a && w[w.len() - 5] == b && w[w.len() - 4] == c && w[w.len()
        - 3] == d && w[w.len() - 2] == e && w[w.len() - 1] == f
}

pub fn ends7(w: &Vec<char>, a: char, b: char, c: char, d: char, e: char, f: char, g: char) -> (r:
    bool)
    ensures
        r == ends_with(w@, seq![a, b, c, d, e, f, g]),
{
    w.len() >= 7 && w[w.len() - 7] == a && w[w.len() - 6] == b && w[w.len() - 5] == c && w[w.len()
        - 4] == d && w[w.len() - 3] == e && w[w.len() - 2] == f && w[w.len() - 1] == g
}

pub fn eq3(w: &Vec<char>, a: char, b: char, c: char) -> (r: bool)
    ensures
        r <==> w@ == seq![a, b, c],
{
    let r = w.len() == 3 && ends3(w, a, b, c);
    proof {
        if r {
            assert(w@ =~= seq![a, b, c]);
        } else {
            assert(w@ == seq![a, b, c] ==> w@.len() == 3 && ends_with(w@, seq![a, b, c]));
        }
    }
    r
}

pub fn eq4(w: &Vec<char>, a: char, b: char, c: char, d: char) -> (r: bool)
    ensures
        r <==> w@ == seq![a, b, c, d],
{
    let r = w.len() == 4 && ends4(w, a, b, c, d);
    proof {
        if r {
            assert(w@ =~= seq![a, b, c, d]);
        } else {
            assert(w@ == seq![a, b, c, d] ==> w@.len() == 4 && ends_with(w@, seq![a, b, c, d]));
        }
    }
    r
}

pub fn eq5(w: &Vec<char>, a: char, b: char, c: char, d: char, e: char) -> (r: bool)
    ensures
        r <==> w@ == seq![a, b, c, d, e],
{
    let r = w.len() == 5 && ends5(w, a, b, c, d, e);
    proof {
        if r {
            assert(w@ =~= seq![a, b, c, d, e]);
        } else {
            assert(w@ == seq![a, b, c, d, e] ==> w@.len() == 5 && ends_with(
                w@,
                seq![a, b, c, d, e],
            ));
        }
    }
    r
}

pub fn eq6(w: &Vec<char>, a: char, b: char, c: char, d: char, e: char, f: char) -> (r: bool)
    ensures
        r <==> w@ == seq![a, b, c, d, e, f],
{
    let r = w.len() == 6 && ends6(w, a, b, c, d, e, f);
    proof {
        if r {
            assert(w@ =~= seq![a, b, c, d, e, f]);
        } else {
            assert(w@ == seq![a, b, c, d, e, f] ==> w@.len() == 6 && ends_with(
                w@,
                seq![a, b, c, d, e, f],
            ));
        }
    }
    r
}

pub fn eq7(w: &Vec<char>, a: char, b: char, c: char, d: char, e: char, f: char, g: char) -> (r:
    bool)
    ensures
        r <==> w@ == seq![a, b, c, d, e, f, g],
{
    let r = w.len() == 7 && ends7(w, a, b, c, d, e, f, g);
    proof {
        if r {
            assert(w@ =~= seq![a, b, c, d, e, f, g]);
        } else {
            assert(w@ == seq![a, b, c, d, e, f, g] ==> w@.len() == 7 && ends_with(
                w@,
                seq![a, b, c, d, e, f, g],
            ));
        }
    }
    r
}

pub fn starts5(w: &Vec<char>, a: char, b: char, c: char, d: char, e: char) -> (r: bool)
    ensures
        r == starts_with(w@, seq![a, b, c, d, e]),
{
    w.len() >= 5 && w[0] == a && w[1] == b && w[2] == c && w[3] == d && w[4] == e
}

pub fn starts6(w: &Vec<char>, a: char, b: char, c: char, d: char, e: char, f: char) -> (r: bool)
    ensures
        r == starts_with(w@, seq![a, b, c, d, e, f]),
{
    w.len() >= 6 && w[0] == a && w[1] == b && w[2] == c && w[3] == d && w[4] == e && w[5] == f
}

/// Remove the last `n` characters.
pub fn chop(w: &mut Vec<char>, n: usize)
    requires
        n <= old(w).len(),
    ensures
        final(w)@ == old(w)@.take(old(w)@.len() - n),
{
    let l = w.len() - n;
    w.truncate(l);
}

/// The region after the first non-vowel that follows a vowel, at or past `i`.
pub open spec fn region_from(s: Seq<char>, i: int) -> int
    decreases s.len() - i,
{
    if i + 1 >= s.len() {
        s.len() as int
    } else if is_v(s[i]) && !is_v(s[i + 1]) {
        i + 2
    } else {
        region_from(s, i + 1)
    }
}

pub fn region_from_exec(w: &Vec<char>, start: usize) -> (r: usize)
    requires
        start <= w.len(),
    ensures
        r as int == region_from(w@, start as int),
        start <= r <= w.len(),
{
    let mut i = start;
    loop
        invariant
            start <= i <= w.len(),
            region_from(w@, start as int) == region_from(w@, i as int),
        decreases w.len() - i,
    {
        if w.len() - i <= 1 {
            proof {
                assert(region_from(w@, i as int) == w@.len());
            }
            return w.len();
        }
        if is_vowel(w[i]) && !is_vowel(w[i + 1]) {
            return i + 2;
        }
        i += 1;
    }
}

pub open spec fn r1_of(s: Seq<char>) -> int {
    if starts_with(s, seq!['g', 'e', 'n', 'e', 'r']) || starts_with(
        s,
        seq!['a', 'r', 's', 'e', 'n'],
    ) {
        5
    } else if starts_with(s, seq!['c', 'o', 'm', 'm', 'u', 'n']) {
        6
    } else {
        region_from(s, 0)
    }
}

pub fn r1_exec(w: &Vec<char>) -> (r: usize)
    ensures
        r as int == r1_of(w@),
        r <= w.len(),
{
    if starts5(w, 'g', 'e', 'n', 'e', 'r') || starts5(w, 'a', 'r', 's', 'e', 'n') {
        5
    } else if starts6(w, 'c', 'o', 'm', 'm', 'u', 'n') {
        6
    } else {
        region_from_exec(w, 0)
    }
}

/// Mark `y` characters that act as consonants (initially or after a vowel)
/// as `Y`; the mark is undone at the end of stemming.
pub open spec fn mark_from(s: Seq<char>, prev_vowel: bool) -> Seq<char>
    decreases s.len(),
{
    if s.len() == 0 {
        s
    } else {
        let c0 = if s[0] == 'y' && prev_vowel {
            'Y'
        } else {
            s[0]
        };
        seq![c0] + mark_from(s.skip(1), is_v(c0))
    }
}

pub open spec fn mark_ys(s: Seq<char>) -> Seq<char> {
    mark_from(s, true)
}

pub fn mark_ys_exec(w: &Vec<char>) -> (r: Vec<char>)
    ensures
        r@ == mark_ys(w@),
{
    let mut out: Vec<char> = Vec::new();
    let mut i: usize = 0;
    let mut pv: bool = true;
    proof {
        assert(w@.skip(0) =~= w@);
        assert(Seq::<char>::empty() + mark_from(w@, true) =~= mark_from(w@, true));
    }
    while i < w.len()
        invariant
            0 <= i <= w.len(),
            mark_ys(w@) == out@ + mark_from(w@.skip(i as int), pv),
        decreases w.len() - i,
    {
        let ghost pre = w@.skip(i as int);
        let c = w[i];
        let c0 = if c == 'y' && pv {
            'Y'
        } else {
            c
        };
        proof {
            assert(pre[0] == c);
            assert(pre.skip(1) =~= w@.skip(i + 1 as int));
            assert(mark_from(pre, pv) == seq![c0] + mark_from(w@.skip(i + 1 as int), is_v(c0)));
        }
        out.push(c0);
        pv = is_vowel(c0);
        proof {
            assert(out@ + mark_from(w@.skip(i + 1 as int), pv) =~= mark_ys(w@));
        }
        i += 1;
    }
    proof {
        assert(w@.skip(w.len() as int) =~= Seq::<char>::empty());
        assert(mark_from(Seq::<char>::empty(), pv) == Seq::<char>::empty());
        assert(out@ + Seq::<char>::empty() =~= out@);
    }
    out
}

pub open spec fn unmark(s: Seq<char>) -> Seq<char> {
    Seq::new(
        s.len(),
        |i: int|
            if s[i] == 'Y' {
                'y'
            } else {
                s[i]
            },
    )
}

pub fn unmark_exec(w: &Vec<char>) -> (r: Vec<char>)
    ensures
        r@ == unmark(w@),
{
    let mut out: Vec<char> = Vec::new();
    let mut i: usize = 0;
    while i < w.len()
        invariant
            0 <= i <= w.len(),
            out@.len() == i,
            forall|k: int|
                0 <= k < i ==> out@[k] == (if w@[k] == 'Y' {
                    'y'
                } else {
                    w@[k]
                }),
        decreases w.len() - i,
    {
        let c = w[i];
        if c == 'Y' {
            out.push('y');
        } else {
            out.push(c);
        }
        i += 1;
    }
    proof {
        assert(out@ =~= unmark(w@));
    }
    out
}

/// A vowel occurs strictly before position `upto`.
pub open spec fn has_vowel(s: Seq<char>, upto: int) -> bool {
    exists|i: int| 0 <= i < upto && i < s.len() && is_v(s[i])
}

pub fn has_vowel_exec(w: &Vec<char>, upto: usize) -> (r: bool)
    requires
        upto <= w.len(),
    ensures
        r == has_vowel(w@, upto as int),
{
    let mut i: usize = 0;
    while i < upto
        invariant
            0 <= i <= upto <= w.len(),
            forall|k: int| 0 <= k < i ==> !is_v(w@[k]),
        decreases upto - i,
    {
        if is_vowel(w[i]) {
            return true;
        }
        i += 1;
    }
    false
}

pub open spec fn is_double(a: char, b: char) -> bool {
    a == b && (a == 'b' || a == 'd' || a == 'f' || a == 'g' || a == 'm' || a == 'n' || a == 'p'
        || a == 'r' || a == 't')
}

pub open spec fn ends_double(s: Seq<char>) -> bool {
    s.len() >= 2 && is_double(s[s.len() - 2], s[s.len() - 1])
}

pub fn ends_double_exec(w: &Vec<char>) -> (r: bool)
    ensures
        r == ends_double(w@),
{
    if w.len() < 2 {
        return false;
    }
    let a = w[w.len() - 2];
    let b = w[w.len() - 1];
    a == b && (a == 'b' || a == 'd' || a == 'f' || a == 'g' || a == 'm' || a == 'n' || a == 'p'
        || a == 'r' || a == 't')
}

/// The word ends in a short syllable.
pub open spec fn ends_short_syll(s: Seq<char>) -> bool {
    (s.len() >= 3 && is_v(s[s.len() - 2]) && !is_v(s[s.len() - 1]) && s[s.len() - 1] != 'w'
        && s[s.len() - 1] != 'x' && s[s.len() - 1] != 'Y' && !is_v(s[s.len() - 3])) || (s.len()
        == 2 && is_v(s[0]) && !is_v(s[1]))
}

pub fn ends_short_syll_exec(w: &Vec<char>) -> (r: bool)
    ensures
        r == ends_short_syll(w@),
{
    if w.len() >= 3 {
        let c = w[w.len() - 1];
        (is_vowel(w[w.len() - 2]) && !is_vowel(c) && c != 'w' && c != 'x' && c != 'Y' && !is_vowel(
            w[w.len() - 3],
        ))
    } else if w.len() == 2 {
        is_vowel(w[0]) && !is_vowel(w[1])
    } else {
        false
    }
}

/// A short word: it ends in a short syllable and R1 covers nothing.
pub open spec fn is_short(s: Seq<char>, r1: int) -> bool {
    ends_short_syll(s) && r1 >= s.len()
}

pub open spec fn valid_li(c: char) -> bool {
    c == 'c' || c == 'd' || c == 'e' || c == 'g' || c == 'h' || c == 'k' || c == 'm' || c == 'n'
        || c == 'r' || c == 't'
}

pub fn valid_li_exec(c: char) -> (r: bool)
    ensures
        r == valid_li(c),
{
    c == 'c' || c == 'd' || c == 'e' || c == 'g' || c == 'h' || c == 'k' || c == 'm' || c == 'n'
        || c == 'r' || c == 't'
}

fn word3(a: char, b: char, c: char) -> (r: Vec<char>)
    ensures
        r@ == seq![a, b, c],
{
    let mut v: Vec<char> = Vec::new();
    v.push(a);
    v.push(b);
    v.push(c);
    proof {
        assert(v@ =~= seq![a, b, c]);
    }
    v
}

fn word4(a: char, b: char, c: char, d: char) -> (r: Vec<char>)
    ensures
        r@ == seq![a, b, c, d],
{
    let mut v: Vec<char> = Vec::new();
    v.push(a);
    v.push(b);
    v.push(c);
    v.push(d);
    proof {
        assert(v@ =~= seq![a, b, c, d]);
    }
    v
}

fn word5(a: char, b: char, c: char, d: char, e: char) -> (r: Vec<char>)
    ensures
        r@ == seq![a, b, c, d, e],
{
    let mut v: Vec<char> = Vec::new();
    v.push(a);
    v.push(b);
    v.push(c);
    v.push(d);
    v.push(e);
    proof {
        assert(v@ =~= seq![a, b, c, d, e]);
    }
    v
}

/// The special forms handled before the algorithm proper.
pub open spec fn exception1(s: Seq<char>) -> Option<Seq<char>> {
    if s == seq!['s', 'k', 'i', 's'] {
        Some(seq!['s', 'k', 'i'])
    } else if s == seq!['s', 'k', 'i', 'e', 's'] {
        Some(seq!['s', 'k', 'y'])
    } else if s == seq!['d', 'y', 'i', 'n', 'g'] {
        Some(seq!['d', 'i', 'e'])
    } else if s == seq!['l', 'y', 'i', 'n', 'g'] {
        Some(seq!['l', 'i', 'e'])
    } else if s == seq!['t', 'y', 'i', 'n', 'g'] {
        Some(seq!['t', 'i', 'e'])
    } else if s == seq!['i', 'd', 'l', 'y'] {
        Some(seq!['i', 'd', 'l'])
    } else if s == seq!['g', 'e', 'n', 't', 'l', 'y'] {
        Some(seq!['g', 'e', 'n', 't', 'l'])
    } else if s == seq!['u', 'g', 'l', 'y'] {
        Some(seq!['u', 'g', 'l', 'i'])
    } else if s == seq!['e', 'a', 'r', 'l', 'y'] {
        Some(seq!['e', 'a', 'r', 'l', 'i'])
    } else if s == seq!['o', 'n', 'l', 'y'] {
        Some(seq!['o', 'n', 'l', 'i'])
    } else if s == seq!['s', 'i', 'n', 'g', 'l', 'y'] {
        Some(seq!['s', 'i', 'n', 'g', 'l'])
    } else if s == seq!['s', 'k', 'y'] || s == seq!['n', 'e', 'w', 's'] || s == seq![
        'h',
        'o',
        'w',
        'e',
    ] || s == seq!['a', 't', 'l', 'a', 's'] || s == seq!['c', 'o', 's', 'm', 'o', 's'] || s
        == seq!['b', 'i', 'a', 's'] || s == seq!['a', 'n', 'd', 'e', 's'] {
        Some(s)
    } else {
        None
    }
}

pub fn exception1_exec(w: &Vec<char>) -> (r: Option<Vec<char>>)
    ensures
        match r {
            Some(x) => exception1(w@) == Some(x@),
            None => exception1(w@) is None,
        },
{
    if eq4(w, 's', 'k', 'i', 's') {
        Some(word3('s', 'k', 'i'))
    } else if eq5(w, 's', 'k', 'i', 'e', 's') {
        Some(word3('s', 'k', 'y'))
    } else if eq5(w, 'd', 'y', 'i', 'n', 'g') {
        Some(word3('d', 'i', 'e'))
    } else if eq5(w, 'l', 'y', 'i', 'n', 'g') {
        Some(word3('l', 'i', 'e'))
    } else if eq5(w, 't', 'y', 'i', 'n', 'g') {
        Some(word3('t', 'i', 'e'))
    } else if eq4(w, 'i', 'd', 'l', 'y') {
        Some(word3('i', 'd', 'l'))
    } else if eq6(w, 'g', 'e', 'n', 't', 'l', 'y') {
        Some(word5('g', 'e', 'n', 't', 'l'))
    } else if eq4(w, 'u', 'g', 'l', 'y') {
        Some(word4('u', 'g', 'l', 'i'))
    } else if eq5(w, 'e', 'a', 'r', 'l', 'y') {
        Some(word5('e', 'a', 'r', 'l', 'i'))
    } else if eq4(w, 'o', 'n', 'l', 'y') {
        Some(word4('o', 'n', 'l', 'i'))
    } else if eq6(w, 's', 'i', 'n', 'g', 'l', 'y') {
        Some(word5('s', 'i', 'n', 'g', 'l'))
    } else if eq3(w, 's', 'k', 'y') || eq4(w, 'n', 'e', 'w', 's') || eq4(w, 'h', 'o', 'w', 'e')
        || eq5(w, 'a', 't', 'l', 'a', 's') || eq6(w, 'c', 'o', 's', 'm', 'o', 's') || eq4(
        w,
        'b',
        'i',
        'a',
        's',
    ) || eq5(w, 'a', 'n', 'd', 'e', 's') {
        Some(crate::chars::clone_chars(w))
    } else {
        None
    }
}

/// Words left alone if they remain after the plural-stripping stage.
pub open spec fn is_exception2(s: Seq<char>) -> bool {
    s == seq!['i', 'n', 'n', 'i', 'n', 'g'] || s == seq!['o', 'u', 't', 'i', 'n', 'g'] || s
        == seq!['c', 'a', 'n', 'n', 'i', 'n', 'g'] || s == seq!['h', 'e', 'r', 'r', 'i', 'n', 'g']
        || s == seq!['e', 'a', 'r', 'r', 'i', 'n', 'g'] || s == seq![
        'p',
        'r',
        'o',
        'c',
        'e',
        'e',
        'd',
    ] || s == seq!['e', 'x', 'c', 'e', 'e', 'd'] || s == seq!['s', 'u', 'c', 'c', 'e', 'e', 'd']
}

pub fn is_exception2_exec(w: &Vec<char>) -> (r: bool)
    ensures
        r == is_exception2(w@),
{
    eq6(w, 'i', 'n', 'n', 'i', 'n', 'g') || eq6(w, 'o', 'u', 't', 'i', 'n', 'g') || eq7(
        w,
        'c',
        'a',
        'n',
        'n',
        'i',
        'n',
        'g',
    ) || eq7(w, 'h', 'e', 'r', 'r', 'i', 'n', 'g') || eq7(w, 'e', 'a', 'r', 'r', 'i', 'n', 'g')
        || eq7(w, 'p', 'r', 'o', 'c', 'e', 'e', 'd') || eq6(w, 'e', 'x', 'c', 'e', 'e', 'd')
        || eq7(w, 's', 'u', 'c', 'c', 'e', 'e', 'd')
}

/// Strip a possessive ending.
pub open spec fn step0(s: Seq<char>) -> Seq<char> {
    if ends_with(s, seq!['\'', 's', '\'']) {
        s.take(s.len() - 3)
    } else if ends_with(s, seq!['\'', 's']) {
        s.take(s.len() - 2)
    } else if ends_with(s, seq!['\'']) {
        s.take(s.len() - 1)
    } else {
        s
    }
}

pub fn step0_exec(w: Vec<char>) -> (r: Vec<char>)
    ensures
        r@ == step0(w@),
{
    let mut v = w;
    if ends3(&v, '\'', 's', '\'') {
        chop(&mut v, 3);
    } else if ends2(&v, '\'', 's') {
        chop(&mut v, 2);
    } else if ends1(&v, '\'') {
        chop(&mut v, 1);
    }
    v
}

/// Strip plural endings.
pub open spec fn step1a(s: Seq<char>) -> Seq<char> {
    if ends_with(s, seq!['s', 's', 'e', 's']) {
        s.take(s.len() - 2)
    } else if ends_with(s, seq!['i', 'e', 'd']) || ends_with(s, seq!['i', 'e', 's']) {
        if s.len() >= 5 {
            s.take(s.len() - 3).push('i')
        } else {
            s.take(s.len() - 3).push('i').push('e')
        }
    } else if ends_with(s, seq!['u', 's']) || ends_with(s, seq!['s', 's']) {
        s
    } else if ends_with(s, seq!['s']) {
        if has_vowel(s, s.len() - 2) {
            s.take(s.len() - 1)
        } else {
            s
        }
    } else {
        s
    }
}

pub fn step1a_exec(w: Vec<char>) -> (r: Vec<char>)
    ensures
        r@ == step1a(w@),
{
    let mut v = w;
    if ends4(&v, 's', 's', 'e', 's') {
        chop(&mut v, 2);
    } else if ends3(&v, 'i', 'e', 'd') || ends3(&v, 'i', 'e', 's') {
        if v.len() >= 5 {
            chop(&mut v, 3);
            v.push('i');
        } else {
            chop(&mut v, 3);
            v.push('i');
            v.push('e');
        }
    } else if ends2(&v, 'u', 's') || ends2(&v, 's', 's') {
    } else if ends1(&v, 's') {
        if v.len() >= 2 && has_vowel_exec(&v, v.len() - 2) {
            chop(&mut v, 1);
        }
    }
    v
}

/// After stripping a verb inflection: restore an `e` or undouble.
pub open spec fn post1b(t: Seq<char>, r1: int) -> Seq<char> {
    if ends_with(t, seq!['a', 't']) || ends_with(t, seq!['b', 'l']) || ends_with(
        t,
        seq!['i', 'z'],
    ) {
        t.push('e')
    } else if ends_double(t) {
        t.take(t.len() - 1)
    } else if is_short(t, r1) {
        t.push('e')
    } else {
        t
    }
}

pub fn post1b_exec(t: Vec<char>, r1: usize) -> (r: Vec<char>)
    ensures
        r@ == post1b(t@, r1 as int),
{
    let mut v = t;
    if ends2(&v, 'a', 't') || ends2(&v, 'b', 'l') || ends2(&v, 'i', 'z') {
        v.push('e');
    } else if ends_double_exec(&v) {
        chop(&mut v, 1);
    } else if ends_short_syll_exec(&v) && r1 >= v.len() {
        v.push('e');
    }
    v
}

/// Strip verb inflections.
pub open spec fn step1b(s: Seq<char>, r1: int) -> Seq<char> {
    if ends_with(s, seq!['e', 'e', 'd', 'l', 'y']) {
        if s.len() - 5 >= r1 {
            s.take(s.len() - 5).push('e').push('e')
        } else {
            s
        }
    } else if ends_with(s, seq!['i', 'n', 'g', 'l', 'y']) {
        if has_vowel(s, s.len() - 5) {
            post1b(s.take(s.len() - 5), r1)
        } else {
            s
        }
    } else if ends_with(s, seq!['e', 'd', 'l', 'y']) {
        if has_vowel(s, s.len() - 4) {
            post1b(s.take(s.len() - 4), r1)
        } else {
            s
        }
    } else if ends_with(s, seq!['e', 'e', 'd']) {
        if s.len() - 3 >= r1 {
            s.take(s.len() - 3).push('e').push('e')
        } else {
            s
        }
    } else if ends_with(s, seq!['i', 'n', 'g']) {
        if has_vowel(s, s.len() - 3) {
            post1b(s.take(s.len() - 3), r1)
        } else {
            s
        }
    } else if ends_with(s, seq!['e', 'd']) {
        if has_vowel(s, s.len() - 2) {
            post1b(s.take(s.len() - 2), r1)
        } else {
            s
        }
    } else {
        s
    }
}

pub fn step1b_exec(w: Vec<char>, r1: usize) -> (r: Vec<char>)
    ensures
        r@ == step1b(w@, r1 as int),
{
    let mut v = w;
    if ends5(&v, 'e', 'e', 'd', 'l', 'y') {
        if v.len() - 5 >= r1 {
            chop(&mut v, 5);
            v.push('e');
            v.push('e');
        }
        v
    } else if ends5(&v, 'i', 'n', 'g', 'l', 'y') {
        if has_vowel_exec(&v, v.len() - 5) {
            chop(&mut v, 5);
            post1b_exec(v, r1)
        } else {
            v
        }
    } else if ends4(&v, 'e', 'd', 'l', 'y') {
        if has_vowel_exec(&v, v.len() - 4) {
            chop(&mut v, 4);
            post1b_exec(v, r1)
        } else {
            v
        }
    } else if ends3(&v, 'e', 'e', 'd') {
        if v.len() - 3 >= r1 {
            chop(&mut v, 3);
            v.push('e');
            v.push('e');
        }
        v
    } else if ends3(&v, 'i', 'n', 'g') {
        if has_vowel_exec(&v, v.len() - 3) {
            chop(&mut v, 3);
            post1b_exec(v, r1)
        } else {
            v
        }
    } else if ends2(&v, 'e', 'd') {
        if has_vowel_exec(&v, v.len() - 2) {
            chop(&mut v, 2);
            post1b_exec(v, r1)
        } else {
            v
        }
    } else {
        v
    }
}

/// Turn a final consonant-preceded `y` into `i`.
pub open spec fn step1c(s: Seq<char>) -> Seq<char> {
    if s.len() >= 3 && (s[s.len() - 1] == 'y' || s[s.len() - 1] == 'Y') && !is_v(s[s.len() - 2]) {
        s.take(s.len() - 1).push('i')
    } else {
        s
    }
}

pub fn step1c_exec(w: Vec<char>) -> (r: Vec<char>)
    ensures
        r@ == step1c(w@),
{
    let mut v = w;
    if v.len() >= 3 && (v[v.len() - 1] == 'y' || v[v.len() - 1] == 'Y') && !is_vowel(
        v[v.len() - 2],
    ) {
        chop(&mut v, 1);
        v.push('i');
    }
    v
}

/// Map derivational suffixes, gated on R1.
pub open spec fn step2(s: Seq<char>, r1: int) -> Seq<char> {
    let l = s.len() as int;
    if ends_with(s, seq!['a', 't', 'i', 'o', 'n', 'a', 'l']) {
        if l - 7 >= r1 {
            s.take(l - 7).push('a').push('t').push('e')
        } else {
            s
        }
    } else if ends_with(s, seq!['i', 'z', 'a', 't', 'i', 'o', 'n']) {
        if l - 7 >= r1 {
            s.take(l - 7).push('i').push('z').push('e')
        } else {
            s
        }
    } else if ends_with(s, seq!['f', 'u', 'l', 'n', 'e', 's', 's']) {
        if l - 7 >= r1 {
            s.take(l - 4)
        } else {
            s
        }
    } else if ends_with(s, seq!['o', 'u', 's', 'n', 'e', 's', 's']) {
        if l - 7 >= r1 {
            s.take(l - 4)
        } else {
            s
        }
    } else if ends_with(s, seq!['i', 'v', 'e', 'n', 'e', 's', 's']) {
        if l - 7 >= r1 {
            s.take(l - 4)
        } else {
            s
        }
    } else if ends_with(s, seq!['t', 'i', 'o', 'n', 'a', 'l']) {
        if l - 6 >= r1 {
            s.take(l - 2)
        } else {
            s
        }
    } else if ends_with(s, seq!['b', 'i', 'l', 'i', 't', 'i']) {
        if l - 6 >= r1 {
            s.take(l - 6).push('b').push('l').push('e')
        } else {
            s
        }
    } else if ends_with(s, seq!['l', 'e', 's', 's', 'l', 'i']) {
        if l - 6 >= r1 {
            s.take(l - 2)
        } else {
            s
        }
    } else if ends_with(s, seq!['e', 'n', 't', 'l', 'i']) {
        if l - 5 >= r1 {
            s.take(l - 2)
        } else {
            s
        }
    } else if ends_with(s, seq!['f', 'u', 'l', 'l', 'i']) {
        if l - 5 >= r1 {
            s.take(l - 2)
        } else {
            s
        }
    } else if ends_with(s, seq!['o', 'u', 's', 'l', 'i']) {
        if l - 5 >= r1 {
            s.take(l - 2)
        } else {
            s
        }
    } else if ends_with(s, seq!['a', 'l', 'i', 't', 'i']) {
        if l - 5 >= r1 {
            s.take(l - 3)
        } else {
            s
        }
    } else if ends_with(s, seq!['a', 'l', 'i', 's', 'm']) {
        if l - 5 >= r1 {
            s.take(l - 3)
        } else {
            s
        }
    } else if ends_with(s, seq!['a', 't', 'i', 'o', 'n']) {
        if l - 5 >= r1 {
            s.take(l - 5).push('a').push('t').push('e')
        } else {
            s
        }
    } else if ends_with(s, seq!['i', 'v', 'i', 't', 'i']) {
        if l - 5 >= r1 {
            s.take(l - 5).push('i').push('v').push('e')
        } else {
            s
        }
    } else if ends_with(s, seq!['e', 'n', 'c', 'i']) {
        if l - 4 >= r1 {
            s.take(l - 1).push('e')
        } else {
            s
        }
    } else if ends_with(s, seq!['a', 'n', 'c', 'i']) {
        if l - 4 >= r1 {
            s.take(l - 1).push('e')
        } else {
            s
        }
    } else if ends_with(s, seq!['a', 'b', 'l', 'i']) {
        if l - 4 >= r1 {
            s.take(l - 1).push('e')
        } else {
            s
        }
    } else if ends_with(s, seq!['i', 'z', 'e', 'r']) {
        if l - 4 >= r1 {
            s.take(l - 1)
        } else {
            s
        }
    } else if ends_with(s, seq!['a', 't', 'o', 'r']) {
        if l - 4 >= r1 {
            s.take(l - 4).push('a').push('t').push('e')
        } else {
            s
        }
    } else if ends_with(s, seq!['a', 'l', 'l', 'i']) {
        if l - 4 >= r1 {
            s.take(l - 2)
        } else {
            s
        }
    } else if ends_with(s, seq!['b', 'l', 'i']) {
        if l - 3 >= r1 {
            s.take(l - 1).push('e')
        } else {
            s
        }
    } else if ends_with(s, seq!['o', 'g', 'i']) {
        if l - 3 >= r1 && l >= 4 && s[l - 4] == 'l' {
            s.take(l - 1)
        } else {
            s
        }
    } else if ends_with(s, seq!['l', 'i']) {
        if l - 2 >= r1 && l >= 3 && valid_li(s[l - 3]) {
            s.take(l - 2)
        } else {
            s
        }
    } else {
        s
    }
}

pub fn step2_exec(w: Vec<char>, r1: usize) -> (r: Vec<char>)
    ensures
        r@ == step2(w@, r1 as int),
{
    let mut v = w;
    if ends7(&v, 'a', 't', 'i', 'o', 'n', 'a', 'l') {
        if v.len() - 7 >= r1 {
            chop(&mut v, 7);
            v.push('a');
            v.push('t');
            v.push('e');
        }
    } else if ends7(&v, 'i', 'z', 'a', 't', 'i', 'o', 'n') {
        if v.len() - 7 >= r1 {
            chop(&mut v, 7);
            v.push('i');
            v.push('z');
            v.push('e');
        }
    } else if ends7(&v, 'f', 'u', 'l', 'n', 'e', 's', 's') {
        if v.len() - 7 >= r1 {
            chop(&mut v, 4);
        }
    } else if ends7(&v, 'o', 'u', 's', 'n', 'e', 's', 's') {
        if v.len() - 7 >= r1 {
            chop(&mut v, 4);
        }
    } else if ends7(&v, 'i', 'v', 'e', 'n', 'e', 's', 's') {
        if v.len() - 7 >= r1 {
            chop(&mut v, 4);
        }
    } else if ends6(&v, 't', 'i', 'o', 'n', 'a', 'l') {
        if v.len() - 6 >= r1 {
            chop(&mut v, 2);
        }
    } else if ends6(&v, 'b', 'i', 'l', 'i', 't', 'i') {
        if v.len() - 6 >= r1 {
            chop(&mut v, 6);
            v.push('b');
            v.push('l');
            v.push('e');
        }
    } else if ends6(&v, 'l', 'e', 's', 's', 'l', 'i') {
        if v.len() - 6 >= r1 {
            chop(&mut v, 2);
        }
    } else if ends5(&v, 'e', 'n', 't', 'l', 'i') {
        if v.len() - 5 >= r1 {
            chop(&mut v, 2);
        }
    } else if ends5(&v, 'f', 'u', 'l', 'l', 'i') {
        if v.len() - 5 >= r1 {
            chop(&mut v, 2);
        }
    } else if ends5(&v, 'o', 'u', 's', 'l', 'i') {
        if v.len() - 5 >= r1 {
            chop(&mut v, 2);
        }
    } else if ends5(&v, 'a', 'l', 'i', 't', 'i') {
        if v.len() - 5 >= r1 {
            chop(&mut v, 3);
        }
    } else if ends5(&v, 'a', 'l', 'i', 's', 'm') {
        if v.len() - 5 >= r1 {
            chop(&mut v, 3);
        }
    } else if ends5(&v, 'a', 't', 'i', 'o', 'n') {
        if v.len() - 5 >= r1 {
            chop(&mut v, 5);
            v.push('a');
            v.push('t');
            v.push('e');
        }
    } else if ends5(&v, 'i', 'v', 'i', 't', 'i') {
        if v.len() - 5 >= r1 {
            chop(&mut v, 5);
            v.push('i');
            v.push('v');
            v.push('e');
        }
    } else if ends4(&v, 'e', 'n', 'c', 'i') {
        if v.len() - 4 >= r1 {
            chop(&mut v, 1);
            v.push('e');
        }
    } else if ends4(&v, 'a', 'n', 'c', 'i') {
        if v.len() - 4 >= r1 {
            chop(&mut v, 1);
            v.push('e');
        }
    } else if ends4(&v, 'a', 'b', 'l', 'i') {
        if v.len() - 4 >= r1 {
            chop(&mut v, 1);
            v.push('e');
        }
    } else if ends4(&v, 'i', 'z', 'e', 'r') {
        if v.len() - 4 >= r1 {
            chop(&mut v, 1);
        }
    } else if ends4(&v, 'a', 't', 'o', 'r') {
        if v.len() - 4 >= r1 {
            chop(&mut v, 4);
            v.push('a');
            v.push('t');
            v.push('e');
        }
    } else if ends4(&v, 'a', 'l', 'l', 'i') {
        if v.len() - 4 >= r1 {
            chop(&mut v, 2);
        }
    } else if ends3(&v, 'b', 'l', 'i') {
        if v.len() - 3 >= r1 {
            chop(&mut v, 1);
            v.push('e');
        }
    } else if ends3(&v, 'o', 'g', 'i') {
        if v.len() - 3 >= r1 && v.len() >= 4 && v[v.len() - 4] == 'l' {
            chop(&mut v, 1);
        }
    } else if ends2(&v, 'l', 'i') {
        if v.len() - 2 >= r1 && v.len() >= 3 && valid_li_exec(v[v.len() - 3]) {
            chop(&mut v, 2);
        }
    }
    v
}

/// Map further derivational suffixes, gated on R1 (one on R2).
pub open spec fn step3(s: Seq<char>, r1: int, r2: int) -> Seq<char> {
    let l = s.len() as int;
    if ends_with(s, seq!['a', 't', 'i', 'o', 'n', 'a', 'l']) {
        if l - 7 >= r1 {
            s.take(l - 7).push('a').push('t').push('e')
        } else {
            s
        }
    } else if ends_with(s, seq!['t', 'i', 'o', 'n', 'a', 'l']) {
        if l - 6 >= r1 {
            s.take(l - 2)
        } else {
            s
        }
    } else if ends_with(s, seq!['a', 'l', 'i', 'z', 'e']) {
        if l - 5 >= r1 {
            s.take(l - 3)
        } else {
            s
        }
    } else if ends_with(s, seq!['i', 'c', 'a', 't', 'e']) {
        if l - 5 >= r1 {
            s.take(l - 3)
        } else {
            s
        }
    } else if ends_with(s, seq!['i', 'c', 'i', 't', 'i']) {
        if l - 5 >= r1 {
            s.take(l - 3)
        } else {
            s
        }
    } else if ends_with(s, seq!['a', 't', 'i', 'v', 'e']) {
        if l - 5 >= r2 {
            s.take(l - 5)
        } else {
            s
        }
    } else if ends_with(s, seq!['i', 'c', 'a', 'l']) {
        if l - 4 >= r1 {
            s.take(l - 2)
        } else {
            s
        }
    } else if ends_with(s, seq!['n', 'e', 's', 's']) {
        if l - 4 >= r1 {
            s.take(l - 4)
        } else {
            s
        }
    } else if ends_with(s, seq!['f', 'u', 'l']) {
        if l - 3 >= r1 {
            s.take(l - 3)
        } else {
            s
        }
    } else {
        s
    }
}

pub fn step3_exec(w: Vec<char>, r1: usize, r2: usize) -> (r: Vec<char>)
    ensures
        r@ == step3(w@, r1 as int, r2 as int),
{
    let mut v = w;
    if ends7(&v, 'a', 't', 'i', 'o', 'n', 'a', 'l') {
        if v.len() - 7 >= r1 {
            chop(&mut v, 7);
            v.push('a');
            v.push('t');
            v.push('e');
        }
    } else if ends6(&v, 't', 'i', 'o', 'n', 'a', 'l') {
        if v.len() - 6 >= r1 {
            chop(&mut v, 2);
        }
    } else if ends5(&v, 'a', 'l', 'i', 'z', 'e') {
        if v.len() - 5 >= r1 {
            chop(&mut v, 3);
        }
    } else if ends5(&v, 'i', 'c', 'a', 't', 'e') {
        if v.len() - 5 >= r1 {
            chop(&mut v, 3);
        }
    } else if ends5(&v, 'i', 'c', 'i', 't', 'i') {
        if v.len() - 5 >= r1 {
            chop(&mut v, 3);
        }
    } else if ends5(&v, 'a', 't', 'i', 'v', 'e') {
        if v.len() - 5 >= r2 {
            chop(&mut v, 5);
        }
    } else if ends4(&v, 'i', 'c', 'a', 'l') {
        if v.len() - 4 >= r1 {
            chop(&mut v, 2);
        }
    } else if ends4(&v, 'n', 'e', 's', 's') {
        if v.len() - 4 >= r1 {
            chop(&mut v, 4);
        }
    } else if ends3(&v, 'f', 'u', 'l') {
        if v.len() - 3 >= r1 {
            chop(&mut v, 3);
        }
    }
    v
}

/// Delete residual suffixes, gated on R2.
pub open spec fn step4(s: Seq<char>, r2: int) -> Seq<char> {
    let l = s.len() as int;
    if ends_with(s, seq!['e', 'm', 'e', 'n', 't']) {
        if l - 5 >= r2 {
            s.take(l - 5)
        } else {
            s
        }
    } else if ends_with(s, seq!['a', 'n', 'c', 'e']) || ends_with(s, seq!['e', 'n', 'c', 'e'])
        || ends_with(s, seq!['a', 'b', 'l', 'e']) || ends_with(s, seq!['i', 'b', 'l', 'e'])
        || ends_with(s, seq!['m', 'e', 'n', 't']) {
        if l - 4 >= r2 {
            s.take(l - 4)
        } else {
            s
        }
    } else if ends_with(s, seq!['a', 'n', 't']) || ends_with(s, seq!['e', 'n', 't']) || ends_with(
        s,
        seq!['i', 's', 'm'],
    ) || ends_with(s, seq!['a', 't', 'e']) || ends_with(s, seq!['i', 't', 'i']) || ends_with(
        s,
        seq!['o', 'u', 's'],
    ) || ends_with(s, seq!['i', 'v', 'e']) || ends_with(s, seq!['i', 'z', 'e']) {
        if l - 3 >= r2 {
            s.take(l - 3)
        } else {
            s
        }
    } else if ends_with(s, seq!['i', 'o', 'n']) {
        if l - 3 >= r2 && l >= 4 && (s[l - 4] == 's' || s[l - 4] == 't') {
            s.take(l - 3)
        } else {
            s
        }
    } else if ends_with(s, seq!['a', 'l']) || ends_with(s, seq!['e', 'r']) || ends_with(
        s,
        seq!['i', 'c'],
    ) {
        if l - 2 >= r2 {
            s.take(l - 2)
        } else {
            s
        }
    } else {
        s
    }
}

pub fn step4_exec(w: Vec<char>, r2: usize) -> (r: Vec<char>)
    ensures
        r@ == step4(w@, r2 as int),
{
    let mut v = w;
    if ends5(&v, 'e', 'm', 'e', 'n', 't') {
        if v.len() - 5 >= r2 {
            chop(&mut v, 5);
        }
    } else if ends4(&v, 'a', 'n', 'c', 'e') || ends4(&v, 'e', 'n', 'c', 'e') || ends4(
        &v,
        'a',
        'b',
        'l',
        'e',
    ) || ends4(&v, 'i', 'b', 'l', 'e') || ends4(&v, 'm', 'e', 'n', 't') {
        if v.len() - 4 >= r2 {
            chop(&mut v, 4);
        }
    } else if ends3(&v, 'a', 'n', 't') || ends3(&v, 'e', 'n', 't') || ends3(&v, 'i', 's', 'm')
        || ends3(&v, 'a', 't', 'e') || ends3(&v, 'i', 't', 'i') || ends3(&v, 'o', 'u', 's')
        || ends3(&v, 'i', 'v', 'e') || ends3(&v, 'i', 'z', 'e') {
        if v.len() - 3 >= r2 {
            chop(&mut v, 3);
        }
    } else if ends3(&v, 'i', 'o', 'n') {
        if v.len() - 3 >= r2 && v.len() >= 4 && (v[v.len() - 4] == 's' || v[v.len() - 4] == 't') {
            chop(&mut v, 3);
        }
    } else if ends2(&v, 'a', 'l') || ends2(&v, 'e', 'r') || ends2(&v, 'i', 'c') {
        if v.len() - 2 >= r2 {
            chop(&mut v, 2);
        }
    }
    v
}

/// Tidy a final `e` or doubled `l`.
pub open spec fn step5(s: Seq<char>, r1: int, r2: int) -> Seq<char> {
    let l = s.len() as int;
    if ends_with(s, seq!['e']) {
        if l - 1 >= r2 {
            s.take(l - 1)
        } else if l - 1 >= r1 && !ends_short_syll(s.take(l - 1)) {
            s.take(l - 1)
        } else {
            s
        }
    } else if ends_with(s, seq!['l']) {
        if l - 1 >= r2 && l >= 2 && s[l - 2] == 'l' {
            s.take(l - 1)
        } else {
            s
        }
    } else {
        s
    }
}

pub fn step5_exec(w: Vec<char>, r1: usize, r2: usize) -> (r: Vec<char>)
    ensures
        r@ == step5(w@, r1 as int, r2 as int),
{
    let mut v = w;
    if ends1(&v, 'e') {
        if v.len() - 1 >= r2 {
            chop(&mut v, 1);
        } else if v.len() - 1 >= r1 {
            let mut t = crate::chars::clone_chars(&v);
            chop(&mut t, 1);
            if !ends_short_syll_exec(&t) {
                chop(&mut v, 1);
            }
        }
    } else if ends1(&v, 'l') {
        if v.len() - 1 >= r2 && v.len() >= 2 && v[v.len() - 2] == 'l' {
            chop(&mut v, 1);
        }
    }
    v
}

/// The stem of one lowercase word, by the staged suffix-stripping rules.
pub open spec fn stem_spec(s: Seq<char>) -> Seq<char> {
    if s.len() <= 2 {
        s
    } else {
        let s1 = if s[0] == '\'' {
            s.skip(1)
        } else {
            s
        };
        match exception1(s1) {
            Some(r) => r,
            None => if s1.len() <= 2 {
                s1
            } else {
                let m = mark_ys(s1);
                let r1 = r1_of(m);
                let r2 = region_from(m, r1);
                let wa = step1a(step0(m));
                if is_exception2(wa) {
                    wa
                } else {
                    unmark(
                        step5(
                            step4(step3(step2(step1c(step1b(wa, r1)), r1), r1, r2), r2),
                            r1,
                            r2,
                        ),
                    )
                }
            },
        }
    }
}

pub fn stem(w: &Vec<char>) -> (r: Vec<char>)
    ensures
        r@ == stem_spec(w@),
{
    if w.len() <= 2 {
        return crate::chars::clone_chars(w);
    }
    let mut v = crate::chars::clone_chars(w);
    if v[0] == '\'' {
        v.remove(0);
        proof {
            assert(w@.remove(0) =~= w@.skip(1));
        }
    }
    match exception1_exec(&v) {
        Some(r) => {
            return r;
        },
        None => {},
    }
    if v.len() <= 2 {
        return v;
    }
    let m = mark_ys_exec(&v);
    let r1 = r1_exec(&m);
    let r2 = region_from_exec(&m, r1);
    let w0 = step0_exec(m);
    let wa = step1a_exec(w0);
    if is_exception2_exec(&wa) {
        return wa;
    }
    let wb = step1b_exec(wa, r1);
    let wc = step1c_exec(wb);
    let w2 = step2_exec(wc, r1);
    let w3 = step3_exec(w2, r1, r2);
    let w4 = step4_exec(w3, r2);
    let w5 = step5_exec(w4, r1, r2);
    unmark_exec(&w5)
}

} // verus!

