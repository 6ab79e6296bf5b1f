//! The decisions behind the interactive loop: command parsing, and the
//! capping, filtering and numbering of displayed results. Reading input and
//! printing stay outside the library.
use vstd::prelude::*;
use crate::chars::clone_chars;

verus! {

/// One parsed line of interactive input.
pub enum Command {
    /// Leave the loop.
    Exit,
    /// Open the previously displayed result with this number.
    Open(u64),
    /// Run a ranked query over the whole line.
    Search(Vec<char>),
    /// A line that asks for nothing.
    Nothing,
    /// A malformed `open` command, reported instead of ending the loop.
    Invalid,
}

/// The mathematical content of a parsed command.
pub ghost enum CommandModel {
    Exit,
    Open(u64),
    Search(Seq<char>),
    Nothing,
    Invalid,
}

impl Command {
    pub open spec fn view(self) -> CommandModel {
        match self {
            Command::Exit => CommandModel::Exit,
            Command::Open(n) => CommandModel::Open(n),
            Command::Search(q) => CommandModel::Search(q@),
            Command::Nothing => CommandModel::Nothing,
            Command::Invalid => CommandModel::Invalid,
        }
    }
}

pub open spec fn is_space(c: char) -> bool {
    c == ' ' || c == '\t'
}

pub open spec fn is_digit(c: char) -> bool {
    '0' <= c && c <= '9'
}

/// The first non-space position at or after `i`.
pub open spec fn skip_spaces(s: Seq<char>, i: int) -> int
    decreases s.len() - i,
{
    if i < 0 || i >= s.len() {
        s.len() as int
    } else if is_space(s[i]) {
        skip_spaces(s, i + 1)
    } else {
        i
    }
}

/// The first space position at or after `i`.
pub open spec fn token_end(s: Seq<char>, i: int) -> int
    decreases s.len() - i,
{
    if i < 0 || i >= s.len() {
        s.len() as int
    } else if is_space(s[i]) {
        i
    } else {
        token_end(s, i + 1)
    }
}

/// The number a digit string denotes.
pub open spec fn digits_val(s: Seq<char>) -> int
    decreases s.len(),
{
    if s.len() == 0 {
        0
    } else {
        digits_val(s.drop_last()) * 10 + (s.last() as int - '0' as int)
    }
}

pub open spec fn all_digits(s: Seq<char>) -> bool {
    forall|i: int| 0 <= i < s.len() ==> is_digit(#[trigger] s[i])
}

/// What a line of interactive input asks for. `exit` leaves; `open N` picks
/// a displayed result, and is invalid rather than fatal when `N` is missing,
/// not a number, or out of range; a line starting with `/` is a query;
/// anything else asks for nothing.
pub open spec fn parse_spec(s: Seq<char>) -> CommandModel {
    if s == seq!['e', 'x', 'i', 't'] {
        CommandModel::Exit
    } else {
        let t0 = skip_spaces(s, 0);
        let t1 = token_end(s, t0);
        if s.subrange(t0, t1) == seq!['o', 'p', 'e', 'n'] {
            let a0 = skip_spaces(s, t1);
            let a1 = token_end(s, a0);
            let num = s.subrange(a0, a1);
            if num.len() > 0 && all_digits(num) && digits_val(num) <= u64::MAX {
                CommandModel::Open(digits_val(num) as u64)
            } else {
                CommandModel::Invalid
            }
        } else if s.len() > 0 && s[0] == '/' {
            CommandModel::Search(s)
        } else {
            CommandModel::Nothing
        }
    }
}

fn skip_spaces_exec(s: &Vec<char>, from: usize) -> (r: usize)
    requires
        from <= s@.len(),
    ensures
        r as int == skip_spaces(s@, from as int),
        from <= r <= s@.len(),
{
    let mut i = from;
    while i < s.len()
        invariant
            from <= i <= s@.len(),
            skip_spaces(s@, from as int) == skip_spaces(s@, i as int),
        decreases s@.len() - i,
    {
        let c = s[i];
        if !(c == ' ' || c == '\t') {
            return i;
        }
        i += 1;
    }
    i
}

fn token_end_exec(s: &Vec<char>, from: usize) -> (r: usize)
    requires
        from <= s@.len(),
    ensures
        r as int == token_end(s@, from as int),
        from <= r <= s@.len(),
{
    let mut i = from;
    while i < s.len()
        invariant
            from <= i <= s@.len(),
            token_end(s@, from as int) == token_end(s@, i as int),
        decreases s@.len() - i,
    {
        let c = s[i];
        if c == ' ' || c == '\t' {
            return i;
        }
        i += 1;
    }
    i
}

/// Parse the digits in `s[from..to]` as a number, rejecting anything that is
/// not a plain digit string that fits.
fn parse_number(s: &Vec<char>, from: usize, to: usize) -> (r: Option<u64>)
    requires
        from <= to <= s@.len(),
    ensures
        ({
            let num = s@.subrange(from as int, to as int);
            match r {
                Some(v) => num.len() > 0 && all_digits(num) && digits_val(num) == v as int,
                None => !(num.len() > 0 && all_digits(num) && digits_val(num) <= u64::MAX),
            }
        }),
{
    let ghost num = s@.subrange(from as int, to as int);
    if from == to {
        return None;
    }
    let mut val: u64 = 0;
    let mut i = from;
    while i < to
        invariant
            from <= i <= to <= s@.len(),
            num == s@.subrange(from as int, to as int),
            all_digits(s@.subrange(from as int, i as int)),
            val as int == digits_val(s@.subrange(from as int, i as int)),
        decreases to - i,
    {
        let ghost pre = s@.subrange(from as int, i as int);
        let c = s[i];
        if !('0' <= c && c <= '9') {
            proof {
                assert(num[i - from] == c);
                assert(!all_digits(num));
            }
            return None;
        }
        let d: u64 = (c as u8 - 48) as u64;
        proof {
            assert(d as int == c as int - '0' as int);
            assert(s@.subrange(from as int, i + 1 as int).drop_last() =~= pre);
            assert(s@.subrange(from as int, i + 1 as int).last() == c);
        }
        if val > (u64::MAX - d) / 10 {
            proof {
                let m = u64::MAX as int;
                let vi = val as int;
                let di = d as int;
                assert(vi >= (m - di) / 10 + 1);
                assert(((m - di) / 10 + 1) * 10 > m - di) by (nonlinear_arith)
                    requires
                        0 <= di <= 9,
                        m == 0xffffffffffffffff,
                ;
                assert(vi * 10 >= ((m - di) / 10 + 1) * 10) by (nonlinear_arith)
                    requires
                        vi >= (m - di) / 10 + 1,
                ;
                assert(digits_val(s@.subrange(from as int, i + 1 as int)) > m);
                if all_digits(num) {
                    lemma_digits_prefix_le(num, i + 1 - from);
                    assert(s@.subrange(from as int, i + 1 as int) =~= num.take(i + 1 - from));
                }
            }
            return None;
        }
        proof {
            let m = u64::MAX as int;
            let vi = val as int;
            let di = d as int;
            assert(vi * 10 + di <= m) by (nonlinear_arith)
                requires
                    0 <= vi <= (m - di) / 10,
                    0 <= di <= 9,
                    m == 0xffffffffffffffff,
            ;
        }
        val = val * 10 + d;
        proof {
            assert(all_digits(s@.subrange(from as int, i + 1 as int))) by {
                assert forall|k: int|
                    0 <= k < i + 1 - from implies is_digit(
                    #[trigger] s@.subrange(from as int, i + 1 as int)[k],
                ) by {
                    if k < i - from {
                        assert(s@.subrange(from as int, i + 1 as int)[k] == pre[k]);
                    }
                }
            }
        }
        i += 1;
    }
    proof {
        assert(s@.subrange(from as int, to as int) =~= num);
    }
    Some(val)
}

proof fn lemma_digits_prefix_le(s: Seq<char>, j: int)
    requires
        0 <= j <= s.len(),
        all_digits(s),
    ensures
        digits_val(s.take(j)) <= digits_val(s),
        digits_val(s) >= 0,
    decreases s.len() - j,
{
    if j == s.len() {
        assert(s.take(j) =~= s);
        lemma_digits_nonneg(s);
    } else {
        assert(s.take(j + 1).drop_last() =~= s.take(j));
        assert(s.take(j + 1).last() == s[j]);
        lemma_digits_nonneg(s.take(j));
        assert(is_digit(s[j]));
        assert(digits_val(s.take(j)) * 10 >= digits_val(s.take(j))) by (nonlinear_arith)
            requires
                digits_val(s.take(j)) >= 0,
        ;
        lemma_digits_prefix_le(s, j + 1);
    }
}

proof fn lemma_digits_nonneg(s: Seq<char>)
    requires
        all_digits(s),
    ensures
        digits_val(s) >= 0,
    decreases s.len(),
{
    if s.len() > 0 {
        assert forall|i: int| 0 <= i < s.drop_last().len() implies is_digit(
            #[trigger] s.drop_last()[i],
        ) by {
            assert(s.drop_last()[i] == s[i]);
        }
        lemma_digits_nonneg(s.drop_last());
        assert(is_digit(s[s.len() - 1]));
        assert(digits_val(s.drop_last()) * 10 >= 0) by (nonlinear_arith)
            requires
                digits_val(s.drop_last()) >= 0,
        ;
    }
}

/// Parse one trimmed line of interactive input.
pub fn parse_command(line: &Vec<char>) -> (r: Command)
    ensures
        r@ == parse_spec(line@),
{
    if crate::stemmer::eq4(line, 'e', 'x', 'i', 't') {
        return Command::Exit;
    }
    let t0 = skip_spaces_exec(line, 0);
    let t1 = token_end_exec(line, t0);
    let is_open = t1 - t0 == 4 && line[t0] == 'o' && line[t0 + 1] == 'p' && line[t0 + 2] == 'e'
        && line[t0 + 3] == 'n';
    proof {
        let tok = line@.subrange(t0 as int, t1 as int);
        if is_open {
            assert(tok =~= seq!['o', 'p', 'e', 'n']);
        } else {
            if tok == seq!['o', 'p', 'e', 'n'] {
                assert(tok.len() == 4);
                assert(tok[0] == 'o' && tok[1] == 'p' && tok[2] == 'e' && tok[3] == 'n');
                assert(false);
            }
        }
    }
    if is_open {
        let a0 = skip_spaces_exec(line, t1);
        let a1 = token_end_exec(line, a0);
        match parse_number(line, a0, a1) {
            Some(v) => Command::Open(v),
            None => Command::Invalid,
        }
    } else if line.len() > 0 && line[0] == '/' {
        Command::Search(clone_chars(line))
    } else {
        Command::Nothing
    }
}

/// Results as displayed: the first thirty entries, filtered to positive
/// scores, numbered from one by their position in the capped list.
pub open spec fn present_spec(rs: Seq<(Seq<char>, u64)>, upto: int) -> Seq<(u64, Seq<char>, u64)>
    decreases upto,
{
    if upto <= 0 || upto > rs.len() || upto > 30 {
        Seq::empty()
    } else {
        let head = present_spec(rs, upto - 1);
        if rs[upto - 1].1 > 0 {
            head.push(((upto) as u64, rs[upto - 1].0, rs[upto - 1].1))
        } else {
            head
        }
    }
}

pub open spec fn cap30(n: int) -> int {
    if n > 30 {
        30
    } else {
        n
    }
}

/// Number, cap and filter a ranked result list for display.
pub fn present_results(rs: &Vec<(Vec<char>, u64)>) -> (out: Vec<(u64, Vec<char>, u64)>)
    ensures
        Seq::new(out@.len(), |i: int| (out@[i].0, out@[i].1@, out@[i].2)) == present_spec(
            crate::rank::seq_of_scored(rs@),
            cap30(rs@.len() as int),
        ),
{
    let ghost rv = crate::rank::seq_of_scored(rs@);
    let max = if rs.len() > 30 {
        30
    } else {
        rs.len()
    };
    let mut out: Vec<(u64, Vec<char>, u64)> = Vec::new();
    let mut i: usize = 0;
    proof {
        assert(Seq::new(out@.len(), |k: int| (out@[k].0, out@[k].1@, out@[k].2)) =~= present_spec(
            rv,
            0,
        ));
    }
    while i < max
        invariant
            0 <= i <= max,
            max == cap30(rs@.len() as int),
            max <= rs@.len(),
            rv == crate::rank::seq_of_scored(rs@),
            Seq::new(out@.len(), |k: int| (out@[k].0, out@[k].1@, out@[k].2)) == present_spec(
                rv,
                i as int,
            ),
        decreases max - i,
    {
        let ghost olds = out@;
        if rs[i].1 > 0 {
            let p = clone_chars(&rs[i].0);
            out.push(((i + 1) as u64, p, rs[i].1));
        }
        proof {
            assert(rv[i as int] == (rs@[i as int].0@, rs@[i as int].1));
            assert(Seq::new(out@.len(), |k: int| (out@[k].0, out@[k].1@, out@[k].2))
                =~= present_spec(rv, i + 1 as int));
        }
        i += 1;
    }
    out
}

/// Find a previously displayed result by its number; the first match wins.
pub fn find_result(prev: &Vec<(u64, Vec<char>, u64)>, num: u64) -> (r: Option<Vec<char>>)
    ensures
        match r {
            Some(p) => exists|i: int|
                0 <= i < prev@.len() && (#[trigger] prev@[i]).0 == num && prev@[i].1@ == p@,
            None => forall|i: int| 0 <= i < prev@.len() ==> (#[trigger] prev@[i]).0 != num,
        },
{
    let mut i: usize = 0;
    while i < prev.len()
        invariant
            0 <= i <= prev@.len(),
            forall|k: int| 0 <= k < i ==> (#[trigger] prev@[k]).0 != num,
        decreases prev@.len() - i,
    {
        if prev[i].0 == num {
            return Some(clone_chars(&prev[i].1));
        }
        i += 1;
    }
    None
}

} // verus!
