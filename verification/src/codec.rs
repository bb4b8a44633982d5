//! The persisted text encoding of a dataset, and its parser.
//!
//! The format is line-oriented: every number, flag and string is one
//! token ended by a newline; strings are length-prefixed, so any
//! character may appear in a name. The spec-level parser
//! [`spec_parse_u128`] and friends are the definitional semantics of
//! the format; the executable encoder and parser are proved against
//! them, and parsing an encoded dataset gives the dataset back.

use crate::numfmt::{dec_digit, dec_of, push_dec_u128};
use vstd::prelude::*;
use vstd::string::*;

verus! {

/// One decimal number as a token: its digits and a newline.
pub open spec fn num_token(n: nat) -> Seq<char> {
    dec_of(n) + seq!['\n']
}

/// A signed number as a token: a minus sign before the digits of the
/// magnitude when negative.
pub open spec fn int_token(v: int) -> Seq<char> {
    if v >= 0 {
        num_token(v as nat)
    } else {
        seq!['-'] + num_token((-v) as nat)
    }
}

/// A flag as a token.
pub open spec fn bool_token(b: bool) -> Seq<char> {
    seq![if b { '1' } else { '0' }, '\n']
}

/// A string as a token: its length, then its characters, then a
/// newline.
pub open spec fn str_token(s: Seq<char>) -> Seq<char> {
    num_token(s.len()) + s + seq!['\n']
}

pub open spec fn is_digit(c: char) -> bool {
    c == '0' || c == '1' || c == '2' || c == '3' || c == '4' || c == '5' || c == '6' || c == '7'
        || c == '8' || c == '9'
}

pub open spec fn digit_val(c: char) -> int {
    if c == '0' {
        0
    } else if c == '1' {
        1
    } else if c == '2' {
        2
    } else if c == '3' {
        3
    } else if c == '4' {
        4
    } else if c == '5' {
        5
    } else if c == '6' {
        6
    } else if c == '7' {
        7
    } else if c == '8' {
        8
    } else {
        9
    }
}

pub open spec fn pow10(e: nat) -> int
    decreases e,
{
    if e == 0 {
        1
    } else {
        10 * pow10((e - 1) as nat)
    }
}

/// Scan decimal digits from `pos`, accumulating onto `acc`, and expect
/// a newline after them. This is the meaning of a number token.
pub open spec fn scan_num(s: Seq<char>, pos: int, acc: int) -> Option<(int, int)>
    decreases s.len() - pos
        when 0 <= pos <= s.len()
{
    if pos < s.len() && is_digit(s[pos]) {
        scan_num(s, pos + 1, acc * 10 + digit_val(s[pos]))
    } else if pos < s.len() && s[pos] == '\n' {
        Some((acc, pos + 1))
    } else {
        None
    }
}

/// The meaning of a number token at `pos`: at least one digit, then a
/// newline.
pub open spec fn spec_parse_num(s: Seq<char>, pos: int) -> Option<(int, int)> {
    if 0 <= pos < s.len() && is_digit(s[pos]) {
        scan_num(s, pos, 0)
    } else {
        None
    }
}

/// A number token whose value fits in `u128`.
pub open spec fn spec_parse_u128(s: Seq<char>, pos: int) -> Option<(u128, int)> {
    match spec_parse_num(s, pos) {
        Some((v, p)) => if 0 <= v <= u128::MAX {
            Some((v as u128, p))
        } else {
            None
        },
        None => None,
    }
}

/// A possibly negative number token whose value fits in `i32`.
pub open spec fn spec_parse_i32(s: Seq<char>, pos: int) -> Option<(i32, int)> {
    if 0 <= pos < s.len() && s[pos] == '-' {
        match spec_parse_num(s, pos + 1) {
            Some((v, p)) => if 0 <= v && -v >= i32::MIN {
                Some(((-v) as i32, p))
            } else {
                None
            },
            None => None,
        }
    } else {
        match spec_parse_num(s, pos) {
            Some((v, p)) => if 0 <= v <= i32::MAX {
                Some((v as i32, p))
            } else {
                None
            },
            None => None,
        }
    }
}

/// The meaning of a flag token at `pos`.
pub open spec fn spec_parse_bool(s: Seq<char>, pos: int) -> Option<(bool, int)> {
    if 0 <= pos && pos + 2 <= s.len() && (s[pos] == '0' || s[pos] == '1') && s[pos + 1] == '\n' {
        Some((s[pos] == '1', pos + 2))
    } else {
        None
    }
}

/// The meaning of a string token at `pos`: a length, that many
/// characters, a newline.
pub open spec fn spec_parse_str(s: Seq<char>, pos: int) -> Option<(Seq<char>, int)> {
    match spec_parse_num(s, pos) {
        Some((v, p)) => if v >= 0 && p + v + 1 <= s.len() && s[p + v] == '\n' {
            Some((s.subrange(p, p + v), p + v + 1))
        } else {
            None
        },
        None => None,
    }
}

proof fn lemma_digit_roundtrip(k: int)
    requires
        0 <= k <= 9,
    ensures
        is_digit(dec_digit(k)),
        digit_val(dec_digit(k)) == k,
{
}

/// Every character of a decimal rendering is a digit.
proof fn lemma_dec_of_digits(n: nat)
    ensures
        dec_of(n).len() >= 1,
        forall|j: int| 0 <= j < dec_of(n).len() ==> is_digit(#[trigger] dec_of(n)[j]),
    decreases n,
{
    if n < 10 {
        lemma_digit_roundtrip(n as int);
    } else {
        lemma_dec_of_digits(n / 10);
        lemma_digit_roundtrip((n % 10) as int);
        assert(forall|j: int|
            0 <= j < dec_of(n / 10).len() ==> dec_of(n)[j] == dec_of(n / 10)[j]);
        assert(dec_of(n)[dec_of(n).len() - 1] == dec_digit((n % 10) as int));
    }
}

/// Scanning the digits of `n` continues the scan after them with the
/// accumulator advanced by `n`.
proof fn lemma_scan_over_dec(s: Seq<char>, pos: int, acc: int, n: nat)
    requires
        0 <= pos,
        pos + dec_of(n).len() <= s.len(),
        s.subrange(pos, pos + dec_of(n).len() as int) == dec_of(n),
    ensures
        scan_num(s, pos, acc) == scan_num(
            s,
            pos + dec_of(n).len() as int,
            acc * pow10(dec_of(n).len() as nat) + n,
        ),
    decreases n,
{
    let l = dec_of(n).len() as int;
    if n < 10 {
        assert(s[pos] == dec_of(n)[0]);
        lemma_digit_roundtrip(n as int);
        assert(scan_num(s, pos, acc) == scan_num(s, pos + 1, acc * 10 + n));
        assert(pow10(0) == 1);
        assert(pow10(1) == 10);
        assert(acc * pow10(1) + n == acc * 10 + n);
    } else {
        let lp = dec_of(n / 10).len() as int;
        assert(dec_of(n) == dec_of(n / 10).push(dec_digit((n % 10) as int)));
        assert(l == lp + 1);
        assert(s.subrange(pos, pos + lp) == dec_of(n / 10)) by {
            assert forall|j: int| 0 <= j < lp implies #[trigger] s.subrange(pos, pos + lp)[j]
                == dec_of(n / 10)[j] by {
                assert(s.subrange(pos, pos + l)[j] == dec_of(n)[j]);
            }
            assert(s.subrange(pos, pos + lp) =~= dec_of(n / 10));
        }
        lemma_scan_over_dec(s, pos, acc, n / 10);
        let acc2 = acc * pow10(lp as nat) + (n / 10);
        assert(s[pos + lp] == dec_of(n)[lp]);
        assert(s[pos + lp] == dec_digit((n % 10) as int));
        lemma_digit_roundtrip((n % 10) as int);
        assert(scan_num(s, pos + lp, acc2) == scan_num(s, pos + lp + 1, acc2 * 10 + (n % 10)));
        assert(acc2 * 10 + (n % 10) == acc * pow10(l as nat) + n) by {
            assert(pow10(l as nat) == 10 * pow10(lp as nat));
            assert(n == (n / 10) * 10 + (n % 10));
            assert((acc * pow10(lp as nat) + (n / 10)) * 10 + (n % 10) == acc * (pow10(
                lp as nat,
            ) * 10) + ((n / 10) * 10 + (n % 10))) by (nonlinear_arith);
            assert(acc * (pow10(lp as nat) * 10) == acc * (10 * pow10(lp as nat)))
                by (nonlinear_arith);
        }
    }
}

/// Parsing right after an emitted number token yields the number.
pub proof fn lemma_parse_num_token(s: Seq<char>, pos: int, n: nat)
    requires
        0 <= pos,
        pos + num_token(n).len() <= s.len(),
        s.subrange(pos, pos + num_token(n).len() as int) == num_token(n),
    ensures
        spec_parse_num(s, pos) == Some((n as int, pos + num_token(n).len())),
{
    let l = dec_of(n).len() as int;
    lemma_dec_of_digits(n);
    assert(s.subrange(pos, pos + l) == dec_of(n)) by {
        assert forall|j: int| 0 <= j < l implies #[trigger] s.subrange(pos, pos + l)[j]
            == dec_of(n)[j] by {
            assert(s.subrange(pos, pos + l + 1)[j] == num_token(n)[j]);
        }
        assert(s.subrange(pos, pos + l) =~= dec_of(n));
    }
    assert(s[pos] == dec_of(n)[0]);
    lemma_scan_over_dec(s, pos, 0, n);
    assert(s[pos + l] == num_token(n)[l]);
    assert(s[pos + l] == '\n');
    assert(0 * pow10(dec_of(n).len() as nat) == 0) by (nonlinear_arith);
    assert(!is_digit('\n'));
    assert(scan_num(s, pos + l, n as int) == Some((n as int, pos + l + 1)));
}

/// The marker line at the head of every dataset file.
pub open spec fn enc_magic() -> Seq<char> {
    seq!['m', 'o', 'w', '1', '\n']
}

/// Splitting a matched concatenation at the boundary of its two parts.
pub proof fn lemma_split(s: Seq<char>, pos: int, x: Seq<char>, y: Seq<char>)
    requires
        0 <= pos,
        pos + x.len() + y.len() <= s.len(),
        s.subrange(pos, pos + x.len() + y.len()) == x + y,
    ensures
        s.subrange(pos, pos + x.len() as int) == x,
        s.subrange(pos + x.len() as int, pos + x.len() + y.len()) == y,
{
    assert forall|j: int| 0 <= j < x.len() implies #[trigger] s.subrange(
        pos,
        pos + x.len() as int,
    )[j] == x[j] by {
        assert(s.subrange(pos, pos + x.len() + y.len())[j] == (x + y)[j]);
    }
    assert(s.subrange(pos, pos + x.len() as int) =~= x);
    assert forall|j: int| 0 <= j < y.len() implies #[trigger] s.subrange(
        pos + x.len() as int,
        pos + x.len() + y.len(),
    )[j] == y[j] by {
        let k = j + x.len() as int;
        assert(s.subrange(pos, pos + x.len() + y.len())[k] == (x + y)[k]);
        assert((x + y)[k] == y[j]);
        assert(s.subrange(pos, pos + x.len() + y.len())[k] == s[pos + k]);
        assert(s.subrange(pos + x.len() as int, pos + x.len() + y.len())[j] == s[pos + x.len()
            + j]);
    }
    assert(s.subrange(pos + x.len() as int, pos + x.len() + y.len()) =~= y);
}

/// Parsing right after an emitted signed number token yields the
/// number.
pub proof fn lemma_parse_i32_token(s: Seq<char>, pos: int, y: i32)
    requires
        0 <= pos,
        pos + int_token(y as int).len() <= s.len(),
        s.subrange(pos, pos + int_token(y as int).len() as int) == int_token(y as int),
    ensures
        spec_parse_i32(s, pos) == Some((y, pos + int_token(y as int).len())),
{
    if y >= 0 {
        lemma_parse_num_token(s, pos, y as nat);
        lemma_dec_of_digits(y as nat);
        assert(s[pos] == num_token(y as nat)[0]);
        assert(is_digit(s[pos]));
        assert(s[pos] != '-');
    } else {
        let m = (-(y as int)) as nat;
        assert(int_token(y as int) == seq!['-'] + num_token(m));
        assert(s[pos] == int_token(y as int)[0]);
        assert(s[pos] == '-');
        lemma_split(s, pos, seq!['-'], num_token(m));
        lemma_parse_num_token(s, pos + 1, m);
        assert(-(m as int) >= i32::MIN);
        assert((-(m as int)) as i32 == y);
    }
}

/// Parsing right after an emitted flag token yields the flag.
pub proof fn lemma_parse_bool_token(s: Seq<char>, pos: int, b: bool)
    requires
        0 <= pos,
        pos + 2 <= s.len(),
        s.subrange(pos, pos + 2) == bool_token(b),
    ensures
        spec_parse_bool(s, pos) == Some((b, pos + 2)),
{
    assert(s[pos] == bool_token(b)[0]);
    assert(s[pos + 1] == bool_token(b)[1]);
}

/// Parsing right after an emitted string token yields the string.
pub proof fn lemma_parse_str_token(s: Seq<char>, pos: int, t: Seq<char>)
    requires
        0 <= pos,
        pos + str_token(t).len() <= s.len(),
        s.subrange(pos, pos + str_token(t).len() as int) == str_token(t),
    ensures
        spec_parse_str(s, pos) == Some((t, pos + str_token(t).len())),
{
    let nt = num_token(t.len());
    assert(str_token(t) == nt + (t + seq!['\n'])) by {
        assert(str_token(t) =~= nt + (t + seq!['\n']));
    }
    lemma_split(s, pos, nt, t + seq!['\n']);
    lemma_parse_num_token(s, pos, t.len());
    let p1 = pos + nt.len() as int;
    lemma_split(s, p1, t, seq!['\n']);
    assert(s[p1 + t.len()] == seq!['\n'][0]);
    assert(s.subrange(p1, p1 + t.len() as int) == t);
}

/// A scan never yields less than its accumulator.
proof fn lemma_scan_ge(s: Seq<char>, pos: int, acc: int)
    requires
        0 <= pos <= s.len(),
        acc >= 0,
    ensures
        scan_num(s, pos, acc) matches Some(r) ==> r.0 >= acc && pos < r.1 <= s.len(),
    decreases s.len() - pos,
{
    if pos < s.len() && is_digit(s[pos]) {
        assert(acc * 10 >= acc);
        lemma_scan_ge(s, pos + 1, acc * 10 + digit_val(s[pos]));
    }
}

/// Append a number token for `n`.
pub fn emit_u128(n: u128, out: &mut Vec<char>)
    ensures
        final(out)@ == old(out)@ + num_token(n as nat),
{
    push_dec_u128(n, out);
    out.push('\n');
    proof {
        assert(final(out)@ =~= old(out)@ + num_token(n as nat));
    }
}

/// Append a signed number token for `v`.
pub fn emit_i32(v: i32, out: &mut Vec<char>)
    ensures
        final(out)@ == old(out)@ + int_token(v as int),
{
    if v < 0 {
        out.push('-');
        let m = (-(v as i64)) as u128;
        assert(m == -(v as int));
        emit_u128(m, out);
        proof {
            assert(final(out)@ =~= old(out)@ + int_token(v as int));
        }
    } else {
        emit_u128(v as u128, out);
    }
}

/// Append a flag token for `b`.
pub fn emit_bool(b: bool, out: &mut Vec<char>)
    ensures
        final(out)@ == old(out)@ + bool_token(b),
{
    out.push(if b {
        '1'
    } else {
        '0'
    });
    out.push('\n');
    proof {
        assert(final(out)@ =~= old(out)@ + bool_token(b));
    }
}

/// Append a string token for `s`.
pub fn emit_str(s: &str, out: &mut Vec<char>)
    ensures
        final(out)@ == old(out)@ + str_token(s@),
{
    let l = s.unicode_len();
    emit_u128(l as u128, out);
    let ghost mid = out@;
    for i in 0..l
        invariant
            l == s@.len(),
            out@ == mid + s@.take(i as int),
    {
        out.push(s.get_char(i));
        proof {
            assert(out@ =~= mid + s@.take(i + 1));
        }
    }
    out.push('\n');
    proof {
        assert(s@.take(l as int) =~= s@);
        assert(final(out)@ =~= old(out)@ + str_token(s@));
    }
}

/// Parse a number token; the result is exactly what
/// [`spec_parse_u128`] says.
pub fn parse_u128(s: &Vec<char>, pos: usize) -> (r: Option<(u128, usize)>)
    requires
        pos <= s@.len(),
    ensures
        match r {
            Some((v, p)) => spec_parse_u128(s@, pos as int) == Some((v, p as int)) && pos < p
                <= s@.len(),
            None => spec_parse_u128(s@, pos as int) is None,
        },
{
    let len = s.len();
    if pos >= len {
        return None;
    }
    let c0 = s[pos];
    let mut acc: u128 = match char_digit(c0) {
        None => {
            return None;
        },
        Some(d) => d as u128,
    };
    let mut i = pos + 1;
    proof {
        assert(scan_num(s@, pos as int, 0) == scan_num(s@, pos + 1, digit_val(s@[pos as int])));
    }
    while i < len
        invariant
            pos < i <= len,
            len == s@.len(),
            is_digit(s@[pos as int]),
            spec_parse_num(s@, pos as int) == scan_num(s@, i as int, acc as int),
        decreases len - i,
    {
        let c = s[i];
        match char_digit(c) {
            None => {
                if c == '\n' {
                    proof {
                        assert(scan_num(s@, i as int, acc as int) == Some((
                            acc as int,
                            i as int + 1,
                        )));
                        assert(spec_parse_u128(s@, pos as int) == Some((acc, i as int + 1)));
                    }
                    return Some((acc, i + 1));
                } else {
                    return None;
                }
            },
            Some(d) => {
                if acc > (u128::MAX - d as u128) / 10 {
                    // the value cannot fit; the scan's final value only
                    // grows, so the token is rejected either way
                    proof {
                        let a = acc as int;
                        let dd = d as int;
                        let m = u128::MAX as int;
                        assert(m - dd == 10 * ((m - dd) / 10) + (m - dd) % 10);
                        assert(0 <= (m - dd) % 10 < 10);
                        assert(a >= (m - dd) / 10 + 1);
                        assert(a * 10 >= ((m - dd) / 10) * 10 + 10);
                        assert(a * 10 + dd > m);
                        lemma_scan_ge(s@, i + 1 as int, a * 10 + dd);
                    }
                    return None;
                }
                proof {
                    let a = acc as int;
                    let dd = d as int;
                    let m = u128::MAX as int;
                    assert(m - dd == 10 * ((m - dd) / 10) + (m - dd) % 10);
                    assert(0 <= (m - dd) % 10 < 10);
                    assert(a * 10 <= ((m - dd) / 10) * 10);
                    assert(a * 10 + dd <= m);
                }
                acc = acc * 10 + d as u128;
                i = i + 1;
            },
        }
    }
    None
}

/// The digit value of a character, if it is a decimal digit.
fn char_digit(c: char) -> (r: Option<u8>)
    ensures
        match r {
            Some(d) => is_digit(c) && d <= 9 && d as int == digit_val(c),
            None => !is_digit(c),
        },
{
    match c {
        '0' => Some(0),
        '1' => Some(1),
        '2' => Some(2),
        '3' => Some(3),
        '4' => Some(4),
        '5' => Some(5),
        '6' => Some(6),
        '7' => Some(7),
        '8' => Some(8),
        '9' => Some(9),
        _ => None,
    }
}

/// Parse a signed number token into an `i32`.
pub fn parse_i32(s: &Vec<char>, pos: usize) -> (r: Option<(i32, usize)>)
    requires
        pos <= s@.len(),
    ensures
        match r {
            Some((v, p)) => spec_parse_i32(s@, pos as int) == Some((v, p as int)) && pos < p
                <= s@.len(),
            None => spec_parse_i32(s@, pos as int) is None,
        },
{
    let len = s.len();
    if pos < len && s[pos] == '-' {
        match parse_u128(s, pos + 1) {
            Some((v, p)) => {
                if v <= i32::MAX as u128 + 1 {
                    let neg: i32 = if v == i32::MAX as u128 + 1 {
                        i32::MIN
                    } else {
                        -(v as i32)
                    };
                    proof {
                        assert(neg as int == -(v as int));
                        assert(spec_parse_i32(s@, pos as int) == Some((neg, p as int)));
                    }
                    Some((neg, p))
                } else {
                    proof {
                        assert(spec_parse_i32(s@, pos as int) is None);
                    }
                    None
                }
            },
            None => {
                proof {
                    assert(spec_parse_i32(s@, pos as int) is None);
                }
                None
            },
        }
    } else {
        match parse_u128(s, pos) {
            Some((v, p)) => {
                if v <= i32::MAX as u128 {
                    proof {
                        assert(spec_parse_i32(s@, pos as int) == Some((v as i32, p as int)));
                    }
                    Some((v as i32, p))
                } else {
                    proof {
                        assert(spec_parse_i32(s@, pos as int) is None);
                    }
                    None
                }
            },
            None => {
                proof {
                    assert(spec_parse_i32(s@, pos as int) is None);
                }
                None
            },
        }
    }
}

/// Parse a flag token.
pub fn parse_bool(s: &Vec<char>, pos: usize) -> (r: Option<(bool, usize)>)
    requires
        pos <= s@.len(),
    ensures
        match r {
            Some((v, p)) => spec_parse_bool(s@, pos as int) == Some((v, p as int)) && pos < p
                <= s@.len(),
            None => spec_parse_bool(s@, pos as int) is None,
        },
{
    let len = s.len();
    if pos < len && pos + 1 < len && (s[pos] == '0' || s[pos] == '1') && s[pos + 1] == '\n' {
        Some((s[pos] == '1', pos + 2))
    } else {
        None
    }
}

/// Parse a string token.
pub fn parse_str(s: &Vec<char>, pos: usize) -> (r: Option<(Vec<char>, usize)>)
    requires
        pos <= s@.len(),
    ensures
        match r {
            Some((v, p)) => (spec_parse_str(s@, pos as int) matches Some((w, q)) && v@ == w && p
                == q) && pos < p <= s@.len(),
            None => spec_parse_str(s@, pos as int) is None,
        },
{
    let len = s.len();
    match parse_u128(s, pos) {
        None => {
            proof {
                if spec_parse_num(s@, pos as int) matches Some((v0, p0)) {
                    lemma_scan_ge(s@, pos as int, 0);
                }
            }
            None
        },
        Some((v, p)) => {
            if v > (len - p) as u128 {
                return None;
            }
            let l = v as usize;
            if p + l >= len || !(s[p + l] == '\n') {
                return None;
            }
            let mut out: Vec<char> = Vec::new();
            for i in 0..l
                invariant
                    p + l < len,
                    len == s@.len(),
                    out@ == s@.subrange(p as int, p + i as int),
            {
                out.push(s[p + i]);
                proof {
                    assert(out@ =~= s@.subrange(p as int, p + i + 1 as int));
                }
            }
            Some((out, p + l + 1))
        },
    }
}

} // verus!
