//! Decimal rendering of the integers that appear in file paths and in
//! the persisted dataset encoding.

use vstd::prelude::*;

verus! {

/// The decimal digit character for `d` (meaningful for `0 <= d <= 9`).
pub open spec fn dec_digit(d: int) -> char {
    if d == 0 {
        '0'
    } else if d == 1 {
        '1'
    } else if d == 2 {
        '2'
    } else if d == 3 {
        '3'
    } else if d == 4 {
        '4'
    } else if d == 5 {
        '5'
    } else if d == 6 {
        '6'
    } else if d == 7 {
        '7'
    } else if d == 8 {
        '8'
    } else {
        '9'
    }
}

/// The decimal digits of `n`, most significant first, no leading zeros
/// (`0` is rendered as the single digit `0`).
pub open spec fn dec_of(n: nat) -> Seq<char>
    decreases n,
{
    if n < 10 {
        seq![dec_digit(n as int)]
    } else {
        dec_of(n / 10).push(dec_digit((n % 10) as int))
    }
}

/// The decimal rendering of a signed number: a minus sign before the
/// digits of the magnitude.
pub open spec fn dec_of_i32(y: i32) -> Seq<char> {
    if y >= 0 {
        dec_of(y as nat)
    } else {
        seq!['-'] + dec_of((-(y as int)) as nat)
    }
}

/// The digit character for one digit value.
pub fn digit_char(d: u8) -> (r: char)
    requires
        d < 10,
    ensures
        r == dec_digit(d as int),
{
    match d {
        0 => '0',
        1 => '1',
        2 => '2',
        3 => '3',
        4 => '4',
        5 => '5',
        6 => '6',
        7 => '7',
        8 => '8',
        _ => '9',
    }
}

/// Append the decimal digits of `n` to `out`.
pub fn push_dec_u128(n: u128, out: &mut Vec<char>)
    ensures
        final(out)@ == old(out)@ + dec_of(n as nat),
    decreases n,
{
    if n >= 10 {
        push_dec_u128(n / 10, out);
    }
    out.push(digit_char((n % 10) as u8));
    proof {
        if n < 10 {
            assert(final(out)@ =~= old(out)@ + dec_of(n as nat));
        } else {
            assert(final(out)@ =~= old(out)@ + dec_of(n as nat));
        }
    }
}

/// Append one digit to a string.
fn append_digit(d: u8, out: &mut String)
    requires
        d < 10,
    ensures
        final(out)@ == old(out)@ + seq![dec_digit(d as int)],
{
    match d {
        0 => {
            proof {
                reveal_strlit("0");
            }
            out.append("0");
        },
        1 => {
            proof {
                reveal_strlit("1");
            }
            out.append("1");
        },
        2 => {
            proof {
                reveal_strlit("2");
            }
            out.append("2");
        },
        3 => {
            proof {
                reveal_strlit("3");
            }
            out.append("3");
        },
        4 => {
            proof {
                reveal_strlit("4");
            }
            out.append("4");
        },
        5 => {
            proof {
                reveal_strlit("5");
            }
            out.append("5");
        },
        6 => {
            proof {
                reveal_strlit("6");
            }
            out.append("6");
        },
        7 => {
            proof {
                reveal_strlit("7");
            }
            out.append("7");
        },
        8 => {
            proof {
                reveal_strlit("8");
            }
            out.append("8");
        },
        _ => {
            proof {
                reveal_strlit("9");
            }
            out.append("9");
        },
    }
    proof {
        assert(final(out)@ =~= old(out)@ + seq![dec_digit(d as int)]);
    }
}

/// Append the decimal digits of `n` to a string.
pub fn append_dec_u128(n: u128, out: &mut String)
    ensures
        final(out)@ == old(out)@ + dec_of(n as nat),
    decreases n,
{
    if n >= 10 {
        append_dec_u128(n / 10, out);
    }
    append_digit((n % 10) as u8, out);
    proof {
        assert(final(out)@ =~= old(out)@ + dec_of(n as nat));
    }
}

/// Append the decimal rendering of a signed number to a string.
pub fn append_dec_i32(y: i32, out: &mut String)
    ensures
        final(out)@ == old(out)@ + dec_of_i32(y),
{
    if y >= 0 {
        append_dec_u128(y as u128, out);
    } else {
        proof {
            reveal_strlit("-");
        }
        out.append("-");
        let m = (-(y as i64)) as u128;
        assert(m == -(y as int));
        append_dec_u128(m, out);
        proof {
            assert(final(out)@ =~= old(out)@ + dec_of_i32(y));
        }
    }
}

} // verus!
