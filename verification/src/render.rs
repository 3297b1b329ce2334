//! Rendering a rational result: the value is rounded to two decimal digits
//! (half away from zero), then trailing zeros and a trailing decimal point
//! are trimmed.

use vstd::prelude::*;
use crate::rational::{Rat, SRat};

verus! {

/// The character for a single decimal digit.
pub open spec fn char_of_digit(d: int) -> char {
    if d == 0 {
        '0'
    } else if d == 1 {
        '1'
    } else if d == 2 {
        '2'
    } else if d == 3 {
        '3'
    } else if d == 4 {
        '4'
    } else if d == 5 {
        '5'
    } else if d == 6 {
        '6'
    } else if d == 7 {
        '7'
    } else if d == 8 {
        '8'
    } else {
        '9'
    }
}

/// The decimal numeral of a nonnegative integer, without leading zeros
/// (a single `'0'` for zero).
pub open spec fn dec_digits(n: int) -> Seq<char>
    decreases n,
{
    if n < 10 {
        seq![char_of_digit(n)]
    } else {
        dec_digits(n / 10) + seq![char_of_digit(n % 10)]
    }
}

/// `n / d` scaled by 100 and rounded to the nearest integer, ties away
/// from zero. Meaningful for `d > 0`.
pub open spec fn round100(n: int, d: int) -> int {
    if n >= 0 {
        (200 * n + d) / (2 * d)
    } else {
        -((200 * (-n) + d) / (2 * d))
    }
}

/// The rendering of a rational: two decimal digits, trailing zeros trimmed,
/// then a trailing decimal point trimmed.
pub open spec fn spec_format(a: SRat) -> Seq<char> {
    let t = round100(a.num, a.den);
    let m = if t >= 0 { t } else { -t };
    let sign: Seq<char> = if t < 0 { seq!['-'] } else { Seq::empty() };
    let whole = m / 100;
    let fr = m % 100;
    if fr == 0 {
        sign + dec_digits(whole)
    } else if fr % 10 == 0 {
        sign + dec_digits(whole) + seq!['.'] + seq![char_of_digit(fr / 10)]
    } else {
        sign + dec_digits(whole) + seq!['.', char_of_digit(fr / 10), char_of_digit(fr % 10)]
    }
}

/// Appends the character of one decimal digit.
fn append_digit(out: &mut String, d: u128)
    requires
        d < 10,
    ensures
        final(out)@ == old(out)@ + seq![char_of_digit(d as int)],
{
    if d == 0 {
        proof {
            reveal_strlit("0");
        }
        out.append("0");
        proof {
            assert(out@ =~= old(out)@ + seq![char_of_digit(d as int)]);
        }
    } else if d == 1 {
        proof {
            reveal_strlit("1");
        }
        out.append("1");
        proof {
            assert(out@ =~= old(out)@ + seq![char_of_digit(d as int)]);
        }
    } else if d == 2 {
        proof {
            reveal_strlit("2");
        }
        out.append("2");
        proof {
            assert(out@ =~= old(out)@ + seq![char_of_digit(d as int)]);
        }
    } else if d == 3 {
        proof {
            reveal_strlit("3");
        }
        out.append("3");
        proof {
            assert(out@ =~= old(out)@ + seq![char_of_digit(d as int)]);
        }
    } else if d == 4 {
        proof {
            reveal_strlit("4");
        }
        out.append("4");
        proof {
            assert(out@ =~= old(out)@ + seq![char_of_digit(d as int)]);
        }
    } else if d == 5 {
        proof {
            reveal_strlit("5");
        }
        out.append("5");
        proof {
            assert(out@ =~= old(out)@ + seq![char_of_digit(d as int)]);
        }
    } else if d == 6 {
        proof {
            reveal_strlit("6");
        }
        out.append("6");
        proof {
            assert(out@ =~= old(out)@ + seq![char_of_digit(d as int)]);
        }
    } else if d == 7 {
        proof {
            reveal_strlit("7");
        }
        out.append("7");
        proof {
            assert(out@ =~= old(out)@ + seq![char_of_digit(d as int)]);
        }
    } else if d == 8 {
        proof {
            reveal_strlit("8");
        }
        out.append("8");
        proof {
            assert(out@ =~= old(out)@ + seq![char_of_digit(d as int)]);
        }
    } else {
        proof {
            reveal_strlit("9");
        }
        out.append("9");
        proof {
            assert(out@ =~= old(out)@ + seq![char_of_digit(d as int)]);
        }
    }
}

/// Appends the decimal numeral of `n`.
fn append_dec(out: &mut String, n: u128)
    ensures
        final(out)@ == old(out)@ + dec_digits(n as int),
    decreases n,
{
    if n >= 10 {
        append_dec(out, n / 10);
        append_digit(out, n % 10);
        proof {
            assert(out@ =~= old(out)@ + dec_digits(n as int));
        }
    } else {
        append_digit(out, n);
    }
}

/// Renders a rational as described by [`spec_format`].
pub fn format_number(v: &Rat) -> (out: String)
    requires
        v.wf(),
    ensures
        out@ == spec_format(v@),
{
    let num = v.num();
    let den = v.den();
    let neg = num < 0;
    let mag: u128 = if neg {
        (-(num as i128)) as u128
    } else {
        num as u128
    };
    let d: u128 = den as u128;
    let scaled: u128 = (200 * mag + d) / (2 * d);
    proof {
        if neg {
            assert(round100(v@.num, v@.den) == -(scaled as int));
        } else {
            assert(round100(v@.num, v@.den) == scaled as int);
        }
    }
    let whole: u128 = scaled / 100;
    let fr: u128 = scaled % 100;
    let mut out = String::new();
    if neg && scaled > 0 {
        proof {
            reveal_strlit("-");
        }
        out.append("-");
        proof {
            assert(out@ =~= seq!['-']);
        }
    } else {
        proof {
            assert(out@ =~= Seq::<char>::empty());
        }
    }
    append_dec(&mut out, whole);
    if fr != 0 {
        proof {
            reveal_strlit(".");
        }
        out.append(".");
        append_digit(&mut out, fr / 10);
        if fr % 10 != 0 {
            append_digit(&mut out, fr % 10);
        }
    }
    proof {
        assert(out@ =~= spec_format(v@));
    }
    out
}

} // verus!
