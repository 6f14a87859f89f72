//! Decimal rendering of integers, verified against a character-level model.

use vstd::prelude::*;
use vstd::string::StringExecFns;

verus! {

/// The character for one decimal digit.
pub open spec fn digit_char(d: nat) -> char {
    if d == 0 {
        '0'
    } else if d == 1 {
        '1'
    } else if d == 2 {
        '2'
    } else if d == 3 {
        '3'
    } else if d == 4 {
        '4'
    } else if d == 5 {
        '5'
    } else if d == 6 {
        '6'
    } else if d == 7 {
        '7'
    } else if d == 8 {
        '8'
    } else {
        '9'
    }
}

/// The decimal digits of `n`, most significant first, with no leading zeros
/// (a single `'0'` for zero).
pub open spec fn dec_digits(n: nat) -> Seq<char>
    decreases n,
{
    if n < 10 {
        seq![digit_char(n)]
    } else {
        dec_digits(n / 10).push(digit_char(n % 10))
    }
}

/// The decimal rendering of a signed number: a minus sign before the digits
/// of the magnitude when it is negative.
pub open spec fn int_digits(i: int) -> Seq<char> {
    if i >= 0 {
        dec_digits(i as nat)
    } else {
        seq!['-'] + dec_digits((-i) as nat)
    }
}

fn digit_str(d: u64) -> (r: &'static str)
    requires
        d < 10,
    ensures
        r@ == seq![digit_char(d as nat)],
{
    if d == 0 {
        proof {
            reveal_strlit("0");
        }
        "0"
    } else if d == 1 {
        proof {
            reveal_strlit("1");
        }
        "1"
    } else if d == 2 {
        proof {
            reveal_strlit("2");
        }
        "2"
    } else if d == 3 {
        proof {
            reveal_strlit("3");
        }
        "3"
    } else if d == 4 {
        proof {
            reveal_strlit("4");
        }
        "4"
    } else if d == 5 {
        proof {
            reveal_strlit("5");
        }
        "5"
    } else if d == 6 {
        proof {
            reveal_strlit("6");
        }
        "6"
    } else if d == 7 {
        proof {
            reveal_strlit("7");
        }
        "7"
    } else if d == 8 {
        proof {
            reveal_strlit("8");
        }
        "8"
    } else {
        proof {
            reveal_strlit("9");
        }
        "9"
    }
}

/// The decimal rendering of `n`.
pub fn u64_to_string(n: u64) -> (r: String)
    ensures
        r@ == dec_digits(n as nat),
    decreases n,
{
    if n < 10 {
        let r = digit_str(n).to_owned();
        r
    } else {
        let mut prefix = u64_to_string(n / 10);
        prefix.append(digit_str(n % 10));
        proof {
            assert(dec_digits((n / 10) as nat).push(digit_char((n % 10) as nat)) =~= dec_digits(
                (n / 10) as nat,
            ) + seq![digit_char((n % 10) as nat)]);
        }
        prefix
    }
}

/// The decimal rendering of `n`.
pub fn usize_to_string(n: usize) -> (r: String)
    ensures
        r@ == dec_digits(n as nat),
{
    u64_to_string(n as u64)
}

/// The decimal rendering of `i`, with a minus sign when it is negative.
pub fn i64_to_string(i: i64) -> (r: String)
    ensures
        r@ == int_digits(i as int),
{
    if i >= 0 {
        u64_to_string(i as u64)
    } else {
        let magnitude: u64 = (-(i as i128)) as u64;
        proof {
            reveal_strlit("-");
        }
        let mut r: String = "-".to_owned();
        let digits = u64_to_string(magnitude);
        r.append(digits.as_str());
        proof {
            assert(r@ =~= seq!['-'] + dec_digits(magnitude as nat));
        }
        r
    }
}

} // verus!
