//! Decimal rendering of token amounts scaled by a base unit: the integer
//! quotient, then — only when the amount does not divide evenly — a dot and
//! the exact fractional expansion, to at most [`FRAC_DIGITS`] digits.

use vstd::prelude::*;
use vstd::string::StringExecFns;

verus! {

/// How many fractional digits are rendered at most.
pub const FRAC_DIGITS: u8 = 32;

/// The decimal digit character for `d`.
pub open spec fn digit_char(d: nat) -> char {
    if d == 0 {
        '0'
    } else if d == 1 {
        '1'
    } else if d == 2 {
        '2'
    } else if d == 3 {
        '3'
    } else if d == 4 {
        '4'
    } else if d == 5 {
        '5'
    } else if d == 6 {
        '6'
    } else if d == 7 {
        '7'
    } else if d == 8 {
        '8'
    } else {
        '9'
    }
}

/// The decimal digits of `n`, most significant first.
pub open spec fn dec_of(n: nat) -> Seq<char>
    decreases n,
{
    if n < 10 {
        seq![digit_char(n)]
    } else {
        dec_of(n / 10) + seq![digit_char(n % 10)]
    }
}

/// The first `fuel` digits of the fractional expansion of `r / base`,
/// stopping early when the remainder reaches zero.
pub open spec fn frac_of(r: nat, base: nat, fuel: nat) -> Seq<char>
    decreases fuel,
{
    if r == 0 || fuel == 0 || base == 0 {
        Seq::empty()
    } else {
        seq![digit_char((r * 10) / base)] + frac_of((r * 10) % base, base, (fuel - 1) as nat)
    }
}

/// `amount` scaled down by `base`, rendered in decimal.
pub open spec fn units_text(amount: nat, base: nat) -> Seq<char> {
    if amount % base == 0 {
        dec_of(amount / base)
    } else {
        dec_of(amount / base) + seq!['.'] + frac_of(amount % base, base, FRAC_DIGITS as nat)
    }
}

fn digit_str(d: u128) -> (r: &'static str)
    requires
        d < 10,
    ensures
        r@ == seq![digit_char(d as nat)],
{
    proof {
        reveal_strlit("0");
        reveal_strlit("1");
        reveal_strlit("2");
        reveal_strlit("3");
        reveal_strlit("4");
        reveal_strlit("5");
        reveal_strlit("6");
        reveal_strlit("7");
        reveal_strlit("8");
        reveal_strlit("9");
    }
    if d == 0 {
        "0"
    } else if d == 1 {
        "1"
    } else if d == 2 {
        "2"
    } else if d == 3 {
        "3"
    } else if d == 4 {
        "4"
    } else if d == 5 {
        "5"
    } else if d == 6 {
        "6"
    } else if d == 7 {
        "7"
    } else if d == 8 {
        "8"
    } else {
        "9"
    }
}

/// Renders `n` in decimal.
pub fn dec_string(n: u128) -> (r: String)
    ensures
        r@ == dec_of(n as nat),
    decreases n,
{
    if n < 10 {
        String::from_str(digit_str(n))
    } else {
        let mut s = dec_string(n / 10);
        s.append(digit_str(n % 10));
        s
    }
}

fn frac_string(r: u128, base: u128, fuel: u8) -> (s: String)
    requires
        1 <= base <= u128::MAX / 10,
        r < base,
    ensures
        s@ == frac_of(r as nat, base as nat, fuel as nat),
    decreases fuel,
{
    if r == 0 || fuel == 0 {
        proof {
            reveal_strlit("");
        }
        String::from_str("")
    } else {
        let r10 = r * 10;
        proof {
            assert(r10 / base < 10 && r10 % base < base) by (nonlinear_arith)
                requires
                    r < base,
                    base >= 1,
                    r10 == r * 10,
            {
            }
        }
        let mut s = String::from_str(digit_str(r10 / base));
        let rest = frac_string(r10 % base, base, fuel - 1);
        s.append(rest.as_str());
        s
    }
}

/// Renders `amount / base` in decimal, with the exact fraction when the
/// division does not come out even.
pub fn units_string(amount: u128, base: u128) -> (r: String)
    requires
        1 <= base <= u128::MAX / 10,
    ensures
        r@ == units_text(amount as nat, base as nat),
{
    let q = amount / base;
    let rem = amount % base;
    let mut s = dec_string(q);
    if rem != 0 {
        s.append(".");
        proof {
            reveal_strlit(".");
        }
        let f = frac_string(rem, base, FRAC_DIGITS);
        s.append(f.as_str());
    }
    s
}

} // verus!
