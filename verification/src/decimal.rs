//! Whole numbers written in decimal, as `i64::to_string` writes them.
use vstd::prelude::*;
use vstd::string::StringExecFns;

verus! {

/// The character of the digit `d` (0 to 9).
pub open spec fn digit_char(d: int) -> char {
    (d + 48) as char
}

/// A natural number in decimal, without leading zeros.
pub open spec fn nat_decimal(n: nat) -> Seq<char>
    decreases n,
{
    if n < 10 {
        seq![digit_char(n as int)]
    } else {
        nat_decimal(n / 10).push(digit_char((n % 10) as int))
    }
}

/// An integer in decimal: a `-` before the digits of a negative number.
pub open spec fn int_decimal(n: int) -> Seq<char> {
    if n < 0 {
        seq!['-'] + nat_decimal((-n) as nat)
    } else {
        nat_decimal(n as nat)
    }
}

fn digit_str(d: u64) -> (s: &'static str)
    requires
        d < 10,
    ensures
        s@ == seq![digit_char(d as int)],
{
    proof {
        reveal_strlit("0");
        reveal_strlit("1");
        reveal_strlit("2");
        reveal_strlit("3");
        reveal_strlit("4");
        reveal_strlit("5");
        reveal_strlit("6");
        reveal_strlit("7");
        reveal_strlit("8");
        reveal_strlit("9");
    }
    if d == 0 {
        "0"
    } else if d == 1 {
        "1"
    } else if d == 2 {
        "2"
    } else if d == 3 {
        "3"
    } else if d == 4 {
        "4"
    } else if d == 5 {
        "5"
    } else if d == 6 {
        "6"
    } else if d == 7 {
        "7"
    } else if d == 8 {
        "8"
    } else {
        "9"
    }
}

/// Appends the decimal digits of `n`.
pub fn push_decimal(s: &mut String, n: u64)
    ensures
        final(s)@ == old(s)@ + nat_decimal(n as nat),
    decreases n,
{
    if n >= 10 {
        push_decimal(s, n / 10);
    }
    s.append(digit_str(n % 10));
    proof {
        if n >= 10 {
            assert(old(s)@ + nat_decimal(n as nat) =~= old(s)@ + nat_decimal((n / 10) as nat) + seq![
                digit_char((n % 10) as int),
            ]);
        } else {
            assert(nat_decimal(n as nat) =~= seq![digit_char((n % 10) as int)]);
        }
    }
}

/// Appends an integer in decimal.
pub fn push_i64(s: &mut String, n: i64)
    ensures
        final(s)@ == old(s)@ + int_decimal(n as int),
{
    if n < 0 {
        proof {
            reveal_strlit("-");
        }
        s.append("-");
        let wide: i128 = n as i128;
        let magnitude: u64 = (0 - wide) as u64;
        push_decimal(s, magnitude);
        proof {
            assert(old(s)@ + int_decimal(n as int) =~= old(s)@ + seq!['-'] + nat_decimal(
                magnitude as nat,
            ));
        }
    } else {
        push_decimal(s, n as u64);
    }
}

/// Appends the decimal digits of `n`.
pub fn push_decimal_u128(s: &mut String, n: u128)
    ensures
        final(s)@ == old(s)@ + nat_decimal(n as nat),
    decreases n,
{
    if n >= 10 {
        push_decimal_u128(s, n / 10);
    }
    s.append(digit_str((n % 10) as u64));
    proof {
        if n >= 10 {
            assert(old(s)@ + nat_decimal(n as nat) =~= old(s)@ + nat_decimal((n / 10) as nat) + seq![
                digit_char((n % 10) as int),
            ]);
        } else {
            assert(nat_decimal(n as nat) =~= seq![digit_char((n % 10) as int)]);
        }
    }
}

/// Appends an `i128` in decimal.
pub fn push_i128(s: &mut String, n: i128)
    ensures
        final(s)@ == old(s)@ + int_decimal(n as int),
{
    if n < 0 {
        proof {
            reveal_strlit("-");
        }
        s.append("-");
        let magnitude: u128 = (-(n + 1)) as u128 + 1;
        push_decimal_u128(s, magnitude);
        proof {
            assert(old(s)@ + int_decimal(n as int) =~= old(s)@ + seq!['-'] + nat_decimal(
                magnitude as nat,
            ));
        }
    } else {
        push_decimal_u128(s, n as u128);
    }
}

/// An integer in decimal, as `i64::to_string` writes it.
pub fn i64_to_decimal(n: i64) -> (s: String)
    ensures
        s@ == int_decimal(n as int),
{
    let mut s = String::new();
    push_i64(&mut s, n);
    proof {
        assert(s@ =~= int_decimal(n as int));
    }
    s
}

} // verus!
