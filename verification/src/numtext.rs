//! Decimal text for integers, with exact character-level contracts.

use vstd::prelude::*;

verus! {

/// The character for one decimal digit.
pub open spec fn digit_char(d: int) -> char {
    if d == 0 {
        '0'
    } else if d == 1 {
        '1'
    } else if d == 2 {
        '2'
    } else if d == 3 {
        '3'
    } else if d == 4 {
        '4'
    } else if d == 5 {
        '5'
    } else if d == 6 {
        '6'
    } else if d == 7 {
        '7'
    } else if d == 8 {
        '8'
    } else {
        '9'
    }
}

/// The decimal digit characters of `n`, most significant first.
pub open spec fn dec_digits(n: nat) -> Seq<char>
    decreases n,
{
    if n < 10 {
        seq![digit_char(n as int)]
    } else {
        dec_digits(n / 10) + seq![digit_char((n % 10) as int)]
    }
}

/// Append the single digit `d` to `s`.
fn push_digit(s: &mut String, d: u128)
    requires
        d < 10,
    ensures
        final(s)@ == old(s)@ + seq![digit_char(d as int)],
{
    proof {
        reveal_strlit("0");
        reveal_strlit("1");
        reveal_strlit("2");
        reveal_strlit("3");
        reveal_strlit("4");
        reveal_strlit("5");
        reveal_strlit("6");
        reveal_strlit("7");
        reveal_strlit("8");
        reveal_strlit("9");
    }
    if d == 0 {
        s.append("0");
    } else if d == 1 {
        s.append("1");
    } else if d == 2 {
        s.append("2");
    } else if d == 3 {
        s.append("3");
    } else if d == 4 {
        s.append("4");
    } else if d == 5 {
        s.append("5");
    } else if d == 6 {
        s.append("6");
    } else if d == 7 {
        s.append("7");
    } else if d == 8 {
        s.append("8");
    } else {
        s.append("9");
    }
    proof {
        assert(final(s)@ =~= old(s)@ + seq![digit_char(d as int)]);
    }
}

/// Append the decimal form of `n` to `s`.
fn append_dec(s: &mut String, n: u128)
    ensures
        final(s)@ == old(s)@ + dec_digits(n as nat),
    decreases n,
{
    if n < 10 {
        push_digit(s, n);
    } else {
        append_dec(s, n / 10);
        push_digit(s, n % 10);
        proof {
            assert(final(s)@ =~= old(s)@ + dec_digits(n as nat));
        }
    }
}

/// The decimal form of an unsigned number.
pub fn u128_to_string(n: u128) -> (s: String)
    ensures
        s@ == dec_digits(n as nat),
{
    let mut s = String::new();
    append_dec(&mut s, n);
    proof {
        assert(s@ =~= dec_digits(n as nat));
    }
    s
}

/// The decimal text of a signed number: the digits of its magnitude,
/// preceded by a minus sign when it is negative.
pub open spec fn signed_dec(n: int) -> Seq<char> {
    if n >= 0 {
        dec_digits(n as nat)
    } else {
        seq!['-'] + dec_digits((-n) as nat)
    }
}

/// The decimal form of a signed number.
pub fn i128_to_string(n: i128) -> (s: String)
    ensures
        s@ == signed_dec(n as int),
{
    if n >= 0 {
        u128_to_string(n as u128)
    } else {
        proof {
            reveal_strlit("-");
        }
        let mut s = String::from_str("-");
        let mag: u128 = (-(n + 1)) as u128 + 1;
        append_dec(&mut s, mag);
        proof {
            assert(s@ =~= signed_dec(n as int));
        }
        s
    }
}

/// The decimal form of a `u8`.
pub fn u8_to_string(n: u8) -> (s: String)
    ensures
        s@ == dec_digits(n as nat),
{
    u128_to_string(n as u128)
}

/// The decimal form of a `u16`.
pub fn u16_to_string(n: u16) -> (s: String)
    ensures
        s@ == dec_digits(n as nat),
{
    u128_to_string(n as u128)
}

/// The decimal form of a `usize`.
pub fn usize_to_string(n: usize) -> (s: String)
    ensures
        s@ == dec_digits(n as nat),
{
    u128_to_string(n as u128)
}

/// The decimal form of an `i16`.
pub fn i16_to_string(n: i16) -> (s: String)
    ensures
        s@ == signed_dec(n as int),
{
    i128_to_string(n as i128)
}

} // verus!
