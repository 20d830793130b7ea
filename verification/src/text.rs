//! Human-readable renderings: uppercase hex for byte strings and decimal
//! for integers, used where the library describes keys and tasks.

use vstd::prelude::*;

verus! {

/// The uppercase hex digit for a nibble.
pub open spec fn hex_digit_upper(n: u8) -> char
    recommends
        n < 16,
{
    if n == 0 {
        '0'
    } else if n == 1 {
        '1'
    } else if n == 2 {
        '2'
    } else if n == 3 {
        '3'
    } else if n == 4 {
        '4'
    } else if n == 5 {
        '5'
    } else if n == 6 {
        '6'
    } else if n == 7 {
        '7'
    } else if n == 8 {
        '8'
    } else if n == 9 {
        '9'
    } else if n == 10 {
        'A'
    } else if n == 11 {
        'B'
    } else if n == 12 {
        'C'
    } else if n == 13 {
        'D'
    } else if n == 14 {
        'E'
    } else {
        'F'
    }
}

/// The uppercase hex rendering of a byte string: two digits per byte,
/// high nibble first.
pub open spec fn hex_upper_of(b: Seq<u8>) -> Seq<char> {
    Seq::new(
        b.len() * 2,
        |i: int|
            if i % 2 == 0 {
                hex_digit_upper(b[i / 2] >> 4)
            } else {
                hex_digit_upper(b[i / 2] & 0x0F)
            },
    )
}

/// Relies on hex::encode_upper: each input byte becomes two uppercase hex
/// digits, high nibble first.
#[verifier::external_body]
pub fn hex_upper(b: &[u8]) -> (r: String)
    ensures
        r@ == hex_upper_of(b@),
{
    hex::encode_upper(b)
}

/// The decimal digit character for a value below ten.
pub open spec fn dec_digit(d: u64) -> char
    recommends
        d < 10,
{
    if d == 0 {
        '0'
    } else if d == 1 {
        '1'
    } else if d == 2 {
        '2'
    } else if d == 3 {
        '3'
    } else if d == 4 {
        '4'
    } else if d == 5 {
        '5'
    } else if d == 6 {
        '6'
    } else if d == 7 {
        '7'
    } else if d == 8 {
        '8'
    } else {
        '9'
    }
}

/// The decimal rendering of a 64-bit value, most significant digit first,
/// without leading zeros (except for the value zero itself).
pub open spec fn dec_str_of(v: u64) -> Seq<char>
    decreases v,
{
    if v < 10 {
        seq![dec_digit(v)]
    } else {
        dec_str_of(v / 10).push(dec_digit(v % 10))
    }
}

/// A one-character string slice for a decimal digit.
fn dec_digit_str(d: u64) -> (r: &'static str)
    requires
        d < 10,
    ensures
        r@ == seq![dec_digit(d)],
{
    proof {
        reveal_strlit("0");
        reveal_strlit("1");
        reveal_strlit("2");
        reveal_strlit("3");
        reveal_strlit("4");
        reveal_strlit("5");
        reveal_strlit("6");
        reveal_strlit("7");
        reveal_strlit("8");
        reveal_strlit("9");
    }
    let r = if d == 0 {
        "0"
    } else if d == 1 {
        "1"
    } else if d == 2 {
        "2"
    } else if d == 3 {
        "3"
    } else if d == 4 {
        "4"
    } else if d == 5 {
        "5"
    } else if d == 6 {
        "6"
    } else if d == 7 {
        "7"
    } else if d == 8 {
        "8"
    } else {
        "9"
    };
    proof {
        assert(r@ =~= seq![dec_digit(d)]);
    }
    r
}

/// Renders a 64-bit value in decimal.
pub fn u64_to_dec(v: u64) -> (r: String)
    ensures
        r@ == dec_str_of(v),
    decreases v,
{
    if v < 10 {
        let mut s = String::new();
        s.append(dec_digit_str(v));
        proof {
            assert(s@ =~= dec_str_of(v));
        }
        s
    } else {
        let mut s = u64_to_dec(v / 10);
        s.append(dec_digit_str(v % 10));
        proof {
            assert(s@ =~= dec_str_of(v));
        }
        s
    }
}

} // verus!
