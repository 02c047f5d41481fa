use crate::strutil::push_char;
use vstd::prelude::*;

verus! {

/// The lower-case hexadecimal digit for a value below 16.
pub open spec fn hex_digit(d: int) -> char {
    if d == 0 {
        '0'
    } else if d == 1 {
        '1'
    } else if d == 2 {
        '2'
    } else if d == 3 {
        '3'
    } else if d == 4 {
        '4'
    } else if d == 5 {
        '5'
    } else if d == 6 {
        '6'
    } else if d == 7 {
        '7'
    } else if d == 8 {
        '8'
    } else if d == 9 {
        '9'
    } else if d == 10 {
        'a'
    } else if d == 11 {
        'b'
    } else if d == 12 {
        'c'
    } else if d == 13 {
        'd'
    } else if d == 14 {
        'e'
    } else {
        'f'
    }
}

/// The lower-case hexadecimal rendering of `n`, without leading zeroes.
pub open spec fn hex_of(n: nat) -> Seq<char>
    decreases n,
{
    if n < 16 {
        seq![hex_digit(n as int)]
    } else {
        hex_of(n / 16) + seq![hex_digit((n % 16) as int)]
    }
}

pub(crate) fn hex_digit_char(d: u64) -> (c: char)
    requires
        d < 16,
    ensures
        c == hex_digit(d as int),
{
    if d == 0 {
        '0'
    } else if d == 1 {
        '1'
    } else if d == 2 {
        '2'
    } else if d == 3 {
        '3'
    } else if d == 4 {
        '4'
    } else if d == 5 {
        '5'
    } else if d == 6 {
        '6'
    } else if d == 7 {
        '7'
    } else if d == 8 {
        '8'
    } else if d == 9 {
        '9'
    } else if d == 10 {
        'a'
    } else if d == 11 {
        'b'
    } else if d == 12 {
        'c'
    } else if d == 13 {
        'd'
    } else if d == 14 {
        'e'
    } else {
        'f'
    }
}

fn push_hex(out: &mut String, n: u64)
    ensures
        final(out)@ == old(out)@ + hex_of(n as nat),
    decreases n,
{
    if n < 16 {
        push_char(out, hex_digit_char(n));
    } else {
        push_hex(out, n / 16);
        push_char(out, hex_digit_char(n % 16));
    }
}

/// The lower-case hexadecimal string for `n`, as `{:x}` formatting renders it.
pub fn hex_string(n: u64) -> (r: String)
    ensures
        r@ == hex_of(n as nat),
{
    let mut s = String::new();
    push_hex(&mut s, n);
    s
}

/// Relies on `rand::Rng::gen` over `rand::thread_rng`: a uniformly random
/// 64-bit value. Nothing can be promised of the value itself.
#[verifier::external_body]
fn random_u64() -> u64 {
    rand::Rng::gen(&mut rand::thread_rng())
}

/// A collision-resistant random blob identifier: the hex rendering of a
/// random 64-bit value, unrelated to any original filename so that blob
/// names leak no metadata.
pub fn random_id_hex() -> (r: String)
    ensures
        exists|n: u64| r@ == hex_of(n as nat),
{
    let n = random_u64();
    let s = hex_string(n);
    proof {
        assert(s@ == hex_of(n as nat));
    }
    s
}

} // verus!
