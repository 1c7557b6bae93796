//! Base-10 rendering of the integers that appear in messages and queries.
use vstd::prelude::*;

verus! {

/// The digit character for one value below ten.
pub open spec fn dec_digit(d: nat) -> char {
    if d == 0 {
        '0'
    } else if d == 1 {
        '1'
    } else if d == 2 {
        '2'
    } else if d == 3 {
        '3'
    } else if d == 4 {
        '4'
    } else if d == 5 {
        '5'
    } else if d == 6 {
        '6'
    } else if d == 7 {
        '7'
    } else if d == 8 {
        '8'
    } else {
        '9'
    }
}

/// The shortest base-10 representation of `n`: no sign, no separators,
/// a single `'0'` for zero.
pub open spec fn dec_str(n: nat) -> Seq<char>
    decreases n,
{
    if n < 10 {
        seq![dec_digit(n)]
    } else {
        dec_str(n / 10).push(dec_digit(n % 10))
    }
}

/// Relies on `itoa::Buffer::format`: writes the shortest base-10 digits
/// of the integer, which for an unsigned value is `dec_str`.
#[verifier::external_body]
pub fn format_u32(value: u32) -> (r: String)
    ensures
        r@ == dec_str(value as nat),
{
    let mut buffer = itoa::Buffer::new();
    String::from(buffer.format(value))
}

/// Relies on `itoa::Buffer::format`: writes the shortest base-10 digits
/// of the integer, which for an unsigned value is `dec_str`.
#[verifier::external_body]
pub fn format_usize(value: usize) -> (r: String)
    ensures
        r@ == dec_str(value as nat),
{
    let mut buffer = itoa::Buffer::new();
    String::from(buffer.format(value))
}

} // verus!
