//! Little-endian numbers.
use vstd::prelude::*;

verus! {

/// The little-endian number in the first four bytes.
pub open spec fn le_u32(s: Seq<u8>) -> u32 {
    (s[0] + 0x100 * s[1] + 0x1_0000 * s[2] + 0x100_0000 * s[3]) as u32
}

/// The little-endian form of a number.
pub open spec fn le_bytes(x: u32) -> Seq<u8> {
    seq![
        (x % 0x100) as u8,
        (x / 0x100 % 0x100) as u8,
        (x / 0x1_0000 % 0x100) as u8,
        (x / 0x100_0000) as u8,
    ]
}

/// The value of a little-endian number, digit by digit, and the digits of a little-endian
/// form: each is the number divided by its weight, and together they make it up.
pub proof fn law_le_u32_digits(s: Seq<u8>, x: u32)
    ensures
        le_u32(s) == s[0] + 0x100 * (s[1] + 0x100 * (s[2] + 0x100 * s[3])),
        le_bytes(x).len() == 4,
        le_bytes(x)[0] + 0x100 * (le_bytes(x)[1] + 0x100 * (le_bytes(x)[2] + 0x100
            * le_bytes(x)[3])) == x,
{
}

/// A number comes back from its little-endian form, whatever follows it.
pub proof fn law_le_u32_of_le_bytes(x: u32, rest: Seq<u8>)
    ensures
        le_u32(le_bytes(x) + rest) == x,
{
    let s = le_bytes(x) + rest;
    assert(s[0] == (x % 0x100) as u8);
    assert(s[1] == (x / 0x100 % 0x100) as u8);
    assert(s[2] == (x / 0x1_0000 % 0x100) as u8);
    assert(s[3] == (x / 0x100_0000) as u8);
}

} // verus!
