//! The AES substitution boxes: the tables, and what they are tables of.
use crate::gf::gf_inverse;
use crate::gf::gf_mul;
use crate::gf::gf_mul_flat;
use crate::gf::law_gf_inverse_unique;
use crate::gf::law_gf_mul_commutes;
use crate::gf::lemma_gf_mul_flat;
use vstd::prelude::*;

verus! {

/// The substitution box, indexed by byte.
pub const S_BOX: [u8; 256] = [
    0x63, 0x7c, 0x77, 0x7b, 0xf2, 0x6b, 0x6f, 0xc5, 0x30, 0x01, 0x67, 0x2b, 0xfe, 0xd7, 0xab, 0x76,
    0xca, 0x82, 0xc9, 0x7d, 0xfa, 0x59, 0x47, 0xf0, 0xad, 0xd4, 0xa2, 0xaf, 0x9c, 0xa4, 0x72, 0xc0,
    0xb7, 0xfd, 0x93, 0x26, 0x36, 0x3f, 0xf7, 0xcc, 0x34, 0xa5, 0xe5, 0xf1, 0x71, 0xd8, 0x31, 0x15,
    0x04, 0xc7, 0x23, 0xc3, 0x18, 0x96, 0x05, 0x9a, 0x07, 0x12, 0x80, 0xe2, 0xeb, 0x27, 0xb2, 0x75,
    0x09, 0x83, 0x2c, 0x1a, 0x1b, 0x6e, 0x5a, 0xa0, 0x52, 0x3b, 0xd6, 0xb3, 0x29, 0xe3, 0x2f, 0x84,
    0x53, 0xd1, 0x00, 0xed, 0x20, 0xfc, 0xb1, 0x5b, 0x6a, 0xcb, 0xbe, 0x39, 0x4a, 0x4c, 0x58, 0xcf,
    0xd0, 0xef, 0xaa, 0xfb, 0x43, 0x4d, 0x33, 0x85, 0x45, 0xf9, 0x02, 0x7f, 0x50, 0x3c, 0x9f, 0xa8,
    0x51, 0xa3, 0x40, 0x8f, 0x92, 0x9d, 0x38, 0xf5, 0xbc, 0xb6, 0xda, 0x21, 0x10, 0xff, 0xf3, 0xd2,
    0xcd, 0x0c, 0x13, 0xec, 0x5f, 0x97, 0x44, 0x17, 0xc4, 0xa7, 0x7e, 0x3d, 0x64, 0x5d, 0x19, 0x73,
    0x60, 0x81, 0x4f, 0xdc, 0x22, 0x2a, 0x90, 0x88, 0x46, 0xee, 0xb8, 0x14, 0xde, 0x5e, 0x0b, 0xdb,
    0xe0, 0x32, 0x3a, 0x0a, 0x49, 0x06, 0x24, 0x5c, 0xc2, 0xd3, 0xac, 0x62, 0x91, 0x95, 0xe4, 0x79,
    0xe7, 0xc8, 0x37, 0x6d, 0x8d, 0xd5, 0x4e, 0xa9, 0x6c, 0x56, 0xf4, 0xea, 0x65, 0x7a, 0xae, 0x08,
    0xba, 0x78, 0x25, 0x2e, 0x1c, 0xa6, 0xb4, 0xc6, 0xe8, 0xdd, 0x74, 0x1f, 0x4b, 0xbd, 0x8b, 0x8a,
    0x70, 0x3e, 0xb5, 0x66, 0x48, 0x03, 0xf6, 0x0e, 0x61, 0x35, 0x57, 0xb9, 0x86, 0xc1, 0x1d, 0x9e,
    0xe1, 0xf8, 0x98, 0x11, 0x69, 0xd9, 0x8e, 0x94, 0x9b, 0x1e, 0x87, 0xe9, 0xce, 0x55, 0x28, 0xdf,
    0x8c, 0xa1, 0x89, 0x0d, 0xbf, 0xe6, 0x42, 0x68, 0x41, 0x99, 0x2d, 0x0f, 0xb0, 0x54, 0xbb, 0x16,
];

/// The inverse substitution box, indexed by byte.
pub const INV_S_BOX: [u8; 256] = [
    0x52, 0x09, 0x6a, 0xd5, 0x30, 0x36, 0xa5, 0x38, 0xbf, 0x40, 0xa3, 0x9e, 0x81, 0xf3, 0xd7, 0xfb,
    0x7c, 0xe3, 0x39, 0x82, 0x9b, 0x2f, 0xff, 0x87, 0x34, 0x8e, 0x43, 0x44, 0xc4, 0xde, 0xe9, 0xcb,
    0x54, 0x7b, 0x94, 0x32, 0xa6, 0xc2, 0x23, 0x3d, 0xee, 0x4c, 0x95, 0x0b, 0x42, 0xfa, 0xc3, 0x4e,
    0x08, 0x2e, 0xa1, 0x66, 0x28, 0xd9, 0x24, 0xb2, 0x76, 0x5b, 0xa2, 0x49, 0x6d, 0x8b, 0xd1, 0x25,
    0x72, 0xf8, 0xf6, 0x64, 0x86, 0x68, 0x98, 0x16, 0xd4, 0xa4, 0x5c, 0xcc, 0x5d, 0x65, 0xb6, 0x92,
    0x6c, 0x70, 0x48, 0x50, 0xfd, 0xed, 0xb9, 0xda, 0x5e, 0x15, 0x46, 0x57, 0xa7, 0x8d, 0x9d, 0x84,
    0x90, 0xd8, 0xab, 0x00, 0x8c, 0xbc, 0xd3, 0x0a, 0xf7, 0xe4, 0x58, 0x05, 0xb8, 0xb3, 0x45, 0x06,
    0xd0, 0x2c, 0x1e, 0x8f, 0xca, 0x3f, 0x0f, 0x02, 0xc1, 0xaf, 0xbd, 0x03, 0x01, 0x13, 0x8a, 0x6b,
    0x3a, 0x91, 0x11, 0x41, 0x4f, 0x67, 0xdc, 0xea, 0x97, 0xf2, 0xcf, 0xce, 0xf0, 0xb4, 0xe6, 0x73,
    0x96, 0xac, 0x74, 0x22, 0xe7, 0xad, 0x35, 0x85, 0xe2, 0xf9, 0x37, 0xe8, 0x1c, 0x75, 0xdf, 0x6e,
    0x47, 0xf1, 0x1a, 0x71, 0x1d, 0x29, 0xc5, 0x89, 0x6f, 0xb7, 0x62, 0x0e, 0xaa, 0x18, 0xbe, 0x1b,
    0xfc, 0x56, 0x3e, 0x4b, 0xc6, 0xd2, 0x79, 0x20, 0x9a, 0xdb, 0xc0, 0xfe, 0x78, 0xcd, 0x5a, 0xf4,
    0x1f, 0xdd, 0xa8, 0x33, 0x88, 0x07, 0xc7, 0x31, 0xb1, 0x12, 0x10, 0x59, 0x27, 0x80, 0xec, 0x5f,
    0x60, 0x51, 0x7f, 0xa9, 0x19, 0xb5, 0x4a, 0x0d, 0x2d, 0xe5, 0x7a, 0x9f, 0x93, 0xc9, 0x9c, 0xef,
    0xa0, 0xe0, 0x3b, 0x4d, 0xae, 0x2a, 0xf5, 0xb0, 0xc8, 0xeb, 0xbb, 0x3c, 0x83, 0x53, 0x99, 0x61,
    0x17, 0x2b, 0x04, 0x7e, 0xba, 0x77, 0xd6, 0x26, 0xe1, 0x69, 0x14, 0x63, 0x55, 0x21, 0x0c, 0x7d,
];

/// The affine map of the substitution box: the byte added to four rotations of itself
/// and to 0x63.
pub open spec fn affine(b: u8) -> u8 {
    b ^ ((b << 1) | (b >> 7)) ^ ((b << 2) | (b >> 6)) ^ ((b << 3) | (b >> 5)) ^ ((b << 4) | (b
        >> 4)) ^ 0x63
}

/// The inverse of [`affine`].
pub open spec fn inv_affine(b: u8) -> u8 {
    ((b << 1) | (b >> 7)) ^ ((b << 3) | (b >> 5)) ^ ((b << 6) | (b >> 2)) ^ 0x05
}

/// The byte that AES puts for `b`: the affine image of its inverse in the field.
pub open spec fn sub_byte(b: u8) -> u8 {
    affine(gf_inverse(b))
}

/// The byte that AES puts for `b` when it undoes the substitution.
pub open spec fn inv_sub_byte(b: u8) -> u8 {
    gf_inverse(inv_affine(b))
}

/// `s` belongs to `b` in the substitution box: the byte that the affine map takes to `s`
/// is the inverse of `b`.
#[verifier::opaque]
spec fn pairs(b: u8, s: u8) -> bool {
    if b == 0 {
        inv_affine(s) == 0
    } else {
        gf_mul_flat(b, inv_affine(s)) == 1
    }
}

proof fn lemma_pairs_all()
    by (bit_vector)
    ensures
        pairs(0x00, 0x63), pairs(0x01, 0x7c), pairs(0x02, 0x77), pairs(0x03, 0x7b),
        pairs(0x04, 0xf2), pairs(0x05, 0x6b), pairs(0x06, 0x6f), pairs(0x07, 0xc5),
        pairs(0x08, 0x30), pairs(0x09, 0x01), pairs(0x0a, 0x67), pairs(0x0b, 0x2b),
        pairs(0x0c, 0xfe), pairs(0x0d, 0xd7), pairs(0x0e, 0xab), pairs(0x0f, 0x76),
        pairs(0x10, 0xca), pairs(0x11, 0x82), pairs(0x12, 0xc9), pairs(0x13, 0x7d),
        pairs(0x14, 0xfa), pairs(0x15, 0x59), pairs(0x16, 0x47), pairs(0x17, 0xf0),
        pairs(0x18, 0xad), pairs(0x19, 0xd4), pairs(0x1a, 0xa2), pairs(0x1b, 0xaf),
        pairs(0x1c, 0x9c), pairs(0x1d, 0xa4), pairs(0x1e, 0x72), pairs(0x1f, 0xc0),
        pairs(0x20, 0xb7), pairs(0x21, 0xfd), pairs(0x22, 0x93), pairs(0x23, 0x26),
        pairs(0x24, 0x36), pairs(0x25, 0x3f), pairs(0x26, 0xf7), pairs(0x27, 0xcc),
        pairs(0x28, 0x34), pairs(0x29, 0xa5), pairs(0x2a, 0xe5), pairs(0x2b, 0xf1),
        pairs(0x2c, 0x71), pairs(0x2d, 0xd8), pairs(0x2e, 0x31), pairs(0x2f, 0x15),
        pairs(0x30, 0x04), pairs(0x31, 0xc7), pairs(0x32, 0x23), pairs(0x33, 0xc3),
        pairs(0x34, 0x18), pairs(0x35, 0x96), pairs(0x36, 0x05), pairs(0x37, 0x9a),
        pairs(0x38, 0x07), pairs(0x39, 0x12), pairs(0x3a, 0x80), pairs(0x3b, 0xe2),
        pairs(0x3c, 0xeb), pairs(0x3d, 0x27), pairs(0x3e, 0xb2), pairs(0x3f, 0x75),
        pairs(0x40, 0x09), pairs(0x41, 0x83), pairs(0x42, 0x2c), pairs(0x43, 0x1a),
        pairs(0x44, 0x1b), pairs(0x45, 0x6e), pairs(0x46, 0x5a), pairs(0x47, 0xa0),
        pairs(0x48, 0x52), pairs(0x49, 0x3b), pairs(0x4a, 0xd6), pairs(0x4b, 0xb3),
        pairs(0x4c, 0x29), pairs(0x4d, 0xe3), pairs(0x4e, 0x2f), pairs(0x4f, 0x84),
        pairs(0x50, 0x53), pairs(0x51, 0xd1), pairs(0x52, 0x00), pairs(0x53, 0xed),
        pairs(0x54, 0x20), pairs(0x55, 0xfc), pairs(0x56, 0xb1), pairs(0x57, 0x5b),
        pairs(0x58, 0x6a), pairs(0x59, 0xcb), pairs(0x5a, 0xbe), pairs(0x5b, 0x39),
        pairs(0x5c, 0x4a), pairs(0x5d, 0x4c), pairs(0x5e, 0x58), pairs(0x5f, 0xcf),
        pairs(0x60, 0xd0), pairs(0x61, 0xef), pairs(0x62, 0xaa), pairs(0x63, 0xfb),
        pairs(0x64, 0x43), pairs(0x65, 0x4d), pairs(0x66, 0x33), pairs(0x67, 0x85),
        pairs(0x68, 0x45), pairs(0x69, 0xf9), pairs(0x6a, 0x02), pairs(0x6b, 0x7f),
        pairs(0x6c, 0x50), pairs(0x6d, 0x3c), pairs(0x6e, 0x9f), pairs(0x6f, 0xa8),
        pairs(0x70, 0x51), pairs(0x71, 0xa3), pairs(0x72, 0x40), pairs(0x73, 0x8f),
        pairs(0x74, 0x92), pairs(0x75, 0x9d), pairs(0x76, 0x38), pairs(0x77, 0xf5),
        pairs(0x78, 0xbc), pairs(0x79, 0xb6), pairs(0x7a, 0xda), pairs(0x7b, 0x21),
        pairs(0x7c, 0x10), pairs(0x7d, 0xff), pairs(0x7e, 0xf3), pairs(0x7f, 0xd2),
        pairs(0x80, 0xcd), pairs(0x81, 0x0c), pairs(0x82, 0x13), pairs(0x83, 0xec),
        pairs(0x84, 0x5f), pairs(0x85, 0x97), pairs(0x86, 0x44), pairs(0x87, 0x17),
        pairs(0x88, 0xc4), pairs(0x89, 0xa7), pairs(0x8a, 0x7e), pairs(0x8b, 0x3d),
        pairs(0x8c, 0x64), pairs(0x8d, 0x5d), pairs(0x8e, 0x19), pairs(0x8f, 0x73),
        pairs(0x90, 0x60), pairs(0x91, 0x81), pairs(0x92, 0x4f), pairs(0x93, 0xdc),
        pairs(0x94, 0x22), pairs(0x95, 0x2a), pairs(0x96, 0x90), pairs(0x97, 0x88),
        pairs(0x98, 0x46), pairs(0x99, 0xee), pairs(0x9a, 0xb8), pairs(0x9b, 0x14),
        pairs(0x9c, 0xde), pairs(0x9d, 0x5e), pairs(0x9e, 0x0b), pairs(0x9f, 0xdb),
        pairs(0xa0, 0xe0), pairs(0xa1, 0x32), pairs(0xa2, 0x3a), pairs(0xa3, 0x0a),
        pairs(0xa4, 0x49), pairs(0xa5, 0x06), pairs(0xa6, 0x24), pairs(0xa7, 0x5c),
        pairs(0xa8, 0xc2), pairs(0xa9, 0xd3), pairs(0xaa, 0xac), pairs(0xab, 0x62),
        pairs(0xac, 0x91), pairs(0xad, 0x95), pairs(0xae, 0xe4), pairs(0xaf, 0x79),
        pairs(0xb0, 0xe7), pairs(0xb1, 0xc8), pairs(0xb2, 0x37), pairs(0xb3, 0x6d),
        pairs(0xb4, 0x8d), pairs(0xb5, 0xd5), pairs(0xb6, 0x4e), pairs(0xb7, 0xa9),
        pairs(0xb8, 0x6c), pairs(0xb9, 0x56), pairs(0xba, 0xf4), pairs(0xbb, 0xea),
        pairs(0xbc, 0x65), pairs(0xbd, 0x7a), pairs(0xbe, 0xae), pairs(0xbf, 0x08),
        pairs(0xc0, 0xba), pairs(0xc1, 0x78), pairs(0xc2, 0x25), pairs(0xc3, 0x2e),
        pairs(0xc4, 0x1c), pairs(0xc5, 0xa6), pairs(0xc6, 0xb4), pairs(0xc7, 0xc6),
        pairs(0xc8, 0xe8), pairs(0xc9, 0xdd), pairs(0xca, 0x74), pairs(0xcb, 0x1f),
        pairs(0xcc, 0x4b), pairs(0xcd, 0xbd), pairs(0xce, 0x8b), pairs(0xcf, 0x8a),
        pairs(0xd0, 0x70), pairs(0xd1, 0x3e), pairs(0xd2, 0xb5), pairs(0xd3, 0x66),
        pairs(0xd4, 0x48), pairs(0xd5, 0x03), pairs(0xd6, 0xf6), pairs(0xd7, 0x0e),
        pairs(0xd8, 0x61), pairs(0xd9, 0x35), pairs(0xda, 0x57), pairs(0xdb, 0xb9),
        pairs(0xdc, 0x86), pairs(0xdd, 0xc1), pairs(0xde, 0x1d), pairs(0xdf, 0x9e),
        pairs(0xe0, 0xe1), pairs(0xe1, 0xf8), pairs(0xe2, 0x98), pairs(0xe3, 0x11),
        pairs(0xe4, 0x69), pairs(0xe5, 0xd9), pairs(0xe6, 0x8e), pairs(0xe7, 0x94),
        pairs(0xe8, 0x9b), pairs(0xe9, 0x1e), pairs(0xea, 0x87), pairs(0xeb, 0xe9),
        pairs(0xec, 0xce), pairs(0xed, 0x55), pairs(0xee, 0x28), pairs(0xef, 0xdf),
        pairs(0xf0, 0x8c), pairs(0xf1, 0xa1), pairs(0xf2, 0x89), pairs(0xf3, 0x0d),
        pairs(0xf4, 0xbf), pairs(0xf5, 0xe6), pairs(0xf6, 0x42), pairs(0xf7, 0x68),
        pairs(0xf8, 0x41), pairs(0xf9, 0x99), pairs(0xfa, 0x2d), pairs(0xfb, 0x0f),
        pairs(0xfc, 0xb0), pairs(0xfd, 0x54), pairs(0xfe, 0xbb), pairs(0xff, 0x16),
{
}

proof fn lemma_affine_inverse(b: u8)
    by (bit_vector)
    ensures
        affine(inv_affine(b)) == b,
        inv_affine(affine(b)) == b,
{
}

proof fn lemma_pairs(b: u8, s: u8)
    requires
        pairs(b, s),
    ensures
        s == sub_byte(b),
        b == inv_sub_byte(s),
        b != 0 ==> gf_mul(b, gf_inverse(b)) == 1,
{
    reveal(pairs);
    let c = inv_affine(s);
    lemma_affine_inverse(s);
    if b != 0 {
        lemma_gf_mul_flat(b, c);
        law_gf_inverse_unique(b, c);
        law_gf_mul_commutes(b, c);
        law_gf_inverse_unique(c, b);
    }
}

proof fn lemma_s_box_pairs(i: int)
    requires
        0 <= i < 256,
    ensures
        pairs(i as u8, S_BOX@[i]),
{
    lemma_pairs_all();
}

proof fn lemma_inv_s_box_pairs(i: int)
    requires
        0 <= i < 256,
    ensures
        pairs(INV_S_BOX@[i], i as u8),
{
    lemma_pairs_all();
}

/// The table [`S_BOX`] holds [`sub_byte`].
pub proof fn law_s_box(b: u8)
    ensures
        S_BOX@[b as int] == sub_byte(b),
{
    lemma_s_box_pairs(b as int);
    lemma_pairs(b, S_BOX@[b as int]);
}

/// The table [`INV_S_BOX`] holds [`inv_sub_byte`].
pub proof fn law_inv_s_box(b: u8)
    ensures
        INV_S_BOX@[b as int] == inv_sub_byte(b),
{
    lemma_inv_s_box_pairs(b as int);
    lemma_pairs(INV_S_BOX@[b as int], b);
}

/// The two substitutions undo each other.
pub proof fn law_sub_byte_inverse(b: u8)
    ensures
        inv_sub_byte(sub_byte(b)) == b,
        sub_byte(inv_sub_byte(b)) == b,
{
    lemma_s_box_pairs(b as int);
    lemma_pairs(b, S_BOX@[b as int]);
    lemma_inv_s_box_pairs(b as int);
    lemma_pairs(INV_S_BOX@[b as int], b);
}

/// Every byte but 0 has an inverse in the field.
pub proof fn law_gf_inverse(b: u8)
    requires
        b != 0,
    ensures
        gf_mul(b, gf_inverse(b)) == 1,
{
    lemma_s_box_pairs(b as int);
    lemma_pairs(b, S_BOX@[b as int]);
}

/// The substitution bit by bit, the lowest being bit 0: with `c` the inverse of `b` in the
/// field, or 0 for 0, bit `j` of the result is the sum of the bits `j`, `j + 4`, `j + 5`,
/// `j + 6` and `j + 7` of `c`, counted round the end, and bit `j` of 0x63.
pub proof fn law_sub_byte_bits(b: u8, c: u8, j: u8, j4: u8, j5: u8, j6: u8, j7: u8)
    requires
        (b == 0 && c == 0) || gf_mul(b, c) == 1,
        j < 8,
        j4 == (j + 4) % 8,
        j5 == (j + 5) % 8,
        j6 == (j + 6) % 8,
        j7 == (j + 7) % 8,
    ensures
        (sub_byte(b) >> j) & 1 == ((c >> j) & 1) ^ ((c >> j4) & 1) ^ ((c >> j5) & 1) ^ ((c >> j6)
            & 1) ^ ((c >> j7) & 1) ^ ((0x63u8 >> j) & 1),
        inv_sub_byte(sub_byte(b)) == b,
{
    law_sub_byte_inverse(b);
    if gf_mul(b, c) == 1 {
        law_gf_inverse_unique(b, c);
    }
    assert((affine(c) >> j) & 1 == ((c >> j) & 1) ^ ((c >> j4) & 1) ^ ((c >> j5) & 1) ^ ((c >> j6)
        & 1) ^ ((c >> j7) & 1) ^ ((0x63u8 >> j) & 1)) by (bit_vector)
        requires
            j < 8,
            j4 < 8 && (j4 == j + 4 || j4 + 4 == j),
            j5 < 8 && (j5 == j + 5 || j5 + 3 == j),
            j6 < 8 && (j6 == j + 6 || j6 + 2 == j),
            j7 < 8 && (j7 == j + 7 || j7 + 1 == j),
    ;
}

/// Looks `b` up in the substitution box.
pub fn substitute(b: u8) -> (r: u8)
    ensures
        r == sub_byte(b),
{
    proof {
        law_s_box(b);
    }
    S_BOX[b as usize]
}

/// Looks `b` up in the inverse substitution box.
pub fn inv_substitute(b: u8) -> (r: u8)
    ensures
        r == inv_sub_byte(b),
{
    proof {
        law_inv_s_box(b);
    }
    INV_S_BOX[b as usize]
}

} // verus!
