//! The field GF(2^8) of AES: bytes as polynomials over GF(2), modulo
//! `x^8 + x^4 + x^3 + x + 1`. Bit `i` of a byte is the coefficient of `x^i`.
use vstd::prelude::*;

verus! {

/// The product of two polynomials, before reduction.
pub open spec fn poly_mul(a: u8, b: u8) -> u16 {
    (if b & 0x01 != 0 { a as u16 } else { 0 })
    ^ (if b & 0x02 != 0 { (a as u16) << 1 } else { 0 })
    ^ (if b & 0x04 != 0 { (a as u16) << 2 } else { 0 })
    ^ (if b & 0x08 != 0 { (a as u16) << 3 } else { 0 })
    ^ (if b & 0x10 != 0 { (a as u16) << 4 } else { 0 })
    ^ (if b & 0x20 != 0 { (a as u16) << 5 } else { 0 })
    ^ (if b & 0x40 != 0 { (a as u16) << 6 } else { 0 })
    ^ (if b & 0x80 != 0 { (a as u16) << 7 } else { 0 })
}

/// One step of long division: where `p` has the leading term `top`, subtracts the
/// multiple of the modulus that has the same leading term.
pub open spec fn poly_cancel(p: u16, top: u16, multiple: u16) -> u16 {
    if p & top != 0 { p ^ multiple } else { p }
}

/// The remainder of a polynomial of degree at most 14 modulo `x^8 + x^4 + x^3 + x + 1`
/// (0x11b), by long division.
pub open spec fn poly_mod(p14: u16) -> u8 {
    let p13 = poly_cancel(p14, 0x4000, 0x11bu16 << 6);
    let p12 = poly_cancel(p13, 0x2000, 0x11bu16 << 5);
    let p11 = poly_cancel(p12, 0x1000, 0x11bu16 << 4);
    let p10 = poly_cancel(p11, 0x0800, 0x11bu16 << 3);
    let p9 = poly_cancel(p10, 0x0400, 0x11bu16 << 2);
    let p8 = poly_cancel(p9, 0x0200, 0x11bu16 << 1);
    let p7 = poly_cancel(p8, 0x0100, 0x11b);
    p7 as u8
}

/// Multiplication in the field.
#[verifier::opaque]
pub open spec fn gf_mul(a: u8, b: u8) -> u8 {
    poly_mod(poly_mul(a, b))
}

/// The multiplicative inverse, with 0 mapped to 0.
pub open spec fn gf_inverse(a: u8) -> u8 {
    if a == 0 {
        0
    } else {
        choose|b: u8| gf_mul(a, b) == 1
    }
}

/// `gf_mul` with the remainders of `x^8` to `x^14` written out: the form in which the
/// bit-level facts below are decided.
pub(crate) open spec fn gf_mul_flat(a: u8, b: u8) -> u8 {
    flat_mod(poly_mul(a, b))
}

pub(crate) open spec fn flat_mod(p: u16) -> u8 {
    (p as u8)
    ^ (if p & 0x0100 != 0 { 0x1bu8 } else { 0 })
    ^ (if p & 0x0200 != 0 { 0x36u8 } else { 0 })
    ^ (if p & 0x0400 != 0 { 0x6cu8 } else { 0 })
    ^ (if p & 0x0800 != 0 { 0xd8u8 } else { 0 })
    ^ (if p & 0x1000 != 0 { 0xabu8 } else { 0 })
    ^ (if p & 0x2000 != 0 { 0x4du8 } else { 0 })
    ^ (if p & 0x4000 != 0 { 0x9au8 } else { 0 })
}

proof fn lemma_long_division(
    p14: u16,
    p13: u16,
    p12: u16,
    p11: u16,
    p10: u16,
    p9: u16,
    p8: u16,
    p7: u16,
)
    by (bit_vector)
    requires
        p14 & 0x8000 == 0,
        p13 == poly_cancel(p14, 0x4000, 0x11bu16 << 6),
        p12 == poly_cancel(p13, 0x2000, 0x11bu16 << 5),
        p11 == poly_cancel(p12, 0x1000, 0x11bu16 << 4),
        p10 == poly_cancel(p11, 0x0800, 0x11bu16 << 3),
        p9 == poly_cancel(p10, 0x0400, 0x11bu16 << 2),
        p8 == poly_cancel(p9, 0x0200, 0x11bu16 << 1),
        p7 == poly_cancel(p8, 0x0100, 0x11b),
    ensures
        p7 as u8 == flat_mod(p14),
{
}

/// The arithmetic of XOR.
pub(crate) proof fn lemma_xor(a: u8, b: u8, c: u8)
    by (bit_vector)
    ensures
        0 ^ a == a,
        a ^ 0 == a,
        a ^ a == 0,
        a ^ b == b ^ a,
        (a ^ b) ^ b == a,
        a ^ (b ^ c) == (a ^ b) ^ c,
        a ^ b == 0 ==> a == b,
{
}

/// Both forms of the product agree.
pub(crate) proof fn lemma_gf_mul_flat(a: u8, b: u8)
    ensures
        gf_mul(a, b) == gf_mul_flat(a, b),
{
    let p14 = poly_mul(a, b);
    let p13 = poly_cancel(p14, 0x4000, 0x11bu16 << 6);
    let p12 = poly_cancel(p13, 0x2000, 0x11bu16 << 5);
    let p11 = poly_cancel(p12, 0x1000, 0x11bu16 << 4);
    let p10 = poly_cancel(p11, 0x0800, 0x11bu16 << 3);
    let p9 = poly_cancel(p10, 0x0400, 0x11bu16 << 2);
    let p8 = poly_cancel(p9, 0x0200, 0x11bu16 << 1);
    let p7 = poly_cancel(p8, 0x0100, 0x11b);
    assert(poly_mul(a, b) & 0x8000 == 0) by (bit_vector);
    lemma_long_division(p14, p13, p12, p11, p10, p9, p8, p7);
    reveal(gf_mul);
}

/// Multiplication distributes over addition, which is XOR.
pub proof fn law_gf_mul_distributes(a: u8, b: u8, c: u8)
    ensures
        gf_mul(a, b ^ c) == gf_mul(a, b) ^ gf_mul(a, c),
{
    lemma_gf_mul_flat(a, b ^ c);
    lemma_gf_mul_flat(a, b);
    lemma_gf_mul_flat(a, c);
    assert(gf_mul_flat(a, b ^ c) == gf_mul_flat(a, b) ^ gf_mul_flat(a, c)) by (bit_vector);
}

/// Multiplication by 1 and by `x`: a byte is doubled and, where it gets too large for a
/// byte, the modulus is subtracted. A factor of `x` can move from one side of a product to
/// the other. With distribution over sums this fixes every product.
pub proof fn law_gf_mul_by_x(a: u8, b: u8)
    ensures
        gf_mul(a, 0) == 0,
        gf_mul(a, 1) == a,
        a < 128 ==> gf_mul(a, 2) == 2 * a,
        a >= 128 ==> gf_mul(a, 2) == ((2 * a - 256) as u8) ^ 0x1b,
        b < 128 ==> gf_mul(a, (2 * b) as u8) == gf_mul(gf_mul(a, 2), b),
{
    let a2 = gf_mul(a, 2);
    let c = (2 * b) as u8;
    lemma_gf_mul_flat(a, 0);
    lemma_gf_mul_flat(a, 1);
    lemma_gf_mul_flat(a, 2);
    assert(gf_mul_flat(a, 0) == 0 && gf_mul_flat(a, 1) == a && (a < 128 ==> gf_mul_flat(a, 2) == 2
        * a) && (a >= 128 ==> gf_mul_flat(a, 2) == ((2 * a - 256) as u8) ^ 0x1b)) by (bit_vector);
    if b < 128 {
        lemma_gf_mul_flat(a, c);
        lemma_gf_mul_flat(a2, b);
        assert(gf_mul_flat(a, c) == gf_mul_flat(a2, b)) by (bit_vector)
            requires
                b < 128,
                c == 2 * b,
                a2 == gf_mul_flat(a, 2),
        ;
    }
}

/// Multiplication is commutative.
pub proof fn law_gf_mul_commutes(a: u8, b: u8)
    ensures
        gf_mul(a, b) == gf_mul(b, a),
{
    lemma_gf_mul_flat(a, b);
    lemma_gf_mul_flat(b, a);
    assert(gf_mul_flat(a, b) == gf_mul_flat(b, a)) by (bit_vector);
}

/// A product is zero only where a factor is.
pub proof fn law_gf_mul_no_zero_divisors(a: u8, b: u8)
    ensures
        gf_mul(a, b) == 0 <==> a == 0 || b == 0,
{
    lemma_gf_mul_flat(a, b);
    assert(gf_mul_flat(a, b) == 0 <==> a == 0 || b == 0) by (bit_vector);
}

/// A byte whose product with `a` is 1 is the inverse of `a`, and the only one; 0, which has
/// none, stands for its own.
pub proof fn law_gf_inverse_unique(a: u8, b: u8)
    requires
        gf_mul(a, b) == 1,
    ensures
        gf_inverse(a) == b,
        gf_inverse(0) == 0,
        a != 0,
{
    law_gf_mul_no_zero_divisors(a, b);
    let c = gf_inverse(a);
    assert(gf_mul(a, c) == 1);
    law_gf_mul_distributes(a, b, c);
    lemma_xor(1, 0, 0);
    law_gf_mul_no_zero_divisors(a, b ^ c);
    lemma_xor(b, c, 0);
}

/// Multiplication by `x`.
pub fn xtime(a: u8) -> (r: u8)
    ensures
        r == gf_mul(a, 2),
        a < 128 ==> r == 2 * a,
        a >= 128 ==> r == ((2 * a - 256) as u8) ^ 0x1b,
{
    proof {
        lemma_gf_mul_flat(a, 2);
        law_gf_mul_by_x(a, 0);
        assert(gf_mul_flat(a, 2) == if a & 0x80 != 0 {
            ((a as u16) << 1 ^ 0x1b) as u8
        } else {
            a << 1
        }) by (bit_vector);
    }
    if a & 0x80 != 0 {
        ((a as u16) << 1 ^ 0x1b) as u8
    } else {
        a << 1
    }
}

/// One step of the shift-and-add method: the low coefficient of `b`, and the rest of `b`
/// against `a` times `x`.
proof fn lemma_gf_mul_step(a: u8, b: u8)
    ensures
        gf_mul(a, b) == (if b & 1 != 0 { a } else { 0 }) ^ gf_mul(gf_mul(a, 2), b >> 1),
{
    let a2 = gf_mul(a, 2);
    lemma_gf_mul_flat(a, 2);
    lemma_gf_mul_flat(a, b);
    lemma_gf_mul_flat(a2, b >> 1);
    assert(gf_mul_flat(a, b) == (if b & 1 != 0 { a } else { 0 }) ^ gf_mul_flat(a2, b >> 1))
        by (bit_vector)
        requires
            a2 == gf_mul_flat(a, 2),
    ;
}

/// Multiplication in the field, by shifting and adding.
pub fn gf_multiply(a: u8, b: u8) -> (r: u8)
    ensures
        r == gf_mul(a, b),
{
    let mut x: u8 = a;
    let mut y: u8 = b;
    let mut result: u8 = 0;
    let mut i: u8 = 0;
    proof {
        assert(b >> 0 == b && b >> 8 == 0) by (bit_vector);
        lemma_xor(gf_mul(a, b), 0, 0);
    }
    while i < 8
        invariant
            i <= 8,
            b >> 8 == 0,
            y == b >> i,
            result ^ gf_mul(x, y) == gf_mul(a, b),
        decreases 8 - i,
    {
        proof {
            lemma_gf_mul_step(x, y);
            let rest = gf_mul(gf_mul(x, 2), y >> 1);
            lemma_xor(result, x, rest);
            lemma_xor(rest, 0, 0);
            let j: u8 = (i + 1) as u8;
            assert((b >> i) >> 1 == b >> j) by (bit_vector)
                requires
                    i < 8,
                    j == i + 1,
            ;
        }
        if y & 1 != 0 {
            result = result ^ x;
        }
        x = xtime(x);
        y = y >> 1;
        i = i + 1;
    }
    proof {
        law_gf_mul_no_zero_divisors(x, 0);
        lemma_xor(result, 0, 0);
    }
    result
}

} // verus!
