//! MixColumns and InvMixColumns, the steps of AES that multiply a column by a matrix.
use crate::gf::gf_mul;
use crate::gf::gf_mul_flat;
use crate::gf::lemma_gf_mul_flat;
use vstd::prelude::*;

verus! {

/// One byte of MixColumns, from the bytes of its column in order, its own first.
pub open spec fn mix_byte(a: u8, b: u8, c: u8, d: u8) -> u8 {
    gf_mul(2, a) ^ gf_mul(3, b) ^ c ^ d
}

/// One byte of InvMixColumns, from the bytes of its column in order, its own first.
pub open spec fn inv_mix_byte(a: u8, b: u8, c: u8, d: u8) -> u8 {
    gf_mul(0x0e, a) ^ gf_mul(0x0b, b) ^ gf_mul(0x0d, c) ^ gf_mul(0x09, d)
}

/// The byte that stands `k` rows below byte `i` in its column, round the end.
pub open spec fn below(s: Seq<u8>, i: int, k: int) -> u8 {
    s[4 * (i / 4) + (i + k) % 4]
}

/// MixColumns.
#[verifier::opaque]
pub open spec fn mix_state(s: Seq<u8>) -> Seq<u8> {
    Seq::new(
        16,
        |i: int| mix_byte(below(s, i, 0), below(s, i, 1), below(s, i, 2), below(s, i, 3)),
    )
}

/// InvMixColumns.
#[verifier::opaque]
pub open spec fn inv_mix_state(s: Seq<u8>) -> Seq<u8> {
    Seq::new(
        16,
        |i: int| inv_mix_byte(below(s, i, 0), below(s, i, 1), below(s, i, 2), below(s, i, 3)),
    )
}

/// Multiplication by the coefficients of the inverse matrix distributes over a sum of four.
proof fn lemma_coefficients_distribute(t: u8, u: u8, v: u8, w: u8)
    by (bit_vector)
    ensures
        gf_mul_flat(0x0e, t ^ u ^ v ^ w) == gf_mul_flat(0x0e, t) ^ gf_mul_flat(0x0e, u)
            ^ gf_mul_flat(0x0e, v) ^ gf_mul_flat(0x0e, w),
        gf_mul_flat(0x0b, t ^ u ^ v ^ w) == gf_mul_flat(0x0b, t) ^ gf_mul_flat(0x0b, u)
            ^ gf_mul_flat(0x0b, v) ^ gf_mul_flat(0x0b, w),
        gf_mul_flat(0x0d, t ^ u ^ v ^ w) == gf_mul_flat(0x0d, t) ^ gf_mul_flat(0x0d, u)
            ^ gf_mul_flat(0x0d, v) ^ gf_mul_flat(0x0d, w),
        gf_mul_flat(0x09, t ^ u ^ v ^ w) == gf_mul_flat(0x09, t) ^ gf_mul_flat(0x09, u)
            ^ gf_mul_flat(0x09, v) ^ gf_mul_flat(0x09, w),
{
}

/// The product of the two matrices, column by column: one and three times zero.
proof fn lemma_matrix_product(x: u8, x2: u8, x3: u8)
    by (bit_vector)
    requires
        x2 == gf_mul_flat(2, x),
        x3 == gf_mul_flat(3, x),
    ensures
        gf_mul_flat(0x0e, x2) ^ gf_mul_flat(0x0b, x) ^ gf_mul_flat(0x0d, x) ^ gf_mul_flat(0x09, x3)
            == x,
        gf_mul_flat(0x0e, x3) ^ gf_mul_flat(0x0b, x2) ^ gf_mul_flat(0x0d, x) ^ gf_mul_flat(0x09, x)
            == 0,
        gf_mul_flat(0x0e, x) ^ gf_mul_flat(0x0b, x3) ^ gf_mul_flat(0x0d, x2) ^ gf_mul_flat(0x09, x)
            == 0,
        gf_mul_flat(0x0e, x) ^ gf_mul_flat(0x0b, x) ^ gf_mul_flat(0x0d, x3) ^ gf_mul_flat(0x09, x2)
            == 0,
{
}

/// A sum of four rows, taken by columns.
proof fn lemma_sum_by_columns(
    total: u8,
    p0: u8,
    p1: u8,
    p2: u8,
    p3: u8,
    q0: u8,
    q1: u8,
    q2: u8,
    q3: u8,
    r0: u8,
    r1: u8,
    r2: u8,
    r3: u8,
    s0: u8,
    s1: u8,
    s2: u8,
    s3: u8,
)
    by (bit_vector)
    requires
        p0 ^ q0 ^ r0 ^ s0 == total,
        p1 ^ q1 ^ r1 ^ s1 == 0,
        p2 ^ q2 ^ r2 ^ s2 == 0,
        p3 ^ q3 ^ r3 ^ s3 == 0,
    ensures
        (p0 ^ p1 ^ p2 ^ p3) ^ (q1 ^ q2 ^ q3 ^ q0) ^ (r2 ^ r3 ^ r0 ^ r1) ^ (s3 ^ s0 ^ s1 ^ s2)
            == total,
{
}

proof fn lemma_mix_column(a: u8, b: u8, c: u8, d: u8, p: u8, q: u8, r: u8, s: u8)
    requires
        p == gf_mul_flat(2, a) ^ gf_mul_flat(3, b) ^ c ^ d,
        q == gf_mul_flat(2, b) ^ gf_mul_flat(3, c) ^ d ^ a,
        r == gf_mul_flat(2, c) ^ gf_mul_flat(3, d) ^ a ^ b,
        s == gf_mul_flat(2, d) ^ gf_mul_flat(3, a) ^ b ^ c,
    ensures
        gf_mul_flat(0x0e, p) ^ gf_mul_flat(0x0b, q) ^ gf_mul_flat(0x0d, r) ^ gf_mul_flat(0x09, s)
            == a,
{
    let (a2, a3) = (gf_mul_flat(2, a), gf_mul_flat(3, a));
    let (b2, b3) = (gf_mul_flat(2, b), gf_mul_flat(3, b));
    let (c2, c3) = (gf_mul_flat(2, c), gf_mul_flat(3, c));
    let (d2, d3) = (gf_mul_flat(2, d), gf_mul_flat(3, d));
    lemma_coefficients_distribute(a2, b3, c, d);
    lemma_coefficients_distribute(b2, c3, d, a);
    lemma_coefficients_distribute(c2, d3, a, b);
    lemma_coefficients_distribute(d2, a3, b, c);
    lemma_matrix_product(a, a2, a3);
    lemma_matrix_product(b, b2, b3);
    lemma_matrix_product(c, c2, c3);
    lemma_matrix_product(d, d2, d3);
    lemma_sum_by_columns(
        a,
        gf_mul_flat(0x0e, a2),
        gf_mul_flat(0x0e, b3),
        gf_mul_flat(0x0e, c),
        gf_mul_flat(0x0e, d),
        gf_mul_flat(0x0b, a),
        gf_mul_flat(0x0b, b2),
        gf_mul_flat(0x0b, c3),
        gf_mul_flat(0x0b, d),
        gf_mul_flat(0x0d, a),
        gf_mul_flat(0x0d, b),
        gf_mul_flat(0x0d, c2),
        gf_mul_flat(0x0d, d3),
        gf_mul_flat(0x09, a3),
        gf_mul_flat(0x09, b),
        gf_mul_flat(0x09, c),
        gf_mul_flat(0x09, d2),
    );
}

proof fn lemma_inv_mix_column(a: u8, b: u8, c: u8, d: u8, p: u8, q: u8, r: u8, s: u8)
    by (bit_vector)
    requires
        p == gf_mul_flat(0x0e, a) ^ gf_mul_flat(0x0b, b) ^ gf_mul_flat(0x0d, c) ^ gf_mul_flat(0x09, d),
        q == gf_mul_flat(0x0e, b) ^ gf_mul_flat(0x0b, c) ^ gf_mul_flat(0x0d, d) ^ gf_mul_flat(0x09, a),
        r == gf_mul_flat(0x0e, c) ^ gf_mul_flat(0x0b, d) ^ gf_mul_flat(0x0d, a) ^ gf_mul_flat(0x09, b),
        s == gf_mul_flat(0x0e, d) ^ gf_mul_flat(0x0b, a) ^ gf_mul_flat(0x0d, b) ^ gf_mul_flat(0x09, c),
    ensures
        gf_mul_flat(2, p) ^ gf_mul_flat(3, q) ^ r ^ s == a,
{
}

/// The byte `k` below byte `i`, and what stands `m` below that one.
proof fn lemma_below(s: Seq<u8>, i: int, k: int, m: int)
    requires
        0 <= i < 16,
        0 <= k < 4,
        0 <= m < 4,
    ensures
        ({
            let j = 4 * (i / 4) + (i + k) % 4;
            &&& 0 <= j < 16
            &&& below(s, j, m) == below(s, i, if k + m < 4 { k + m } else { k + m - 4 })
        }),
{
    let j = 4 * (i / 4) + (i + k) % 4;
    assert(j / 4 == i / 4);
    assert((j + m) % 4 == (i + k + m) % 4);
    assert((i + k + m) % 4 == (i + k + m - 4) % 4);
}

proof fn lemma_below_mixed(s: Seq<u8>, i: int, k: int)
    requires
        0 <= i < 16,
        0 <= k < 4,
    ensures
        ({
            let j = 4 * (i / 4) + (i + k) % 4;
            let (a, b, c, d) = (below(s, j, 0), below(s, j, 1), below(s, j, 2), below(s, j, 3));
            &&& below(mix_state(s), i, k) == mix_byte(a, b, c, d)
            &&& below(inv_mix_state(s), i, k) == inv_mix_byte(a, b, c, d)
        }),
{
    reveal(mix_state);
    reveal(inv_mix_state);
    lemma_below(s, i, k, 0);
}

proof fn lemma_mix_bytes_flat(a: u8, b: u8, c: u8, d: u8)
    ensures
        mix_byte(a, b, c, d) == gf_mul_flat(2, a) ^ gf_mul_flat(3, b) ^ c ^ d,
        inv_mix_byte(a, b, c, d) == gf_mul_flat(0x0e, a) ^ gf_mul_flat(0x0b, b) ^ gf_mul_flat(
            0x0d,
            c,
        ) ^ gf_mul_flat(0x09, d),
{
    lemma_gf_mul_flat(2, a);
    lemma_gf_mul_flat(3, b);
    lemma_gf_mul_flat(0x0e, a);
    lemma_gf_mul_flat(0x0b, b);
    lemma_gf_mul_flat(0x0d, c);
    lemma_gf_mul_flat(0x09, d);
}

proof fn lemma_mix_bytes_inverse(a: u8, b: u8, c: u8, d: u8)
    ensures
        inv_mix_byte(
            mix_byte(a, b, c, d),
            mix_byte(b, c, d, a),
            mix_byte(c, d, a, b),
            mix_byte(d, a, b, c),
        ) == a,
        mix_byte(
            inv_mix_byte(a, b, c, d),
            inv_mix_byte(b, c, d, a),
            inv_mix_byte(c, d, a, b),
            inv_mix_byte(d, a, b, c),
        ) == a,
{
    lemma_mix_bytes_flat(a, b, c, d);
    lemma_mix_bytes_flat(b, c, d, a);
    lemma_mix_bytes_flat(c, d, a, b);
    lemma_mix_bytes_flat(d, a, b, c);
    let (p, q, r, s) = (
        mix_byte(a, b, c, d),
        mix_byte(b, c, d, a),
        mix_byte(c, d, a, b),
        mix_byte(d, a, b, c),
    );
    lemma_mix_column(a, b, c, d, p, q, r, s);
    lemma_mix_bytes_flat(p, q, r, s);
    let (p, q, r, s) = (
        inv_mix_byte(a, b, c, d),
        inv_mix_byte(b, c, d, a),
        inv_mix_byte(c, d, a, b),
        inv_mix_byte(d, a, b, c),
    );
    lemma_inv_mix_column(a, b, c, d, p, q, r, s);
    lemma_mix_bytes_flat(p, q, r, s);
}

proof fn lemma_mix_state_inverse_at(s: Seq<u8>, i: int)
    requires
        s.len() == 16,
        0 <= i < 16,
    ensures
        inv_mix_state(mix_state(s))[i] == s[i],
        mix_state(inv_mix_state(s))[i] == s[i],
{
    reveal(mix_state);
    reveal(inv_mix_state);
    let (a, b, c, d) = (below(s, i, 0), below(s, i, 1), below(s, i, 2), below(s, i, 3));
    assert forall|k: int| 0 <= k < 4 implies #[trigger] below(mix_state(s), i, k) == (if k == 0 {
        mix_byte(a, b, c, d)
    } else if k == 1 {
        mix_byte(b, c, d, a)
    } else if k == 2 {
        mix_byte(c, d, a, b)
    } else {
        mix_byte(d, a, b, c)
    }) && below(inv_mix_state(s), i, k) == (if k == 0 {
        inv_mix_byte(a, b, c, d)
    } else if k == 1 {
        inv_mix_byte(b, c, d, a)
    } else if k == 2 {
        inv_mix_byte(c, d, a, b)
    } else {
        inv_mix_byte(d, a, b, c)
    }) by {
        lemma_below_mixed(s, i, k);
        lemma_below(s, i, k, 0);
        lemma_below(s, i, k, 1);
        lemma_below(s, i, k, 2);
        lemma_below(s, i, k, 3);
    }
    lemma_mix_bytes_inverse(a, b, c, d);
    assert(below(mix_state(s), i, 0) == mix_byte(a, b, c, d));
    assert(below(mix_state(s), i, 1) == mix_byte(b, c, d, a));
    assert(below(mix_state(s), i, 2) == mix_byte(c, d, a, b));
    assert(below(mix_state(s), i, 3) == mix_byte(d, a, b, c));
    assert(4 * (i / 4) + i % 4 == i);
}

/// Column `c` of MixColumns and InvMixColumns: what the two matrices make of the bytes `a`,
/// `b`, `d` and `e` of the column.
pub proof fn law_mix_state_columns(s: Seq<u8>, c: int, a: u8, b: u8, d: u8, e: u8)
    requires
        0 <= c < 4,
        a == s[4 * c],
        b == s[4 * c + 1],
        d == s[4 * c + 2],
        e == s[4 * c + 3],
    ensures
        mix_state(s).len() == 16,
        mix_state(s)[4 * c] == gf_mul(2, a) ^ gf_mul(3, b) ^ d ^ e,
        mix_state(s)[4 * c + 1] == a ^ gf_mul(2, b) ^ gf_mul(3, d) ^ e,
        mix_state(s)[4 * c + 2] == a ^ b ^ gf_mul(2, d) ^ gf_mul(3, e),
        mix_state(s)[4 * c + 3] == gf_mul(3, a) ^ b ^ d ^ gf_mul(2, e),
        inv_mix_state(s).len() == 16,
        inv_mix_state(s)[4 * c] == gf_mul(14, a) ^ gf_mul(11, b) ^ gf_mul(13, d) ^ gf_mul(9, e),
        inv_mix_state(s)[4 * c + 1] == gf_mul(9, a) ^ gf_mul(14, b) ^ gf_mul(11, d) ^ gf_mul(13, e),
        inv_mix_state(s)[4 * c + 2] == gf_mul(13, a) ^ gf_mul(9, b) ^ gf_mul(14, d) ^ gf_mul(11, e),
        inv_mix_state(s)[4 * c + 3] == gf_mul(11, a) ^ gf_mul(13, b) ^ gf_mul(9, d) ^ gf_mul(14, e),
{
    reveal(mix_state);
    reveal(inv_mix_state);
    let i = 4 * c;
    assert(forall|r: int, k: int|
        0 <= r < 4 && 0 <= k < 4 ==> #[trigger] below(s, i + r, k) == s[i + (r + k) % 4]) by {
        assert forall|r: int, k: int| 0 <= r < 4 && 0 <= k < 4 implies #[trigger] below(s, i + r, k)
            == s[i + (r + k) % 4] by {
            assert((i + r) / 4 == c);
            assert((i + r + k) % 4 == (r + k) % 4);
        }
    }
    assert(below(s, i + 0, 0) == a && below(s, i + 0, 1) == b && below(s, i + 0, 2) == d && below(
        s,
        i + 0,
        3,
    ) == e);
    assert(below(s, i + 1, 0) == b && below(s, i + 1, 1) == d && below(s, i + 1, 2) == e && below(
        s,
        i + 1,
        3,
    ) == a);
    assert(below(s, i + 2, 0) == d && below(s, i + 2, 1) == e && below(s, i + 2, 2) == a && below(
        s,
        i + 2,
        3,
    ) == b);
    assert(below(s, i + 3, 0) == e && below(s, i + 3, 1) == a && below(s, i + 3, 2) == b && below(
        s,
        i + 3,
        3,
    ) == d);
    lemma_turned_sum(gf_mul(2, b), gf_mul(3, d), e, a);
    lemma_turned_sum(gf_mul(2, d), gf_mul(3, e), a, b);
    lemma_turned_sum(gf_mul(2, e), gf_mul(3, a), b, d);
    lemma_turned_sum(gf_mul(14, b), gf_mul(11, d), gf_mul(13, e), gf_mul(9, a));
    lemma_turned_sum(gf_mul(14, d), gf_mul(11, e), gf_mul(13, a), gf_mul(9, b));
    lemma_turned_sum(gf_mul(14, e), gf_mul(11, a), gf_mul(13, b), gf_mul(9, d));
}

proof fn lemma_turned_sum(p: u8, q: u8, r: u8, s: u8)
    by (bit_vector)
    ensures
        p ^ q ^ r ^ s == s ^ p ^ q ^ r,
        p ^ q ^ r ^ s == r ^ s ^ p ^ q,
        p ^ q ^ r ^ s == q ^ r ^ s ^ p,
{
}

/// MixColumns and InvMixColumns undo each other.
pub proof fn law_mix_state_inverse(s: Seq<u8>)
    requires
        s.len() == 16,
    ensures
        inv_mix_state(mix_state(s)) == s,
        mix_state(inv_mix_state(s)) == s,
{
    reveal(mix_state);
    reveal(inv_mix_state);
    assert forall|i: int| 0 <= i < 16 implies inv_mix_state(mix_state(s))[i] == s[i]
        && mix_state(inv_mix_state(s))[i] == s[i] by {
        lemma_mix_state_inverse_at(s, i);
    }
    assert(inv_mix_state(mix_state(s)) =~= s);
    assert(mix_state(inv_mix_state(s)) =~= s);
}

} // verus!
