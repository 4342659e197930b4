//! Bytes as sequences of bits, the highest bit of each byte first.
use vstd::prelude::*;

verus! {

/// Bit `j` of a byte, counted from the highest.
pub open spec fn bit_of(b: u8, j: int) -> bool {
    (b >> ((7 - j) as u8)) & 1 == 1
}

/// The bits of a sequence of bytes.
pub open spec fn bits_of(data: Seq<u8>) -> Seq<bool> {
    Seq::new(8 * data.len(), |t: int| bit_of(data[t / 8], t % 8))
}

/// The byte whose bits stand in `bits` from `at` on.
pub open spec fn byte_at(bits: Seq<bool>, at: int) -> u8 {
    (if bits[at] { 0x80u8 } else { 0 })
    | (if bits[at + 1] { 0x40u8 } else { 0 })
    | (if bits[at + 2] { 0x20u8 } else { 0 })
    | (if bits[at + 3] { 0x10u8 } else { 0 })
    | (if bits[at + 4] { 0x08u8 } else { 0 })
    | (if bits[at + 5] { 0x04u8 } else { 0 })
    | (if bits[at + 6] { 0x02u8 } else { 0 })
    | (if bits[at + 7] { 0x01u8 } else { 0 })
}

/// The bytes of a sequence of bits; bits past the last whole byte are left out.
pub open spec fn bytes_of(bits: Seq<bool>) -> Seq<u8> {
    Seq::new(bits.len() / 8, |i: int| byte_at(bits, 8 * i))
}

spec fn packed(
    b0: bool,
    b1: bool,
    b2: bool,
    b3: bool,
    b4: bool,
    b5: bool,
    b6: bool,
    b7: bool,
) -> u8 {
    (if b0 { 0x80u8 } else { 0 })
    | (if b1 { 0x40u8 } else { 0 })
    | (if b2 { 0x20u8 } else { 0 })
    | (if b3 { 0x10u8 } else { 0 })
    | (if b4 { 0x08u8 } else { 0 })
    | (if b5 { 0x04u8 } else { 0 })
    | (if b6 { 0x02u8 } else { 0 })
    | (if b7 { 0x01u8 } else { 0 })
}

proof fn lemma_packed_bits(
    b: u8,
    b0: bool,
    b1: bool,
    b2: bool,
    b3: bool,
    b4: bool,
    b5: bool,
    b6: bool,
    b7: bool,
)
    by (bit_vector)
    requires
        b == packed(b0, b1, b2, b3, b4, b5, b6, b7),
    ensures
        ((b >> 7u8) & 1 == 1) == b0,
        ((b >> 6u8) & 1 == 1) == b1,
        ((b >> 5u8) & 1 == 1) == b2,
        ((b >> 4u8) & 1 == 1) == b3,
        ((b >> 3u8) & 1 == 1) == b4,
        ((b >> 2u8) & 1 == 1) == b5,
        ((b >> 1u8) & 1 == 1) == b6,
        ((b >> 0u8) & 1 == 1) == b7,
{
}

proof fn lemma_bits_determine(a: u8, b: u8)
    by (bit_vector)
    requires
        ((a >> 7u8) & 1 == 1) == ((b >> 7u8) & 1 == 1),
        ((a >> 6u8) & 1 == 1) == ((b >> 6u8) & 1 == 1),
        ((a >> 5u8) & 1 == 1) == ((b >> 5u8) & 1 == 1),
        ((a >> 4u8) & 1 == 1) == ((b >> 4u8) & 1 == 1),
        ((a >> 3u8) & 1 == 1) == ((b >> 3u8) & 1 == 1),
        ((a >> 2u8) & 1 == 1) == ((b >> 2u8) & 1 == 1),
        ((a >> 1u8) & 1 == 1) == ((b >> 1u8) & 1 == 1),
        ((a >> 0u8) & 1 == 1) == ((b >> 0u8) & 1 == 1),
    ensures
        a == b,
{
}

/// A packed byte has the bits that it was packed from.
pub(crate) proof fn lemma_byte_at_bits(bits: Seq<bool>, at: int, j: int)
    requires
        0 <= j < 8,
    ensures
        bit_of(byte_at(bits, at), j) == bits[at + j],
{
    lemma_packed_bits(
        byte_at(bits, at),
        bits[at],
        bits[at + 1],
        bits[at + 2],
        bits[at + 3],
        bits[at + 4],
        bits[at + 5],
        bits[at + 6],
        bits[at + 7],
    );
    assert(j == 0 || j == 1 || j == 2 || j == 3 || j == 4 || j == 5 || j == 6 || j == 7);
}

/// A byte is determined by its bits.
pub(crate) proof fn lemma_same_bits(a: u8, b: u8)
    requires
        forall|j: int| 0 <= j < 8 ==> #[trigger] bit_of(a, j) == bit_of(b, j),
    ensures
        a == b,
{
    assert(bit_of(a, 0) == bit_of(b, 0));
    assert(bit_of(a, 1) == bit_of(b, 1));
    assert(bit_of(a, 2) == bit_of(b, 2));
    assert(bit_of(a, 3) == bit_of(b, 3));
    assert(bit_of(a, 4) == bit_of(b, 4));
    assert(bit_of(a, 5) == bit_of(b, 5));
    assert(bit_of(a, 6) == bit_of(b, 6));
    assert(bit_of(a, 7) == bit_of(b, 7));
    lemma_bits_determine(a, b);
}

/// The bits of a byte are its binary digits, the one of weight 128 first.
pub proof fn law_bit_of_digits(b: u8)
    ensures
        bit_of(b, 0) == (b / 128 == 1),
        bit_of(b, 1) == (b / 64 % 2 == 1),
        bit_of(b, 2) == (b / 32 % 2 == 1),
        bit_of(b, 3) == (b / 16 % 2 == 1),
        bit_of(b, 4) == (b / 8 % 2 == 1),
        bit_of(b, 5) == (b / 4 % 2 == 1),
        bit_of(b, 6) == (b / 2 % 2 == 1),
        bit_of(b, 7) == (b % 2 == 1),
{
    assert(((b >> 7u8) & 1 == 1) == (b / 128 == 1) && ((b >> 6u8) & 1 == 1) == (b / 64 % 2 == 1)
        && ((b >> 5u8) & 1 == 1) == (b / 32 % 2 == 1) && ((b >> 4u8) & 1 == 1) == (b / 16 % 2 == 1)
        && ((b >> 3u8) & 1 == 1) == (b / 8 % 2 == 1) && ((b >> 2u8) & 1 == 1) == (b / 4 % 2 == 1)
        && ((b >> 1u8) & 1 == 1) == (b / 2 % 2 == 1) && ((b >> 0u8) & 1 == 1) == (b % 2 == 1))
        by (bit_vector);
}

/// Where the bits stand: those of byte `i` from place `8 * i` on, in both directions.
pub proof fn law_bits_places(data: Seq<u8>, bits: Seq<bool>, i: int, j: int)
    requires
        0 <= j < 8,
    ensures
        bits_of(data).len() == 8 * data.len(),
        0 <= i < data.len() ==> bits_of(data)[8 * i + j] == bit_of(data[i], j),
        bytes_of(bits).len() == bits.len() / 8,
        0 <= i < bits.len() / 8 ==> bit_of(bytes_of(bits)[i], j) == bits[8 * i + j],
{
    assert((8 * i + j) / 8 == i);
    assert((8 * i + j) % 8 == j);
    lemma_byte_at_bits(bits, 8 * i, j);
}

/// Bytes come back from their bits.
pub proof fn law_bytes_of_bits_of(data: Seq<u8>)
    ensures
        bytes_of(bits_of(data)) == data,
{
    let bits = bits_of(data);
    assert forall|i: int| 0 <= i < data.len() implies byte_at(bits, 8 * i) == data[i] by {
        assert forall|j: int| 0 <= j < 8 implies #[trigger] bit_of(byte_at(bits, 8 * i), j)
            == bit_of(data[i], j) by {
            lemma_byte_at_bits(bits, 8 * i, j);
            assert((8 * i + j) / 8 == i);
            assert((8 * i + j) % 8 == j);
        }
        lemma_same_bits(byte_at(bits, 8 * i), data[i]);
    }
    assert(bytes_of(bits) =~= data);
}

/// Bits come back from the bytes that they make up.
pub proof fn law_bits_of_bytes_of(bits: Seq<bool>)
    requires
        bits.len() % 8 == 0,
    ensures
        bits_of(bytes_of(bits)) == bits,
{
    assert forall|t: int| 0 <= t < bits.len() implies bits_of(bytes_of(bits))[t] == bits[t] by {
        lemma_byte_at_bits(bits, 8 * (t / 8), t % 8);
        assert(8 * (t / 8) + t % 8 == t);
    }
    assert(bits_of(bytes_of(bits)) =~= bits);
}

} // verus!
