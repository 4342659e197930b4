//! The cipher feedback mode of password protection, one bit at a time: every bit of the
//! text is masked by the top bit of an AES encryption of the 128 ciphertext bits before it.
use crate::aes::encrypt_block;
use crate::aes::key_expansion;
use crate::aes_model::block_encrypt;
use crate::aes_model::expand_key;
use crate::bits::bit_of;
use crate::bits::bits_of;
use crate::bits::byte_at;
use crate::bits::bytes_of;
use crate::bits::law_bit_of_digits;
use crate::bits::law_bits_of_bytes_of;
use crate::bits::law_bits_places;
use crate::bits::law_bytes_of_bits_of;
use crate::bits::lemma_byte_at_bits;
use crate::bits::lemma_same_bits;
use vstd::prelude::*;

verus! {

/// The last 128 bits of the ciphertext so far, with zeros before its start.
pub open spec fn window(cipher: Seq<bool>) -> Seq<bool> {
    (Seq::new(128, |i: int| false) + cipher).skip(cipher.len() as int)
}

/// The bit that masks the next bit after the ciphertext `cipher`.
pub open spec fn mask_bit(cipher: Seq<bool>, w: Seq<u8>) -> bool {
    bit_of(block_encrypt(bytes_of(window(cipher)), w)[0], 0)
}

/// The text bits behind the bits of a ciphertext.
pub open spec fn plain_bits(cipher: Seq<bool>, w: Seq<u8>) -> Seq<bool> {
    Seq::new(cipher.len(), |t: int| cipher[t] != mask_bit(cipher.take(t), w))
}

/// The ciphertext bits for the bits of a text.
pub open spec fn cipher_bits(plain: Seq<bool>, w: Seq<u8>) -> Seq<bool>
    decreases plain.len(),
{
    if plain.len() == 0 {
        Seq::empty()
    } else {
        let before = cipher_bits(plain.drop_last(), w);
        before.push(plain.last() != mask_bit(before, w))
    }
}

/// Decryption.
pub open spec fn cfb_decrypt(data: Seq<u8>, key: Seq<u8>) -> Seq<u8> {
    bytes_of(plain_bits(bits_of(data), expand_key(key)))
}

/// Encryption.
pub open spec fn cfb_encrypt(data: Seq<u8>, key: Seq<u8>) -> Seq<u8> {
    bytes_of(cipher_bits(bits_of(data), expand_key(key)))
}

/// What is encrypted of the start of a text is the start of what is encrypted.
proof fn lemma_cipher_bits_prefix(plain: Seq<bool>, w: Seq<u8>, t: int)
    requires
        0 <= t <= plain.len(),
    ensures
        cipher_bits(plain, w).len() == plain.len(),
        cipher_bits(plain, w).take(t) == cipher_bits(plain.take(t), w),
    decreases plain.len(),
{
    if plain.len() == 0 {
        assert(plain.take(t) =~= plain);
        assert(cipher_bits(plain, w).take(t) =~= cipher_bits(plain, w));
    } else if t == plain.len() {
        lemma_cipher_bits_prefix(plain.drop_last(), w, t - 1);
        assert(plain.take(t) =~= plain);
        assert(cipher_bits(plain, w).take(t) =~= cipher_bits(plain, w));
    } else {
        lemma_cipher_bits_prefix(plain.drop_last(), w, t);
        assert(plain.drop_last().take(t) =~= plain.take(t));
        assert(cipher_bits(plain, w).take(t) =~= cipher_bits(plain.drop_last(), w).take(t));
    }
}

proof fn lemma_plain_of_cipher_bits(plain: Seq<bool>, w: Seq<u8>)
    ensures
        plain_bits(cipher_bits(plain, w), w) == plain,
{
    let cipher = cipher_bits(plain, w);
    lemma_cipher_bits_prefix(plain, w, plain.len() as int);
    assert forall|t: int| 0 <= t < plain.len() implies #[trigger] plain_bits(cipher, w)[t]
        == plain[t] by {
        lemma_cipher_bits_prefix(plain, w, t);
        lemma_cipher_bits_prefix(plain, w, t + 1);
        assert(plain.take(t + 1).drop_last() =~= plain.take(t));
        assert(cipher[t] == cipher.take(t + 1)[t]);
        lemma_cipher_bits_prefix(plain.take(t), w, t);
    }
    assert(plain_bits(cipher, w) =~= plain);
}

proof fn lemma_cipher_of_plain_bits(cipher: Seq<bool>, w: Seq<u8>)
    ensures
        cipher_bits(plain_bits(cipher, w), w) == cipher,
    decreases cipher.len(),
{
    let plain = plain_bits(cipher, w);
    if cipher.len() == 0 {
        assert(cipher_bits(plain, w) =~= cipher);
    } else {
        let c = cipher.drop_last();
        lemma_cipher_of_plain_bits(c, w);
        assert(c =~= cipher.take(cipher.len() - 1));
        assert forall|t: int| 0 <= t < c.len() implies plain_bits(c, w)[t] == plain[t] by {
            assert(c.take(t) =~= cipher.take(t));
        }
        assert(plain.drop_last() =~= plain_bits(c, w));
        assert(cipher_bits(plain, w) =~= cipher);
    }
}

/// Decryption gives back what was encrypted, under every key.
pub proof fn law_cfb_decrypt_encrypt(data: Seq<u8>, key: Seq<u8>)
    ensures
        cfb_decrypt(cfb_encrypt(data, key), key) == data,
        cfb_encrypt(data, key).len() == data.len(),
{
    let w = expand_key(key);
    lemma_cipher_bits_prefix(bits_of(data), w, 0);
    law_bits_of_bytes_of(cipher_bits(bits_of(data), w));
    lemma_plain_of_cipher_bits(bits_of(data), w);
    law_bytes_of_bits_of(data);
}

/// Encryption gives back what was decrypted, under every key.
pub proof fn law_cfb_encrypt_decrypt(data: Seq<u8>, key: Seq<u8>)
    ensures
        cfb_encrypt(cfb_decrypt(data, key), key) == data,
        cfb_decrypt(data, key).len() == data.len(),
{
    let w = expand_key(key);
    law_bits_of_bytes_of(plain_bits(bits_of(data), w));
    lemma_cipher_of_plain_bits(bits_of(data), w);
    law_bytes_of_bits_of(data);
}

/// Every bit of the text is the bit of the ciphertext at its place, flipped where the AES
/// encryption under the key of the 128 ciphertext bits before that place has its top bit
/// set. `block` holds those 128 bits, with zeros for what would stand before the start.
pub proof fn law_cfb_decrypt_bit(data: Seq<u8>, key: Seq<u8>, i: int, j: int, block: Seq<u8>)
    requires
        0 <= i < data.len(),
        0 <= j < 8,
        block.len() == 16,
        forall|p: int, q: int|
            0 <= p < 16 && 0 <= q < 8 ==> #[trigger] bit_of(block[p], q) == {
                let v = 8 * i + j + 8 * p + q - 128;
                v >= 0 && bit_of(data[v / 8], v % 8)
            },
    ensures
        cfb_decrypt(data, key).len() == data.len(),
        bit_of(cfb_decrypt(data, key)[i], j) == (bit_of(data[i], j) != (block_encrypt(
            block,
            expand_key(key),
        )[0] >= 128)),
{
    let w = expand_key(key);
    let cipher = bits_of(data);
    let plain = plain_bits(cipher, w);
    let t = 8 * i + j;
    law_bits_places(data, plain, i, j);
    let before = window(cipher.take(t));
    assert forall|u: int| 0 <= u < 128 implies bits_of(block)[u] == before[u] by {
        assert(8 * (u / 8) + u % 8 == u);
        assert(bit_of(block[u / 8], u % 8) == {
            let v = 8 * i + j + 8 * (u / 8) + u % 8 - 128;
            v >= 0 && bit_of(data[v / 8], v % 8)
        });
        let v = t + u - 128;
        if v >= 0 {
            assert(cipher[v] == bit_of(data[v / 8], v % 8));
        }
    }
    assert(bits_of(block) =~= before);
    law_bytes_of_bits_of(block);
    law_bit_of_digits(block_encrypt(block, w)[0]);
}

/// The mask of a bit depends on the key and the 128 ciphertext bits before it alone: at two
/// places, in one ciphertext or in two, that have the same 128 bits before them, either both
/// bits are flipped or none.
pub proof fn law_cfb_decrypt_same_window(
    a: Seq<u8>,
    b: Seq<u8>,
    key: Seq<u8>,
    zeros: Seq<bool>,
    s: int,
    t: int,
)
    requires
        0 <= s < 8 * a.len(),
        0 <= t < 8 * b.len(),
        zeros == Seq::new(128, |u: int| false),
        (zeros + bits_of(a)).subrange(s, s + 128) == (zeros + bits_of(b)).subrange(t, t + 128),
    ensures
        (bits_of(cfb_decrypt(a, key))[s] != bits_of(a)[s]) == (bits_of(cfb_decrypt(b, key))[t]
            != bits_of(b)[t]),
{
    let w = expand_key(key);
    law_bits_of_bytes_of(plain_bits(bits_of(a), w));
    law_bits_of_bytes_of(plain_bits(bits_of(b), w));
    assert(window(bits_of(a).take(s)) =~= (zeros + bits_of(a)).subrange(s, s + 128));
    assert(window(bits_of(b).take(t)) =~= (zeros + bits_of(b)).subrange(t, t + 128));
}

/// What stands at the start of a ciphertext alone decides the start of the text.
pub proof fn law_cfb_decrypt_prefix(data: Seq<u8>, key: Seq<u8>, n: int)
    requires
        0 <= n <= data.len(),
    ensures
        cfb_decrypt(data, key).take(n) == cfb_decrypt(data.take(n), key),
{
    let w = expand_key(key);
    let all = bits_of(data);
    let part = bits_of(data.take(n));
    let p = plain_bits(all, w);
    let q = plain_bits(part, w);
    assert(part =~= all.take(8 * n));
    assert forall|t: int| 0 <= t < 8 * n implies p[t] == q[t] by {
        assert(part.take(t) =~= all.take(t));
    }
    assert forall|i: int| 0 <= i < n implies #[trigger] bytes_of(p)[i] == bytes_of(q)[i] by {
        assert forall|j: int| 0 <= j < 8 implies #[trigger] bit_of(byte_at(p, 8 * i), j) == bit_of(
            byte_at(q, 8 * i),
            j,
        ) by {
            lemma_byte_at_bits(p, 8 * i, j);
            lemma_byte_at_bits(q, 8 * i, j);
        }
        lemma_same_bits(byte_at(p, 8 * i), byte_at(q, 8 * i));
    }
    assert(cfb_decrypt(data, key).take(n) =~= cfb_decrypt(data.take(n), key));
}

/// The bits of a byte that is shifted up, with `carry` coming in from below.
proof fn lemma_shifted_byte(b: u8, carry: u8, r: u8, j: int)
    requires
        0 <= j < 8,
        carry <= 1,
        r == (b << 1) | carry,
    ensures
        bit_of(r, j) == if j < 7 {
            bit_of(b, j + 1)
        } else {
            carry == 1
        },
{
    let n = (7 - j) as u8;
    if j < 7 {
        let m = (6 - j) as u8;
        assert((((b << 1) | carry) >> n) & 1 == (b >> m) & 1) by (bit_vector)
            requires
                carry <= 1,
                n == m + 1,
                m <= 6,
        ;
    } else {
        assert((((b << 1) | carry) >> 0u8) & 1 == carry) by (bit_vector)
            requires
                carry <= 1,
        ;
    }
}

/// Shifts the 128 bits of the register up by one and puts `bit` below.
fn shift_register(register: &mut [u8; 16], bit: u8)
    requires
        bit <= 1,
    ensures
        bits_of(final(register)@) == bits_of(old(register)@).skip(1).push(bit == 1),
{
    let ghost s = register@;
    let mut i: usize = 0;
    while i < 15
        invariant
            i <= 15,
            s.len() == 16,
            forall|k: int| 0 <= k < i ==> #[trigger] register@[k] == (s[k] << 1) | (s[k + 1] >> 7),
            forall|k: int| i <= k < 16 ==> register@[k] == s[k],
        decreases 15 - i,
    {
        register[i] = (register[i] << 1) | (register[i + 1] >> 7);
        i = i + 1;
    }
    register[15] = (register[15] << 1) | bit;
    proof {
        let old_bits = bits_of(s);
        let new_bits = bits_of(register@);
        assert forall|t: int| 0 <= t < 128 implies new_bits[t] == old_bits.skip(1).push(
            bit == 1,
        )[t] by {
            let k = t / 8;
            let j = t % 8;
            assert(8 * k + j == t);
            if k < 15 {
                let c = s[k + 1];
                assert(c >> 7 <= 1 && (c >> 7) & 1 == c >> 7) by (bit_vector);
                lemma_shifted_byte(s[k], c >> 7, register@[k], j);
                if j == 7 {
                    assert((t + 1) / 8 == k + 1);
                    assert((t + 1) % 8 == 0);
                } else {
                    assert((t + 1) / 8 == k);
                    assert((t + 1) % 8 == j + 1);
                }
            } else {
                lemma_shifted_byte(s[15], bit, register@[15], j);
                if j < 7 {
                    assert((t + 1) / 8 == k);
                    assert((t + 1) % 8 == j + 1);
                }
            }
        }
        assert(new_bits =~= old_bits.skip(1).push(bit == 1));
    }
}

/// Flipping bit `n` of a byte where the top bit of `e` is set.
proof fn lemma_masked_byte(b: u8, e: u8, n: int, j: int)
    requires
        0 <= n < 8,
        0 <= j < 8,
    ensures
        bit_of(b ^ ((e & 0x80) >> (n as u8)), j) == if j == n {
            bit_of(b, j) != bit_of(e, 0)
        } else {
            bit_of(b, j)
        },
{
    let m = n as u8;
    let k = (7 - j) as u8;
    if j == n {
        assert((((b ^ ((e & 0x80) >> m)) >> k) & 1 == 1) == (((b >> k) & 1 == 1) != ((e >> 7u8) & 1
            == 1))) by (bit_vector)
            requires
                m + k == 7,
        ;
    } else {
        assert((((b ^ ((e & 0x80) >> m)) >> k) & 1 == 1) == ((b >> k) & 1 == 1)) by (bit_vector)
            requires
                m < 8,
                k < 8,
                m + k != 7,
        ;
    }
}

/// Decrypts what was encrypted bit by bit under `key`.
pub fn decrypt_aes_cfb_password(key: &[u8; 16], data: &[u8]) -> (r: Vec<u8>)
    ensures
        r@ == cfb_decrypt(data@, key@),
        r@.len() == data@.len(),
        forall|i: int, j: int, block: Seq<u8>|
            #![trigger bit_of(r@[i], j), block_encrypt(block, expand_key(key@))]
            0 <= i < data@.len() && 0 <= j < 8 && block.len() == 16 && (forall|p: int, q: int|
                0 <= p < 16 && 0 <= q < 8 ==> #[trigger] bit_of(block[p], q) == {
                    let v = 8 * i + j + 8 * p + q - 128;
                    v >= 0 && bit_of(data@[v / 8], v % 8)
                }) ==> bit_of(r@[i], j) == (bit_of(data@[i], j) != (block_encrypt(
                block,
                expand_key(key@),
            )[0] >= 128)),
{
    let expanded_key: Vec<u8> = key_expansion(key);
    let mut register: [u8; 16] = [0; 16];
    let mut final_data: Vec<u8> = Vec::with_capacity(data.len());
    let ghost w = expand_key(key@);
    let ghost cipher = bits_of(data@);
    let ghost plain = plain_bits(cipher, w);
    proof {
        assert(forall|t: int| 0 <= t < 8 ==> !(#[trigger] bit_of(0, t))) by {
            assert forall|t: int| 0 <= t < 8 implies !(#[trigger] bit_of(0, t)) by {
                let n = (7 - t) as u8;
                assert((0u8 >> n) & 1 == 0) by (bit_vector);
            }
        }
        assert(bits_of(register@) =~= window(cipher.take(0)));
    }
    let mut m: usize = 0;
    while m < data.len()
        invariant
            m <= data@.len(),
            expanded_key@ == w,
            w == expand_key(key@),
            w.len() == 176,
            cipher == bits_of(data@),
            plain == plain_bits(cipher, w),
            bits_of(register@) == window(cipher.take(8 * m)),
            final_data@.len() == m,
            forall|k: int| 0 <= k < m ==> #[trigger] final_data@[k] == byte_at(plain, 8 * k),
        decreases data@.len() - m,
    {
        let byte: u8 = data[m];
        let mut out: u8 = byte;
        let mut i: u8 = 0;
        while i < 8
            invariant
                i <= 8,
                m < data@.len(),
                byte == data@[m as int],
                expanded_key@ == w,
                w.len() == 176,
                cipher == bits_of(data@),
                plain == plain_bits(cipher, w),
                bits_of(register@) == window(cipher.take(8 * m + i)),
                forall|j: int|
                    0 <= j < 8 ==> #[trigger] bit_of(out, j) == if j < i {
                        plain[8 * m + j]
                    } else {
                        bit_of(byte, j)
                    },
            decreases 8 - i,
        {
            let ghost t = 8 * m + i;
            let enc: [u8; 16] = encrypt_block(&register, expanded_key.as_slice());
            proof {
                law_bytes_of_bits_of(register@);
                assert(register@ == bytes_of(window(cipher.take(t))));
                assert(t / 8 == m && t % 8 == i);
                assert(cipher[t] == bit_of(byte, i as int));
                assert(plain[t] == (bit_of(byte, i as int) != bit_of(enc@[0], 0)));
            }
            let bit_in: u8 = (byte >> (7 - i)) & 1;
            assert(bit_in <= 1) by {
                let n = (7 - i) as u8;
                assert((byte >> n) & 1 <= 1) by (bit_vector);
            }
            shift_register(&mut register, bit_in);
            proof {
                assert(window(cipher.take(t)).skip(1).push(cipher[t]) =~= window(
                    cipher.take(t + 1),
                ));
                assert forall|j: int| 0 <= j < 8 implies #[trigger] bit_of(
                    out ^ ((enc@[0] & 0x80) >> i),
                    j,
                ) == if j < i + 1 {
                    plain[8 * m + j]
                } else {
                    bit_of(byte, j)
                } by {
                    lemma_masked_byte(out, enc@[0], i as int, j);
                    assert(bit_of(out, j) == if j < i {
                        plain[8 * m + j]
                    } else {
                        bit_of(byte, j)
                    });
                }
            }
            out = out ^ ((enc[0] & 0x80) >> i);
            i = i + 1;
        }
        proof {
            assert forall|j: int| 0 <= j < 8 implies #[trigger] bit_of(out, j) == bit_of(
                byte_at(plain, 8 * m),
                j,
            ) by {
                lemma_byte_at_bits(plain, 8 * m, j);
            }
            lemma_same_bits(out, byte_at(plain, 8 * m));
        }
        final_data.push(out);
        m = m + 1;
    }
    assert(final_data@ =~= cfb_decrypt(data@, key@));
    proof {
        assert forall|i: int, j: int, block: Seq<u8>|
            #![trigger bit_of(final_data@[i], j), block_encrypt(block, expand_key(key@))]
            0 <= i < data@.len() && 0 <= j < 8 && block.len() == 16 && (forall|p: int, q: int|
                0 <= p < 16 && 0 <= q < 8 ==> #[trigger] bit_of(block[p], q) == {
                    let v = 8 * i + j + 8 * p + q - 128;
                    v >= 0 && bit_of(data@[v / 8], v % 8)
                }) implies bit_of(final_data@[i], j) == (bit_of(data@[i], j) != (block_encrypt(
            block,
            expand_key(key@),
        )[0] >= 128)) by {
            law_cfb_decrypt_bit(data@, key@, i, j, block);
        }
    }
    final_data
}

} // verus!
