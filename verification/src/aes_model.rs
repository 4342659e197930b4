//! What AES-128 computes, and the laws that tie its two directions together.
//!
//! A state is a sequence of 16 bytes, column after column: byte `4 * c + r` stands in
//! column `c` and row `r`. An expanded key is a sequence of 176 bytes: eleven round keys of
//! 16 bytes each.
use crate::aes_mix::inv_mix_state;
use crate::aes_mix::law_mix_state_inverse;
use crate::aes_mix::mix_state;
use crate::gf::gf_mul;
use crate::gf::law_gf_mul_by_x;
use crate::gf::lemma_xor;
use crate::sbox::inv_sub_byte;
use crate::sbox::law_sub_byte_inverse;
use crate::sbox::sub_byte;
use vstd::prelude::*;

verus! {

/// Byte-wise XOR, as long as `a`.
pub open spec fn xor_bytes(a: Seq<u8>, b: Seq<u8>) -> Seq<u8> {
    Seq::new(a.len(), |i: int| a[i] ^ b[i])
}

/// SubBytes.
#[verifier::opaque]
pub open spec fn sub_state(s: Seq<u8>) -> Seq<u8> {
    Seq::new(s.len(), |i: int| sub_byte(s[i]))
}

/// InvSubBytes.
#[verifier::opaque]
pub open spec fn inv_sub_state(s: Seq<u8>) -> Seq<u8> {
    Seq::new(s.len(), |i: int| inv_sub_byte(s[i]))
}

/// ShiftRows: row `r` moves `r` columns to the left.
#[verifier::opaque]
pub open spec fn shift_state(s: Seq<u8>) -> Seq<u8> {
    Seq::new(16, |i: int| s[(i + 4 * (i % 4)) % 16])
}

/// InvShiftRows: row `r` moves `r` columns to the right.
#[verifier::opaque]
pub open spec fn inv_shift_state(s: Seq<u8>) -> Seq<u8> {
    Seq::new(16, |i: int| s[(i - 4 * (i % 4)) % 16])
}

/// The key of round `r`.
pub open spec fn round_key(w: Seq<u8>, r: int) -> Seq<u8> {
    w.subrange(16 * r, 16 * r + 16)
}

/// The state after the first round key and `n` main rounds of encryption.
pub open spec fn encrypt_rounds(block: Seq<u8>, w: Seq<u8>, n: nat) -> Seq<u8>
    decreases n,
{
    if n == 0 {
        xor_bytes(block, round_key(w, 0))
    } else {
        xor_bytes(
            mix_state(shift_state(sub_state(encrypt_rounds(block, w, (n - 1) as nat)))),
            round_key(w, n as int),
        )
    }
}

/// AES-128 encryption of one block under the expanded key `w`.
pub open spec fn block_encrypt(block: Seq<u8>, w: Seq<u8>) -> Seq<u8> {
    xor_bytes(shift_state(sub_state(encrypt_rounds(block, w, 9))), round_key(w, 10))
}

/// The state after the last round key and `n` main rounds of decryption.
pub open spec fn decrypt_rounds(block: Seq<u8>, w: Seq<u8>, n: nat) -> Seq<u8>
    decreases n,
{
    if n == 0 {
        xor_bytes(block, round_key(w, 10))
    } else {
        inv_mix_state(
            xor_bytes(
                inv_sub_state(inv_shift_state(decrypt_rounds(block, w, (n - 1) as nat))),
                round_key(w, 10 - n),
            ),
        )
    }
}

/// AES-128 decryption of one block under the expanded key `w`.
pub open spec fn block_decrypt(block: Seq<u8>, w: Seq<u8>) -> Seq<u8> {
    xor_bytes(inv_sub_state(inv_shift_state(decrypt_rounds(block, w, 9))), round_key(w, 0))
}

/// The constant of round `i`, from 1 on: `x^(i - 1)` in the field.
pub open spec fn round_constant(i: nat) -> u8
    decreases i,
{
    if i <= 1 {
        1
    } else {
        gf_mul(round_constant((i - 1) as nat), 2)
    }
}

/// What the key schedule adds to the word four places back, from the word before.
pub open spec fn schedule_step(prev: Seq<u8>, i: nat) -> Seq<u8> {
    if i % 4 == 0 {
        seq![
            sub_byte(prev[1]) ^ round_constant(i / 4),
            sub_byte(prev[2]),
            sub_byte(prev[3]),
            sub_byte(prev[0]),
        ]
    } else {
        prev
    }
}

/// Word `i` of the key schedule, four bytes.
pub open spec fn key_word(key: Seq<u8>, i: nat) -> Seq<u8>
    decreases i,
{
    if i < 4 {
        key.subrange(4 * i as int, 4 * i as int + 4)
    } else {
        xor_bytes(
            key_word(key, (i - 4) as nat),
            schedule_step(key_word(key, (i - 1) as nat), i),
        )
    }
}

/// The expanded key: the 44 words of the key schedule.
pub open spec fn expand_key(key: Seq<u8>) -> Seq<u8> {
    Seq::new(176, |j: int| key_word(key, (j / 4) as nat)[j % 4])
}

/// The 16 bytes of `data` from `16 * k` on, with zeros past the end.
pub open spec fn block_at(data: Seq<u8>, k: int) -> Seq<u8> {
    Seq::new(16, |j: int| if 16 * k + j < data.len() { data[16 * k + j] } else { 0 })
}

/// The number of blocks that cover `len` bytes.
pub open spec fn block_count(len: nat) -> nat {
    (len + 15) / 16
}

/// Decryption block by block; the last block is filled up with zeros and comes out whole.
pub open spec fn ecb_decrypt(data: Seq<u8>, key: Seq<u8>) -> Seq<u8> {
    Seq::new(
        16 * block_count(data.len()),
        |i: int| block_decrypt(block_at(data, i / 16), expand_key(key))[i % 16],
    )
}

/// Encryption block by block; the last block is filled up with zeros and comes out whole.
pub open spec fn ecb_encrypt(data: Seq<u8>, key: Seq<u8>) -> Seq<u8> {
    Seq::new(
        16 * block_count(data.len()),
        |i: int| block_encrypt(block_at(data, i / 16), expand_key(key))[i % 16],
    )
}

/// The steps on a state, byte by byte. The substitution replaces each byte where it stands.
/// The shift takes the byte of row `r` and column `c` from `r` columns further to the right,
/// round the end, and its inverse puts it back there. A key is added byte by byte.
pub proof fn law_state_steps(s: Seq<u8>, key: Seq<u8>, r: int, c: int)
    requires
        s.len() == 16,
        0 <= r < 4,
        0 <= c < 4,
    ensures
        sub_state(s).len() == 16,
        sub_state(s)[4 * c + r] == sub_byte(s[4 * c + r]),
        inv_sub_state(s).len() == 16,
        inv_sub_state(s)[4 * c + r] == inv_sub_byte(s[4 * c + r]),
        shift_state(s).len() == 16,
        shift_state(s)[4 * c + r] == s[4 * ((c + r) % 4) + r],
        inv_shift_state(s).len() == 16,
        inv_shift_state(s)[4 * ((c + r) % 4) + r] == s[4 * c + r],
        xor_bytes(s, key).len() == 16,
        xor_bytes(s, key)[4 * c + r] == s[4 * c + r] ^ key[4 * c + r],
{
    lemma_state_len(s);
    reveal(sub_state);
    reveal(inv_sub_state);
    reveal(shift_state);
    reveal(inv_shift_state);
    assert(c == 0 || c == 1 || c == 2 || c == 3);
    assert(r == 0 || r == 1 || r == 2 || r == 3);
}

/// Encryption of a block, as the chain of states that it passes through: the block with the
/// first 16 bytes of the expanded key added, then ten rounds, each of which substitutes,
/// shifts, mixes and adds the next 16 bytes of the key. The last round does not mix.
pub proof fn law_block_encrypt_chain(block: Seq<u8>, w: Seq<u8>, states: Seq<Seq<u8>>)
    requires
        block.len() == 16,
        w.len() >= 176,
        states.len() == 11,
        forall|n: int| 0 <= n <= 10 ==> (#[trigger] states[n]).len() == 16,
        forall|i: int| 0 <= i < 16 ==> #[trigger] states[0][i] == block[i] ^ w[i],
        forall|n: int, i: int|
            1 <= n <= 9 && 0 <= i < 16 ==> #[trigger] states[n][i] == mix_state(
                shift_state(sub_state(states[n - 1])),
            )[i] ^ w[16 * n + i],
        forall|i: int|
            0 <= i < 16 ==> #[trigger] states[10][i] == shift_state(sub_state(states[9]))[i]
                ^ w[160 + i],
    ensures
        block_encrypt(block, w) == states[10],
{
    assert(encrypt_rounds(block, w, 0) =~= states[0]);
    lemma_chain_step(block, w, states, 1);
    lemma_chain_step(block, w, states, 2);
    lemma_chain_step(block, w, states, 3);
    lemma_chain_step(block, w, states, 4);
    lemma_chain_step(block, w, states, 5);
    lemma_chain_step(block, w, states, 6);
    lemma_chain_step(block, w, states, 7);
    lemma_chain_step(block, w, states, 8);
    lemma_chain_step(block, w, states, 9);
    lemma_state_len(sub_state(states[9]));
    assert(block_encrypt(block, w) =~= states[10]);
}

proof fn lemma_chain_step(block: Seq<u8>, w: Seq<u8>, states: Seq<Seq<u8>>, n: int)
    requires
        1 <= n <= 9,
        w.len() >= 176,
        states[n].len() == 16,
        encrypt_rounds(block, w, (n - 1) as nat) == states[n - 1],
        forall|i: int|
            0 <= i < 16 ==> #[trigger] states[n][i] == mix_state(
                shift_state(sub_state(states[n - 1])),
            )[i] ^ w[16 * n + i],
    ensures
        encrypt_rounds(block, w, n as nat) == states[n],
{
    lemma_state_len(shift_state(sub_state(states[n - 1])));
    assert(encrypt_rounds(block, w, n as nat) =~= states[n]);
}

/// The round constants are the powers of `x`, from 1 on.
pub proof fn law_round_constants(i: int)
    requires
        1 <= i <= 10,
    ensures
        round_constant(i as nat) == seq![
            0x01u8,
            0x02,
            0x04,
            0x08,
            0x10,
            0x20,
            0x40,
            0x80,
            0x1b,
            0x36,
        ][i - 1],
{
    reveal_with_fuel(round_constant, 11);
    law_gf_mul_by_x(0x01, 0);
    law_gf_mul_by_x(0x02, 0);
    law_gf_mul_by_x(0x04, 0);
    law_gf_mul_by_x(0x08, 0);
    law_gf_mul_by_x(0x10, 0);
    law_gf_mul_by_x(0x20, 0);
    law_gf_mul_by_x(0x40, 0);
    law_gf_mul_by_x(0x80, 0);
    law_gf_mul_by_x(0x1b, 0);
    lemma_xor(0x1b, 0, 0);
}

/// The expanded key starts with the key, and each later word of four bytes is the word four
/// before it, with the word before it added. To every fourth word that word is added turned
/// by one byte and substituted, and the constant of the round is added to the first byte.
#[verifier::rlimit(50)]
pub proof fn law_expand_key_words(key: Seq<u8>, w: Seq<u8>, i: int, j: int, constant: u8)
    requires
        key.len() == 16,
        w == expand_key(key),
        4 <= i < 44,
        0 <= j < 4,
        i % 4 == 0 ==> constant == seq![
            0x01u8,
            0x02,
            0x04,
            0x08,
            0x10,
            0x20,
            0x40,
            0x80,
            0x1b,
            0x36,
        ][i / 4 - 1],
    ensures
        w.len() == 176,
        w.take(16) == key,
        i % 4 != 0 ==> w[4 * i + j] == w[4 * i + j - 16] ^ w[4 * i + j - 4],
        i % 4 == 0 && j == 0 ==> w[4 * i] == w[4 * i - 16] ^ (sub_byte(w[4 * i - 3]) ^ constant),
        i % 4 == 0 && j == 1 ==> w[4 * i + 1] == w[4 * i - 15] ^ sub_byte(w[4 * i - 2]),
        i % 4 == 0 && j == 2 ==> w[4 * i + 2] == w[4 * i - 14] ^ sub_byte(w[4 * i - 1]),
        i % 4 == 0 && j == 3 ==> w[4 * i + 3] == w[4 * i - 13] ^ sub_byte(w[4 * i - 4]),
{
    assert forall|m: int| 0 <= m < 16 implies w[m] == key[m] by {
        assert(w[m] == key_word(key, (m / 4) as nat)[m % 4]);
        assert(4 * (m / 4) + m % 4 == m);
    }
    assert(w.take(16) =~= key);
    let prev = key_word(key, (i - 1) as nat);
    let old_word = key_word(key, (i - 4) as nat);
    lemma_word_lens(key, (i - 1) as nat);
    lemma_word_lens(key, (i - 4) as nat);
    assert forall|k: int| 0 <= k < 4 implies w[4 * i - 4 + k] == #[trigger] prev[k] && w[4 * i - 16
        + k] == old_word[k] by {
        assert((4 * i - 4 + k) / 4 == i - 1 && (4 * i - 4 + k) % 4 == k);
        assert((4 * i - 16 + k) / 4 == i - 4 && (4 * i - 16 + k) % 4 == k);
    }
    assert((4 * i + j) / 4 == i && (4 * i + j) % 4 == j);
    assert(w[4 * i + j] == old_word[j] ^ schedule_step(prev, i as nat)[j]);
    assert(w[4 * i - 16 + j] == old_word[j] && w[4 * i - 4 + j] == prev[j]);
    assert(w[4 * i - 4 + 0] == prev[0] && w[4 * i - 4 + 1] == prev[1] && w[4 * i - 4 + 2] == prev[2]
        && w[4 * i - 4 + 3] == prev[3]);
    if i % 4 == 0 {
        law_round_constants(i / 4);
    }
}

pub(crate) proof fn lemma_word_lens(key: Seq<u8>, i: nat)
    requires
        key.len() == 16,
    ensures
        key_word(key, i).len() == 4,
    decreases i,
{
    if i >= 4 {
        lemma_word_lens(key, (i - 4) as nat);
    }
}

/// What decrypts block by block has the length of the data, rounded up to whole blocks, and
/// at each block what that block decrypts to on its own. `block` holds the bytes of the data
/// from `16 * k` on, with zeros past the end.
pub proof fn law_ecb_decrypt_blocks(data: Seq<u8>, key: Seq<u8>, k: int, block: Seq<u8>)
    requires
        0 <= 16 * k < data.len(),
        block.len() == 16,
        forall|j: int|
            0 <= j < 16 ==> #[trigger] block[j] == if 16 * k + j < data.len() {
                data[16 * k + j]
            } else {
                0
            },
    ensures
        ecb_decrypt(data, key).len() % 16 == 0,
        data.len() <= ecb_decrypt(data, key).len() < data.len() + 16,
        ecb_decrypt(data, key).subrange(16 * k, 16 * k + 16) == block_decrypt(
            block,
            expand_key(key),
        ),
{
    assert(block_at(data, k) =~= block);
    lemma_state_len(inv_shift_state(decrypt_rounds(block, expand_key(key), 9)));
    lemma_state_len(decrypt_rounds(block, expand_key(key), 9));
    assert forall|j: int| 0 <= j < 16 implies ecb_decrypt(data, key)[16 * k + j] == block_decrypt(
        block,
        expand_key(key),
    )[j] by {
        assert((16 * k + j) / 16 == k && (16 * k + j) % 16 == j);
    }
    assert(ecb_decrypt(data, key).subrange(16 * k, 16 * k + 16) =~= block_decrypt(
        block,
        expand_key(key),
    ));
}

/// Adding the same bytes twice changes nothing.
pub proof fn law_xor_bytes_involution(a: Seq<u8>, b: Seq<u8>)
    ensures
        xor_bytes(xor_bytes(a, b), b) == a,
{
    assert forall|i: int| 0 <= i < a.len() implies (a[i] ^ b[i]) ^ b[i] == a[i] by {
        lemma_xor(a[i], b[i], 0);
    }
    assert(xor_bytes(xor_bytes(a, b), b) =~= a);
}

/// SubBytes and InvSubBytes undo each other.
pub proof fn law_sub_state_inverse(s: Seq<u8>)
    ensures
        inv_sub_state(sub_state(s)) == s,
        sub_state(inv_sub_state(s)) == s,
{
    reveal(sub_state);
    reveal(inv_sub_state);
    assert forall|i: int| 0 <= i < s.len() implies inv_sub_byte(sub_byte(#[trigger] s[i])) == s[i]
        && sub_byte(inv_sub_byte(s[i])) == s[i] by {
        law_sub_byte_inverse(s[i]);
    }
    assert(inv_sub_state(sub_state(s)) =~= s);
    assert(sub_state(inv_sub_state(s)) =~= s);
}

proof fn lemma_shift_index(i: int)
    requires
        0 <= i < 16,
    ensures
        ({
            let j = (i - 4 * (i % 4)) % 16;
            0 <= j < 16 && (j + 4 * (j % 4)) % 16 == i
        }),
        ({
            let j = (i + 4 * (i % 4)) % 16;
            0 <= j < 16 && (j - 4 * (j % 4)) % 16 == i
        }),
{
    if i < 4 {
        assert(i == 0 || i == 1 || i == 2 || i == 3);
    } else if i < 8 {
        assert(i == 4 || i == 5 || i == 6 || i == 7);
    } else if i < 12 {
        assert(i == 8 || i == 9 || i == 10 || i == 11);
    } else {
        assert(i == 12 || i == 13 || i == 14 || i == 15);
    }
}

/// ShiftRows and InvShiftRows undo each other.
#[verifier::rlimit(40)]
pub proof fn law_shift_state_inverse(s: Seq<u8>)
    requires
        s.len() == 16,
    ensures
        inv_shift_state(shift_state(s)) == s,
        shift_state(inv_shift_state(s)) == s,
{
    reveal(shift_state);
    reveal(inv_shift_state);
    let t = shift_state(s);
    let u = inv_shift_state(s);
    assert forall|i: int| 0 <= i < 16 implies #[trigger] t[(i - 4 * (i % 4)) % 16] == s[i]
        && u[(i + 4 * (i % 4)) % 16] == s[i] by {
        lemma_shift_index(i);
    }
    assert(inv_shift_state(t) =~= s);
    assert forall|i: int| 0 <= i < 16 implies shift_state(u)[i] == s[i] by {
        assert(t[(i - 4 * (i % 4)) % 16] == s[i]);
    }
    assert(shift_state(u) =~= s);
}

proof fn lemma_state_len(s: Seq<u8>)
    ensures
        sub_state(s).len() == s.len(),
        inv_sub_state(s).len() == s.len(),
        shift_state(s).len() == 16,
        inv_shift_state(s).len() == 16,
        mix_state(s).len() == 16,
        inv_mix_state(s).len() == 16,
{
    reveal(sub_state);
    reveal(inv_sub_state);
    reveal(shift_state);
    reveal(inv_shift_state);
    reveal(mix_state);
    reveal(inv_mix_state);
}

proof fn lemma_rounds_len(block: Seq<u8>, w: Seq<u8>, n: nat)
    requires
        block.len() == 16,
        w.len() >= 176,
        n <= 9,
    ensures
        encrypt_rounds(block, w, n).len() == 16,
        decrypt_rounds(block, w, n).len() == 16,
{
    if n > 0 {
        let e = shift_state(sub_state(encrypt_rounds(block, w, (n - 1) as nat)));
        lemma_state_len(e);
        let d = inv_sub_state(inv_shift_state(decrypt_rounds(block, w, (n - 1) as nat)));
        lemma_state_len(xor_bytes(d, round_key(w, 10 - n)));
    }
}

/// Undoing rounds of an encrypted block leads back to where the round began.
proof fn lemma_decrypt_follows_encrypt(block: Seq<u8>, w: Seq<u8>, n: nat)
    requires
        block.len() == 16,
        w.len() >= 176,
        n <= 9,
    ensures
        decrypt_rounds(block_encrypt(block, w), w, n) == shift_state(
            sub_state(encrypt_rounds(block, w, (9 - n) as nat)),
        ),
    decreases n,
{
    if n == 0 {
        law_xor_bytes_involution(
            shift_state(sub_state(encrypt_rounds(block, w, 9))),
            round_key(w, 10),
        );
    } else {
        lemma_decrypt_follows_encrypt(block, w, (n - 1) as nat);
        let before = encrypt_rounds(block, w, (9 - n) as nat);
        let after = encrypt_rounds(block, w, (10 - n) as nat);
        lemma_rounds_len(block, w, (9 - n) as nat);
        lemma_rounds_len(block, w, (10 - n) as nat);
        lemma_state_len(after);
        lemma_state_len(sub_state(before));
        law_shift_state_inverse(sub_state(after));
        law_sub_state_inverse(after);
        let mixed = mix_state(shift_state(sub_state(before)));
        assert(after == xor_bytes(mixed, round_key(w, 10 - n)));
        law_xor_bytes_involution(mixed, round_key(w, 10 - n));
        law_mix_state_inverse(shift_state(sub_state(before)));
    }
}

/// Decrypting an encrypted block gives the block back, under every key.
pub proof fn law_block_decrypt_encrypt(block: Seq<u8>, w: Seq<u8>)
    requires
        block.len() == 16,
        w.len() >= 176,
    ensures
        block_decrypt(block_encrypt(block, w), w) == block,
{
    lemma_decrypt_follows_encrypt(block, w, 9);
    let first = encrypt_rounds(block, w, 0);
    lemma_state_len(first);
    law_shift_state_inverse(sub_state(first));
    law_sub_state_inverse(first);
    law_xor_bytes_involution(block, round_key(w, 0));
}

/// Redoing rounds of a decrypted block leads back to where the round began.
proof fn lemma_encrypt_follows_decrypt(block: Seq<u8>, w: Seq<u8>, n: nat)
    requires
        block.len() == 16,
        w.len() >= 176,
        n <= 9,
    ensures
        encrypt_rounds(block_decrypt(block, w), w, n) == inv_sub_state(
            inv_shift_state(decrypt_rounds(block, w, (9 - n) as nat)),
        ),
    decreases n,
{
    if n == 0 {
        law_xor_bytes_involution(
            inv_sub_state(inv_shift_state(decrypt_rounds(block, w, 9))),
            round_key(w, 0),
        );
    } else {
        lemma_encrypt_follows_decrypt(block, w, (n - 1) as nat);
        let before = decrypt_rounds(block, w, (9 - n) as nat);
        let after = decrypt_rounds(block, w, (10 - n) as nat);
        lemma_rounds_len(block, w, (9 - n) as nat);
        lemma_rounds_len(block, w, (10 - n) as nat);
        lemma_state_len(inv_shift_state(before));
        lemma_state_len(before);
        law_sub_state_inverse(inv_shift_state(after));
        law_shift_state_inverse(after);
        let keyed = xor_bytes(inv_sub_state(inv_shift_state(before)), round_key(w, n as int));
        assert(after == inv_mix_state(keyed));
        law_mix_state_inverse(keyed);
        law_xor_bytes_involution(inv_sub_state(inv_shift_state(before)), round_key(w, n as int));
    }
}

/// Encrypting a decrypted block gives the block back, under every key.
pub proof fn law_block_encrypt_decrypt(block: Seq<u8>, w: Seq<u8>)
    requires
        block.len() == 16,
        w.len() >= 176,
    ensures
        block_encrypt(block_decrypt(block, w), w) == block,
{
    lemma_encrypt_follows_decrypt(block, w, 9);
    let first = decrypt_rounds(block, w, 0);
    law_sub_state_inverse(inv_shift_state(first));
    law_shift_state_inverse(first);
    law_xor_bytes_involution(block, round_key(w, 10));
}

/// Block-by-block decryption gives back what was encrypted block by block, under every
/// key, for whole blocks; a last block that is not whole comes back filled up with zeros.
pub proof fn law_ecb_decrypt_encrypt(data: Seq<u8>, key: Seq<u8>)
    ensures
        ecb_decrypt(ecb_encrypt(data, key), key).len() == 16 * block_count(data.len()),
        ecb_decrypt(ecb_encrypt(data, key), key).take(data.len() as int) == data,
        forall|i: int|
            data.len() <= i < 16 * block_count(data.len()) ==> #[trigger] ecb_decrypt(
                ecb_encrypt(data, key),
                key,
            )[i] == 0,
        data.len() % 16 == 0 ==> ecb_decrypt(ecb_encrypt(data, key), key) == data,
{
    let w = expand_key(key);
    let enc = ecb_encrypt(data, key);
    let dec = ecb_decrypt(enc, key);
    let n = block_count(data.len());
    assert(enc.len() == 16 * n);
    assert(block_count(enc.len()) == n);
    assert forall|i: int| 0 <= i < 16 * n implies #[trigger] dec[i] == block_at(data, i / 16)[i
        % 16] by {
        let k = i / 16;
        let block = block_at(data, k);
        lemma_state_len(sub_state(encrypt_rounds(block, w, 9)));
        assert forall|j: int| 0 <= j < 16 implies #[trigger] block_at(enc, k)[j] == block_encrypt(
            block,
            w,
        )[j] by {
            assert((16 * k + j) / 16 == k);
            assert((16 * k + j) % 16 == j);
            assert(16 * k + j < 16 * n);
        }
        assert(block_at(enc, k) =~= block_encrypt(block, w));
        law_block_decrypt_encrypt(block, w);
    }
    assert(data.len() <= 16 * n);
    assert forall|i: int| 0 <= i < data.len() implies dec[i] == data[i] by {
        assert(16 * (i / 16) + i % 16 == i);
    }
    assert forall|i: int| data.len() <= i < 16 * n implies #[trigger] dec[i] == 0 by {
        assert(16 * (i / 16) + i % 16 == i);
    }
    assert(dec.take(data.len() as int) =~= data);
    if data.len() % 16 == 0 {
        assert(dec =~= data);
    }
}

} // verus!
