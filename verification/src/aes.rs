//! AES-128: the steps on the state, the key schedule, one block, and block by block.
use crate::aes_mix;
use crate::aes_model;
use crate::gf::gf_multiply;
use crate::sbox::inv_substitute;
use crate::sbox::substitute;
use vstd::prelude::*;

verus! {

/// The round constants of the key schedule, from round 1 on.
pub const RCON: [u8; 10] = [0x01, 0x02, 0x04, 0x08, 0x10, 0x20, 0x40, 0x80, 0x1b, 0x36];

/// Replaces every byte of the state by its place in the substitution box.
pub fn sub_bytes(state: &mut [u8; 16])
    ensures
        final(state)@ == aes_model::sub_state(old(state)@),
{
    let ghost s = state@;
    let mut i: usize = 0;
    while i < 16
        invariant
            i <= 16,
            s.len() == 16,
            forall|j: int| 0 <= j < i ==> state@[j] == crate::sbox::sub_byte(s[j]),
            forall|j: int| i <= j < 16 ==> state@[j] == s[j],
        decreases 16 - i,
    {
        state[i] = substitute(state[i]);
        i = i + 1;
    }
    proof {
        reveal(aes_model::sub_state);
        assert(state@ =~= aes_model::sub_state(s));
    }
}

/// Undoes [`sub_bytes`].
pub fn inv_sub_bytes(state: &mut [u8; 16])
    ensures
        final(state)@ == aes_model::inv_sub_state(old(state)@),
{
    let ghost s = state@;
    let mut i: usize = 0;
    while i < 16
        invariant
            i <= 16,
            s.len() == 16,
            forall|j: int| 0 <= j < i ==> state@[j] == crate::sbox::inv_sub_byte(s[j]),
            forall|j: int| i <= j < 16 ==> state@[j] == s[j],
        decreases 16 - i,
    {
        state[i] = inv_substitute(state[i]);
        i = i + 1;
    }
    proof {
        reveal(aes_model::inv_sub_state);
        assert(state@ =~= aes_model::inv_sub_state(s));
    }
}

/// Moves row `r` of the state `r` columns to the left.
pub fn shift_rows(state: &mut [u8; 16])
    ensures
        final(state)@ == aes_model::shift_state(old(state)@),
{
    let s: [u8; 16] = *state;
    *state = [
        s[0], s[5], s[10], s[15], s[4], s[9], s[14], s[3],
        s[8], s[13], s[2], s[7], s[12], s[1], s[6], s[11],
    ];
    proof {
        reveal(aes_model::shift_state);
        assert(state@ =~= aes_model::shift_state(s@));
    }
}

/// Moves row `r` of the state `r` columns to the right.
pub fn inv_shift_rows(state: &mut [u8; 16])
    ensures
        final(state)@ == aes_model::inv_shift_state(old(state)@),
{
    let s: [u8; 16] = *state;
    *state = [
        s[0], s[13], s[10], s[7], s[4], s[1], s[14], s[11],
        s[8], s[5], s[2], s[15], s[12], s[9], s[6], s[3],
    ];
    proof {
        reveal(aes_model::inv_shift_state);
        assert(state@ =~= aes_model::inv_shift_state(s@));
    }
}

/// Adds a round key to the state: the first 16 bytes of `round_key`.
pub fn add_round_key(state: &mut [u8; 16], round_key: &[u8])
    requires
        round_key@.len() >= 16,
    ensures
        final(state)@ == aes_model::xor_bytes(old(state)@, round_key@),
{
    let ghost s = state@;
    let mut i: usize = 0;
    while i < 16
        invariant
            i <= 16,
            s.len() == 16,
            round_key@.len() >= 16,
            forall|j: int| 0 <= j < i ==> state@[j] == s[j] ^ round_key@[j],
            forall|j: int| i <= j < 16 ==> state@[j] == s[j],
        decreases 16 - i,
    {
        state[i] = state[i] ^ round_key[i];
        i = i + 1;
    }
    assert(state@ =~= aes_model::xor_bytes(s, round_key@));
}

/// The bytes of column `c`, as the columns of the model name them.
proof fn lemma_column(s: Seq<u8>, c: int)
    requires
        0 <= c < 4,
    ensures
        forall|r: int, k: int|
            0 <= r < 4 && 0 <= k < 4 ==> #[trigger] aes_mix::below(s, 4 * c + r, k) == s[4 * c + (r
                + k) % 4],
{
    assert forall|r: int, k: int| 0 <= r < 4 && 0 <= k < 4 implies #[trigger] aes_mix::below(
        s,
        4 * c + r,
        k,
    ) == s[4 * c + (r + k) % 4] by {
        assert((4 * c + r) / 4 == c);
        assert((4 * c + r + k) % 4 == (r + k) % 4);
    }
}

/// Multiplies every column of the state by the matrix of the cipher.
pub fn mix_columns(state: &mut [u8; 16])
    ensures
        final(state)@ == aes_mix::mix_state(old(state)@),
{
    let s: [u8; 16] = *state;
    let mut c: usize = 0;
    while c < 4
        invariant
            c <= 4,
            s@.len() == 16,
            forall|j: int|
                0 <= j < 4 * c ==> #[trigger] state@[j] == aes_mix::mix_byte(
                    aes_mix::below(s@, j, 0),
                    aes_mix::below(s@, j, 1),
                    aes_mix::below(s@, j, 2),
                    aes_mix::below(s@, j, 3),
                ),
        decreases 4 - c,
    {
        let i: usize = 4 * c;
        let (a, b, d, e) = (s[i], s[i + 1], s[i + 2], s[i + 3]);
        state[i] = gf_multiply(0x02, a) ^ gf_multiply(0x03, b) ^ d ^ e;
        state[i + 1] = gf_multiply(0x02, b) ^ gf_multiply(0x03, d) ^ e ^ a;
        state[i + 2] = gf_multiply(0x02, d) ^ gf_multiply(0x03, e) ^ a ^ b;
        state[i + 3] = gf_multiply(0x02, e) ^ gf_multiply(0x03, a) ^ b ^ d;
        proof {
            lemma_column(s@, c as int);
            assert forall|j: int| 4 * c <= j < 4 * c + 4 implies #[trigger] state@[j]
                == aes_mix::mix_byte(
                aes_mix::below(s@, j, 0),
                aes_mix::below(s@, j, 1),
                aes_mix::below(s@, j, 2),
                aes_mix::below(s@, j, 3),
            ) by {
                let r = j - 4 * c;
                assert(r == 0 || r == 1 || r == 2 || r == 3);
                assert(aes_mix::below(s@, 4 * c + r, 0) == s@[4 * c + (r + 0) % 4]);
            }
        }
        c = c + 1;
    }
    proof {
        reveal(aes_mix::mix_state);
        assert(state@ =~= aes_mix::mix_state(s@));
    }
}

/// Undoes [`mix_columns`].
pub fn inv_mix_columns(state: &mut [u8; 16])
    ensures
        final(state)@ == aes_mix::inv_mix_state(old(state)@),
{
    let s: [u8; 16] = *state;
    let mut c: usize = 0;
    while c < 4
        invariant
            c <= 4,
            s@.len() == 16,
            forall|j: int|
                0 <= j < 4 * c ==> #[trigger] state@[j] == aes_mix::inv_mix_byte(
                    aes_mix::below(s@, j, 0),
                    aes_mix::below(s@, j, 1),
                    aes_mix::below(s@, j, 2),
                    aes_mix::below(s@, j, 3),
                ),
        decreases 4 - c,
    {
        let i: usize = 4 * c;
        let (a, b, d, e) = (s[i], s[i + 1], s[i + 2], s[i + 3]);
        state[i] = gf_multiply(0x0e, a) ^ gf_multiply(0x0b, b) ^ gf_multiply(0x0d, d)
            ^ gf_multiply(0x09, e);
        state[i + 1] = gf_multiply(0x0e, b) ^ gf_multiply(0x0b, d) ^ gf_multiply(0x0d, e)
            ^ gf_multiply(0x09, a);
        state[i + 2] = gf_multiply(0x0e, d) ^ gf_multiply(0x0b, e) ^ gf_multiply(0x0d, a)
            ^ gf_multiply(0x09, b);
        state[i + 3] = gf_multiply(0x0e, e) ^ gf_multiply(0x0b, a) ^ gf_multiply(0x0d, b)
            ^ gf_multiply(0x09, d);
        proof {
            lemma_column(s@, c as int);
            assert forall|j: int| 4 * c <= j < 4 * c + 4 implies #[trigger] state@[j]
                == aes_mix::inv_mix_byte(
                aes_mix::below(s@, j, 0),
                aes_mix::below(s@, j, 1),
                aes_mix::below(s@, j, 2),
                aes_mix::below(s@, j, 3),
            ) by {
                let r = j - 4 * c;
                assert(r == 0 || r == 1 || r == 2 || r == 3);
                assert(aes_mix::below(s@, 4 * c + r, 0) == s@[4 * c + (r + 0) % 4]);
            }
        }
        c = c + 1;
    }
    proof {
        reveal(aes_mix::inv_mix_state);
        assert(state@ =~= aes_mix::inv_mix_state(s@));
    }
}

proof fn lemma_rcon(i: int)
    requires
        0 <= i < 10,
    ensures
        RCON@[i] == aes_model::round_constant((i + 1) as nat),
{
    aes_model::law_round_constants(i + 1);
}

/// A word of the key schedule has four bytes.
proof fn lemma_key_word_len(key: Seq<u8>, i: nat)
    requires
        key.len() == 16,
    ensures
        aes_model::key_word(key, i).len() == 4,
{
    aes_model::lemma_word_lens(key, i);
}

/// The AES-128 key schedule: expands a key to eleven round keys, 176 bytes.
pub fn key_expansion(key: &[u8; 16]) -> (w: Vec<u8>)
    ensures
        w@ == aes_model::expand_key(key@),
        w@.len() == 176,
{
    let mut w: Vec<u8> = Vec::new();
    let mut n: usize = 0;
    while n < 16
        invariant
            n <= 16,
            w@ =~= key@.take(n as int),
            key@.len() == 16,
        decreases 16 - n,
    {
        w.push(key[n]);
        n = n + 1;
    }
    proof {
        assert forall|j: int| 0 <= j < 16 implies w@[j] == #[trigger] aes_model::key_word(
            key@,
            (j / 4) as nat,
        )[j % 4] by {
            assert(4 * (j / 4) + j % 4 == j);
        }
    }
    let mut i: usize = 4;
    while i < 44
        invariant
            4 <= i <= 44,
            key@.len() == 16,
            w@.len() == 4 * i,
            forall|j: int|
                0 <= j < 4 * i ==> w@[j] == #[trigger] aes_model::key_word(key@, (j / 4) as nat)[j
                    % 4],
        decreases 44 - i,
    {
        let start: usize = 4 * (i - 1);
        let mut temp: [u8; 4] = [w[start], w[start + 1], w[start + 2], w[start + 3]];
        let ghost prev = aes_model::key_word(key@, (i - 1) as nat);
        let ghost old_word = aes_model::key_word(key@, (i - 4) as nat);
        proof {
            lemma_key_word_len(key@, (i - 1) as nat);
            lemma_key_word_len(key@, (i - 4) as nat);
            assert forall|k: int| 0 <= k < 4 implies w@[start + k] == #[trigger] prev[k] by {
                assert((start + k) / 4 == i - 1);
                assert((start + k) % 4 == k);
            }
            assert(temp@ =~= prev);
        }
        if i % 4 == 0 {
            proof {
                lemma_rcon(i / 4 - 1);
            }
            temp = [
                substitute(temp[1]) ^ RCON[i / 4 - 1],
                substitute(temp[2]),
                substitute(temp[3]),
                substitute(temp[0]),
            ];
        }
        assert(temp@ =~= aes_model::schedule_step(prev, i as nat));
        let back: usize = 4 * (i - 4);
        let ghost before = w@;
        let mut j: usize = 0;
        while j < 4
            invariant
                4 <= i < 44,
                j <= 4,
                back == 4 * (i - 4),
                temp@.len() == 4,
                w@.len() == 4 * i + j,
                before.len() == 4 * i,
                forall|k: int| 0 <= k < 4 * i ==> w@[k] == before[k],
                forall|k: int| 0 <= k < j ==> #[trigger] w@[4 * i + k] == before[back + k] ^ temp@[k],
            decreases 4 - j,
        {
            let b: u8 = w[back + j] ^ temp[j];
            w.push(b);
            j = j + 1;
        }
        proof {
            let word = aes_model::key_word(key@, i as nat);
            assert(word == aes_model::xor_bytes(
                old_word,
                aes_model::schedule_step(prev, i as nat),
            ));
            assert forall|m: int| 0 <= m < 4 * (i + 1) implies w@[m]
                == #[trigger] aes_model::key_word(key@, (m / 4) as nat)[m % 4] by {
                if m < 4 * i {
                    assert(w@[m] == before[m]);
                } else {
                    let k = m - 4 * i;
                    assert(m / 4 == i);
                    assert(m % 4 == k);
                    assert((back + k) / 4 == i - 4);
                    assert((back + k) % 4 == k);
                    assert(before[back + k] == old_word[k]);
                    assert(w@[4 * i + k] == before[back + k] ^ temp@[k]);
                }
            }
        }
        i = i + 1;
    }
    assert(w@ =~= aes_model::expand_key(key@));
    w
}

/// Encrypts one block under an expanded key.
pub fn encrypt_block(block: &[u8; 16], expanded_key: &[u8]) -> (r: [u8; 16])
    requires
        expanded_key@.len() >= 176,
    ensures
        r@ == aes_model::block_encrypt(block@, expanded_key@),
{
    let mut state: [u8; 16] = *block;
    add_round_key(&mut state, &expanded_key[0..16]);
    let mut round: usize = 1;
    while round < 10
        invariant
            1 <= round <= 10,
            expanded_key@.len() >= 176,
            state@ == aes_model::encrypt_rounds(block@, expanded_key@, (round - 1) as nat),
        decreases 10 - round,
    {
        sub_bytes(&mut state);
        shift_rows(&mut state);
        mix_columns(&mut state);
        add_round_key(&mut state, &expanded_key[16 * round..16 * round + 16]);
        round = round + 1;
    }
    sub_bytes(&mut state);
    shift_rows(&mut state);
    add_round_key(&mut state, &expanded_key[160..176]);
    state
}

/// Decrypts one block under an expanded key.
pub fn decrypt_block(block: &[u8; 16], expanded_key: &[u8]) -> (r: [u8; 16])
    requires
        expanded_key@.len() >= 176,
    ensures
        r@ == aes_model::block_decrypt(block@, expanded_key@),
{
    let mut state: [u8; 16] = *block;
    add_round_key(&mut state, &expanded_key[160..176]);
    let mut round: usize = 9;
    while round > 0
        invariant
            round <= 9,
            expanded_key@.len() >= 176,
            state@ == aes_model::decrypt_rounds(block@, expanded_key@, (9 - round) as nat),
        decreases round,
    {
        inv_shift_rows(&mut state);
        inv_sub_bytes(&mut state);
        add_round_key(&mut state, &expanded_key[16 * round..16 * round + 16]);
        inv_mix_columns(&mut state);
        round = round - 1;
    }
    inv_shift_rows(&mut state);
    inv_sub_bytes(&mut state);
    add_round_key(&mut state, &expanded_key[0..16]);
    state
}

/// Copies up to 16 bytes of `data` from `start` on into a block of zeros.
pub(crate) fn load_block(data: &[u8], start: usize) -> (block: [u8; 16])
    requires
        start <= data@.len(),
    ensures
        forall|j: int|
            0 <= j < 16 ==> #[trigger] block@[j] == (if start + j < data@.len() {
                data@[start + j]
            } else {
                0
            }),
{
    let mut block: [u8; 16] = [0; 16];
    let mut j: usize = 0;
    while j < 16 && j < data.len() - start
        invariant
            j <= 16,
            start + j <= data@.len(),
            forall|k: int| 0 <= k < j ==> block@[k] == data@[start + k],
            forall|k: int| j <= k < 16 ==> block@[k] == 0,
        decreases 16 - j,
    {
        block[j] = data[start + j];
        j = j + 1;
    }
    block
}

/// Decrypts block by block. The last block is filled up with zeros where it is not whole,
/// and comes out whole.
pub fn decrypt_aes_ecb(data: &[u8], key: &[u8; 16]) -> (r: Vec<u8>)
    ensures
        r@ == aes_model::ecb_decrypt(data@, key@),
        r@.len() == 16 * aes_model::block_count(data@.len()),
        r@.len() % 16 == 0,
        data@.len() <= r@.len() < data@.len() + 16,
{
    let expanded_key: Vec<u8> = key_expansion(key);
    let mut result: Vec<u8> = Vec::with_capacity(data.len());
    let mut start: usize = 0;
    let ghost mut k: int = 0;
    let ghost w = aes_model::expand_key(key@);
    while start < data.len()
        invariant
            0 <= k,
            expanded_key@ == w,
            w.len() == 176,
            w == aes_model::expand_key(key@),
            start == (if 16 * k < data@.len() { 16 * k } else { data@.len() as int }),
            start < data@.len() || k == aes_model::block_count(data@.len()),
            result@.len() == 16 * k,
            forall|i: int|
                0 <= i < 16 * k ==> #[trigger] result@[i] == aes_model::block_decrypt(
                    aes_model::block_at(data@, i / 16),
                    w,
                )[i % 16],
        decreases data@.len() - start,
    {
        let block: [u8; 16] = load_block(data, start);
        assert(block@ =~= aes_model::block_at(data@, k));
        let decrypted: [u8; 16] = decrypt_block(&block, expanded_key.as_slice());
        let ghost before = result@;
        result.extend_from_slice(&decrypted);
        proof {
            assert(result@ =~= before + decrypted@);
            assert forall|i: int| 0 <= i < 16 * (k + 1) implies #[trigger] result@[i]
                == aes_model::block_decrypt(aes_model::block_at(data@, i / 16), w)[i % 16] by {
                if i < 16 * k {
                    assert(result@[i] == before[i]);
                } else {
                    assert(i / 16 == k);
                    assert(i % 16 == i - 16 * k);
                }
            }
            k = k + 1;
        }
        if data.len() - start > 16 {
            start = start + 16;
        } else {
            start = data.len();
        }
    }
    assert(result@ =~= aes_model::ecb_decrypt(data@, key@));
    result
}

} // verus!
