//! Documents protected by a password ("high" security level).
use crate::cfb;
use crate::cfb::decrypt_aes_cfb_password;
use crate::error;
use crate::error::CryptoError;
use crate::error::Failure;
use crate::inflate;
use crate::inflate::decompress_stream;
use crate::sha1;
use crate::sha1::sha1;
use vstd::prelude::*;

verus! {

/// What stands before the first byte of a password.
pub const PASSWORD_SEED: u8 = 236;

/// A byte rotated to the left by one bit.
pub open spec fn rotated(b: u8) -> u8 {
    (b << 1) | (b >> 7)
}

/// Every byte of the password behind the rotated byte that comes before it in the password.
pub open spec fn interleaved(password: Seq<u8>) -> Seq<u8> {
    Seq::new(
        2 * password.len(),
        |i: int|
            if i % 2 == 1 {
                password[i / 2]
            } else if i == 0 {
                rotated(PASSWORD_SEED)
            } else {
                rotated(password[i / 2 - 1])
            },
    )
}

/// The AES key of a password.
pub open spec fn password_key(password: Seq<u8>) -> Seq<u8> {
    sha1::sha1_digest(interleaved(password)).take(16)
}

/// The number of bytes that are missing to a whole number of blocks.
pub open spec fn missing_to_block(len: nat) -> nat {
    ((16 - len % 16) % 16) as nat
}

/// `data` filled up to whole blocks with bytes that tell how many were added.
pub open spec fn block_padded(data: Seq<u8>) -> Seq<u8> {
    data + Seq::new(missing_to_block(data.len()), |i: int| missing_to_block(data.len()) as u8)
}

/// What a stream decrypts to under a password, before decompression.
pub open spec fn password_text(raw: Seq<u8>, password: Seq<u8>) -> Seq<u8> {
    cfb::cfb_decrypt(block_padded(raw), password_key(password))
}

/// What decompression of a decrypted stream leads to: its failure speaks for a wrong
/// password.
pub open spec fn judged(inflated: Result<Seq<u8>, Seq<char>>) -> Result<Seq<u8>, Failure> {
    match inflated {
        Ok(bytes) => Ok(bytes),
        Err(_) => Err(Failure::WrongPassword),
    }
}

/// Different passwords are hashed as different bytes.
pub proof fn law_interleaved_injective(p: Seq<u8>, q: Seq<u8>)
    requires
        interleaved(p) == interleaved(q),
    ensures
        p == q,
{
    assert(interleaved(p).len() == 2 * p.len());
    assert(interleaved(q).len() == 2 * q.len());
    assert forall|i: int| 0 <= i < p.len() implies p[i] == q[i] by {
        assert((2 * i + 1) % 2 == 1 && (2 * i + 1) / 2 == i);
        assert(interleaved(p)[2 * i + 1] == p[i]);
        assert(interleaved(q)[2 * i + 1] == q[i]);
    }
    assert(p =~= q);
}

/// What is hashed of a password: at every odd place a byte of the password, and before each
/// the byte that precedes it in the password, turned by one bit; before the first stands
/// 0xEC turned by one bit. To turn a byte doubles it and puts its top bit below.
pub proof fn law_interleaved_bytes(password: Seq<u8>, i: int)
    requires
        0 <= i < password.len(),
    ensures
        interleaved(password).len() == 2 * password.len(),
        interleaved(password)[2 * i + 1] == password[i],
        i == 0 ==> interleaved(password)[2 * i] == 0xD9,
        i > 0 ==> interleaved(password)[2 * i] == 2 * (password[i - 1] % 128) + password[i - 1]
            / 128,
{
    assert((2 * i + 1) % 2 == 1 && (2 * i + 1) / 2 == i);
    assert((2 * i) % 2 == 0 && (2 * i) / 2 == i);
    lemma_rotated(PASSWORD_SEED, 0);
    if i > 0 {
        lemma_rotated(password[i - 1], 0);
    }
}

/// No bit of the password gets lost before it is hashed: bit `j` of the byte at place
/// `2 * i`, counted from the lowest, is bit `j - 1` of the byte before `i` in the password,
/// or its bit 7 for `j` 0, and that byte can be had back from it.
pub proof fn law_interleaved_bits(password: Seq<u8>, i: int, j: u8, b: u8)
    requires
        0 < i < password.len(),
        j < 8,
        b == interleaved(password)[2 * i],
    ensures
        (b >> j) & 1 == (password[i - 1] >> ((j + 7) % 8) as u8) & 1,
        password[i - 1] == b / 2 + 128 * (b % 2),
{
    assert((2 * i) % 2 == 0 && (2 * i) / 2 == i);
    lemma_rotated(password[i - 1], j);
}

proof fn lemma_rotated(b: u8, j: u8)
    requires
        j < 8,
    ensures
        rotated(b) == 2 * (b % 128) + b / 128,
        (rotated(b) >> j) & 1 == (b >> ((j + 7) % 8) as u8) & 1,
        b == rotated(b) / 2 + 128 * (rotated(b) % 2),
{
    let r = (b << 1) | (b >> 7);
    let k = ((j + 7) % 8) as u8;
    assert(r == 2 * (b % 128) + b / 128 && (r >> j) & 1 == (b >> k) & 1) by (bit_vector)
        requires
            j < 8,
            r == (b << 1) | (b >> 7),
            (j == 0 && k == 7) || k + 1 == j,
    ;
}

/// The key of a password is the first 16 bytes of a SHA-1 digest. `message` is what is
/// hashed, told by its bytes: those of the password at the odd places, and at the even ones
/// the byte before, from 0xEC on, turned by one bit.
pub proof fn law_password_key(password: Seq<u8>, message: Seq<u8>)
    requires
        message.len() == 2 * password.len(),
        forall|i: int|
            0 <= i < password.len() ==> {
                &&& #[trigger] message[2 * i + 1] == password[i]
                &&& message[2 * i] == if i == 0 {
                    0xD9
                } else {
                    2 * (password[i - 1] % 128) + password[i - 1] / 128
                }
            },
    ensures
        password_key(password).len() == 16,
        forall|j: int|
            0 <= j < 16 ==> #[trigger] password_key(password)[j] == sha1::sha1_digest(message)[j],
{
    let own = interleaved(password);
    assert forall|k: int| 0 <= k < own.len() implies own[k] == message[k] by {
        law_interleaved_bytes(password, k / 2);
        assert(message[2 * (k / 2) + 1] == password[k / 2]);
        assert(k == 2 * (k / 2) || k == 2 * (k / 2) + 1);
    }
    assert(own =~= message);
}

/// Every password has a key of 16 bytes, the empty one too.
pub proof fn law_password_key_len(password: Seq<u8>)
    ensures
        password_key(password).len() == 16,
{
}

/// Padding leads to whole blocks and keeps what it pads; whole blocks stay as they are, so
/// that padding twice adds nothing.
pub proof fn law_block_padded(data: Seq<u8>)
    ensures
        block_padded(data).len() % 16 == 0,
        data.len() <= block_padded(data).len() < data.len() + 16,
        block_padded(data).take(data.len() as int) == data,
        forall|i: int|
            data.len() <= i < block_padded(data).len() ==> #[trigger] block_padded(data)[i]
                == block_padded(data).len() - data.len(),
        data.len() % 16 == 0 ==> block_padded(data) == data,
        block_padded(block_padded(data)) == block_padded(data),
{
    let once = block_padded(data);
    assert(once.take(data.len() as int) =~= data);
    assert(once.len() % 16 == 0);
    assert(block_padded(once) =~= once);
    if data.len() % 16 == 0 {
        assert(once =~= data);
    }
}

/// A text that was encrypted under the key of a password comes back under that password,
/// at the start of what is decrypted; a text of whole blocks comes back alone.
pub proof fn law_password_text_of_encrypted(text: Seq<u8>, password: Seq<u8>)
    ensures
        ({
            let raw = cfb::cfb_encrypt(text, password_key(password));
            &&& password_text(raw, password).take(text.len() as int) == text
            &&& text.len() % 16 == 0 ==> password_text(raw, password) == text
        }),
{
    let key = password_key(password);
    let raw = cfb::cfb_encrypt(text, key);
    cfb::law_cfb_decrypt_encrypt(text, key);
    law_block_padded(raw);
    cfb::law_cfb_decrypt_prefix(block_padded(raw), key, text.len() as int);
}

/// A stream is filled up to whole blocks before it is decrypted under the key of the
/// password, and what decrypts is kept whole. `full` is the stream filled up: it goes on with
/// less than 16 bytes, each of which tells how many they are.
pub proof fn law_password_text_of_full(raw: Seq<u8>, password: Seq<u8>, full: Seq<u8>)
    requires
        raw.len() <= full.len() < raw.len() + 16,
        full.len() % 16 == 0,
        full.take(raw.len() as int) == raw,
        forall|i: int|
            raw.len() <= i < full.len() ==> #[trigger] full[i] == full.len() - raw.len(),
    ensures
        password_text(raw, password) == cfb::cfb_decrypt(full, password_key(password)),
        password_text(raw, password).len() == full.len(),
{
    law_block_padded(raw);
    let own = block_padded(raw);
    assert(own.len() == full.len());
    assert forall|i: int| 0 <= i < own.len() implies own[i] == full[i] by {
        if i < raw.len() {
            assert(full.take(raw.len() as int)[i] == raw[i]);
        }
    }
    assert(own =~= full);
    cfb::law_cfb_encrypt_decrypt(full, password_key(password));
}

/// What is decrypted has the length of the padded stream.
pub proof fn law_password_text_len(raw: Seq<u8>, password: Seq<u8>)
    ensures
        password_text(raw, password).len() == raw.len() + missing_to_block(raw.len()),
{
    cfb::law_cfb_encrypt_decrypt(block_padded(raw), password_key(password));
}

/// The AES key of a password: the first 16 bytes of a SHA-1 digest.
pub fn derive_password_key(password: &[u8]) -> (key: [u8; 16])
    ensures
        key@ == password_key(password@),
        forall|message: Seq<u8>| #![trigger sha1::sha1_digest(message)]
            message.len() == 2 * password@.len() && (forall|i: int|
                0 <= i < password@.len() ==> {
                    &&& #[trigger] message[2 * i + 1] == password@[i]
                    &&& message[2 * i] == if i == 0 {
                        0xD9
                    } else {
                        2 * (password@[i - 1] % 128) + password@[i - 1] / 128
                    }
                }) ==> key@ == sha1::sha1_digest(message).take(16),
{
    let mut buf: Vec<u8> = Vec::new();
    let mut i: usize = 0;
    let mut previous: u8 = PASSWORD_SEED;
    while i < password.len()
        invariant
            i <= password@.len(),
            previous == (if i == 0 {
                PASSWORD_SEED
            } else {
                password@[i - 1]
            }),
            buf@ =~= interleaved(password@).take(2 * i),
        decreases password@.len() - i,
    {
        let byte: u8 = password[i];
        let turned: u8 = (previous << 1) | (previous >> 7);
        buf.push(turned);
        buf.push(byte);
        previous = byte;
        proof {
            assert((2 * i) % 2 == 0 && (2 * i) / 2 == i);
            assert((2 * i + 1) % 2 == 1 && (2 * i + 1) / 2 == i);
        }
        i = i + 1;
    }
    assert(buf@ =~= interleaved(password@));
    let digest: [u8; 20] = sha1(buf.as_slice());
    let mut key: [u8; 16] = [0; 16];
    let mut k: usize = 0;
    while k < 16
        invariant
            k <= 16,
            digest@.len() == 20,
            forall|j: int| 0 <= j < k ==> key@[j] == digest@[j],
        decreases 16 - k,
    {
        key[k] = digest[k];
        k = k + 1;
    }
    assert(key@ =~= digest@.take(16));
    proof {
        assert forall|message: Seq<u8>| #![trigger sha1::sha1_digest(message)]
            message.len() == 2 * password@.len() && (forall|i: int|
                0 <= i < password@.len() ==> {
                    &&& #[trigger] message[2 * i + 1] == password@[i]
                    &&& message[2 * i] == if i == 0 {
                        0xD9
                    } else {
                        2 * (password@[i - 1] % 128) + password@[i - 1] / 128
                    }
                }) implies key@ == sha1::sha1_digest(message).take(16) by {
            law_password_key(password@, message);
            assert(key@ =~= sha1::sha1_digest(message).take(16));
        }
    }
    key
}

/// Fills `data` up to whole blocks of 16 bytes. Where it is whole already nothing is added.
pub fn pad_to_block(data: &[u8]) -> (out: Vec<u8>)
    ensures
        out@ == block_padded(data@),
        out@.len() % 16 == 0,
        data@.len() <= out@.len() < data@.len() + 16,
        out@.take(data@.len() as int) == data@,
        forall|i: int|
            data@.len() <= i < out@.len() ==> #[trigger] out@[i] == out@.len() - data@.len(),
{
    proof {
        law_block_padded(data@);
    }
    let rem: usize = data.len() % 16;
    let mut out: Vec<u8> = vstd::slice::slice_to_vec(data);
    if rem == 0 {
        assert(out@ =~= block_padded(data@));
        return out;
    }
    let amount: usize = 16 - rem;
    let mut i: usize = 0;
    while i < amount
        invariant
            i <= amount,
            amount == missing_to_block(data@.len()),
            out@ =~= data@ + Seq::new(i as nat, |k: int| amount as u8),
        decreases amount - i,
    {
        out.push(amount as u8);
        i = i + 1;
    }
    assert(out@ =~= block_padded(data@));
    out
}

/// Decrypts a stream under a password, without decompression.
pub fn decrypt_password_stream(raw: &[u8], password: &[u8]) -> (r: Vec<u8>)
    ensures
        r@ == password_text(raw@, password@),
        r@.len() == raw@.len() + missing_to_block(raw@.len()),
        r@.len() % 16 == 0,
        raw@.len() <= r@.len() < raw@.len() + 16,
{
    let key: [u8; 16] = derive_password_key(password);
    let padded: Vec<u8> = pad_to_block(raw);
    decrypt_aes_cfb_password(&key, padded.as_slice())
}

/// Judges a password by the decompression of what it decrypted.
pub fn judge_password(inflated: Result<Vec<u8>, String>) -> (r: Result<Vec<u8>, CryptoError>)
    ensures
        error::outcome(r) == judged(inflate::inflate_outcome(inflated)),
        match (inflated, r) {
            (Ok(bytes), Ok(kept)) => kept@ == bytes@,
            (Err(_), Err(e)) => e is WrongPassword,
            _ => false,
        },
{
    match inflated {
        Ok(bytes) => Ok(bytes),
        Err(_) => Err(CryptoError::WrongPassword),
    }
}

/// Decrypts a stream that is protected by a password, and decompresses it where
/// `compressed` is set. What does not decompress speaks for a wrong password; without
/// decompression every password gives bytes.
pub fn decrypt_password_protected(raw: &[u8], password: &[u8], compressed: bool) -> (r: Result<
    Vec<u8>,
    CryptoError,
>)
    ensures
        error::outcome(r) == (if compressed {
            judged(inflate::inflated(password_text(raw@, password@)))
        } else {
            Ok(password_text(raw@, password@))
        }),
        !compressed ==> r is Ok && r->Ok_0@ == password_text(raw@, password@),
        compressed ==> match (inflate::inflated(password_text(raw@, password@)), r) {
            (Ok(bytes), Ok(kept)) => kept@ == bytes,
            (Err(_), Err(e)) => e is WrongPassword,
            _ => false,
        },
{
    let decrypted: Vec<u8> = decrypt_password_stream(raw, password);
    if compressed {
        judge_password(decompress_stream(decrypted.as_slice()))
    } else {
        Ok(decrypted)
    }
}

} // verus!
