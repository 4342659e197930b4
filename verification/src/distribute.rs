//! The DISTRIBUTE_DOC_DATA payload of a document made for distribution: 256 bytes behind a
//! keystream of random numbers, which hide the AES key of the document.
use crate::bytes::le_u32;
use crate::error::CryptoError;
use crate::error::Failure;
use crate::gf::lemma_xor;
use crate::lcg::draw;
use crate::lcg::next_seed;
use crate::lcg::MsvcLcg;
use vstd::prelude::*;

verus! {

/// `len` bytes of the keystream from a seed. It comes in runs of one byte: a first random
/// number gives the byte, a second one the length of the run, from 1 to 16.
pub open spec fn keystream(seed: u32, len: nat) -> Seq<u8>
    decreases len,
{
    let first = next_seed(seed);
    let second = next_seed(first);
    let key = (draw(first) % 0x100) as u8;
    let run = (draw(second) % 0x10 + 1) as nat;
    if len <= run {
        Seq::new(len, |i: int| key)
    } else {
        Seq::new(run, |i: int| key) + keystream(second, (len - run) as nat)
    }
}

/// The payload with the keystream added: the first four bytes are the seed, and stay.
pub open spec fn scrambled(data: Seq<u8>) -> Seq<u8> {
    Seq::new(
        256,
        |i: int|
            if i < 4 {
                data[i]
            } else {
                data[i] ^ keystream(le_u32(data), 256)[i]
            },
    )
}

/// The AES key in an open payload: 16 bytes, whose place the first byte tells.
pub open spec fn document_key(payload: Seq<u8>) -> Seq<u8> {
    let offset = 4 + payload[0] % 0x10;
    payload.subrange(offset, offset + 16)
}

/// The seed in the first four bytes stays as it is.
pub proof fn law_scrambled_keeps_seed(data: Seq<u8>)
    requires
        data.len() >= 256,
    ensures
        scrambled(data).take(4) == data.take(4),
        scrambled(data).len() == 256,
{
    assert(scrambled(data).take(4) =~= data.take(4));
}

/// Opens a payload that was scrambled, and the other way round: the keystream is added
/// twice.
#[verifier::rlimit(40)]
pub proof fn law_scrambled_involution(data: Seq<u8>)
    requires
        data.len() >= 256,
    ensures
        scrambled(scrambled(data)) == data.take(256),
{
    let once = scrambled(data);
    assert(le_u32(once) == le_u32(data));
    assert forall|i: int| 0 <= i < 256 implies scrambled(once)[i] == data[i] by {
        lemma_xor(data[i], keystream(le_u32(data), 256)[i], 0);
    }
    assert(scrambled(once) =~= data.take(256));
}

/// The keystream has the length that was asked for.
#[verifier::rlimit(40)]
pub proof fn law_keystream_len(seed: u32, len: nat)
    ensures
        keystream(seed, len).len() == len,
    decreases len,
{
    let second = next_seed(next_seed(seed));
    let run = (draw(second) % 0x10 + 1) as nat;
    if len > run {
        law_keystream_len(second, (len - run) as nat);
    }
}

/// The keystream, run by run: the state that follows the seed gives the byte of the first
/// run, by its bits 16 to 23, and the state after that the length, by its bits 16 to 19. What
/// comes behind the run is the keystream of that second state.
pub proof fn law_keystream_runs(seed: u32, len: nat, first: u32, second: u32, run: int)
    requires
        first == (214013 * seed + 2531011) % 0x1_0000_0000,
        second == (214013 * first + 2531011) % 0x1_0000_0000,
        run == (second / 0x1_0000) % 16 + 1,
    ensures
        keystream(seed, len).len() == len,
        forall|i: int|
            0 <= i < run && i < len ==> #[trigger] keystream(seed, len)[i] == (first / 0x1_0000)
                % 256,
        run <= len ==> keystream(seed, len).skip(run) == keystream(second, (len - run) as nat),
{
    assert(first == next_seed(seed));
    assert(second == next_seed(first));
    let key = ((first / 0x1_0000) % 256) as u8;
    assert(key == (draw(first) % 0x100) as u8 && run == draw(second) % 0x10 + 1) by {
        lemma_draw_low(first);
        lemma_draw_low(second);
    }
    lemma_first_run(seed, len, first, second, key, run);
}

/// The low bits of a number that the generator gives.
proof fn lemma_draw_low(state: u32)
    ensures
        draw(state) % 0x100 == (state / 0x1_0000) % 256,
        draw(state) % 0x10 == (state / 0x1_0000) % 16,
{
    let x = state / 0x1_0000;
    assert((x % 0x8000) % 0x100 == x % 0x100 && (x % 0x8000) % 0x10 == x % 0x10) by (bit_vector);
}

#[verifier::rlimit(40)]
proof fn lemma_first_run(seed: u32, len: nat, first: u32, second: u32, key: u8, run: int)
    requires
        first == next_seed(seed),
        second == next_seed(first),
        key == (draw(first) % 0x100) as u8,
        run == draw(second) % 0x10 + 1,
    ensures
        keystream(seed, len).len() == len,
        forall|i: int| 0 <= i < run && i < len ==> #[trigger] keystream(seed, len)[i] == key,
        run <= len ==> keystream(seed, len).skip(run) == keystream(second, (len - run) as nat),
{
    law_keystream_len(seed, len);
    if run <= len {
        let rest = keystream(second, (len - run) as nat);
        law_keystream_len(second, (len - run) as nat);
        if run < len {
            assert(keystream(seed, len) == Seq::new(run as nat, |i: int| key) + rest);
        }
        assert(keystream(seed, len).skip(run) =~= rest);
    }
}

/// A shorter keystream is the start of a longer one.
#[verifier::rlimit(40)]
pub proof fn law_keystream_prefix(seed: u32, len: nat, part: nat)
    requires
        part <= len,
    ensures
        keystream(seed, len).take(part as int) == keystream(seed, part),
    decreases len,
{
    let second = next_seed(next_seed(seed));
    let run = (draw(second) % 0x10 + 1) as nat;
    law_keystream_len(seed, len);
    law_keystream_len(seed, part);
    if part > run {
        law_keystream_prefix(second, (len - run) as nat, (part - run) as nat);
        let rest = keystream(second, (len - run) as nat);
        assert forall|i: int| 0 <= i < part implies keystream(seed, len)[i] == keystream(
            seed,
            part,
        )[i] by {
            if i >= run {
                assert(rest.take(part - run)[i - run] == rest[i - run]);
            }
        }
    }
    assert(keystream(seed, len).take(part as int) =~= keystream(seed, part));
}

/// What is added at each place: nothing to the first four bytes, and to every byte behind
/// them the byte of the keystream at its place. The keystream starts from the little-endian
/// number in all of the first four bytes.
#[verifier::rlimit(40)]
pub proof fn law_scrambled_bytes(data: Seq<u8>, seed: u32)
    requires
        data.len() >= 256,
        seed == data[0] + 0x100 * data[1] + 0x1_0000 * data[2] + 0x100_0000 * data[3],
    ensures
        scrambled(data).len() == 256,
        forall|i: int| 0 <= i < 4 ==> #[trigger] scrambled(data)[i] == data[i],
        forall|i: int|
            4 <= i < 256 ==> (#[trigger] scrambled(data)[i]) ^ data[i] == keystream(seed, 256)[i],
{
    assert forall|i: int| 4 <= i < 256 implies (#[trigger] scrambled(data)[i]) ^ data[i]
        == keystream(seed, 256)[i] by {
        lemma_xor(keystream(seed, 256)[i], data[i], 0);
        lemma_xor(data[i], keystream(seed, 256)[i], 0);
    }
}

/// The place of the key is told by the low half of the first byte alone: the 16 bytes stand
/// that many bytes behind the seed. Payloads that differ in the high half of their first
/// byte alone have the same key.
pub proof fn law_document_key(payload: Seq<u8>, other: Seq<u8>)
    requires
        payload.len() >= 256,
    ensures
        document_key(payload).len() == 16,
        forall|j: int|
            0 <= j < 16 ==> #[trigger] document_key(payload)[j] == payload[4 + (payload[0] & 0xF)
                + j],
        other.len() == payload.len() && other[0] % 16 == payload[0] % 16 && other.skip(1)
            == payload.skip(1) ==> document_key(other) == document_key(payload),
{
    lemma_low_bits(0, payload[0]);
    if other.len() == payload.len() && other[0] % 16 == payload[0] % 16 && other.skip(1)
        == payload.skip(1) {
        assert forall|i: int| 1 <= i < payload.len() implies other[i] == payload[i] by {
            assert(other.skip(1)[i - 1] == payload.skip(1)[i - 1]);
        }
        assert(document_key(other) =~= document_key(payload));
    }
}

proof fn lemma_low_bits(x: u32, b: u8)
    ensures
        x & 0xFF == x % 0x100,
        x & 0xF == x % 0x10,
        b & 0xF == b % 0x10,
{
    assert(x & 0xFF == x % 0x100 && x & 0xF == x % 0x10) by (bit_vector);
    assert(b & 0xF == b % 0x10) by (bit_vector);
}

/// `len` bytes of a keystream of which `n` bytes of a run are still to come.
spec fn ahead(key: u8, n: nat, seed: u32, len: nat) -> Seq<u8> {
    if len <= n {
        Seq::new(len, |k: int| key)
    } else {
        Seq::new(n, |k: int| key) + keystream(seed, (len - n) as nat)
    }
}

/// A keystream starts with a run.
#[verifier::rlimit(40)]
proof fn lemma_new_run(seed: u32, len: nat, first: u32, second: u32)
    requires
        first == next_seed(seed),
        second == next_seed(first),
    ensures
        ahead(0, 0, seed, len) == keystream(seed, len),
        ahead((draw(first) % 0x100) as u8, (draw(second) % 0x10 + 1) as nat, second, len)
            == keystream(seed, len),
{
    law_keystream_len(seed, len);
    assert(ahead(0, 0, seed, len) =~= keystream(seed, len));
}

/// One byte of a run.
#[verifier::rlimit(40)]
proof fn lemma_run_step(key: u8, n: nat, seed: u32, len: nat)
    requires
        n > 0,
        len > 0,
    ensures
        ahead(key, n, seed, len)[0] == key,
        ahead(key, n, seed, len).skip(1) == ahead(key, (n - 1) as nat, seed, (len - 1) as nat),
{
    if len > n {
        law_keystream_len(seed, (len - n) as nat);
    }
    assert(ahead(key, n, seed, len).skip(1) =~= ahead(
        key,
        (n - 1) as nat,
        seed,
        (len - 1) as nat,
    ));
}

/// Opens the payload, its first 256 bytes.
#[verifier::rlimit(40)]
pub fn decrypt_distribute_doc_data(data: &[u8]) -> (r: Result<Vec<u8>, CryptoError>)
    ensures
        match r {
            Ok(payload) => {
                &&& data@.len() >= 256
                &&& payload@ == scrambled(data@)
                &&& payload@.len() == 256
                &&& forall|i: int| 0 <= i < 4 ==> #[trigger] payload@[i] == data@[i]
                &&& forall|i: int|
                    4 <= i < 256 ==> (#[trigger] payload@[i]) ^ data@[i] == keystream(
                        (data@[0] + 0x100 * data@[1] + 0x1_0000 * data@[2] + 0x100_0000
                            * data@[3]) as u32,
                        256,
                    )[i]
            },
            Err(e) => data@.len() < 256 && e@ == Failure::InvalidPayloadSize(data@.len()),
        },
{
    if data.len() < 256 {
        return Err(CryptoError::InvalidPayloadSize(data.len()));
    }
    let mut result: Vec<u8> = vstd::slice::slice_to_vec(&data[0..256]);
    let seed: u32 = result[0] as u32 + 0x100 * (result[1] as u32) + 0x1_0000 * (result[2] as u32)
        + 0x100_0000 * (result[3] as u32);
    let mut lcg: MsvcLcg = MsvcLcg::new(seed);
    let ghost stream = keystream(seed, 256);
    proof {
        law_keystream_len(seed, 256);
        law_scrambled_bytes(data@, seed);
        lemma_new_run(seed, 256, next_seed(seed), next_seed(next_seed(seed)));
        assert(stream.skip(0) =~= stream);
    }
    let mut i: usize = 0;
    let mut n: u32 = 0;
    let mut key: u8 = 0;
    while i < 256
        invariant
            i <= 256,
            n <= 16,
            data@.len() >= 256,
            stream == keystream(le_u32(data@), 256),
            stream.len() == 256,
            result@.len() == 256,
            // What is left of the run, and then the stream from where the generator stands.
            stream.skip(i as int) == ahead(key, n as nat, lcg@, (256 - i) as nat),
            forall|k: int| 0 <= k < i ==> #[trigger] result@[k] == scrambled(data@)[k],
            forall|k: int| i <= k < 256 ==> result@[k] == data@[k],
        decreases 256 - i,
    {
        let ghost rest = stream.skip(i as int);
        if n == 0 {
            let ghost seed = lcg@;
            let first: u32 = lcg.rand();
            let ghost middle = lcg@;
            let second: u32 = lcg.rand();
            proof {
                lemma_low_bits(first, 0);
                lemma_low_bits(second, 0);
                assert(ahead(key, 0, seed, (256 - i) as nat) =~= ahead(
                    0,
                    0,
                    seed,
                    (256 - i) as nat,
                ));
                lemma_new_run(seed, (256 - i) as nat, middle, lcg@);
            }
            key = (first & 0xFF) as u8;
            n = (second & 0xF) + 1;
        }
        proof {
            lemma_run_step(key, n as nat, lcg@, (256 - i) as nat);
            assert(rest == ahead(key, n as nat, lcg@, (256 - i) as nat));
            assert(stream[i as int] == rest[0]);
        }
        if i >= 4 {
            let b: u8 = result[i] ^ key;
            result.set(i, b);
        }
        i = i + 1;
        n = n - 1;
        assert(stream.skip(i as int) =~= rest.skip(1));
    }
    assert(result@ =~= scrambled(data@));
    Ok(result)
}

/// Takes the AES key out of an open payload.
pub fn extract_aes_key(decrypted_data: &[u8]) -> (r: Result<[u8; 16], CryptoError>)
    ensures
        match r {
            Ok(key) => {
                &&& decrypted_data@.len() >= 256
                &&& key@ == document_key(decrypted_data@)
                &&& forall|j: int|
                    0 <= j < 16 ==> #[trigger] key@[j] == decrypted_data@[4 + (decrypted_data@[0]
                        & 0xF) + j]
            },
            Err(e) => decrypted_data@.len() < 256 && e@ == Failure::KeyExtractionFailed(
                "데이터가 256바이트 미만"@,
            ),
        },
{
    if decrypted_data.len() < 256 {
        return Err(CryptoError::KeyExtractionFailed("데이터가 256바이트 미만".to_string()));
    }
    let first: u8 = decrypted_data[0];
    proof {
        lemma_low_bits(0, first);
    }
    let offset: usize = 4 + (first & 0xF) as usize;
    let mut key: [u8; 16] = [0; 16];
    let mut i: usize = 0;
    while i < 16
        invariant
            i <= 16,
            offset <= 19,
            decrypted_data@.len() >= 256,
            forall|k: int| 0 <= k < i ==> #[trigger] key@[k] == decrypted_data@[offset + k],
        decreases 16 - i,
    {
        key[i] = decrypted_data[offset + i];
        i = i + 1;
    }
    assert(key@ =~= document_key(decrypted_data@));
    Ok(key)
}

} // verus!
