//! The SHA-1 digest.
use vstd::prelude::*;

verus! {

/// Addition modulo 2^32.
pub open spec fn add32(x: u32, y: u32) -> u32 {
    ((x + y) % 0x1_0000_0000) as u32
}

/// Rotation of a word to the left by `n` bits, for `0 < n < 32`.
pub open spec fn rotate(x: u32, n: u32) -> u32 {
    (x << n) | (x >> ((32 - n) as u32))
}

/// Byte `i` of the big-endian form of a word.
pub open spec fn word_byte(x: u32, i: int) -> u8 {
    (x >> ((24 - 8 * i) as u32)) as u8
}

/// The big-endian word at `i`.
pub open spec fn word_at(s: Seq<u8>, i: int) -> u32 {
    ((s[i] as u32) << 24) | ((s[i + 1] as u32) << 16) | ((s[i + 2] as u32) << 8) | (s[i + 3] as u32)
}

/// The length of a message in bits, modulo 2^64.
pub open spec fn bit_length(len: nat) -> u64 {
    ((8 * len) % 0x1_0000_0000_0000_0000) as u64
}

/// The big-endian form of a 64-bit number.
pub open spec fn long_bytes(x: u64) -> Seq<u8> {
    Seq::new(8, |i: int| (x >> ((56 - 8 * i) as u64)) as u8)
}

/// The padded message: the message, a byte 0x80, as few zeros as lead to 8 bytes short of a
/// whole number of 64-byte blocks, and the length in bits.
pub open spec fn padded(data: Seq<u8>) -> Seq<u8> {
    data.push(0x80) + Seq::new(((55 - data.len()) % 64) as nat, |i: int| 0u8) + long_bytes(
        bit_length(data.len()),
    )
}

/// Word `t` of the message schedule of a block.
pub open spec fn schedule(block: Seq<u8>, t: nat) -> u32
    decreases t,
{
    if t < 16 {
        word_at(block, 4 * t as int)
    } else {
        rotate(
            schedule(block, (t - 3) as nat) ^ schedule(block, (t - 8) as nat) ^ schedule(
                block,
                (t - 14) as nat,
            ) ^ schedule(block, (t - 16) as nat),
            1,
        )
    }
}

/// The five words that SHA-1 carries along.
pub struct Words {
    pub a: u32,
    pub b: u32,
    pub c: u32,
    pub d: u32,
    pub e: u32,
}

/// The function of round `t`.
pub open spec fn round_function(t: int, b: u32, c: u32, d: u32) -> u32 {
    if t < 20 {
        (b & c) | ((!b) & d)
    } else if t < 40 {
        b ^ c ^ d
    } else if t < 60 {
        (b & c) | (b & d) | (c & d)
    } else {
        b ^ c ^ d
    }
}

/// The constant of round `t`.
pub open spec fn round_word(t: int) -> u32 {
    if t < 20 {
        0x5A827999
    } else if t < 40 {
        0x6ED9EBA1
    } else if t < 60 {
        0x8F1BBCDC
    } else {
        0xCA62C1D6
    }
}

/// Round `t`, which takes word `w` of the message schedule.
pub open spec fn round(v: Words, t: int, w: u32) -> Words {
    Words {
        a: add32(
            add32(
                add32(add32(rotate(v.a, 5), round_function(t, v.b, v.c, v.d)), v.e),
                round_word(t),
            ),
            w,
        ),
        b: v.a,
        c: rotate(v.b, 30),
        d: v.c,
        e: v.d,
    }
}

/// The words after the first `t` rounds on a block.
pub open spec fn rounds(h: Words, block: Seq<u8>, t: nat) -> Words
    decreases t,
{
    if t == 0 {
        h
    } else {
        round(rounds(h, block, (t - 1) as nat), t - 1, schedule(block, (t - 1) as nat))
    }
}

/// The words after one block.
pub open spec fn compress(h: Words, block: Seq<u8>) -> Words {
    let v = rounds(h, block, 80);
    Words {
        a: add32(h.a, v.a),
        b: add32(h.b, v.b),
        c: add32(h.c, v.c),
        d: add32(h.d, v.d),
        e: add32(h.e, v.e),
    }
}

/// The words that SHA-1 starts from.
pub open spec fn initial_words() -> Words {
    Words { a: 0x67452301, b: 0xEFCDAB89, c: 0x98BADCFE, d: 0x10325476, e: 0xC3D2E1F0 }
}

/// The words after the first `n` blocks of a padded message.
pub open spec fn absorb(message: Seq<u8>, n: nat) -> Words
    decreases n,
{
    if n == 0 {
        initial_words()
    } else {
        compress(absorb(message, (n - 1) as nat), message.subrange(64 * (n - 1), 64 * n as int))
    }
}

/// The big-endian form of the five words.
pub open spec fn words_bytes(h: Words) -> Seq<u8> {
    Seq::new(
        20,
        |i: int|
            word_byte(
                if i < 4 {
                    h.a
                } else if i < 8 {
                    h.b
                } else if i < 12 {
                    h.c
                } else if i < 16 {
                    h.d
                } else {
                    h.e
                },
                i % 4,
            ),
    )
}

/// The SHA-1 digest.
pub open spec fn sha1_digest(data: Seq<u8>) -> Seq<u8> {
    words_bytes(absorb(padded(data), padded(data).len() / 64))
}

/// A padded message is a whole number of blocks.
pub proof fn law_padded_whole_blocks(data: Seq<u8>)
    ensures
        padded(data).len() % 64 == 0,
        padded(data).len() > data.len(),
{
}

/// The padded message, byte by byte: the message stands at the start, a byte 0x80 follows,
/// the last eight bytes are the number of bits of the message, modulo 2^64 and big-endian,
/// and all between is zero. There is no room for a block more.
pub proof fn law_padded_bytes(data: Seq<u8>, m: Seq<u8>, n: int)
    requires
        m == padded(data),
        n == m.len(),
    ensures
        n % 64 == 0,
        data.len() + 9 <= n <= data.len() + 72,
        m.take(data.len() as int) == data,
        m[data.len() as int] == 0x80,
        forall|i: int| data.len() < i < n - 8 ==> #[trigger] m[i] == 0,
        m[n - 1] + 0x100 * (m[n - 2] + 0x100 * (m[n - 3] + 0x100 * (m[n - 4] + 0x100 * (m[n - 5]
            + 0x100 * (m[n - 6] + 0x100 * (m[n - 7] + 0x100 * m[n - 8])))))) == (8 * data.len())
            % 0x1_0000_0000_0000_0000,
{
    assert(m.take(data.len() as int) =~= data);
    let x = bit_length(data.len());
    let tail = long_bytes(x);
    assert(m[n - 8] == tail[0]);
    assert(m[n - 7] == tail[1]);
    assert(m[n - 6] == tail[2]);
    assert(m[n - 5] == tail[3]);
    assert(m[n - 4] == tail[4]);
    assert(m[n - 3] == tail[5]);
    assert(m[n - 2] == tail[6]);
    assert(m[n - 1] == tail[7]);
    assert((x >> 0u64) as u8 + 0x100 * ((x >> 8u64) as u8 + 0x100 * ((x >> 16u64) as u8 + 0x100
        * ((x >> 24u64) as u8 + 0x100 * ((x >> 32u64) as u8 + 0x100 * ((x >> 40u64) as u8 + 0x100
        * ((x >> 48u64) as u8 + 0x100 * ((x >> 56u64) as u8))))))) == x) by (bit_vector);
}

/// The message schedule: the first 16 words are the big-endian words of the block, and every
/// later one is the XOR of the words 3, 8, 14 and 16 places before it, turned by one bit.
pub proof fn law_schedule_words(block: Seq<u8>, t: nat, x: u32)
    requires
        t >= 16 ==> x == schedule(block, (t - 3) as nat) ^ schedule(block, (t - 8) as nat)
            ^ schedule(block, (t - 14) as nat) ^ schedule(block, (t - 16) as nat),
    ensures
        t < 16 ==> schedule(block, t) == {
            let i = 4 * t as int;
            block[i + 3] + 0x100 * (block[i + 2] + 0x100 * (block[i + 1] + 0x100 * block[i]))
        },
        t >= 16 ==> schedule(block, t) == 2 * (x % 0x8000_0000) + x / 0x8000_0000,
{
    if t < 16 {
        let i = 4 * t as int;
        lemma_big_endian(block[i], block[i + 1], block[i + 2], block[i + 3], 0);
    } else {
        lemma_turned(x);
    }
}

/// Round `t`: what the words become. `f` mixes the words `b`, `c` and `d`: in the first 20
/// rounds it takes the bits of `c` where those of `b` are set and the bits of `d` elsewhere,
/// in rounds 40 to 59 it takes what at least two of them agree on, and in the other rounds
/// their sum without carry. `k` is the constant of the round.
pub proof fn law_round_words(v: Words, t: int, w: u32, f: u32, k: u32)
    requires
        0 <= t < 80,
        t < 20 ==> f & v.b == v.c & v.b && f & !v.b == v.d & !v.b && k == 0x5A827999,
        20 <= t < 40 ==> f ^ v.b ^ v.c == v.d && k == 0x6ED9EBA1,
        40 <= t < 60 ==> (f ^ v.b) & !(v.b ^ v.c) == 0 && (f ^ v.b) & !(v.b ^ v.d) == 0 && (f
            ^ v.c) & !(v.c ^ v.d) == 0 && k == 0x8F1BBCDC,
        60 <= t ==> f ^ v.b ^ v.c == v.d && k == 0xCA62C1D6,
    ensures
        round(v, t, w).a == (32 * (v.a % 0x800_0000) + v.a / 0x800_0000 + f + v.e + k + w)
            % 0x1_0000_0000,
        round(v, t, w).b == v.a,
        round(v, t, w).c == 0x4000_0000 * (v.b % 4) + v.b / 4,
        round(v, t, w).d == v.c,
        round(v, t, w).e == v.d,
{
    assert(f == round_function(t, v.b, v.c, v.d)) by {
        lemma_mixed(f, v.b, v.c, v.d);
    }
    assert(k == round_word(t));
    lemma_sum(rotate(v.a, 5), f, v.e, k, w);
    lemma_turned(v.a);
    lemma_turned(v.b);
}

/// The rounds on a block follow one another, each with its own word of the schedule, and the
/// words after all 80 are added to those before.
pub proof fn law_compress_words(h: Words, block: Seq<u8>, t: nat)
    ensures
        rounds(h, block, 0) == h,
        rounds(h, block, t + 1) == round(rounds(h, block, t), t as int, schedule(block, t)),
        compress(h, block).a == (h.a + rounds(h, block, 80).a) % 0x1_0000_0000,
        compress(h, block).b == (h.b + rounds(h, block, 80).b) % 0x1_0000_0000,
        compress(h, block).c == (h.c + rounds(h, block, 80).c) % 0x1_0000_0000,
        compress(h, block).d == (h.d + rounds(h, block, 80).d) % 0x1_0000_0000,
        compress(h, block).e == (h.e + rounds(h, block, 80).e) % 0x1_0000_0000,
{
}

/// The blocks of a padded message are taken in one after the other, from five fixed words
/// on.
pub proof fn law_absorb_blocks(message: Seq<u8>, n: nat)
    ensures
        absorb(message, 0) == (Words {
            a: 0x67452301,
            b: 0xEFCDAB89,
            c: 0x98BADCFE,
            d: 0x10325476,
            e: 0xC3D2E1F0,
        }),
        absorb(message, n + 1) == compress(
            absorb(message, n),
            message.subrange(64 * n as int, 64 * n as int + 64),
        ),
{
}

/// The digest is the big-endian form of the words that are left when every block of the
/// padded message has been taken in.
pub proof fn law_sha1_digest_words(data: Seq<u8>, h: Words, s: Seq<u8>)
    requires
        h == absorb(padded(data), padded(data).len() / 64),
        s == sha1_digest(data),
    ensures
        s.len() == 20,
        h.a == s[3] + 0x100 * (s[2] + 0x100 * (s[1] + 0x100 * s[0])),
        h.b == s[7] + 0x100 * (s[6] + 0x100 * (s[5] + 0x100 * s[4])),
        h.c == s[11] + 0x100 * (s[10] + 0x100 * (s[9] + 0x100 * s[8])),
        h.d == s[15] + 0x100 * (s[14] + 0x100 * (s[13] + 0x100 * s[12])),
        h.e == s[19] + 0x100 * (s[18] + 0x100 * (s[17] + 0x100 * s[16])),
{
    lemma_big_endian(0, 0, 0, 0, h.a);
    lemma_big_endian(0, 0, 0, 0, h.b);
    lemma_big_endian(0, 0, 0, 0, h.c);
    lemma_big_endian(0, 0, 0, 0, h.d);
    lemma_big_endian(0, 0, 0, 0, h.e);
}

/// The value of a big-endian word, and the bytes of a word.
proof fn lemma_big_endian(a: u8, b: u8, c: u8, d: u8, x: u32)
    ensures
        ((a as u32) << 24) | ((b as u32) << 16) | ((c as u32) << 8) | (d as u32) == d + 0x100 * (c
            + 0x100 * (b + 0x100 * a)),
        word_byte(x, 3) + 0x100 * (word_byte(x, 2) + 0x100 * (word_byte(x, 1) + 0x100 * word_byte(
            x,
            0,
        ))) == x,
{
    assert((((a as u32) << 24) | ((b as u32) << 16) | ((c as u32) << 8) | (d as u32) == d + 0x100
        * (c + 0x100 * (b + 0x100 * a))) && ((x >> 0u32) as u8 + 0x100 * ((x >> 8u32) as u8 + 0x100
        * ((x >> 16u32) as u8 + 0x100 * ((x >> 24u32) as u8))) == x)) by (bit_vector);
}

/// A sum of five words.
proof fn lemma_sum(a: u32, b: u32, c: u32, d: u32, e: u32)
    ensures
        add32(add32(add32(add32(a, b), c), d), e) == (a + b + c + d + e) % 0x1_0000_0000,
{
    let x = add32(a, b);
    let y = add32(x, c);
    let z = add32(y, d);
    assert(x == a + b || x == a + b - 0x1_0000_0000);
    assert(y == x + c || y == x + c - 0x1_0000_0000);
    assert(z == y + d || z == y + d - 0x1_0000_0000);
}

/// The rotations of SHA-1 as arithmetic.
proof fn lemma_turned(x: u32)
    ensures
        rotate(x, 1) == 2 * (x % 0x8000_0000) + x / 0x8000_0000,
        rotate(x, 5) == 32 * (x % 0x800_0000) + x / 0x800_0000,
        rotate(x, 30) == 0x4000_0000 * (x % 4) + x / 4,
{
    assert(((x << 1u32) | (x >> 31u32) == 2 * (x % 0x8000_0000) + x / 0x8000_0000) && ((x << 5u32)
        | (x >> 27u32) == 32 * (x % 0x800_0000) + x / 0x800_0000) && ((x << 30u32) | (x >> 2u32)
        == 0x4000_0000 * (x % 4) + x / 4)) by (bit_vector);
}

/// What pins down the functions of the rounds.
proof fn lemma_mixed(f: u32, b: u32, c: u32, d: u32)
    by (bit_vector)
    ensures
        f & b == c & b && f & !b == d & !b ==> f == (b & c) | ((!b) & d),
        f ^ b ^ c == d ==> f == b ^ c ^ d,
        (f ^ b) & !(b ^ c) == 0 && (f ^ b) & !(b ^ d) == 0 && (f ^ c) & !(c ^ d) == 0 ==> f == (b
            & c) | (b & d) | (c & d),
{
}

/// A digest has 20 bytes.
pub proof fn law_sha1_digest_len(data: Seq<u8>)
    ensures
        sha1_digest(data).len() == 20,
{
}

fn rotate_left(x: u32, n: u32) -> (r: u32)
    requires
        0 < n < 32,
    ensures
        r == rotate(x, n),
{
    (x << n) | (x >> (32 - n))
}

fn wrapping_sum(x: u32, y: u32) -> (r: u32)
    ensures
        r == add32(x, y),
{
    x.wrapping_add(y)
}

/// The padded message.
fn pad_message(data: &[u8]) -> (msg: Vec<u8>)
    ensures
        msg@ == padded(data@),
        msg@.len() % 64 == 0,
        data@.len() + 9 <= msg@.len() <= data@.len() + 72,
        msg@.take(data@.len() as int) == data@,
        msg@[data@.len() as int] == 0x80,
        forall|i: int| data@.len() < i < msg@.len() - 8 ==> #[trigger] msg@[i] == 0,
{
    let bit_len: u64 = (data.len() as u64).wrapping_mul(8);
    assert(bit_len == bit_length(data@.len()));
    let mut msg: Vec<u8> = vstd::slice::slice_to_vec(data);
    msg.push(0x80);
    let ghost mut zeros: nat = 0;
    let ghost total = ((55 - data@.len()) % 64) as nat;
    let mut filled: usize = (data.len() % 64 + 1) % 64;
    while filled != 56
        invariant
            filled < 64,
            zeros <= total,
            filled == (data@.len() + 1 + zeros) % 64,
            total == ((55 - data@.len()) % 64) as nat,
            msg@ =~= data@.push(0x80) + Seq::new(zeros, |i: int| 0u8),
        decreases total - zeros,
    {
        msg.push(0);
        filled = (filled + 1) % 64;
        proof {
            zeros = zeros + 1;
        }
    }
    let mut i: usize = 0;
    let ghost head = msg@;
    assert(zeros == total);
    while i < 8
        invariant
            i <= 8,
            bit_len == bit_length(data@.len()),
            msg@ =~= head + long_bytes(bit_len).take(i as int),
        decreases 8 - i,
    {
        let b: u8 = (bit_len >> (56 - 8 * i)) as u8;
        msg.push(b);
        i = i + 1;
    }
    assert(msg@ =~= padded(data@));
    proof {
        law_padded_bytes(data@, msg@, msg@.len() as int);
    }
    msg
}

/// The message schedule of a block.
fn expand_block(block: &[u8]) -> (w: [u32; 80])
    requires
        block@.len() == 64,
    ensures
        forall|t: int| 0 <= t < 80 ==> #[trigger] w@[t] == schedule(block@, t as nat),
{
    let mut w: [u32; 80] = [0; 80];
    let mut t: usize = 0;
    while t < 16
        invariant
            t <= 16,
            block@.len() == 64,
            forall|k: int| 0 <= k < t ==> #[trigger] w@[k] == schedule(block@, k as nat),
        decreases 16 - t,
    {
        let i: usize = 4 * t;
        w[t] = ((block[i] as u32) << 24) | ((block[i + 1] as u32) << 16) | ((block[i + 2] as u32)
            << 8) | (block[i + 3] as u32);
        t = t + 1;
    }
    while t < 80
        invariant
            16 <= t <= 80,
            forall|k: int| 0 <= k < t ==> #[trigger] w@[k] == schedule(block@, k as nat),
        decreases 80 - t,
    {
        w[t] = rotate_left(w[t - 3] ^ w[t - 8] ^ w[t - 14] ^ w[t - 16], 1);
        t = t + 1;
    }
    w
}

/// Takes one block of a padded message into the five words.
fn compress_block(h: Words, block: &[u8]) -> (r: Words)
    requires
        block@.len() == 64,
    ensures
        r == compress(h, block@),
{
    let w: [u32; 80] = expand_block(block);
    let (mut a, mut b, mut c, mut d, mut e) = (h.a, h.b, h.c, h.d, h.e);
    let mut t: usize = 0;
    while t < 80
        invariant
            t <= 80,
            forall|k: int| 0 <= k < 80 ==> #[trigger] w@[k] == schedule(block@, k as nat),
            (Words { a, b, c, d, e }) == rounds(h, block@, t as nat),
        decreases 80 - t,
    {
        let (f, k): (u32, u32) = if t < 20 {
            ((b & c) | ((!b) & d), 0x5A827999)
        } else if t < 40 {
            (b ^ c ^ d, 0x6ED9EBA1)
        } else if t < 60 {
            ((b & c) | (b & d) | (c & d), 0x8F1BBCDC)
        } else {
            (b ^ c ^ d, 0xCA62C1D6)
        };
        let temp: u32 = wrapping_sum(
            wrapping_sum(wrapping_sum(wrapping_sum(rotate_left(a, 5), f), e), k),
            w[t],
        );
        e = d;
        d = c;
        c = rotate_left(b, 30);
        b = a;
        a = temp;
        t = t + 1;
    }
    Words {
        a: wrapping_sum(h.a, a),
        b: wrapping_sum(h.b, b),
        c: wrapping_sum(h.c, c),
        d: wrapping_sum(h.d, d),
        e: wrapping_sum(h.e, e),
    }
}

/// The SHA-1 digest of `data`.
pub fn sha1(data: &[u8]) -> (out: [u8; 20])
    ensures
        out@ == sha1_digest(data@),
{
    let msg: Vec<u8> = pad_message(data);
    let mut h: Words = Words {
        a: 0x67452301,
        b: 0xEFCDAB89,
        c: 0x98BADCFE,
        d: 0x10325476,
        e: 0xC3D2E1F0,
    };
    let mut start: usize = 0;
    let ghost mut n: nat = 0;
    proof {
        law_padded_whole_blocks(data@);
    }
    while start < msg.len()
        invariant
            start == 64 * n,
            start <= msg@.len(),
            msg@.len() % 64 == 0,
            h == absorb(msg@, n),
        decreases msg@.len() - start,
    {
        let block: &[u8] = &msg.as_slice()[start..start + 64];
        h = compress_block(h, block);
        proof {
            n = n + 1;
            assert(block@ == msg@.subrange(64 * (n - 1), 64 * n as int));
        }
        start = start + 64;
    }
    assert(n == msg@.len() / 64);
    let words: [u32; 5] = [h.a, h.b, h.c, h.d, h.e];
    let mut out: [u8; 20] = [0; 20];
    let mut i: usize = 0;
    while i < 20
        invariant
            i <= 20,
            words@ == seq![h.a, h.b, h.c, h.d, h.e],
            forall|k: int| 0 <= k < i ==> #[trigger] out@[k] == words_bytes(h)[k],
        decreases 20 - i,
    {
        let shift: u32 = 24 - 8 * ((i % 4) as u32);
        out[i] = (words[i / 4] >> shift) as u8;
        i = i + 1;
    }
    assert(out@ =~= words_bytes(h));
    out
}

} // verus!
