//! SHA-1 (FIPS 180-4) and HMAC-SHA1 (RFC 2104).
//!
//! Authentication is not performance-critical, so the implementation favours
//! simplicity over speed.
use crate::bytes;
use vstd::prelude::*;

verus! {

/// SHA-1 block size.
pub const SHA1_BLOCK_SIZE: usize = 64;

/// SHA-1 digest size.
pub const SHA1_DIGEST_SIZE: usize = 20;

/// The five chaining words of SHA-1.
#[derive(Debug, Clone, Copy)]
pub struct HashState {
    pub a: u32,
    pub b: u32,
    pub c: u32,
    pub d: u32,
    pub e: u32,
}

// -------------------------------------------------------------------
// What SHA-1 computes
// -------------------------------------------------------------------

/// Addition modulo 2^32.
pub open spec fn add32(x: u32, y: u32) -> u32 {
    ((x + y) % 0x1_0000_0000) as u32
}

/// Left rotation by `n` bits, for `n` from 1 to 31.
pub open spec fn rotated(x: u32, n: u32) -> u32 {
    (x << n) | (x >> ((32 - n) as u32))
}

/// The chaining words before the first block.
pub open spec fn initial_state() -> HashState {
    HashState {
        a: 0x67452301,
        b: 0xEFCDAB89,
        c: 0x98BADCFE,
        d: 0x10325476,
        e: 0xC3D2E1F0,
    }
}

/// The logical function of round `t`.
pub open spec fn mix(t: int, b: u32, c: u32, d: u32) -> u32 {
    if t < 20 {
        (b & c) | (!b & d)
    } else if t < 40 {
        b ^ c ^ d
    } else if t < 60 {
        (b & c) | (b & d) | (c & d)
    } else {
        b ^ c ^ d
    }
}

/// The constant added in round `t`.
pub open spec fn round_constant(t: int) -> u32 {
    if t < 20 {
        0x5A827999
    } else if t < 40 {
        0x6ED9EBA1
    } else if t < 60 {
        0x8F1BBCDC
    } else {
        0xCA62C1D6
    }
}

/// Word `t` of the message schedule of a block.
pub open spec fn schedule(block: Seq<u8>, t: nat) -> u32
    decreases t,
{
    if t < 16 {
        bytes::be32_at(block, 4 * (t as int))
    } else {
        rotated(
            schedule(block, (t - 3) as nat) ^ schedule(block, (t - 8) as nat) ^ schedule(
                block,
                (t - 14) as nat,
            ) ^ schedule(block, (t - 16) as nat),
            1,
        )
    }
}

/// The working words after round `t` on schedule word `w`.
pub open spec fn round(s: HashState, t: int, w: u32) -> HashState {
    HashState {
        a: add32(
            add32(
                add32(add32(rotated(s.a, 5), mix(t, s.b, s.c, s.d)), s.e),
                round_constant(t),
            ),
            w,
        ),
        b: s.a,
        c: rotated(s.b, 30),
        d: s.c,
        e: s.d,
    }
}

/// The working words after the first `t` rounds on a block.
pub open spec fn rounds(start: HashState, block: Seq<u8>, t: nat) -> HashState
    decreases t,
{
    if t == 0 {
        start
    } else {
        round(rounds(start, block, (t - 1) as nat), t - 1, schedule(block, (t - 1) as nat))
    }
}

/// The chaining words after one more block.
pub open spec fn compressed(start: HashState, block: Seq<u8>) -> HashState {
    let end = rounds(start, block, 80);
    HashState {
        a: add32(start.a, end.a),
        b: add32(start.b, end.b),
        c: add32(start.c, end.c),
        d: add32(start.d, end.d),
        e: add32(start.e, end.e),
    }
}

/// The chaining words after the first `n` blocks of a message.
pub open spec fn chained(message: Seq<u8>, n: nat) -> HashState
    decreases n,
{
    if n == 0 {
        initial_state()
    } else {
        compressed(
            chained(message, (n - 1) as nat),
            message.subrange(64 * (n - 1), 64 * n as int),
        )
    }
}

/// What is appended to a message of `len` bytes: a one bit, zero bits up to
/// eight bytes short of a block boundary, and the length in bits.
pub open spec fn padding(len: nat) -> Seq<u8> {
    seq![0x80u8] + bytes::zeros(((119 - len % 64) % 64) as nat) + bytes::be64((8 * len) as u64)
}

/// The chaining words as a byte string.
pub open spec fn digest_bytes(s: HashState) -> Seq<u8> {
    bytes::be32(s.a) + bytes::be32(s.b) + bytes::be32(s.c) + bytes::be32(s.d) + bytes::be32(s.e)
}

/// The SHA-1 digest of a message.
#[verifier::opaque]
pub open spec fn sha1(message: Seq<u8>) -> Seq<u8> {
    let padded = message + padding(message.len());
    digest_bytes(chained(padded, padded.len() / 64))
}

/// The longest message that SHA-1 is defined on, in bytes.
pub open spec fn message_limit() -> nat {
    0x1FFF_FFFF_FFFF_FFFF
}

// -------------------------------------------------------------------
// What HMAC-SHA1 computes
// -------------------------------------------------------------------

/// The key as HMAC uses it: one block, hashed first if it is longer.
pub open spec fn hmac_block_key(key: Seq<u8>) -> Seq<u8> {
    let short = if key.len() > 64 {
        sha1(key)
    } else {
        key
    };
    short + bytes::zeros((64 - short.len()) as nat)
}

/// The block key with every byte masked.
pub open spec fn hmac_pad(key: Seq<u8>, mask: u8) -> Seq<u8> {
    Seq::new(64, |i: int| mask ^ hmac_block_key(key)[i])
}

/// HMAC-SHA1 of `data` under `key`.
#[verifier::opaque]
pub open spec fn hmac(key: Seq<u8>, data: Seq<u8>) -> Seq<u8> {
    sha1(hmac_pad(key, 0x5C) + sha1(hmac_pad(key, 0x36) + data))
}

// -------------------------------------------------------------------
// Lemmas
// -------------------------------------------------------------------

proof fn lemma_chained_prefix(m1: Seq<u8>, m2: Seq<u8>, n: nat)
    requires
        64 * n <= m1.len(),
        64 * n <= m2.len(),
        forall|i: int| 0 <= i < 64 * n ==> m1[i] == m2[i],
    ensures
        chained(m1, n) == chained(m2, n),
    decreases n,
{
    if n > 0 {
        lemma_chained_prefix(m1, m2, (n - 1) as nat);
        assert(m1.subrange(64 * (n - 1), 64 * n as int) =~= m2.subrange(
            64 * (n - 1),
            64 * n as int,
        ));
    }
}

/// A SHA-1 digest is twenty bytes long.
pub proof fn lemma_sha1_len(message: Seq<u8>)
    ensures
        sha1(message).len() == 20,
{
    reveal(sha1);
}

/// An HMAC-SHA1 tag is twenty bytes long.
pub proof fn lemma_hmac_len(key: Seq<u8>, data: Seq<u8>)
    ensures
        hmac(key, data).len() == 20,
{
    reveal(hmac);
    lemma_sha1_len(hmac_pad(key, 0x5C) + sha1(hmac_pad(key, 0x36) + data));
}

/// The padding makes the message a whole number of blocks and holds its length:
/// it is a byte 0x80, fewer than 64 zeros, and the length in bits, most
/// significant byte first.
pub proof fn lemma_padding_ends_block(len: nat)
    requires
        len <= message_limit(),
    ensures
        ({
            let tail = padding(len);
            let n = tail.len();
            &&& (len + n) % 64 == 0
            &&& 9 <= n < 73
            &&& tail[0] == 0x80
            &&& forall|i: int| 0 < i < n - 8 ==> tail[i] == 0
            &&& bytes::be64_at(tail, n - 8) == 8 * len
        }),
{
    let tail = padding(len);
    let n = tail.len();
    let r = len as int % 64;
    assert((119 - r) % 64 == if r <= 55 {
        55 - r
    } else {
        119 - r
    });
    assert(n == 9 + (119 - r) % 64);
    assert((len + n) % 64 == 0);
    let bits = (8 * len) as u64;
    assert(tail.subrange(n - 8, n as int) =~= bytes::be64(bits));
    bytes::lemma_read_where_written(tail, n - 8, 0, 0, bits);
}

/// Hashing goes on from the chaining words alone: behind a message of whole
/// blocks, one more block changes the chaining words as it would behind any other
/// message that led to the same ones.
pub proof fn lemma_next_block(message: Seq<u8>, block: Seq<u8>, n: nat)
    requires
        message.len() == 64 * n,
        block.len() == 64,
    ensures
        chained(message + block, n + 1) == compressed(chained(message, n), block),
        chained(message, 0) == (HashState {
            a: 0x67452301,
            b: 0xEFCDAB89,
            c: 0x98BADCFE,
            d: 0x10325476,
            e: 0xC3D2E1F0,
        }),
{
    lemma_chained_prefix(message, message + block, n);
    assert((message + block).subrange(64 * n as int, 64 * (n + 1) as int) =~= block);
}

proof fn lemma_digest_words(end: HashState)
    ensures
        ({
            let digest = digest_bytes(end);
            &&& digest.len() == 20
            &&& bytes::be32_at(digest, 0) == end.a
            &&& bytes::be32_at(digest, 4) == end.b
            &&& bytes::be32_at(digest, 8) == end.c
            &&& bytes::be32_at(digest, 12) == end.d
            &&& bytes::be32_at(digest, 16) == end.e
        }),
{
    let digest = digest_bytes(end);
    assert(digest.subrange(0, 4) =~= bytes::be32(end.a));
    assert(digest.subrange(4, 8) =~= bytes::be32(end.b));
    assert(digest.subrange(8, 12) =~= bytes::be32(end.c));
    assert(digest.subrange(12, 16) =~= bytes::be32(end.d));
    assert(digest.subrange(16, 20) =~= bytes::be32(end.e));
    lemma_word_within(digest, 0, end.a);
    lemma_word_within(digest, 4, end.b);
    lemma_word_within(digest, 8, end.c);
    lemma_word_within(digest, 12, end.d);
    lemma_word_within(digest, 16, end.e);
}

proof fn lemma_word_within(digest: Seq<u8>, i: int, word: u32)
    requires
        0 <= i,
        i + 4 <= digest.len(),
        digest.subrange(i, i + 4) == bytes::be32(word),
    ensures
        bytes::be32_at(digest, i) == word,
{
    bytes::lemma_read_where_written(digest, i, 0, word, 0);
}

/// The digest covers the whole message: it is made of the chaining words behind
/// every block of the padded message.
pub proof fn lemma_digest_covers(message: Seq<u8>, n: nat)
    requires
        64 * n == message.len() + padding(message.len()).len(),
    ensures
        ({
            let end = chained(message + padding(message.len()), n);
            let digest = sha1(message);
            &&& digest.len() == 20
            &&& bytes::be32_at(digest, 0) == end.a
            &&& bytes::be32_at(digest, 4) == end.b
            &&& bytes::be32_at(digest, 8) == end.c
            &&& bytes::be32_at(digest, 12) == end.d
            &&& bytes::be32_at(digest, 16) == end.e
        }),
{
    reveal(sha1);
    let padded = message + padding(message.len());
    assert(padded.len() == 64 * n);
    assert(padded.len() / 64 == n);
    lemma_digest_words(chained(padded, n));
}

/// A key of at most 64 bytes is used as it stands, with zeros behind it up to 64
/// bytes; a longer key is used as its digest is.
pub proof fn lemma_block_key_bytes(key: Seq<u8>)
    ensures
        hmac_block_key(key).len() == 64,
        key.len() <= 64 ==> forall|i: int|
            0 <= i < 64 ==> #[trigger] hmac_block_key(key)[i] == if i < key.len() {
                key[i]
            } else {
                0
            },
        key.len() > 64 ==> hmac_block_key(key) == hmac_block_key(sha1(key)),
        key.len() > 64 ==> forall|i: int|
            0 <= i < 64 ==> #[trigger] hmac_block_key(key)[i] == if i < 20 {
                sha1(key)[i]
            } else {
                0
            },
{
    lemma_sha1_len(key);
}

/// Two keys of one length up to 64 bytes have different block keys wherever the
/// keys themselves differ.
pub proof fn lemma_block_keys_differ(key: Seq<u8>, key2: Seq<u8>, i: int)
    requires
        key.len() == key2.len() <= 64,
        0 <= i < key.len(),
        key[i] != key2[i],
    ensures
        hmac_block_key(key)[i] != hmac_block_key(key2)[i],
        hmac_block_key(key) != hmac_block_key(key2),
{
    lemma_block_key_bytes(key);
    lemma_block_key_bytes(key2);
    assert(hmac_block_key(key)[i] == key[i]);
    assert(hmac_block_key(key2)[i] == key2[i]);
}

/// Zeros behind a key up to 64 bytes make no difference, and a key of more than
/// 64 bytes stands for its digest.
pub proof fn lemma_equivalent_keys(key: Seq<u8>, n: nat, data: Seq<u8>)
    ensures
        key.len() + n <= 64 ==> hmac(key + bytes::zeros(n), data) == hmac(key, data),
        key.len() > 64 ==> hmac(key, data) == hmac(sha1(key), data),
{
    reveal(hmac);
    if key.len() + n <= 64 {
        assert(hmac_block_key(key + bytes::zeros(n)) =~= hmac_block_key(key));
    }
    lemma_block_key_bytes(key);
}

/// HMAC hashes twice. The inner message is the data behind a block of the key's
/// bytes masked with 0x36, the outer one the inner digest behind a block of them
/// masked with 0x5C; the bytes behind the key count as zero.
pub proof fn lemma_hmac_hashes_twice(
    key: Seq<u8>,
    data: Seq<u8>,
    inner: Seq<u8>,
    outer: Seq<u8>,
)
    requires
        key.len() <= 64,
        inner.len() == 64,
        outer.len() == 64,
        forall|i: int| 0 <= i < key.len() ==> #[trigger] inner[i] == 0x36 ^ key[i],
        forall|i: int| key.len() <= i < 64 ==> #[trigger] inner[i] == 0x36,
        forall|i: int| 0 <= i < key.len() ==> #[trigger] outer[i] == 0x5C ^ key[i],
        forall|i: int| key.len() <= i < 64 ==> #[trigger] outer[i] == 0x5C,
    ensures
        hmac(key, data) == sha1(outer + sha1(inner + data)),
{
    reveal(hmac);
    lemma_block_key_bytes(key);
    bytes::lemma_xor_byte_twice(0x36, 0);
    bytes::lemma_xor_byte_twice(0x5C, 0);
    assert forall|i: int| 0 <= i < 64 implies inner[i] == hmac_pad(key, 0x36)[i] && outer[i]
        == hmac_pad(key, 0x5C)[i] by {
        assert(hmac_block_key(key)[i] == if i < key.len() {
            key[i]
        } else {
            0
        });
    }
    assert(inner =~= hmac_pad(key, 0x36));
    assert(outer =~= hmac_pad(key, 0x5C));
}

// -------------------------------------------------------------------
// Implementation
// -------------------------------------------------------------------

fn rotate(x: u32, n: u32) -> (r: u32)
    requires
        0 < n < 32,
    ensures
        r == rotated(x, n),
{
    (x << n) | (x >> (32 - n))
}

fn plus(x: u32, y: u32) -> (r: u32)
    ensures
        r == add32(x, y),
{
    x.wrapping_add(y)
}

fn one_round(s: HashState, t: usize, w: u32) -> (r: HashState)
    ensures
        r == round(s, t as int, w),
{
    let f: u32;
    let k: u32;
    if t < 20 {
        f = (s.b & s.c) | (!s.b & s.d);
        k = 0x5A827999;
    } else if t < 40 {
        f = s.b ^ s.c ^ s.d;
        k = 0x6ED9EBA1;
    } else if t < 60 {
        f = (s.b & s.c) | (s.b & s.d) | (s.c & s.d);
        k = 0x8F1BBCDC;
    } else {
        f = s.b ^ s.c ^ s.d;
        k = 0xCA62C1D6;
    }
    HashState {
        a: plus(plus(plus(plus(rotate(s.a, 5), f), s.e), k), w),
        b: s.a,
        c: rotate(s.b, 30),
        d: s.c,
        e: s.d,
    }
}

fn write_digest(s: HashState) -> (digest: [u8; SHA1_DIGEST_SIZE])
    ensures
        digest@ == digest_bytes(s),
{
    let mut out: Vec<u8> = Vec::with_capacity(SHA1_DIGEST_SIZE);
    bytes::push_be32(&mut out, s.a);
    bytes::push_be32(&mut out, s.b);
    bytes::push_be32(&mut out, s.c);
    bytes::push_be32(&mut out, s.d);
    bytes::push_be32(&mut out, s.e);
    assert(out@ =~= digest_bytes(s));
    let digest: [u8; SHA1_DIGEST_SIZE] = bytes::read_array(out.as_slice(), 0);
    assert(digest@ =~= out@);
    digest
}

/// The padding of a message.
fn build_padding(len: u64) -> (tail: Vec<u8>)
    requires
        len <= message_limit(),
    ensures
        tail@ == padding(len as nat),
{
    let mut tail: Vec<u8> = Vec::with_capacity(72);
    tail.push(0x80);
    assert(tail@ =~= seq![0x80u8]);
    bytes::push_zeros(&mut tail, ((119 - len % 64) % 64) as usize);
    bytes::push_be64(&mut tail, len * 8);
    tail
}

/// A SHA-1 computation in progress.
pub(crate) struct Sha1 {
    state: HashState,
    buffer: [u8; 64],
    buf_len: usize,
    total_len: u64,
    absorbed: Ghost<Seq<u8>>,
}

impl Sha1 {
    /// The bytes hashed so far.
    pub closed spec fn message(self) -> Seq<u8> {
        self.absorbed@
    }

    /// The chaining words cover all whole blocks, the buffer holds the rest.
    pub closed spec fn wf(self) -> bool {
        let m = self.absorbed@;
        &&& self.total_len == m.len()
        &&& self.buf_len == m.len() % 64
        &&& self.state == chained(m, m.len() / 64)
        &&& forall|i: int|
            0 <= i < self.buf_len ==> self.buffer@[i] == m[64 * (m.len() / 64) as int + i]
    }

    pub(crate) fn new() -> (h: Self)
        ensures
            h.wf(),
            h.message() == Seq::<u8>::empty(),
    {
        Sha1 {
            state: HashState {
                a: 0x67452301,
                b: 0xEFCDAB89,
                c: 0x98BADCFE,
                d: 0x10325476,
                e: 0xC3D2E1F0,
            },
            buffer: [0u8;64],
            buf_len: 0,
            total_len: 0,
            absorbed: Ghost(Seq::empty()),
        }
    }

    pub(crate) fn update(&mut self, data: &[u8])
        requires
            old(self).wf(),
            old(self).message().len() + data@.len() <= u64::MAX,
        ensures
            final(self).wf(),
            final(self).message() == old(self).message() + data@,
    {
        let n: usize = data.len();
        let ghost before = self.absorbed@;
        let ghost whole = before + data@;
        let mut offset: usize = 0;
        self.total_len = self.total_len + n as u64;

        // Fill the buffer up first.
        if self.buf_len > 0 {
            let space: usize = 64 - self.buf_len;
            let copy_len: usize = if n < space {
                n
            } else {
                space
            };
            let ghost start = self.buf_len;
            while offset < copy_len
                invariant
                    n == data@.len(),
                    copy_len <= n,
                    offset <= copy_len,
                    start + copy_len <= 64,
                    self.buf_len == start + offset,
                    start == before.len() % 64,
                    whole == before + data@,
                    self.absorbed@ == before,
                    self.total_len == whole.len(),
                    self.state == chained(before, before.len() / 64),
                    forall|i: int|
                        0 <= i < self.buf_len ==> self.buffer@[i] == whole[64 * (before.len() / 64)
                            as int + i],
                decreases copy_len - offset,
            {
                self.buffer[self.buf_len] = data[offset];
                self.buf_len = self.buf_len + 1;
                offset += 1;
            }
            proof {
                lemma_chained_prefix(before, whole, before.len() / 64);
            }
            if self.buf_len == 64 {
                let block: [u8; 64] = self.buffer;
                assert(block@ =~= whole.subrange(
                    64 * (before.len() / 64) as int,
                    64 * (before.len() / 64 + 1) as int,
                ));
                self.compress(&block);
                self.buf_len = 0;
            }
        }
        assert(self.state == chained(whole, (before.len() + offset) as nat / 64)) by {
            lemma_chained_prefix(before, whole, before.len() / 64);
        }

        // Then take whole blocks straight from the input.
        while n - offset >= 64
            invariant
                n == data@.len(),
                offset <= n,
                whole == before + data@,
                self.absorbed@ == before,
                self.total_len == whole.len(),
                self.buf_len == (before.len() + offset) % 64,
                offset < n ==> self.buf_len == 0,
                self.state == chained(whole, (before.len() + offset) as nat / 64),
                forall|i: int|
                    0 <= i < self.buf_len ==> self.buffer@[i] == whole[64 * ((before.len() + offset)
                        as nat / 64) as int + i],
            decreases n - offset,
        {
            let block: [u8; 64] = bytes::read_array(data, offset);
            let ghost done = (before.len() + offset) as nat / 64;
            assert(block@ =~= whole.subrange(64 * done as int, 64 * (done + 1) as int));
            self.compress(&block);
            offset += 64;
        }

        // Keep what is left for later.
        if offset < n {
            let remaining: usize = n - offset;
            let mut i: usize = 0;
            while i < remaining
                invariant
                    n == data@.len(),
                    remaining == n - offset,
                    remaining < 64,
                    i <= remaining,
                    whole == before + data@,
                    (before.len() + offset) % 64 == 0,
                    self.absorbed@ == before,
                    self.total_len == whole.len(),
                    self.state == chained(whole, (before.len() + offset) as nat / 64),
                    forall|k: int|
                        0 <= k < i ==> self.buffer@[k] == whole[64 * ((before.len() + offset) as nat
                            / 64) as int + k],
                decreases remaining - i,
            {
                self.buffer[i] = data[offset + i];
                i += 1;
            }
            self.buf_len = remaining;
            assert((before.len() + offset) as nat / 64 == whole.len() / 64);
        }
        self.absorbed = Ghost(whole);
    }

    pub(crate) fn finalize(self) -> (digest: [u8; SHA1_DIGEST_SIZE])
        requires
            self.wf(),
            self.message().len() <= message_limit(),
        ensures
            digest@ == sha1(self.message()),
    {
        let mut h = self;
        let tail: Vec<u8> = build_padding(h.total_len);
        h.update(tail.as_slice());
        reveal(sha1);
        write_digest(h.state)
    }

    fn compress(&mut self, block: &[u8; 64])
        ensures
            final(self).state == compressed(old(self).state, block@),
            final(self).buffer == old(self).buffer,
            final(self).buf_len == old(self).buf_len,
            final(self).total_len == old(self).total_len,
            final(self).absorbed == old(self).absorbed,
    {
        let mut w: [u32; 80] = [0u32;80];
        let mut i: usize = 0;
        while i < 16
            invariant
                i <= 16,
                forall|k: int| 0 <= k < i ==> w@[k] == schedule(block@, k as nat),
            decreases 16 - i,
        {
            w[i] = bytes::read_be32(block.as_slice(), 4 * i);
            i += 1;
        }
        while i < 80
            invariant
                16 <= i <= 80,
                forall|k: int| 0 <= k < i ==> w@[k] == schedule(block@, k as nat),
            decreases 80 - i,
        {
            assert(w@[i - 3] == schedule(block@, (i - 3) as nat));
            assert(w@[i - 8] == schedule(block@, (i - 8) as nat));
            assert(w@[i - 14] == schedule(block@, (i - 14) as nat));
            assert(w@[i - 16] == schedule(block@, (i - 16) as nat));
            w[i] = rotate(w[i - 3] ^ w[i - 8] ^ w[i - 14] ^ w[i - 16], 1);
            i += 1;
        }

        let start: HashState = self.state;
        let mut s: HashState = start;
        let mut t: usize = 0;
        while t < 80
            invariant
                t <= 80,
                forall|k: int| 0 <= k < 80 ==> w@[k] == schedule(block@, k as nat),
                s == rounds(start, block@, t as nat),
            decreases 80 - t,
        {
            s = one_round(s, t, w[t]);
            t += 1;
        }

        self.state = HashState {
            a: plus(start.a, s.a),
            b: plus(start.b, s.b),
            c: plus(start.c, s.c),
            d: plus(start.d, s.d),
            e: plus(start.e, s.e),
        };
    }
}

/// Compute HMAC-SHA1 of `data` under `key`.
pub(crate) fn hmac_sha1(key: &[u8], data: &[u8]) -> (tag: [u8; SHA1_DIGEST_SIZE])
    requires
        key@.len() <= message_limit(),
        data@.len() + 64 <= message_limit(),
    ensures
        tag@ == hmac(key@, data@),
{
    reveal(hmac);
    let mut block_key: Vec<u8> = Vec::with_capacity(SHA1_BLOCK_SIZE);
    if key.len() > SHA1_BLOCK_SIZE {
        let mut h = Sha1::new();
        h.update(key);
        assert(h.message() =~= key@);
        let digest: [u8; SHA1_DIGEST_SIZE] = h.finalize();
        bytes::push_bytes(&mut block_key, digest.as_slice());
    } else {
        bytes::push_bytes(&mut block_key, key);
    }
    let short: usize = block_key.len();
    bytes::push_zeros(&mut block_key, SHA1_BLOCK_SIZE - short);
    assert(block_key@ =~= hmac_block_key(key@));

    let mut ipad: [u8; SHA1_BLOCK_SIZE] = [0x36u8;SHA1_BLOCK_SIZE];
    let mut opad: [u8; SHA1_BLOCK_SIZE] = [0x5Cu8;SHA1_BLOCK_SIZE];
    let mut i: usize = 0;
    while i < SHA1_BLOCK_SIZE
        invariant
            i <= 64,
            block_key@.len() == 64,
            block_key@ == hmac_block_key(key@),
            forall|k: int| 0 <= k < i ==> ipad@[k] == hmac_pad(key@, 0x36)[k],
            forall|k: int| 0 <= k < i ==> opad@[k] == hmac_pad(key@, 0x5C)[k],
            forall|k: int| i <= k < 64 ==> ipad@[k] == 0x36u8,
            forall|k: int| i <= k < 64 ==> opad@[k] == 0x5Cu8,
        decreases 64 - i,
    {
        ipad[i] = ipad[i] ^ block_key[i];
        opad[i] = opad[i] ^ block_key[i];
        i += 1;
    }
    assert(ipad@ =~= hmac_pad(key@, 0x36));
    assert(opad@ =~= hmac_pad(key@, 0x5C));

    let mut inner = Sha1::new();
    inner.update(ipad.as_slice());
    inner.update(data);
    assert(inner.message() =~= hmac_pad(key@, 0x36) + data@);
    let inner_digest: [u8; SHA1_DIGEST_SIZE] = inner.finalize();

    let mut outer = Sha1::new();
    outer.update(opad.as_slice());
    outer.update(inner_digest.as_slice());
    assert(outer.message() =~= hmac_pad(key@, 0x5C) + inner_digest@);
    outer.finalize()
}

} // verus!
