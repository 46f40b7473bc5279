//! Byte strings and the integers stored in them.
//!
//! Radio frames, firmware images and host commands are all byte strings with
//! integers at fixed places. This module says what the stored integers are and
//! provides the few operations that the encoders and decoders are built from.
use vstd::prelude::*;

verus! {

// -------------------------------------------------------------------
// What the bytes of an integer are
// -------------------------------------------------------------------

/// A 16-bit integer, least significant byte first.
pub open spec fn le16(x: u16) -> Seq<u8> {
    seq![(x % 256) as u8, (x / 256) as u8]
}

/// A 16-bit integer, most significant byte first.
pub open spec fn be16(x: u16) -> Seq<u8> {
    seq![(x / 256) as u8, (x % 256) as u8]
}

/// A 32-bit integer, least significant byte first.
pub open spec fn le32(x: u32) -> Seq<u8> {
    seq![
        (x % 256) as u8,
        (x / 0x100 % 256) as u8,
        (x / 0x1_0000 % 256) as u8,
        (x / 0x100_0000) as u8,
    ]
}

/// A 32-bit integer, most significant byte first.
pub open spec fn be32(x: u32) -> Seq<u8> {
    seq![
        (x / 0x100_0000) as u8,
        (x / 0x1_0000 % 256) as u8,
        (x / 0x100 % 256) as u8,
        (x % 256) as u8,
    ]
}

/// A 64-bit integer, most significant byte first.
pub open spec fn be64(x: u64) -> Seq<u8> {
    be32((x / 0x1_0000_0000) as u32) + be32((x % 0x1_0000_0000) as u32)
}

/// The 16-bit integer at `i`, stored least significant byte first.
pub open spec fn le16_at(s: Seq<u8>, i: int) -> u16 {
    (s[i] + 0x100 * s[i + 1]) as u16
}

/// The 16-bit integer at `i`, stored most significant byte first.
pub open spec fn be16_at(s: Seq<u8>, i: int) -> u16 {
    (0x100 * s[i] + s[i + 1]) as u16
}

/// The 32-bit integer at `i`, stored least significant byte first.
pub open spec fn le32_at(s: Seq<u8>, i: int) -> u32 {
    (s[i] + 0x100 * s[i + 1] + 0x1_0000 * s[i + 2] + 0x100_0000 * s[i + 3]) as u32
}

/// The 32-bit integer at `i`, stored most significant byte first.
pub open spec fn be32_at(s: Seq<u8>, i: int) -> u32 {
    (0x100_0000 * s[i] + 0x1_0000 * s[i + 1] + 0x100 * s[i + 2] + s[i + 3]) as u32
}

/// The 64-bit integer at `i`, stored most significant byte first.
pub open spec fn be64_at(s: Seq<u8>, i: int) -> u64 {
    (0x1_0000_0000 * be32_at(s, i) + be32_at(s, i + 4)) as u64
}

/// A run of zero bytes.
pub open spec fn zeros(n: nat) -> Seq<u8> {
    Seq::new(n, |i: int| 0u8)
}

/// The bytewise exclusive or of two byte strings of the same length.
pub open spec fn xor(a: Seq<u8>, b: Seq<u8>) -> Seq<u8>
    recommends
        a.len() == b.len(),
{
    Seq::new(a.len(), |i: int| a[i] ^ b[i])
}

/// Whether `a` comes before `b` in the lexicographic order of byte strings.
pub open spec fn before(a: Seq<u8>, b: Seq<u8>) -> bool
    decreases a.len(),
{
    if b.len() == 0 {
        false
    } else if a.len() == 0 {
        true
    } else if a[0] != b[0] {
        a[0] < b[0]
    } else {
        before(a.skip(1), b.skip(1))
    }
}

// -------------------------------------------------------------------
// Laws
// -------------------------------------------------------------------

/// Reading back a stored 16-bit integer gives the integer that was stored.
pub proof fn lemma_16_bit_round_trip(x: u16)
    ensures
        le16_at(le16(x), 0) == x,
        be16_at(be16(x), 0) == x,
{
}

/// Reading back a stored 32-bit integer gives the integer that was stored.
pub proof fn lemma_32_bit_round_trip(x: u32)
    ensures
        le32_at(le32(x), 0) == x,
        be32_at(be32(x), 0) == x,
{
    assert(x / 0x1_0000 == x / 0x100 / 0x100);
    assert(x / 0x100_0000 == x / 0x1_0000 / 0x100);
}

/// Reading back a stored 64-bit integer gives the integer that was stored.
pub proof fn lemma_64_bit_round_trip(x: u64)
    ensures
        be64_at(be64(x), 0) == x,
{
    let high = (x / 0x1_0000_0000) as u32;
    let low = (x % 0x1_0000_0000) as u32;
    lemma_32_bit_round_trip(high);
    lemma_32_bit_round_trip(low);
    assert(be32_at(be64(x), 0) == be32_at(be32(high), 0));
    assert(be32_at(be64(x), 4) == be32_at(be32(low), 0));
}

/// Masking twice with the same byte string changes nothing.
pub proof fn lemma_xor_twice(a: Seq<u8>, b: Seq<u8>)
    requires
        a.len() == b.len(),
    ensures
        xor(xor(a, b), b) == a,
{
    assert forall|i: int| 0 <= i < a.len() implies xor(xor(a, b), b)[i] == a[i] by {
        lemma_xor_byte_twice(a[i], b[i]);
    }
    assert(xor(xor(a, b), b) =~= a);
}

/// Masking a byte twice with the same mask changes nothing.
pub proof fn lemma_xor_byte_twice(x: u8, y: u8)
    ensures
        (x ^ y) ^ y == x,
        0u8 ^ x == x,
        x ^ y == y ^ x,
        x ^ y == 0 <==> x == y,
{
    assert((x ^ y) ^ y == x) by (bit_vector);
    assert(0u8 ^ x == x) by (bit_vector);
    assert(x ^ y == y ^ x) by (bit_vector);
    assert(x ^ y == 0 <==> x == y) by (bit_vector);
}

/// Of two different byte strings of the same length exactly one comes first,
/// and no byte string comes before itself.
pub proof fn lemma_before_is_total(a: Seq<u8>, b: Seq<u8>)
    requires
        a.len() == b.len(),
    ensures
        a != b ==> before(a, b) == !before(b, a),
        a == b ==> !before(a, b),
    decreases a.len(),
{
    if a.len() > 0 {
        lemma_before_is_total(a.skip(1), b.skip(1));
        if a[0] == b[0] && a.skip(1) == b.skip(1) {
            assert forall|i: int| 0 <= i < a.len() implies a[i] == b[i] by {
                if i > 0 {
                    assert(a[i] == a.skip(1)[i - 1]);
                    assert(b[i] == b.skip(1)[i - 1]);
                }
            }
            assert(a =~= b);
        }
    } else {
        assert(a =~= b);
    }
}

/// The weight of each byte: the first byte of a big-endian integer counts most,
/// that of a little-endian one least.
pub proof fn lemma_byte_weights(x: u16, y: u32, z: u64)
    ensures
        le16(x).len() == 2 && le16(x)[0] + 256 * le16(x)[1] == x,
        be16(x).len() == 2 && 256 * be16(x)[0] + be16(x)[1] == x,
        le32(y).len() == 4 && le32(y)[0] + 0x100 * le32(y)[1] + 0x1_0000 * le32(y)[2] + 0x100_0000
            * le32(y)[3] == y,
        be32(y).len() == 4 && 0x100_0000 * be32(y)[0] + 0x1_0000 * be32(y)[1] + 0x100 * be32(y)[2]
            + be32(y)[3] == y,
        be64(z).len() == 8 && 0x100_0000_0000_0000 * be64(z)[0] + 0x1_0000_0000_0000 * be64(z)[1]
            + 0x100_0000_0000 * be64(z)[2] + 0x1_0000_0000 * be64(z)[3] + 0x100_0000 * be64(z)[4]
            + 0x1_0000 * be64(z)[5] + 0x100 * be64(z)[6] + be64(z)[7] == z,
{
    lemma_32_bit_round_trip(y);
    let high = (z / 0x1_0000_0000) as u32;
    let low = (z % 0x1_0000_0000) as u32;
    lemma_32_bit_round_trip(high);
    lemma_32_bit_round_trip(low);
}

/// What is read at a place in a byte string, byte by byte.
pub proof fn lemma_read_weights(s: Seq<u8>, i: int)
    ensures
        le16_at(s, i) == s[i] + 256 * s[i + 1],
        be16_at(s, i) == 256 * s[i] + s[i + 1],
        le32_at(s, i) == s[i] + 0x100 * s[i + 1] + 0x1_0000 * s[i + 2] + 0x100_0000 * s[i + 3],
        be32_at(s, i) == 0x100_0000 * s[i] + 0x1_0000 * s[i + 1] + 0x100 * s[i + 2] + s[i + 3],
        be64_at(s, i) == 0x100_0000_0000_0000 * s[i] + 0x1_0000_0000_0000 * s[i + 1]
            + 0x100_0000_0000 * s[i + 2] + 0x1_0000_0000 * s[i + 3] + 0x100_0000 * s[i + 4]
            + 0x1_0000 * s[i + 5] + 0x100 * s[i + 6] + s[i + 7],
{
}

/// The order of two byte strings is that of the first byte in which they differ;
/// what follows that byte does not matter. A string comes before every string
/// that it begins.
pub proof fn lemma_first_difference_decides(a: Seq<u8>, b: Seq<u8>, k: int)
    requires
        0 <= k <= a.len(),
        k < b.len(),
        forall|i: int| 0 <= i < k ==> a[i] == b[i],
        k < a.len() ==> a[k] < b[k],
    ensures
        before(a, b),
        !before(b, a),
    decreases k,
{
    if k > 0 {
        assert forall|i: int| 0 <= i < k - 1 implies a.skip(1)[i] == b.skip(1)[i] by {
            assert(a[i + 1] == b[i + 1]);
        }
        assert(a[0] == b[0]);
        lemma_first_difference_decides(a.skip(1), b.skip(1), k - 1);
    }
}

/// An integer that stands somewhere in a byte string is read back there.
pub proof fn lemma_read_where_written(s: Seq<u8>, i: int, x: u16, y: u32, z: u64)
    requires
        0 <= i <= s.len(),
    ensures
        i + 2 <= s.len() && s.subrange(i, i + 2) == le16(x) ==> le16_at(s, i) == x,
        i + 2 <= s.len() && s.subrange(i, i + 2) == be16(x) ==> be16_at(s, i) == x,
        i + 4 <= s.len() && s.subrange(i, i + 4) == le32(y) ==> le32_at(s, i) == y,
        i + 4 <= s.len() && s.subrange(i, i + 4) == be32(y) ==> be32_at(s, i) == y,
        i + 8 <= s.len() && s.subrange(i, i + 8) == be64(z) ==> be64_at(s, i) == z,
{
    lemma_16_bit_round_trip(x);
    lemma_32_bit_round_trip(y);
    lemma_64_bit_round_trip(z);
    if i + 2 <= s.len() {
        let a = s.subrange(i, i + 2);
        assert(a[0] == s[i] && a[1] == s[i + 1]);
    }
    if i + 4 <= s.len() {
        let a = s.subrange(i, i + 4);
        assert(a[0] == s[i] && a[1] == s[i + 1] && a[2] == s[i + 2] && a[3] == s[i + 3]);
    }
    if i + 8 <= s.len() {
        let a = s.subrange(i, i + 8);
        assert(be32_at(a, 0) == be32_at(s, i)) by {
            assert(a[0] == s[i] && a[1] == s[i + 1] && a[2] == s[i + 2] && a[3] == s[i + 3]);
        }
        assert(be32_at(a, 4) == be32_at(s, i + 4)) by {
            assert(a[4] == s[i + 4] && a[5] == s[i + 5] && a[6] == s[i + 6] && a[7] == s[i + 7]);
        }
    }
}

// -------------------------------------------------------------------
// Reading
// -------------------------------------------------------------------

/// Read the 16-bit little-endian integer at `i`.
pub fn read_le16(data: &[u8], i: usize) -> (x: u16)
    requires
        i + 2 <= data@.len(),
    ensures
        x == le16_at(data@, i as int),
{
    let n: usize = data.len();
    assert(i + 2 <= n);
    data[i] as u16 + 0x100 * (data[i + 1] as u16)
}

/// Read the 16-bit big-endian integer at `i`.
pub fn read_be16(data: &[u8], i: usize) -> (x: u16)
    requires
        i + 2 <= data@.len(),
    ensures
        x == be16_at(data@, i as int),
{
    let n: usize = data.len();
    assert(i + 2 <= n);
    0x100 * (data[i] as u16) + data[i + 1] as u16
}

/// Read the 32-bit little-endian integer at `i`.
pub fn read_le32(data: &[u8], i: usize) -> (x: u32)
    requires
        i + 4 <= data@.len(),
    ensures
        x == le32_at(data@, i as int),
{
    let n: usize = data.len();
    assert(i + 4 <= n);
    data[i] as u32 + 0x100 * (data[i + 1] as u32) + 0x1_0000 * (data[i + 2] as u32) + 0x100_0000 * (
    data[i + 3] as u32)
}

/// Read the 32-bit big-endian integer at `i`.
pub fn read_be32(data: &[u8], i: usize) -> (x: u32)
    requires
        i + 4 <= data@.len(),
    ensures
        x == be32_at(data@, i as int),
{
    let n: usize = data.len();
    assert(i + 4 <= n);
    0x100_0000 * (data[i] as u32) + 0x1_0000 * (data[i + 1] as u32) + 0x100 * (data[i + 2] as u32)
        + data[i + 3] as u32
}

/// Read the 64-bit big-endian integer at `i`.
pub fn read_be64(data: &[u8], i: usize) -> (x: u64)
    requires
        i + 8 <= data@.len(),
    ensures
        x == be64_at(data@, i as int),
{
    let n: usize = data.len();
    assert(i + 8 <= n);
    0x1_0000_0000 * (read_be32(data, i) as u64) + read_be32(data, i + 4) as u64
}

/// Copy the `N` bytes at `start` into an array.
pub fn read_array<const N: usize>(data: &[u8], start: usize) -> (out: [u8; N])
    requires
        start + N <= data@.len(),
    ensures
        out@ == data@.subrange(start as int, start + N),
{
    let n: usize = data.len();
    let mut out: [u8; N] = [0u8;N];
    let mut i: usize = 0;
    while i < N
        invariant
            n == data@.len(),
            start + N <= n,
            i <= N,
            out@.len() == N,
            forall|k: int| 0 <= k < i ==> out@[k] == data@[start + k],
        decreases N - i,
    {
        out[i] = data[start + i];
        i += 1;
    }
    assert(out@ =~= data@.subrange(start as int, start + N));
    out
}

/// Compare two byte strings.
pub fn same_bytes(a: &[u8], b: &[u8]) -> (same: bool)
    ensures
        same == (a@ == b@),
{
    if a.len() != b.len() {
        return false;
    }
    let n: usize = a.len();
    let mut i: usize = 0;
    while i < n
        invariant
            n == a@.len(),
            n == b@.len(),
            i <= n,
            forall|k: int| 0 <= k < i ==> a@[k] == b@[k],
        decreases n - i,
    {
        if a[i] != b[i] {
            return false;
        }
        i += 1;
    }
    assert(a@ =~= b@);
    true
}

/// Whether `a` comes before `b` in the lexicographic order.
pub fn comes_before(a: &[u8], b: &[u8]) -> (earlier: bool)
    ensures
        earlier == before(a@, b@),
{
    let mut i: usize = 0;
    assert(a@.skip(0) =~= a@);
    assert(b@.skip(0) =~= b@);
    while i < a.len() && i < b.len()
        invariant
            i <= a@.len(),
            i <= b@.len(),
            before(a@, b@) == before(a@.skip(i as int), b@.skip(i as int)),
        decreases a@.len() - i,
    {
        assert(a@.skip(i as int).skip(1) =~= a@.skip(i + 1));
        assert(b@.skip(i as int).skip(1) =~= b@.skip(i + 1));
        if a[i] != b[i] {
            return a[i] < b[i];
        }
        i += 1;
    }
    i < b.len()
}

// -------------------------------------------------------------------
// Appending
// -------------------------------------------------------------------

/// Append a byte string.
pub fn push_bytes(out: &mut Vec<u8>, data: &[u8])
    ensures
        final(out)@ == old(out)@ + data@,
{
    out.extend_from_slice(data);
    assert(out@ =~= old(out)@ + data@);
}

/// Append one byte.
pub fn push_byte(out: &mut Vec<u8>, x: u8)
    ensures
        final(out)@ == old(out)@ + seq![x],
{
    out.push(x);
    assert(out@ =~= old(out)@ + seq![x]);
}

/// Append `n` zero bytes.
pub fn push_zeros(out: &mut Vec<u8>, n: usize)
    ensures
        final(out)@ == old(out)@ + zeros(n as nat),
{
    let mut i: usize = 0;
    assert(out@ =~= old(out)@ + zeros(0));
    while i < n
        invariant
            i <= n,
            out@ == old(out)@ + zeros(i as nat),
        decreases n - i,
    {
        out.push(0);
        i += 1;
        assert(out@ =~= old(out)@ + zeros(i as nat));
    }
}

/// Append a 16-bit integer, least significant byte first.
pub fn push_le16(out: &mut Vec<u8>, x: u16)
    ensures
        final(out)@ == old(out)@ + le16(x),
{
    out.push((x % 256) as u8);
    out.push((x / 256) as u8);
    assert(out@ =~= old(out)@ + le16(x));
}

/// Append a 16-bit integer, most significant byte first.
pub fn push_be16(out: &mut Vec<u8>, x: u16)
    ensures
        final(out)@ == old(out)@ + be16(x),
{
    out.push((x / 256) as u8);
    out.push((x % 256) as u8);
    assert(out@ =~= old(out)@ + be16(x));
}

/// Append a 32-bit integer, least significant byte first.
pub fn push_le32(out: &mut Vec<u8>, x: u32)
    ensures
        final(out)@ == old(out)@ + le32(x),
{
    out.push((x % 256) as u8);
    out.push((x / 0x100 % 256) as u8);
    out.push((x / 0x1_0000 % 256) as u8);
    out.push((x / 0x100_0000) as u8);
    assert(out@ =~= old(out)@ + le32(x));
}

/// Append a 32-bit integer, most significant byte first.
pub fn push_be32(out: &mut Vec<u8>, x: u32)
    ensures
        final(out)@ == old(out)@ + be32(x),
{
    out.push((x / 0x100_0000) as u8);
    out.push((x / 0x1_0000 % 256) as u8);
    out.push((x / 0x100 % 256) as u8);
    out.push((x % 256) as u8);
    assert(out@ =~= old(out)@ + be32(x));
}

/// Append a 64-bit integer, most significant byte first.
pub fn push_be64(out: &mut Vec<u8>, x: u64)
    ensures
        final(out)@ == old(out)@ + be64(x),
{
    push_be32(out, (x / 0x1_0000_0000) as u32);
    push_be32(out, (x % 0x1_0000_0000) as u32);
    assert(out@ =~= old(out)@ + be64(x));
}

} // verus!
