//! AES-128 encryption of single blocks (FIPS 197).
use crate::bytes;
use vstd::prelude::*;

pub mod field;

verus! {

/// The substitution table.
pub const SBOX: [u8; 256] = [
    0x63, 0x7c, 0x77, 0x7b, 0xf2, 0x6b, 0x6f, 0xc5, 0x30, 0x01, 0x67, 0x2b, 0xfe, 0xd7, 0xab, 0x76,
    0xca, 0x82, 0xc9, 0x7d, 0xfa, 0x59, 0x47, 0xf0, 0xad, 0xd4, 0xa2, 0xaf, 0x9c, 0xa4, 0x72, 0xc0,
    0xb7, 0xfd, 0x93, 0x26, 0x36, 0x3f, 0xf7, 0xcc, 0x34, 0xa5, 0xe5, 0xf1, 0x71, 0xd8, 0x31, 0x15,
    0x04, 0xc7, 0x23, 0xc3, 0x18, 0x96, 0x05, 0x9a, 0x07, 0x12, 0x80, 0xe2, 0xeb, 0x27, 0xb2, 0x75,
    0x09, 0x83, 0x2c, 0x1a, 0x1b, 0x6e, 0x5a, 0xa0, 0x52, 0x3b, 0xd6, 0xb3, 0x29, 0xe3, 0x2f, 0x84,
    0x53, 0xd1, 0x00, 0xed, 0x20, 0xfc, 0xb1, 0x5b, 0x6a, 0xcb, 0xbe, 0x39, 0x4a, 0x4c, 0x58, 0xcf,
    0xd0, 0xef, 0xaa, 0xfb, 0x43, 0x4d, 0x33, 0x85, 0x45, 0xf9, 0x02, 0x7f, 0x50, 0x3c, 0x9f, 0xa8,
    0x51, 0xa3, 0x40, 0x8f, 0x92, 0x9d, 0x38, 0xf5, 0xbc, 0xb6, 0xda, 0x21, 0x10, 0xff, 0xf3, 0xd2,
    0xcd, 0x0c, 0x13, 0xec, 0x5f, 0x97, 0x44, 0x17, 0xc4, 0xa7, 0x7e, 0x3d, 0x64, 0x5d, 0x19, 0x73,
    0x60, 0x81, 0x4f, 0xdc, 0x22, 0x2a, 0x90, 0x88, 0x46, 0xee, 0xb8, 0x14, 0xde, 0x5e, 0x0b, 0xdb,
    0xe0, 0x32, 0x3a, 0x0a, 0x49, 0x06, 0x24, 0x5c, 0xc2, 0xd3, 0xac, 0x62, 0x91, 0x95, 0xe4, 0x79,
    0xe7, 0xc8, 0x37, 0x6d, 0x8d, 0xd5, 0x4e, 0xa9, 0x6c, 0x56, 0xf4, 0xea, 0x65, 0x7a, 0xae, 0x08,
    0xba, 0x78, 0x25, 0x2e, 0x1c, 0xa6, 0xb4, 0xc6, 0xe8, 0xdd, 0x74, 0x1f, 0x4b, 0xbd, 0x8b, 0x8a,
    0x70, 0x3e, 0xb5, 0x66, 0x48, 0x03, 0xf6, 0x0e, 0x61, 0x35, 0x57, 0xb9, 0x86, 0xc1, 0x1d, 0x9e,
    0xe1, 0xf8, 0x98, 0x11, 0x69, 0xd9, 0x8e, 0x94, 0x9b, 0x1e, 0x87, 0xe9, 0xce, 0x55, 0x28, 0xdf,
    0x8c, 0xa1, 0x89, 0x0d, 0xbf, 0xe6, 0x42, 0x68, 0x41, 0x99, 0x2d, 0x0f, 0xb0, 0x54, 0xbb, 0x16,
];

/// The inverse of the substitution table.
pub const INVERSE_SBOX: [u8; 256] = [
    0x52, 0x09, 0x6a, 0xd5, 0x30, 0x36, 0xa5, 0x38, 0xbf, 0x40, 0xa3, 0x9e, 0x81, 0xf3, 0xd7, 0xfb,
    0x7c, 0xe3, 0x39, 0x82, 0x9b, 0x2f, 0xff, 0x87, 0x34, 0x8e, 0x43, 0x44, 0xc4, 0xde, 0xe9, 0xcb,
    0x54, 0x7b, 0x94, 0x32, 0xa6, 0xc2, 0x23, 0x3d, 0xee, 0x4c, 0x95, 0x0b, 0x42, 0xfa, 0xc3, 0x4e,
    0x08, 0x2e, 0xa1, 0x66, 0x28, 0xd9, 0x24, 0xb2, 0x76, 0x5b, 0xa2, 0x49, 0x6d, 0x8b, 0xd1, 0x25,
    0x72, 0xf8, 0xf6, 0x64, 0x86, 0x68, 0x98, 0x16, 0xd4, 0xa4, 0x5c, 0xcc, 0x5d, 0x65, 0xb6, 0x92,
    0x6c, 0x70, 0x48, 0x50, 0xfd, 0xed, 0xb9, 0xda, 0x5e, 0x15, 0x46, 0x57, 0xa7, 0x8d, 0x9d, 0x84,
    0x90, 0xd8, 0xab, 0x00, 0x8c, 0xbc, 0xd3, 0x0a, 0xf7, 0xe4, 0x58, 0x05, 0xb8, 0xb3, 0x45, 0x06,
    0xd0, 0x2c, 0x1e, 0x8f, 0xca, 0x3f, 0x0f, 0x02, 0xc1, 0xaf, 0xbd, 0x03, 0x01, 0x13, 0x8a, 0x6b,
    0x3a, 0x91, 0x11, 0x41, 0x4f, 0x67, 0xdc, 0xea, 0x97, 0xf2, 0xcf, 0xce, 0xf0, 0xb4, 0xe6, 0x73,
    0x96, 0xac, 0x74, 0x22, 0xe7, 0xad, 0x35, 0x85, 0xe2, 0xf9, 0x37, 0xe8, 0x1c, 0x75, 0xdf, 0x6e,
    0x47, 0xf1, 0x1a, 0x71, 0x1d, 0x29, 0xc5, 0x89, 0x6f, 0xb7, 0x62, 0x0e, 0xaa, 0x18, 0xbe, 0x1b,
    0xfc, 0x56, 0x3e, 0x4b, 0xc6, 0xd2, 0x79, 0x20, 0x9a, 0xdb, 0xc0, 0xfe, 0x78, 0xcd, 0x5a, 0xf4,
    0x1f, 0xdd, 0xa8, 0x33, 0x88, 0x07, 0xc7, 0x31, 0xb1, 0x12, 0x10, 0x59, 0x27, 0x80, 0xec, 0x5f,
    0x60, 0x51, 0x7f, 0xa9, 0x19, 0xb5, 0x4a, 0x0d, 0x2d, 0xe5, 0x7a, 0x9f, 0x93, 0xc9, 0x9c, 0xef,
    0xa0, 0xe0, 0x3b, 0x4d, 0xae, 0x2a, 0xf5, 0xb0, 0xc8, 0xeb, 0xbb, 0x3c, 0x83, 0x53, 0x99, 0x61,
    0x17, 0x2b, 0x04, 0x7e, 0xba, 0x77, 0xd6, 0x26, 0xe1, 0x69, 0x14, 0x63, 0x55, 0x21, 0x0c, 0x7d,
];

/// The round constants of the key schedule.
pub const RCON: [u8; 10] = [0x01, 0x02, 0x04, 0x08, 0x10, 0x20, 0x40, 0x80, 0x1b, 0x36];

// -------------------------------------------------------------------
// What AES-128 computes
// -------------------------------------------------------------------

/// Multiplication by x in GF(2^8), the field of the polynomial x^8 + x^4 + x^3 + x + 1.
pub open spec fn xtime(x: u8) -> u8 {
    if x & 0x80 != 0 {
        (x << 1) ^ 0x1b
    } else {
        x << 1
    }
}

/// Every byte replaced through the substitution table.
pub open spec fn sub_bytes(s: Seq<u8>) -> Seq<u8> {
    Seq::new(16, |i: int| SBOX@[s[i] as int])
}

/// Row `r` of the column-major state rotated left by `r` places.
pub open spec fn shift_rows(s: Seq<u8>) -> Seq<u8> {
    Seq::new(16, |i: int| s[(i + 4 * (i % 4)) % 16])
}

/// One byte of a mixed column: 2a + 3b + c + d over GF(2^8).
pub open spec fn mixed(a: u8, b: u8, c: u8, d: u8) -> u8 {
    xtime(a) ^ (xtime(b) ^ b) ^ c ^ d
}

/// The byte `k` places further down the column that holds position `i`.
pub open spec fn in_column(s: Seq<u8>, i: int, k: int) -> u8 {
    s[4 * (i / 4) + (i + k) % 4]
}

/// Every column multiplied by the MixColumns matrix.
pub open spec fn mix_columns(s: Seq<u8>) -> Seq<u8> {
    Seq::new(
        16,
        |i: int| mixed(in_column(s, i, 0), in_column(s, i, 1), in_column(s, i, 2), in_column(s, i, 3)),
    )
}

/// Byte `j` of the round key that follows `prev`.
pub open spec fn next_key_byte(prev: Seq<u8>, rcon: u8, j: nat) -> u8
    decreases j,
{
    if j == 0 {
        prev[0] ^ (SBOX@[prev[13] as int] ^ rcon)
    } else if j < 4 {
        prev[j as int] ^ SBOX@[prev[12 + (j as int + 1) % 4] as int]
    } else {
        prev[j as int] ^ next_key_byte(prev, rcon, (j - 4) as nat)
    }
}

/// The key of round `i`.
pub open spec fn round_key(key: Seq<u8>, i: nat) -> Seq<u8>
    decreases i,
{
    if i == 0 {
        key
    } else {
        let prev = round_key(key, (i - 1) as nat);
        Seq::new(16, |j: int| next_key_byte(prev, RCON@[i - 1], j as nat))
    }
}

/// The state after the initial key addition and the first `n` full rounds.
pub open spec fn full_rounds(key: Seq<u8>, block: Seq<u8>, n: nat) -> Seq<u8>
    decreases n,
{
    if n == 0 {
        bytes::xor(block, round_key(key, 0))
    } else {
        bytes::xor(
            mix_columns(shift_rows(sub_bytes(full_rounds(key, block, (n - 1) as nat)))),
            round_key(key, n),
        )
    }
}

/// The AES-128 encryption of a block: nine full rounds and one without MixColumns.
#[verifier::opaque]
pub open spec fn encrypted(key: Seq<u8>, block: Seq<u8>) -> Seq<u8> {
    bytes::xor(shift_rows(sub_bytes(full_rounds(key, block, 9))), round_key(key, 10))
}

// -------------------------------------------------------------------
// Lemmas
// -------------------------------------------------------------------

/// An encrypted block is as long as the block itself.
pub proof fn lemma_encrypted_len(key: Seq<u8>, block: Seq<u8>)
    ensures
        encrypted(key, block).len() == 16,
{
    reveal(encrypted);
}

/// Whether the inverse table undoes the substitution of the first `n` bytes.
spec fn undone_below(n: nat) -> bool
    decreases n,
{
    n == 0 || (INVERSE_SBOX@[SBOX@[n - 1] as int] == n - 1 && undone_below((n - 1) as nat))
}

proof fn lemma_undone()
    ensures
        undone_below(256),
{
    assert(undone_below(32)) by {
        reveal_with_fuel(undone_below, 33);
    }
    assert(undone_below(64)) by {
        reveal_with_fuel(undone_below, 33);
    }
    assert(undone_below(96)) by {
        reveal_with_fuel(undone_below, 33);
    }
    assert(undone_below(128)) by {
        reveal_with_fuel(undone_below, 33);
    }
    assert(undone_below(160)) by {
        reveal_with_fuel(undone_below, 33);
    }
    assert(undone_below(192)) by {
        reveal_with_fuel(undone_below, 33);
    }
    assert(undone_below(224)) by {
        reveal_with_fuel(undone_below, 33);
    }
    assert(undone_below(256)) by {
        reveal_with_fuel(undone_below, 33);
    }
}

proof fn lemma_undone_at(n: nat, x: int)
    requires
        undone_below(n),
        0 <= x < n,
    ensures
        INVERSE_SBOX@[SBOX@[x] as int] == x,
    decreases n,
{
    if x < n - 1 {
        lemma_undone_at((n - 1) as nat, x);
    }
}

/// The inverse table undoes the substitution of every byte.
pub proof fn lemma_substitution_inverts(x: u8)
    ensures
        INVERSE_SBOX@[SBOX@[x as int] as int] == x,
{
    lemma_undone();
    lemma_undone_at(256, x as int);
}

/// One byte of a column before it was mixed: 14a + 11b + 13c + 9d over GF(2^8).
spec fn unmixed(a: u8, b: u8, c: u8, d: u8) -> u8 {
    let sum = a ^ b ^ c ^ d;
    xtime(xtime(xtime(sum) ^ a ^ c) ^ a ^ b) ^ b ^ c ^ d
}

proof fn lemma_unmixed(a: u8, b: u8, c: u8, d: u8)
    ensures
        unmixed(mixed(a, b, c, d), mixed(b, c, d, a), mixed(c, d, a, b), mixed(d, a, b, c)) == a,
{
    assert(unmixed(mixed(a, b, c, d), mixed(b, c, d, a), mixed(c, d, a, b), mixed(d, a, b, c))
        == a) by (bit_vector);
}

/// Key addition, substitution, row shifts and column mixing each keep different
/// blocks different.
proof fn lemma_steps_injective(a: Seq<u8>, b: Seq<u8>, key: Seq<u8>)
    requires
        a.len() == 16,
        b.len() == 16,
    ensures
        bytes::xor(a, key) == bytes::xor(b, key) ==> a == b,
        sub_bytes(a) == sub_bytes(b) ==> a == b,
        shift_rows(a) == shift_rows(b) ==> a == b,
        mix_columns(a) == mix_columns(b) ==> a == b,
{
    if bytes::xor(a, key) == bytes::xor(b, key) {
        assert forall|i: int| 0 <= i < 16 implies a[i] == b[i] by {
            assert(bytes::xor(a, key)[i] == bytes::xor(b, key)[i]);
            bytes::lemma_xor_byte_twice(a[i], key[i]);
            bytes::lemma_xor_byte_twice(b[i], key[i]);
        }
        assert(a =~= b);
    }
    if sub_bytes(a) == sub_bytes(b) {
        assert forall|i: int| 0 <= i < 16 implies a[i] == b[i] by {
            assert(sub_bytes(a)[i] == sub_bytes(b)[i]);
            lemma_substitution_inverts(a[i]);
            lemma_substitution_inverts(b[i]);
        }
        assert(a =~= b);
    }
    if shift_rows(a) == shift_rows(b) {
        assert forall|i: int| 0 <= i < 16 implies a[i] == b[i] by {
            let j = (i + 12 * (i % 4)) % 16;
            assert((j + 4 * (j % 4)) % 16 == i);
            assert(shift_rows(a)[j] == shift_rows(b)[j]);
        }
        assert(a =~= b);
    }
    if mix_columns(a) == mix_columns(b) {
        assert forall|i: int| 0 <= i < 16 implies a[i] == b[i] by {
            lemma_column_unmixed(a, i);
            lemma_column_unmixed(b, i);
        }
        assert(a =~= b);
    }
}

/// A byte is found again in its mixed column.
proof fn lemma_column_unmixed(s: Seq<u8>, i: int)
    requires
        s.len() == 16,
        0 <= i < 16,
    ensures
        ({
            let m = mix_columns(s);
            unmixed(in_column(m, i, 0), in_column(m, i, 1), in_column(m, i, 2), in_column(m, i, 3))
                == s[i]
        }),
{
    let (a, b, c, d) = (
        in_column(s, i, 0),
        in_column(s, i, 1),
        in_column(s, i, 2),
        in_column(s, i, 3),
    );
    let m = mix_columns(s);
    assert(in_column(m, i, 0) == mixed(a, b, c, d));
    assert(in_column(m, i, 1) == mixed(b, c, d, a));
    assert(in_column(m, i, 2) == mixed(c, d, a, b));
    assert(in_column(m, i, 3) == mixed(d, a, b, c));
    lemma_unmixed(a, b, c, d);
}

proof fn lemma_full_rounds_injective(key: Seq<u8>, a: Seq<u8>, b: Seq<u8>, n: nat)
    requires
        a.len() == 16,
        b.len() == 16,
        full_rounds(key, a, n) == full_rounds(key, b, n),
    ensures
        a == b,
    decreases n,
{
    if n == 0 {
        lemma_steps_injective(a, b, round_key(key, 0));
    } else {
        let p = full_rounds(key, a, (n - 1) as nat);
        let q = full_rounds(key, b, (n - 1) as nat);
        lemma_steps_injective(
            mix_columns(shift_rows(sub_bytes(p))),
            mix_columns(shift_rows(sub_bytes(q))),
            round_key(key, n),
        );
        lemma_steps_injective(shift_rows(sub_bytes(p)), shift_rows(sub_bytes(q)), key);
        lemma_steps_injective(sub_bytes(p), sub_bytes(q), key);
        lemma_steps_injective(p, q, key);
        lemma_full_rounds_injective(key, a, b, (n - 1) as nat);
    }
}

/// Under one key, different blocks are encrypted to different blocks.
pub proof fn lemma_encryption_injective(key: Seq<u8>, a: Seq<u8>, b: Seq<u8>)
    requires
        a.len() == 16,
        b.len() == 16,
        a != b,
    ensures
        encrypted(key, a) != encrypted(key, b),
{
    reveal(encrypted);
    if encrypted(key, a) == encrypted(key, b) {
        let p = full_rounds(key, a, 9);
        let q = full_rounds(key, b, 9);
        lemma_steps_injective(
            shift_rows(sub_bytes(p)),
            shift_rows(sub_bytes(q)),
            round_key(key, 10),
        );
        lemma_steps_injective(sub_bytes(p), sub_bytes(q), key);
        lemma_steps_injective(p, q, key);
        lemma_full_rounds_injective(key, a, b, 9);
    }
}

proof fn lemma_mixed_by_sum(a: u8, b: u8, c: u8, d: u8)
    ensures
        a ^ (a ^ b ^ c ^ d) ^ xtime(a ^ b) == mixed(a, b, c, d),
{
    assert(a ^ (a ^ b ^ c ^ d) ^ xtime(a ^ b) == xtime(a) ^ (xtime(b) ^ b) ^ c ^ d) by (bit_vector);
}

proof fn lemma_sum_rotates(a: u8, b: u8, c: u8, d: u8)
    by (bit_vector)
    ensures
        a ^ b ^ c ^ d == b ^ c ^ d ^ a,
        a ^ b ^ c ^ d == c ^ d ^ a ^ b,
        a ^ b ^ c ^ d == d ^ a ^ b ^ c,
{
}

// -------------------------------------------------------------------
// Implementation
// -------------------------------------------------------------------

fn gf_mul2(x: u8) -> (r: u8)
    ensures
        r == xtime(x),
{
    if x & 0x80 != 0 {
        (x << 1) ^ 0x1b
    } else {
        x << 1
    }
}

fn aes_key_expand(key: &[u8; 16]) -> (round_keys: [[u8; 16]; 11])
    ensures
        forall|i: int| 0 <= i < 11 ==> (#[trigger] round_keys@[i])@ == round_key(key@, i as nat),
{
    let mut round_keys: [[u8; 16]; 11] = [[0u8;16];11];
    round_keys[0] = *key;
    let mut i: usize = 1;
    while i < 11
        invariant
            1 <= i <= 11,
            forall|k: int| 0 <= k < i ==> (#[trigger] round_keys@[k])@ == round_key(key@, k as nat),
        decreases 11 - i,
    {
        let prev: [u8; 16] = round_keys[i - 1];
        assert(prev@ == round_key(key@, (i - 1) as nat));
        let rcon: u8 = RCON[i - 1];
        let mut next: [u8; 16] = [0u8;16];
        // RotWord, SubWord and the round constant make up the first word.
        next[0] = prev[0] ^ (SBOX[prev[13] as usize] ^ rcon);
        next[1] = prev[1] ^ SBOX[prev[14] as usize];
        next[2] = prev[2] ^ SBOX[prev[15] as usize];
        next[3] = prev[3] ^ SBOX[prev[12] as usize];
        let mut j: usize = 4;
        while j < 16
            invariant
                4 <= j <= 16,
                forall|k: int| 0 <= k < j ==> next@[k] == next_key_byte(prev@, rcon, k as nat),
            decreases 16 - j,
        {
            next[j] = prev[j] ^ next[j - 4];
            j += 1;
        }
        round_keys[i] = next;
        assert(next@ =~= round_key(key@, i as nat));
        i += 1;
    }
    round_keys
}

fn add_round_key(block: &mut [u8; 16], key: &[u8; 16])
    ensures
        final(block)@ == bytes::xor(old(block)@, key@),
{
    let ghost start = block@;
    let mut i: usize = 0;
    while i < 16
        invariant
            i <= 16,
            forall|k: int| 0 <= k < i ==> block@[k] == start[k] ^ key@[k],
            forall|k: int| i <= k < 16 ==> block@[k] == start[k],
        decreases 16 - i,
    {
        block[i] = block[i] ^ key[i];
        i += 1;
    }
    assert(block@ =~= bytes::xor(start, key@));
}

fn substitute(block: &mut [u8; 16])
    ensures
        final(block)@ == sub_bytes(old(block)@),
{
    let ghost start = block@;
    let mut i: usize = 0;
    while i < 16
        invariant
            i <= 16,
            forall|k: int| 0 <= k < i ==> block@[k] == SBOX@[start[k] as int],
            forall|k: int| i <= k < 16 ==> block@[k] == start[k],
        decreases 16 - i,
    {
        block[i] = SBOX[block[i] as usize];
        i += 1;
    }
    assert(block@ =~= sub_bytes(start));
}

fn rotate_rows(block: &mut [u8; 16])
    ensures
        final(block)@ == shift_rows(old(block)@),
{
    let ghost start = block@;
    let tmp: u8 = block[1];
    block[1] = block[5];
    block[5] = block[9];
    block[9] = block[13];
    block[13] = tmp;

    let tmp: u8 = block[2];
    block[2] = block[10];
    block[10] = tmp;
    let tmp: u8 = block[6];
    block[6] = block[14];
    block[14] = tmp;

    let tmp: u8 = block[15];
    block[15] = block[11];
    block[11] = block[7];
    block[7] = block[3];
    block[3] = tmp;
    assert(block@ =~= shift_rows(start));
}

fn multiply_columns(block: &mut [u8; 16])
    ensures
        final(block)@ == mix_columns(old(block)@),
{
    let ghost start = block@;
    let mut col: usize = 0;
    while col < 4
        invariant
            col <= 4,
            forall|k: int| 0 <= k < 4 * col ==> block@[k] == mix_columns(start)[k],
            forall|k: int| 4 * col <= k < 16 ==> block@[k] == start[k],
        decreases 4 - col,
    {
        let i: usize = col * 4;
        let a: u8 = block[i];
        let b: u8 = block[i + 1];
        let c: u8 = block[i + 2];
        let d: u8 = block[i + 3];
        let sum: u8 = a ^ b ^ c ^ d;
        block[i] = a ^ sum ^ gf_mul2(a ^ b);
        block[i + 1] = b ^ sum ^ gf_mul2(b ^ c);
        block[i + 2] = c ^ sum ^ gf_mul2(c ^ d);
        block[i + 3] = d ^ sum ^ gf_mul2(d ^ a);
        proof {
            lemma_sum_rotates(a, b, c, d);
            lemma_mixed_by_sum(a, b, c, d);
            lemma_mixed_by_sum(b, c, d, a);
            lemma_mixed_by_sum(c, d, a, b);
            lemma_mixed_by_sum(d, a, b, c);
            assert(block@[i as int] == mix_columns(start)[i as int]);
            assert(block@[i + 1] == mix_columns(start)[i + 1]);
            assert(block@[i + 2] == mix_columns(start)[i + 2]);
            assert(block@[i + 3] == mix_columns(start)[i + 3]);
        }
        col += 1;
    }
    assert(block@ =~= mix_columns(start));
}

/// AES-128 key schedule (expanded key).
pub struct Aes128 {
    round_keys: [[u8; 16]; 11],
    key: Ghost<Seq<u8>>,
}

impl Aes128 {
    /// The key that the cipher was made from.
    pub closed spec fn key(&self) -> Seq<u8> {
        self.key@
    }

    /// Every round key is the one that the key schedule gives.
    #[verifier::type_invariant]
    closed spec fn expanded(self) -> bool {
        forall|i: int|
            0 <= i < 11 ==> (#[trigger] self.round_keys@[i])@ == round_key(self.key@, i as nat)
    }

    /// Create a new AES-128 cipher from a 16-byte key.
    pub fn new(key: &[u8; 16]) -> (cipher: Self)
        ensures
            cipher.key() == key@,
    {
        let round_keys: [[u8; 16]; 11] = aes_key_expand(key);
        Aes128 { round_keys, key: Ghost(key@) }
    }

    /// Encrypt a single 16-byte block in place.
    pub fn encrypt_block(&self, block: &mut [u8; 16])
        ensures
            final(block)@ == encrypted(self.key(), old(block)@),
    {
        proof {
            use_type_invariant(self);
            reveal(encrypted);
        }
        let ghost start = block@;
        let ghost key = self.key@;
        assert(self.round_keys@[0]@ == round_key(key, 0));
        add_round_key(block, &self.round_keys[0]);
        let mut round: usize = 1;
        while round < 10
            invariant
                1 <= round <= 10,
                forall|i: int|
                    0 <= i < 11 ==> (#[trigger] self.round_keys@[i])@ == round_key(key, i as nat),
                block@ == full_rounds(key, start, (round - 1) as nat),
            decreases 10 - round,
        {
            substitute(block);
            rotate_rows(block);
            multiply_columns(block);
            assert(self.round_keys@[round as int]@ == round_key(key, round as nat));
            add_round_key(block, &self.round_keys[round]);
            round += 1;
        }
        substitute(block);
        rotate_rows(block);
        assert(self.round_keys@[10]@ == round_key(key, 10));
        add_round_key(block, &self.round_keys[10]);
    }
}

} // verus!
