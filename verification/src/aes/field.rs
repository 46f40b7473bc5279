//! The substitution table of AES and the field that it comes from.
use crate::aes;
use vstd::prelude::*;

verus! {

/// The product of two bytes in GF(2^8), bit by bit of the second.
#[verifier::opaque]
pub open spec fn product(x: u8, y: u8) -> u8 {
    let x1 = aes::xtime(x);
    let x2 = aes::xtime(x1);
    let x3 = aes::xtime(x2);
    let x4 = aes::xtime(x3);
    let x5 = aes::xtime(x4);
    let x6 = aes::xtime(x5);
    let x7 = aes::xtime(x6);
    (x * (y & 1)) as u8 ^ (x1 * ((y >> 1) & 1)) as u8 ^ (x2 * ((y >> 2) & 1)) as u8 ^ (x3 * ((y >> 3)
        & 1)) as u8 ^ (x4 * ((y >> 4) & 1)) as u8 ^ (x5 * ((y >> 5) & 1)) as u8 ^ (x6 * ((y >> 6)
        & 1)) as u8 ^ (x7 * ((y >> 7) & 1)) as u8
}

/// A byte rotated left by `n` bits, for `n` from 1 to 7.
pub open spec fn turned(x: u8, n: u8) -> u8 {
    (x << n) | (x >> ((8 - n) as u8))
}

/// The inverse of the affine map of the substitution.
#[verifier::opaque]
pub open spec fn unmapped(s: u8) -> u8 {
    turned(s, 1) ^ turned(s, 3) ^ turned(s, 6) ^ 0x05
}

/// Whether the substitution of every byte below `n`, but of zero, is the affine
/// map of its inverse in the field.
spec fn inverted_below(n: nat) -> bool
    decreases n,
{
    n <= 1 || (product((n - 1) as u8, unmapped(aes::SBOX@[n - 1])) == 1 && inverted_below(
        (n - 1) as nat,
    ))
}

proof fn lemma_inverted()
    ensures
        inverted_below(256),
{
    assert(inverted_below(32)) by {
        reveal_with_fuel(inverted_below, 33);
        assert(product(0x01u8, unmapped(0x7cu8)) == 1
            && product(0x02u8, unmapped(0x77u8)) == 1
            && product(0x03u8, unmapped(0x7bu8)) == 1
            && product(0x04u8, unmapped(0xf2u8)) == 1
            && product(0x05u8, unmapped(0x6bu8)) == 1
            && product(0x06u8, unmapped(0x6fu8)) == 1
            && product(0x07u8, unmapped(0xc5u8)) == 1
            && product(0x08u8, unmapped(0x30u8)) == 1
            && product(0x09u8, unmapped(0x01u8)) == 1
            && product(0x0au8, unmapped(0x67u8)) == 1
            && product(0x0bu8, unmapped(0x2bu8)) == 1
            && product(0x0cu8, unmapped(0xfeu8)) == 1
            && product(0x0du8, unmapped(0xd7u8)) == 1
            && product(0x0eu8, unmapped(0xabu8)) == 1
            && product(0x0fu8, unmapped(0x76u8)) == 1
            && product(0x10u8, unmapped(0xcau8)) == 1
            && product(0x11u8, unmapped(0x82u8)) == 1
            && product(0x12u8, unmapped(0xc9u8)) == 1
            && product(0x13u8, unmapped(0x7du8)) == 1
            && product(0x14u8, unmapped(0xfau8)) == 1
            && product(0x15u8, unmapped(0x59u8)) == 1
            && product(0x16u8, unmapped(0x47u8)) == 1
            && product(0x17u8, unmapped(0xf0u8)) == 1
            && product(0x18u8, unmapped(0xadu8)) == 1
            && product(0x19u8, unmapped(0xd4u8)) == 1
            && product(0x1au8, unmapped(0xa2u8)) == 1
            && product(0x1bu8, unmapped(0xafu8)) == 1
            && product(0x1cu8, unmapped(0x9cu8)) == 1
            && product(0x1du8, unmapped(0xa4u8)) == 1
            && product(0x1eu8, unmapped(0x72u8)) == 1
            && product(0x1fu8, unmapped(0xc0u8)) == 1) by (bit_vector);
    }
    assert(inverted_below(64)) by {
        reveal_with_fuel(inverted_below, 33);
        assert(product(0x20u8, unmapped(0xb7u8)) == 1
            && product(0x21u8, unmapped(0xfdu8)) == 1
            && product(0x22u8, unmapped(0x93u8)) == 1
            && product(0x23u8, unmapped(0x26u8)) == 1
            && product(0x24u8, unmapped(0x36u8)) == 1
            && product(0x25u8, unmapped(0x3fu8)) == 1
            && product(0x26u8, unmapped(0xf7u8)) == 1
            && product(0x27u8, unmapped(0xccu8)) == 1
            && product(0x28u8, unmapped(0x34u8)) == 1
            && product(0x29u8, unmapped(0xa5u8)) == 1
            && product(0x2au8, unmapped(0xe5u8)) == 1
            && product(0x2bu8, unmapped(0xf1u8)) == 1
            && product(0x2cu8, unmapped(0x71u8)) == 1
            && product(0x2du8, unmapped(0xd8u8)) == 1
            && product(0x2eu8, unmapped(0x31u8)) == 1
            && product(0x2fu8, unmapped(0x15u8)) == 1
            && product(0x30u8, unmapped(0x04u8)) == 1
            && product(0x31u8, unmapped(0xc7u8)) == 1
            && product(0x32u8, unmapped(0x23u8)) == 1
            && product(0x33u8, unmapped(0xc3u8)) == 1
            && product(0x34u8, unmapped(0x18u8)) == 1
            && product(0x35u8, unmapped(0x96u8)) == 1
            && product(0x36u8, unmapped(0x05u8)) == 1
            && product(0x37u8, unmapped(0x9au8)) == 1
            && product(0x38u8, unmapped(0x07u8)) == 1
            && product(0x39u8, unmapped(0x12u8)) == 1
            && product(0x3au8, unmapped(0x80u8)) == 1
            && product(0x3bu8, unmapped(0xe2u8)) == 1
            && product(0x3cu8, unmapped(0xebu8)) == 1
            && product(0x3du8, unmapped(0x27u8)) == 1
            && product(0x3eu8, unmapped(0xb2u8)) == 1
            && product(0x3fu8, unmapped(0x75u8)) == 1) by (bit_vector);
    }
    assert(inverted_below(96)) by {
        reveal_with_fuel(inverted_below, 33);
        assert(product(0x40u8, unmapped(0x09u8)) == 1
            && product(0x41u8, unmapped(0x83u8)) == 1
            && product(0x42u8, unmapped(0x2cu8)) == 1
            && product(0x43u8, unmapped(0x1au8)) == 1
            && product(0x44u8, unmapped(0x1bu8)) == 1
            && product(0x45u8, unmapped(0x6eu8)) == 1
            && product(0x46u8, unmapped(0x5au8)) == 1
            && product(0x47u8, unmapped(0xa0u8)) == 1
            && product(0x48u8, unmapped(0x52u8)) == 1
            && product(0x49u8, unmapped(0x3bu8)) == 1
            && product(0x4au8, unmapped(0xd6u8)) == 1
            && product(0x4bu8, unmapped(0xb3u8)) == 1
            && product(0x4cu8, unmapped(0x29u8)) == 1
            && product(0x4du8, unmapped(0xe3u8)) == 1
            && product(0x4eu8, unmapped(0x2fu8)) == 1
            && product(0x4fu8, unmapped(0x84u8)) == 1
            && product(0x50u8, unmapped(0x53u8)) == 1
            && product(0x51u8, unmapped(0xd1u8)) == 1
            && product(0x52u8, unmapped(0x00u8)) == 1
            && product(0x53u8, unmapped(0xedu8)) == 1
            && product(0x54u8, unmapped(0x20u8)) == 1
            && product(0x55u8, unmapped(0xfcu8)) == 1
            && product(0x56u8, unmapped(0xb1u8)) == 1
            && product(0x57u8, unmapped(0x5bu8)) == 1
            && product(0x58u8, unmapped(0x6au8)) == 1
            && product(0x59u8, unmapped(0xcbu8)) == 1
            && product(0x5au8, unmapped(0xbeu8)) == 1
            && product(0x5bu8, unmapped(0x39u8)) == 1
            && product(0x5cu8, unmapped(0x4au8)) == 1
            && product(0x5du8, unmapped(0x4cu8)) == 1
            && product(0x5eu8, unmapped(0x58u8)) == 1
            && product(0x5fu8, unmapped(0xcfu8)) == 1) by (bit_vector);
    }
    assert(inverted_below(128)) by {
        reveal_with_fuel(inverted_below, 33);
        assert(product(0x60u8, unmapped(0xd0u8)) == 1
            && product(0x61u8, unmapped(0xefu8)) == 1
            && product(0x62u8, unmapped(0xaau8)) == 1
            && product(0x63u8, unmapped(0xfbu8)) == 1
            && product(0x64u8, unmapped(0x43u8)) == 1
            && product(0x65u8, unmapped(0x4du8)) == 1
            && product(0x66u8, unmapped(0x33u8)) == 1
            && product(0x67u8, unmapped(0x85u8)) == 1
            && product(0x68u8, unmapped(0x45u8)) == 1
            && product(0x69u8, unmapped(0xf9u8)) == 1
            && product(0x6au8, unmapped(0x02u8)) == 1
            && product(0x6bu8, unmapped(0x7fu8)) == 1
            && product(0x6cu8, unmapped(0x50u8)) == 1
            && product(0x6du8, unmapped(0x3cu8)) == 1
            && product(0x6eu8, unmapped(0x9fu8)) == 1
            && product(0x6fu8, unmapped(0xa8u8)) == 1
            && product(0x70u8, unmapped(0x51u8)) == 1
            && product(0x71u8, unmapped(0xa3u8)) == 1
            && product(0x72u8, unmapped(0x40u8)) == 1
            && product(0x73u8, unmapped(0x8fu8)) == 1
            && product(0x74u8, unmapped(0x92u8)) == 1
            && product(0x75u8, unmapped(0x9du8)) == 1
            && product(0x76u8, unmapped(0x38u8)) == 1
            && product(0x77u8, unmapped(0xf5u8)) == 1
            && product(0x78u8, unmapped(0xbcu8)) == 1
            && product(0x79u8, unmapped(0xb6u8)) == 1
            && product(0x7au8, unmapped(0xdau8)) == 1
            && product(0x7bu8, unmapped(0x21u8)) == 1
            && product(0x7cu8, unmapped(0x10u8)) == 1
            && product(0x7du8, unmapped(0xffu8)) == 1
            && product(0x7eu8, unmapped(0xf3u8)) == 1
            && product(0x7fu8, unmapped(0xd2u8)) == 1) by (bit_vector);
    }
    assert(inverted_below(160)) by {
        reveal_with_fuel(inverted_below, 33);
        assert(product(0x80u8, unmapped(0xcdu8)) == 1
            && product(0x81u8, unmapped(0x0cu8)) == 1
            && product(0x82u8, unmapped(0x13u8)) == 1
            && product(0x83u8, unmapped(0xecu8)) == 1
            && product(0x84u8, unmapped(0x5fu8)) == 1
            && product(0x85u8, unmapped(0x97u8)) == 1
            && product(0x86u8, unmapped(0x44u8)) == 1
            && product(0x87u8, unmapped(0x17u8)) == 1
            && product(0x88u8, unmapped(0xc4u8)) == 1
            && product(0x89u8, unmapped(0xa7u8)) == 1
            && product(0x8au8, unmapped(0x7eu8)) == 1
            && product(0x8bu8, unmapped(0x3du8)) == 1
            && product(0x8cu8, unmapped(0x64u8)) == 1
            && product(0x8du8, unmapped(0x5du8)) == 1
            && product(0x8eu8, unmapped(0x19u8)) == 1
            && product(0x8fu8, unmapped(0x73u8)) == 1
            && product(0x90u8, unmapped(0x60u8)) == 1
            && product(0x91u8, unmapped(0x81u8)) == 1
            && product(0x92u8, unmapped(0x4fu8)) == 1
            && product(0x93u8, unmapped(0xdcu8)) == 1
            && product(0x94u8, unmapped(0x22u8)) == 1
            && product(0x95u8, unmapped(0x2au8)) == 1
            && product(0x96u8, unmapped(0x90u8)) == 1
            && product(0x97u8, unmapped(0x88u8)) == 1
            && product(0x98u8, unmapped(0x46u8)) == 1
            && product(0x99u8, unmapped(0xeeu8)) == 1
            && product(0x9au8, unmapped(0xb8u8)) == 1
            && product(0x9bu8, unmapped(0x14u8)) == 1
            && product(0x9cu8, unmapped(0xdeu8)) == 1
            && product(0x9du8, unmapped(0x5eu8)) == 1
            && product(0x9eu8, unmapped(0x0bu8)) == 1
            && product(0x9fu8, unmapped(0xdbu8)) == 1) by (bit_vector);
    }
    assert(inverted_below(192)) by {
        reveal_with_fuel(inverted_below, 33);
        assert(product(0xa0u8, unmapped(0xe0u8)) == 1
            && product(0xa1u8, unmapped(0x32u8)) == 1
            && product(0xa2u8, unmapped(0x3au8)) == 1
            && product(0xa3u8, unmapped(0x0au8)) == 1
            && product(0xa4u8, unmapped(0x49u8)) == 1
            && product(0xa5u8, unmapped(0x06u8)) == 1
            && product(0xa6u8, unmapped(0x24u8)) == 1
            && product(0xa7u8, unmapped(0x5cu8)) == 1
            && product(0xa8u8, unmapped(0xc2u8)) == 1
            && product(0xa9u8, unmapped(0xd3u8)) == 1
            && product(0xaau8, unmapped(0xacu8)) == 1
            && product(0xabu8, unmapped(0x62u8)) == 1
            && product(0xacu8, unmapped(0x91u8)) == 1
            && product(0xadu8, unmapped(0x95u8)) == 1
            && product(0xaeu8, unmapped(0xe4u8)) == 1
            && product(0xafu8, unmapped(0x79u8)) == 1
            && product(0xb0u8, unmapped(0xe7u8)) == 1
            && product(0xb1u8, unmapped(0xc8u8)) == 1
            && product(0xb2u8, unmapped(0x37u8)) == 1
            && product(0xb3u8, unmapped(0x6du8)) == 1
            && product(0xb4u8, unmapped(0x8du8)) == 1
            && product(0xb5u8, unmapped(0xd5u8)) == 1
            && product(0xb6u8, unmapped(0x4eu8)) == 1
            && product(0xb7u8, unmapped(0xa9u8)) == 1
            && product(0xb8u8, unmapped(0x6cu8)) == 1
            && product(0xb9u8, unmapped(0x56u8)) == 1
            && product(0xbau8, unmapped(0xf4u8)) == 1
            && product(0xbbu8, unmapped(0xeau8)) == 1
            && product(0xbcu8, unmapped(0x65u8)) == 1
            && product(0xbdu8, unmapped(0x7au8)) == 1
            && product(0xbeu8, unmapped(0xaeu8)) == 1
            && product(0xbfu8, unmapped(0x08u8)) == 1) by (bit_vector);
    }
    assert(inverted_below(224)) by {
        reveal_with_fuel(inverted_below, 33);
        assert(product(0xc0u8, unmapped(0xbau8)) == 1
            && product(0xc1u8, unmapped(0x78u8)) == 1
            && product(0xc2u8, unmapped(0x25u8)) == 1
            && product(0xc3u8, unmapped(0x2eu8)) == 1
            && product(0xc4u8, unmapped(0x1cu8)) == 1
            && product(0xc5u8, unmapped(0xa6u8)) == 1
            && product(0xc6u8, unmapped(0xb4u8)) == 1
            && product(0xc7u8, unmapped(0xc6u8)) == 1
            && product(0xc8u8, unmapped(0xe8u8)) == 1
            && product(0xc9u8, unmapped(0xddu8)) == 1
            && product(0xcau8, unmapped(0x74u8)) == 1
            && product(0xcbu8, unmapped(0x1fu8)) == 1
            && product(0xccu8, unmapped(0x4bu8)) == 1
            && product(0xcdu8, unmapped(0xbdu8)) == 1
            && product(0xceu8, unmapped(0x8bu8)) == 1
            && product(0xcfu8, unmapped(0x8au8)) == 1
            && product(0xd0u8, unmapped(0x70u8)) == 1
            && product(0xd1u8, unmapped(0x3eu8)) == 1
            && product(0xd2u8, unmapped(0xb5u8)) == 1
            && product(0xd3u8, unmapped(0x66u8)) == 1
            && product(0xd4u8, unmapped(0x48u8)) == 1
            && product(0xd5u8, unmapped(0x03u8)) == 1
            && product(0xd6u8, unmapped(0xf6u8)) == 1
            && product(0xd7u8, unmapped(0x0eu8)) == 1
            && product(0xd8u8, unmapped(0x61u8)) == 1
            && product(0xd9u8, unmapped(0x35u8)) == 1
            && product(0xdau8, unmapped(0x57u8)) == 1
            && product(0xdbu8, unmapped(0xb9u8)) == 1
            && product(0xdcu8, unmapped(0x86u8)) == 1
            && product(0xddu8, unmapped(0xc1u8)) == 1
            && product(0xdeu8, unmapped(0x1du8)) == 1
            && product(0xdfu8, unmapped(0x9eu8)) == 1) by (bit_vector);
    }
    assert(inverted_below(256)) by {
        reveal_with_fuel(inverted_below, 33);
        assert(product(0xe0u8, unmapped(0xe1u8)) == 1
            && product(0xe1u8, unmapped(0xf8u8)) == 1
            && product(0xe2u8, unmapped(0x98u8)) == 1
            && product(0xe3u8, unmapped(0x11u8)) == 1
            && product(0xe4u8, unmapped(0x69u8)) == 1
            && product(0xe5u8, unmapped(0xd9u8)) == 1
            && product(0xe6u8, unmapped(0x8eu8)) == 1
            && product(0xe7u8, unmapped(0x94u8)) == 1
            && product(0xe8u8, unmapped(0x9bu8)) == 1
            && product(0xe9u8, unmapped(0x1eu8)) == 1
            && product(0xeau8, unmapped(0x87u8)) == 1
            && product(0xebu8, unmapped(0xe9u8)) == 1
            && product(0xecu8, unmapped(0xceu8)) == 1
            && product(0xedu8, unmapped(0x55u8)) == 1
            && product(0xeeu8, unmapped(0x28u8)) == 1
            && product(0xefu8, unmapped(0xdfu8)) == 1
            && product(0xf0u8, unmapped(0x8cu8)) == 1
            && product(0xf1u8, unmapped(0xa1u8)) == 1
            && product(0xf2u8, unmapped(0x89u8)) == 1
            && product(0xf3u8, unmapped(0x0du8)) == 1
            && product(0xf4u8, unmapped(0xbfu8)) == 1
            && product(0xf5u8, unmapped(0xe6u8)) == 1
            && product(0xf6u8, unmapped(0x42u8)) == 1
            && product(0xf7u8, unmapped(0x68u8)) == 1
            && product(0xf8u8, unmapped(0x41u8)) == 1
            && product(0xf9u8, unmapped(0x99u8)) == 1
            && product(0xfau8, unmapped(0x2du8)) == 1
            && product(0xfbu8, unmapped(0x0fu8)) == 1
            && product(0xfcu8, unmapped(0xb0u8)) == 1
            && product(0xfdu8, unmapped(0x54u8)) == 1
            && product(0xfeu8, unmapped(0xbbu8)) == 1
            && product(0xffu8, unmapped(0x16u8)) == 1) by (bit_vector);
    }
}

proof fn lemma_inverted_at(n: nat, x: int)
    requires
        inverted_below(n),
        0 < x < n <= 256,
    ensures
        product(x as u8, unmapped(aes::SBOX@[x])) == 1,
    decreases n,
{
    if x < n - 1 {
        lemma_inverted_at((n - 1) as nat, x);
    }
}

/// The substitution is the inverse in GF(2^8) followed by an affine map: undoing
/// the map leaves the byte's inverse, and for zero, which has none, zero.
pub proof fn lemma_substitution_is_field_inverse(x: u8)
    ensures
        x != 0 ==> product(x, unmapped(aes::SBOX@[x as int])) == 1,
        unmapped(aes::SBOX@[0]) == 0,
{
    lemma_inverted();
    if x != 0 {
        lemma_inverted_at(256, x as int);
    }
    assert(unmapped(0x63) == 0) by (bit_vector);
}

} // verus!
