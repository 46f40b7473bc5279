//! WPA2-PSK authentication: PBKDF2-SHA1 key derivation, 4-way handshake,
//! and AES-CCMP encryption/decryption.
//!
//! # WPA2-PSK flow
//!
//! 1. **PSK derivation**: PBKDF2-HMAC-SHA1(passphrase, SSID, 4096, 32) -> PSK (= PMK).
//! 2. **4-way handshake** (EAPOL-Key frames):
//!    - AP -> STA: ANonce (message 1)
//!    - STA -> AP: SNonce + MIC (message 2)
//!    - AP -> STA: GTK + MIC (message 3)
//!    - STA -> AP: ACK + MIC (message 4)
//! 3. **PTK derivation**: PRF-384(PMK, "Pairwise key expansion", min(AA,SPA) || max(AA,SPA) || min(ANonce,SNonce) || max(ANonce,SNonce))
//!    - PTK = KCK (16B) || KEK (16B) || TK (16B)
//! 4. **AES-CCMP** encryption using the TK for unicast data frames.
use crate::bytes;
use crate::sha1;
use crate::views;
use vstd::prelude::*;

pub use crate::aes::Aes128;
pub use crate::ccm::{ccmp_decrypt, ccmp_encrypt, CcmpNonce};

verus! {

// -------------------------------------------------------------------
// PBKDF2-HMAC-SHA1 (for PSK derivation)
// -------------------------------------------------------------------

/// The `c`-th value of the HMAC chain of a block; the chain starts at 1.
pub open spec fn pbkdf2_link(passphrase: Seq<u8>, salt: Seq<u8>, block: u32, c: nat) -> Seq<u8>
    decreases c,
{
    if c <= 1 {
        sha1::hmac(passphrase, salt + bytes::be32(block))
    } else {
        sha1::hmac(passphrase, pbkdf2_link(passphrase, salt, block, (c - 1) as nat))
    }
}

/// The exclusive or of the first `c` values of the HMAC chain of a block.
pub open spec fn pbkdf2_block(passphrase: Seq<u8>, salt: Seq<u8>, block: u32, c: nat) -> Seq<u8>
    decreases c,
{
    if c <= 1 {
        pbkdf2_link(passphrase, salt, block, 1)
    } else {
        bytes::xor(
            pbkdf2_block(passphrase, salt, block, (c - 1) as nat),
            pbkdf2_link(passphrase, salt, block, c),
        )
    }
}

/// The first `n` blocks of key material.
pub open spec fn pbkdf2_blocks(passphrase: Seq<u8>, salt: Seq<u8>, c: nat, n: nat) -> Seq<u8>
    decreases n,
{
    if n == 0 {
        Seq::empty()
    } else {
        pbkdf2_blocks(passphrase, salt, c, (n - 1) as nat) + pbkdf2_block(
            passphrase,
            salt,
            n as u32,
            c,
        )
    }
}

/// PBKDF2-HMAC-SHA1. Zero iterations count as one.
pub open spec fn pbkdf2(passphrase: Seq<u8>, salt: Seq<u8>, c: nat, key_len: nat) -> Seq<u8> {
    pbkdf2_blocks(passphrase, salt, c, (key_len + 19) / 20).take(key_len as int)
}

proof fn lemma_pbkdf2_block_len(passphrase: Seq<u8>, salt: Seq<u8>, block: u32, c: nat)
    ensures
        pbkdf2_link(passphrase, salt, block, c).len() == 20,
        pbkdf2_block(passphrase, salt, block, c).len() == 20,
    decreases c,
{
    if c > 1 {
        lemma_pbkdf2_block_len(passphrase, salt, block, (c - 1) as nat);
    }
    lemma_pbkdf2_link_len(passphrase, salt, block, c);
    lemma_pbkdf2_link_len(passphrase, salt, block, 1);
}

proof fn lemma_pbkdf2_link_len(passphrase: Seq<u8>, salt: Seq<u8>, block: u32, c: nat)
    ensures
        pbkdf2_link(passphrase, salt, block, c).len() == 20,
{
    sha1::lemma_hmac_len(passphrase, salt + bytes::be32(block));
    sha1::lemma_hmac_len(passphrase, pbkdf2_link(passphrase, salt, block, (c - 1) as nat));
}

/// PBKDF2 gives as many bytes as are asked for.
pub proof fn lemma_pbkdf2_len(passphrase: Seq<u8>, salt: Seq<u8>, c: nat, key_len: nat)
    ensures
        pbkdf2(passphrase, salt, c, key_len).len() == key_len,
{
    lemma_pbkdf2_blocks_len(passphrase, salt, c, (key_len + 19) / 20);
}

proof fn lemma_pbkdf2_blocks_len(passphrase: Seq<u8>, salt: Seq<u8>, c: nat, n: nat)
    ensures
        pbkdf2_blocks(passphrase, salt, c, n).len() == 20 * n,
    decreases n,
{
    if n > 0 {
        lemma_pbkdf2_blocks_len(passphrase, salt, c, (n - 1) as nat);
        lemma_pbkdf2_block_len(passphrase, salt, n as u32, c);
    }
}

/// A shorter key is the start of a longer one, for the same passphrase, salt and
/// number of iterations.
pub proof fn lemma_pbkdf2_prefix(
    passphrase: Seq<u8>,
    salt: Seq<u8>,
    c: nat,
    key_len: nat,
    longer: nat,
)
    requires
        key_len <= longer,
    ensures
        pbkdf2(passphrase, salt, c, key_len) == pbkdf2(passphrase, salt, c, longer).take(
            key_len as int,
        ),
{
    let n = (key_len + 19) / 20;
    let m = (longer + 19) / 20;
    lemma_pbkdf2_blocks_len(passphrase, salt, c, n);
    lemma_pbkdf2_blocks_len(passphrase, salt, c, m);
    lemma_pbkdf2_blocks_prefix(passphrase, salt, c, n, m);
    let blocks = pbkdf2_blocks(passphrase, salt, c, n);
    let all = pbkdf2_blocks(passphrase, salt, c, m);
    assert forall|i: int| 0 <= i < key_len implies blocks[i] == all[i] by {
        assert(all.take(20 * n as int)[i] == all[i]);
    }
    assert(blocks.take(key_len as int) =~= all.take(longer as int).take(key_len as int));
}

proof fn lemma_pbkdf2_blocks_prefix(
    passphrase: Seq<u8>,
    salt: Seq<u8>,
    c: nat,
    n: nat,
    m: nat,
)
    requires
        n <= m,
    ensures
        pbkdf2_blocks(passphrase, salt, c, n) == pbkdf2_blocks(passphrase, salt, c, m).take(
            20 * n as int,
        ),
    decreases m - n,
{
    lemma_pbkdf2_blocks_len(passphrase, salt, c, n);
    lemma_pbkdf2_blocks_len(passphrase, salt, c, m);
    let all = pbkdf2_blocks(passphrase, salt, c, m);
    if n == m {
        assert(all.take(20 * n as int) =~= all);
    } else {
        let shorter = pbkdf2_blocks(passphrase, salt, c, (m - 1) as nat);
        lemma_pbkdf2_blocks_len(passphrase, salt, c, (m - 1) as nat);
        lemma_pbkdf2_blocks_prefix(passphrase, salt, c, n, (m - 1) as nat);
        assert(all.take(20 * n as int) =~= shorter.take(20 * n as int));
    }
}

/// One block of key material.
fn derive_block(passphrase: &[u8], ssid: &[u8], iterations: u32, block: u32) -> (result: [u8; 20])
    requires
        passphrase@.len() <= sha1::message_limit(),
        ssid@.len() + 68 <= sha1::message_limit(),
    ensures
        result@ == pbkdf2_block(passphrase@, ssid@, block, iterations as nat),
{
    let mut salt_block: Vec<u8> = Vec::new();
    bytes::push_bytes(&mut salt_block, ssid);
    bytes::push_be32(&mut salt_block, block);
    assert(salt_block@ =~= ssid@ + bytes::be32(block));
    let mut u: [u8; 20] = sha1::hmac_sha1(passphrase, salt_block.as_slice());
    let mut result: [u8; 20] = u;
    let mut c: u32 = 1;
    while c < iterations
        invariant
            1 <= c,
            c == 1 || c <= iterations,
            passphrase@.len() <= sha1::message_limit(),
            u@ == pbkdf2_link(passphrase@, ssid@, block, c as nat),
            result@ == pbkdf2_block(passphrase@, ssid@, block, c as nat),
        decreases iterations - c,
    {
        u = sha1::hmac_sha1(passphrase, u.as_slice());
        let ghost before = result@;
        let mut j: usize = 0;
        while j < 20
            invariant
                j <= 20,
                forall|k: int| 0 <= k < j ==> result@[k] == before[k] ^ u@[k],
                forall|k: int| j <= k < 20 ==> result@[k] == before[k],
            decreases 20 - j,
        {
            result[j] = result[j] ^ u[j];
            j += 1;
        }
        assert(result@ =~= bytes::xor(before, u@));
        c += 1;
    }
    result
}

/// Derive a WPA2 PSK from a passphrase and SSID using PBKDF2-HMAC-SHA1.
///
/// WPA2-PSK uses 4096 iterations and produces a 32-byte key (256 bits).
pub fn pbkdf2_sha1(passphrase: &[u8], ssid: &[u8], iterations: u32, key_len: usize) -> (output: Vec<
    u8,
>)
    requires
        passphrase@.len() <= sha1::message_limit(),
        ssid@.len() + 68 <= sha1::message_limit(),
        key_len <= 20 * (u32::MAX - 1),
    ensures
        output@ == pbkdf2(passphrase@, ssid@, iterations as nat, key_len as nat),
{
    let mut output: Vec<u8> = Vec::with_capacity(key_len);
    let mut block: u32 = 1;
    let ghost total = (key_len as nat + 19) / 20;
    while output.len() < key_len
        invariant
            passphrase@.len() <= sha1::message_limit(),
            ssid@.len() + 68 <= sha1::message_limit(),
            key_len <= 20 * (u32::MAX - 1),
            total == (key_len as nat + 19) / 20,
            1 <= block <= total + 1,
            output@.len() <= key_len,
            output@.len() < key_len ==> {
                &&& block <= total
                &&& output@ == pbkdf2_blocks(
                    passphrase@,
                    ssid@,
                    iterations as nat,
                    (block - 1) as nat,
                )
                &&& output@.len() == 20 * (block - 1)
            },
            output@.len() == key_len ==> output@ == pbkdf2(
                passphrase@,
                ssid@,
                iterations as nat,
                key_len as nat,
            ),
        decreases key_len - output@.len(),
    {
        let result: [u8; 20] = derive_block(passphrase, ssid, iterations, block);
        let remaining: usize = key_len - output.len();
        let ghost before = output@;
        let ghost all = pbkdf2_blocks(passphrase@, ssid@, iterations as nat, block as nat);
        assert(all == before + result@);
        if remaining < 20 {
            bytes::push_bytes(
                &mut output,
                vstd::slice::slice_subrange(result.as_slice(), 0, remaining),
            );
            assert(output@ =~= all.take(key_len as int));
        } else {
            bytes::push_bytes(&mut output, result.as_slice());
            assert(output@ =~= all);
            assert(all =~= all.take(all.len() as int));
        }
        block += 1;
    }
    proof {
        if key_len == 0 {
            assert(output@ =~= pbkdf2(passphrase@, ssid@, iterations as nat, 0));
        }
    }
    output
}

/// The WPA2 pairwise master key of a passphrase and an SSID.
pub open spec fn psk(passphrase: Seq<char>, ssid: Seq<char>) -> Seq<u8> {
    pbkdf2(vstd::utf8::encode_utf8(passphrase), vstd::utf8::encode_utf8(ssid), 4096, 32)
}

/// Derive a WPA2 PSK (Pairwise Master Key) from passphrase and SSID.
///
/// This is the standard WPA2-PSK derivation: PBKDF2-HMAC-SHA1 with 4096
/// iterations producing a 256-bit (32-byte) PMK.
pub fn derive_psk(passphrase: &str, ssid: &str) -> (key: [u8; 32])
    requires
        vstd::utf8::encode_utf8(passphrase@).len() <= sha1::message_limit(),
        vstd::utf8::encode_utf8(ssid@).len() + 68 <= sha1::message_limit(),
    ensures
        key@ == psk(passphrase@, ssid@),
{
    let key: Vec<u8> = pbkdf2_sha1(passphrase.as_bytes(), ssid.as_bytes(), 4096, 32);
    proof {
        lemma_pbkdf2_len(
            vstd::utf8::encode_utf8(passphrase@),
            vstd::utf8::encode_utf8(ssid@),
            4096,
            32,
        );
    }
    let out: [u8; 32] = bytes::read_array(key.as_slice(), 0);
    assert(out@ =~= key@);
    out
}

// -------------------------------------------------------------------
// PRF-X (pseudo-random function for PTK derivation)
// -------------------------------------------------------------------

/// The first `n` blocks of PRF-X: block `i` is HMAC-SHA1(K, A || 0x00 || B || i).
pub open spec fn prf_blocks(key: Seq<u8>, label: Seq<u8>, data: Seq<u8>, n: nat) -> Seq<u8>
    decreases n,
{
    if n == 0 {
        Seq::empty()
    } else {
        prf_blocks(key, label, data, (n - 1) as nat) + sha1::hmac(
            key,
            label + seq![0x00u8] + data + seq![(n - 1) as u8],
        )
    }
}

/// PRF-X, cut to `len` bytes.
pub open spec fn prf_output(key: Seq<u8>, label: Seq<u8>, data: Seq<u8>, len: nat) -> Seq<u8> {
    prf_blocks(key, label, data, (len + 19) / 20).take(len as int)
}

proof fn lemma_prf_blocks_len(key: Seq<u8>, label: Seq<u8>, data: Seq<u8>, n: nat)
    ensures
        prf_blocks(key, label, data, n).len() == 20 * n,
    decreases n,
{
    if n > 0 {
        lemma_prf_blocks_len(key, label, data, (n - 1) as nat);
        sha1::lemma_hmac_len(key, label + seq![0x00u8] + data + seq![(n - 1) as u8]);
    }
}

/// PRF-384 used for PTK derivation.
///
/// PRF-X(K, A, B) = HMAC-SHA1(K, A || 0x00 || B || counter) for each block.
fn prf(key: &[u8], label: &[u8], data: &[u8], output_len: usize) -> (result: Vec<u8>)
    requires
        key@.len() <= sha1::message_limit(),
        label@.len() + data@.len() + 66 <= sha1::message_limit(),
        output_len <= 20 * 255,
    ensures
        result@ == prf_output(key@, label@, data@, output_len as nat),
        result@.len() == output_len,
{
    let mut result: Vec<u8> = Vec::with_capacity(output_len);
    let mut counter: u8 = 0;
    let ghost total = (output_len as nat + 19) / 20;
    while result.len() < output_len
        invariant
            key@.len() <= sha1::message_limit(),
            label@.len() + data@.len() + 66 <= sha1::message_limit(),
            output_len <= 20 * 255,
            total == (output_len as nat + 19) / 20,
            counter <= total,
            result@.len() <= output_len,
            result@.len() < output_len ==> {
                &&& counter < total
                &&& result@ == prf_blocks(key@, label@, data@, counter as nat)
                &&& result@.len() == 20 * counter
            },
            result@.len() == output_len ==> result@ == prf_output(
                key@,
                label@,
                data@,
                output_len as nat,
            ) || output_len == 0,
        decreases output_len - result@.len(),
    {
        let mut input: Vec<u8> = Vec::new();
        bytes::push_bytes(&mut input, label);
        input.push(0x00);
        bytes::push_bytes(&mut input, data);
        input.push(counter);
        assert(input@ =~= label@ + seq![0x00u8] + data@ + seq![counter]);
        let block: [u8; 20] = sha1::hmac_sha1(key, input.as_slice());
        let remaining: usize = output_len - result.len();
        let ghost all = prf_blocks(key@, label@, data@, (counter + 1) as nat);
        assert(all == result@ + block@);
        if remaining < 20 {
            bytes::push_bytes(
                &mut result,
                vstd::slice::slice_subrange(block.as_slice(), 0, remaining),
            );
            assert(result@ =~= all.take(output_len as int));
        } else {
            bytes::push_bytes(&mut result, block.as_slice());
            assert(result@ =~= all);
            assert(all =~= all.take(all.len() as int));
        }
        counter += 1;
    }
    proof {
        lemma_prf_blocks_len(key@, label@, data@, total);
        if output_len == 0 {
            assert(result@ =~= prf_output(key@, label@, data@, 0));
        }
    }
    result
}

// -------------------------------------------------------------------
// PTK derivation
// -------------------------------------------------------------------

/// Pairwise Transient Key derived from the 4-way handshake.
#[derive(Debug, Clone)]
pub struct Ptk {
    /// Key Confirmation Key (16 bytes), used for MIC in EAPOL frames.
    pub kck: [u8; 16],
    /// Key Encryption Key (16 bytes), used to decrypt GTK in message 3.
    pub kek: [u8; 16],
    /// Temporal Key (16 bytes), used for AES-CCMP data encryption.
    pub tk: [u8; 16],
}

/// The three keys of a [`Ptk`] as byte strings.
pub ghost struct PairwiseKeys {
    pub kck: Seq<u8>,
    pub kek: Seq<u8>,
    pub tk: Seq<u8>,
}

impl View for Ptk {
    type V = PairwiseKeys;

    open spec fn view(&self) -> PairwiseKeys {
        PairwiseKeys { kck: self.kck@, kek: self.kek@, tk: self.tk@ }
    }
}

/// The earlier of two byte strings, then the later one.
pub open spec fn in_order(a: Seq<u8>, b: Seq<u8>) -> Seq<u8> {
    if bytes::before(a, b) {
        a + b
    } else {
        b + a
    }
}

/// What the pairwise keys are bound to:
/// min(AA,SPA) || max(AA,SPA) || min(ANonce,SNonce) || max(ANonce,SNonce).
pub open spec fn pairwise_context(aa: Seq<u8>, spa: Seq<u8>, anonce: Seq<u8>, snonce: Seq<u8>) -> Seq<
    u8,
> {
    in_order(aa, spa) + in_order(anonce, snonce)
}

/// The label of the pairwise key expansion.
pub open spec fn expansion_label() -> Seq<u8> {
    vstd::utf8::encode_utf8("Pairwise key expansion"@)
}

/// The pairwise keys: the output of PRF-384, cut in three.
pub open spec fn pairwise_keys(
    pmk: Seq<u8>,
    aa: Seq<u8>,
    spa: Seq<u8>,
    anonce: Seq<u8>,
    snonce: Seq<u8>,
) -> PairwiseKeys {
    let material = prf_output(
        pmk,
        expansion_label(),
        pairwise_context(aa, spa, anonce, snonce),
        48,
    );
    PairwiseKeys {
        kck: material.subrange(0, 16),
        kek: material.subrange(16, 32),
        tk: material.subrange(32, 48),
    }
}

/// Both ends of a link derive the same keys: it does not matter which station
/// is called authenticator and which supplicant, as long as the nonces are
/// exchanged with the addresses.
pub proof fn lemma_pairwise_keys_agree(
    pmk: Seq<u8>,
    aa: Seq<u8>,
    spa: Seq<u8>,
    anonce: Seq<u8>,
    snonce: Seq<u8>,
)
    requires
        aa.len() == spa.len(),
        anonce.len() == snonce.len(),
    ensures
        pairwise_keys(pmk, aa, spa, anonce, snonce) == pairwise_keys(pmk, spa, aa, snonce, anonce),
{
    bytes::lemma_before_is_total(aa, spa);
    bytes::lemma_before_is_total(anonce, snonce);
    assert(in_order(aa, spa) == in_order(spa, aa));
    assert(in_order(anonce, snonce) == in_order(snonce, anonce));
}

fn push_in_order(out: &mut Vec<u8>, a: &[u8], b: &[u8])
    ensures
        final(out)@ == old(out)@ + in_order(a@, b@),
{
    if bytes::comes_before(a, b) {
        bytes::push_bytes(out, a);
        bytes::push_bytes(out, b);
    } else {
        bytes::push_bytes(out, b);
        bytes::push_bytes(out, a);
    }
    assert(out@ =~= old(out)@ + in_order(a@, b@));
}

/// Derive the PTK from the PMK and nonce values.
///
/// - `pmk`: Pairwise Master Key (= PSK for WPA2-Personal).
/// - `aa`: Authenticator Address (AP's MAC address).
/// - `spa`: Supplicant Address (our MAC address).
/// - `anonce`: Authenticator nonce (from 4-way handshake message 1).
/// - `snonce`: Supplicant nonce (generated by us for message 2).
pub fn derive_ptk(
    pmk: &[u8; 32],
    aa: &[u8; 6],
    spa: &[u8; 6],
    anonce: &[u8; 32],
    snonce: &[u8; 32],
) -> (ptk: Ptk)
    ensures
        ptk@ == pairwise_keys(pmk@, aa@, spa@, anonce@, snonce@),
{
    let mut b: Vec<u8> = Vec::with_capacity(76);
    push_in_order(&mut b, aa.as_slice(), spa.as_slice());
    push_in_order(&mut b, anonce.as_slice(), snonce.as_slice());
    assert(b@ =~= pairwise_context(aa@, spa@, anonce@, snonce@));

    let label: &str = "Pairwise key expansion";
    proof {
        reveal_strlit("Pairwise key expansion");
        vstd::utf8::is_ascii_chars_encode_utf8(label@);
    }
    let material: Vec<u8> = prf(pmk.as_slice(), label.as_bytes(), b.as_slice(), 48);
    Ptk {
        kck: bytes::read_array(material.as_slice(), 0),
        kek: bytes::read_array(material.as_slice(), 16),
        tk: bytes::read_array(material.as_slice(), 32),
    }
}

// -------------------------------------------------------------------
// EAPOL-Key frame parsing and construction
// -------------------------------------------------------------------

/// EAPOL-Key frame type byte.
pub const EAPOL_KEY_TYPE: u8 = 0x03;

/// IEEE 802.1X-2004 version.
pub const EAPOL_VERSION: u8 = 0x02;

/// Key info: HMAC-SHA1 MIC and AES key wrap.
pub const KEY_INFO_TYPE_HMAC_SHA1: u16 = 0x0002;

/// Key info: pairwise key.
pub const KEY_INFO_PAIRWISE: u16 = 0x0008;

/// Key info: the sender expects an answer.
pub const KEY_INFO_ACK: u16 = 0x0080;

/// Key info: the MIC field is valid.
pub const KEY_INFO_MIC: u16 = 0x0100;

/// Key info: the initial key exchange is complete.
pub const KEY_INFO_SECURE: u16 = 0x0200;

/// Key info of message 2: pairwise, HMAC-SHA1/AES, MIC.
pub const MSG2_KEY_INFO: u16 = KEY_INFO_TYPE_HMAC_SHA1 | KEY_INFO_PAIRWISE | KEY_INFO_MIC;

/// Key info of message 4: pairwise, HMAC-SHA1/AES, MIC, Secure.
pub const MSG4_KEY_INFO: u16 = KEY_INFO_TYPE_HMAC_SHA1 | KEY_INFO_PAIRWISE | KEY_INFO_MIC
    | KEY_INFO_SECURE;

/// Parsed EAPOL-Key frame from the 4-way handshake.
#[derive(Debug, Clone)]
pub struct EapolKeyFrame {
    /// Key info field.
    pub key_info: u16,
    /// Key length (16 for CCMP).
    pub key_length: u16,
    /// Replay counter (monotonically increasing).
    pub replay_counter: u64,
    /// Nonce (32 bytes).
    pub nonce: [u8; 32],
    /// Key IV (16 bytes).
    pub key_iv: [u8; 16],
    /// MIC (16 bytes).
    pub mic: [u8; 16],
    /// Key data (encrypted GTK in message 3).
    pub key_data: Vec<u8>,
}

/// The fields of an EAPOL-Key frame.
pub ghost struct KeyFrame {
    pub key_info: u16,
    pub key_length: u16,
    pub replay_counter: u64,
    pub nonce: Seq<u8>,
    pub key_iv: Seq<u8>,
    pub mic: Seq<u8>,
    pub key_data: Seq<u8>,
}

impl View for EapolKeyFrame {
    type V = KeyFrame;

    open spec fn view(&self) -> KeyFrame {
        KeyFrame {
            key_info: self.key_info,
            key_length: self.key_length,
            replay_counter: self.replay_counter,
            nonce: self.nonce@,
            key_iv: self.key_iv@,
            mic: self.mic@,
            key_data: self.key_data@,
        }
    }
}

/// The key data of an EAPOL-Key frame; none if the frame is cut short.
pub open spec fn key_data_of(data: Seq<u8>) -> Seq<u8> {
    let len = bytes::be16_at(data, 97) as int;
    if data.len() >= 99 + len {
        data.subrange(99, 99 + len)
    } else {
        Seq::empty()
    }
}

/// The EAPOL-Key frame that starts at the EAPOL version byte, if there is one.
pub open spec fn key_frame_of(data: Seq<u8>) -> Option<KeyFrame> {
    if data.len() < 99 || data[1] != EAPOL_KEY_TYPE {
        None
    } else {
        Some(
            KeyFrame {
                key_info: bytes::be16_at(data, 5),
                key_length: bytes::be16_at(data, 7),
                replay_counter: bytes::be64_at(data, 9),
                nonce: data.subrange(17, 49),
                key_iv: data.subrange(49, 65),
                mic: data.subrange(81, 97),
                key_data: key_data_of(data),
            },
        )
    }
}

/// Which message of the 4-way handshake has this key info; 0 for none.
pub open spec fn message_with(key_info: u16) -> u8 {
    let ack = key_info & KEY_INFO_ACK != 0;
    let mic = key_info & KEY_INFO_MIC != 0;
    let secure = key_info & KEY_INFO_SECURE != 0;
    if ack && !mic && !secure {
        1
    } else if !ack && mic && !secure {
        2
    } else if ack && mic && secure {
        3
    } else if !ack && mic && secure {
        4
    } else {
        0
    }
}

impl EapolKeyFrame {
    /// Parse an EAPOL-Key frame from raw bytes.
    ///
    /// `data` should start at the EAPOL header (version byte).
    pub fn parse(data: &[u8]) -> (frame: Option<Self>)
        ensures
            views::optional(frame) == key_frame_of(data@),
    {
        if data.len() < 99 {
            return None;
        }
        // EAPOL header: version(1) + type(1) + body_length(2)
        if data[1] != EAPOL_KEY_TYPE {
            return None;
        }
        let key_data_len: usize = bytes::read_be16(data, 97) as usize;
        let mut key_data: Vec<u8> = Vec::new();
        if data.len() - 99 >= key_data_len {
            bytes::push_bytes(
                &mut key_data,
                vstd::slice::slice_subrange(data, 99, 99 + key_data_len),
            );
        }
        assert(key_data@ =~= key_data_of(data@));
        // RSC (8 bytes) at 65..73 and ID (8 bytes) at 73..81 are not used.
        Some(
            EapolKeyFrame {
                key_info: bytes::read_be16(data, 5),
                key_length: bytes::read_be16(data, 7),
                replay_counter: bytes::read_be64(data, 9),
                nonce: bytes::read_array(data, 17),
                key_iv: bytes::read_array(data, 49),
                mic: bytes::read_array(data, 81),
                key_data,
            },
        )
    }

    /// Determine which message of the 4-way handshake this is.
    pub fn message_number(&self) -> (number: u8)
        ensures
            number == message_with(self.key_info),
    {
        let has_ack: bool = self.key_info & KEY_INFO_ACK != 0;
        let has_mic: bool = self.key_info & KEY_INFO_MIC != 0;
        let has_secure: bool = self.key_info & KEY_INFO_SECURE != 0;
        match (has_ack, has_mic, has_secure) {
            (true, false, false) => 1,  // AP -> STA: ANonce
            (false, true, false) => 2,  // STA -> AP: SNonce + MIC
            (true, true, true) => 3,  // AP -> STA: GTK + MIC (install)
            (false, true, true) => 4,  // STA -> AP: ACK
            _ => 0,  // Unknown
        }
    }
}

/// An EAPOL-Key frame up to its MIC field.
pub open spec fn key_frame_head(
    key_info: u16,
    replay_counter: u64,
    nonce: Seq<u8>,
    key_data: Seq<u8>,
) -> Seq<u8> {
    seq![EAPOL_VERSION, EAPOL_KEY_TYPE] + bytes::be16(((95 + key_data.len()) % 0x1_0000) as u16)
        + seq![0x02u8] + bytes::be16(key_info) + bytes::be16(16) + bytes::be64(replay_counter)
        + nonce + bytes::zeros(32)
}

/// An EAPOL-Key frame behind its MIC field.
pub open spec fn key_frame_tail(key_data: Seq<u8>) -> Seq<u8> {
    bytes::be16((key_data.len() % 0x1_0000) as u16) + key_data
}

/// A station's EAPOL-Key frame. The MIC is HMAC-SHA1 under the KCK over the
/// whole frame with the MIC field zeroed, cut to 16 bytes.
pub open spec fn signed_key_frame(
    key_info: u16,
    replay_counter: u64,
    nonce: Seq<u8>,
    key_data: Seq<u8>,
    kck: Seq<u8>,
) -> Seq<u8> {
    let head = key_frame_head(key_info, replay_counter, nonce, key_data);
    let tail = key_frame_tail(key_data);
    head + sha1::hmac(kck, head + bytes::zeros(16) + tail).take(16) + tail
}

/// EAPOL-Key message 2.
pub open spec fn message_2(snonce: Seq<u8>, replay_counter: u64, kck: Seq<u8>, rsn_ie: Seq<u8>) -> Seq<
    u8,
> {
    signed_key_frame(MSG2_KEY_INFO, replay_counter, snonce, rsn_ie, kck)
}

/// EAPOL-Key message 4.
pub open spec fn message_4(replay_counter: u64, kck: Seq<u8>) -> Seq<u8> {
    signed_key_frame(MSG4_KEY_INFO, replay_counter, bytes::zeros(32), Seq::empty(), kck)
}

/// What is put into a station's EAPOL-Key frame is what parsing reads from it.
pub proof fn lemma_signed_key_frame_parses(
    key_info: u16,
    replay_counter: u64,
    nonce: Seq<u8>,
    key_data: Seq<u8>,
    kck: Seq<u8>,
)
    requires
        nonce.len() == 32,
        key_data.len() < 0x1_0000,
    ensures
        key_frame_of(signed_key_frame(key_info, replay_counter, nonce, key_data, kck)) == Some(
            KeyFrame {
                key_info,
                key_length: 16,
                replay_counter,
                nonce,
                key_iv: bytes::zeros(16),
                mic: sha1::hmac(
                    kck,
                    key_frame_head(key_info, replay_counter, nonce, key_data) + bytes::zeros(16)
                        + key_frame_tail(key_data),
                ).take(16),
                key_data,
            },
        ),
{
    let head = key_frame_head(key_info, replay_counter, nonce, key_data);
    let tail = key_frame_tail(key_data);
    let unsigned = head + bytes::zeros(16) + tail;
    let mic = sha1::hmac(kck, unsigned).take(16);
    let frame = signed_key_frame(key_info, replay_counter, nonce, key_data, kck);
    sha1::lemma_hmac_len(kck, unsigned);
    assert(head.len() == 81);
    assert(frame == head + mic + tail);
    bytes::lemma_64_bit_round_trip(replay_counter);
    let counter = bytes::be64(replay_counter);
    assert(frame.subrange(9, 17) =~= counter);
    assert forall|i: int| 0 <= i < 8 implies frame[9 + i] == counter[i] by {
        assert(frame.subrange(9, 17)[i] == frame[9 + i]);
    }
    assert(bytes::be64_at(frame, 9) == bytes::be64_at(counter, 0));
    assert(frame.subrange(17, 49) =~= nonce);
    assert(frame.subrange(49, 65) =~= bytes::zeros(16));
    assert(frame.subrange(81, 97) =~= mic);
    assert(frame.subrange(99, 99 + key_data.len() as int) =~= key_data);
    assert(key_data_of(frame) =~= key_data);
}

/// The frames that the station sends are messages 2 and 4 of the handshake.
pub proof fn lemma_station_messages(
    snonce: Seq<u8>,
    replay_counter: u64,
    kck: Seq<u8>,
    rsn_ie: Seq<u8>,
)
    requires
        snonce.len() == 32,
        rsn_ie.len() < 0x1_0000,
    ensures
        key_frame_of(message_2(snonce, replay_counter, kck, rsn_ie)) matches Some(f)
            && message_with(f.key_info) == 2 && f.nonce == snonce && f.replay_counter
            == replay_counter && f.key_data == rsn_ie,
        key_frame_of(message_4(replay_counter, kck)) matches Some(f) && message_with(f.key_info)
            == 4 && f.replay_counter == replay_counter && f.key_data.len() == 0,
{
    lemma_signed_key_frame_parses(MSG2_KEY_INFO, replay_counter, snonce, rsn_ie, kck);
    lemma_signed_key_frame_parses(
        MSG4_KEY_INFO,
        replay_counter,
        bytes::zeros(32),
        Seq::empty(),
        kck,
    );
    assert(message_with(MSG2_KEY_INFO) == 2 && message_with(MSG4_KEY_INFO) == 4) by {
        assert(MSG2_KEY_INFO & KEY_INFO_ACK == 0 && MSG2_KEY_INFO & KEY_INFO_MIC != 0
            && MSG2_KEY_INFO & KEY_INFO_SECURE == 0) by (bit_vector);
        assert(MSG4_KEY_INFO & KEY_INFO_ACK == 0 && MSG4_KEY_INFO & KEY_INFO_MIC != 0
            && MSG4_KEY_INFO & KEY_INFO_SECURE != 0) by (bit_vector);
    }
}

fn build_key_frame_head(
    key_info: u16,
    replay_counter: u64,
    nonce: &[u8; 32],
    key_data: &[u8],
) -> (frame: Vec<u8>)
    ensures
        frame@ == key_frame_head(key_info, replay_counter, nonce@, key_data@),
{
    let body_len: u16 = (((key_data.len() % 0x1_0000) as u32 + 95) % 0x1_0000) as u16;
    assert(body_len == ((95 + key_data@.len()) % 0x1_0000) as u16);
    let mut frame: Vec<u8> = Vec::with_capacity(128);
    // EAPOL header
    frame.push(EAPOL_VERSION);
    frame.push(EAPOL_KEY_TYPE);
    assert(frame@ =~= seq![EAPOL_VERSION, EAPOL_KEY_TYPE]);
    bytes::push_be16(&mut frame, body_len);
    // Descriptor type: IEEE 802.11 key descriptor
    bytes::push_byte(&mut frame, 0x02);
    bytes::push_be16(&mut frame, key_info);
    bytes::push_be16(&mut frame, 16);
    bytes::push_be64(&mut frame, replay_counter);
    bytes::push_bytes(&mut frame, nonce.as_slice());
    // Key IV (16 bytes), RSC (8 bytes) and ID (8 bytes) are zero.
    bytes::push_zeros(&mut frame, 32);
    frame
}

/// Put the MIC into its field.
fn set_mic(frame: &mut Vec<u8>, mic: &[u8; 20])
    requires
        old(frame)@.len() >= 97,
    ensures
        final(frame)@ == old(frame)@.take(81) + mic@.take(16) + old(frame)@.skip(97),
{
    let ghost before = frame@;
    let mut i: usize = 0;
    while i < 16
        invariant
            i <= 16,
            frame@.len() == before.len(),
            before.len() >= 97,
            forall|k: int| 81 <= k < 81 + i ==> frame@[k] == mic@[k - 81],
            forall|k: int| 0 <= k < before.len() && !(81 <= k < 81 + i) ==> frame@[k] == before[k],
        decreases 16 - i,
    {
        frame[81 + i] = mic[i];
        i += 1;
    }
    assert(frame@ =~= before.take(81) + mic@.take(16) + before.skip(97));
}

fn build_key_frame(
    key_info: u16,
    replay_counter: u64,
    nonce: &[u8; 32],
    key_data: &[u8],
    kck: &[u8; 16],
) -> (frame: Vec<u8>)
    requires
        key_data@.len() + 163 <= sha1::message_limit(),
    ensures
        frame@ == signed_key_frame(key_info, replay_counter, nonce@, key_data@, kck@),
{
    let ghost head = key_frame_head(key_info, replay_counter, nonce@, key_data@);
    let ghost tail = key_frame_tail(key_data@);
    assert(head.len() == 81);

    let mut frame: Vec<u8> = build_key_frame_head(key_info, replay_counter, nonce, key_data);
    // The MIC is computed over a zeroed MIC field.
    bytes::push_zeros(&mut frame, 16);
    bytes::push_be16(&mut frame, (key_data.len() % 0x1_0000) as u16);
    bytes::push_bytes(&mut frame, key_data);
    assert(frame@ =~= head + bytes::zeros(16) + tail);
    let mic: [u8; 20] = sha1::hmac_sha1(kck.as_slice(), frame.as_slice());
    let ghost unsigned = frame@;
    set_mic(&mut frame, &mic);
    assert(unsigned.take(81) =~= head);
    assert(unsigned.skip(97) =~= tail);
    frame
}

/// Build EAPOL-Key message 2 (SNonce + MIC).
pub fn build_eapol_msg2(
    snonce: &[u8; 32],
    replay_counter: u64,
    kck: &[u8; 16],
    rsn_ie: &[u8],
) -> (frame: Vec<u8>)
    requires
        rsn_ie@.len() + 163 <= sha1::message_limit(),
    ensures
        frame@ == message_2(snonce@, replay_counter, kck@, rsn_ie@),
{
    build_key_frame(MSG2_KEY_INFO, replay_counter, snonce, rsn_ie, kck)
}

/// Build EAPOL-Key message 4 (ACK).
pub fn build_eapol_msg4(replay_counter: u64, kck: &[u8; 16]) -> (frame: Vec<u8>)
    ensures
        frame@ == message_4(replay_counter, kck@),
{
    let nonce: [u8; 32] = [0u8;32];
    assert(nonce@ =~= bytes::zeros(32));
    let none: [u8; 0] = [];
    assert(none@ =~= Seq::<u8>::empty());
    build_key_frame(MSG4_KEY_INFO, replay_counter, &nonce, none.as_slice(), kck)
}

/// Which handshake message a key info belongs to, bit by bit: ACK is bit 7, MIC
/// bit 8 and Secure bit 9, and no other bit counts.
pub proof fn lemma_message_bits(key_info: u16)
    ensures
        ({
            let ack = key_info / 128 % 2 == 1;
            let mic = key_info / 256 % 2 == 1;
            let secure = key_info / 512 % 2 == 1;
            &&& message_with(key_info) == 1 <==> ack && !mic && !secure
            &&& message_with(key_info) == 2 <==> !ack && mic && !secure
            &&& message_with(key_info) == 3 <==> ack && mic && secure
            &&& message_with(key_info) == 4 <==> !ack && mic && secure
            &&& message_with(key_info) <= 4
        }),
{
    lemma_info_bits(key_info);
}

proof fn lemma_info_bits(key_info: u16)
    by (bit_vector)
    ensures
        (key_info & 0x0080 != 0) == (key_info / 128 % 2 == 1),
        (key_info & 0x0100 != 0) == (key_info / 256 % 2 == 1),
        (key_info & 0x0200 != 0) == (key_info / 512 % 2 == 1),
{
}

proof fn lemma_info_split(key_info: u16, high: u16, low: u16)
    by (bit_vector)
    requires
        high < 256,
        low < 256,
        key_info == 256 * high + low,
    ensures
        key_info / 128 % 2 == low / 128,
        key_info / 256 % 2 == high % 2,
        key_info / 512 % 2 == high / 2 % 2,
{
}

/// Whether the bytes of a frame make it the handshake message from the access
/// point with that number, 1 or 3: at least 99 bytes, EAPOL type 3, ACK set, and
/// MIC and Secure both clear in message 1 and both set in message 3.
pub open spec fn is_message_from_ap(data: Seq<u8>, number: u8) -> bool {
    &&& data.len() >= 99
    &&& data[1] == 3
    &&& data[6] / 128 == 1
    &&& data[5] % 4 == if number == 1 {
        0int
    } else {
        3
    }
}

/// A frame is message 1 or 3 by its length, its type and three bits of its key
/// info alone, whatever nonce, replay counter, MIC and key data it holds.
pub proof fn lemma_message_by_bytes(data: Seq<u8>, number: u8)
    requires
        number == 1 || number == 3,
    ensures
        is_message_from_ap(data, number) <==> key_frame_of(data) is Some && message_with(
            key_frame_of(data).unwrap().key_info,
        ) == number,
{
    if data.len() >= 99 {
        let key_info = bytes::be16_at(data, 5);
        lemma_message_bits(key_info);
        lemma_info_split(key_info, data[5] as u16, data[6] as u16);
    }
}

/// An EAPOL-Key frame, byte by byte. Key data that the frame announces and does
/// not hold counts as none.
pub proof fn lemma_key_frame_bytes(data: Seq<u8>)
    ensures
        key_frame_of(data) is Some <==> data.len() >= 99 && data[1] == 3,
        key_frame_of(data) matches Some(frame) ==> {
            let n = 256 * data[97] + data[98];
            &&& frame.key_info == 256 * data[5] + data[6]
            &&& frame.key_length == 256 * data[7] + data[8]
            &&& frame.replay_counter == bytes::be64_at(data, 9)
            &&& frame.nonce == data.subrange(17, 49)
            &&& frame.key_iv == data.subrange(49, 65)
            &&& frame.mic == data.subrange(81, 97)
            &&& data.len() >= 99 + n ==> frame.key_data == data.subrange(99, 99 + n)
            &&& data.len() < 99 + n ==> frame.key_data.len() == 0
        },
{
}

/// A station's EAPOL-Key frame, byte by byte. The MIC is the start of the
/// HMAC-SHA1 of the frame itself with zeros in place of the MIC.
pub proof fn lemma_signed_key_frame_bytes(
    key_info: u16,
    replay_counter: u64,
    nonce: Seq<u8>,
    key_data: Seq<u8>,
    kck: Seq<u8>,
)
    requires
        nonce.len() == 32,
        95 + key_data.len() < 0x1_0000,
    ensures
        ({
            let frame = signed_key_frame(key_info, replay_counter, nonce, key_data, kck);
            let blank = frame.take(81) + bytes::zeros(16) + frame.skip(97);
            &&& frame.len() == 99 + key_data.len()
            &&& frame[0] == 2
            &&& frame[1] == 3
            &&& 256 * frame[2] + frame[3] == frame.len() - 4
            &&& frame[4] == 2
            &&& 256 * frame[5] + frame[6] == key_info
            &&& frame[7] == 0
            &&& frame[8] == 16
            &&& bytes::be64_at(frame, 9) == replay_counter
            &&& frame.subrange(17, 49) == nonce
            &&& frame.subrange(49, 81) == bytes::zeros(32)
            &&& frame.subrange(81, 97) == sha1::hmac(kck, blank).take(16)
            &&& 256 * frame[97] + frame[98] == key_data.len()
            &&& frame.skip(99) == key_data
        }),
{
    let head = key_frame_head(key_info, replay_counter, nonce, key_data);
    let tail = key_frame_tail(key_data);
    let frame = signed_key_frame(key_info, replay_counter, nonce, key_data, kck);
    let mic = sha1::hmac(kck, head + bytes::zeros(16) + tail).take(16);
    sha1::lemma_hmac_len(kck, head + bytes::zeros(16) + tail);
    assert(head.len() == 81);
    assert(frame == head + mic + tail);
    assert(frame.take(81) =~= head);
    assert(frame.skip(97) =~= tail);
    assert(frame.subrange(9, 17) =~= bytes::be64(replay_counter));
    bytes::lemma_read_where_written(frame, 9, 0, 0, replay_counter);
    assert(frame.subrange(17, 49) =~= nonce);
    assert(frame.subrange(49, 81) =~= bytes::zeros(32));
    assert(frame.subrange(81, 97) =~= mic);
    assert(frame.skip(99) =~= key_data);
}

/// Messages 2 and 4 are such frames with key info 0x010A and 0x030A. Message 2
/// carries nonce and RSN element of the station, message 4 neither nonce nor key
/// data.
pub proof fn lemma_station_message_contents(
    snonce: Seq<u8>,
    replay_counter: u64,
    kck: Seq<u8>,
    rsn_ie: Seq<u8>,
)
    ensures
        message_2(snonce, replay_counter, kck, rsn_ie) == signed_key_frame(
            0x010A,
            replay_counter,
            snonce,
            rsn_ie,
            kck,
        ),
        message_4(replay_counter, kck) == signed_key_frame(
            0x030A,
            replay_counter,
            bytes::zeros(32),
            Seq::empty(),
            kck,
        ),
{
    assert(MSG2_KEY_INFO == 0x010A && MSG4_KEY_INFO == 0x030A) by (bit_vector);
}

/// Block `b` of the key material, counted from 1.
pub open spec fn material_block(passphrase: Seq<u8>, salt: Seq<u8>, c: nat, b: nat) -> Seq<u8> {
    pbkdf2(passphrase, salt, c, 20 * b).skip(20 * (b - 1))
}

proof fn lemma_material_block(passphrase: Seq<u8>, salt: Seq<u8>, c: nat, b: nat)
    requires
        0 < b,
    ensures
        material_block(passphrase, salt, c, b) == pbkdf2_block(passphrase, salt, b as u32, c),
{
    lemma_pbkdf2_blocks_len(passphrase, salt, c, b);
    lemma_pbkdf2_blocks_len(passphrase, salt, c, (b - 1) as nat);
    lemma_pbkdf2_block_len(passphrase, salt, b as u32, c);
    assert((20 * b + 19) / 20 == b);
    assert(material_block(passphrase, salt, c, b) =~= pbkdf2_block(
        passphrase,
        salt,
        b as u32,
        c,
    ));
}

/// What each iteration adds. Zero iterations count as one. After one iteration a block is the HMAC of the salt
/// and the block's number. What the second iteration masks it with is the HMAC of
/// that, and what every later one masks it with is the HMAC of what the iteration
/// before masked it with.
pub proof fn lemma_pbkdf2_iterations(passphrase: Seq<u8>, salt: Seq<u8>, c: nat, b: nat)
    requires
        0 < b < 0x1_0000_0000,
        c > 1,
    ensures
        ({
            let block = |n: nat| material_block(passphrase, salt, n, b);
            &&& block(0) == block(1)
            &&& block(1) == sha1::hmac(passphrase, salt + bytes::be32(b as u32))
            &&& bytes::xor(block(2), block(1)) == sha1::hmac(passphrase, block(1))
            &&& bytes::xor(block(c + 1), block(c)) == sha1::hmac(
                passphrase,
                bytes::xor(block(c), block((c - 1) as nat)),
            )
        }),
{
    let n = b as u32;
    lemma_material_block(passphrase, salt, 0, b);
    lemma_material_block(passphrase, salt, 1, b);
    lemma_material_block(passphrase, salt, 2, b);
    lemma_material_block(passphrase, salt, (c - 1) as nat, b);
    lemma_material_block(passphrase, salt, c, b);
    lemma_material_block(passphrase, salt, c + 1, b);
    lemma_iteration_mask(passphrase, salt, n, 2);
    lemma_iteration_mask(passphrase, salt, n, c);
    lemma_iteration_mask(passphrase, salt, n, c + 1);
}

proof fn lemma_iteration_mask(passphrase: Seq<u8>, salt: Seq<u8>, n: u32, c: nat)
    requires
        c > 1,
    ensures
        bytes::xor(
            pbkdf2_block(passphrase, salt, n, c),
            pbkdf2_block(passphrase, salt, n, (c - 1) as nat),
        ) == pbkdf2_link(passphrase, salt, n, c),
{
    let before = pbkdf2_block(passphrase, salt, n, (c - 1) as nat);
    let link = pbkdf2_link(passphrase, salt, n, c);
    let after = pbkdf2_block(passphrase, salt, n, c);
    lemma_pbkdf2_block_len(passphrase, salt, n, (c - 1) as nat);
    lemma_pbkdf2_link_len(passphrase, salt, n, c);
    assert forall|i: int| 0 <= i < 20 implies bytes::xor(after, before)[i] == link[i] by {
        bytes::lemma_xor_byte_twice(link[i], before[i]);
        bytes::lemma_xor_byte_twice(before[i], link[i]);
    }
    assert(bytes::xor(after, before) =~= link);
}

/// The pairwise master key is PBKDF2 of the whole passphrase with the whole SSID
/// as salt, 4096 iterations, 32 bytes.
pub proof fn lemma_psk_is_pbkdf2(passphrase: Seq<char>, ssid: Seq<char>)
    ensures
        psk(passphrase, ssid) == pbkdf2(
            vstd::utf8::encode_utf8(passphrase),
            vstd::utf8::encode_utf8(ssid),
            4096,
            32,
        ),
        psk(passphrase, ssid).len() == 32,
{
    lemma_pbkdf2_len(
        vstd::utf8::encode_utf8(passphrase),
        vstd::utf8::encode_utf8(ssid),
        4096,
        32,
    );
}

/// Block `i` of the PRF output, as far as the output goes, is the HMAC of label,
/// zero byte, data and block number.
pub proof fn lemma_prf_block(key: Seq<u8>, label: Seq<u8>, data: Seq<u8>, len: nat, i: u8, k: int)
    requires
        0 <= k < 20,
        20 * i + k < len,
    ensures
        prf_output(key, label, data, len).len() == len,
        prf_output(key, label, data, len)[20 * i + k] == sha1::hmac(
            key,
            label + seq![0x00u8] + data + seq![i],
        )[k],
{
    let n = (len + 19) / 20;
    lemma_prf_blocks_len(key, label, data, n);
    lemma_prf_block_within(key, label, data, n, i, k);
}

proof fn lemma_prf_block_within(
    key: Seq<u8>,
    label: Seq<u8>,
    data: Seq<u8>,
    n: nat,
    i: u8,
    k: int,
)
    requires
        0 <= k < 20,
        i < n,
    ensures
        prf_blocks(key, label, data, n)[20 * i + k] == sha1::hmac(
            key,
            label + seq![0x00u8] + data + seq![i],
        )[k],
    decreases n,
{
    lemma_prf_blocks_len(key, label, data, n);
    lemma_prf_blocks_len(key, label, data, (n - 1) as nat);
    if i < n - 1 {
        lemma_prf_block_within(key, label, data, (n - 1) as nat, i, k);
    } else {
        assert((n - 1) as u8 == i);
    }
}

/// The pairwise keys are the 48 bytes of the PRF under the master key, cut in
/// three. They depend on the two addresses and on the two nonces through the
/// earlier and the later of each pair, whichever end they belong to.
pub proof fn lemma_pairwise_material(
    pmk: Seq<u8>,
    low: Seq<u8>,
    high: Seq<u8>,
    low_nonce: Seq<u8>,
    high_nonce: Seq<u8>,
    label: Seq<u8>,
)
    requires
        low.len() == high.len(),
        low_nonce.len() == high_nonce.len(),
        bytes::before(low, high),
        bytes::before(low_nonce, high_nonce),
        label == vstd::utf8::encode_utf8("Pairwise key expansion"@),
    ensures
        ({
            let keys = pairwise_keys(pmk, low, high, low_nonce, high_nonce);
            let material = prf_output(pmk, label, low + high + (low_nonce + high_nonce), 48);
            &&& keys.kck + keys.kek + keys.tk == material
            &&& keys.kck.len() == 16
            &&& keys.kek.len() == 16
            &&& keys.tk.len() == 16
            &&& keys == pairwise_keys(pmk, low, high, high_nonce, low_nonce)
            &&& keys == pairwise_keys(pmk, high, low, low_nonce, high_nonce)
            &&& keys == pairwise_keys(pmk, high, low, high_nonce, low_nonce)
        }),
{
    bytes::lemma_before_is_total(low, high);
    bytes::lemma_before_is_total(low_nonce, high_nonce);
    let context = low + high + (low_nonce + high_nonce);
    lemma_prf_blocks_len(pmk, label, context, 3);
    let keys = pairwise_keys(pmk, low, high, low_nonce, high_nonce);
    assert(pairwise_context(low, high, low_nonce, high_nonce) == context);
    assert(keys.kck + keys.kek + keys.tk =~= prf_output(pmk, label, context, 48));
}

} // verus!
