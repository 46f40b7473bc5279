//! AES-128-CCMP: the CCM mode (RFC 3610) with an 8-byte MIC and a 2-byte
//! length field, as 802.11i uses it for data frames.
use crate::aes;
use crate::bytes;
use aes::Aes128;
use vstd::prelude::*;

verus! {

/// Length of the MIC that follows the ciphertext.
pub const CCMP_MIC_LEN: usize = 8;

/// The longest payload: one cipher block for every non-zero 16-bit counter but the last.
pub const CCMP_MAX_PAYLOAD: usize = 0xF_FFE0;

// -------------------------------------------------------------------
// What CCMP computes
// -------------------------------------------------------------------

/// The 13-byte nonce: priority, transmitter address and the low 48 bits of the
/// packet number, most significant byte first.
pub open spec fn nonce_bytes(priority: u8, addr: Seq<u8>, pn: u64) -> Seq<u8> {
    seq![priority] + addr + bytes::be64(pn).skip(2)
}

/// The counter block number `counter`.
pub open spec fn counter_block(nonce: Seq<u8>, counter: u16) -> Seq<u8> {
    seq![0x01u8] + nonce + bytes::be16(counter)
}

/// The key stream block number `counter`.
pub open spec fn key_stream(tk: Seq<u8>, nonce: Seq<u8>, counter: u16) -> Seq<u8> {
    aes::encrypted(tk, counter_block(nonce, counter))
}

/// `data` masked with the key stream from block 1 on.
pub open spec fn counter_mode(tk: Seq<u8>, nonce: Seq<u8>, data: Seq<u8>) -> Seq<u8> {
    Seq::new(
        data.len(),
        |i: int| data[i] ^ key_stream(tk, nonce, (1 + i / 16) as u16)[i % 16],
    )
}

/// `data` followed by zeros up to a block boundary.
pub open spec fn padded(data: Seq<u8>) -> Seq<u8> {
    data + bytes::zeros(((16 - data.len() % 16) % 16) as nat)
}

/// The first authenticated block: flags, nonce and payload length.
pub open spec fn first_block(nonce: Seq<u8>, payload_len: nat) -> Seq<u8> {
    seq![0x59u8] + nonce + bytes::be16((payload_len % 0x1_0000) as u16)
}

/// The additional data as it is authenticated: nothing if there is none, else
/// its length and itself, padded.
pub open spec fn additional_blocks(aad: Seq<u8>) -> Seq<u8> {
    if aad.len() == 0 {
        Seq::empty()
    } else {
        padded(bytes::be16((aad.len() % 0x1_0000) as u16) + aad)
    }
}

/// Everything that the MIC authenticates.
pub open spec fn authenticated(nonce: Seq<u8>, aad: Seq<u8>, payload: Seq<u8>) -> Seq<u8> {
    first_block(nonce, payload.len()) + additional_blocks(aad) + padded(payload)
}

/// The CBC-MAC of the first `n` blocks of `data`.
pub open spec fn cbc_mac(tk: Seq<u8>, data: Seq<u8>, n: nat) -> Seq<u8>
    decreases n,
{
    if n == 0 {
        bytes::zeros(16)
    } else {
        aes::encrypted(
            tk,
            bytes::xor(
                cbc_mac(tk, data, (n - 1) as nat),
                data.subrange(16 * (n - 1), 16 * n as int),
            ),
        )
    }
}

/// The MIC before it is masked.
pub open spec fn mic(tk: Seq<u8>, nonce: Seq<u8>, aad: Seq<u8>, payload: Seq<u8>) -> Seq<u8> {
    let data = authenticated(nonce, aad, payload);
    cbc_mac(tk, data, data.len() / 16).take(8)
}

/// The mask on the MIC: the key stream block number 0.
pub open spec fn mic_mask(tk: Seq<u8>, nonce: Seq<u8>) -> Seq<u8> {
    key_stream(tk, nonce, 0).take(8)
}

/// A payload encrypted, with its masked MIC behind it.
pub open spec fn sealed(tk: Seq<u8>, nonce: Seq<u8>, aad: Seq<u8>, payload: Seq<u8>) -> Seq<u8> {
    counter_mode(tk, nonce, payload) + bytes::xor(mic(tk, nonce, aad, payload), mic_mask(tk, nonce))
}

/// The payload of a ciphertext, if its MIC is right.
pub open spec fn opened(tk: Seq<u8>, nonce: Seq<u8>, aad: Seq<u8>, data: Seq<u8>) -> Option<
    Seq<u8>,
> {
    if data.len() < 8 {
        None
    } else {
        let payload = counter_mode(tk, nonce, data.take(data.len() - 8));
        let received = bytes::xor(data.skip(data.len() - 8), mic_mask(tk, nonce));
        if received == mic(tk, nonce, aad, payload) {
            Some(payload)
        } else {
            None
        }
    }
}

// -------------------------------------------------------------------
// Laws
// -------------------------------------------------------------------

/// Masking with the key stream twice gives back the data.
pub proof fn lemma_counter_mode_twice(tk: Seq<u8>, nonce: Seq<u8>, data: Seq<u8>)
    ensures
        counter_mode(tk, nonce, counter_mode(tk, nonce, data)) == data,
{
    let once = counter_mode(tk, nonce, data);
    let twice = counter_mode(tk, nonce, once);
    assert forall|i: int| 0 <= i < data.len() implies twice[i] == data[i] by {
        bytes::lemma_xor_byte_twice(
            data[i],
            key_stream(tk, nonce, (1 + i / 16) as u16)[i % 16],
        );
    }
    assert(twice =~= data);
}

proof fn lemma_mic_len(tk: Seq<u8>, nonce: Seq<u8>, aad: Seq<u8>, payload: Seq<u8>)
    requires
        nonce.len() == 13,
    ensures
        mic(tk, nonce, aad, payload).len() == 8,
        mic_mask(tk, nonce).len() == 8,
{
    let data = authenticated(nonce, aad, payload);
    lemma_cbc_mac_len(tk, data, data.len() / 16);
    aes::lemma_encrypted_len(tk, counter_block(nonce, 0));
}

proof fn lemma_cbc_mac_len(tk: Seq<u8>, data: Seq<u8>, n: nat)
    ensures
        cbc_mac(tk, data, n).len() == 16,
{
    if n > 0 {
        aes::lemma_encrypted_len(
            tk,
            bytes::xor(
                cbc_mac(tk, data, (n - 1) as nat),
                data.subrange(16 * (n - 1), 16 * n as int),
            ),
        );
    }
}

/// Decryption gives back what was encrypted, under the same key, nonce and
/// additional data, for every payload.
pub proof fn lemma_open_after_seal(tk: Seq<u8>, nonce: Seq<u8>, aad: Seq<u8>, payload: Seq<u8>)
    requires
        nonce.len() == 13,
    ensures
        opened(tk, nonce, aad, sealed(tk, nonce, aad, payload)) == Some(payload),
{
    let tag = mic(tk, nonce, aad, payload);
    let mask = mic_mask(tk, nonce);
    let data = sealed(tk, nonce, aad, payload);
    lemma_mic_len(tk, nonce, aad, payload);
    assert(data.take(data.len() - 8) =~= counter_mode(tk, nonce, payload));
    assert(data.skip(data.len() - 8) =~= bytes::xor(tag, mask));
    lemma_counter_mode_twice(tk, nonce, payload);
    bytes::lemma_xor_twice(tag, mask);
}

/// Decryption accepts nothing but what encryption makes: if a ciphertext opens
/// to a payload, it is the encryption of that payload.
pub proof fn lemma_open_only_sealed(
    tk: Seq<u8>,
    nonce: Seq<u8>,
    aad: Seq<u8>,
    data: Seq<u8>,
    payload: Seq<u8>,
)
    requires
        nonce.len() == 13,
        opened(tk, nonce, aad, data) == Some(payload),
    ensures
        data == sealed(tk, nonce, aad, payload),
{
    let body = data.take(data.len() - 8);
    let tail = data.skip(data.len() - 8);
    let mask = mic_mask(tk, nonce);
    lemma_mic_len(tk, nonce, aad, payload);
    lemma_counter_mode_twice(tk, nonce, body);
    bytes::lemma_xor_twice(tail, mask);
    assert(data =~= body + tail);
}

/// Frames with different packet numbers have different nonces, as long as the
/// packet numbers fit into their 48 bits.
pub proof fn lemma_nonces_differ(priority: u8, addr: Seq<u8>, pn: u64, pn2: u64)
    requires
        pn < 0x1_0000_0000_0000,
        pn2 < 0x1_0000_0000_0000,
        pn != pn2,
    ensures
        nonce_bytes(priority, addr, pn) != nonce_bytes(priority, addr, pn2),
{
    let a = bytes::be64(pn);
    let b = bytes::be64(pn2);
    let n = 1 + addr.len() as int;
    assert(nonce_bytes(priority, addr, pn).skip(n) =~= a.skip(2));
    assert(nonce_bytes(priority, addr, pn2).skip(n) =~= b.skip(2));
    if a.skip(2) == b.skip(2) {
        assert forall|i: int| 0 <= i < 8 implies a[i] == b[i] by {
            if i >= 2 {
                assert(a[i] == a.skip(2)[i - 2]);
                assert(b[i] == b.skip(2)[i - 2]);
            }
        }
        assert(a =~= b);
        bytes::lemma_64_bit_round_trip(pn);
        bytes::lemma_64_bit_round_trip(pn2);
    }
}

/// The first authenticated block determines nonce and payload length: flags
/// 0x59, the 13 bytes of the nonce, and the length in two bytes. Only from 65536
/// bytes on is the length cut to them.
pub proof fn lemma_first_block_layout(nonce: Seq<u8>, payload_len: nat)
    requires
        nonce.len() == 13,
    ensures
        ({
            let block = first_block(nonce, payload_len);
            &&& block.len() == 16
            &&& block[0] == 0x59
            &&& block.subrange(1, 14) == nonce
            &&& payload_len < 65536 ==> 256 * block[14] + block[15] == payload_len
            &&& 256 * block[14] + block[15] == payload_len % 65536
        }),
{
    assert(first_block(nonce, payload_len).subrange(1, 14) =~= nonce);
}

/// Padding puts fewer than 16 zeros behind the data, and ends on a block boundary.
pub proof fn lemma_padded_layout(data: Seq<u8>)
    ensures
        ({
            let all = padded(data);
            &&& all.len() % 16 == 0
            &&& data.len() <= all.len() < data.len() + 16
            &&& all.take(data.len() as int) == data
            &&& forall|i: int| data.len() <= i < all.len() ==> all[i] == 0
        }),
{
    assert(padded(data).take(data.len() as int) =~= data);
}

/// Where the additional data ends and the payload begins.
pub open spec fn payload_start(aad: Seq<u8>) -> int {
    if aad.len() == 0 {
        16
    } else {
        16 + (aad.len() as int + 17) / 16 * 16
    }
}

/// The authenticated bytes, one by one. Behind the first block stand the length
/// of the additional data in two bytes and the data itself, if there is any, with
/// zeros up to a block boundary; the payload follows, again with zeros up to a
/// block boundary.
pub proof fn lemma_authenticated_layout(nonce: Seq<u8>, aad: Seq<u8>, payload: Seq<u8>)
    requires
        nonce.len() == 13,
    ensures
        ({
            let all = authenticated(nonce, aad, payload);
            let start = payload_start(aad);
            let end = start + payload.len();
            &&& all[0] == 0x59
            &&& all.subrange(1, 14) == nonce
            &&& payload.len() < 65536 ==> 256 * all[14] + all[15] == payload.len()
            &&& 256 * all[14] + all[15] == payload.len() % 65536
            &&& aad.len() > 0 ==> {
                &&& aad.len() < 65536 ==> 256 * all[16] + all[17] == aad.len()
                &&& 256 * all[16] + all[17] == aad.len() % 65536
                &&& all.subrange(18, 18 + aad.len() as int) == aad
                &&& forall|i: int| 18 + aad.len() <= i < start ==> all[i] == 0
            }
            &&& end <= all.len() < end + 16
            &&& all.len() % 16 == 0
            &&& all.subrange(start, end) == payload
            &&& forall|i: int| end <= i < all.len() ==> all[i] == 0
        }),
{
    let all = authenticated(nonce, aad, payload);
    let first = first_block(nonce, payload.len());
    let middle = additional_blocks(aad);
    let last = padded(payload);
    let start = payload_start(aad);
    lemma_first_block_layout(nonce, payload.len());
    lemma_padded_layout(payload);
    assert(all == first + middle + last);
    assert forall|i: int| 0 <= i < 16 implies all[i] == #[trigger] first[i] by {}
    assert(all.subrange(1, 14) =~= first.subrange(1, 14));
    assert(all[14] == first[14] && all[15] == first[15]);
    if aad.len() > 0 {
        let framed = bytes::be16((aad.len() % 0x1_0000) as u16) + aad;
        lemma_padded_layout(framed);
        assert(middle == padded(framed));
        assert(middle.len() == (aad.len() + 17) / 16 * 16);
        assert forall|i: int| 0 <= i < middle.len() implies all[16 + i] == #[trigger] middle[i] by {}
        assert(middle[0] == framed[0] && middle[1] == framed[1]);
        assert(all[16] == middle[0] && all[17] == middle[1]);
        assert forall|i: int| 0 <= i < aad.len() implies all[18 + i] == #[trigger] aad[i] by {
            assert(framed[2 + i] == aad[i]);
            assert(middle[2 + i] == framed[2 + i]);
        }
        assert(all.subrange(18, 18 + aad.len() as int) =~= aad);
        assert forall|i: int| 18 + aad.len() <= i < start implies all[i] == 0 by {
            assert(middle[i - 16] == 0);
        }
    }
    assert(middle.len() == start - 16);
    assert forall|i: int| 0 <= i < last.len() implies all[start + i] == #[trigger] last[i] by {}
    assert(all.subrange(start, start + payload.len()) =~= last.take(payload.len() as int));
    assert forall|i: int| start + payload.len() <= i < all.len() implies all[i] == 0 by {
        assert(last[i - start] == 0);
    }
}

/// The authenticated bytes leave nothing open: other nonces, other additional
/// data or other payloads, in particular payloads of another length, give other
/// authenticated bytes.
pub proof fn lemma_authenticated_injective(
    nonce: Seq<u8>,
    aad: Seq<u8>,
    payload: Seq<u8>,
    nonce2: Seq<u8>,
    aad2: Seq<u8>,
    payload2: Seq<u8>,
)
    requires
        nonce.len() == 13,
        nonce2.len() == 13,
        aad.len() < 65536,
        aad2.len() < 65536,
        aad.len() == 0 <==> aad2.len() == 0,
        payload.len() < 65536,
        payload2.len() < 65536,
        authenticated(nonce, aad, payload) == authenticated(nonce2, aad2, payload2),
    ensures
        nonce == nonce2,
        aad == aad2,
        payload.len() == payload2.len(),
        payload == payload2,
{
    lemma_authenticated_layout(nonce, aad, payload);
    lemma_authenticated_layout(nonce2, aad2, payload2);
    if aad.len() == 0 {
        assert(aad =~= aad2);
    }
}

/// The CBC-MAC starts from zeros, and one more block goes through the cipher
/// masked with the MAC of all the blocks before it.
pub proof fn lemma_cbc_mac_chains(tk: Seq<u8>, data: Seq<u8>, block: Seq<u8>, n: nat)
    requires
        data.len() == 16 * n,
        block.len() == 16,
    ensures
        cbc_mac(tk, data, 0) == bytes::zeros(16),
        cbc_mac(tk, data + block, n + 1) == aes::encrypted(
            tk,
            bytes::xor(cbc_mac(tk, data, n), block),
        ),
{
    lemma_cbc_mac_prefix(tk, data, data + block, n);
    assert((data + block).subrange(16 * n as int, 16 * (n + 1) as int) =~= block);
}

proof fn lemma_cbc_mac_prefix(tk: Seq<u8>, data: Seq<u8>, longer: Seq<u8>, n: nat)
    requires
        16 * n <= data.len() <= longer.len(),
        forall|i: int| 0 <= i < data.len() ==> data[i] == longer[i],
    ensures
        cbc_mac(tk, data, n) == cbc_mac(tk, longer, n),
    decreases n,
{
    if n > 0 {
        lemma_cbc_mac_prefix(tk, data, longer, (n - 1) as nat);
        assert(data.subrange(16 * (n - 1), 16 * n as int) =~= longer.subrange(
            16 * (n - 1),
            16 * n as int,
        ));
    }
}

/// Whether `block` is the counter block number `counter`: flags 1, the nonce, and
/// the number in two bytes.
pub open spec fn counts(block: Seq<u8>, nonce: Seq<u8>, counter: int) -> bool {
    &&& block.len() == 16
    &&& block[0] == 1
    &&& block.subrange(1, 14) == nonce
    &&& 256 * block[14] + block[15] == counter
}

proof fn lemma_counts(block: Seq<u8>, nonce: Seq<u8>, counter: u16)
    requires
        nonce.len() == 13,
        counts(block, nonce, counter as int),
    ensures
        block == counter_block(nonce, counter),
{
    assert forall|i: int| 0 <= i < 16 implies block[i] == counter_block(nonce, counter)[i] by {
        if 1 <= i < 14 {
            assert(block[i] == block.subrange(1, 14)[i - 1]);
        }
    }
    assert(block =~= counter_block(nonce, counter));
}

/// Every byte of a sealed payload is masked with the cipher of the counter block
/// of its place: the payload with blocks 1, 2, and so on, the first eight bytes
/// of the CBC-MAC of all authenticated bytes with block 0.
pub proof fn lemma_sealed_bytes(
    tk: Seq<u8>,
    nonce: Seq<u8>,
    aad: Seq<u8>,
    payload: Seq<u8>,
    i: int,
    block: Seq<u8>,
)
    requires
        nonce.len() == 13,
        payload.len() <= 65535 * 16,
        0 <= i < payload.len() + 8,
        counts(
            block,
            nonce,
            if i < payload.len() {
                1 + i / 16
            } else {
                0
            },
        ),
    ensures
        ({
            let out = sealed(tk, nonce, aad, payload);
            let all = authenticated(nonce, aad, payload);
            let k = i - payload.len();
            &&& out.len() == payload.len() + 8
            &&& i < payload.len() ==> out[i] == payload[i] ^ aes::encrypted(tk, block)[i % 16]
            &&& i >= payload.len() ==> out[i] == cbc_mac(tk, all, all.len() / 16)[k]
                ^ aes::encrypted(tk, block)[k]
        }),
{
    lemma_mic_len(tk, nonce, aad, payload);
    if i < payload.len() {
        lemma_counts(block, nonce, (1 + i / 16) as u16);
    } else {
        lemma_counts(block, nonce, 0);
        let all = authenticated(nonce, aad, payload);
        lemma_cbc_mac_len(tk, all, all.len() / 16);
        aes::lemma_encrypted_len(tk, block);
    }
}

/// The nonce, byte by byte: priority, address, and the packet number with its
/// most significant byte first.
pub proof fn lemma_nonce_layout(priority: u8, addr: Seq<u8>, pn: u64)
    requires
        addr.len() == 6,
        pn < 0x1_0000_0000_0000,
    ensures
        ({
            let nonce = nonce_bytes(priority, addr, pn);
            &&& nonce.len() == 13
            &&& nonce[0] == priority
            &&& nonce.subrange(1, 7) == addr
            &&& 0x100_0000_0000 * nonce[7] + 0x1_0000_0000 * nonce[8] + 0x100_0000 * nonce[9]
                + 0x1_0000 * nonce[10] + 0x100 * nonce[11] + nonce[12] == pn
        }),
{
    let nonce = nonce_bytes(priority, addr, pn);
    let number = bytes::be64(pn);
    bytes::lemma_byte_weights(0, 0, pn);
    assert(nonce.subrange(1, 7) =~= addr);
    assert forall|k: int| 2 <= k < 8 implies nonce[5 + k] == #[trigger] number[k] by {}
    assert(nonce[7] == number[2] && nonce[8] == number[3] && nonce[9] == number[4] && nonce[10]
        == number[5] && nonce[11] == number[6] && nonce[12] == number[7]);
    assert(number[0] == 0 && number[1] == 0);
}

// -------------------------------------------------------------------
// Implementation
// -------------------------------------------------------------------

/// CCMP nonce for a given frame.
pub struct CcmpNonce {
    /// Priority (QoS TID, or 0).
    pub priority: u8,
    /// Source MAC address.
    pub addr: [u8; 6],
    /// Packet number (48-bit, little-endian in CCMP header).
    pub pn: u64,
}

impl View for CcmpNonce {
    type V = Seq<u8>;

    open spec fn view(&self) -> Seq<u8> {
        nonce_bytes(self.priority, self.addr@, self.pn)
    }
}

impl CcmpNonce {
    /// Serialize to the 13-byte nonce used by AES-CCM.
    pub fn to_bytes(&self) -> (nonce: [u8; 13])
        ensures
            nonce@ == nonce_bytes(self.priority, self.addr@, self.pn),
    {
        let mut pn: Vec<u8> = Vec::with_capacity(8);
        bytes::push_be64(&mut pn, self.pn);
        assert(pn@ =~= bytes::be64(self.pn));
        let mut out: Vec<u8> = Vec::with_capacity(13);
        out.push(self.priority);
        bytes::push_bytes(&mut out, self.addr.as_slice());
        bytes::push_bytes(&mut out, vstd::slice::slice_subrange(pn.as_slice(), 2, 8));
        assert(out@ =~= self@);
        let nonce: [u8; 13] = bytes::read_array(out.as_slice(), 0);
        assert(nonce@ =~= out@);
        nonce
    }
}

fn ccm_ctr_block(nonce: &[u8; 13], counter: u16) -> (block: [u8; 16])
    ensures
        block@ == counter_block(nonce@, counter),
{
    let mut out: Vec<u8> = Vec::with_capacity(16);
    out.push(0x01);
    bytes::push_bytes(&mut out, nonce.as_slice());
    bytes::push_be16(&mut out, counter);
    assert(out@ =~= counter_block(nonce@, counter));
    let block: [u8; 16] = bytes::read_array(out.as_slice(), 0);
    assert(block@ =~= out@);
    block
}

fn ccm_ctr_encrypt(cipher: &Aes128, nonce: &[u8; 13], data: &[u8]) -> (out: Vec<u8>)
    requires
        data@.len() <= CCMP_MAX_PAYLOAD,
    ensures
        out@ == counter_mode(cipher.key(), nonce@, data@),
{
    let n: usize = data.len();
    let mut out: Vec<u8> = Vec::with_capacity(n);
    let mut counter: u16 = 1;
    while out.len() < n
        invariant
            n == data@.len(),
            n <= CCMP_MAX_PAYLOAD,
            out@.len() <= n,
            out@.len() < n ==> out@.len() == 16 * (counter - 1),
            1 <= counter,
            forall|i: int|
                0 <= i < out@.len() ==> out@[i] == counter_mode(cipher.key(), nonce@, data@)[i],
        decreases n - out@.len(),
    {
        let mut stream: [u8; 16] = ccm_ctr_block(nonce, counter);
        cipher.encrypt_block(&mut stream);
        let start: usize = out.len();
        let mut i: usize = 0;
        while i < 16 && start + i < n
            invariant
                n == data@.len(),
                n <= CCMP_MAX_PAYLOAD,
                i <= 16,
                start + i <= n,
                start == 16 * (counter - 1),
                out@.len() == start + i,
                stream@ == key_stream(cipher.key(), nonce@, counter),
                forall|k: int|
                    0 <= k < out@.len() ==> out@[k] == counter_mode(cipher.key(), nonce@, data@)[k],
            decreases 16 - i,
        {
            assert((start + i) as int / 16 == counter - 1);
            assert((start + i) as int % 16 == i);
            out.push(data[start + i] ^ stream[i]);
            i += 1;
        }
        counter += 1;
    }
    assert(out@ =~= counter_mode(cipher.key(), nonce@, data@));
    out
}

/// Append `data` and zeros up to a block boundary.
fn push_padded(out: &mut Vec<u8>, data: &[u8])
    ensures
        final(out)@ == old(out)@ + padded(data@),
{
    let len: usize = data.len();
    bytes::push_bytes(out, data);
    bytes::push_zeros(out, (16 - len % 16) % 16);
    assert(out@ =~= old(out)@ + padded(data@));
}

fn format_blocks(nonce: &[u8; 13], aad: &[u8], payload: &[u8]) -> (data: Vec<u8>)
    ensures
        data@ == authenticated(nonce@, aad@, payload@),
{
    let mut data: Vec<u8> = Vec::new();
    // Flags: additional data present, 8-byte MIC, 2-byte length field.
    data.push(0x59);
    bytes::push_bytes(&mut data, nonce.as_slice());
    bytes::push_be16(&mut data, (payload.len() % 0x1_0000) as u16);
    assert(data@ =~= first_block(nonce@, payload@.len()));
    if aad.len() > 0 {
        let mut block: Vec<u8> = Vec::new();
        bytes::push_be16(&mut block, (aad.len() % 0x1_0000) as u16);
        bytes::push_bytes(&mut block, aad);
        assert(block@ =~= bytes::be16((aad@.len() % 0x1_0000) as u16) + aad@);
        push_padded(&mut data, block.as_slice());
    }
    assert(data@ =~= first_block(nonce@, payload@.len()) + additional_blocks(aad@));
    push_padded(&mut data, payload);
    data
}

fn chain_blocks(cipher: &Aes128, data: &[u8]) -> (tag: [u8; 16])
    requires
        data@.len() % 16 == 0,
    ensures
        tag@ == cbc_mac(cipher.key(), data@, data@.len() / 16),
{
    let n: usize = data.len();
    let mut tag: [u8; 16] = [0u8;16];
    assert(tag@ =~= bytes::zeros(16));
    let mut done: usize = 0;
    while done < n
        invariant
            n == data@.len(),
            n % 16 == 0,
            done <= n,
            done % 16 == 0,
            tag@ == cbc_mac(cipher.key(), data@, (done / 16) as nat),
        decreases n - done,
    {
        let ghost start = tag@;
        let mut i: usize = 0;
        while i < 16
            invariant
                i <= 16,
                n == data@.len(),
                done + 16 <= n,
                forall|k: int| 0 <= k < i ==> tag@[k] == start[k] ^ data@[done + k],
                forall|k: int| i <= k < 16 ==> tag@[k] == start[k],
            decreases 16 - i,
        {
            tag[i] = tag[i] ^ data[done + i];
            i += 1;
        }
        assert(tag@ =~= bytes::xor(start, data@.subrange(done as int, done + 16)));
        cipher.encrypt_block(&mut tag);
        done += 16;
        assert(16 * (done as int / 16 - 1) == done - 16);
    }
    tag
}

proof fn lemma_authenticated_len(nonce: Seq<u8>, aad: Seq<u8>, payload: Seq<u8>)
    requires
        nonce.len() == 13,
    ensures
        authenticated(nonce, aad, payload).len() % 16 == 0,
{
    lemma_authenticated_layout(nonce, aad, payload);
}

fn ccm_cbc_mac(cipher: &Aes128, nonce: &[u8; 13], aad: &[u8], payload: &[u8]) -> (tag: [u8; 8])
    ensures
        tag@ == mic(cipher.key(), nonce@, aad@, payload@),
{
    let data: Vec<u8> = format_blocks(nonce, aad, payload);
    proof {
        lemma_authenticated_len(nonce@, aad@, payload@);
    }
    let full: [u8; 16] = chain_blocks(cipher, data.as_slice());
    let tag: [u8; 8] = bytes::read_array(full.as_slice(), 0);
    assert(tag@ =~= full@.take(8));
    tag
}

/// Mask or unmask a MIC.
fn mask_mic(cipher: &Aes128, nonce: &[u8; 13], tag: &[u8]) -> (masked: [u8; 8])
    requires
        tag@.len() == 8,
    ensures
        masked@ == bytes::xor(tag@, mic_mask(cipher.key(), nonce@)),
{
    let mut stream: [u8; 16] = ccm_ctr_block(nonce, 0);
    cipher.encrypt_block(&mut stream);
    let mut masked: [u8; 8] = [0u8;8];
    let mut i: usize = 0;
    while i < 8
        invariant
            i <= 8,
            tag@.len() == 8,
            stream@ == key_stream(cipher.key(), nonce@, 0),
            forall|k: int| 0 <= k < i ==> masked@[k] == tag@[k] ^ stream@[k],
        decreases 8 - i,
    {
        masked[i] = tag[i] ^ stream[i];
        i += 1;
    }
    assert(masked@ =~= bytes::xor(tag@, mic_mask(cipher.key(), nonce@)));
    masked
}

/// Compare two tags in a time that does not depend on where they differ.
fn same_tag(a: &[u8; 8], b: &[u8; 8]) -> (same: bool)
    ensures
        same == (a@ == b@),
{
    let mut diff: u8 = 0;
    let mut i: usize = 0;
    while i < 8
        invariant
            i <= 8,
            diff == 0 <==> forall|k: int| 0 <= k < i ==> a@[k] == b@[k],
        decreases 8 - i,
    {
        let d: u8 = a[i] ^ b[i];
        proof {
            bytes::lemma_xor_byte_twice(a@[i as int], b@[i as int]);
            assert(diff | d == 0 <==> diff == 0 && d == 0) by (bit_vector);
        }
        diff = diff | d;
        i += 1;
    }
    if diff == 0 {
        assert(a@ =~= b@);
    }
    diff == 0
}

/// Encrypt a plaintext payload using AES-128-CCMP.
///
/// Returns the ciphertext with an 8-byte MIC appended.
///
/// `aad` is the Additional Authenticated Data (constructed from the 802.11 header).
pub fn ccmp_encrypt(tk: &[u8; 16], nonce: &CcmpNonce, aad: &[u8], plaintext: &[u8]) -> (out: Vec<
    u8,
>)
    requires
        plaintext@.len() <= CCMP_MAX_PAYLOAD,
    ensures
        out@ == sealed(tk@, nonce@, aad@, plaintext@),
{
    let cipher = Aes128::new(tk);
    let nonce_bytes: [u8; 13] = nonce.to_bytes();
    let tag: [u8; 8] = ccm_cbc_mac(&cipher, &nonce_bytes, aad, plaintext);
    let mut out: Vec<u8> = ccm_ctr_encrypt(&cipher, &nonce_bytes, plaintext);
    let masked: [u8; 8] = mask_mic(&cipher, &nonce_bytes, tag.as_slice());
    bytes::push_bytes(&mut out, masked.as_slice());
    out
}

/// Decrypt a CCMP ciphertext (with 8-byte MIC at the end).
///
/// Returns `None` if the MIC verification fails.
pub fn ccmp_decrypt(
    tk: &[u8; 16],
    nonce: &CcmpNonce,
    aad: &[u8],
    ciphertext_with_mic: &[u8],
) -> (out: Option<Vec<u8>>)
    requires
        ciphertext_with_mic@.len() <= CCMP_MAX_PAYLOAD + CCMP_MIC_LEN,
    ensures
        crate::views::optional(out) == opened(tk@, nonce@, aad@, ciphertext_with_mic@),
{
    let n: usize = ciphertext_with_mic.len();
    if n < CCMP_MIC_LEN {
        return None;
    }
    let cipher = Aes128::new(tk);
    let nonce_bytes: [u8; 13] = nonce.to_bytes();
    let (ciphertext, received) = ciphertext_with_mic.split_at(n - CCMP_MIC_LEN);
    assert(ciphertext@ =~= ciphertext_with_mic@.take(n - 8));
    assert(received@ =~= ciphertext_with_mic@.skip(n - 8));

    // Counter mode is its own inverse.
    let plaintext: Vec<u8> = ccm_ctr_encrypt(&cipher, &nonce_bytes, ciphertext);
    let unmasked: [u8; 8] = mask_mic(&cipher, &nonce_bytes, received);
    let expected: [u8; 8] = ccm_cbc_mac(&cipher, &nonce_bytes, aad, plaintext.as_slice());

    if same_tag(&unmasked, &expected) {
        Some(plaintext)
    } else {
        None
    }
}

} // verus!
