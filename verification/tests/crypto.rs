use intel_wifi::bytes;
use intel_wifi::wpa;
use intel_wifi::wpa::{Aes128, CcmpNonce};

fn hex(text: &str) -> Vec<u8> {
    (0..text.len())
        .step_by(2)
        .map(|i| u8::from_str_radix(&text[i..i + 2], 16).unwrap())
        .collect()
}

fn array<const N: usize>(text: &str) -> [u8; N] {
    let mut out = [0u8; N];
    out.copy_from_slice(&hex(text));
    out
}

fn counting_key() -> [u8; 16] {
    array("000102030405060708090a0b0c0d0e0f")
}

fn nonce(pn: u64) -> CcmpNonce {
    CcmpNonce { priority: 0, addr: [2, 0, 0, 0, 0, 1], pn }
}

#[test]
fn pbkdf2_with_one_iteration_is_hmac_sha1() {
    assert_eq!(
        wpa::pbkdf2_sha1(b"password", b"salt", 1, 20),
        hex("0c60c80f961f0e71f3a9b524af6012062fe037a6")
    );
}

#[test]
fn pbkdf2_of_rfc_6070_case_2() {
    assert_eq!(
        wpa::pbkdf2_sha1(b"password", b"salt", 2, 20),
        hex("ea6c014dc72d6f8ccd1ed92ace1d41f0d8de8957")
    );
}

#[test]
fn pbkdf2_cuts_the_last_block() {
    assert_eq!(
        wpa::pbkdf2_sha1(
            b"passwordPASSWORDpassword",
            b"saltSALTsaltSALTsaltSALTsaltSALTsalt",
            4096,
            25
        ),
        hex("3d2eec4fe41c849b80c8d83662c0e44a8b291a964cf2f07038")
    );
}

#[test]
fn pbkdf2_takes_long_passphrases_and_salts() {
    assert_eq!(
        wpa::pbkdf2_sha1(&[b'k'; 80], &[b's'; 100], 3, 45),
        hex("44cdf2bfef8d594b5811df22ad6c4b3a4040d278d562d92636fd9cdd06adc7dfb046986d35396c14d5f6145002")
    );
}

#[test]
fn pbkdf2_gives_as_many_bytes_as_asked_for() {
    assert!(wpa::pbkdf2_sha1(b"p", b"s", 2, 0).is_empty());
    for len in [1usize, 19, 20, 21, 40, 41] {
        assert_eq!(wpa::pbkdf2_sha1(b"p", b"s", 2, len).len(), len);
    }
}

#[test]
fn a_shorter_key_is_the_start_of_a_longer_one() {
    let long = wpa::pbkdf2_sha1(b"password", b"salt", 3, 70);
    for len in 0..70usize {
        assert_eq!(wpa::pbkdf2_sha1(b"password", b"salt", 3, len), long[..len].to_vec());
    }
}

#[test]
fn zero_iterations_count_as_one() {
    assert_eq!(
        wpa::pbkdf2_sha1(b"password", b"salt", 0, 20),
        wpa::pbkdf2_sha1(b"password", b"salt", 1, 20)
    );
}

#[test]
fn psk_of_the_standard_example() {
    assert_eq!(
        wpa::derive_psk("password", "IEEE").to_vec(),
        hex("f42c6fc52df0ebef9ebb4b90b38a5f902e83fe1b135a70e23aed762e9710a12e")
    );
}

#[test]
fn pairwise_keys_are_cut_from_the_prf() {
    let pmk = array("aa5bed9b838b51a21c4da4c9b6bb8211ec1e68d0599b0373e72ecbe8d84d8188");
    let aa = array("0a0b0c0d0e0f");
    let spa = array("020000000001");
    let mut anonce = [0u8; 32];
    for i in 0..32 {
        anonce[i] = 100 + i as u8;
    }
    let snonce = array("da6dda47b48e68fb68d5421cf689f663d0aa841784f15e3812a5127fecc6a033");
    let ptk = wpa::derive_ptk(&pmk, &aa, &spa, &anonce, &snonce);
    assert_eq!(ptk.kck.to_vec(), hex("7bf222ef5e32714887cf3950f2d87f36"));
    assert_eq!(ptk.kek.to_vec(), hex("31c85f46ad2e70b1a4b72272b9803024"));
    assert_eq!(ptk.tk.to_vec(), hex("bc97878ecd43032041440d890ae58a85"));

    // The access point, with the roles exchanged, derives the same keys.
    let other = wpa::derive_ptk(&pmk, &spa, &aa, &snonce, &anonce);
    assert_eq!(other.kck, ptk.kck);
    assert_eq!(other.kek, ptk.kek);
    assert_eq!(other.tk, ptk.tk);
}

#[test]
fn aes_of_the_standard_example() {
    let mut block = array("00112233445566778899aabbccddeeff");
    Aes128::new(&counting_key()).encrypt_block(&mut block);
    assert_eq!(block.to_vec(), hex("69c4e0d86a7b0430d8cdb78070b4c55a"));
}

#[test]
fn nonce_layout() {
    let nonce = CcmpNonce { priority: 5, addr: [1, 2, 3, 4, 5, 6], pn: 0xAABB_0102_0304_0506 };
    assert_eq!(nonce.to_bytes(), [5, 1, 2, 3, 4, 5, 6, 1, 2, 3, 4, 5, 6]);
}

#[test]
fn different_packet_numbers_give_different_nonces() {
    assert_ne!(nonce(1).to_bytes(), nonce(2).to_bytes());
    assert_ne!(nonce(0xFFFF_FFFF_FFFF).to_bytes(), nonce(0xFFFF_FFFF_FFFE).to_bytes());
    // Only 48 bits are used.
    assert_eq!(nonce(1).to_bytes(), nonce(0x1_0000_0000_0001).to_bytes());
}

#[test]
fn different_blocks_are_encrypted_differently() {
    let cipher = Aes128::new(&counting_key());
    let mut seen = Vec::new();
    for byte in 0..=255u8 {
        let mut block = [0u8; 16];
        block[5] = byte;
        cipher.encrypt_block(&mut block);
        assert!(!seen.contains(&block));
        seen.push(block);
    }
}

#[test]
fn encryption_of_rfc_3610_packet_vector_1() {
    let key = array("c0c1c2c3c4c5c6c7c8c9cacbcccdcecf");
    // The nonce 00 00 00 03 02 01 00 A0 A1 A2 A3 A4 A5
    let nonce = CcmpNonce { priority: 0, addr: [0, 0, 3, 2, 1, 0], pn: 0xA0A1_A2A3_A4A5 };
    let header: Vec<u8> = (0x00..0x08).collect();
    let payload: Vec<u8> = (0x08..0x1F).collect();
    let sealed = hex("588c979a61c663d2f066d0c2c0f989806d5f6b61dac38417e8d12cfdf926e0");
    assert_eq!(wpa::ccmp_encrypt(&key, &nonce, &header, &payload), sealed);
    assert_eq!(wpa::ccmp_decrypt(&key, &nonce, &header, &sealed), Some(payload));
}

#[test]
fn encryption_with_additional_data() {
    let aad: Vec<u8> = (0..22).collect();
    assert_eq!(
        wpa::ccmp_encrypt(&counting_key(), &nonce(7), &aad, b"hello, wireless world"),
        hex("0c08c5a4dd07b07e075961108f327c085c60741bb8b8b96365d5a982ca")
    );
}

#[test]
fn encryption_without_additional_data() {
    let nonce = CcmpNonce { priority: 5, addr: [2, 0, 0, 0, 0, 1], pn: 0x0102_0304_0506_0708 };
    let payload: Vec<u8> = (0..32).collect();
    assert_eq!(
        wpa::ccmp_encrypt(&counting_key(), &nonce, &[], &payload),
        hex("ee20dc5107d7816834bc038f8d40c389b279e3b9241e93f68f56ed8a0ac2372ea08bb03ef5e30e17")
    );
}

#[test]
fn decryption_gives_back_what_was_encrypted() {
    for len in [0usize, 1, 15, 16, 17, 64, 1500] {
        let payload: Vec<u8> = (0..len).map(|i| (i * 7 % 256) as u8).collect();
        let sealed = wpa::ccmp_encrypt(&counting_key(), &nonce(3), b"header", &payload);
        assert_eq!(sealed.len(), len + 8);
        assert_eq!(
            wpa::ccmp_decrypt(&counting_key(), &nonce(3), b"header", &sealed),
            Some(payload)
        );
    }
}

#[test]
fn decryption_refuses_anything_else() {
    let sealed = wpa::ccmp_encrypt(&counting_key(), &nonce(3), b"header", b"payload");
    for i in 0..sealed.len() {
        let mut changed = sealed.clone();
        changed[i] ^= 1;
        assert_eq!(wpa::ccmp_decrypt(&counting_key(), &nonce(3), b"header", &changed), None);
    }
    assert_eq!(wpa::ccmp_decrypt(&counting_key(), &nonce(3), b"Header", &sealed), None);
    assert_eq!(wpa::ccmp_decrypt(&counting_key(), &nonce(4), b"header", &sealed), None);
    assert_eq!(wpa::ccmp_decrypt(&[9; 16], &nonce(3), b"header", &sealed), None);
    assert_eq!(wpa::ccmp_decrypt(&counting_key(), &nonce(3), b"header", &sealed[..7]), None);
}

#[test]
fn handshake_message_2() {
    let snonce = array("da6dda47b48e68fb68d5421cf689f663d0aa841784f15e3812a5127fecc6a033");
    let kck = array("7bf222ef5e32714887cf3950f2d87f36");
    let rsn = hex("30140100000fac040100000fac040100000fac020000");
    let frame = wpa::build_eapol_msg2(&snonce, 1, &kck, &rsn);
    assert_eq!(
        frame,
        hex("0203007502010a00100000000000000001da6dda47b48e68fb68d5421cf689f663d0aa841784f15e3812a5127fecc6a03300000000000000000000000000000000000000000000000000000000000000004ab4fb55eee1687649e207171608fc73001630140100000fac040100000fac040100000fac020000")
    );
    let parsed = wpa::EapolKeyFrame::parse(&frame).unwrap();
    assert_eq!(parsed.message_number(), 2);
    assert_eq!(parsed.key_length, 16);
    assert_eq!(parsed.replay_counter, 1);
    assert_eq!(parsed.nonce, snonce);
    assert_eq!(parsed.key_data, rsn);
}

#[test]
fn handshake_message_4() {
    let kck = array("7bf222ef5e32714887cf3950f2d87f36");
    let frame = wpa::build_eapol_msg4(2, &kck);
    assert_eq!(
        frame,
        hex("0203005f02030a0010000000000000000200000000000000000000000000000000000000000000000000000000000000000000000000000000000000000000000000000000000000000000000000000000e93d9e023013ac2d5433f5a58637847f0000")
    );
    let parsed = wpa::EapolKeyFrame::parse(&frame).unwrap();
    assert_eq!(parsed.message_number(), 4);
    assert_eq!(parsed.replay_counter, 2);
    assert!(parsed.key_data.is_empty());
}

#[test]
fn message_numbers_follow_the_key_info() {
    let kck = [0u8; 16];
    let mut frame = wpa::build_eapol_msg4(0, &kck);
    for (key_info, number) in [
        (0x008Au16, 1u8),
        (0x010A, 2),
        (0x038A, 3),
        (0x030A, 4),
        (0x000A, 0),
        (0x018A, 0),
        (0x020A, 0),
        (0x028A, 0),
    ] {
        frame[5] = (key_info >> 8) as u8;
        frame[6] = key_info as u8;
        assert_eq!(wpa::EapolKeyFrame::parse(&frame).unwrap().message_number(), number);
    }
}

#[test]
fn key_frames_that_do_not_parse() {
    let frame = wpa::build_eapol_msg4(0, &[0; 16]);
    assert!(wpa::EapolKeyFrame::parse(&frame[..98]).is_none());
    let mut other = frame.clone();
    other[1] = 0;
    assert!(wpa::EapolKeyFrame::parse(&other).is_none());
    // Key data that is cut short is left out.
    let mut cut = frame.clone();
    cut[98] = 4;
    assert!(wpa::EapolKeyFrame::parse(&cut).unwrap().key_data.is_empty());
    cut.extend_from_slice(&[1, 2, 3, 4]);
    assert_eq!(wpa::EapolKeyFrame::parse(&cut).unwrap().key_data, vec![1, 2, 3, 4]);
}

#[test]
fn stored_integers_are_read_back() {
    let mut out = Vec::new();
    bytes::push_le16(&mut out, 0x0102);
    bytes::push_be16(&mut out, 0x0102);
    bytes::push_le32(&mut out, 0x0102_0304);
    bytes::push_be32(&mut out, 0x0102_0304);
    bytes::push_be64(&mut out, 0x0102_0304_0506_0708);
    assert_eq!(out, vec![2, 1, 1, 2, 4, 3, 2, 1, 1, 2, 3, 4, 1, 2, 3, 4, 5, 6, 7, 8]);
    assert_eq!(bytes::read_le16(&out, 0), 0x0102);
    assert_eq!(bytes::read_be16(&out, 2), 0x0102);
    assert_eq!(bytes::read_le32(&out, 4), 0x0102_0304);
    assert_eq!(bytes::read_be32(&out, 8), 0x0102_0304);
    assert_eq!(bytes::read_be64(&out, 12), 0x0102_0304_0506_0708);
}

#[test]
fn byte_strings_are_ordered_like_words() {
    assert!(bytes::comes_before(&[1, 2], &[1, 3]));
    assert!(bytes::comes_before(&[1], &[1, 0]));
    assert!(!bytes::comes_before(&[1, 3], &[1, 2]));
    assert!(!bytes::comes_before(&[1, 2], &[1, 2]));
    assert!(!bytes::comes_before(&[2], &[1, 9]));
}
