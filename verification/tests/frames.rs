use intel_wifi::ieee80211;
use intel_wifi::ieee80211::{FrameControl, FrameType, IeIterator, MacHeader, MgmtSubtype};

const AP: [u8; 6] = [0x0A, 0x0B, 0x0C, 0x0D, 0x0E, 0x0F];
const STA: [u8; 6] = [2, 0, 0, 0, 0, 1];

fn beacon(ssid: &[u8], channel: u8, capability: u16, rsn: bool) -> Vec<u8> {
    let mut frame = vec![0x80, 0, 0, 0];
    frame.extend_from_slice(&[0xFF; 6]);
    frame.extend_from_slice(&AP);
    frame.extend_from_slice(&AP);
    frame.extend_from_slice(&[0, 0]);
    frame.extend_from_slice(&[0; 8]);
    frame.extend_from_slice(&100u16.to_le_bytes());
    frame.extend_from_slice(&capability.to_le_bytes());
    frame.push(0);
    frame.push(ssid.len() as u8);
    frame.extend_from_slice(ssid);
    frame.extend_from_slice(&[3, 1, channel]);
    if rsn {
        frame.extend_from_slice(&[48, 2, 1, 0]);
    }
    frame
}

#[test]
fn frame_control_fields() {
    let fc = FrameControl::from_raw(0x4188);
    assert_eq!(fc.protocol_version(), 0);
    assert!(fc.frame_type() == FrameType::Data);
    assert_eq!(fc.subtype(), 8);
    assert!(fc.to_ds());
    assert!(!fc.from_ds());
    assert!(fc.protected());
    assert!(fc.is_qos());
    assert!(FrameControl::from_raw(0x0004).frame_type() == FrameType::Control);
    assert!(FrameControl::from_raw(0x000C).frame_type() == FrameType::Extension);
    assert!(!FrameControl::from_raw(0x0080).is_qos());
}

#[test]
fn header_with_all_fields() {
    let mut frame = vec![0x88, 0x03, 0x34, 0x12];
    frame.extend_from_slice(&[1; 6]);
    frame.extend_from_slice(&[2; 6]);
    frame.extend_from_slice(&[3; 6]);
    frame.extend_from_slice(&[0x10, 0x20]);
    frame.extend_from_slice(&[4; 6]);
    frame.extend_from_slice(&[0x05, 0x00]);
    let header = MacHeader::parse(&frame).unwrap();
    assert_eq!(header.duration, 0x1234);
    assert_eq!(header.addr1, [1; 6]);
    assert_eq!(header.addr2, [2; 6]);
    assert_eq!(header.addr3, [3; 6]);
    assert_eq!(header.seq_ctrl, 0x2010);
    assert_eq!(header.addr4, Some([4; 6]));
    assert_eq!(header.qos_ctrl, Some(5));
    assert_eq!(header.header_len, 32);
    assert!(MacHeader::parse(&frame[..31]).is_none());
    assert!(MacHeader::parse(&frame[..29]).is_none());
    assert!(MacHeader::parse(&frame[..23]).is_none());
}

#[test]
fn auth_frame_bytes() {
    let frame = ieee80211::build_auth_frame(&AP, &STA);
    let mut expected = vec![0xB0, 0, 0, 0];
    expected.extend_from_slice(&AP);
    expected.extend_from_slice(&STA);
    expected.extend_from_slice(&AP);
    expected.extend_from_slice(&[0, 0, 0, 0, 1, 0, 0, 0]);
    assert_eq!(frame, expected);
}

#[test]
fn management_frames_parse_as_what_they_are() {
    let auth = MacHeader::parse(&ieee80211::build_auth_frame(&AP, &STA)).unwrap();
    assert!(auth.frame_control.frame_type() == FrameType::Management);
    assert_eq!(auth.frame_control.subtype(), MgmtSubtype::Auth.code());
    assert_eq!(auth.addr1, AP);
    assert_eq!(auth.addr2, STA);
    assert_eq!(auth.addr3, AP);
    assert_eq!(auth.header_len, 24);
}

#[test]
fn assoc_request_bytes() {
    let frame = ieee80211::build_assoc_request(&AP, &STA, "home");
    let mut expected = vec![0x00, 0, 0, 0];
    expected.extend_from_slice(&AP);
    expected.extend_from_slice(&STA);
    expected.extend_from_slice(&AP);
    expected.extend_from_slice(&[0, 0, 0x31, 0x04, 10, 0]);
    expected.extend_from_slice(&[0, 4, b'h', b'o', b'm', b'e']);
    expected.extend_from_slice(&[1, 8, 0x82, 0x84, 0x8B, 0x96, 0x0C, 0x12, 0x18, 0x24]);
    expected.extend_from_slice(&[
        48, 20, 1, 0, 0, 0x0F, 0xAC, 4, 1, 0, 0, 0x0F, 0xAC, 4, 1, 0, 0, 0x0F, 0xAC, 2, 0, 0,
    ]);
    assert_eq!(frame, expected);
}

#[test]
fn elements_of_an_assoc_request() {
    let frame = ieee80211::build_assoc_request(&AP, &STA, "home");
    let mut list = IeIterator::new(&frame[28..]);
    let ssid = list.next().unwrap();
    assert_eq!((ssid.id, ssid.data), (0, &b"home"[..]));
    let rates = list.next().unwrap();
    assert_eq!((rates.id, rates.data.len()), (1, 8));
    let rsn = list.next().unwrap();
    assert_eq!((rsn.id, rsn.data.len()), (48, 20));
    assert!(list.next().is_none());
}

#[test]
fn an_element_that_is_cut_short_is_none() {
    let mut list = IeIterator::new(&[7, 1, 9, 5, 3, 1, 1]);
    assert_eq!(list.next().unwrap().data, &[9][..]);
    assert!(list.next().is_none());
    assert!(IeIterator::new(&[7]).next().is_none());
    assert!(IeIterator::new(&[]).next().is_none());
}

#[test]
fn qos_data_header_bytes() {
    let dst = [9, 8, 7, 6, 5, 4];
    let header = ieee80211::build_qos_data_header(&AP, &STA, &dst, 0x1234, 6);
    let mut expected = vec![0x88, 0x41, 0, 0];
    expected.extend_from_slice(&AP);
    expected.extend_from_slice(&STA);
    expected.extend_from_slice(&dst);
    expected.extend_from_slice(&[0x40, 0x23, 6, 0]);
    assert_eq!(header, expected);
    let parsed = MacHeader::parse(&header).unwrap();
    assert!(parsed.frame_control.is_qos() && parsed.frame_control.protected());
    assert_eq!(parsed.qos_ctrl, Some(6));
    assert_eq!(parsed.header_len, 26);
}

#[test]
fn beacon_of_a_protected_network() {
    let info = ieee80211::parse_beacon(&beacon("caf\u{e9}".as_bytes(), 11, 0x0011, true)).unwrap();
    assert_eq!(info.ssid, "caf\u{e9}");
    assert_eq!(info.bssid, AP);
    assert_eq!(info.channel, 11);
    assert_eq!(info.beacon_interval, 100);
    assert_eq!(info.capability, 0x0011);
    assert!(info.has_rsn);
    assert!(!info.is_open);
}

#[test]
fn a_network_is_open_without_privacy_and_rsn() {
    assert!(ieee80211::parse_beacon(&beacon(b"x", 1, 0x0001, false)).unwrap().is_open);
    assert!(!ieee80211::parse_beacon(&beacon(b"x", 1, 0x0010, false)).unwrap().is_open);
    assert!(!ieee80211::parse_beacon(&beacon(b"x", 1, 0x0001, true)).unwrap().is_open);
}

#[test]
fn an_ssid_that_is_no_text_is_left_out() {
    assert_eq!(ieee80211::parse_beacon(&beacon(&[0xFF, 0xFE], 1, 0, false)).unwrap().ssid, "");
    assert_eq!(ieee80211::parse_beacon(&beacon(&[], 1, 0, false)).unwrap().ssid, "");
}

#[test]
fn the_last_valid_ssid_counts() {
    let mut frame = beacon(b"first", 1, 0, false);
    frame.extend_from_slice(&[0, 2, b'o', b'k']);
    frame.extend_from_slice(&[0, 1, 0xFF]);
    assert_eq!(ieee80211::parse_beacon(&frame).unwrap().ssid, "ok");
}

#[test]
fn short_frames_are_no_beacons() {
    let frame = beacon(b"", 1, 0, false);
    assert!(ieee80211::parse_beacon(&frame[..35]).is_none());
    let bare = ieee80211::parse_beacon(&frame[..36]).unwrap();
    assert_eq!((bare.channel, bare.ssid.as_str()), (0, ""));
    assert!(ieee80211::parse_beacon(&frame[..10]).is_none());
}
