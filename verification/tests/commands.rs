use intel_wifi::commands;
use intel_wifi::commands::{
    Band, ChannelWidth, CommandId, CommandResponse, HostCommand, KeyAlgorithm, NvmSection,
};

#[test]
fn serialized_command() {
    let cmd = HostCommand::with_data(CommandId::ScanUmac, vec![7, 8, 9]);
    assert_eq!(cmd.serialize(0x0102), vec![0x0C, 0, 0x02, 0x01, 3, 0, 7, 8, 9]);
    let bare = HostCommand::new(CommandId::RemoveStation);
    assert_eq!(bare.serialize(0xFFFF), vec![0x19, 0, 0xFF, 0xFF, 0, 0]);
}

#[test]
fn the_length_field_has_sixteen_bits() {
    let cmd = HostCommand::with_data(CommandId::Tx, vec![0; 0x1_0002]);
    let bytes = cmd.serialize(0);
    assert_eq!(bytes.len(), 6 + 0x1_0002);
    assert_eq!(&bytes[4..6], &[2, 0]);
}

#[test]
fn command_numbers() {
    assert_eq!(CommandId::Alive.code(), 0x01);
    assert_eq!(CommandId::NvmAccess.code(), 0x88);
    assert_eq!(CommandId::ScanComplete.code(), 0x84);
    assert_eq!(CommandId::NicConfig.code(), 0xBB);
    assert_eq!(NvmSection::Production.code(), 3);
    assert_eq!(Band::Band6G.code(), 2);
    assert_eq!(ChannelWidth::Mhz160.code(), 3);
    assert_eq!(KeyAlgorithm::Unencrypted.code(), 0);
    assert_eq!(KeyAlgorithm::Ccmp.code(), 3);
}

#[test]
fn responses() {
    let data = [0x88, 1, 0x34, 0x12, 4, 3, 2, 1, 9, 9];
    let response = CommandResponse::parse(&data).unwrap();
    assert_eq!(response.id, 0x88);
    assert_eq!(response.group, 1);
    assert_eq!(response.sequence, 0x1234);
    assert_eq!(response.status, 0x0102_0304);
    assert_eq!(response.data, vec![9, 9]);
    assert!(CommandResponse::parse(&data[..8]).unwrap().data.is_empty());
    assert!(CommandResponse::parse(&data[..7]).is_none());
}

#[test]
fn nvm_read() {
    let cmd = commands::nvm_read_cmd(NvmSection::Production, 0x0102, 6);
    assert!(cmd.id == CommandId::NvmAccess);
    assert_eq!(cmd.data, vec![3, 0, 2, 1, 6, 0, 0, 0]);
}

#[test]
fn phy_context() {
    let cmd = commands::phy_context_cmd(Band::Band5G, 36, ChannelWidth::Mhz80);
    assert!(cmd.id == CommandId::PhyContext);
    assert_eq!(cmd.data, vec![1, 0, 0, 0, 1, 36, 2, 0, 3, 0, 0, 0, 0, 0, 0, 0]);
}

#[test]
fn passive_scan() {
    let cmd = commands::scan_cmd(&[1, 6], None);
    let mut expected = vec![0, 0, 0, 0, 2, 0, 0, 0];
    expected.extend_from_slice(&[0; 33]);
    expected.extend_from_slice(&[1, 0, 100, 0, 6, 0, 100, 0]);
    assert!(cmd.id == CommandId::ScanUmac);
    assert_eq!(cmd.data, expected);
}

#[test]
fn active_scan() {
    let cmd = commands::scan_cmd(&[11], Some(b"home"));
    let mut expected = vec![1, 0, 0, 0, 1, 0, 0, 0, 4, b'h', b'o', b'm', b'e'];
    expected.extend_from_slice(&[0; 28]);
    expected.extend_from_slice(&[11, 0, 100, 0]);
    assert_eq!(cmd.data, expected);
}

#[test]
fn a_long_ssid_is_cut() {
    let cmd = commands::scan_cmd(&[], Some(&[b'a'; 40]));
    assert_eq!(cmd.data.len(), 8 + 33);
    assert_eq!(cmd.data[8], 32);
    assert!(cmd.data[9..].iter().all(|b| *b == b'a'));
}

#[test]
fn add_station() {
    let cmd = commands::add_station_cmd(&[1, 2, 3, 4, 5, 6], 7);
    let mut expected = vec![7, 0, 0, 0, 1, 2, 3, 4, 5, 6];
    expected.extend_from_slice(&[0; 22]);
    assert!(cmd.id == CommandId::AddStation);
    assert_eq!(cmd.data, expected);
}

#[test]
fn add_key() {
    let cmd = commands::add_key_cmd(1, 2, KeyAlgorithm::Ccmp, &[5; 16]);
    let mut expected = vec![1, 2, 3, 16];
    expected.extend_from_slice(&[5; 16]);
    expected.extend_from_slice(&[0; 16]);
    expected.extend_from_slice(&[0; 12]);
    assert!(cmd.id == CommandId::AddKey);
    assert_eq!(cmd.data, expected);
}

#[test]
fn a_long_key_is_not_padded() {
    let cmd = commands::add_key_cmd(0, 0, KeyAlgorithm::Wep, &[5; 40]);
    assert_eq!(cmd.data.len(), 4 + 40 + 12);
    assert_eq!(cmd.data[3], 40);
}
