use intel_wifi::firmware;
use intel_wifi::registers::{PollStatus, RegisterWrite};

fn tlv(kind: u32, value: &[u8]) -> Vec<u8> {
    let mut out = kind.to_le_bytes().to_vec();
    out.extend_from_slice(&(value.len() as u32).to_le_bytes());
    out.extend_from_slice(value);
    while out.len() % 4 != 0 {
        out.push(0);
    }
    out
}

fn file(magic: u32, entries: &[Vec<u8>]) -> Vec<u8> {
    let mut out = magic.to_le_bytes().to_vec();
    out.extend_from_slice(&[0; 8]);
    out.extend_from_slice(&77u32.to_le_bytes());
    out.extend_from_slice(&1234u32.to_le_bytes());
    for entry in entries {
        out.extend_from_slice(entry);
    }
    out
}

const MAGIC: u32 = 0x0A4C_5749;

#[test]
fn all_sections() {
    let image = firmware::parse_firmware(&file(
        MAGIC,
        &[
            tlv(1, &[1, 2, 3, 4, 5]),
            tlv(36, b"version"),
            tlv(2, &[6]),
            tlv(3, &[7, 8]),
            tlv(4, &[9, 10, 11]),
            tlv(50, &[0; 9]),
        ],
    ))
    .unwrap();
    assert_eq!(image.inst_section, vec![1, 2, 3, 4, 5]);
    assert_eq!(image.data_section, vec![6]);
    assert_eq!(image.init_inst_section, vec![7, 8]);
    assert_eq!(image.init_data_section, vec![9, 10, 11]);
    assert_eq!(image.api_version, 77);
    assert_eq!(image.build, 1234);
}

#[test]
fn a_zero_magic_is_accepted() {
    assert!(firmware::parse_firmware(&file(0, &[tlv(1, &[1])])).is_some());
}

#[test]
fn the_last_section_of_a_type_counts() {
    let image = firmware::parse_firmware(&file(MAGIC, &[tlv(1, &[1]), tlv(1, &[2, 2])])).unwrap();
    assert_eq!(image.inst_section, vec![2, 2]);
}

#[test]
fn images_that_do_not_parse() {
    assert!(firmware::parse_firmware(&[]).is_none());
    assert!(firmware::parse_firmware(&file(MAGIC, &[])[..0x14]).is_none());
    assert!(firmware::parse_firmware(&file(0x1234_5678, &[tlv(1, &[1])])).is_none());
    assert!(firmware::parse_firmware(&file(MAGIC, &[tlv(2, &[1])])).is_none());
    assert!(firmware::parse_firmware(&file(MAGIC, &[tlv(1, &[])])).is_none());
}

#[test]
fn an_entry_that_runs_past_the_end_makes_the_image_corrupt() {
    let mut data = file(MAGIC, &[tlv(1, &[1, 2, 3, 4])]);
    assert!(firmware::parse_firmware(&data).is_some());
    data.extend_from_slice(&tlv(2, &[5; 8])[..12]);
    assert!(firmware::parse_firmware(&data).is_none());
    let mut bare = file(MAGIC, &[tlv(1, &[1, 2, 3, 4])]);
    bare.extend_from_slice(&[2, 0, 0, 0, 100, 0, 0, 0]);
    assert!(firmware::parse_firmware(&bare).is_none());
}

#[test]
fn a_few_bytes_behind_the_last_entry_are_passed_over() {
    let mut data = file(MAGIC, &[tlv(1, &[1, 2, 3, 4])]);
    data.extend_from_slice(&[2, 0, 0, 0, 100, 0, 0]);
    assert_eq!(firmware::parse_firmware(&data).unwrap().inst_section, vec![1, 2, 3, 4]);
}

#[test]
fn an_appended_entry_changes_its_own_section_only() {
    let entries = [tlv(1, &[1]), tlv(2, &[2]), tlv(3, &[3]), tlv(4, &[4])];
    let mut data = file(MAGIC, &entries);
    data.extend_from_slice(&tlv(3, &[7, 7]));
    let image = firmware::parse_firmware(&data).unwrap();
    assert_eq!(image.inst_section, vec![1]);
    assert_eq!(image.data_section, vec![2]);
    assert_eq!(image.init_inst_section, vec![7, 7]);
    assert_eq!(image.init_data_section, vec![4]);
}

#[test]
fn missing_padding_at_the_end_is_no_fault() {
    let mut data = file(MAGIC, &[]);
    data.extend_from_slice(&[1, 0, 0, 0, 3, 0, 0, 0, 7, 8, 9]);
    assert_eq!(firmware::parse_firmware(&data).unwrap().inst_section, vec![7, 8, 9]);
}

#[test]
fn upload_writes_words_and_starts_the_copy() {
    let image = firmware::parse_firmware(&file(MAGIC, &[tlv(1, &[1, 2, 3, 4, 5, 6])])).unwrap();
    let (writes, poll) = firmware::upload_to_device(&image);
    assert_eq!(
        writes,
        vec![
            RegisterWrite { offset: 0x1000, value: 0x0403_0201 },
            RegisterWrite { offset: 0x1004, value: 0x0000_0605 },
            RegisterWrite { offset: 0x3404, value: 0 },
            RegisterWrite { offset: 0x3408, value: 0 },
            RegisterWrite { offset: 0x340C, value: 1 },
            RegisterWrite { offset: 0x3400, value: 0x8000_0000 },
        ]
    );
    assert_eq!((poll.offset, poll.mask, poll.until_set, poll.reads_left), (0x3410, 1, true, 1000));
}

#[test]
fn upload_results() {
    assert_eq!(firmware::upload_result(PollStatus::Waiting), None);
    assert_eq!(firmware::upload_result(PollStatus::Met), Some(Ok(())));
    assert_eq!(
        firmware::upload_result(PollStatus::TimedOut),
        Some(Err("firmware BSM upload timed out"))
    );
}

#[test]
fn the_upload_gives_up_after_a_thousand_reads() {
    let image = firmware::parse_firmware(&file(MAGIC, &[tlv(1, &[1])])).unwrap();
    let (_, mut poll) = firmware::upload_to_device(&image);
    let mut reads = 0;
    loop {
        reads += 1;
        if let Some(result) = firmware::upload_result(poll.observe(0xFFFE)) {
            assert_eq!(result, Err("firmware BSM upload timed out"));
            break;
        }
    }
    assert_eq!(reads, 1000);
}
