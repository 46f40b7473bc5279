use intel_wifi::driver::reset::{NicReset, ResetAction};
use intel_wifi::driver::{Progress, WifiState};
use intel_wifi::ieee80211;
use intel_wifi::scan::ScanConfig;
use intel_wifi::wpa;
use intel_wifi::{WifiController, WifiDevice, WifiVariant};

const AP: [u8; 6] = [0x0A, 0x0B, 0x0C, 0x0D, 0x0E, 0x0F];
const MAC: [u8; 6] = [2, 0, 0, 0, 0, 1];

fn hex(text: &str) -> Vec<u8> {
    (0..text.len())
        .step_by(2)
        .map(|i| u8::from_str_radix(&text[i..i + 2], 16).unwrap())
        .collect()
}

fn firmware_file() -> Vec<u8> {
    let mut file = vec![0; 0x14];
    file.extend_from_slice(&[1, 0, 0, 0, 1, 0, 0, 0, 9]);
    file
}

fn device() -> WifiDevice {
    WifiDevice {
        bus: 1,
        device: 2,
        function: 0,
        device_id: 0x2723,
        variant: WifiVariant::AX200,
        bar0: 0xD000_0000,
        irq_line: 11,
    }
}

fn granted() -> NicReset {
    let mut reset = NicReset::new();
    loop {
        match reset.next_action() {
            ResetAction::Finished => return reset,
            ResetAction::Read(offset) => reset.advance(if offset == 0x24 { 4 } else { 0 }),
            ResetAction::Write(_) => reset.advance(0),
        }
    }
}

/// A controller together with the number of buffers that the device has written.
struct Bench {
    wifi: WifiController,
    written: usize,
}

impl Bench {
    fn new() -> Bench {
        let wifi = WifiController::init(&device(), 0, &granted()).ok().unwrap();
        Bench { wifi, written: 0 }
    }

    /// A controller whose firmware was uploaded.
    fn uploaded() -> Bench {
        let mut bench = Bench::new();
        bench.wifi.load_firmware(&firmware_file()).unwrap();
        assert_eq!(bench.wifi.firmware_uploaded(Ok(())), Ok(()));
        bench
    }

    fn ready() -> Bench {
        let mut bench = Bench::uploaded();
        bench.send(&[1, 0, 0, 0, 0, 0, 0, 0]);
        assert!(matches!(bench.wifi.poll(), Progress::Pending));
        bench.send(&[0x88, 0, 0, 0, 0, 0, 0, 0, 2, 0, 0, 0, 0, 1]);
        assert!(matches!(bench.wifi.poll(), Progress::Done));
        bench.wifi.take_doorbells();
        bench
    }

    fn connected() -> Bench {
        let mut bench = Bench::ready();
        assert_eq!(bench.wifi.connect("MyNetwork", "hunter22"), Ok(()));
        bench.send(&beacon(b"MyNetwork", 11));
        assert!(matches!(bench.wifi.poll(), Progress::Pending));
        bench.send(&[0x84, 0, 0, 0, 0, 0, 0, 0]);
        assert!(matches!(bench.wifi.poll(), Progress::Pending));
        bench.send(&management(0xB0));
        assert!(matches!(bench.wifi.poll(), Progress::Pending));
        bench.send(&management(0x10));
        assert!(matches!(bench.wifi.poll(), Progress::Pending));
        bench.send(&key_message(0x008A, 1));
        assert!(matches!(bench.wifi.poll(), Progress::Pending));
        bench.send(&key_message(0x038A, 2));
        assert!(matches!(bench.wifi.poll(), Progress::Done));
        bench
    }

    fn send(&mut self, data: &[u8]) {
        self.wifi.device_wrote(self.written % 256, data, 0);
        self.written += 1;
    }

    fn state(&self) -> WifiState {
        self.wifi.status().state
    }

    /// Poll until something else than `Pending` comes; the number of polls too.
    fn finish(&mut self) -> (Progress, u32) {
        let mut polls = 0;
        loop {
            assert!(self.wifi.can_poll());
            polls += 1;
            match self.wifi.poll() {
                Progress::Pending => {}
                progress => return (progress, polls),
            }
        }
    }

    fn failure(&mut self) -> &'static str {
        match self.finish().0 {
            Progress::Failed(reason) => reason,
            _ => panic!("no failure"),
        }
    }
}

fn beacon(ssid: &[u8], channel: u8) -> Vec<u8> {
    let mut frame = vec![0x80, 0, 0, 0];
    frame.extend_from_slice(&[0xFF; 6]);
    frame.extend_from_slice(&AP);
    frame.extend_from_slice(&AP);
    frame.extend_from_slice(&[0; 10]);
    frame.extend_from_slice(&[100, 0, 0x11, 0]);
    frame.push(0);
    frame.push(ssid.len() as u8);
    frame.extend_from_slice(ssid);
    frame.extend_from_slice(&[3, 1, channel, 48, 0]);
    frame
}

fn management(control: u8) -> Vec<u8> {
    let mut frame = vec![control, 0, 0, 0];
    frame.extend_from_slice(&[0; 20]);
    frame
}

fn anonce() -> [u8; 32] {
    let mut nonce = [0u8; 32];
    for i in 0..32 {
        nonce[i] = 100 + i as u8;
    }
    nonce
}

fn key_message(key_info: u16, replay_counter: u64) -> Vec<u8> {
    let mut frame = vec![2, 3, 0, 95, 2];
    frame.extend_from_slice(&key_info.to_be_bytes());
    frame.extend_from_slice(&[0, 16]);
    frame.extend_from_slice(&replay_counter.to_be_bytes());
    frame.extend_from_slice(&anonce());
    frame.extend_from_slice(&[0; 50]);
    frame
}

#[test]
fn reset_steps() {
    let mut reset = NicReset::new();
    match reset.next_action() {
        ResetAction::Write(w) => assert_eq!((w.offset, w.value), (0x20, 0x80)),
        _ => panic!("no write"),
    }
    reset.advance(0);
    assert!(reset.next_action() == ResetAction::Read(0x20));
    reset.advance(0x80);
    assert!(reset.next_action() == ResetAction::Read(0x20));
    reset.advance(0x01);
    match reset.next_action() {
        ResetAction::Write(w) => assert_eq!((w.offset, w.value), (0x24, 0x08)),
        _ => panic!("no write"),
    }
    reset.advance(0);
    assert!(reset.next_action() == ResetAction::Read(0x24));
    reset.advance(0x04);
    assert!(reset.next_action() == ResetAction::Finished);
    assert!(WifiController::init(&device(), 0, &reset).is_ok());
}

#[test]
fn a_reset_bit_that_stays_is_passed_over_but_access_is_needed() {
    let mut reset = NicReset::new();
    let mut reads = 0;
    loop {
        match reset.next_action() {
            ResetAction::Finished => break,
            ResetAction::Read(_) => {
                reads += 1;
                reset.advance(0x80);
            }
            ResetAction::Write(_) => reset.advance(0),
        }
    }
    assert_eq!(reads, 2000);
    assert_eq!(WifiController::init(&device(), 0, &reset).err(), Some("NIC reset timed out"));
}

#[test]
fn a_new_controller() {
    let bench = Bench::new();
    assert_eq!(bench.state(), WifiState::Uninitialized);
    assert!(bench.wifi.variant() == WifiVariant::AX200);
    assert_eq!(bench.wifi.irq_line(), 11);
    assert_eq!(bench.wifi.mac_address(), [0; 6]);
    let status = bench.wifi.status();
    assert_eq!((status.ssid.as_str(), status.bssid, status.channel), ("", [0; 6], 0));
    assert_eq!(status.signal_dbm, -50);
    assert!(status.ip_config.is_none());
}

#[test]
fn firmware_that_does_not_parse() {
    let mut bench = Bench::new();
    assert_eq!(bench.wifi.load_firmware(&[0; 64]).err(), Some("failed to parse firmware image"));
    assert_eq!(bench.wifi.load_firmware(&firmware_file()).unwrap().inst_section, vec![9]);
    assert_eq!(
        bench.wifi.firmware_uploaded(Err("firmware BSM upload timed out")),
        Err("firmware BSM upload timed out")
    );
    assert!(matches!(bench.wifi.poll(), Progress::Done));
}

#[test]
fn an_upload_needs_an_image() {
    let mut bench = Bench::new();
    assert_eq!(bench.wifi.firmware_uploaded(Ok(())), Err("no firmware image"));
    assert!(matches!(bench.wifi.poll(), Progress::Done));
    assert_eq!(bench.state(), WifiState::Uninitialized);
    // An image that was refused takes back the one before it.
    bench.wifi.load_firmware(&firmware_file()).unwrap();
    assert!(bench.wifi.load_firmware(&[]).is_err());
    assert_eq!(bench.wifi.firmware_uploaded(Ok(())), Err("no firmware image"));
    // An image counts once.
    bench.wifi.load_firmware(&firmware_file()).unwrap();
    assert_eq!(bench.wifi.firmware_uploaded(Ok(())), Ok(()));
    assert_eq!(bench.wifi.firmware_uploaded(Ok(())), Err("no firmware image"));
}

#[test]
fn starting_up_reads_the_mac_address() {
    let mut bench = Bench::uploaded();
    bench.send(&[9; 8]);
    assert!(matches!(bench.wifi.poll(), Progress::Pending));
    bench.send(&[1, 0, 0, 0, 0, 0, 0, 0]);
    assert!(matches!(bench.wifi.poll(), Progress::Pending));
    // The NVM read was submitted.
    let doorbells = bench.wifi.take_doorbells();
    assert_eq!(doorbells.len(), 1);
    assert_eq!((doorbells[0].offset, doorbells[0].value), (0x1C00, 1));
    // An answer without enough data is not the answer.
    bench.send(&[0x88, 0, 0, 0, 0, 0, 0, 0, 2, 0, 0, 0, 0]);
    assert!(matches!(bench.wifi.poll(), Progress::Pending));
    bench.send(&[0x88, 0, 0, 0, 0, 0, 0, 0, 6, 5, 4, 3, 2, 1, 0]);
    assert!(matches!(bench.wifi.poll(), Progress::Done));
    assert_eq!(bench.state(), WifiState::Ready);
    assert_eq!(bench.wifi.mac_address(), [6, 5, 4, 3, 2, 1]);
    assert!(bench.wifi.take_doorbells().is_empty());
}

#[test]
fn firmware_that_stays_silent() {
    let mut bench = Bench::uploaded();
    let (progress, polls) = bench.finish();
    assert!(matches!(progress, Progress::Failed("firmware alive timeout")));
    assert_eq!(polls, 5001);
    assert_eq!(bench.state(), WifiState::Uninitialized);
}

#[test]
fn a_default_mac_address_is_used() {
    let mut bench = Bench::uploaded();
    bench.send(&[1, 0, 0, 0, 0, 0, 0, 0]);
    let (progress, polls) = bench.finish();
    assert!(matches!(progress, Progress::Done));
    assert_eq!(polls, 1002);
    assert_eq!(bench.wifi.mac_address(), [2, 0, 0, 0, 0, 1]);
    assert_eq!(bench.state(), WifiState::Ready);
}

#[test]
fn a_scan_reports_networks() {
    let mut bench = Bench::ready();
    bench.wifi.scan_networks().unwrap();
    assert_eq!(bench.state(), WifiState::Scanning);
    assert_eq!(bench.wifi.scan_networks(), Err("cannot scan in current state"));
    assert_eq!(bench.wifi.connect("a", "b"), Err("cannot connect in current state"));
    bench.send(&beacon(b"home", 6));
    bench.send(&beacon(b"again", 6));
    bench.send(&[7; 20]);
    bench.send(&[0x84, 0, 0, 0, 0, 0, 0, 0]);
    let (progress, polls) = bench.finish();
    assert_eq!(polls, 4);
    match progress {
        Progress::Networks(list) => {
            assert_eq!(list.len(), 1);
            assert_eq!(list[0].ssid, "home");
            assert_eq!(list[0].bssid, AP);
            assert_eq!((list[0].channel, list[0].signal_dbm), (6, -50));
            assert!(list[0].wpa2 && list[0].encrypted);
        }
        _ => panic!("no networks"),
    }
    assert_eq!(bench.state(), WifiState::Ready);
}

#[test]
fn a_scan_ends_with_its_timeout() {
    let mut bench = Bench::ready();
    let mut config = ScanConfig::default();
    config.timeout_ms = 20;
    config.min_signal_dbm = -40;
    bench.wifi.scan_networks_with_config(config).unwrap();
    bench.send(&beacon(b"too weak", 6));
    let (progress, polls) = bench.finish();
    assert_eq!(polls, 201);
    assert!(matches!(progress, Progress::Networks(list) if list.is_empty()));
}

#[test]
fn the_command_queue_fills_up() {
    // One command was used up by starting up.
    let mut bench = Bench::ready();
    for _ in 0..254 {
        let mut config = ScanConfig::default();
        config.timeout_ms = 0;
        bench.wifi.scan_networks_with_config(config).unwrap();
        assert!(matches!(bench.wifi.poll(), Progress::Networks(_)));
    }
    assert_eq!(bench.wifi.scan_networks(), Err("command queue full"));
    assert_eq!(bench.state(), WifiState::Scanning);
    assert_eq!(bench.wifi.take_doorbells().len(), 254);
}

#[test]
fn connecting_needs_the_network() {
    let mut bench = Bench::ready();
    bench.wifi.connect("elsewhere", "password").unwrap();
    bench.send(&beacon(b"home", 6));
    bench.send(&[0x84, 0, 0, 0, 0, 0, 0, 0]);
    assert_eq!(bench.failure(), "target network not found");
    assert_eq!(bench.state(), WifiState::Ready);
}

#[test]
fn connecting_stage_by_stage() {
    let mut bench = Bench::ready();
    bench.wifi.connect("MyNetwork", "hunter22").unwrap();
    assert_eq!(bench.state(), WifiState::Scanning);
    bench.send(&beacon(b"MyNetwork", 11));
    bench.send(&[0x84, 0, 0, 0, 0, 0, 0, 0]);
    bench.wifi.poll();
    bench.wifi.poll();
    assert_eq!(bench.state(), WifiState::Authenticating);
    // Any other frame is passed over.
    bench.send(&management(0x10));
    bench.wifi.poll();
    assert_eq!(bench.state(), WifiState::Authenticating);
    bench.send(&management(0xB0));
    bench.wifi.poll();
    assert_eq!(bench.state(), WifiState::Associating);
    bench.send(&management(0x10));
    bench.wifi.poll();
    assert_eq!(bench.state(), WifiState::Handshaking);
    bench.send(&key_message(0x038A, 9));
    bench.wifi.poll();
    assert_eq!(bench.state(), WifiState::Handshaking);
    bench.send(&key_message(0x008A, 1));
    bench.wifi.poll();
    bench.send(&key_message(0x038A, 2));
    assert!(matches!(bench.wifi.poll(), Progress::Done));
    let status = bench.wifi.status();
    assert_eq!(status.state, WifiState::Connected);
    assert_eq!(status.ssid, "MyNetwork");
    assert_eq!(status.bssid, AP);
    assert_eq!(status.channel, 11);
    // scan, PHY, auth, assoc, station, message 2, message 4, key
    let doorbells: Vec<(usize, u32)> =
        bench.wifi.take_doorbells().iter().map(|w| (w.offset, w.value)).collect();
    assert_eq!(
        doorbells,
        vec![
            (0x1C00, 2),
            (0x1C00, 3),
            (0x1C20, 1),
            (0x1C20, 2),
            (0x1C00, 4),
            (0x1C20, 3),
            (0x1C20, 4),
            (0x1C00, 5),
        ]
    );
}

#[test]
fn other_frames_and_idle_polls_do_not_stop_a_connection() {
    let mut bench = Bench::ready();
    bench.wifi.connect("MyNetwork", "hunter22").unwrap();
    let mut other = beacon(b"other", 1);
    other[16..22].copy_from_slice(&[1; 6]);
    let frames = [
        other,
        beacon(b"MyNetwork", 11),
        vec![0x84, 0, 0, 0, 0, 0, 0, 0],
        management(0x80),
        management(0xB0),
        beacon(b"other", 1),
        management(0x10),
        vec![7; 50],
        key_message(0x008A, 1),
        key_message(0x008A, 1),
        key_message(0x038A, 2),
    ];
    for frame in frames.iter() {
        for _ in 0..10 {
            assert!(matches!(bench.wifi.poll(), Progress::Pending));
        }
        bench.send(frame);
    }
    assert!(matches!(bench.finish().0, Progress::Done));
    assert_eq!(bench.state(), WifiState::Connected);
}

#[test]
fn connecting_times_out_at_every_stage() {
    let mut bench = Bench::ready();
    bench.wifi.connect("MyNetwork", "hunter22").unwrap();
    bench.send(&beacon(b"MyNetwork", 11));
    bench.send(&[0x84, 0, 0, 0, 0, 0, 0, 0]);
    assert_eq!(bench.failure(), "auth response timeout");
    assert_eq!(bench.state(), WifiState::Authenticating);
    // The controller stays there.
    assert_eq!(bench.wifi.scan_networks(), Err("cannot scan in current state"));

    let mut bench = Bench::ready();
    bench.wifi.connect("MyNetwork", "hunter22").unwrap();
    bench.send(&beacon(b"MyNetwork", 11));
    bench.send(&[0x84, 0, 0, 0, 0, 0, 0, 0]);
    bench.send(&management(0xB0));
    assert_eq!(bench.failure(), "association response timeout");

    let mut bench = Bench::ready();
    bench.wifi.connect("MyNetwork", "hunter22").unwrap();
    bench.send(&beacon(b"MyNetwork", 11));
    bench.send(&[0x84, 0, 0, 0, 0, 0, 0, 0]);
    bench.send(&management(0xB0));
    bench.send(&management(0x10));
    assert_eq!(bench.failure(), "EAPOL message timeout");

    let mut bench = Bench::ready();
    bench.wifi.connect("MyNetwork", "hunter22").unwrap();
    bench.send(&beacon(b"MyNetwork", 11));
    bench.send(&[0x84, 0, 0, 0, 0, 0, 0, 0]);
    bench.send(&management(0xB0));
    bench.send(&management(0x10));
    bench.send(&key_message(0x008A, 1));
    assert_eq!(bench.failure(), "EAPOL message timeout");
    assert_eq!(bench.state(), WifiState::Handshaking);
}

#[test]
fn sending_needs_a_connection_and_a_header() {
    let mut bench = Bench::ready();
    assert_eq!(bench.wifi.transmit(&[0; 64]), Err("not connected"));
    assert_eq!(bench.wifi.ip_config().err(), Some("not connected"));
    let mut bench = Bench::connected();
    assert_eq!(bench.wifi.transmit(&[0; 13]), Err("payload too short"));
    assert_eq!(bench.wifi.last_packet_number(), 0);
    assert_eq!(bench.wifi.transmit(&[0; 14]), Ok(()));
    assert_eq!(bench.wifi.last_packet_number(), 1);
    assert_eq!(
        bench.wifi.ip_config().err(),
        Some("DHCP over WiFi not yet implemented \u{2014} wire into smoltcp")
    );
}

#[test]
fn the_data_queue_fills_up() {
    // Four frames were used up by connecting.
    let mut bench = Bench::connected();
    for i in 0..251u64 {
        assert_eq!(bench.wifi.last_packet_number(), i);
        assert_eq!(bench.wifi.transmit(&[0; 60]), Ok(()));
    }
    assert_eq!(bench.wifi.transmit(&[0; 60]), Err("data queue full"));
    // The packet number is used up all the same.
    assert_eq!(bench.wifi.last_packet_number(), 252);
    assert_eq!(bench.wifi.disconnect(), Err("data queue full"));
    assert_eq!(bench.state(), WifiState::Connected);
}

#[test]
fn disconnecting() {
    let mut bench = Bench::ready();
    assert_eq!(bench.wifi.disconnect(), Ok(()));
    assert_eq!(bench.state(), WifiState::Ready);
    let mut bench = Bench::connected();
    bench.wifi.transmit(&[0; 60]).unwrap();
    bench.wifi.take_doorbells();
    assert_eq!(bench.wifi.disconnect(), Ok(()));
    assert_eq!(bench.state(), WifiState::Disconnected);
    assert_eq!(bench.wifi.last_packet_number(), 0);
    assert_eq!(bench.wifi.transmit(&[0; 60]), Err("not connected"));
    let doorbells: Vec<usize> = bench.wifi.take_doorbells().iter().map(|w| w.offset).collect();
    assert_eq!(doorbells, vec![0x1C20, 0x1C00]);
    // A disconnected station may scan and connect again.
    assert_eq!(bench.wifi.scan_networks(), Ok(()));
}

#[test]
fn polling_an_idle_controller_does_nothing() {
    let mut bench = Bench::ready();
    bench.send(&[1; 30]);
    assert!(matches!(bench.wifi.poll(), Progress::Done));
    assert_eq!(bench.state(), WifiState::Ready);
    assert_eq!(bench.wifi.mac_address(), MAC);
}

#[test]
fn commands_while_connecting() {
    let bench = Bench::connected();
    let queue = bench.wifi.command_queue();
    let sent = |slot: usize| queue.pending_bufs[slot].clone().unwrap();
    assert_eq!(queue.write_idx, 5);
    // NVM read of the MAC address
    assert_eq!(sent(0), vec![0x88, 0, 0, 0, 8, 0, 3, 0, 0, 0, 6, 0, 0, 0]);
    // Active scan of all common channels
    let scan = sent(1);
    assert_eq!(&scan[..6], &[0x0C, 0, 1, 0, 149, 0]);
    assert_eq!(&scan[6..14], &[1, 0, 0, 0, 27, 0, 0, 0]);
    assert_eq!(&scan[14..24], b"\x09MyNetwork");
    // Channel 11 of the 2.4 GHz band, 20 MHz wide
    assert_eq!(
        sent(2),
        vec![0x08, 0, 2, 0, 16, 0, 1, 0, 0, 0, 0, 11, 0, 0, 3, 0, 0, 0, 0, 0, 0, 0]
    );
    // Station 0
    assert_eq!(&sent(3)[..16], &[0x18, 0, 3, 0, 32, 0, 0, 0, 0, 0, 0x0A, 0x0B, 0x0C, 0x0D, 0x0E, 0x0F]);
    // The temporal key
    let key = sent(4);
    assert_eq!(&key[..10], &[0x0E, 0, 4, 0, 48, 0, 0, 0, 3, 16]);
    assert_eq!(key[10..26].to_vec(), hex("bc97878ecd43032041440d890ae58a85"));
    // The descriptors point to the buffers.
    for slot in 0..5 {
        let buf = queue.pending_bufs[slot].as_ref().unwrap();
        assert_eq!(queue.tfds[slot].tbs[0].addr, buf.as_ptr() as u64);
        assert_eq!(queue.tfds[slot].tbs[0].len_ctrl as usize, buf.len());
    }
}

#[test]
fn frames_while_connecting() {
    let bench = Bench::connected();
    let queue = bench.wifi.data_queue();
    let sent = |slot: usize| queue.pending_bufs[slot].clone().unwrap();
    assert_eq!(queue.write_idx, 4);
    assert_eq!(sent(0), ieee80211::build_auth_frame(&AP, &MAC));
    assert_eq!(sent(1), ieee80211::build_assoc_request(&AP, &MAC, "MyNetwork"));
    assert_eq!(
        sent(2),
        hex("0203007502010a00100000000000000001da6dda47b48e68fb68d5421cf689f663d0aa841784f15e3812a5127fecc6a03300000000000000000000000000000000000000000000000000000000000000004ab4fb55eee1687649e207171608fc73001630140100000fac040100000fac040100000fac020000")
    );
    assert_eq!(
        sent(3),
        hex("0203005f02030a0010000000000000000200000000000000000000000000000000000000000000000000000000000000000000000000000000000000000000000000000000000000000000000000000000e93d9e023013ac2d5433f5a58637847f0000")
    );
}

#[test]
fn a_data_frame_is_read_with_the_temporal_key() {
    let mut bench = Bench::connected();
    let mut payload = vec![9, 8, 7, 6, 5, 4, 2, 0, 0, 0, 0, 1, 0x08, 0x00];
    payload.extend_from_slice(b"some data");
    bench.wifi.transmit(&payload).unwrap();
    bench.wifi.transmit(&payload).unwrap();
    let mut tk = [0u8; 16];
    tk.copy_from_slice(&hex("bc97878ecd43032041440d890ae58a85"));
    for n in 0..2usize {
        let frame = bench.wifi.data_queue().pending_bufs[4 + n].clone().unwrap();
        let header =
            ieee80211::build_qos_data_header(&AP, &MAC, &[9, 8, 7, 6, 5, 4], n as u16, 0);
        assert_eq!(frame[..26].to_vec(), header);
        assert_eq!(frame[26..34], [n as u8 + 1, 0, 0, 0x20, 0, 0, 0, 0]);
        // A receiver takes the packet number from the frame.
        let pn = u64::from_le_bytes([
            frame[26], frame[27], frame[30], frame[31], frame[32], frame[33], 0, 0,
        ]);
        let nonce = wpa::CcmpNonce { priority: 0, addr: MAC, pn };
        assert_eq!(
            wpa::ccmp_decrypt(&tk, &nonce, &frame[..22], &frame[34..]),
            Some(payload[12..].to_vec())
        );
    }
    assert_eq!(bench.wifi.last_packet_number(), 2);
}

#[test]
fn leaving_frame_and_command() {
    let mut bench = Bench::connected();
    bench.wifi.disconnect().unwrap();
    let frame = bench.wifi.data_queue().pending_bufs[4].clone().unwrap();
    let mut expected = vec![0xA0, 0, 0, 0];
    expected.extend_from_slice(&AP);
    expected.extend_from_slice(&MAC);
    expected.extend_from_slice(&AP);
    expected.extend_from_slice(&[0, 0, 3, 0]);
    assert_eq!(frame, expected);
    let command = bench.wifi.command_queue().pending_bufs[5].clone().unwrap();
    assert_eq!(command, vec![0x19, 0, 5, 0, 0, 0]);
}

#[test]
fn channels_above_14_are_in_the_5_ghz_band() {
    let mut bench = Bench::ready();
    bench.wifi.connect("far", "password").unwrap();
    bench.send(&beacon(b"far", 36));
    bench.send(&[0x84, 0, 0, 0, 0, 0, 0, 0]);
    bench.wifi.poll();
    bench.wifi.poll();
    let phy = bench.wifi.command_queue().pending_bufs[2].clone().unwrap();
    assert_eq!(&phy[10..12], &[1, 36]);
}

#[test]
fn receive_buffers_stay_at_their_addresses() {
    let mut bench = Bench::ready();
    for i in 0..600usize {
        bench.send(&vec![i as u8; 1 + i]);
    }
    let queue = bench.wifi.receive_queue();
    for slot in 0..256usize {
        assert_eq!(queue.bufs[slot].as_ptr() as u64, queue.buf_phys_addrs[slot]);
    }
}

#[test]
fn buffers_are_given_back_once_the_firmware_is_up() {
    let mut bench = Bench::ready();
    assert_eq!(bench.wifi.receive_queue().read_idx, 2);
    assert_eq!(bench.wifi.receive_queue().write_idx, 256);
    bench.wifi.scan_networks().unwrap();
    bench.send(&[7; 40]);
    assert_eq!(bench.wifi.status_ring()[2].len, 40);
    bench.wifi.poll();
    bench.wifi.poll();
    assert_eq!(bench.wifi.receive_queue().read_idx, 3);
    assert_eq!(bench.wifi.receive_queue().write_idx, 257);
}

#[test]
fn nothing_works_without_firmware() {
    let mut bench = Bench::new();
    assert_eq!(bench.wifi.scan_networks(), Err("cannot scan in current state"));
    assert_eq!(bench.wifi.connect("a", "b"), Err("cannot connect in current state"));
    assert_eq!(bench.wifi.transmit(&[0; 60]), Err("not connected"));
    assert_eq!(bench.wifi.disconnect(), Ok(()));
    assert_eq!(bench.wifi.ip_config().err(), Some("not connected"));
    assert_eq!(bench.state(), WifiState::Uninitialized);
    assert!(bench.wifi.take_doorbells().is_empty());
}

#[test]
fn of_two_equally_strong_access_points_the_first_is_chosen() {
    let mut bench = Bench::ready();
    bench.wifi.connect("MyNetwork", "hunter22").unwrap();
    let mut other = beacon(b"other", 1);
    other[16..22].copy_from_slice(&[1; 6]);
    let mut first = beacon(b"MyNetwork", 2);
    first[16..22].copy_from_slice(&[2; 6]);
    let mut second = beacon(b"MyNetwork", 3);
    second[16..22].copy_from_slice(&[3; 6]);
    bench.send(&other);
    bench.send(&first);
    bench.send(&second);
    bench.send(&[0x84, 0, 0, 0, 0, 0, 0, 0]);
    for _ in 0..4 {
        assert!(matches!(bench.wifi.poll(), Progress::Pending));
    }
    assert_eq!(bench.state(), WifiState::Authenticating);
    let auth = bench.wifi.data_queue().pending_bufs[0].clone().unwrap();
    assert_eq!(auth, ieee80211::build_auth_frame(&[2; 6], &MAC));
}

#[test]
fn a_scan_reports_every_access_point_once() {
    let mut bench = Bench::ready();
    bench.wifi.scan_networks().unwrap();
    for last in [1u8, 2, 1, 3, 2] {
        let mut frame = beacon(b"net", last);
        frame[21] = last;
        bench.send(&frame);
    }
    bench.send(&[0x84, 0, 0, 0, 0, 0, 0, 0]);
    match bench.finish().0 {
        Progress::Networks(list) => {
            let seen: Vec<u8> = list.iter().map(|n| n.bssid[5]).collect();
            assert_eq!(seen, vec![1, 2, 3]);
        }
        _ => panic!("no networks"),
    }
}

#[test]
fn a_full_command_queue_stops_a_connection_attempt() {
    let mut bench = Bench::ready();
    for _ in 0..253 {
        let mut config = ScanConfig::default();
        config.timeout_ms = 0;
        bench.wifi.scan_networks_with_config(config).unwrap();
        bench.wifi.poll();
    }
    // The last slot goes to the scan.
    bench.wifi.connect("MyNetwork", "hunter22").unwrap();
    bench.send(&beacon(b"MyNetwork", 11));
    bench.send(&[0x84, 0, 0, 0, 0, 0, 0, 0]);
    assert_eq!(bench.failure(), "command queue full");
    assert_eq!(bench.state(), WifiState::Ready);
}
