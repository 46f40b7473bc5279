//! High-level WiFi controller: init, scan, connect, disconnect, status, DHCP.
//!
//! [`WifiController`] is the main entry point for WiFi operations. It owns the
//! TX/RX queues and the connection state.
//!
//! The controller never waits by itself. An operation that has to wait for the
//! device is started by a method, and then [`WifiController::poll`] is called
//! until it reports something else than [`Progress::Pending`]. What the device
//! has written to memory is handed over with [`WifiController::device_wrote`],
//! and the register writes that notify the device of new work are collected
//! until [`WifiController::take_doorbells`].
use crate::bytes;
use crate::ccm;
use crate::commands;
use crate::firmware;
use crate::firmware::FirmwareImage;
use crate::ieee80211;
use crate::pci::WifiDevice;
use crate::registers::RegisterWrite;
use crate::scan;
use crate::scan::{ScanConfig, ScanResults, ScannedNetwork};
use crate::tx_rx;
use crate::tx_rx::{RxQueue, RxStatus, TxQueue, RXQ_SIZE, RX_BUF_SIZE};
use crate::views;
use crate::wpa;
use crate::WifiVariant;
use reset::{NicReset, ResetAction, ResetStage};
use vstd::prelude::*;

pub mod exchanges;
pub mod laws;
pub mod reset;
pub mod runs;
pub mod state;

verus! {

/// Connection state of the WiFi controller.
#[derive(Debug, PartialEq, Eq)]
pub enum WifiState {
    /// Hardware detected but not initialized.
    Uninitialized,
    /// Firmware loaded, device alive, ready for commands.
    Ready,
    /// Scanning for networks.
    Scanning,
    /// Authentication in progress (Open System or SAE).
    Authenticating,
    /// Association in progress.
    Associating,
    /// WPA2 4-way handshake in progress.
    Handshaking,
    /// Connected and authenticated to an AP.
    Connected,
    /// Disconnected (was previously connected).
    Disconnected,
    /// Error state.
    Error(String),
}

impl Clone for WifiState {
    fn clone(&self) -> (copy: Self)
        ensures
            copy == *self,
    {
        match self {
            WifiState::Uninitialized => WifiState::Uninitialized,
            WifiState::Ready => WifiState::Ready,
            WifiState::Scanning => WifiState::Scanning,
            WifiState::Authenticating => WifiState::Authenticating,
            WifiState::Associating => WifiState::Associating,
            WifiState::Handshaking => WifiState::Handshaking,
            WifiState::Connected => WifiState::Connected,
            WifiState::Disconnected => WifiState::Disconnected,
            WifiState::Error(reason) => WifiState::Error(reason.clone()),
        }
    }
}

/// IP configuration obtained via DHCP after connection.
#[derive(Debug)]
pub struct IpConfig {
    /// Assigned IP address.
    pub ip: [u8; 4],
    /// Subnet mask.
    pub netmask: [u8; 4],
    /// Default gateway.
    pub gateway: [u8; 4],
    /// DNS server.
    pub dns: [u8; 4],
}

impl Clone for IpConfig {
    fn clone(&self) -> (copy: Self)
        ensures
            copy == *self,
    {
        IpConfig { ip: self.ip, netmask: self.netmask, gateway: self.gateway, dns: self.dns }
    }
}

/// Information about the current WiFi connection.
#[derive(Debug, Clone)]
pub struct ConnectionInfo {
    /// SSID of the connected network.
    pub ssid: String,
    /// BSSID of the AP.
    pub bssid: [u8; 6],
    /// Channel.
    pub channel: u8,
    /// Signal strength in dBm.
    pub signal_dbm: i8,
    /// Current state.
    pub state: WifiState,
    /// IP configuration (if DHCP completed).
    pub ip_config: Option<IpConfig>,
}

/// What a poll has come to.
#[derive(Debug)]
pub enum Progress {
    /// The wait goes on.
    Pending,
    /// The operation is complete.
    Done,
    /// The scan is complete, with these networks (strongest signal first).
    Networks(Vec<ScannedNetwork>),
    /// The operation has failed, for this reason.
    Failed(&'static str),
}

impl View for Progress {
    type V = state::Outcome;

    open spec fn view(&self) -> state::Outcome {
        match self {
            Progress::Pending => state::Outcome::Pending,
            Progress::Done => state::Outcome::Done,
            Progress::Networks(list) => state::Outcome::Networks(views::each(list@)),
            Progress::Failed(reason) => state::Outcome::Failed(reason@),
        }
    }
}

/// The reason in a result, if it is an error.
pub open spec fn error_of(result: Result<(), &'static str>) -> Option<Seq<char>> {
    match result {
        Ok(_) => None,
        Err(reason) => Some(reason@),
    }
}

// -------------------------------------------------------------------
// Tasks
// -------------------------------------------------------------------

/// SSID and password of the network to connect to.
struct Login {
    ssid: String,
    password: String,
}

impl View for Login {
    type V = (Seq<char>, Seq<char>);

    closed spec fn view(&self) -> (Seq<char>, Seq<char>) {
        (self.ssid@, self.password@)
    }
}

/// The network that is being connected to.
struct TargetNetwork {
    ssid: String,
    password: String,
    bssid: [u8; 6],
    channel: u8,
}

impl View for TargetNetwork {
    type V = state::Target;

    closed spec fn view(&self) -> state::Target {
        state::Target {
            ssid: self.ssid@,
            password: self.password@,
            bssid: self.bssid@,
            channel: self.channel,
        }
    }
}

/// What is being waited for, and for how many more polls.
enum Task {
    Idle,
    AwaitAlive { polls: u64 },
    AwaitNvm { polls: u64 },
    Scan { polls: u64, results: ScanResults, min_signal: i8, login: Option<Login> },
    AwaitAuth { polls: u64, target: TargetNetwork },
    AwaitAssoc { polls: u64, target: TargetNetwork },
    AwaitMessage1 { polls: u64, target: TargetNetwork, pmk: [u8; 32] },
    AwaitMessage3 { polls: u64, target: TargetNetwork, ptk: wpa::Ptk },
}

impl View for Task {
    type V = state::Job;

    closed spec fn view(&self) -> state::Job {
        match self {
            Task::Idle => state::Job::Idle,
            Task::AwaitAlive { polls } => state::Job::AwaitAlive { polls: *polls as nat },
            Task::AwaitNvm { polls } => state::Job::AwaitNvm { polls: *polls as nat },
            Task::Scan { polls, results, min_signal, login } => state::Job::Scan {
                polls: *polls as nat,
                found: results@,
                min_signal: *min_signal,
                login: views::optional(*login),
            },
            Task::AwaitAuth { polls, target } => state::Job::AwaitAuth {
                polls: *polls as nat,
                target: target@,
            },
            Task::AwaitAssoc { polls, target } => state::Job::AwaitAssoc {
                polls: *polls as nat,
                target: target@,
            },
            Task::AwaitMessage1 { polls, target, pmk } => state::Job::AwaitMessage1 {
                polls: *polls as nat,
                target: target@,
                pmk: pmk@,
            },
            Task::AwaitMessage3 { polls, target, ptk } => state::Job::AwaitMessage3 {
                polls: *polls as nat,
                target: target@,
                keys: ptk@,
            },
        }
    }
}

impl Task {
    fn polls_left(&self) -> (n: u64)
        ensures
            n == self@.polls(),
    {
        match self {
            Task::Idle => 0,
            Task::AwaitAlive { polls } => *polls,
            Task::AwaitNvm { polls } => *polls,
            Task::Scan { polls, .. } => *polls,
            Task::AwaitAuth { polls, .. } => *polls,
            Task::AwaitAssoc { polls, .. } => *polls,
            Task::AwaitMessage1 { polls, .. } => *polls,
            Task::AwaitMessage3 { polls, .. } => *polls,
        }
    }

    fn count_down(self) -> (task: Task)
        requires
            self@.polls() > 0,
        ensures
            task@ == self@.one_less(),
    {
        match self {
            Task::Idle => Task::Idle,
            Task::AwaitAlive { polls } => Task::AwaitAlive { polls: polls - 1 },
            Task::AwaitNvm { polls } => Task::AwaitNvm { polls: polls - 1 },
            Task::Scan { polls, results, min_signal, login } => Task::Scan {
                polls: polls - 1,
                results,
                min_signal,
                login,
            },
            Task::AwaitAuth { polls, target } => Task::AwaitAuth { polls: polls - 1, target },
            Task::AwaitAssoc { polls, target } => Task::AwaitAssoc { polls: polls - 1, target },
            Task::AwaitMessage1 { polls, target, pmk } => Task::AwaitMessage1 {
                polls: polls - 1,
                target,
                pmk,
            },
            Task::AwaitMessage3 { polls, target, ptk } => Task::AwaitMessage3 {
                polls: polls - 1,
                target,
                ptk,
            },
        }
    }
}

// -------------------------------------------------------------------
// What is received
// -------------------------------------------------------------------

fn responds_to(data: &[u8], id: commands::CommandId) -> (answer: bool)
    ensures
        answer == state::is_response(data@, id),
{
    match commands::CommandResponse::parse(data) {
        Some(response) => response.id == id.code(),
        None => false,
    }
}

fn mac_in_response(data: &[u8]) -> (mac: Option<[u8; 6]>)
    ensures
        views::optional(mac) == state::mac_in(data@),
{
    match commands::CommandResponse::parse(data) {
        Some(response) => {
            if response.id == commands::CommandId::NvmAccess.code() && response.data.len() >= 6 {
                let mac: [u8; 6] = bytes::read_array(response.data.as_slice(), 0);
                assert(mac@ =~= response.data@.take(6));
                Some(mac)
            } else {
                None
            }
        },
        None => None,
    }
}

fn is_management(data: &[u8], subtype: ieee80211::MgmtSubtype) -> (answer: bool)
    ensures
        answer == state::is_mgmt_frame(data@, subtype),
{
    match ieee80211::MacHeader::parse(data) {
        Some(header) => {
            header.frame_control.frame_type() == ieee80211::FrameType::Management
                && header.frame_control.subtype() == subtype.code()
        },
        None => false,
    }
}

fn handshake_message(data: &[u8], number: u8) -> (message: Option<wpa::EapolKeyFrame>)
    ensures
        views::optional(message) == state::key_message(data@, number),
{
    if data.len() <= 40 {
        return None;
    }
    match wpa::EapolKeyFrame::parse(data) {
        Some(frame) => {
            if frame.message_number() == number {
                Some(frame)
            } else {
                None
            }
        },
        None => None,
    }
}

/// The first network with the given SSID is not among those of another SSID.
proof fn lemma_first_named_skips(list: Seq<scan::Network>, ssid: Seq<char>, i: int)
    requires
        0 <= i <= list.len(),
        forall|j: int| 0 <= j < i ==> (#[trigger] list[j]).ssid != ssid,
    ensures
        state::first_named(list, ssid) == state::first_named(list.skip(i), ssid),
    decreases i,
{
    if i == 0 {
        assert(list.skip(0) =~= list);
    } else {
        lemma_first_named_skips(list.skip(1), ssid, i - 1);
        assert(list.skip(1).skip(i - 1) =~= list.skip(i));
    }
}

/// BSSID and channel of the first network with the given SSID.
fn find_named(networks: &Vec<ScannedNetwork>, ssid: &String) -> (place: Option<([u8; 6], u8)>)
    ensures
        match state::first_named(views::each(networks@), ssid@) {
            None => place is None,
            Some(network) => place matches Some((bssid, channel)) && bssid@ == network.bssid
                && channel == network.channel,
        },
{
    let ghost list = views::each(networks@);
    let n: usize = networks.len();
    let mut i: usize = 0;
    while i < n
        invariant
            n == networks@.len(),
            i <= n,
            list == views::each(networks@),
            forall|j: int| 0 <= j < i ==> (#[trigger] list[j]).ssid != ssid@,
        decreases n - i,
    {
        assert(list[i as int] == networks@[i as int]@);
        if networks[i].ssid == *ssid {
            proof {
                lemma_first_named_skips(list, ssid@, i as int);
                assert(list.skip(i as int)[0] == list[i as int]);
            }
            return Some((networks[i].bssid, networks[i].channel));
        }
        i += 1;
    }
    proof {
        lemma_first_named_skips(list, ssid@, n as int);
        assert(list.skip(n as int).len() == 0);
    }
    None
}

// -------------------------------------------------------------------
// What is sent
// -------------------------------------------------------------------

/// The station's nonce. It is made from the MAC address and is not random.
fn make_station_nonce(mac: &[u8; 6]) -> (nonce: [u8; 32])
    ensures
        nonce@ == state::station_nonce(mac@),
{
    let mut nonce: [u8; 32] = [0u8;32];
    let mut i: usize = 0;
    while i < 32
        invariant
            i <= 32,
            forall|j: int| 0 <= j < i ==> nonce@[j] == state::station_nonce(mac@)[j],
        decreases 32 - i,
    {
        let sum: u32 = (mac[i % 6] as u32 + i as u32) % 256;
        nonce[i] = (sum * 0x6D % 256) as u8;
        i += 1;
    }
    assert(nonce@ =~= state::station_nonce(mac@));
    nonce
}

/// Build the RSN IE for the handshake.
fn build_rsn_ie() -> (ie: Vec<u8>)
    ensures
        ie@ == state::handshake_rsn(),
{
    let rsn: Vec<u8> = ieee80211::build_rsn_ie_data();
    ieee80211::build_element(ieee80211::ie_id::RSN, rsn.as_slice())
}

fn build_cipher_header(pn: u64) -> (header: [u8; 8])
    ensures
        header@ == state::cipher_header(pn),
{
    let header: [u8; 8] = [
        (pn % 0x100) as u8,
        (pn / 0x100 % 0x100) as u8,
        0,
        0x20,
        (pn / 0x1_0000 % 0x100) as u8,
        (pn / 0x100_0000 % 0x100) as u8,
        (pn / 0x1_0000_0000 % 0x100) as u8,
        (pn / 0x100_0000_0000 % 0x100) as u8,
    ];
    assert(header@ =~= state::cipher_header(pn));
    header
}

// -------------------------------------------------------------------
// The controller
// -------------------------------------------------------------------

/// The main WiFi driver controller.
///
/// Manages the full lifecycle: firmware load, scanning, connection, WPA2
/// handshake, and data path.
pub struct WifiController {
    /// Physical memory offset for virt-to-phys conversion.
    phys_mem_offset: u64,
    /// Device variant (AX201, AX200, etc.).
    variant: WifiVariant,
    /// IRQ line.
    irq_line: u8,
    /// Our MAC address (read from NVM after firmware load).
    mac_addr: [u8; 6],
    /// Current state.
    state: WifiState,
    /// Command queue (TFD queue 0).
    cmd_queue: TxQueue,
    /// Data TX queue (TFD queue 1).
    data_queue: TxQueue,
    /// Receive queue.
    rx_queue: RxQueue,
    /// RX status ring (firmware writes here).
    rx_status: Vec<RxStatus>,
    /// Command sequence counter.
    cmd_seq: u16,
    /// Connected SSID.
    connected_ssid: String,
    /// Connected BSSID.
    connected_bssid: [u8; 6],
    /// Connected channel.
    connected_channel: u8,
    /// WPA2 PTK (after successful handshake).
    ptk: Option<wpa::Ptk>,
    /// Packet number of the last data frame (for TX).
    packet_number: u64,
    /// IP configuration (after DHCP).
    ip: Option<IpConfig>,
    /// Whether a firmware image was read and is to be uploaded.
    image_pending: bool,
    /// What is being waited for.
    task: Task,
    /// Register writes that are still to be made.
    doorbells: Vec<RegisterWrite>,
}

impl View for WifiController {
    type V = state::Controller;

    closed spec fn view(&self) -> state::Controller {
        state::Controller {
            phys_mem_offset: self.phys_mem_offset,
            variant: self.variant,
            irq_line: self.irq_line,
            mac: self.mac_addr@,
            state: self.state,
            commands: self.cmd_queue@,
            frames: self.data_queue@,
            rx: self.rx_queue@,
            statuses: self.rx_status@,
            next_seq: self.cmd_seq,
            ssid: self.connected_ssid@,
            bssid: self.connected_bssid@,
            channel: self.connected_channel,
            keys: views::optional(self.ptk),
            packet_number: self.packet_number,
            ip: self.ip,
            image_pending: self.image_pending,
            job: self.task@,
            doorbells: self.doorbells@,
        }
    }
}

impl WifiController {
    // ---------------------------------------------------------------
    // Small steps
    // ---------------------------------------------------------------

    /// Send a host command to the firmware via the command queue. The ghost
    /// result is the address of the submitted buffer.
    fn send_command(&mut self, cmd: &commands::HostCommand) -> (sent: (
        Result<(), &'static str>,
        Ghost<u64>,
    ))
        requires
            old(self)@.well_formed(),
        ensures
            final(self)@.well_formed(),
            final(self)@ == old(self)@.with_command(cmd@, sent.1@),
            error_of(sent.0) == if old(self)@.commands.full() {
                Some("command queue full"@)
            } else {
                None
            },
    {
        let seq: u16 = self.cmd_seq;
        self.cmd_seq = if seq == 0xFFFF {
            0
        } else {
            seq + 1
        };
        let serialized: Vec<u8> = cmd.serialize(seq);
        let virt_addr: u64 = tx_rx::buffer_address(&serialized);
        let phys_addr: u64 = tx_rx::physical_address(virt_addr, self.phys_mem_offset);
        match self.cmd_queue.enqueue(serialized, phys_addr) {
            Some(_) => {
                self.doorbells.push(tx_rx::poke_tx_write_ptr(0, self.cmd_queue.write_idx));
                (Ok(()), Ghost(virt_addr))
            },
            None => (Err("command queue full"), Ghost(virt_addr)),
        }
    }

    /// Transmit a management frame. The ghost result is the address of the
    /// submitted buffer.
    fn transmit_mgmt_frame(&mut self, frame: Vec<u8>) -> (sent: (
        Result<(), &'static str>,
        Ghost<u64>,
    ))
        requires
            old(self)@.well_formed(),
        ensures
            final(self)@.well_formed(),
            final(self)@ == old(self)@.with_frame(frame@, sent.1@),
            error_of(sent.0) == if old(self)@.frames.full() {
                Some("data queue full"@)
            } else {
                None
            },
    {
        let virt_addr: u64 = tx_rx::buffer_address(&frame);
        let phys_addr: u64 = tx_rx::physical_address(virt_addr, self.phys_mem_offset);
        match self.data_queue.enqueue(frame, phys_addr) {
            Some(_) => {
                self.doorbells.push(tx_rx::poke_tx_write_ptr(1, self.data_queue.write_idx));
                (Ok(()), Ghost(virt_addr))
            },
            None => (Err("data queue full"), Ghost(virt_addr)),
        }
    }

    /// Look for a received buffer.
    fn receive_buffer(&mut self) -> (received: Option<(usize, Vec<u8>)>)
        requires
            old(self)@.well_formed(),
            old(self)@.rx.received(old(self)@.statuses) is Some ==> old(self)@.can_receive(),
        ensures
            final(self)@.well_formed(),
            match received {
                None => {
                    &&& old(self)@.rx.received(old(self)@.statuses) is None
                    &&& final(self)@ == old(self)@
                },
                Some((slot, data)) => {
                    &&& old(self)@.rx.received(old(self)@.statuses) == Some(data@)
                    &&& final(self)@ == old(self)@.after_read()
                },
            },
    {
        match self.rx_queue.receive(self.rx_status.as_slice()) {
            Some((slot, data)) => {
                let mut copy: Vec<u8> = Vec::with_capacity(data.len());
                bytes::push_bytes(&mut copy, data);
                assert(copy@ =~= data@);
                Some((slot, copy))
            },
            None => None,
        }
    }

    // ---------------------------------------------------------------
    // Steps of the operations
    // ---------------------------------------------------------------

    /// The firmware is alive: read the MAC address from device NVM.
    fn read_mac_address(&mut self) -> (step: (Progress, Ghost<u64>))
        requires
            old(self)@.well_formed(),
        ensures
            final(self)@.well_formed(),
            (final(self)@, step.0@) == old(self)@.alive(step.1@),
    {
        let cmd: commands::HostCommand = commands::nvm_read_cmd(
            commands::NvmSection::Production,
            0,
            6,
        );
        let (sent, Ghost(c)) = self.send_command(&cmd);
        match sent {
            Ok(_) => {
                self.task = Task::AwaitNvm { polls: state::NVM_POLLS };
                (Progress::Pending, Ghost(c))
            },
            Err(reason) => {
                self.task = Task::Idle;
                (Progress::Failed(reason), Ghost(c))
            },
        }
    }

    /// The MAC address is known.
    fn become_ready(&mut self, mac: [u8; 6]) -> (progress: Progress)
        requires
            old(self)@.well_formed(),
        ensures
            final(self)@.well_formed(),
            (final(self)@, progress@) == old(self)@.ready(mac@),
    {
        self.mac_addr = mac;
        self.state = WifiState::Ready;
        self.task = Task::Idle;
        Progress::Done
    }

    /// Start a scan.
    fn start_scan(&mut self, config: ScanConfig, login: Option<Login>) -> (started: (
        Result<(), &'static str>,
        Ghost<u64>,
    ))
        requires
            old(self)@.well_formed(),
            login matches Some(l) ==> state::is_short(l@.0, l@.1),
        ensures
            final(self)@.well_formed(),
            (final(self)@, error_of(started.0)) == old(self)@.scan_started(
                config@,
                views::optional(login),
                started.1@,
            ),
    {
        self.state = WifiState::Scanning;
        let channels: Vec<u8> = config.channels_to_scan();
        let cmd: commands::HostCommand = match &config.ssid {
            Some(name) => commands::scan_cmd(channels.as_slice(), Some(name.as_str().as_bytes())),
            None => commands::scan_cmd(channels.as_slice(), None),
        };
        let (sent, Ghost(c)) = self.send_command(&cmd);
        if sent.is_err() {
            self.task = Task::Idle;
            return (sent, Ghost(c));
        }
        self.task = Task::Scan {
            polls: config.timeout_ms as u64 * state::SCAN_POLLS_PER_MS,
            results: ScanResults::new(),
            min_signal: config.min_signal_dbm,
            login,
        };
        (Ok(()), Ghost(c))
    }

    /// The scan is over.
    fn finish_scan(&mut self, results: ScanResults, login: Option<Login>) -> (step: (
        Progress,
        Ghost<(u64, u64)>,
    ))
        requires
            old(self)@.well_formed(),
            login matches Some(l) ==> state::is_short(l@.0, l@.1),
        ensures
            final(self)@.well_formed(),
            (final(self)@, step.0@) == old(self)@.scanned(
                results@,
                views::optional(login),
                step.1@.0,
                step.1@.1,
            ),
    {
        self.state = WifiState::Ready;
        let networks: Vec<ScannedNetwork> = results.finalize();
        match login {
            None => {
                self.task = Task::Idle;
                (Progress::Networks(networks), Ghost((0, 0)))
            },
            Some(login) => {
                match find_named(&networks, &login.ssid) {
                    None => {
                        self.task = Task::Idle;
                        (Progress::Failed("target network not found"), Ghost((0, 0)))
                    },
                    Some((bssid, channel)) => self.start_authentication(
                        TargetNetwork {
                            ssid: login.ssid,
                            password: login.password,
                            bssid,
                            channel,
                        },
                    ),
                }
            },
        }
    }

    /// The network to connect to is known: configure the PHY and authenticate.
    fn start_authentication(&mut self, target: TargetNetwork) -> (step: (
        Progress,
        Ghost<(u64, u64)>,
    ))
        requires
            old(self)@.well_formed(),
            state::is_short(target@.ssid, target@.password),
        ensures
            final(self)@.well_formed(),
            (final(self)@, step.0@) == old(self)@.chosen(target@, step.1@.0, step.1@.1),
    {
        let band: commands::Band = if target.channel <= 14 {
            commands::Band::Band2G
        } else {
            commands::Band::Band5G
        };
        let phy_cmd: commands::HostCommand = commands::phy_context_cmd(
            band,
            target.channel,
            commands::ChannelWidth::Mhz20,
        );
        let (tuned, Ghost(c)) = self.send_command(&phy_cmd);
        if let Err(reason) = tuned {
            self.task = Task::Idle;
            return (Progress::Failed(reason), Ghost((c, 0)));
        }
        self.state = WifiState::Authenticating;
        let frame: Vec<u8> = ieee80211::build_auth_frame(&target.bssid, &self.mac_addr);
        let (sent, Ghost(d)) = self.transmit_mgmt_frame(frame);
        match sent {
            Ok(_) => {
                self.task = Task::AwaitAuth { polls: state::RESPONSE_POLLS, target };
                (Progress::Pending, Ghost((c, d)))
            },
            Err(reason) => {
                self.task = Task::Idle;
                (Progress::Failed(reason), Ghost((c, d)))
            },
        }
    }

    /// The station is authenticated: associate.
    fn start_association(&mut self, target: TargetNetwork) -> (step: (
        Progress,
        Ghost<(u64, u64)>,
    ))
        requires
            old(self)@.well_formed(),
            state::is_short(target@.ssid, target@.password),
        ensures
            final(self)@.well_formed(),
            (final(self)@, step.0@) == old(self)@.authenticated(target@, step.1@.0, step.1@.1),
    {
        self.state = WifiState::Associating;
        let frame: Vec<u8> = ieee80211::build_assoc_request(
            &target.bssid,
            &self.mac_addr,
            target.ssid.as_str(),
        );
        let (sent, Ghost(d)) = self.transmit_mgmt_frame(frame);
        if let Err(reason) = sent {
            self.task = Task::Idle;
            return (Progress::Failed(reason), Ghost((0, d)));
        }
        let add_sta: commands::HostCommand = commands::add_station_cmd(&target.bssid, 0);
        let (joined, Ghost(c)) = self.send_command(&add_sta);
        match joined {
            Ok(_) => {
                self.task = Task::AwaitAssoc { polls: state::RESPONSE_POLLS, target };
                (Progress::Pending, Ghost((c, d)))
            },
            Err(reason) => {
                self.task = Task::Idle;
                (Progress::Failed(reason), Ghost((c, d)))
            },
        }
    }

    /// The station is associated: derive the PSK and wait for the handshake.
    fn start_handshake(&mut self, target: TargetNetwork) -> (progress: Progress)
        requires
            old(self)@.well_formed(),
            state::is_short(target@.ssid, target@.password),
        ensures
            final(self)@.well_formed(),
            (final(self)@, progress@) == old(self)@.associated(target@),
    {
        self.state = WifiState::Handshaking;
        let pmk: [u8; 32] = wpa::derive_psk(target.password.as_str(), target.ssid.as_str());
        self.task = Task::AwaitMessage1 { polls: state::EAPOL_POLLS, target, pmk };
        Progress::Pending
    }

    /// Message 1 of the handshake has come: derive the PTK and send message 2.
    fn answer_message_1(
        &mut self,
        target: TargetNetwork,
        pmk: [u8; 32],
        message: wpa::EapolKeyFrame,
    ) -> (step: (Progress, Ghost<u64>))
        requires
            old(self)@.well_formed(),
        ensures
            final(self)@.well_formed(),
            (final(self)@, step.0@) == old(self)@.greeted(target@, pmk@, message@, step.1@),
    {
        let snonce: [u8; 32] = make_station_nonce(&self.mac_addr);
        let ptk: wpa::Ptk = wpa::derive_ptk(
            &pmk,
            &target.bssid,
            &self.mac_addr,
            &message.nonce,
            &snonce,
        );
        let rsn_ie: Vec<u8> = build_rsn_ie();
        let frame: Vec<u8> = wpa::build_eapol_msg2(
            &snonce,
            message.replay_counter,
            &ptk.kck,
            rsn_ie.as_slice(),
        );
        let (sent, Ghost(d)) = self.transmit_mgmt_frame(frame);
        match sent {
            Ok(_) => {
                self.task = Task::AwaitMessage3 { polls: state::EAPOL_POLLS, target, ptk };
                (Progress::Pending, Ghost(d))
            },
            Err(reason) => {
                self.task = Task::Idle;
                (Progress::Failed(reason), Ghost(d))
            },
        }
    }

    /// Message 3 of the handshake has come: send message 4 and install the keys.
    fn answer_message_3(
        &mut self,
        target: TargetNetwork,
        ptk: wpa::Ptk,
        message: wpa::EapolKeyFrame,
    ) -> (step: (Progress, Ghost<(u64, u64)>))
        requires
            old(self)@.well_formed(),
        ensures
            final(self)@.well_formed(),
            (final(self)@, step.0@) == old(self)@.confirmed(
                target@,
                ptk@,
                message@,
                step.1@.0,
                step.1@.1,
            ),
    {
        let frame: Vec<u8> = wpa::build_eapol_msg4(message.replay_counter, &ptk.kck);
        let (sent, Ghost(d)) = self.transmit_mgmt_frame(frame);
        if let Err(reason) = sent {
            self.task = Task::Idle;
            return (Progress::Failed(reason), Ghost((0, d)));
        }
        let key_cmd: commands::HostCommand = commands::add_key_cmd(
            0,
            0,
            commands::KeyAlgorithm::Ccmp,
            ptk.tk.as_slice(),
        );
        self.ptk = Some(ptk);
        let (installed, Ghost(c)) = self.send_command(&key_cmd);
        self.task = Task::Idle;
        match installed {
            Ok(_) => {
                self.state = WifiState::Connected;
                self.connected_ssid = target.ssid;
                self.connected_bssid = target.bssid;
                self.connected_channel = target.channel;
                (Progress::Done, Ghost((c, d)))
            },
            Err(reason) => (Progress::Failed(reason), Ghost((c, d))),
        }
    }

    // ---------------------------------------------------------------
    // Polling
    // ---------------------------------------------------------------

    /// The polls for a task are used up.
    fn give_up(&mut self, task: Task) -> (step: (Progress, Ghost<(u64, u64)>))
        requires
            old(self)@.well_formed(),
            task@.well_formed(),
        ensures
            final(self)@.well_formed(),
            (final(self)@, step.0@) == old(self)@.with_job(task@).timed_out(step.1@.0, step.1@.1),
    {
        match task {
            Task::Idle => {
                self.task = Task::Idle;
                (Progress::Done, Ghost((0, 0)))
            },
            Task::AwaitAlive { .. } => {
                self.task = Task::Idle;
                (Progress::Failed("firmware alive timeout"), Ghost((0, 0)))
            },
            Task::AwaitNvm { .. } => (self.become_ready(state::DEFAULT_MAC), Ghost((0, 0))),
            Task::Scan { results, login, .. } => self.finish_scan(results, login),
            Task::AwaitAuth { .. } => {
                self.task = Task::Idle;
                (Progress::Failed("auth response timeout"), Ghost((0, 0)))
            },
            Task::AwaitAssoc { .. } => {
                self.task = Task::Idle;
                (Progress::Failed("association response timeout"), Ghost((0, 0)))
            },
            Task::AwaitMessage1 { .. } => {
                self.task = Task::Idle;
                (Progress::Failed("EAPOL message timeout"), Ghost((0, 0)))
            },
            Task::AwaitMessage3 { .. } => {
                self.task = Task::Idle;
                (Progress::Failed("EAPOL message timeout"), Ghost((0, 0)))
            },
        }
    }

    /// A buffer was received while the firmware comes up.
    fn handle_startup(&mut self, task: Task, data: &[u8]) -> (step: (Progress, Ghost<(u64, u64)>))
        requires
            old(self)@.well_formed(),
            task@.polls() > 0,
            task is AwaitAlive || task is AwaitNvm,
        ensures
            final(self)@.well_formed(),
            (final(self)@, step.0@) == old(self)@.with_job(task@).handled(
                data@,
                step.1@.0,
                step.1@.1,
            ),
    {
        match task {
            Task::AwaitAlive { polls } => {
                if responds_to(data, commands::CommandId::Alive) {
                    let (progress, Ghost(c)) = self.read_mac_address();
                    return (progress, Ghost((c, 0)));
                }
                self.task = Task::AwaitAlive { polls: polls - 1 };
            },
            Task::AwaitNvm { polls } => {
                if let Some(mac) = mac_in_response(data) {
                    return (self.become_ready(mac), Ghost((0, 0)));
                }
                self.task = Task::AwaitNvm { polls: polls - 1 };
            },
            _ => {},
        }
        (Progress::Pending, Ghost((0, 0)))
    }

    /// A buffer was received during a scan.
    fn handle_scan(
        &mut self,
        polls: u64,
        results: ScanResults,
        min_signal: i8,
        login: Option<Login>,
        data: &[u8],
    ) -> (step: (Progress, Ghost<(u64, u64)>))
        requires
            old(self)@.well_formed(),
            polls > 0,
            login matches Some(l) ==> state::is_short(l@.0, l@.1),
        ensures
            final(self)@.well_formed(),
            (final(self)@, step.0@) == (if state::is_response(
                data@,
                commands::CommandId::ScanComplete,
            ) {
                old(self)@.scanned(results@, views::optional(login), step.1@.0, step.1@.1)
            } else {
                old(self)@.pending(
                    state::Job::Scan {
                        polls: (polls - 1) as nat,
                        found: state::found_after(results@, data@, min_signal),
                        min_signal,
                        login: views::optional(login),
                    },
                )
            }),
    {
        if responds_to(data, commands::CommandId::ScanComplete) {
            return self.finish_scan(results, login);
        }
        let mut results: ScanResults = results;
        // Try to parse as a beacon/probe response
        if data.len() > 30 {
            if let Some(beacon) = ieee80211::parse_beacon(data) {
                // The frame carries no signal strength.
                results.process_beacon(&beacon, state::ASSUMED_SIGNAL_DBM, min_signal);
            }
        }
        self.task = Task::Scan { polls: polls - 1, results, min_signal, login };
        (Progress::Pending, Ghost((0, 0)))
    }

    /// A buffer was received while connecting.
    fn handle_connect(&mut self, task: Task, data: &[u8]) -> (step: (Progress, Ghost<(u64, u64)>))
        requires
            old(self)@.well_formed(),
            task@.polls() > 0,
            task@.well_formed(),
            !(task is Idle || task is AwaitAlive || task is AwaitNvm || task is Scan),
        ensures
            final(self)@.well_formed(),
            (final(self)@, step.0@) == ({
                let before = old(self)@;
                let more = before.pending(task@.one_less());
                match task@ {
                    state::Job::AwaitAuth { target, .. } => if state::is_mgmt_frame(
                        data@,
                        ieee80211::MgmtSubtype::Auth,
                    ) {
                        before.authenticated(target, step.1@.0, step.1@.1)
                    } else {
                        more
                    },
                    state::Job::AwaitAssoc { target, .. } => if state::is_mgmt_frame(
                        data@,
                        ieee80211::MgmtSubtype::AssocResponse,
                    ) {
                        before.associated(target)
                    } else {
                        more
                    },
                    state::Job::AwaitMessage1 { target, pmk, .. } => match state::key_message(
                        data@,
                        1,
                    ) {
                        Some(message) => before.greeted(target, pmk, message, step.1@.1),
                        None => more,
                    },
                    state::Job::AwaitMessage3 { target, keys, .. } => match state::key_message(
                        data@,
                        3,
                    ) {
                        Some(message) => before.confirmed(
                            target,
                            keys,
                            message,
                            step.1@.0,
                            step.1@.1,
                        ),
                        None => more,
                    },
                    _ => more,
                }
            }),
    {
        match task {
            Task::AwaitAuth { polls, target } => {
                if is_management(data, ieee80211::MgmtSubtype::Auth) {
                    return self.start_association(target);
                }
                self.task = Task::AwaitAuth { polls: polls - 1, target };
            },
            Task::AwaitAssoc { polls, target } => {
                if is_management(data, ieee80211::MgmtSubtype::AssocResponse) {
                    return (self.start_handshake(target), Ghost((0, 0)));
                }
                self.task = Task::AwaitAssoc { polls: polls - 1, target };
            },
            Task::AwaitMessage1 { polls, target, pmk } => {
                if let Some(message) = handshake_message(data, 1) {
                    let (progress, Ghost(d)) = self.answer_message_1(target, pmk, message);
                    return (progress, Ghost((0, d)));
                }
                self.task = Task::AwaitMessage1 { polls: polls - 1, target, pmk };
            },
            Task::AwaitMessage3 { polls, target, ptk } => {
                if let Some(message) = handshake_message(data, 3) {
                    return self.answer_message_3(target, ptk, message);
                }
                self.task = Task::AwaitMessage3 { polls: polls - 1, target, ptk };
            },
            _ => {},
        }
        (Progress::Pending, Ghost((0, 0)))
    }

    /// A buffer was received.
    fn handle(&mut self, task: Task, slot: usize, data: &[u8]) -> (step: (
        Progress,
        Ghost<(u64, u64)>,
    ))
        requires
            old(self)@.well_formed(),
            old(self)@.rx.write_idx < usize::MAX,
            task@.polls() > 0,
            task@.well_formed(),
        ensures
            final(self)@.well_formed(),
            (final(self)@, step.0@) == old(self)@.with_job(task@).handled(
                data@,
                step.1@.0,
                step.1@.1,
            ),
    {
        match task {
            Task::AwaitAlive { polls } => self.handle_startup(Task::AwaitAlive { polls }, data),
            Task::AwaitNvm { polls } => self.handle_startup(Task::AwaitNvm { polls }, data),
            Task::Scan { polls, results, min_signal, login } => {
                self.rx_queue.recycle(slot);
                self.handle_scan(polls, results, min_signal, login, data)
            },
            other => {
                self.rx_queue.recycle(slot);
                self.handle_connect(other, data)
            },
        }
    }

    /// Go on with the operation that was started: give it up if its polls are
    /// used up, and otherwise look at the receive queue once. With no operation
    /// under way, there is nothing to do.
    pub fn poll(&mut self) -> (progress: Progress)
        requires
            old(self)@.well_formed(),
            old(self)@.may_poll(),
        ensures
            final(self)@.well_formed(),
            exists|c: u64, d: u64| (final(self)@, progress@) == #[trigger] old(self)@.polled(c, d),
    {
        let ghost before = self@;
        let mut task: Task = Task::Idle;
        core::mem::swap(&mut task, &mut self.task);
        assert(self@ == before.idle());
        assert(task@ == before.job);
        if task.polls_left() == 0 {
            let (progress, Ghost(at)) = self.give_up(task);
            assert(before.idle().with_job(before.job) == before);
            assert((self@, progress@) == before.polled(at.0, at.1));
            return progress;
        }
        match self.receive_buffer() {
            None => {
                self.task = task.count_down();
                assert((self@, Progress::Pending@) == before.polled(0, 0));
                Progress::Pending
            },
            Some((slot, data)) => {
                let (progress, Ghost(at)) = self.handle(task, slot, data.as_slice());
                assert(before.idle().after_read().with_job(before.job) == before.after_read());
                assert((self@, progress@) == before.polled(at.0, at.1));
                progress
            },
        }
    }

    /// Whether the counters of the receive queue have room for another poll.
    pub fn can_poll(&self) -> (room: bool)
        ensures
            room == self@.can_receive(),
    {
        self.rx_queue.read_idx < usize::MAX && self.rx_queue.write_idx < usize::MAX
    }

    // ---------------------------------------------------------------
    // Device side
    // ---------------------------------------------------------------

    /// Take over a buffer that the device has written, with its status flags.
    pub fn device_wrote(&mut self, slot: usize, data: &[u8], flags: u16)
        requires
            old(self)@.well_formed(),
            slot < RXQ_SIZE,
            data@.len() <= RX_BUF_SIZE,
        ensures
            final(self)@.well_formed(),
            final(self)@ == old(self)@.device_wrote(slot as int, data@, flags),
    {
        self.rx_queue.written(slot, data);
        self.rx_status.set(slot, RxStatus { len: data.len() as u16, flags });
    }

    /// The register writes that notify the device of new work, in order.
    pub fn take_doorbells(&mut self) -> (writes: Vec<RegisterWrite>)
        requires
            old(self)@.well_formed(),
        ensures
            final(self)@.well_formed(),
            writes@ == old(self)@.doorbells,
            final(self)@ == (state::Controller { doorbells: Seq::empty(), ..old(self)@ }),
    {
        let mut writes: Vec<RegisterWrite> = Vec::new();
        core::mem::swap(&mut writes, &mut self.doorbells);
        assert(self@.doorbells =~= Seq::<RegisterWrite>::empty());
        writes
    }

    /// The command queue, which the device reads.
    pub fn command_queue(&self) -> (queue: &TxQueue)
        ensures
            queue@ == self@.commands,
    {
        &self.cmd_queue
    }

    /// The data queue, which the device reads.
    pub fn data_queue(&self) -> (queue: &TxQueue)
        ensures
            queue@ == self@.frames,
    {
        &self.data_queue
    }

    /// The receive queue, whose buffers the device writes.
    pub fn receive_queue(&self) -> (queue: &RxQueue)
        ensures
            queue@ == self@.rx,
    {
        &self.rx_queue
    }

    /// The status ring, which the device writes.
    pub fn status_ring(&self) -> (ring: &[RxStatus])
        ensures
            ring@ == self@.statuses,
    {
        self.rx_status.as_slice()
    }

    // ---------------------------------------------------------------
    // Operations
    // ---------------------------------------------------------------

    /// Initialize the WiFi controller from a detected PCI device, after a reset
    /// of the NIC.
    pub fn init(device: &WifiDevice, phys_mem_offset: u64, reset: &NicReset) -> (controller: Result<
        Self,
        &'static str,
    >)
        requires
            reset.stage.wanted() == ResetAction::Finished,
        ensures
            match controller {
                Ok(wifi) => {
                    &&& reset.stage is Granted
                    &&& wifi@.well_formed()
                    &&& exists|virt_addrs: Seq<u64>|
                        wifi@ == #[trigger] state::Controller::fresh(
                            phys_mem_offset,
                            device.variant,
                            device.irq_line,
                            virt_addrs,
                        )
                },
                Err(reason) => reset.stage is TimedOut && reason@ == "NIC reset timed out"@,
            },
    {
        if let ResetStage::TimedOut = reset.stage {
            return Err("NIC reset timed out");
        }
        let mut rx_status: Vec<RxStatus> = Vec::with_capacity(RXQ_SIZE);
        while rx_status.len() < RXQ_SIZE
            invariant
                rx_status@.len() <= RXQ_SIZE,
                forall|i: int|
                    0 <= i < rx_status@.len() ==> rx_status@[i] == (RxStatus { len: 0, flags: 0 }),
            decreases RXQ_SIZE - rx_status@.len(),
        {
            rx_status.push(RxStatus { len: 0, flags: 0 });
        }
        let controller = WifiController {
            phys_mem_offset,
            variant: device.variant,
            irq_line: device.irq_line,
            mac_addr: [0;6],
            state: WifiState::Uninitialized,
            cmd_queue: TxQueue::new(0),
            data_queue: TxQueue::new(1),
            rx_queue: RxQueue::new(phys_mem_offset),
            rx_status,
            cmd_seq: 0,
            connected_ssid: String::new(),
            connected_bssid: [0;6],
            connected_channel: 0,
            ptk: None,
            packet_number: 0,
            ip: None,
            image_pending: false,
            task: Task::Idle,
            doorbells: Vec::new(),
        };
        proof {
            let virt_addrs = choose|virt_addrs: Seq<u64>|
                controller@.rx == tx_rx::RxRing::unused(
                    #[trigger] tx_rx::physical_each(virt_addrs, phys_mem_offset),
                );
            let fresh = state::Controller::fresh(
                phys_mem_offset,
                device.variant,
                device.irq_line,
                virt_addrs,
            );
            assert(controller@.mac =~= fresh.mac);
            assert(controller@.bssid =~= fresh.bssid);
            assert(controller@.statuses =~= fresh.statuses);
            assert(controller@.ssid =~= fresh.ssid);
            assert(controller@.doorbells =~= fresh.doorbells);
            assert(controller@ == fresh);
        }
        Ok(controller)
    }

    /// Read the firmware image to load into the device.
    ///
    /// The firmware data should be the raw contents of the `.ucode` file. The
    /// image is uploaded as [`firmware::upload_to_device`] says, and
    /// [`WifiController::firmware_uploaded`] is told the result.
    pub fn load_firmware(&mut self, fw_data: &[u8]) -> (image: Result<FirmwareImage, &'static str>)
        requires
            old(self)@.well_formed(),
        ensures
            final(self)@.well_formed(),
            final(self)@ == old(self)@.firmware_read(fw_data@),
            match firmware::image_of(fw_data@) {
                Some(parsed) => image matches Ok(fw) && fw@ == parsed,
                None => image matches Err(reason) && reason@ == "failed to parse firmware image"@,
            },
    {
        match firmware::parse_firmware(fw_data) {
            Some(fw) => {
                self.image_pending = true;
                Ok(fw)
            },
            None => {
                self.image_pending = false;
                Err("failed to parse firmware image")
            },
        }
    }

    /// Wait for the firmware to come up, once the image that
    /// [`WifiController::load_firmware`] has read is uploaded.
    pub fn firmware_uploaded(&mut self, upload: Result<(), &'static str>) -> (result: Result<
        (),
        &'static str,
    >)
        requires
            old(self)@.well_formed(),
        ensures
            final(self)@.well_formed(),
            (final(self)@, error_of(result)) == old(self)@.upload_ended(error_of(upload)),
    {
        if !self.image_pending {
            return Err("no firmware image");
        }
        self.image_pending = false;
        if upload.is_ok() {
            self.task = Task::AwaitAlive { polls: state::ALIVE_POLLS };
        }
        upload
    }

    fn accepts_requests(&self) -> (answer: bool)
        ensures
            answer == self@.accepts_requests(),
    {
        match self.state {
            WifiState::Ready => true,
            WifiState::Disconnected => true,
            _ => false,
        }
    }

    fn is_connected(&self) -> (answer: bool)
        ensures
            answer == (self@.state is Connected),
    {
        match self.state {
            WifiState::Connected => true,
            _ => false,
        }
    }

    /// Scan for available WiFi networks.
    pub fn scan_networks(&mut self) -> (result: Result<(), &'static str>)
        requires
            old(self)@.well_formed(),
        ensures
            final(self)@.well_formed(),
            exists|c: u64|
                (final(self)@, error_of(result)) == #[trigger] old(self)@.scan_requested(
                    scan::ScanPlan::usual(),
                    c,
                ),
    {
        self.scan_networks_with_config(ScanConfig::default())
    }

    /// Scan for networks with a custom configuration.
    pub fn scan_networks_with_config(&mut self, config: ScanConfig) -> (result: Result<
        (),
        &'static str,
    >)
        requires
            old(self)@.well_formed(),
        ensures
            final(self)@.well_formed(),
            exists|c: u64|
                (final(self)@, error_of(result)) == #[trigger] old(self)@.scan_requested(
                    config@,
                    c,
                ),
    {
        let ghost before = self@;
        if !self.accepts_requests() {
            let result: Result<(), &'static str> = Err("cannot scan in current state");
            assert((self@, error_of(result)) == before.scan_requested(config@, 0));
            return result;
        }
        let (result, Ghost(c)) = self.start_scan(config, None);
        assert((self@, error_of(result)) == before.scan_requested(config@, c));
        result
    }

    /// Connect to a WiFi network with WPA2-PSK.
    ///
    /// Performs the full connection sequence:
    /// 1. PHY configuration (band/channel)
    /// 2. Authentication (Open System)
    /// 3. Association
    /// 4. WPA2 4-way handshake
    pub fn connect(&mut self, ssid: &str, password: &str) -> (result: Result<(), &'static str>)
        requires
            old(self)@.well_formed(),
            old(self)@.accepts_requests() ==> state::is_short(ssid@, password@),
        ensures
            final(self)@.well_formed(),
            exists|c: u64|
                (final(self)@, error_of(result)) == #[trigger] old(self)@.connect_requested(
                    ssid@,
                    password@,
                    c,
                ),
    {
        let ghost before = self@;
        if !self.accepts_requests() {
            let result: Result<(), &'static str> = Err("cannot connect in current state");
            assert((self@, error_of(result)) == before.connect_requested(ssid@, password@, 0));
            return result;
        }
        let mut config: ScanConfig = ScanConfig::default();
        config.ssid = Some(ssid.to_owned());
        config.timeout_ms = state::CONNECT_SCAN_MS;
        let login = Login { ssid: ssid.to_owned(), password: password.to_owned() };
        let (result, Ghost(c)) = self.start_scan(config, Some(login));
        assert((self@, error_of(result)) == before.connect_requested(ssid@, password@, c));
        result
    }

    /// Disconnect from the current network.
    pub fn disconnect(&mut self) -> (result: Result<(), &'static str>)
        requires
            old(self)@.well_formed(),
        ensures
            final(self)@.well_formed(),
            exists|c: u64, d: u64|
                (final(self)@, error_of(result)) == #[trigger] old(self)@.disconnect_requested(
                    c,
                    d,
                ),
    {
        let ghost before = self@;
        if !self.is_connected() {
            assert((self@, error_of(Ok(()))) == before.disconnect_requested(0, 0));
            return Ok(());
        }
        // Send disassociation frame
        let frame: Vec<u8> = ieee80211::build_disassoc_frame(
            &self.connected_bssid,
            &self.mac_addr,
        );
        let (left, Ghost(d)) = self.transmit_mgmt_frame(frame);
        if left.is_err() {
            assert((self@, error_of(left)) == before.disconnect_requested(0, d));
            return left;
        }
        // Remove station from firmware
        let rm_sta: commands::HostCommand = commands::HostCommand::new(
            commands::CommandId::RemoveStation,
        );
        let (removed, Ghost(c)) = self.send_command(&rm_sta);
        if removed.is_err() {
            assert((self@, error_of(removed)) == before.disconnect_requested(c, d));
            return removed;
        }
        self.state = WifiState::Disconnected;
        self.ptk = None;
        self.packet_number = 0;
        self.ip = None;
        assert((self@, error_of(Ok(()))) == before.disconnect_requested(c, d));
        Ok(())
    }

    /// Get the current connection status.
    pub fn status(&self) -> (info: ConnectionInfo)
        ensures
            info.ssid@ == self@.ssid,
            info.bssid@ == self@.bssid,
            info.channel == self@.channel,
            info.signal_dbm == state::ASSUMED_SIGNAL_DBM,
            info.state == self@.state,
            info.ip_config == self@.ip,
    {
        ConnectionInfo {
            ssid: self.connected_ssid.clone(),
            bssid: self.connected_bssid,
            channel: self.connected_channel,
            signal_dbm: state::ASSUMED_SIGNAL_DBM,
            state: self.state.clone(),
            ip_config: match &self.ip {
                Some(ip) => Some(ip.clone()),
                None => None,
            },
        }
    }

    /// The IP configuration of the connection.
    ///
    /// DHCP itself is left to a network stack that uses this controller as its
    /// network interface, so without a configuration there is none to be had.
    pub fn ip_config(&mut self) -> (config: Result<IpConfig, &'static str>)
        requires
            old(self)@.well_formed(),
        ensures
            final(self)@.well_formed(),
            final(self)@ == old(self)@,
            match config {
                Ok(ip) => old(self)@.state is Connected && old(self)@.ip == Some(ip),
                Err(reason) => if old(self)@.state is Connected {
                    old(self)@.ip is None && reason@
                        == "DHCP over WiFi not yet implemented — wire into smoltcp"@
                } else {
                    reason@ == "not connected"@
                },
            },
    {
        if !self.is_connected() {
            return Err("not connected");
        }
        match &self.ip {
            Some(ip) => Ok(ip.clone()),
            None => Err("DHCP over WiFi not yet implemented — wire into smoltcp"),
        }
    }

    /// Get the device variant.
    pub fn variant(&self) -> (variant: WifiVariant)
        ensures
            variant == self@.variant,
    {
        self.variant
    }

    /// Get the MAC address.
    pub fn mac_address(&self) -> (mac: [u8; 6])
        ensures
            mac@ == self@.mac,
    {
        self.mac_addr
    }

    /// Get the IRQ line.
    pub fn irq_line(&self) -> (line: u8)
        ensures
            line == self@.irq_line,
    {
        self.irq_line
    }

    /// The packet number of the last data frame, 0 if there was none.
    pub fn last_packet_number(&self) -> (pn: u64)
        ensures
            pn == self@.packet_number,
    {
        self.packet_number
    }

    /// Build the next data frame.
    fn build_data_frame(&self, tk: &[u8; 16], payload: &[u8]) -> (frame: Vec<u8>)
        requires
            self@.packet_number < u64::MAX,
            14 <= payload@.len() <= ccm::CCMP_MAX_PAYLOAD + 12,
        ensures
            frame@ == self@.data_frame(tk@, payload@),
    {
        let dst: [u8; 6] = bytes::read_array(payload, 0);
        assert(dst@ =~= payload@.take(6));
        // 802.11 QoS data header, TID 0 (best effort)
        let mut frame: Vec<u8> = ieee80211::build_qos_data_header(
            &self.connected_bssid,
            &self.mac_addr,
            &dst,
            (self.packet_number % 0x1000) as u16,
            0,
        );
        let ghost header = frame@;
        assert(header == self@.data_header(payload@.take(6)));
        let encrypted: Vec<u8> = self.encrypt_payload(tk, frame.as_slice(), payload);
        let cipher_header: [u8; 8] = build_cipher_header(self.packet_number + 1);
        bytes::push_bytes(&mut frame, cipher_header.as_slice());
        bytes::push_bytes(&mut frame, encrypted.as_slice());
        frame
    }

    /// Encrypt a payload from its ethertype onward.
    fn encrypt_payload(&self, tk: &[u8; 16], header: &[u8], payload: &[u8]) -> (encrypted: Vec<u8>)
        requires
            self@.packet_number < u64::MAX,
            header@.len() >= state::AAD_LEN,
            14 <= payload@.len() <= ccm::CCMP_MAX_PAYLOAD + 12,
        ensures
            encrypted@ == ccm::sealed(
                tk@,
                self@.data_nonce(),
                header@.take(22),
                payload@.skip(12),
            ),
    {
        // AAD: frame control and addresses
        let aad: &[u8] = vstd::slice::slice_subrange(header, 0, state::AAD_LEN);
        let plaintext: &[u8] = vstd::slice::slice_subrange(payload, 12, payload.len());
        assert(aad@ =~= header@.take(22));
        assert(plaintext@ =~= payload@.skip(12));
        let nonce = wpa::CcmpNonce { priority: 0, addr: self.mac_addr, pn: self.packet_number + 1 };
        wpa::ccmp_encrypt(tk, &nonce, aad, plaintext)
    }

    /// Transmit a data frame with CCMP encryption.
    ///
    /// This is the data path entry point. The caller provides an Ethernet-like
    /// payload (dst MAC + src MAC + ethertype + data), and this function wraps
    /// it in an 802.11 QoS data frame with AES-CCMP encryption.
    pub fn transmit(&mut self, payload: &[u8]) -> (result: Result<(), &'static str>)
        requires
            old(self)@.well_formed(),
            old(self)@.may_transmit(payload@),
        ensures
            final(self)@.well_formed(),
            exists|d: u64|
                (final(self)@, error_of(result)) == #[trigger] old(self)@.transmit_requested(
                    payload@,
                    d,
                ),
    {
        let ghost before = self@;
        if !self.is_connected() {
            let result: Result<(), &'static str> = Err("not connected");
            assert((self@, error_of(result)) == before.transmit_requested(payload@, 0));
            return result;
        }
        let frame: Vec<u8> = match &self.ptk {
            None => {
                let result: Result<(), &'static str> = Err("no PTK — handshake incomplete");
                assert((self@, error_of(result)) == before.transmit_requested(payload@, 0));
                return result;
            },
            Some(ptk) => {
                if payload.len() < 14 {
                    let result: Result<(), &'static str> = Err("payload too short");
                    assert((self@, error_of(result)) == before.transmit_requested(payload@, 0));
                    return result;
                }
                self.build_data_frame(&ptk.tk, payload)
            },
        };
        self.packet_number = self.packet_number + 1;
        let (result, Ghost(d)) = self.transmit_mgmt_frame(frame);
        assert((self@, error_of(result)) == before.transmit_requested(payload@, d));
        result
    }
}

} // verus!
