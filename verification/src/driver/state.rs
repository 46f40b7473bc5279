//! What the controller is at any time, and how it goes on.
//!
//! The contracts of [`WifiController`](super::WifiController) speak of a
//! [`Controller`]: everything that the controller holds, as mathematical values.
//! Each operation is a function from one controller to the next. Where a buffer
//! is handed to the device, the function takes the address at which the
//! allocator has placed it: `c` for a host command, `d` for a frame.
use super::{IpConfig, WifiState};
use crate::bytes;
use crate::ccm;
use crate::commands;
use crate::firmware;
use crate::ieee80211;
use crate::registers::RegisterWrite;
use crate::scan;
use crate::tx_rx;
use crate::tx_rx::RxStatus;
use crate::wpa;
use crate::WifiVariant;
use vstd::prelude::*;

verus! {

// -------------------------------------------------------------------
// Limits
// -------------------------------------------------------------------

/// Number of polls for the firmware's alive notification.
pub const ALIVE_POLLS: u64 = 5000;

/// Number of polls for the answer to an NVM read.
pub const NVM_POLLS: u64 = 1000;

/// Number of polls for each millisecond of a scan.
pub const SCAN_POLLS_PER_MS: u64 = 10;

/// Number of polls for an authentication or association response.
pub const RESPONSE_POLLS: u64 = 50_000;

/// Number of polls for an EAPOL message.
pub const EAPOL_POLLS: u64 = 100_000;

/// Duration of the scan for the network to connect to, in milliseconds.
pub const CONNECT_SCAN_MS: u32 = 3000;

/// Signal strength that is assumed of everything received, in dBm.
pub const ASSUMED_SIGNAL_DBM: i8 = -50;

/// MAC address that is used if it cannot be read (locally administered).
pub const DEFAULT_MAC: [u8; 6] = [0x02, 0x00, 0x00, 0x00, 0x00, 0x01];

/// Length of the part of the MAC header that is authenticated.
pub const AAD_LEN: usize = 22;

// -------------------------------------------------------------------
// The controller
// -------------------------------------------------------------------

/// The network that is being connected to.
pub ghost struct Target {
    pub ssid: Seq<char>,
    pub password: Seq<char>,
    pub bssid: Seq<u8>,
    pub channel: u8,
}

/// What is being waited for, and for how many more polls.
pub ghost enum Job {
    /// Nothing.
    Idle,
    /// The firmware's alive notification.
    AwaitAlive { polls: nat },
    /// The answer to the NVM read of the MAC address.
    AwaitNvm { polls: nat },
    /// The end of a scan. With a login (SSID and password), the scan is the
    /// first step of connecting.
    Scan {
        polls: nat,
        found: Seq<scan::Network>,
        min_signal: i8,
        login: Option<(Seq<char>, Seq<char>)>,
    },
    /// An authentication response.
    AwaitAuth { polls: nat, target: Target },
    /// An association response.
    AwaitAssoc { polls: nat, target: Target },
    /// Message 1 of the handshake.
    AwaitMessage1 { polls: nat, target: Target, pmk: Seq<u8> },
    /// Message 3 of the handshake.
    AwaitMessage3 { polls: nat, target: Target, keys: wpa::PairwiseKeys },
}

/// What a poll has come to.
pub ghost enum Outcome {
    /// The wait goes on.
    Pending,
    /// The operation is complete.
    Done,
    /// The scan is complete.
    Networks(Seq<scan::Network>),
    /// The operation has failed, for this reason.
    Failed(Seq<char>),
}

/// Everything that the controller holds.
#[verifier::ext_equal]
pub ghost struct Controller {
    pub phys_mem_offset: u64,
    pub variant: WifiVariant,
    pub irq_line: u8,
    pub mac: Seq<u8>,
    pub state: WifiState,
    pub commands: tx_rx::TxRing,
    pub frames: tx_rx::TxRing,
    pub rx: tx_rx::RxRing,
    pub statuses: Seq<RxStatus>,
    pub next_seq: u16,
    pub ssid: Seq<char>,
    pub bssid: Seq<u8>,
    pub channel: u8,
    pub keys: Option<wpa::PairwiseKeys>,
    /// The packet number of the last data frame.
    pub packet_number: u64,
    pub ip: Option<IpConfig>,
    /// Whether a firmware image was read and is to be uploaded.
    pub image_pending: bool,
    pub job: Job,
    pub doorbells: Seq<RegisterWrite>,
}

impl Job {
    /// The number of polls that are left.
    pub open spec fn polls(self) -> nat {
        match self {
            Job::Idle => 0,
            Job::AwaitAlive { polls } => polls,
            Job::AwaitNvm { polls } => polls,
            Job::Scan { polls, .. } => polls,
            Job::AwaitAuth { polls, .. } => polls,
            Job::AwaitAssoc { polls, .. } => polls,
            Job::AwaitMessage1 { polls, .. } => polls,
            Job::AwaitMessage3 { polls, .. } => polls,
        }
    }

    /// The same wait with one poll less.
    pub open spec fn one_less(self) -> Job {
        let polls = (self.polls() - 1) as nat;
        match self {
            Job::Idle => Job::Idle,
            Job::AwaitAlive { .. } => Job::AwaitAlive { polls },
            Job::AwaitNvm { .. } => Job::AwaitNvm { polls },
            Job::Scan { found, min_signal, login, .. } => Job::Scan {
                polls,
                found,
                min_signal,
                login,
            },
            Job::AwaitAuth { target, .. } => Job::AwaitAuth { polls, target },
            Job::AwaitAssoc { target, .. } => Job::AwaitAssoc { polls, target },
            Job::AwaitMessage1 { target, pmk, .. } => Job::AwaitMessage1 { polls, target, pmk },
            Job::AwaitMessage3 { target, keys, .. } => Job::AwaitMessage3 { polls, target, keys },
        }
    }

    /// Whether the passphrase and the SSID are short enough for key derivation.
    pub open spec fn well_formed(self) -> bool {
        match self {
            Job::Scan { login: Some((ssid, password)), .. } => is_short(ssid, password),
            Job::AwaitAuth { target, .. } => is_short(target.ssid, target.password),
            Job::AwaitAssoc { target, .. } => is_short(target.ssid, target.password),
            _ => true,
        }
    }
}

/// Whether an SSID and a password are short enough to derive a key from them,
/// which they are unless they take up 2^61 bytes.
pub open spec fn is_short(ssid: Seq<char>, password: Seq<char>) -> bool {
    &&& vstd::utf8::encode_utf8(password).len() <= crate::sha1::message_limit()
    &&& vstd::utf8::encode_utf8(ssid).len() + 68 <= crate::sha1::message_limit()
}

// -------------------------------------------------------------------
// What is received
// -------------------------------------------------------------------

/// Whether a received buffer is a response to, or notification of, a command.
pub open spec fn is_response(data: Seq<u8>, id: commands::CommandId) -> bool {
    commands::response_of(data) matches Some(response) && response.id == id.number()
}

/// The MAC address in the answer to an NVM read, if a received buffer is one.
pub open spec fn mac_in(data: Seq<u8>) -> Option<Seq<u8>> {
    match commands::response_of(data) {
        Some(response) => if response.id == commands::CommandId::NvmAccess.number()
            && response.data.len() >= 6 {
            Some(response.data.take(6))
        } else {
            None
        },
        None => None,
    }
}

/// The networks found after one more received buffer.
pub open spec fn found_after(
    found: Seq<scan::Network>,
    data: Seq<u8>,
    min_signal: i8,
) -> Seq<scan::Network> {
    match ieee80211::beacon_of(data) {
        Some(beacon) => if data.len() > 30 {
            scan::after_beacon(found, beacon, ASSUMED_SIGNAL_DBM, min_signal)
        } else {
            found
        },
        None => found,
    }
}

/// Whether a received buffer is a management frame of the given subtype.
pub open spec fn is_mgmt_frame(data: Seq<u8>, subtype: ieee80211::MgmtSubtype) -> bool {
    ieee80211::header_of(data) matches Some(header) && ieee80211::type_in(header.frame_control)
        == ieee80211::FrameType::Management && ieee80211::subtype_in(header.frame_control)
        == subtype.number()
}

/// The given message of the handshake, if a received buffer is it.
pub open spec fn key_message(data: Seq<u8>, number: u8) -> Option<wpa::KeyFrame> {
    match wpa::key_frame_of(data) {
        Some(frame) => if data.len() > 40 && wpa::message_with(frame.key_info) == number {
            Some(frame)
        } else {
            None
        },
        None => None,
    }
}

/// The first network with the given SSID.
pub open spec fn first_named(list: Seq<scan::Network>, ssid: Seq<char>) -> Option<scan::Network>
    decreases list.len(),
{
    if list.len() == 0 {
        None
    } else if list[0].ssid == ssid {
        Some(list[0])
    } else {
        first_named(list.skip(1), ssid)
    }
}

// -------------------------------------------------------------------
// What is sent
// -------------------------------------------------------------------

/// The band of a channel.
pub open spec fn band_of(channel: u8) -> commands::Band {
    if channel <= 14 {
        commands::Band::Band2G
    } else {
        commands::Band::Band5G
    }
}

/// The station's nonce, which is made from its MAC address.
pub open spec fn station_nonce(mac: Seq<u8>) -> Seq<u8> {
    Seq::new(32, |i: int| (((mac[i % 6] + i) % 256) * 0x6D % 256) as u8)
}

/// The RSN element that message 2 carries, which is that of the association
/// request.
pub open spec fn handshake_rsn() -> Seq<u8> {
    ieee80211::element_bytes(ieee80211::ie_id::RSN, ieee80211::rsn_data())
}

/// The header in front of an encrypted payload: the packet number, with the
/// flag for an extended IV and key ID 0 between its bytes.
pub open spec fn cipher_header(pn: u64) -> Seq<u8> {
    seq![
        (pn % 0x100) as u8,
        (pn / 0x100 % 0x100) as u8,
        0u8,
        0x20u8,
        (pn / 0x1_0000 % 0x100) as u8,
        (pn / 0x100_0000 % 0x100) as u8,
        (pn / 0x1_0000_0000 % 0x100) as u8,
        (pn / 0x100_0000_0000 % 0x100) as u8,
    ]
}

/// The packet number in such a header.
pub open spec fn number_in(header: Seq<u8>) -> u64 {
    (header[0] + 0x100 * header[1] + 0x1_0000 * header[4] + 0x100_0000 * header[5] + 0x1_0000_0000
        * header[6] + 0x100_0000_0000 * header[7]) as u64
}

impl Controller {
    /// The packet number of the next data frame.
    pub open spec fn next_number(self) -> u64 {
        (self.packet_number + 1) as u64
    }

    /// The MAC header of the next data frame.
    pub open spec fn data_header(self, dst: Seq<u8>) -> Seq<u8> {
        ieee80211::qos_data_header(
            self.bssid,
            self.mac,
            dst,
            (self.packet_number % 0x1000) as u16,
            0,
        )
    }

    /// The nonce of the next data frame.
    pub open spec fn data_nonce(self) -> Seq<u8> {
        ccm::nonce_bytes(0, self.mac, self.next_number())
    }

    /// The next data frame. The payload starts with the destination and source
    /// addresses; what follows them is encrypted.
    pub open spec fn data_frame(self, tk: Seq<u8>, payload: Seq<u8>) -> Seq<u8> {
        let header = self.data_header(payload.take(6));
        header + cipher_header(self.next_number()) + ccm::sealed(
            tk,
            self.data_nonce(),
            header.take(AAD_LEN as int),
            payload.skip(12),
        )
    }

    // ---------------------------------------------------------------
    // Small steps
    // ---------------------------------------------------------------

    pub open spec fn with_state(self, state: WifiState) -> Self {
        Controller { state, ..self }
    }

    pub open spec fn with_job(self, job: Job) -> Self {
        Controller { job, ..self }
    }

    /// The controller waiting for nothing.
    pub open spec fn idle(self) -> Self {
        self.with_job(Job::Idle)
    }

    /// The operation has failed.
    pub open spec fn failed(self, reason: Seq<char>) -> (Self, Outcome) {
        (self.idle(), Outcome::Failed(reason))
    }

    /// The wait goes on.
    pub open spec fn pending(self, job: Job) -> (Self, Outcome) {
        (self.with_job(job), Outcome::Pending)
    }

    /// A received buffer was read.
    pub open spec fn after_read(self) -> Self {
        Controller { rx: self.rx.after_read(), ..self }
    }

    /// A receive buffer was given back to the device.
    pub open spec fn recycled(self) -> Self {
        Controller { rx: self.rx.recycled(), ..self }
    }

    /// A host command was submitted, if there was room for it. Its sequence
    /// number is used up in either case.
    pub open spec fn with_command(self, command: commands::Command, c: u64) -> Self {
        let counted = Controller { next_seq: (((self.next_seq + 1) % 0x1_0000) as u16), ..self };
        if self.commands.full() {
            counted
        } else {
            let ring = self.commands.with_frame(
                command.serialized(self.next_seq),
                tx_rx::physical(c, self.phys_mem_offset),
            );
            Controller {
                commands: ring,
                doorbells: self.doorbells.push(tx_rx::tx_doorbell(0, ring.write_idx)),
                ..counted
            }
        }
    }

    /// A frame was submitted, if there was room for it.
    pub open spec fn with_frame(self, frame: Seq<u8>, d: u64) -> Self {
        if self.frames.full() {
            self
        } else {
            let ring = self.frames.with_frame(frame, tx_rx::physical(d, self.phys_mem_offset));
            Controller {
                frames: ring,
                doorbells: self.doorbells.push(tx_rx::tx_doorbell(1, ring.write_idx)),
                ..self
            }
        }
    }

    // ---------------------------------------------------------------
    // Operations
    // ---------------------------------------------------------------

    /// Whether a scan or a connection attempt may start.
    pub open spec fn accepts_requests(self) -> bool {
        self.state is Ready || self.state is Disconnected
    }

    /// A scan was started. The reason is given if it could not be.
    pub open spec fn scan_started(
        self,
        plan: scan::ScanPlan,
        login: Option<(Seq<char>, Seq<char>)>,
        c: u64,
    ) -> (Self, Option<Seq<char>>) {
        let ssid = match plan.ssid {
            Some(name) => Some(vstd::utf8::encode_utf8(name)),
            None => None,
        };
        let sent = self.with_state(WifiState::Scanning).with_command(
            commands::scan_for(plan.effective_channels(), ssid),
            c,
        );
        if self.commands.full() {
            (sent.idle(), Some("command queue full"@))
        } else {
            let job = Job::Scan {
                polls: (plan.timeout_ms * SCAN_POLLS_PER_MS) as nat,
                found: Seq::empty(),
                min_signal: plan.min_signal_dbm,
                login,
            };
            (sent.with_job(job), None)
        }
    }

    /// A scan was asked for.
    pub open spec fn scan_requested(self, plan: scan::ScanPlan, c: u64) -> (
        Self,
        Option<Seq<char>>,
    ) {
        if self.accepts_requests() {
            self.scan_started(plan, None, c)
        } else {
            (self, Some("cannot scan in current state"@))
        }
    }

    /// A connection was asked for.
    pub open spec fn connect_requested(self, ssid: Seq<char>, password: Seq<char>, c: u64) -> (
        Self,
        Option<Seq<char>>,
    ) {
        let plan = scan::ScanPlan {
            ssid: Some(ssid),
            timeout_ms: CONNECT_SCAN_MS,
            ..scan::ScanPlan::usual()
        };
        if self.accepts_requests() {
            self.scan_started(plan, Some((ssid, password)), c)
        } else {
            (self, Some("cannot connect in current state"@))
        }
    }

    /// A disconnection was asked for.
    pub open spec fn disconnect_requested(self, c: u64, d: u64) -> (Self, Option<Seq<char>>) {
        let left = self.with_frame(ieee80211::disassoc_frame(self.bssid, self.mac), d);
        let removed = left.with_command(
            commands::legacy(commands::CommandId::RemoveStation, Seq::empty()),
            c,
        );
        if !(self.state is Connected) {
            (self, None)
        } else if self.frames.full() {
            (left, Some("data queue full"@))
        } else if self.commands.full() {
            (removed, Some("command queue full"@))
        } else {
            (
                Controller {
                    state: WifiState::Disconnected,
                    keys: None,
                    packet_number: 0,
                    ip: None,
                    ..removed
                },
                None,
            )
        }
    }

    /// A payload was to be sent. The packet number is used up even if there was
    /// no room for the frame.
    pub open spec fn transmit_requested(self, payload: Seq<u8>, d: u64) -> (
        Self,
        Option<Seq<char>>,
    ) {
        if !(self.state is Connected) {
            (self, Some("not connected"@))
        } else {
            match self.keys {
                None => (self, Some("no PTK — handshake incomplete"@)),
                Some(keys) => if payload.len() < 14 {
                    (self, Some("payload too short"@))
                } else {
                    let counted = Controller { packet_number: self.next_number(), ..self };
                    (
                        counted.with_frame(self.data_frame(keys.tk, payload), d),
                        if self.frames.full() {
                            Some("data queue full"@)
                        } else {
                            None
                        },
                    )
                },
            }
        }
    }

    /// A firmware file was read.
    pub open spec fn firmware_read(self, file: Seq<u8>) -> Self {
        Controller { image_pending: firmware::image_of(file) is Some, ..self }
    }

    /// The upload of the firmware image has ended, and failed if a reason is
    /// given.
    pub open spec fn upload_ended(self, failure: Option<Seq<char>>) -> (Self, Option<Seq<char>>) {
        let done = Controller { image_pending: false, ..self };
        if !self.image_pending {
            (self, Some("no firmware image"@))
        } else if failure is Some {
            (done, failure)
        } else {
            (done.with_job(Job::AwaitAlive { polls: ALIVE_POLLS as nat }), None)
        }
    }

    /// The device has written a buffer and posted its status.
    pub open spec fn device_wrote(self, slot: int, data: Seq<u8>, flags: u16) -> Self {
        Controller {
            rx: self.rx.with_written(slot, data),
            statuses: self.statuses.update(slot, RxStatus { len: data.len() as u16, flags }),
            ..self
        }
    }

    // ---------------------------------------------------------------
    // Polling
    // ---------------------------------------------------------------

    /// The firmware is alive: its MAC address is asked for.
    pub open spec fn alive(self, c: u64) -> (Self, Outcome) {
        let sent = self.with_command(
            commands::nvm_read(commands::NvmSection::Production, 0, 6),
            c,
        );
        if self.commands.full() {
            sent.failed("command queue full"@)
        } else {
            sent.pending(Job::AwaitNvm { polls: NVM_POLLS as nat })
        }
    }

    /// The MAC address is known: the controller is ready.
    pub open spec fn ready(self, mac: Seq<u8>) -> (Self, Outcome) {
        (Controller { mac, state: WifiState::Ready, job: Job::Idle, ..self }, Outcome::Done)
    }

    /// The scan is over.
    pub open spec fn scanned(
        self,
        found: Seq<scan::Network>,
        login: Option<(Seq<char>, Seq<char>)>,
        c: u64,
        d: u64,
    ) -> (Self, Outcome) {
        let list = scan::strongest_first(found);
        let ended = self.with_state(WifiState::Ready);
        match login {
            None => (ended.idle(), Outcome::Networks(list)),
            Some((ssid, password)) => match first_named(list, ssid) {
                None => ended.failed("target network not found"@),
                Some(network) => ended.chosen(
                    Target { ssid, password, bssid: network.bssid, channel: network.channel },
                    c,
                    d,
                ),
            },
        }
    }

    /// The network to connect to is known: the radio is tuned to it, and
    /// authentication starts.
    pub open spec fn chosen(self, target: Target, c: u64, d: u64) -> (Self, Outcome) {
        let tuned = self.with_command(
            commands::phy_context(
                band_of(target.channel),
                target.channel,
                commands::ChannelWidth::Mhz20,
            ),
            c,
        );
        let sent = tuned.with_state(WifiState::Authenticating).with_frame(
            ieee80211::auth_frame(target.bssid, self.mac),
            d,
        );
        if self.commands.full() {
            tuned.failed("command queue full"@)
        } else if self.frames.full() {
            sent.failed("data queue full"@)
        } else {
            sent.pending(Job::AwaitAuth { polls: RESPONSE_POLLS as nat, target })
        }
    }

    /// The station is authenticated: association starts.
    pub open spec fn authenticated(self, target: Target, c: u64, d: u64) -> (Self, Outcome) {
        let sent = self.with_state(WifiState::Associating).with_frame(
            ieee80211::assoc_request(target.bssid, self.mac, target.ssid),
            d,
        );
        let joined = sent.with_command(commands::add_station(target.bssid, 0), c);
        if self.frames.full() {
            sent.failed("data queue full"@)
        } else if self.commands.full() {
            joined.failed("command queue full"@)
        } else {
            joined.pending(Job::AwaitAssoc { polls: RESPONSE_POLLS as nat, target })
        }
    }

    /// The station is associated: the handshake starts.
    pub open spec fn associated(self, target: Target) -> (Self, Outcome) {
        self.with_state(WifiState::Handshaking).pending(
            Job::AwaitMessage1 {
                polls: EAPOL_POLLS as nat,
                target,
                pmk: wpa::psk(target.password, target.ssid),
            },
        )
    }

    /// Message 1 has come: message 2 answers it.
    pub open spec fn greeted(
        self,
        target: Target,
        pmk: Seq<u8>,
        message: wpa::KeyFrame,
        d: u64,
    ) -> (Self, Outcome) {
        let snonce = station_nonce(self.mac);
        let keys = wpa::pairwise_keys(pmk, target.bssid, self.mac, message.nonce, snonce);
        let sent = self.with_frame(
            wpa::message_2(snonce, message.replay_counter, keys.kck, handshake_rsn()),
            d,
        );
        if self.frames.full() {
            sent.failed("data queue full"@)
        } else {
            sent.pending(Job::AwaitMessage3 { polls: EAPOL_POLLS as nat, target, keys })
        }
    }

    /// Message 3 has come: message 4 answers it, the keys are installed, and the
    /// station is connected.
    pub open spec fn confirmed(
        self,
        target: Target,
        keys: wpa::PairwiseKeys,
        message: wpa::KeyFrame,
        c: u64,
        d: u64,
    ) -> (Self, Outcome) {
        let sent = self.with_frame(wpa::message_4(message.replay_counter, keys.kck), d);
        let keyed = Controller { keys: Some(keys), ..sent };
        let installed = keyed.with_command(
            commands::add_key(0, 0, commands::KeyAlgorithm::Ccmp, keys.tk),
            c,
        );
        if self.frames.full() {
            sent.failed("data queue full"@)
        } else if self.commands.full() {
            installed.failed("command queue full"@)
        } else {
            (
                Controller {
                    state: WifiState::Connected,
                    ssid: target.ssid,
                    bssid: target.bssid,
                    channel: target.channel,
                    job: Job::Idle,
                    ..installed
                },
                Outcome::Done,
            )
        }
    }

    /// The polls are used up.
    pub open spec fn timed_out(self, c: u64, d: u64) -> (Self, Outcome) {
        match self.job {
            Job::Idle => (self, Outcome::Done),
            Job::AwaitAlive { .. } => self.failed("firmware alive timeout"@),
            Job::AwaitNvm { .. } => self.ready(DEFAULT_MAC@),
            Job::Scan { found, login, .. } => self.scanned(found, login, c, d),
            Job::AwaitAuth { .. } => self.failed("auth response timeout"@),
            Job::AwaitAssoc { .. } => self.failed("association response timeout"@),
            Job::AwaitMessage1 { .. } => self.failed("EAPOL message timeout"@),
            Job::AwaitMessage3 { .. } => self.failed("EAPOL message timeout"@),
        }
    }

    /// A buffer was received. While the firmware comes up, the buffer is not
    /// given back to the device.
    pub open spec fn handled(self, data: Seq<u8>, c: u64, d: u64) -> (Self, Outcome) {
        let more = self.job.one_less();
        match self.job {
            Job::Idle => (self, Outcome::Done),
            Job::AwaitAlive { .. } => if is_response(data, commands::CommandId::Alive) {
                self.alive(c)
            } else {
                self.pending(more)
            },
            Job::AwaitNvm { .. } => match mac_in(data) {
                Some(mac) => self.ready(mac),
                None => self.pending(more),
            },
            Job::Scan { polls, found, min_signal, login } => if is_response(
                data,
                commands::CommandId::ScanComplete,
            ) {
                self.recycled().scanned(found, login, c, d)
            } else {
                self.recycled().pending(
                    Job::Scan {
                        polls: (polls - 1) as nat,
                        found: found_after(found, data, min_signal),
                        min_signal,
                        login,
                    },
                )
            },
            Job::AwaitAuth { target, .. } => if is_mgmt_frame(
                data,
                ieee80211::MgmtSubtype::Auth,
            ) {
                self.recycled().authenticated(target, c, d)
            } else {
                self.recycled().pending(more)
            },
            Job::AwaitAssoc { target, .. } => if is_mgmt_frame(
                data,
                ieee80211::MgmtSubtype::AssocResponse,
            ) {
                self.recycled().associated(target)
            } else {
                self.recycled().pending(more)
            },
            Job::AwaitMessage1 { target, pmk, .. } => match key_message(data, 1) {
                Some(message) => self.recycled().greeted(target, pmk, message, d),
                None => self.recycled().pending(more),
            },
            Job::AwaitMessage3 { target, keys, .. } => match key_message(data, 3) {
                Some(message) => self.recycled().confirmed(target, keys, message, c, d),
                None => self.recycled().pending(more),
            },
        }
    }

    /// One poll: an end to the wait if no polls are left, and otherwise one look
    /// at the receive queue.
    pub open spec fn polled(self, c: u64, d: u64) -> (Self, Outcome) {
        if self.job.polls() == 0 {
            self.timed_out(c, d)
        } else {
            match self.rx.received(self.statuses) {
                None => self.pending(self.job.one_less()),
                Some(data) => self.after_read().handled(data, c, d),
            }
        }
    }

    // ---------------------------------------------------------------
    // Validity
    // ---------------------------------------------------------------

    /// What holds of every controller.
    pub open spec fn well_formed(self) -> bool {
        &&& self.commands.well_formed()
        &&& self.frames.well_formed()
        &&& self.rx.well_formed()
        &&& self.statuses.len() == tx_rx::RXQ_SIZE
        &&& self.mac.len() == 6
        &&& self.bssid.len() == 6
        &&& self.job.well_formed()
    }

    /// Whether the counters of the receive queue have room for one more.
    pub open spec fn can_receive(self) -> bool {
        self.rx.read_idx < usize::MAX && self.rx.write_idx < usize::MAX
    }

    /// Whether a poll is within the limits of the receive queue's counters: there
    /// is nothing to count, or there is room.
    pub open spec fn may_poll(self) -> bool {
        self.job.polls() > 0 && self.rx.received(self.statuses) is Some ==> self.can_receive()
    }

    /// Whether a payload is within the limits of the packet number and of the
    /// cipher's block counter, should it be encrypted.
    pub open spec fn may_transmit(self, payload: Seq<u8>) -> bool {
        self.state is Connected && self.keys is Some && payload.len() >= 14 ==> {
            &&& self.packet_number < u64::MAX
            &&& payload.len() <= ccm::CCMP_MAX_PAYLOAD + 12
        }
    }

    /// A controller that was just set up, with its receive buffers at the given
    /// virtual addresses.
    pub open spec fn fresh(
        phys_mem_offset: u64,
        variant: WifiVariant,
        irq_line: u8,
        virt_addrs: Seq<u64>,
    ) -> Self {
        Controller {
            phys_mem_offset,
            variant,
            irq_line,
            mac: bytes::zeros(6),
            state: WifiState::Uninitialized,
            commands: tx_rx::TxRing::unused(0),
            frames: tx_rx::TxRing::unused(1),
            rx: tx_rx::RxRing::unused(tx_rx::physical_each(virt_addrs, phys_mem_offset)),
            statuses: Seq::new(
                tx_rx::RXQ_SIZE as nat,
                |i: int| RxStatus { len: 0, flags: 0 },
            ),
            next_seq: 0,
            ssid: Seq::empty(),
            bssid: bytes::zeros(6),
            channel: 0,
            keys: None,
            packet_number: 0,
            ip: None,
            image_pending: false,
            job: Job::Idle,
            doorbells: Seq::empty(),
        }
    }
}

} // verus!
