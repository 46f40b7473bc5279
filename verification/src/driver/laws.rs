//! What holds of the controller whatever it is asked to do and whatever the
//! device sends.
use super::state;
use super::state::{Controller, Job, Outcome, Target};
use super::WifiState;
use crate::ccm;
use crate::commands;
use crate::ieee80211;
use crate::scan;
use crate::tx_rx;
use crate::wpa;
use vstd::prelude::*;

verus! {

// -------------------------------------------------------------------
// Every wait ends
// -------------------------------------------------------------------

impl Job {
    /// The number of polls within which the operation ends.
    pub open spec fn budget(self) -> int {
        let handshake = 2 * (state::EAPOL_POLLS + 1);
        let response = state::RESPONSE_POLLS + 1;
        match self {
            Job::Idle => 0,
            Job::AwaitAlive { polls } => polls as int + 1 + state::NVM_POLLS + 1,
            Job::AwaitNvm { polls } => polls as int + 1,
            Job::Scan { polls, login, .. } => if login is Some {
                polls as int + 1 + 2 * response + handshake
            } else {
                polls as int + 1
            },
            Job::AwaitAuth { polls, .. } => polls as int + 1 + response + handshake,
            Job::AwaitAssoc { polls, .. } => polls as int + 1 + handshake,
            Job::AwaitMessage1 { polls, .. } => polls as int + 1 + state::EAPOL_POLLS + 1,
            Job::AwaitMessage3 { polls, .. } => polls as int + 1,
        }
    }
}

/// Every poll either ends the operation or brings its end closer. So every
/// operation ends, whatever the device does.
pub proof fn lemma_poll_ends(s: Controller, c: u64, d: u64)
    ensures
        ({
            let (after, outcome) = s.polled(c, d);
            if outcome is Pending {
                0 < after.job.budget() < s.job.budget()
            } else {
                after.job is Idle
            }
        }),
{
}

/// A scan takes at most ten polls per millisecond of its timeout, and one more.
pub proof fn lemma_scan_budget(s: Controller, plan: scan::ScanPlan, c: u64)
    ensures
        ({
            let (after, error) = s.scan_requested(plan, c);
            error is None ==> after.job.budget() == 10 * plan.timeout_ms + 1
        }),
{
}

// -------------------------------------------------------------------
// States
// -------------------------------------------------------------------

impl Controller {
    /// What the state says of the rest: a step of an operation is under way only
    /// in the state that belongs to it, a connected station has keys, and a scan
    /// lists no access point twice and none that is too weak.
    pub open spec fn consistent(self) -> bool {
        &&& self.state is Connected ==> self.keys is Some
        &&& match self.job {
            Job::Scan { found, min_signal, .. } => {
                &&& self.state is Scanning
                &&& scan::distinct(found)
                &&& scan::all_reach(found, min_signal)
            },
            Job::AwaitAuth { .. } => self.state is Authenticating,
            Job::AwaitAssoc { .. } => self.state is Associating,
            Job::AwaitMessage1 { .. } => self.state is Handshaking,
            Job::AwaitMessage3 { .. } => self.state is Handshaking,
            _ => true,
        }
    }
}

/// A controller that was just set up is consistent, and no operation makes it
/// inconsistent.
pub proof fn lemma_consistent(
    s: Controller,
    plan: scan::ScanPlan,
    ssid: Seq<char>,
    password: Seq<char>,
    payload: Seq<u8>,
    failure: Option<Seq<char>>,
    slot: int,
    flags: u16,
    c: u64,
    d: u64,
)
    requires
        s.consistent(),
    ensures
        forall|offset: u64, variant: crate::WifiVariant, irq_line: u8, virt_addrs: Seq<u64>|
            (#[trigger] Controller::fresh(offset, variant, irq_line, virt_addrs)).consistent(),
        s.polled(c, d).0.consistent(),
        s.scan_requested(plan, c).0.consistent(),
        s.connect_requested(ssid, password, c).0.consistent(),
        s.disconnect_requested(c, d).0.consistent(),
        s.transmit_requested(payload, d).0.consistent(),
        s.device_wrote(slot, payload, flags).consistent(),
        s.firmware_read(payload).consistent(),
        s.upload_ended(failure).0.consistent(),
{
    if let Job::Scan { found, min_signal, .. } = s.job {
        if let Some(data) = s.rx.received(s.statuses) {
            if let Some(beacon) = ieee80211::beacon_of(data) {
                let network = scan::announced_by(beacon, state::ASSUMED_SIGNAL_DBM);
                scan::lemma_added_distinct(found, network);
                if state::ASSUMED_SIGNAL_DBM >= min_signal {
                    scan::lemma_added_reach(found, network, min_signal);
                }
            }
        }
    }
}

/// Only the end of the handshake leads to a connection: a poll connects the
/// station only if message 3 was awaited and has come, and then with the keys of
/// the handshake. No other operation does.
pub proof fn lemma_connected_only_by_handshake(
    s: Controller,
    plan: scan::ScanPlan,
    ssid: Seq<char>,
    password: Seq<char>,
    payload: Seq<u8>,
    c: u64,
    d: u64,
)
    requires
        s.consistent(),
        !(s.state is Connected),
    ensures
        s.polled(c, d).0.state is Connected ==> {
            &&& s.job matches Job::AwaitMessage3 { keys, .. } && s.polled(c, d).0.keys == Some(keys)
            &&& s.rx.received(s.statuses) matches Some(data) && state::key_message(
                data,
                3,
            ) is Some
            &&& s.polled(c, d).1 == Outcome::Done
        },
        !(s.scan_requested(plan, c).0.state is Connected),
        !(s.connect_requested(ssid, password, c).0.state is Connected),
        !(s.disconnect_requested(c, d).0.state is Connected),
        !(s.transmit_requested(payload, d).0.state is Connected),
{
}

/// Whether a poll may take the controller from one state to the other: the
/// stages of starting up, scanning and connecting follow one another, and a
/// finished scan leaves the controller ready.
pub open spec fn may_follow(before: WifiState, after: WifiState) -> bool {
    ||| after == before
    ||| after is Ready
    ||| before is Scanning && after is Authenticating
    ||| before is Authenticating && after is Associating
    ||| before is Associating && after is Handshaking
    ||| before is Handshaking && after is Connected
}

/// A poll takes the controller to no state that may not follow.
pub proof fn lemma_poll_states(s: Controller, c: u64, d: u64)
    requires
        s.consistent(),
    ensures
        may_follow(s.state, s.polled(c, d).0.state),
{
}

/// Nothing works without firmware: a controller that was just set up refuses
/// every request, and becomes ready only by a poll that ends the reading of the
/// MAC address, which follows the firmware's alive notification.
pub proof fn lemma_needs_firmware(
    s: Controller,
    plan: scan::ScanPlan,
    ssid: Seq<char>,
    password: Seq<char>,
    payload: Seq<u8>,
    c: u64,
    d: u64,
)
    requires
        s.consistent(),
        s.state is Uninitialized,
    ensures
        s.scan_requested(plan, c) == (s, Some("cannot scan in current state"@)),
        s.connect_requested(ssid, password, c) == (s, Some("cannot connect in current state"@)),
        s.transmit_requested(payload, d) == (s, Some("not connected"@)),
        s.disconnect_requested(c, d) == (s, None::<Seq<char>>),
        s.polled(c, d).0.state is Uninitialized || (s.job is AwaitNvm && s.polled(
            c,
            d,
        ).0.state is Ready),
        s.polled(c, d).0.job is AwaitNvm && !(s.job is AwaitNvm) ==> {
            &&& s.job is AwaitAlive
            &&& s.rx.received(s.statuses) is Some
            &&& state::is_response(
                s.rx.received(s.statuses).unwrap(),
                commands::CommandId::Alive,
            )
        },
{
}

impl Controller {
    /// Whether the controller still waits for its first firmware image.
    pub open spec fn without_image(self) -> bool {
        self.state is Uninitialized && self.job is Idle && !self.image_pending
    }
}

/// The controller starts without an image, and reading one that parses is the
/// only way out: nothing else that it is asked to do, and no report of an upload,
/// sets it going.
pub proof fn lemma_needs_image(
    s: Controller,
    plan: scan::ScanPlan,
    ssid: Seq<char>,
    password: Seq<char>,
    payload: Seq<u8>,
    failure: Option<Seq<char>>,
    slot: int,
    flags: u16,
    c: u64,
    d: u64,
)
    requires
        s.without_image(),
    ensures
        forall|offset: u64, variant: crate::WifiVariant, irq_line: u8, virt_addrs: Seq<u64>|
            (#[trigger] Controller::fresh(offset, variant, irq_line, virt_addrs)).without_image(),
        s.upload_ended(failure) == (s, Some("no firmware image"@)),
        s.polled(c, d) == (s, Outcome::Done),
        s.scan_requested(plan, c).0 == s,
        s.connect_requested(ssid, password, c).0 == s,
        s.disconnect_requested(c, d).0 == s,
        s.transmit_requested(payload, d).0 == s,
        s.device_wrote(slot, payload, flags).without_image(),
        s.firmware_read(payload).without_image() <==> crate::firmware::image_of(payload) is None,
{
}

/// A request for a scan or a connection in any state but ready and disconnected
/// is refused and changes nothing.
pub proof fn lemma_refused_requests(
    s: Controller,
    plan: scan::ScanPlan,
    ssid: Seq<char>,
    password: Seq<char>,
    c: u64,
)
    requires
        !(s.state is Ready),
        !(s.state is Disconnected),
    ensures
        s.scan_requested(plan, c) == (s, Some("cannot scan in current state"@)),
        s.connect_requested(ssid, password, c) == (s, Some("cannot connect in current state"@)),
{
}

/// A station that was disconnected has no keys left, starts counting anew, and
/// refuses to send until it is connected again.
pub proof fn lemma_disconnected(s: Controller, payload: Seq<u8>, c: u64, d: u64, e: u64)
    requires
        s.state is Connected,
    ensures
        ({
            let (after, error) = s.disconnect_requested(c, d);
            error is None ==> {
                &&& after.state is Disconnected
                &&& after.keys is None
                &&& after.packet_number == 0
                &&& after.ip is None
                &&& after.transmit_requested(payload, e) == (after, Some("not connected"@))
            }
        }),
{
}

// -------------------------------------------------------------------
// Queues
// -------------------------------------------------------------------

/// A command that was accepted waits in its slot with its sequence number, its
/// doorbell is the last to ring, and no command that was waiting is disturbed.
pub proof fn lemma_submitted_command(s: Controller, command: commands::Command, c: u64)
    requires
        s.commands.well_formed(),
        !s.commands.full(),
    ensures
        ({
            let after = s.with_command(command, c);
            let slot = s.commands.write_idx as int;
            &&& after.commands.pending[slot] matches Some(data) && crate::bytes::le16_at(data, 2)
                == s.next_seq && data[0] == command.id.number() && data.skip(6) == command.data
            &&& after.next_seq == (s.next_seq + 1) % 0x1_0000
            &&& after.doorbells.last() == tx_rx::tx_doorbell(0, after.commands.write_idx)
            &&& forall|i: int| #[trigger]
                s.commands.holds(i) ==> after.commands.holds(i) && after.commands.pending[i]
                    == s.commands.pending[i]
        }),
{
    let data = command.serialized(s.next_seq);
    commands::lemma_command_layout(command, s.next_seq);
    tx_rx::lemma_enqueue_keeps_outstanding(
        s.commands,
        data,
        tx_rx::physical(c, s.phys_mem_offset),
    );
}

/// Once the firmware is up, every receive buffer that is read is given back to
/// the device; while it comes up, none is.
pub proof fn lemma_buffers_given_back(s: Controller, c: u64, d: u64)
    ensures
        ({
            let after = s.polled(c, d).0;
            if s.job is AwaitAlive || s.job is AwaitNvm {
                after.rx.write_idx == s.rx.write_idx
            } else {
                after.rx.write_idx - s.rx.write_idx == after.rx.read_idx - s.rx.read_idx
            }
        }),
{
}

// -------------------------------------------------------------------
// Scanning
// -------------------------------------------------------------------

/// The networks that a scan reports are in order of falling signal strength, name
/// no access point twice, and have at least the signal strength that was asked
/// for.
pub proof fn lemma_scan_report(s: Controller, c: u64, d: u64)
    requires
        s.consistent(),
    ensures
        s.polled(c, d).1 matches Outcome::Networks(list) ==> scan::descending(list)
            && scan::distinct(list) && (s.job matches Job::Scan { min_signal, .. }
            && scan::all_reach(list, min_signal)),
{
    if let Job::Scan { found, min_signal, .. } = s.job {
        let list = scan::strongest_first(found);
        scan::lemma_strongest_first(found);
        scan::lemma_strongest_first_distinct(found);
        assert forall|i: int| 0 <= i < list.len() implies (#[trigger] list[i]).signal_dbm
            >= min_signal by {
            assert(found.contains(list[i]));
        }
    }
}

// -------------------------------------------------------------------
// Connecting
// -------------------------------------------------------------------

/// Where the first network with an SSID stands.
proof fn lemma_first_named(list: Seq<scan::Network>, ssid: Seq<char>)
    ensures
        match state::first_named(list, ssid) {
            None => forall|j: int| 0 <= j < list.len() ==> (#[trigger] list[j]).ssid != ssid,
            Some(network) => network.ssid == ssid && exists|i: int|
                {
                    &&& 0 <= i < list.len()
                    &&& #[trigger] list[i] == network
                    &&& forall|j: int| 0 <= j < i ==> (#[trigger] list[j]).ssid != ssid
                },
        },
    decreases list.len(),
{
    if list.len() > 0 && list[0].ssid != ssid {
        let rest = list.skip(1);
        lemma_first_named(rest, ssid);
        match state::first_named(list, ssid) {
            None => {
                assert forall|j: int| 0 <= j < list.len() implies (#[trigger] list[j]).ssid
                    != ssid by {
                    if j > 0 {
                        assert(rest[j - 1].ssid != ssid);
                    }
                }
            },
            Some(network) => {
                let i = choose|i: int|
                    {
                        &&& 0 <= i < rest.len()
                        &&& #[trigger] rest[i] == network
                        &&& forall|j: int| 0 <= j < i ==> (#[trigger] rest[j]).ssid != ssid
                    };
                assert(list[i + 1] == network);
                assert forall|j: int| 0 <= j < i + 1 implies (#[trigger] list[j]).ssid != ssid by {
                    if j > 0 {
                        assert(rest[j - 1].ssid != ssid);
                    }
                }
            },
        }
    }
}

/// The network that is connected to is one that the scan found, has the wanted
/// SSID, and is as strong as any that has it. There is none only if no network
/// that was found has the SSID.
pub proof fn lemma_target_is_strongest(found: Seq<scan::Network>, ssid: Seq<char>)
    ensures
        match state::first_named(scan::strongest_first(found), ssid) {
            None => forall|k: int| 0 <= k < found.len() ==> (#[trigger] found[k]).ssid != ssid,
            Some(network) => {
                &&& network.ssid == ssid
                &&& found.contains(network)
                &&& forall|k: int|
                    0 <= k < found.len() && (#[trigger] found[k]).ssid == ssid
                        ==> found[k].signal_dbm <= network.signal_dbm
            },
        },
{
    broadcast use vstd::seq_lib::group_to_multiset_ensures;

    let list = scan::strongest_first(found);
    scan::lemma_strongest_first(found);
    lemma_first_named(list, ssid);
    assert forall|k: int| 0 <= k < found.len() implies list.contains(#[trigger] found[k]) by {
        assert(found.to_multiset().contains(found[k]));
        assert(list.to_multiset().contains(found[k]));
    }
    match state::first_named(list, ssid) {
        None => {
            assert forall|k: int| 0 <= k < found.len() implies (#[trigger] found[k]).ssid
                != ssid by {
                let j = choose|j: int| 0 <= j < list.len() && list[j] == found[k];
                assert(list[j].ssid != ssid);
            }
        },
        Some(network) => {
            let i = choose|i: int|
                {
                    &&& 0 <= i < list.len()
                    &&& #[trigger] list[i] == network
                    &&& forall|j: int| 0 <= j < i ==> (#[trigger] list[j]).ssid != ssid
                };
            assert(list.to_multiset().contains(network));
            assert(found.to_multiset().contains(network));
            assert forall|k: int|
                0 <= k < found.len() && (#[trigger] found[k]).ssid
                    == ssid implies found[k].signal_dbm <= network.signal_dbm by {
                let j = choose|j: int| 0 <= j < list.len() && list[j] == found[k];
                assert(i <= j);
                assert(list[i].signal_dbm >= list[j].signal_dbm);
            }
        },
    }
}

/// What the station sends in the handshake is message 2, with its nonce, its RSN
/// element and the replay counter of message 1, and then message 4, with the replay counter of
/// message 3.
pub proof fn lemma_handshake_replies(
    s: Controller,
    target: Target,
    pmk: Seq<u8>,
    keys: wpa::PairwiseKeys,
    message: wpa::KeyFrame,
    c: u64,
    d: u64,
)
    requires
        s.frames.well_formed(),
        !s.frames.full(),
    ensures
        ({
            let slot = s.frames.write_idx as int;
            let sent = s.greeted(target, pmk, message, d).0.frames.pending[slot];
            sent matches Some(frame) && state::key_message(frame, 2) matches Some(reply)
                && reply.nonce == state::station_nonce(s.mac) && reply.replay_counter
                == message.replay_counter && reply.key_data == ieee80211::element_bytes(
                ieee80211::ie_id::RSN,
                ieee80211::rsn_data(),
            )
        }),
        ({
            let slot = s.frames.write_idx as int;
            let sent = s.confirmed(target, keys, message, c, d).0.frames.pending[slot];
            sent matches Some(frame) && state::key_message(frame, 4) matches Some(reply)
                && reply.replay_counter == message.replay_counter
        }),
{
    let snonce = state::station_nonce(s.mac);
    let derived = wpa::pairwise_keys(pmk, target.bssid, s.mac, message.nonce, snonce);
    let rsn = state::handshake_rsn();
    wpa::lemma_station_messages(snonce, message.replay_counter, derived.kck, rsn);
    wpa::lemma_station_messages(snonce, message.replay_counter, keys.kck, rsn);
}

// -------------------------------------------------------------------
// The data path
// -------------------------------------------------------------------

/// The number in the header of an encrypted payload is the packet number, as far
/// as its 48 bits go, and gives the nonce of that packet number.
pub proof fn lemma_number_in_header(mac: Seq<u8>, pn: u64)
    ensures
        state::number_in(state::cipher_header(pn)) == pn % 0x1_0000_0000_0000,
        ccm::nonce_bytes(0, mac, state::number_in(state::cipher_header(pn))) == ccm::nonce_bytes(
            0,
            mac,
            pn,
        ),
{
    lemma_low_bytes(pn);
    lemma_low_bytes_high_word(pn);
    let n = (pn % 0x1_0000_0000_0000) as u64;
    assert(state::number_in(state::cipher_header(pn)) == n);
    assert(crate::bytes::be64(pn).skip(2) =~= crate::bytes::be64(n).skip(2));
}

/// The low 48 bits of a number are its six low bytes.
proof fn lemma_low_bytes(x: u64)
    by (bit_vector)
    ensures
        x % 0x100 + 0x100 * (x / 0x100 % 0x100) + 0x1_0000 * (x / 0x1_0000 % 0x100) + 0x100_0000 * (
        x / 0x100_0000 % 0x100) + 0x1_0000_0000 * (x / 0x1_0000_0000 % 0x100) + 0x100_0000_0000 * (x
            / 0x100_0000_0000 % 0x100) == x % 0x1_0000_0000_0000,
{
}

/// The low 48 bits of a number have its low word and the low half of its high
/// word.
proof fn lemma_low_bytes_high_word(x: u64)
    by (bit_vector)
    ensures
        x % 0x1_0000_0000_0000 % 0x1_0000_0000 == x % 0x1_0000_0000,
        x % 0x1_0000_0000_0000 / 0x1_0000_0000 % 256 == x / 0x1_0000_0000 % 256,
        x % 0x1_0000_0000_0000 / 0x1_0000_0000 / 0x100 % 256 == x / 0x1_0000_0000 / 0x100 % 256,
{
}

/// A data frame is a protected QoS data frame to the access point, for the
/// destination that the payload starts with. Whoever has the temporal key reads
/// the payload, from its ethertype on, from it: the nonce is that of the address
/// and the packet number that the frame carries.
pub proof fn lemma_data_frame(s: Controller, tk: Seq<u8>, payload: Seq<u8>)
    requires
        s.mac.len() == 6,
        s.bssid.len() == 6,
        payload.len() >= 14,
    ensures
        ({
            let frame = s.data_frame(tk, payload);
            let pn = state::number_in(frame.subrange(26, 34));
            &&& ieee80211::header_of(frame) matches Some(header) && {
                &&& header.frame_control == ieee80211::qos_data_control()
                &&& header.addr1 == s.bssid
                &&& header.addr2 == s.mac
                &&& header.addr3 == payload.take(6)
                &&& header.header_len == 26
                &&& ccm::opened(
                    tk,
                    ccm::nonce_bytes(0, header.addr2, pn),
                    frame.take(22),
                    frame.skip(34),
                ) == Some(payload.skip(12))
            }
            &&& pn == s.next_number() % 0x1_0000_0000_0000
            &&& frame.take(26) == s.data_header(payload.take(6))
            &&& frame[28] == 0
            &&& frame[29] == 0x20
        }),
{
    let frame = s.data_frame(tk, payload);
    let header = s.data_header(payload.take(6));
    let number = state::cipher_header(s.next_number());
    let sealed = ccm::sealed(tk, s.data_nonce(), header.take(22), payload.skip(12));
    assert(header.len() == 26);
    assert(number.len() == 8);
    assert(header + (number + sealed) =~= frame);
    assert(frame.take(22) =~= header.take(22));
    assert(frame.take(26) =~= header);
    assert(frame[28] == number[2]);
    assert(frame[29] == number[3]);
    assert(frame.subrange(26, 34) =~= number);
    assert(frame.skip(34) =~= sealed);
    ieee80211::lemma_qos_data_header_parses(
        s.bssid,
        s.mac,
        payload.take(6),
        (s.packet_number % 0x1000) as u16,
        0,
        number + sealed,
    );
    lemma_number_in_header(s.mac, s.next_number());
    assert(s.data_nonce().len() == 13);
    ccm::lemma_open_after_seal(tk, s.data_nonce(), header.take(22), payload.skip(12));
}

/// A payload is accepted exactly if the station is connected with keys, the
/// payload has an Ethernet header and there is room in the data queue. Its data
/// frame is then in the queue: the MAC header, with the count of the frames before
/// it as sequence number, the packet number with its flags, and the ciphertext,
/// which opens under the temporal key to the payload from its ethertype on, with
/// the packet number that the frame carries.
pub proof fn lemma_transmitted(s: Controller, payload: Seq<u8>, d: u64)
    requires
        s.frames.well_formed(),
        s.mac.len() == 6,
        s.bssid.len() == 6,
    ensures
        ({
            let (after, error) = s.transmit_requested(payload, d);
            let slot = s.frames.write_idx as int;
            let tk = s.keys.unwrap().tk;
            let frame = s.data_frame(tk, payload);
            let pn = state::number_in(frame.subrange(26, 34));
            &&& error is None <==> s.state is Connected && s.keys is Some && payload.len() >= 14
                && !s.frames.full()
            &&& error is None ==> {
                &&& after.frames.holds(slot)
                &&& after.frames.pending[slot] == Some(frame)
                &&& frame.take(26) == ieee80211::qos_data_header(
                    s.bssid,
                    s.mac,
                    payload.take(6),
                    (s.packet_number % 0x1000) as u16,
                    0,
                )
                &&& frame[28] == 0
                &&& frame[29] == 0x20
                &&& ccm::opened(
                    tk,
                    ccm::nonce_bytes(0, s.mac, pn),
                    frame.take(22),
                    frame.skip(34),
                ) == Some(payload.skip(12))
            }
        }),
{
    lemma_accepted(s, payload, d);
    if s.transmit_requested(payload, d).1 is None {
        lemma_data_frame(s, s.keys.unwrap().tk, payload);
    }
}

/// When a payload is accepted, and where its frame is then.
proof fn lemma_accepted(s: Controller, payload: Seq<u8>, d: u64)
    requires
        s.frames.well_formed(),
    ensures
        ({
            let (after, error) = s.transmit_requested(payload, d);
            let slot = s.frames.write_idx as int;
            &&& error is None <==> s.state is Connected && s.keys is Some && payload.len() >= 14
                && !s.frames.full()
            &&& error is None ==> after.frames.holds(slot) && after.frames.pending[slot] == Some(
                s.data_frame(s.keys.unwrap().tk, payload),
            )
        }),
{
    if s.transmit_requested(payload, d).1 is None {
        tx_rx::lemma_enqueue_keeps_outstanding(
            s.frames,
            s.data_frame(s.keys.unwrap().tk, payload),
            tx_rx::physical(d, s.phys_mem_offset),
        );
    }
}

/// A packet number is used for one frame only: each frame that is encrypted
/// moves the counter on by one, and nothing but a disconnection, which discards
/// the keys, moves it back.
pub proof fn lemma_packet_numbers(
    s: Controller,
    plan: scan::ScanPlan,
    ssid: Seq<char>,
    password: Seq<char>,
    payload: Seq<u8>,
    slot: int,
    flags: u16,
    c: u64,
    d: u64,
)
    requires
        s.packet_number < u64::MAX,
    ensures
        s.transmit_requested(payload, d).0.packet_number == s.packet_number + if s.state is Connected
            && s.keys is Some && payload.len() >= 14 {
            1int
        } else {
            0
        },
        s.transmit_requested(payload, d).0.frames != s.frames ==> s.transmit_requested(
            payload,
            d,
        ).0.packet_number == s.packet_number + 1,
        s.polled(c, d).0.packet_number == s.packet_number,
        s.scan_requested(plan, c).0.packet_number == s.packet_number,
        s.connect_requested(ssid, password, c).0.packet_number == s.packet_number,
        s.device_wrote(slot, payload, flags).packet_number == s.packet_number,
        s.disconnect_requested(c, d).0.packet_number == s.packet_number || s.disconnect_requested(
            c,
            d,
        ).0.keys is None,
{
}

} // verus!
