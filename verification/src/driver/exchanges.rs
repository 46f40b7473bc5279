//! What the controller does with each buffer that the device sends, by the bytes
//! of the buffer, and what it hands to the device in turn.
use super::state;
use super::state::{Controller, Job, Outcome, Target};
use super::WifiState;
use crate::bytes;
use crate::ccm;
use crate::commands;
use crate::ieee80211;
use crate::scan;
use crate::tx_rx;
use crate::wpa;
use vstd::prelude::*;

verus! {

impl Controller {
    /// Whether the next poll of the controller's operation meets `data`.
    pub open spec fn meets(self, data: Seq<u8>) -> bool {
        self.job.polls() > 0 && self.rx.received(self.statuses) == Some(data)
    }

    /// Whether both queues have room.
    pub open spec fn has_room(self) -> bool {
        &&& self.commands.well_formed()
        &&& self.frames.well_formed()
        &&& !self.commands.full()
        &&& !self.frames.full()
    }

    /// The frame in the next slot of the data queue.
    pub open spec fn frame_put_by(self, after: Self) -> Option<Seq<u8>> {
        after.frames.pending[self.frames.write_idx as int]
    }

    /// The command in the next slot of the command queue.
    pub open spec fn command_put_by(self, after: Self) -> Option<Seq<u8>> {
        after.commands.pending[self.commands.write_idx as int]
    }

    /// Whether nothing but the operation and the receive queue has changed.
    pub open spec fn only_waited(self, after: Self) -> bool {
        after == Controller { job: after.job, rx: after.rx, ..self }
    }
}

// -------------------------------------------------------------------
// The handshake
// -------------------------------------------------------------------

/// The wait for message 3 ends with every buffer of at least 99 bytes whose EAPOL
/// type is 3 and whose key info has ACK, MIC and Secure set, whatever else the
/// buffer holds. With room in both queues the controller is then connected; it has
/// answered with message 4, which repeats the replay counter of the buffer, and
/// installed the key. Every other buffer leaves it waiting.
pub proof fn lemma_message_3_connects(
    s: Controller,
    data: Seq<u8>,
    polls: nat,
    target: Target,
    keys: wpa::PairwiseKeys,
    c: u64,
    d: u64,
)
    requires
        s.job == (Job::AwaitMessage3 { polls, target, keys }),
        s.meets(data),
        s.has_room(),
    ensures
        ({
            let (after, outcome) = s.polled(c, d);
            let awaited = data.len() >= 99 && data[1] == 3 && data[6] / 128 == 1 && data[5] % 2 == 1
                && data[5] / 2 % 2 == 1;
            &&& awaited ==> {
                &&& outcome == Outcome::Done
                &&& after.state == WifiState::Connected
                &&& after.job is Idle
                &&& after.keys == Some(keys)
                &&& after.ssid == target.ssid
                &&& after.bssid == target.bssid
                &&& after.channel == target.channel
                &&& after.packet_number == s.packet_number
                &&& s.frame_put_by(after) == Some(
                    wpa::signed_key_frame(
                        0x030A,
                        bytes::be64_at(data, 9),
                        bytes::zeros(32),
                        Seq::empty(),
                        keys.kck,
                    ),
                )
                &&& s.command_put_by(after) == Some(
                    commands::add_key(0, 0, commands::KeyAlgorithm::Ccmp, keys.tk).serialized(
                        s.next_seq,
                    ),
                )
            }
            &&& !awaited ==> {
                &&& outcome == Outcome::Pending
                &&& after.job == (Job::AwaitMessage3 { polls: after.job.polls(), target, keys })
                &&& after.job.polls() == polls - 1
                &&& s.only_waited(after)
            }
        }),
{
    wpa::lemma_message_by_bytes(data, 3);
    assert((data[5] % 4 == 3) == (data[5] % 2 == 1 && data[5] / 2 % 2 == 1));
    let met = s.after_read().recycled();
    match state::key_message(data, 3) {
        Some(message) => {
            lemma_confirmed(met, target, keys, message, c, d);
            assert(s.polled(c, d) == met.confirmed(target, keys, message, c, d));
        },
        None => {
            assert(s.polled(c, d) == met.pending(s.job.one_less()));
        },
    }
}

proof fn lemma_confirmed(
    s: Controller,
    target: Target,
    keys: wpa::PairwiseKeys,
    message: wpa::KeyFrame,
    c: u64,
    d: u64,
)
    requires
        s.has_room(),
    ensures
        ({
            let (after, outcome) = s.confirmed(target, keys, message, c, d);
            &&& outcome == Outcome::Done
            &&& after.state == WifiState::Connected
            &&& after.job is Idle
            &&& after.keys == Some(keys)
            &&& after.ssid == target.ssid
            &&& after.bssid == target.bssid
            &&& after.channel == target.channel
            &&& after.packet_number == s.packet_number
            &&& s.frame_put_by(after) == Some(
                wpa::signed_key_frame(
                    0x030A,
                    message.replay_counter,
                    bytes::zeros(32),
                    Seq::empty(),
                    keys.kck,
                ),
            )
            &&& s.command_put_by(after) == Some(
                commands::add_key(0, 0, commands::KeyAlgorithm::Ccmp, keys.tk).serialized(
                    s.next_seq,
                ),
            )
        }),
{
    wpa::lemma_station_message_contents(
        Seq::empty(),
        message.replay_counter,
        keys.kck,
        Seq::empty(),
    );
}

/// The wait for message 1 ends with every buffer of at least 99 bytes whose EAPOL
/// type is 3 and whose key info has ACK set and MIC and Secure clear, whatever
/// else the buffer holds. The controller answers with message 2, which repeats the
/// replay counter of the buffer, and waits for message 3 with the keys for the
/// nonce in the buffer. Every other buffer leaves it waiting.
pub proof fn lemma_message_1_is_answered(
    s: Controller,
    data: Seq<u8>,
    polls: nat,
    target: Target,
    pmk: Seq<u8>,
    c: u64,
    d: u64,
)
    requires
        s.job == (Job::AwaitMessage1 { polls, target, pmk }),
        s.meets(data),
        s.has_room(),
    ensures
        ({
            let (after, outcome) = s.polled(c, d);
            let awaited = data.len() >= 99 && data[1] == 3 && data[6] / 128 == 1 && data[5] % 2 == 0
                && data[5] / 2 % 2 == 0;
            let snonce = state::station_nonce(s.mac);
            let keys = wpa::pairwise_keys(
                pmk,
                target.bssid,
                s.mac,
                data.subrange(17, 49),
                snonce,
            );
            &&& outcome == Outcome::Pending
            &&& awaited ==> {
                &&& after.job == (Job::AwaitMessage3 { polls: 100_000, target, keys })
                &&& after.state == s.state
                &&& after.keys == s.keys
                &&& after.commands == s.commands
                &&& s.frame_put_by(after) == Some(
                    wpa::signed_key_frame(
                        0x010A,
                        bytes::be64_at(data, 9),
                        snonce,
                        seq![48u8, 20] + ieee80211::rsn_data(),
                        keys.kck,
                    ),
                )
            }
            &&& !awaited ==> {
                &&& after.job == (Job::AwaitMessage1 { polls: after.job.polls(), target, pmk })
                &&& after.job.polls() == polls - 1
                &&& s.only_waited(after)
            }
        }),
{
    wpa::lemma_message_by_bytes(data, 1);
    assert((data[5] % 4 == 0) == (data[5] % 2 == 0 && data[5] / 2 % 2 == 0));
    let met = s.after_read().recycled();
    match state::key_message(data, 1) {
        Some(message) => {
            lemma_greeted(met, target, pmk, message, d);
            assert(s.polled(c, d) == met.greeted(target, pmk, message, d));
        },
        None => {
            assert(s.polled(c, d) == met.pending(s.job.one_less()));
        },
    }
}

proof fn lemma_greeted(
    s: Controller,
    target: Target,
    pmk: Seq<u8>,
    message: wpa::KeyFrame,
    d: u64,
)
    requires
        s.has_room(),
    ensures
        ({
            let (after, outcome) = s.greeted(target, pmk, message, d);
            let snonce = state::station_nonce(s.mac);
            let keys = wpa::pairwise_keys(pmk, target.bssid, s.mac, message.nonce, snonce);
            &&& outcome == Outcome::Pending
            &&& after.job == (Job::AwaitMessage3 { polls: 100_000, target, keys })
            &&& after.state == s.state
            &&& after.keys == s.keys
            &&& after.commands == s.commands
            &&& s.frame_put_by(after) == Some(
                wpa::signed_key_frame(
                    0x010A,
                    message.replay_counter,
                    snonce,
                    seq![48u8, 20] + ieee80211::rsn_data(),
                    keys.kck,
                ),
            )
        }),
{
    let snonce = state::station_nonce(s.mac);
    let keys = wpa::pairwise_keys(pmk, target.bssid, s.mac, message.nonce, snonce);
    assert(ieee80211::rsn_data().len() == 20);
    assert(state::handshake_rsn() =~= seq![48u8, 20] + ieee80211::rsn_data());
    wpa::lemma_station_message_contents(
        snonce,
        message.replay_counter,
        keys.kck,
        state::handshake_rsn(),
    );
}

/// The station's nonce is made of its address: byte `i` is 109 times the sum of
/// `i` and the address byte `i` modulo 6, modulo 256.
pub proof fn lemma_station_nonce(mac: Seq<u8>, i: int)
    requires
        0 <= i < 32,
    ensures
        state::station_nonce(mac).len() == 32,
        state::station_nonce(mac)[i] == 109 * (mac[i % 6] + i) % 256,
{
    let x = (mac[i % 6] + i) as u32;
    assert((x % 256) * 0x6D % 256 == 109 * x % 256) by (bit_vector)
        requires
            x < 0x1_0000,
    ;
}

// -------------------------------------------------------------------
// From the firmware's first sign of life to association
// -------------------------------------------------------------------

/// The firmware is alive once a response of at least eight bytes begins with 1.
/// The controller then asks for six bytes of the production section. Every other
/// buffer leaves it waiting.
pub proof fn lemma_alive_response(s: Controller, data: Seq<u8>, polls: nat, c: u64, d: u64)
    requires
        s.job == (Job::AwaitAlive { polls }),
        s.meets(data),
        s.has_room(),
    ensures
        ({
            let (after, outcome) = s.polled(c, d);
            &&& outcome == Outcome::Pending
            &&& after.state == s.state
            &&& after.frames == s.frames
            &&& data.len() >= 8 && data[0] == 1 ==> {
                &&& after.job == (Job::AwaitNvm { polls: 1000 })
                &&& s.command_put_by(after) == Some(
                    commands::nvm_read(commands::NvmSection::Production, 0, 6).serialized(
                        s.next_seq,
                    ),
                )
            }
            &&& !(data.len() >= 8 && data[0] == 1) ==> {
                &&& after.job == (Job::AwaitAlive { polls: (polls - 1) as nat })
                &&& s.only_waited(after)
            }
        }),
{
}

/// The station's address is what the first response of at least 14 bytes that
/// begins with 0x88 holds from byte 8 on. The controller is then ready. Every other
/// buffer leaves it waiting.
pub proof fn lemma_address_response(s: Controller, data: Seq<u8>, polls: nat, c: u64, d: u64)
    requires
        s.job == (Job::AwaitNvm { polls }),
        s.meets(data),
    ensures
        ({
            let (after, outcome) = s.polled(c, d);
            &&& data.len() >= 14 && data[0] == 0x88 ==> {
                &&& outcome == Outcome::Done
                &&& after.state == WifiState::Ready
                &&& after.mac == data.subrange(8, 14)
                &&& after.job is Idle
            }
            &&& !(data.len() >= 14 && data[0] == 0x88) ==> {
                &&& outcome == Outcome::Pending
                &&& after.job == (Job::AwaitNvm { polls: (polls - 1) as nat })
                &&& s.only_waited(after)
            }
        }),
{
    if data.len() >= 14 {
        assert(data.skip(8).take(6) =~= data.subrange(8, 14));
    }
}

/// A scan ends with a response of at least eight bytes that begins with 0x84. Every
/// other buffer that holds a beacon is a sighting at -50 dBm, and any buffer but
/// these changes nothing.
pub proof fn lemma_scan_buffer(
    s: Controller,
    data: Seq<u8>,
    polls: nat,
    found: Seq<scan::Network>,
    min_signal: i8,
    c: u64,
    d: u64,
)
    requires
        s.job == (Job::Scan { polls, found, min_signal, login: None }),
        s.meets(data),
    ensures
        ({
            let (after, outcome) = s.polled(c, d);
            let ended = data.len() >= 8 && data[0] == 0x84;
            &&& ended ==> {
                &&& outcome == Outcome::Networks(scan::strongest_first(found))
                &&& after.state == WifiState::Ready
                &&& after.job is Idle
            }
            &&& !ended ==> {
                &&& outcome == Outcome::Pending
                &&& s.only_waited(after)
                &&& after.job == (Job::Scan {
                    polls: (polls - 1) as nat,
                    found: match ieee80211::beacon_of(data) {
                        Some(beacon) => scan::after_beacon(found, beacon, (-50) as i8, min_signal),
                        None => found,
                    },
                    min_signal,
                    login: None,
                })
            }
        }),
{
    ieee80211::lemma_beacon_bytes(data);
}

/// Whether the bytes of a frame make it a management frame of that subtype: the
/// two DS bits decide how long the header is that it has to hold.
pub open spec fn is_management(data: Seq<u8>, subtype: int) -> bool {
    &&& data.len() >= if data[1] % 4 == 3 {
        30int
    } else {
        24
    }
    &&& data[0] / 4 % 4 == 0
    &&& data[0] / 16 == subtype
}

proof fn lemma_management(data: Seq<u8>, subtype: ieee80211::MgmtSubtype)
    ensures
        state::is_mgmt_frame(data, subtype) <==> is_management(data, subtype.number() as int),
{
    ieee80211::lemma_header_bytes(data);
    if let Some(header) = ieee80211::header_of(data) {
        ieee80211::lemma_control_fields(header.frame_control);
        lemma_low_byte(header.frame_control, data[0] as u16, data[1] as u16);
        ieee80211::lemma_frame_numbers();
    }
}

proof fn lemma_low_byte(raw: u16, low: u16, high: u16)
    by (bit_vector)
    requires
        low < 256,
        high < 256,
        raw == low + 256 * high,
    ensures
        raw / 4 % 4 == low / 4 % 4,
        raw / 16 % 16 == low / 16,
{
}

/// The wait for the authentication response ends with every management frame of
/// subtype 11, whatever else it holds. The controller asks for association and
/// announces the station. Every other buffer leaves it waiting.
pub proof fn lemma_auth_response(
    s: Controller,
    data: Seq<u8>,
    polls: nat,
    target: Target,
    c: u64,
    d: u64,
)
    requires
        s.job == (Job::AwaitAuth { polls, target }),
        s.meets(data),
        s.has_room(),
    ensures
        ({
            let (after, outcome) = s.polled(c, d);
            &&& outcome == Outcome::Pending
            &&& is_management(data, 11) ==> {
                &&& after.state == WifiState::Associating
                &&& after.job == (Job::AwaitAssoc { polls: 50_000, target })
                &&& s.frame_put_by(after) == Some(
                    ieee80211::assoc_request(target.bssid, s.mac, target.ssid),
                )
                &&& s.command_put_by(after) == Some(
                    commands::add_station(target.bssid, 0).serialized(s.next_seq),
                )
            }
            &&& !is_management(data, 11) ==> {
                &&& after.job == (Job::AwaitAuth { polls: (polls - 1) as nat, target })
                &&& s.only_waited(after)
            }
        }),
{
    lemma_management(data, ieee80211::MgmtSubtype::Auth);
}

/// The wait for the association response ends with every management frame of
/// subtype 1, whatever else it holds. The controller waits for message 1 with the
/// master key of password and SSID. Every other buffer leaves it waiting.
pub proof fn lemma_assoc_response(
    s: Controller,
    data: Seq<u8>,
    polls: nat,
    target: Target,
    c: u64,
    d: u64,
)
    requires
        s.job == (Job::AwaitAssoc { polls, target }),
        s.meets(data),
    ensures
        ({
            let (after, outcome) = s.polled(c, d);
            &&& outcome == Outcome::Pending
            &&& after.commands == s.commands
            &&& after.frames == s.frames
            &&& is_management(data, 1) ==> {
                &&& after.state == WifiState::Handshaking
                &&& after.job == (Job::AwaitMessage1 {
                    polls: 100_000,
                    target,
                    pmk: wpa::psk(target.password, target.ssid),
                })
            }
            &&& !is_management(data, 1) ==> {
                &&& after.job == (Job::AwaitAssoc { polls: (polls - 1) as nat, target })
                &&& s.only_waited(after)
            }
        }),
{
    lemma_management(data, ieee80211::MgmtSubtype::AssocResponse);
}

/// While the device sends nothing, a wait with polls left goes on, and nothing but
/// the number of polls changes.
pub proof fn lemma_silent_poll(s: Controller, c: u64, d: u64)
    requires
        s.job.polls() > 0,
        s.rx.received(s.statuses) is None,
    ensures
        ({
            let (after, outcome) = s.polled(c, d);
            &&& outcome == Outcome::Pending
            &&& after == Controller { job: after.job, ..s }
            &&& after.job.polls() == s.job.polls() - 1
            &&& after.job is AwaitAlive <==> s.job is AwaitAlive
            &&& after.job is AwaitNvm <==> s.job is AwaitNvm
            &&& s.job matches Job::Scan { polls, found, min_signal, login } ==> after.job
                == (Job::Scan { polls: (polls - 1) as nat, found, min_signal, login })
            &&& s.job matches Job::AwaitAuth { polls, target } ==> after.job == (Job::AwaitAuth {
                polls: (polls - 1) as nat,
                target,
            })
            &&& s.job matches Job::AwaitAssoc { polls, target } ==> after.job == (Job::AwaitAssoc {
                polls: (polls - 1) as nat,
                target,
            })
            &&& s.job matches Job::AwaitMessage1 { polls, target, pmk } ==> after.job
                == (Job::AwaitMessage1 { polls: (polls - 1) as nat, target, pmk })
            &&& s.job matches Job::AwaitMessage3 { polls, target, keys } ==> after.job
                == (Job::AwaitMessage3 { polls: (polls - 1) as nat, target, keys })
        }),
{
}

/// What a wait comes to when its polls are used up. Without an answer the address
/// is 02:00:00:00:00:01, and a scan reports what it has found; everything else
/// fails, and leaves state, queues and keys as they are.
pub proof fn lemma_timeouts(s: Controller, c: u64, d: u64)
    requires
        s.job.polls() == 0,
    ensures
        ({
            let (after, outcome) = s.polled(c, d);
            let stopped = Controller { job: Job::Idle, ..s };
            &&& s.job is Idle ==> (after, outcome) == (s, Outcome::Done)
            &&& s.job is AwaitAlive ==> after == stopped && outcome == Outcome::Failed(
                "firmware alive timeout"@,
            )
            &&& s.job is AwaitNvm ==> outcome == Outcome::Done && after == Controller {
                mac: seq![2u8, 0, 0, 0, 0, 1],
                state: WifiState::Ready,
                ..stopped
            }
            &&& s.job is AwaitAuth ==> after == stopped && outcome == Outcome::Failed(
                "auth response timeout"@,
            )
            &&& s.job is AwaitAssoc ==> after == stopped && outcome == Outcome::Failed(
                "association response timeout"@,
            )
            &&& s.job is AwaitMessage1 || s.job is AwaitMessage3 ==> after == stopped && outcome
                == Outcome::Failed("EAPOL message timeout"@)
            &&& s.job matches Job::Scan { found, login: None, .. } ==> after == Controller {
                state: WifiState::Ready,
                ..stopped
            } && outcome == Outcome::Networks(scan::strongest_first(found))
        }),
{
    assert(state::DEFAULT_MAC@ =~= seq![2u8, 0, 0, 0, 0, 1]);
}

/// Every buffer that the controller meets is read once: the next slot is next, and
/// what the buffers and their statuses hold is left alone.
pub proof fn lemma_buffer_is_read(s: Controller, data: Seq<u8>, c: u64, d: u64)
    requires
        s.meets(data),
    ensures
        ({
            let after = s.polled(c, d).0;
            &&& after.rx.read_idx == s.rx.read_idx + 1
            &&& after.rx.bufs == s.rx.bufs
            &&& after.rx.addrs == s.rx.addrs
            &&& after.statuses == s.statuses
            &&& after.rx.write_idx == s.rx.write_idx + if s.job is AwaitAlive || s.job is AwaitNvm {
                0int
            } else {
                1
            }
        }),
{
}

/// A new controller knows nothing yet: no firmware, no address, no network, no key.
/// Its queues are empty, number 0 for commands and number 1 for data, and the
/// device can fill every receive buffer, each at the physical address of its
/// memory.
pub proof fn lemma_new_controller(
    phys_mem_offset: u64,
    variant: crate::WifiVariant,
    irq_line: u8,
    virt_addrs: Seq<u64>,
    i: int,
)
    requires
        virt_addrs.len() == 256,
        0 <= i < 256,
    ensures
        ({
            let s = Controller::fresh(phys_mem_offset, variant, irq_line, virt_addrs);
            &&& s.phys_mem_offset == phys_mem_offset
            &&& s.variant == variant
            &&& s.irq_line == irq_line
            &&& s.state == WifiState::Uninitialized
            &&& s.job is Idle
            &&& s.mac == seq![0u8, 0, 0, 0, 0, 0]
            &&& s.bssid == seq![0u8, 0, 0, 0, 0, 0]
            &&& s.ssid.len() == 0
            &&& s.channel == 0
            &&& s.keys is None
            &&& s.ip is None
            &&& s.packet_number == 0
            &&& s.next_seq == 0
            &&& s.doorbells.len() == 0
            &&& !s.image_pending
            &&& s.commands.queue_id == 0
            &&& s.commands.outstanding() == 0
            &&& s.frames.queue_id == 1
            &&& s.frames.outstanding() == 0
            &&& s.well_formed()
            &&& s.rx.read_idx == 0
            &&& s.rx.write_idx == 256
            &&& (s.rx.addrs[i] + phys_mem_offset) % 0x1_0000_0000_0000_0000 == virt_addrs[i]
            &&& s.rx.received(s.statuses) is None
        }),
{
    let s = Controller::fresh(phys_mem_offset, variant, irq_line, virt_addrs);
    tx_rx::lemma_physical(virt_addrs[i], phys_mem_offset);
    tx_rx::lemma_unused_ring_is_empty(0);
    tx_rx::lemma_unused_ring_is_empty(1);
    assert(s.mac =~= seq![0u8, 0, 0, 0, 0, 0]);
}

// -------------------------------------------------------------------
// Requests
// -------------------------------------------------------------------

/// A network that was found is tuned to and asked for authentication. Channels up
/// to 14 are in the 2.4 GHz band, all others in the 5 GHz band; the width is 20
/// MHz.
pub proof fn lemma_network_is_chosen(s: Controller, target: Target, c: u64, d: u64)
    requires
        s.has_room(),
    ensures
        ({
            let (after, outcome) = s.chosen(target, c, d);
            &&& outcome == Outcome::Pending
            &&& after.state == WifiState::Authenticating
            &&& after.job == (Job::AwaitAuth { polls: 50_000, target })
            &&& s.frame_put_by(after) == Some(ieee80211::auth_frame(target.bssid, s.mac))
            &&& s.command_put_by(after) == Some(
                commands::phy_context(
                    if target.channel <= 14 {
                        commands::Band::Band2G
                    } else {
                        commands::Band::Band5G
                    },
                    target.channel,
                    commands::ChannelWidth::Mhz20,
                ).serialized(s.next_seq),
            )
        }),
{
}

/// The end of a search for a network: the strongest network with the name asked
/// for is chosen, whatever its other properties are; without one the search fails
/// and the controller is ready again.
pub proof fn lemma_search_ends(
    s: Controller,
    data: Seq<u8>,
    polls: nat,
    found: Seq<scan::Network>,
    min_signal: i8,
    ssid: Seq<char>,
    password: Seq<char>,
    c: u64,
    d: u64,
)
    requires
        s.job == (Job::Scan { polls, found, min_signal, login: Some((ssid, password)) }),
        polls == 0 || (s.meets(data) && data.len() >= 8 && data[0] == 0x84),
    ensures
        ({
            let (after, outcome) = s.polled(c, d);
            let ended = Controller {
                state: WifiState::Ready,
                rx: after.rx,
                ..s
            };
            match state::first_named(scan::strongest_first(found), ssid) {
                Some(network) => (after, outcome) == ended.chosen(
                    Target { ssid, password, bssid: network.bssid, channel: network.channel },
                    c,
                    d,
                ),
                None => outcome == Outcome::Failed("target network not found"@) && after
                    == Controller { job: Job::Idle, ..ended },
            }
        }),
{
}

/// A scan that is asked for while the controller is ready or disconnected is
/// started: the channels and the SSID go to the device, and the controller waits
/// for ten polls per millisecond.
pub proof fn lemma_scan_is_started(s: Controller, plan: scan::ScanPlan, c: u64)
    requires
        s.state is Ready || s.state is Disconnected,
        s.has_room(),
    ensures
        ({
            let (after, error) = s.scan_requested(plan, c);
            &&& error is None
            &&& after.state == WifiState::Scanning
            &&& after.frames == s.frames
            &&& after.job == (Job::Scan {
                polls: (10 * plan.timeout_ms) as nat,
                found: Seq::empty(),
                min_signal: plan.min_signal_dbm,
                login: None,
            })
            &&& s.command_put_by(after) == Some(
                commands::scan_for(
                    plan.effective_channels(),
                    match plan.ssid {
                        Some(name) => Some(vstd::utf8::encode_utf8(name)),
                        None => None,
                    },
                ).serialized(s.next_seq),
            )
        }),
{
}

/// A connection that is asked for while the controller is ready or disconnected
/// begins with a search of three seconds for the name, over all usual channels and
/// down to -90 dBm.
pub proof fn lemma_connection_begins(
    s: Controller,
    ssid: Seq<char>,
    password: Seq<char>,
    channels: Seq<u8>,
    c: u64,
)
    requires
        s.state is Ready || s.state is Disconnected,
        s.has_room(),
        channels == scan::common_channels(),
    ensures
        ({
            let (after, error) = s.connect_requested(ssid, password, c);
            &&& error is None
            &&& after.state == WifiState::Scanning
            &&& after.frames == s.frames
            &&& after.job == (Job::Scan {
                polls: 30_000,
                found: Seq::empty(),
                min_signal: (-90) as i8,
                login: Some((ssid, password)),
            })
            &&& s.command_put_by(after) == Some(
                commands::scan_for(channels, Some(vstd::utf8::encode_utf8(ssid))).serialized(
                    s.next_seq,
                ),
            )
        }),
{
}

/// A connected controller that is told to disconnect takes its leave of the access
/// point and has the station removed; a controller that is not connected does
/// nothing.
pub proof fn lemma_leave_taken(s: Controller, c: u64, d: u64)
    requires
        s.has_room(),
    ensures
        ({
            let (after, error) = s.disconnect_requested(c, d);
            &&& error is None
            &&& !(s.state is Connected) ==> after == s
            &&& s.state is Connected ==> {
                &&& after.state == WifiState::Disconnected
                &&& after.keys is None
                &&& after.packet_number == 0
                &&& after.ip is None
                &&& s.frame_put_by(after) == Some(ieee80211::disassoc_frame(s.bssid, s.mac))
                &&& s.command_put_by(after) == Some(
                    (commands::Command {
                        id: commands::CommandId::RemoveStation,
                        group: 0,
                        data: Seq::empty(),
                    }).serialized(s.next_seq),
                )
            }
        }),
{
}

/// What a full command queue stops, and how far the operation gets. A sequence
/// number is used up each time.
pub proof fn lemma_full_command_queue(
    s: Controller,
    plan: scan::ScanPlan,
    ssid: Seq<char>,
    password: Seq<char>,
    target: Target,
    keys: wpa::PairwiseKeys,
    message: wpa::KeyFrame,
    c: u64,
    d: u64,
)
    requires
        s.commands.full(),
    ensures
        s.alive(c).1 == Outcome::Failed("command queue full"@),
        s.alive(c).0 == (Controller { job: Job::Idle, next_seq: s.alive(c).0.next_seq, ..s }),
        s.state is Ready || s.state is Disconnected ==> {
            let (after, error) = s.scan_requested(plan, c);
            let (after2, error2) = s.connect_requested(ssid, password, c);
            &&& error == Some("command queue full"@)
            &&& error2 == error
            &&& after == Controller {
                job: Job::Idle,
                state: WifiState::Scanning,
                next_seq: after.next_seq,
                ..s
            }
            &&& after2 == after
        },
        ({
            let (after, outcome) = s.chosen(target, c, d);
            &&& outcome == Outcome::Failed("command queue full"@)
            &&& after == Controller { job: Job::Idle, next_seq: after.next_seq, ..s }
        }),
        !s.frames.full() ==> {
            let (after, outcome) = s.authenticated(target, c, d);
            let request = ieee80211::assoc_request(target.bssid, s.mac, target.ssid);
            &&& outcome == Outcome::Failed("command queue full"@)
            &&& after == Controller {
                job: Job::Idle,
                state: WifiState::Associating,
                next_seq: after.next_seq,
                ..s.with_frame(request, d)
            }
        },
        !s.frames.full() ==> {
            let (after, outcome) = s.confirmed(target, keys, message, c, d);
            let reply = wpa::message_4(message.replay_counter, keys.kck);
            &&& outcome == Outcome::Failed("command queue full"@)
            &&& after == Controller {
                job: Job::Idle,
                keys: Some(keys),
                next_seq: after.next_seq,
                ..s.with_frame(reply, d)
            }
        },
        !s.frames.full() && s.state is Connected ==> {
            let (after, error) = s.disconnect_requested(c, d);
            let leave = ieee80211::disassoc_frame(s.bssid, s.mac);
            &&& error == Some("command queue full"@)
            &&& after == Controller { next_seq: after.next_seq, ..s.with_frame(leave, d) }
        },
{
}

/// What a full data queue stops, and how far the operation gets.
pub proof fn lemma_full_data_queue(
    s: Controller,
    target: Target,
    pmk: Seq<u8>,
    keys: wpa::PairwiseKeys,
    message: wpa::KeyFrame,
    c: u64,
    d: u64,
)
    requires
        s.frames.full(),
    ensures
        !s.commands.full() ==> {
            let (after, outcome) = s.chosen(target, c, d);
            &&& outcome == Outcome::Failed("data queue full"@)
            &&& after.state == WifiState::Authenticating
            &&& after.job is Idle
            &&& after.frames == s.frames
        },
        s.authenticated(target, c, d) == (
            Controller { job: Job::Idle, state: WifiState::Associating, ..s },
            Outcome::Failed("data queue full"@),
        ),
        s.greeted(target, pmk, message, d) == (
            Controller { job: Job::Idle, ..s },
            Outcome::Failed("data queue full"@),
        ),
        s.confirmed(target, keys, message, c, d) == (
            Controller { job: Job::Idle, ..s },
            Outcome::Failed("data queue full"@),
        ),
        s.state is Connected ==> s.disconnect_requested(c, d) == (s, Some("data queue full"@)),
{
}

/// A payload of at least 14 bytes that a connected controller is given uses up a
/// packet number even where the data queue is full, and only the queue decides
/// whether it is sent. A shorter payload, or one without keys, changes nothing.
pub proof fn lemma_refused_payload(s: Controller, payload: Seq<u8>, d: u64)
    requires
        s.state is Connected,
        s.packet_number < u64::MAX,
    ensures
        s.keys is None ==> s.transmit_requested(payload, d) == (
            s,
            Some("no PTK — handshake incomplete"@),
        ),
        s.keys is Some && payload.len() < 14 ==> s.transmit_requested(payload, d) == (
            s,
            Some("payload too short"@),
        ),
        s.keys is Some && payload.len() >= 14 && s.frames.full() ==> {
            let (after, error) = s.transmit_requested(payload, d);
            &&& error == Some("data queue full"@)
            &&& after.packet_number == s.packet_number + 1
            &&& after == Controller { packet_number: after.packet_number, ..s }
        },
{
}

/// An image waits for its upload exactly where the file that was read last holds
/// one.
pub proof fn lemma_firmware_is_read(s: Controller, file: Seq<u8>)
    ensures
        s.firmware_read(file) == (Controller {
            image_pending: s.firmware_read(file).image_pending,
            ..s
        }),
        s.firmware_read(file).image_pending <==> crate::firmware::image_of(file) is Some,
{
}

/// What the device writes into the next buffer is what the next poll meets; it
/// changes no other buffer and nothing else.
pub proof fn lemma_device_writes(s: Controller, slot: int, data: Seq<u8>, flags: u16, j: int)
    requires
        s.rx.well_formed(),
        s.statuses.len() == 256,
        0 <= slot < 256,
        data.len() <= 4096,
        0 <= j < 256,
    ensures
        ({
            let after = s.device_wrote(slot, data, flags);
            &&& after == Controller { rx: after.rx, statuses: after.statuses, ..s }
            &&& after.statuses.len() == 256
            &&& after.statuses[slot].len == data.len()
            &&& after.statuses[slot].flags == flags
            &&& after.rx.bufs[slot].take(data.len() as int) == data
            &&& j != slot ==> after.statuses[j] == s.statuses[j] && after.rx.bufs[j] == s.rx.bufs[j]
            &&& after.rx.read_idx == s.rx.read_idx
            &&& after.rx.write_idx == s.rx.write_idx
            &&& after.rx.addrs == s.rx.addrs
            &&& slot == s.rx.read_idx % 256 && data.len() > 0 ==> after.rx.received(after.statuses)
                == Some(data)
        }),
{
    tx_rx::lemma_written_bytes(s.rx, slot, data, j);
    let after = s.device_wrote(slot, data, flags);
    tx_rx::lemma_received_bytes(after.rx, after.statuses);
}

/// An upload that has ended without a failure is followed by a wait of 5000 polls
/// for the firmware; a failure is handed on. Either way the image is used up.
pub proof fn lemma_upload_is_followed_up(s: Controller, failure: Option<Seq<char>>)
    requires
        s.image_pending,
    ensures
        ({
            let (after, error) = s.upload_ended(failure);
            &&& error == failure
            &&& !after.image_pending
            &&& failure is None ==> after.job == (Job::AwaitAlive { polls: 5000 })
            &&& failure is Some ==> after.job == s.job
            &&& after == Controller { image_pending: false, job: after.job, ..s }
        }),
{
}

// -------------------------------------------------------------------
// Packet numbers and data frames
// -------------------------------------------------------------------

/// The cipher header, byte by byte: the two lowest bytes of the packet number, a
/// reserved byte, the flag for an extended IV with key 0, and the four higher
/// bytes.
pub proof fn lemma_cipher_header_bytes(pn: u64)
    requires
        pn < 0x1_0000_0000_0000,
    ensures
        ({
            let header = state::cipher_header(pn);
            &&& header.len() == 8
            &&& header[2] == 0
            &&& header[3] == 0x20
            &&& header[0] + 0x100 * header[1] + 0x1_0000 * header[4] + 0x100_0000 * header[5]
                + 0x1_0000_0000 * header[6] + 0x100_0000_0000 * header[7] == pn
        }),
{
    lemma_number_bytes(pn);
}

proof fn lemma_number_bytes(x: u64)
    by (bit_vector)
    requires
        x < 0x1_0000_0000_0000,
    ensures
        x % 0x100 + 0x100 * (x / 0x100 % 0x100) + 0x1_0000 * (x / 0x1_0000 % 0x100) + 0x100_0000 * (
        x / 0x100_0000 % 0x100) + 0x1_0000_0000 * (x / 0x1_0000_0000 % 0x100) + 0x100_0000_0000 * (x
            / 0x100_0000_0000 % 0x100) == x,
{
}

/// A data frame, part by part: the header to the access point with the number of
/// frames sent before as its sequence number, the cipher header with the next
/// packet number, and the payload from its Ethernet type on, sealed under the
/// temporal key with that number and the first 22 bytes of the header.
pub proof fn lemma_data_frame_parts(s: Controller, tk: Seq<u8>, payload: Seq<u8>)
    requires
        s.mac.len() == 6,
        s.bssid.len() == 6,
        payload.len() >= 14,
        s.packet_number < u64::MAX,
    ensures
        ({
            let frame = s.data_frame(tk, payload);
            let pn = (s.packet_number + 1) as u64;
            &&& frame.take(22) == seq![0x88u8, 0x41, 0, 0] + s.bssid + s.mac + payload.take(6)
            &&& frame[22] + 256 * frame[23] == 16 * (s.packet_number % 4096)
            &&& frame[24] == 0
            &&& frame[25] == 0
            &&& frame.subrange(26, 34) == state::cipher_header(pn)
            &&& frame.skip(34) == ccm::sealed(
                tk,
                ccm::nonce_bytes(0, s.mac, pn),
                frame.take(22),
                payload.skip(12),
            )
        }),
{
    let frame = s.data_frame(tk, payload);
    let header = s.data_header(payload.take(6));
    let pn = (s.packet_number + 1) as u64;
    ieee80211::lemma_qos_data_header_bytes(
        s.bssid,
        s.mac,
        payload.take(6),
        (s.packet_number % 0x1000) as u16,
        0,
    );
    assert(frame.take(22) =~= header.take(22));
    assert(frame.subrange(26, 34) =~= state::cipher_header(pn));
    assert(frame[22] == header[22] && frame[23] == header[23]);
    assert(frame[24] == header[24] && frame[25] == header[25]);
    assert(frame.skip(34) =~= ccm::sealed(
        tk,
        ccm::nonce_bytes(0, s.mac, pn),
        header.take(22),
        payload.skip(12),
    ));
}

// -------------------------------------------------------------------
// What the device is told
// -------------------------------------------------------------------

/// A frame that finds room is put into the next slot of the data queue, with the
/// physical address of its buffer, and the device is told of the slot behind it at
/// 0x1C20; without room nothing happens.
pub proof fn lemma_submitted_frame(s: Controller, frame: Seq<u8>, d: u64)
    requires
        s.frames.well_formed(),
    ensures
        ({
            let after = s.with_frame(frame, d);
            &&& s.frames.full() ==> after == s
            &&& !s.frames.full() ==> {
                &&& after.frames == s.frames.with_frame(
                    frame,
                    tx_rx::physical(d, s.phys_mem_offset),
                )
                &&& after.doorbells.len() == s.doorbells.len() + 1
                &&& after.doorbells.last().offset == 0x1C20
                &&& after.doorbells.last().value == after.frames.write_idx
                &&& after == Controller { frames: after.frames, doorbells: after.doorbells, ..s }
            }
        }),
{
    tx_rx::lemma_doorbells(1, s.frames.with_frame(frame, 0).write_idx);
}

/// A command that finds room is put into the next slot of the command queue under
/// the next sequence number, with the physical address of its buffer, and the
/// device is told of the slot behind it at 0x1C00. The sequence number is used up
/// either way.
pub proof fn lemma_submitted_bytes(s: Controller, command: commands::Command, c: u64)
    requires
        s.commands.well_formed(),
    ensures
        ({
            let after = s.with_command(command, c);
            &&& after.next_seq == if s.next_seq == 0xFFFF {
                0
            } else {
                s.next_seq + 1
            }
            &&& s.commands.full() ==> after == Controller { next_seq: after.next_seq, ..s }
            &&& !s.commands.full() ==> {
                &&& after.commands == s.commands.with_frame(
                    command.serialized(s.next_seq),
                    tx_rx::physical(c, s.phys_mem_offset),
                )
                &&& after.doorbells.len() == s.doorbells.len() + 1
                &&& after.doorbells.last().offset == 0x1C00
                &&& after.doorbells.last().value == after.commands.write_idx
            }
        }),
{
    tx_rx::lemma_doorbells(0, s.commands.with_frame(Seq::empty(), 0).write_idx);
}

} // verus!
