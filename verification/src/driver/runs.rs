//! Whole operations: what a series of polls comes to, whatever the device does
//! in between.
use super::laws;
use super::state;
use super::state::{Controller, Job, Outcome, Target};
use crate::commands;
use crate::ieee80211;
use crate::scan;
use crate::tx_rx;
use crate::wpa;
use vstd::prelude::*;

verus! {

// -------------------------------------------------------------------
// Series of polls
// -------------------------------------------------------------------

/// One poll: what the device has made of the receive queue by then, and the
/// addresses of the buffers that the poll submits.
pub ghost struct Event {
    pub rx: tx_rx::RxRing,
    pub statuses: Seq<tx_rx::RxStatus>,
    pub c: u64,
    pub d: u64,
}

impl Event {
    /// The buffer that the poll receives, if there is one.
    pub open spec fn heard(self) -> Option<Seq<u8>> {
        self.rx.received(self.statuses)
    }
}

impl Controller {
    /// The controller once the device has made the receive queue what the event
    /// says.
    pub open spec fn meeting(self, event: Event) -> Self {
        Controller { rx: event.rx, statuses: event.statuses, ..self }
    }

    /// What a series of polls comes to. It stops with the first poll that ends
    /// the operation.
    pub open spec fn run(self, events: Seq<Event>) -> (Self, Outcome)
        decreases events.len(),
    {
        if events.len() == 0 {
            (self, Outcome::Pending)
        } else {
            let (next, outcome) = self.meeting(events[0]).polled(events[0].c, events[0].d);
            if outcome is Pending {
                next.run(events.skip(1))
            } else {
                (next, outcome)
            }
        }
    }

    /// Whether two controllers differ in their receive queues and in what they
    /// wait for at most.
    pub open spec fn alike(self, other: Self) -> bool {
        other == Controller { rx: other.rx, statuses: other.statuses, job: other.job, ..self }
    }
}

impl Job {
    /// The same wait with another number of polls left.
    pub open spec fn with_polls(self, polls: nat) -> Job {
        match self {
            Job::Idle => Job::Idle,
            Job::AwaitAlive { .. } => Job::AwaitAlive { polls },
            Job::AwaitNvm { .. } => Job::AwaitNvm { polls },
            Job::Scan { found, min_signal, login, .. } => Job::Scan {
                polls,
                found,
                min_signal,
                login,
            },
            Job::AwaitAuth { target, .. } => Job::AwaitAuth { polls, target },
            Job::AwaitAssoc { target, .. } => Job::AwaitAssoc { polls, target },
            Job::AwaitMessage1 { target, pmk, .. } => Job::AwaitMessage1 { polls, target, pmk },
            Job::AwaitMessage3 { target, keys, .. } => Job::AwaitMessage3 { polls, target, keys },
        }
    }

    /// The frame that a step of connecting waits for.
    pub open spec fn awaited(self) -> Option<Awaited> {
        match self {
            Job::AwaitAuth { .. } => Some(Awaited::AuthResponse),
            Job::AwaitAssoc { .. } => Some(Awaited::AssocResponse),
            Job::AwaitMessage1 { .. } => Some(Awaited::Message { number: 1 }),
            Job::AwaitMessage3 { .. } => Some(Awaited::Message { number: 3 }),
            _ => None,
        }
    }
}

/// A frame that is waited for while connecting.
pub ghost enum Awaited {
    AuthResponse,
    AssocResponse,
    Message { number: u8 },
}

impl Awaited {
    /// Whether a poll receives this frame.
    pub open spec fn heard_in(self, event: Event) -> bool {
        match event.heard() {
            Some(data) => match self {
                Awaited::AuthResponse => state::is_mgmt_frame(data, ieee80211::MgmtSubtype::Auth),
                Awaited::AssocResponse => state::is_mgmt_frame(
                    data,
                    ieee80211::MgmtSubtype::AssocResponse,
                ),
                Awaited::Message { number } => state::key_message(data, number) is Some,
            },
            None => false,
        }
    }

    /// Whether a series of polls brings this frame in time: the last poll receives
    /// it, the polls before receive nothing or anything else, and there are no
    /// more of them than the limit allows.
    pub open spec fn comes_with(self, events: Seq<Event>, limit: nat) -> bool {
        &&& 0 < events.len() <= limit
        &&& self.heard_in(events.last())
        &&& forall|i: int| 0 <= i < events.len() - 1 ==> !self.heard_in(#[trigger] events[i])
    }
}

/// A series of polls after another that has not ended the operation.
proof fn lemma_run_split(s: Controller, a: Seq<Event>, b: Seq<Event>)
    requires
        s.run(a).1 is Pending,
    ensures
        s.run(a + b) == s.run(a).0.run(b),
    decreases a.len(),
{
    if a.len() == 0 {
        assert(a + b =~= b);
    } else {
        let next = s.meeting(a[0]).polled(a[0].c, a[0].d).0;
        assert((a + b).skip(1) =~= a.skip(1) + b);
        lemma_run_split(next, a.skip(1), b);
    }
}

/// While nothing that is waited for comes, a step changes nothing but the receive
/// queue and the number of polls left.
proof fn lemma_waits(s: Controller, events: Seq<Event>)
    requires
        s.job.awaited() is Some,
        events.len() <= s.job.polls(),
        forall|i: int|
            0 <= i < events.len() ==> !s.job.awaited().unwrap().heard_in(#[trigger] events[i]),
    ensures
        s.run(events).1 == Outcome::Pending,
        s.alike(s.run(events).0),
        s.run(events).0.job == s.job.with_polls((s.job.polls() - events.len()) as nat),
    decreases events.len(),
{
    if events.len() > 0 {
        let event = events[0];
        assert(!s.job.awaited().unwrap().heard_in(events[0]));
        let (next, outcome) = s.meeting(event).polled(event.c, event.d);
        let rest = events.skip(1);
        assert(outcome == Outcome::Pending);
        assert(next.job == s.job.with_polls((s.job.polls() - 1) as nat));
        assert(s.alike(next));
        assert forall|i: int| 0 <= i < rest.len() implies !next.job.awaited().unwrap().heard_in(
            #[trigger] rest[i],
        ) by {
            assert(rest[i] == events[i + 1]);
        }
        lemma_waits(next, rest);
    }
}

/// A step ends with the frame that it waits for.
proof fn lemma_step_ends(s: Controller, events: Seq<Event>) -> (before: Controller)
    requires
        s.job.awaited() is Some,
        s.job.awaited().unwrap().comes_with(events, s.job.polls()),
    ensures
        s.alike(before),
        before.job.polls() > 0,
        before.job == s.job.with_polls(before.job.polls()),
        ({
            let event = events.last();
            let (after, outcome) = before.handled(event.heard().unwrap(), event.c, event.d);
            &&& outcome is Pending ==> s.run(events) == (after, Outcome::Pending)
            &&& !(outcome is Pending) ==> s.run(events) == (after, outcome)
        }),
{
    let quiet = events.drop_last();
    let event = events.last();
    assert forall|i: int| 0 <= i < quiet.len() implies !s.job.awaited().unwrap().heard_in(
        #[trigger] quiet[i],
    ) by {
        assert(quiet[i] == events[i]);
    }
    lemma_waits(s, quiet);
    let waited = s.run(quiet).0;
    lemma_run_split(s, quiet, seq![event]);
    assert(quiet + seq![event] =~= events);
    assert(seq![event].skip(1) =~= Seq::<Event>::empty());
    let before = waited.meeting(event).after_read();
    let (after, outcome) = waited.meeting(event).polled(event.c, event.d);
    assert((after, outcome) == before.handled(event.heard().unwrap(), event.c, event.d));
    if outcome is Pending {
        assert(after.run(seq![event].skip(1)) == (after, Outcome::Pending));
    }
    before
}

// -------------------------------------------------------------------
// From the target to the connection
// -------------------------------------------------------------------

proof fn lemma_auth_step(s: Controller, polls: nat, target: Target, events: Seq<Event>)
    requires
        s.commands.well_formed(),
        !s.commands.full(),
        s.frames.well_formed(),
        !s.frames.full(),
        s.job == (Job::AwaitAuth { polls, target }),
        Awaited::AuthResponse.comes_with(events, polls),
    ensures
        ({
            let (after, outcome) = s.run(events);
            &&& outcome == Outcome::Pending
            &&& after.job == (Job::AwaitAssoc { polls: state::RESPONSE_POLLS as nat, target })
            &&& after.mac == s.mac
            &&& after.commands.well_formed()
            &&& after.commands.outstanding() == s.commands.outstanding() + 1
            &&& after.frames.well_formed()
            &&& after.frames.outstanding() == s.frames.outstanding() + 1
        }),
{
    let event = events.last();
    let before = lemma_step_ends(s, events);
    tx_rx::lemma_enqueue_keeps_outstanding(
        s.frames,
        ieee80211::assoc_request(target.bssid, s.mac, target.ssid),
        tx_rx::physical(event.d, s.phys_mem_offset),
    );
    tx_rx::lemma_enqueue_keeps_outstanding(
        s.commands,
        commands::add_station(target.bssid, 0).serialized(s.next_seq),
        tx_rx::physical(event.c, s.phys_mem_offset),
    );
}

proof fn lemma_assoc_step(s: Controller, polls: nat, target: Target, events: Seq<Event>)
    requires
        s.job == (Job::AwaitAssoc { polls, target }),
        Awaited::AssocResponse.comes_with(events, polls),
    ensures
        ({
            let (after, outcome) = s.run(events);
            &&& outcome == Outcome::Pending
            &&& after.job == (Job::AwaitMessage1 {
                polls: state::EAPOL_POLLS as nat,
                target,
                pmk: wpa::psk(target.password, target.ssid),
            })
            &&& after.mac == s.mac
            &&& after.commands == s.commands
            &&& after.frames == s.frames
        }),
{
    let before = lemma_step_ends(s, events);
}

proof fn lemma_message_1_step(
    s: Controller,
    polls: nat,
    target: Target,
    pmk: Seq<u8>,
    events: Seq<Event>,
)
    requires
        s.frames.well_formed(),
        !s.frames.full(),
        s.job == (Job::AwaitMessage1 { polls, target, pmk }),
        (Awaited::Message { number: 1 }).comes_with(events, polls),
    ensures
        ({
            let (after, outcome) = s.run(events);
            let message = state::key_message(events.last().heard().unwrap(), 1).unwrap();
            &&& outcome == Outcome::Pending
            &&& after.job == (Job::AwaitMessage3 {
                polls: state::EAPOL_POLLS as nat,
                target,
                keys: wpa::pairwise_keys(
                    pmk,
                    target.bssid,
                    s.mac,
                    message.nonce,
                    state::station_nonce(s.mac),
                ),
            })
            &&& after.mac == s.mac
            &&& after.commands == s.commands
            &&& after.frames.well_formed()
            &&& after.frames.outstanding() == s.frames.outstanding() + 1
        }),
{
    let event = events.last();
    let before = lemma_step_ends(s, events);
    let message = state::key_message(event.heard().unwrap(), 1).unwrap();
    let snonce = state::station_nonce(s.mac);
    let keys = wpa::pairwise_keys(pmk, target.bssid, s.mac, message.nonce, snonce);
    tx_rx::lemma_enqueue_keeps_outstanding(
        s.frames,
        wpa::message_2(snonce, message.replay_counter, keys.kck, state::handshake_rsn()),
        tx_rx::physical(event.d, s.phys_mem_offset),
    );
}

proof fn lemma_message_3_step(
    s: Controller,
    polls: nat,
    target: Target,
    keys: wpa::PairwiseKeys,
    events: Seq<Event>,
)
    requires
        !s.commands.full(),
        !s.frames.full(),
        s.job == (Job::AwaitMessage3 { polls, target, keys }),
        (Awaited::Message { number: 3 }).comes_with(events, polls),
    ensures
        ({
            let (after, outcome) = s.run(events);
            &&& outcome == Outcome::Done
            &&& after.state is Connected
            &&& after.ssid == target.ssid
            &&& after.bssid == target.bssid
            &&& after.channel == target.channel
            &&& after.keys == Some(keys)
        }),
{
    let before = lemma_step_ends(s, events);
}

/// A station is connected to an access point that answers. If there is room in
/// the queues, and the authentication response, the association response and
/// messages 1 and 3 of the handshake each come in time, whatever else is received
/// before them, the station ends up connected to the target, with the keys that
/// the access point derives from the same passphrase, SSID, addresses and nonces.
pub proof fn lemma_connects(
    s: Controller,
    polls: nat,
    target: Target,
    auth: Seq<Event>,
    assoc: Seq<Event>,
    first: Seq<Event>,
    third: Seq<Event>,
)
    requires
        s.commands.well_formed(),
        s.commands.outstanding() + 2 < tx_rx::TFD_QUEUE_SIZE,
        s.frames.well_formed(),
        s.frames.outstanding() + 3 < tx_rx::TFD_QUEUE_SIZE,
        s.mac.len() == 6,
        target.bssid.len() == 6,
        s.job == (Job::AwaitAuth { polls, target }),
        Awaited::AuthResponse.comes_with(auth, polls),
        Awaited::AssocResponse.comes_with(assoc, state::RESPONSE_POLLS as nat),
        (Awaited::Message { number: 1 }).comes_with(first, state::EAPOL_POLLS as nat),
        (Awaited::Message { number: 3 }).comes_with(third, state::EAPOL_POLLS as nat),
    ensures
        is_connected_to(
            s.run(auth + (assoc + (first + third))),
            target,
            s.mac,
            state::key_message(first.last().heard().unwrap(), 1).unwrap().nonce,
        ),
{
    let pmk = wpa::psk(target.password, target.ssid);
    let message = state::key_message(first.last().heard().unwrap(), 1).unwrap();
    let snonce = state::station_nonce(s.mac);
    let keys = wpa::pairwise_keys(pmk, target.bssid, s.mac, message.nonce, snonce);
    lemma_auth_step(s, polls, target, auth);
    let associating = s.run(auth).0;
    lemma_assoc_step(associating, state::RESPONSE_POLLS as nat, target, assoc);
    let handshaking = associating.run(assoc).0;
    lemma_message_1_step(handshaking, state::EAPOL_POLLS as nat, target, pmk, first);
    let keyed = handshaking.run(first).0;
    lemma_message_3_step(keyed, state::EAPOL_POLLS as nat, target, keys, third);
    lemma_run_split(s, auth, assoc + (first + third));
    lemma_run_split(associating, assoc, first + third);
    lemma_run_split(handshaking, first, third);
    assert(message.nonce.len() == 32);
    wpa::lemma_pairwise_keys_agree(pmk, target.bssid, s.mac, message.nonce, snonce);
}

/// Whether an operation has ended with a connection to the target, under the keys
/// that an access point derives that has sent the given nonce.
pub open spec fn is_connected_to(
    end: (Controller, Outcome),
    target: Target,
    mac: Seq<u8>,
    anonce: Seq<u8>,
) -> bool {
    &&& end.1 == Outcome::Done
    &&& end.0.state is Connected
    &&& end.0.ssid == target.ssid
    &&& end.0.bssid == target.bssid
    &&& end.0.channel == target.channel
    &&& end.0.keys == Some(
        wpa::pairwise_keys(
            wpa::psk(target.password, target.ssid),
            mac,
            target.bssid,
            state::station_nonce(mac),
            anonce,
        ),
    )
}

// -------------------------------------------------------------------
// From the request to the target
// -------------------------------------------------------------------

/// The network that a poll of a scan sees, if it sees one.
pub open spec fn sighting(event: Event) -> Option<scan::Network> {
    match event.heard() {
        Some(data) => match ieee80211::beacon_of(data) {
            Some(beacon) => if data.len() > 30 {
                Some(scan::announced_by(beacon, state::ASSUMED_SIGNAL_DBM))
            } else {
                None
            },
            None => None,
        },
        None => None,
    }
}

/// The networks that a series of polls adds to those found, if none of what it
/// sees is too weak.
pub open spec fn found_by(found: Seq<scan::Network>, events: Seq<Event>) -> Seq<scan::Network>
    decreases events.len(),
{
    if events.len() == 0 {
        found
    } else {
        let shorter = found_by(found, events.drop_last());
        match sighting(events.last()) {
            Some(network) => scan::added(shorter, network),
            None => shorter,
        }
    }
}

/// Whether a poll receives the end of the scan.
pub open spec fn hears_end(event: Event) -> bool {
    event.heard() matches Some(data) && state::is_response(
        data,
        commands::CommandId::ScanComplete,
    )
}

/// A scan collects what it sees.
proof fn lemma_scans(s: Controller, events: Seq<Event>)
    requires
        s.job matches Job::Scan { polls, min_signal, .. } && events.len() <= polls && min_signal
            <= state::ASSUMED_SIGNAL_DBM,
        forall|i: int| 0 <= i < events.len() ==> !hears_end(#[trigger] events[i]),
    ensures
        s.run(events).1 == Outcome::Pending,
        s.alike(s.run(events).0),
        s.job matches Job::Scan { polls, found, min_signal, login } && s.run(events).0.job
            == (Job::Scan {
            polls: (polls - events.len()) as nat,
            found: found_by(found, events),
            min_signal,
            login,
        }),
    decreases events.len(),
{
    if events.len() > 0 {
        let shorter = events.drop_last();
        let event = events.last();
        assert forall|i: int| 0 <= i < shorter.len() implies !hears_end(#[trigger] shorter[i]) by {
            assert(shorter[i] == events[i]);
        }
        lemma_scans(s, shorter);
        lemma_run_split(s, shorter, seq![event]);
        assert(shorter + seq![event] =~= events);
        assert(!hears_end(events[events.len() - 1]));
        let waited = s.run(shorter).0;
        let (after, outcome) = waited.meeting(event).polled(event.c, event.d);
        assert(outcome == Outcome::Pending);
        assert(seq![event].skip(1) =~= Seq::<Event>::empty());
        assert(after.run(seq![event].skip(1)) == (after, Outcome::Pending));
    }
}

/// A scan finds only what was seen, everything of the same strength, and every
/// access point as it was first seen.
proof fn lemma_found_by(events: Seq<Event>)
    ensures
        ({
            let found = found_by(Seq::empty(), events);
            &&& forall|k: int|
                0 <= k < found.len() ==> (#[trigger] found[k]).signal_dbm
                    == state::ASSUMED_SIGNAL_DBM && exists|i: int|
                    0 <= i < events.len() && sighting(#[trigger] events[i]) == Some(found[k])
            &&& forall|i: int|
                0 <= i < events.len() && first_seen(events, i) ==> found.contains(
                    sighting(#[trigger] events[i]).unwrap(),
                )
        }),
    decreases events.len(),
{
    let found = found_by(Seq::empty(), events);
    if events.len() > 0 {
        let shorter = events.drop_last();
        let list = found_by(Seq::empty(), shorter);
        lemma_found_by(shorter);
        if let Some(network) = sighting(events.last()) {
            assert(scan::all_reach(list, network.signal_dbm));
            scan::lemma_added_no_stronger(list, network);
            assert(events[events.len() - 1] == events.last());
        }
        assert(found == list || found == list.push(sighting(events.last()).unwrap()));
        assert forall|k: int| 0 <= k < found.len() implies (#[trigger] found[k]).signal_dbm
            == state::ASSUMED_SIGNAL_DBM && exists|i: int|
            0 <= i < events.len() && sighting(#[trigger] events[i]) == Some(found[k]) by {
            if k < list.len() {
                assert(found[k] == list[k]);
                let i = choose|i: int|
                    0 <= i < shorter.len() && sighting(#[trigger] shorter[i]) == Some(list[k]);
                assert(events[i] == shorter[i]);
            } else {
                assert(sighting(events[events.len() - 1]) == Some(found[k]));
            }
        }
        assert forall|i: int| 0 <= i < events.len() && first_seen(events, i) implies found.contains(
            sighting(#[trigger] events[i]).unwrap(),
        ) by {
            let network = sighting(events[i]).unwrap();
            if i < shorter.len() {
                assert(shorter[i] == events[i]);
                assert forall|j: int| 0 <= j < i implies !same_source(
                    #[trigger] shorter[j],
                    shorter[i],
                ) by {
                    assert(!same_source(events[j], events[i]));
                }
                assert(first_seen(shorter, i));
                let k = choose|k: int| 0 <= k < list.len() && list[k] == network;
                assert(found[k] == network);
            } else {
                assert forall|k: int| 0 <= k < list.len() implies (#[trigger] list[k]).bssid
                    != network.bssid by {
                    let j = choose|j: int|
                        0 <= j < shorter.len() && sighting(#[trigger] shorter[j]) == Some(list[k]);
                    assert(!same_source(events[j], events[i]));
                    assert(shorter[j] == events[j]);
                }
                assert(found == list.push(network));
                assert(found[list.len() as int] == network);
            }
        }
    }
}

/// Whether two polls see the same access point.
pub open spec fn same_source(a: Event, b: Event) -> bool {
    sighting(a) is Some && sighting(b) is Some && sighting(a).unwrap().bssid == sighting(
        b,
    ).unwrap().bssid
}

/// Whether a poll sees an access point that none before it has seen.
pub open spec fn first_seen(events: Seq<Event>, i: int) -> bool {
    &&& sighting(events[i]) is Some
    &&& forall|j: int| 0 <= j < i ==> !same_source(#[trigger] events[j], events[i])
}

/// Whether a scan of `limit` polls ends with the last of a series of polls: it
/// receives the end of the scan, or the polls are used up.
pub open spec fn ends_scan(events: Seq<Event>, limit: nat) -> bool {
    &&& 0 < events.len() <= limit + 1
    &&& events.len() <= limit ==> hears_end(events.last())
    &&& forall|i: int| 0 <= i < events.len() - 1 ==> !hears_end(#[trigger] events[i])
}

/// Number of polls of the scan with which a connection attempt starts.
pub open spec fn search_polls() -> nat {
    (state::CONNECT_SCAN_MS * state::SCAN_POLLS_PER_MS) as nat
}

/// The network to connect to, among those that the polls before the last have
/// seen.
pub open spec fn target_in(search: Seq<Event>, ssid: Seq<char>, password: Seq<char>) -> Target {
    let list = scan::strongest_first(found_by(Seq::empty(), search.drop_last()));
    let network = state::first_named(list, ssid).unwrap();
    Target { ssid, password, bssid: network.bssid, channel: network.channel }
}

/// Whether a poll sees the target.
pub open spec fn is_sighting_of(event: Event, target: Target) -> bool {
    sighting(event) matches Some(network) && network.ssid == target.ssid && network.bssid
        == target.bssid && network.channel == target.channel
}

/// A connection request finds a network that announces itself. If there is room
/// in the queues, and the scan sees an access point with the wanted SSID the
/// first time that it sees it, whatever else is received, the station goes on to
/// authenticate with an access point that it has seen under that SSID.
pub proof fn lemma_finds_target(
    s: Controller,
    ssid: Seq<char>,
    password: Seq<char>,
    c: u64,
    search: Seq<Event>,
    i: int,
)
    requires
        s.accepts_requests(),
        s.commands.well_formed(),
        s.commands.outstanding() + 2 < tx_rx::TFD_QUEUE_SIZE,
        s.frames.well_formed(),
        s.frames.outstanding() + 1 < tx_rx::TFD_QUEUE_SIZE,
        ends_scan(search, search_polls()),
        0 <= i < search.len() - 1,
        first_seen(search, i),
        sighting(search[i]).unwrap().ssid == ssid,
    ensures
        ({
            let (scanning, error) = s.connect_requested(ssid, password, c);
            let (after, outcome) = scanning.run(search);
            let target = target_in(search, ssid, password);
            &&& error is None
            &&& outcome == Outcome::Pending
            &&& after.state is Authenticating
            &&& after.job == (Job::AwaitAuth { polls: state::RESPONSE_POLLS as nat, target })
            &&& exists|k: int|
                0 <= k < search.len() - 1 && is_sighting_of(#[trigger] search[k], target)
            &&& target.bssid.len() == 6
            &&& after.mac == s.mac
            &&& after.commands.well_formed()
            &&& after.commands.outstanding() == s.commands.outstanding() + 2
            &&& after.frames.well_formed()
            &&& after.frames.outstanding() == s.frames.outstanding() + 1
        }),
{
    let (scanning, error) = s.connect_requested(ssid, password, c);
    let seen = search.drop_last();
    let event = search.last();
    let target = target_in(search, ssid, password);
    lemma_search_starts(s, ssid, password, c);
    lemma_target_seen(search, i, ssid, password);
    assert forall|j: int| 0 <= j < seen.len() implies !hears_end(#[trigger] seen[j]) by {
        assert(seen[j] == search[j]);
    }
    lemma_scans(scanning, seen);
    lemma_run_split(scanning, seen, seq![event]);
    assert(seen + seq![event] =~= search);
    let waited = scanning.run(seen).0;
    let before = if waited.job.polls() == 0 {
        waited.meeting(event)
    } else {
        waited.meeting(event).after_read().recycled()
    };
    lemma_chosen(before.with_state(super::WifiState::Ready), target, event.c, event.d);
    let (after, outcome) = waited.meeting(event).polled(event.c, event.d);
    assert((after, outcome) == before.with_state(super::WifiState::Ready).chosen(
        target,
        event.c,
        event.d,
    ));
    assert(seq![event].skip(1) =~= Seq::<Event>::empty());
    assert(after.run(seq![event].skip(1)) == (after, Outcome::Pending));
}

/// A connection request that is accepted starts a scan.
proof fn lemma_search_starts(s: Controller, ssid: Seq<char>, password: Seq<char>, c: u64)
    requires
        s.accepts_requests(),
        s.commands.well_formed(),
        !s.commands.full(),
    ensures
        ({
            let (scanning, error) = s.connect_requested(ssid, password, c);
            &&& error is None
            &&& scanning.job == (Job::Scan {
                polls: search_polls(),
                found: Seq::empty(),
                min_signal: scan::ScanPlan::usual().min_signal_dbm,
                login: Some((ssid, password)),
            })
            &&& scanning.mac == s.mac
            &&& scanning.frames == s.frames
            &&& scanning.commands.well_formed()
            &&& scanning.commands.outstanding() == s.commands.outstanding() + 1
        }),
{
    let request = commands::scan_for(
        scan::ScanPlan::usual().effective_channels(),
        Some(vstd::utf8::encode_utf8(ssid)),
    ).serialized(s.next_seq);
    tx_rx::lemma_enqueue_keeps_outstanding(
        s.commands,
        request,
        tx_rx::physical(c, s.phys_mem_offset),
    );
}

/// With room in the queues, the station turns to a target that was chosen.
proof fn lemma_chosen(s: Controller, target: Target, c: u64, d: u64)
    requires
        s.commands.well_formed(),
        !s.commands.full(),
        s.frames.well_formed(),
        !s.frames.full(),
    ensures
        ({
            let (after, outcome) = s.chosen(target, c, d);
            &&& outcome == Outcome::Pending
            &&& after.state is Authenticating
            &&& after.job == (Job::AwaitAuth { polls: state::RESPONSE_POLLS as nat, target })
            &&& after.mac == s.mac
            &&& after.commands.well_formed()
            &&& after.commands.outstanding() == s.commands.outstanding() + 1
            &&& after.frames.well_formed()
            &&& after.frames.outstanding() == s.frames.outstanding() + 1
        }),
{
    let tune = commands::phy_context(
        state::band_of(target.channel),
        target.channel,
        commands::ChannelWidth::Mhz20,
    ).serialized(s.next_seq);
    tx_rx::lemma_enqueue_keeps_outstanding(
        s.commands,
        tune,
        tx_rx::physical(c, s.phys_mem_offset),
    );
    tx_rx::lemma_enqueue_keeps_outstanding(
        s.frames,
        ieee80211::auth_frame(target.bssid, s.mac),
        tx_rx::physical(d, s.phys_mem_offset),
    );
}

/// The target of a search is an access point that the search has seen.
proof fn lemma_target_seen(search: Seq<Event>, i: int, ssid: Seq<char>, password: Seq<char>)
    requires
        0 <= i < search.len() - 1,
        first_seen(search, i),
        sighting(search[i]).unwrap().ssid == ssid,
    ensures
        ({
            let found = found_by(Seq::empty(), search.drop_last());
            let target = target_in(search, ssid, password);
            &&& state::first_named(scan::strongest_first(found), ssid) is Some
            &&& target.bssid.len() == 6
            &&& exists|k: int|
                0 <= k < search.len() - 1 && is_sighting_of(#[trigger] search[k], target)
        }),
{
    let seen = search.drop_last();
    let found = found_by(Seq::empty(), seen);
    lemma_found_by(seen);
    assert(seen[i] == search[i]);
    assert forall|j: int| 0 <= j < i implies !same_source(#[trigger] seen[j], seen[i]) by {
        assert(seen[j] == search[j]);
    }
    assert(first_seen(seen, i));
    let wanted = sighting(search[i]).unwrap();
    let w = choose|w: int| 0 <= w < found.len() && found[w] == wanted;
    assert(found[w].ssid == ssid);
    laws::lemma_target_is_strongest(found, ssid);
    let network = state::first_named(scan::strongest_first(found), ssid).unwrap();
    let k = choose|k: int| 0 <= k < found.len() && found[k] == network;
    assert(found[k] == network);
    let h = choose|h: int| 0 <= h < seen.len() && sighting(#[trigger] seen[h]) == Some(found[k]);
    assert(seen[h] == search[h]);
    assert(is_sighting_of(search[h], target_in(search, ssid, password)));
}

/// A request to connect leads to a connection. If there is room in the queues, an
/// access point announces the SSID, and it answers each step in time, the station
/// ends up connected to an access point of that SSID, whatever else is received
/// on the way.
pub proof fn lemma_connection_request(
    s: Controller,
    ssid: Seq<char>,
    password: Seq<char>,
    c: u64,
    search: Seq<Event>,
    i: int,
    auth: Seq<Event>,
    assoc: Seq<Event>,
    first: Seq<Event>,
    third: Seq<Event>,
)
    requires
        s.accepts_requests(),
        s.mac.len() == 6,
        s.commands.well_formed(),
        s.commands.outstanding() + 4 < tx_rx::TFD_QUEUE_SIZE,
        s.frames.well_formed(),
        s.frames.outstanding() + 4 < tx_rx::TFD_QUEUE_SIZE,
        ends_scan(search, search_polls()),
        0 <= i < search.len() - 1,
        first_seen(search, i),
        sighting(search[i]).unwrap().ssid == ssid,
        Awaited::AuthResponse.comes_with(auth, state::RESPONSE_POLLS as nat),
        Awaited::AssocResponse.comes_with(assoc, state::RESPONSE_POLLS as nat),
        (Awaited::Message { number: 1 }).comes_with(first, state::EAPOL_POLLS as nat),
        (Awaited::Message { number: 3 }).comes_with(third, state::EAPOL_POLLS as nat),
    ensures
        is_connected_to(
            s.connect_requested(ssid, password, c).0.run(
                search + (auth + (assoc + (first + third))),
            ),
            target_in(search, ssid, password),
            s.mac,
            state::key_message(first.last().heard().unwrap(), 1).unwrap().nonce,
        ),
{
    lemma_finds_target(s, ssid, password, c, search, i);
    let target = target_in(search, ssid, password);
    let scanning = s.connect_requested(ssid, password, c).0;
    let found = scanning.run(search).0;
    lemma_connects(found, state::RESPONSE_POLLS as nat, target, auth, assoc, first, third);
    lemma_run_split(scanning, search, auth + (assoc + (first + third)));
}

} // verus!
