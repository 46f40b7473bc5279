//! WiFi network scanning: active and passive scan, SSID filtering,
//! signal strength tracking.
use crate::bytes;
use crate::ieee80211;
use crate::views;
use vstd::prelude::*;

verus! {

// -------------------------------------------------------------------
// Networks
// -------------------------------------------------------------------

/// A discovered WiFi network from a scan.
#[derive(Debug, Clone)]
pub struct ScannedNetwork {
    /// SSID (network name). Empty if hidden.
    pub ssid: String,
    /// BSSID (AP MAC address).
    pub bssid: [u8; 6],
    /// Channel number.
    pub channel: u8,
    /// Signal strength in dBm (negative, higher is better; e.g., -40 is excellent).
    pub signal_dbm: i8,
    /// Whether the network uses encryption (WPA2, WPA3, WEP, etc.).
    pub encrypted: bool,
    /// Whether WPA2 (RSN) was detected.
    pub wpa2: bool,
    /// Beacon interval in TUs.
    pub beacon_interval: u16,
}

/// What a scan knows of a network.
pub ghost struct Network {
    pub ssid: Seq<char>,
    pub bssid: Seq<u8>,
    pub channel: u8,
    pub signal_dbm: i8,
    pub encrypted: bool,
    pub wpa2: bool,
    pub beacon_interval: u16,
}

impl View for ScannedNetwork {
    type V = Network;

    open spec fn view(&self) -> Network {
        Network {
            ssid: self.ssid@,
            bssid: self.bssid@,
            channel: self.channel,
            signal_dbm: self.signal_dbm,
            encrypted: self.encrypted,
            wpa2: self.wpa2,
            beacon_interval: self.beacon_interval,
        }
    }
}

/// The name of a signal strength.
pub open spec fn quality(signal_dbm: i8) -> Seq<char> {
    if -40 <= signal_dbm <= 0 {
        "Excellent"@
    } else if -50 <= signal_dbm < -40 {
        "Very Good"@
    } else if -60 <= signal_dbm < -50 {
        "Good"@
    } else if -70 <= signal_dbm < -60 {
        "Fair"@
    } else {
        "Weak"@
    }
}

impl ScannedNetwork {
    /// Human-readable signal quality description.
    pub fn signal_quality(&self) -> (name: &'static str)
        ensures
            name@ == quality(self.signal_dbm),
    {
        let dbm: i8 = self.signal_dbm;
        if -40 <= dbm && dbm <= 0 {
            "Excellent"
        } else if -50 <= dbm && dbm < -40 {
            "Very Good"
        } else if -60 <= dbm && dbm < -50 {
            "Good"
        } else if -70 <= dbm && dbm < -60 {
            "Fair"
        } else {
            "Weak"
        }
    }
}

// -------------------------------------------------------------------
// Configuration
// -------------------------------------------------------------------

/// Scan configuration.
#[derive(Debug, Clone)]
pub struct ScanConfig {
    /// Channels to scan. If empty, scan all common channels.
    pub channels: Vec<u8>,
    /// SSID to scan for (active scan). If `None`, do a passive scan.
    pub ssid: Option<String>,
    /// Maximum time to wait for scan results, in milliseconds.
    pub timeout_ms: u32,
    /// Minimum signal strength to report (in dBm). Networks weaker than this
    /// are filtered out.
    pub min_signal_dbm: i8,
}

/// What a scan configuration asks for.
pub ghost struct ScanPlan {
    pub channels: Seq<u8>,
    pub ssid: Option<Seq<char>>,
    pub timeout_ms: u32,
    pub min_signal_dbm: i8,
}

impl View for ScanConfig {
    type V = ScanPlan;

    open spec fn view(&self) -> ScanPlan {
        ScanPlan {
            channels: self.channels@,
            ssid: views::optional(self.ssid),
            timeout_ms: self.timeout_ms,
            min_signal_dbm: self.min_signal_dbm,
        }
    }
}

impl ScanPlan {
    /// A passive scan of all common channels for five seconds.
    pub open spec fn usual() -> Self {
        ScanPlan { channels: Seq::empty(), ssid: None, timeout_ms: 5000, min_signal_dbm: (-90) as i8 }
    }

    /// The channels that are scanned.
    pub open spec fn effective_channels(self) -> Seq<u8> {
        if self.channels.len() == 0 {
            common_channels()
        } else {
            self.channels
        }
    }
}

/// The 2.4 GHz channels, then the 5 GHz channels of UNII-1, UNII-2 and UNII-3.
pub open spec fn common_channels() -> Seq<u8> {
    Seq::new(14, |i: int| (i + 1) as u8) + seq![36u8, 40, 44, 48] + seq![52u8, 56, 60, 64] + seq![
        149u8,
        153,
        157,
        161,
        165,
    ]
}

impl Default for ScanConfig {
    fn default() -> (config: Self)
        ensures
            config@ == ScanPlan::usual(),
    {
        let config = ScanConfig {
            channels: Vec::new(),
            ssid: None,
            timeout_ms: 5000,
            min_signal_dbm: -90,
        };
        assert(config@.channels =~= Seq::empty());
        config
    }
}

impl ScanConfig {
    /// Get the channel list to scan, defaulting to standard 2.4 GHz + 5 GHz channels.
    pub fn channels_to_scan(&self) -> (channels: Vec<u8>)
        ensures
            channels@ == self@.effective_channels(),
    {
        let mut channels: Vec<u8> = Vec::new();
        if self.channels.len() != 0 {
            bytes::push_bytes(&mut channels, self.channels.as_slice());
            assert(channels@ =~= self.channels@);
            return channels;
        }
        // 2.4 GHz channels 1-14
        let low: [u8; 14] = [1, 2, 3, 4, 5, 6, 7, 8, 9, 10, 11, 12, 13, 14];
        // 5 GHz UNII-1, UNII-2 and UNII-3 channels
        let unii_1: [u8; 4] = [36, 40, 44, 48];
        let unii_2: [u8; 4] = [52, 56, 60, 64];
        let unii_3: [u8; 5] = [149, 153, 157, 161, 165];
        bytes::push_bytes(&mut channels, low.as_slice());
        bytes::push_bytes(&mut channels, unii_1.as_slice());
        bytes::push_bytes(&mut channels, unii_2.as_slice());
        bytes::push_bytes(&mut channels, unii_3.as_slice());
        assert(low@ =~= Seq::new(14, |i: int| (i + 1) as u8));
        assert(channels@ =~= common_channels());
        channels
    }
}

// -------------------------------------------------------------------
// Results
// -------------------------------------------------------------------

/// The results with one more network: it replaces the entry for its BSSID if
/// its signal is stronger, and comes last if there is no such entry.
pub open spec fn added(list: Seq<Network>, network: Network) -> Seq<Network>
    decreases list.len(),
{
    if list.len() == 0 {
        seq![network]
    } else if list[0].bssid != network.bssid {
        seq![list[0]] + added(list.skip(1), network)
    } else if network.signal_dbm > list[0].signal_dbm {
        list.update(0, network)
    } else {
        list
    }
}

/// The network that a beacon announces.
pub open spec fn announced_by(beacon: ieee80211::Beacon, signal_dbm: i8) -> Network {
    Network {
        ssid: beacon.ssid,
        bssid: beacon.bssid,
        channel: beacon.channel,
        signal_dbm,
        encrypted: !beacon.is_open,
        wpa2: beacon.has_rsn,
        beacon_interval: beacon.beacon_interval,
    }
}

/// The results after a beacon. One that is too weak changes nothing.
pub open spec fn after_beacon(
    list: Seq<Network>,
    beacon: ieee80211::Beacon,
    signal_dbm: i8,
    min_signal: i8,
) -> Seq<Network> {
    if signal_dbm < min_signal {
        list
    } else {
        added(list, announced_by(beacon, signal_dbm))
    }
}

/// `list` with `network` behind the last entry that is not weaker.
pub open spec fn ranked_in(list: Seq<Network>, network: Network) -> Seq<Network>
    decreases list.len(),
{
    if list.len() > 0 && list.last().signal_dbm < network.signal_dbm {
        ranked_in(list.drop_last(), network).push(list.last())
    } else {
        list.push(network)
    }
}

/// The networks in order of falling signal strength, those of the same strength
/// in their given order.
pub open spec fn strongest_first(list: Seq<Network>) -> Seq<Network>
    decreases list.len(),
{
    if list.len() == 0 {
        list
    } else {
        ranked_in(strongest_first(list.drop_last()), list.last())
    }
}

/// Whether no two entries have the same BSSID.
pub open spec fn distinct(list: Seq<Network>) -> bool {
    forall|i: int, j: int|
        0 <= i < j < list.len() ==> (#[trigger] list[i]).bssid != (#[trigger] list[j]).bssid
}

/// Whether there is an entry for the network's BSSID that is at least as strong.
pub open spec fn covers(list: Seq<Network>, network: Network) -> bool {
    exists|i: int|
        0 <= i < list.len() && (#[trigger] list[i]).bssid == network.bssid && list[i].signal_dbm
            >= network.signal_dbm
}

/// Whether every entry has at least the given signal strength.
pub open spec fn all_reach(list: Seq<Network>, min_signal: i8) -> bool {
    forall|i: int| 0 <= i < list.len() ==> (#[trigger] list[i]).signal_dbm >= min_signal
}

/// Whether no entry is stronger than one before it.
pub open spec fn descending(list: Seq<Network>) -> bool {
    forall|i: int, j: int|
        0 <= i <= j < list.len() ==> (#[trigger] list[i]).signal_dbm >= (
        #[trigger] list[j]).signal_dbm
}

/// The entries of one signal strength, in their order.
pub open spec fn of_strength(list: Seq<Network>, signal_dbm: i8) -> Seq<Network> {
    list.filter(|n: Network| n.signal_dbm == signal_dbm)
}

/// Scan result accumulator. Deduplicates by BSSID, keeping the strongest signal.
pub struct ScanResults {
    networks: Vec<ScannedNetwork>,
}

impl View for ScanResults {
    type V = Seq<Network>;

    closed spec fn view(&self) -> Seq<Network> {
        views::each(self.networks@)
    }
}

/// Entries with another BSSID are passed over.
proof fn lemma_added_skips(list: Seq<Network>, network: Network, i: int)
    requires
        0 <= i <= list.len(),
        forall|j: int| 0 <= j < i ==> (#[trigger] list[j]).bssid != network.bssid,
    ensures
        added(list, network) == list.take(i) + added(list.skip(i), network),
    decreases i,
{
    if i == 0 {
        assert(list.skip(0) =~= list);
        assert(list.take(0) + added(list, network) =~= added(list, network));
    } else {
        let rest = list.skip(1);
        lemma_added_skips(rest, network, i - 1);
        assert(rest.skip(i - 1) =~= list.skip(i));
        assert(seq![list[0]] + (rest.take(i - 1) + added(list.skip(i), network)) =~= list.take(i)
            + added(list.skip(i), network));
    }
}

/// Ranking in is insertion behind the last entry that is not weaker.
proof fn lemma_ranked_in_position(list: Seq<Network>, network: Network, p: int)
    requires
        0 <= p <= list.len(),
        p > 0 ==> list[p - 1].signal_dbm >= network.signal_dbm,
        forall|j: int| p <= j < list.len() ==> (#[trigger] list[j]).signal_dbm < network.signal_dbm,
    ensures
        ranked_in(list, network) == list.insert(p, network),
    decreases list.len(),
{
    if p == list.len() {
        assert(list.insert(p, network) =~= list.push(network));
    } else {
        let shorter = list.drop_last();
        lemma_ranked_in_position(shorter, network, p);
        assert(shorter.insert(p, network).push(list.last()) =~= list.insert(p, network));
    }
}

impl ScanResults {
    /// Create a new empty result set.
    pub fn new() -> (results: Self)
        ensures
            results@ == Seq::<Network>::empty(),
    {
        let results = ScanResults { networks: Vec::new() };
        assert(results@ =~= Seq::<Network>::empty());
        results
    }

    /// Add or update a network in the results.
    ///
    /// If a network with the same BSSID already exists, update it only if
    /// the new signal strength is stronger.
    pub fn add(&mut self, network: ScannedNetwork)
        ensures
            final(self)@ == added(old(self)@, network@),
    {
        let ghost list = self@;
        let n: usize = self.networks.len();
        let mut i: usize = 0;
        while i < n
            invariant
                n == self.networks@.len(),
                i <= n,
                self@ == list,
                *self == *old(self),
                forall|j: int| 0 <= j < i ==> (#[trigger] list[j]).bssid != network@.bssid,
            decreases n - i,
        {
            assert(list[i as int] == self.networks@[i as int]@);
            if bytes::same_bytes(self.networks[i].bssid.as_slice(), network.bssid.as_slice()) {
                proof {
                    lemma_added_skips(list, network@, i as int);
                    assert(list.skip(i as int)[0] == list[i as int]);
                }
                if network.signal_dbm > self.networks[i].signal_dbm {
                    self.networks.set(i, network);
                    assert(self@ =~= list.take(i as int) + list.skip(i as int).update(0, network@));
                } else {
                    assert(list.take(i as int) + list.skip(i as int) =~= list);
                }
                return ;
            }
            i += 1;
        }
        proof {
            lemma_added_skips(list, network@, n as int);
            assert(list.skip(n as int).len() == 0);
        }
        self.networks.push(network);
        assert(self@ =~= list.take(n as int) + seq![network@]);
    }

    /// Process a beacon/probe response and extract network info.
    pub fn process_beacon(&mut self, beacon: &ieee80211::BeaconInfo, signal_dbm: i8, min_signal: i8)
        ensures
            final(self)@ == after_beacon(old(self)@, beacon@, signal_dbm, min_signal),
    {
        if signal_dbm < min_signal {
            return ;
        }
        self.add(
            ScannedNetwork {
                ssid: beacon.ssid.clone(),
                bssid: beacon.bssid,
                channel: beacon.channel,
                signal_dbm,
                encrypted: !beacon.is_open,
                wpa2: beacon.has_rsn,
                beacon_interval: beacon.beacon_interval,
            },
        );
    }

    /// Get the final sorted list of networks (strongest signal first).
    pub fn finalize(self) -> (networks: Vec<ScannedNetwork>)
        ensures
            views::each(networks@) == strongest_first(self@),
    {
        let ghost list = self@;
        let mut rest: Vec<ScannedNetwork> = self.networks;
        let mut ranked: Vec<ScannedNetwork> = Vec::with_capacity(rest.len());
        let ghost mut done: int = 0;
        assert(list.take(0) =~= Seq::<Network>::empty());
        assert(list.skip(0) =~= list);
        assert(views::each(ranked@) =~= Seq::<Network>::empty());
        while rest.len() > 0
            invariant
                0 <= done <= list.len(),
                views::each(rest@) == list.skip(done),
                views::each(ranked@) == strongest_first(list.take(done)),
            decreases rest@.len(),
        {
            assert(views::each(rest@).len() == list.len() - done);
            let ghost left = rest@;
            let network: ScannedNetwork = rest.remove(0);
            assert(list.skip(done)[0] == left[0]@);
            assert forall|j: int| 0 <= j < rest@.len() implies rest@[j]@ == list.skip(done + 1)[j] by {
                assert(list.skip(done)[j + 1] == left[j + 1]@);
            }
            assert(views::each(rest@) =~= list.skip(done + 1));
            let ghost before = views::each(ranked@);
            let mut p: usize = ranked.len();
            while p > 0 && ranked[p - 1].signal_dbm < network.signal_dbm
                invariant
                    p <= ranked@.len(),
                    forall|j: int|
                        p <= j < ranked@.len() ==> (#[trigger] ranked@[j]).signal_dbm
                            < network.signal_dbm,
                decreases p,
            {
                p -= 1;
            }
            proof {
                assert(p > 0 ==> before[p - 1] == ranked@[p - 1]@);
                assert forall|j: int| p <= j < before.len() implies (
                #[trigger] before[j]).signal_dbm < network@.signal_dbm by {
                    assert(before[j] == ranked@[j]@);
                }
                lemma_ranked_in_position(before, network@, p as int);
                assert(list.take(done + 1).drop_last() =~= list.take(done));
            }
            ranked.insert(p, network);
            assert(views::each(ranked@) =~= before.insert(p as int, network@));
            proof {
                done = done + 1;
            }
        }
        assert(list.take(done) =~= list);
        ranked
    }

    /// Number of networks discovered so far.
    pub fn count(&self) -> (n: usize)
        ensures
            n == self@.len(),
    {
        self.networks.len()
    }
}

// -------------------------------------------------------------------
// Laws
// -------------------------------------------------------------------

/// Adding a network keeps every entry in its place, with its BSSID and at least
/// its signal strength, touches no entry of another BSSID, and leaves an entry
/// for the added BSSID that is at least as strong as the added network.
pub proof fn lemma_added_entries(list: Seq<Network>, network: Network)
    ensures
        list.len() <= added(list, network).len() <= list.len() + 1,
        forall|i: int|
            0 <= i < list.len() ==> {
                let entry = #[trigger] added(list, network)[i];
                &&& entry.bssid == list[i].bssid
                &&& entry.signal_dbm >= list[i].signal_dbm
                &&& entry == list[i] || entry == network
            },
        covers(added(list, network), network),
        added(list, network).len() == list.len() + 1 ==> {
            &&& added(list, network) == list.push(network)
            &&& forall|i: int| 0 <= i < list.len() ==> (#[trigger] list[i]).bssid != network.bssid
        },
    decreases list.len(),
{
    if list.len() == 0 {
        assert(added(list, network)[0] == network);
        assert(added(list, network) =~= list.push(network));
    } else if list[0].bssid != network.bssid {
        let rest = list.skip(1);
        lemma_added_entries(rest, network);
        let longer = added(rest, network);
        let whole = added(list, network);
        let k = choose|i: int|
            0 <= i < longer.len() && (#[trigger] longer[i]).bssid == network.bssid
                && longer[i].signal_dbm >= network.signal_dbm;
        assert(whole[k + 1] == longer[k]);
        assert forall|i: int| 0 <= i < list.len() implies {
            let entry = #[trigger] whole[i];
            &&& entry.bssid == list[i].bssid
            &&& entry.signal_dbm >= list[i].signal_dbm
            &&& entry == list[i] || entry == network
        } by {
            if i > 0 {
                assert(whole[i] == longer[i - 1]);
                assert(list[i] == rest[i - 1]);
            }
        }
        if whole.len() == list.len() + 1 {
            assert(seq![list[0]] + rest.push(network) =~= list.push(network));
            assert forall|i: int| 0 <= i < list.len() implies (#[trigger] list[i]).bssid
                != network.bssid by {
                if i > 0 {
                    assert(list[i] == rest[i - 1]);
                }
            }
        }
    } else {
        assert(added(list, network)[0].bssid == network.bssid);
    }
}

/// Adding a network never leads to two entries with the same BSSID.
pub proof fn lemma_added_distinct(list: Seq<Network>, network: Network)
    requires
        distinct(list),
    ensures
        distinct(added(list, network)),
{
    lemma_added_entries(list, network);
    let whole = added(list, network);
    assert forall|i: int, j: int| 0 <= i < j < whole.len() implies (#[trigger] whole[i]).bssid != (
    #[trigger] whole[j]).bssid by {
        assert(whole[i].bssid == list[i].bssid);
        if j < list.len() {
            assert(whole[j].bssid == list[j].bssid);
        }
    }
}

/// Adding a network that is strong enough keeps every entry strong enough.
pub proof fn lemma_added_reach(list: Seq<Network>, network: Network, min_signal: i8)
    requires
        all_reach(list, min_signal),
        network.signal_dbm >= min_signal,
    ensures
        all_reach(added(list, network), min_signal),
{
    lemma_added_entries(list, network);
    let whole = added(list, network);
    assert forall|i: int| 0 <= i < whole.len() implies (#[trigger] whole[i]).signal_dbm
        >= min_signal by {
        if i < list.len() {
            assert(whole[i].signal_dbm >= list[i].signal_dbm);
        }
    }
}

/// A network that is stronger than no entry replaces none: it comes last if its
/// BSSID is new, and otherwise nothing changes.
pub proof fn lemma_added_no_stronger(list: Seq<Network>, network: Network)
    requires
        all_reach(list, network.signal_dbm),
    ensures
        added(list, network) == if exists|i: int|
            0 <= i < list.len() && (#[trigger] list[i]).bssid == network.bssid {
            list
        } else {
            list.push(network)
        },
    decreases list.len(),
{
    if list.len() == 0 {
        assert(added(list, network) =~= list.push(network));
    } else if list[0].bssid != network.bssid {
        let rest = list.skip(1);
        lemma_added_no_stronger(rest, network);
        if exists|i: int| 0 <= i < list.len() && (#[trigger] list[i]).bssid == network.bssid {
            let i = choose|i: int|
                0 <= i < list.len() && (#[trigger] list[i]).bssid == network.bssid;
            assert(rest[i - 1].bssid == network.bssid);
            assert(seq![list[0]] + rest =~= list);
        } else {
            assert forall|i: int| 0 <= i < rest.len() implies (#[trigger] rest[i]).bssid
                != network.bssid by {
                assert(rest[i] == list[i + 1]);
            }
            assert(seq![list[0]] + rest.push(network) =~= list.push(network));
        }
    } else {
        assert(list[0].signal_dbm >= network.signal_dbm);
    }
}

/// The results of a series of sightings.
pub open spec fn collected(sightings: Seq<Network>) -> Seq<Network>
    decreases sightings.len(),
{
    if sightings.len() == 0 {
        sightings
    } else {
        added(collected(sightings.drop_last()), sightings.last())
    }
}

/// The results of any series of sightings list each BSSID that was seen exactly
/// once, as it was in one of its strongest sightings.
pub proof fn lemma_collected(sightings: Seq<Network>)
    ensures
        distinct(collected(sightings)),
        forall|k: int|
            0 <= k < sightings.len() ==> covers(collected(sightings), #[trigger] sightings[k]),
        forall|i: int|
            0 <= i < collected(sightings).len() ==> sightings.contains(
                #[trigger] collected(sightings)[i],
            ),
    decreases sightings.len(),
{
    if sightings.len() > 0 {
        let shorter = sightings.drop_last();
        let network = sightings.last();
        let list = collected(shorter);
        let whole = collected(sightings);
        lemma_collected(shorter);
        lemma_added_distinct(list, network);
        lemma_added_entries(list, network);
        assert forall|k: int| 0 <= k < sightings.len() implies covers(
            whole,
            #[trigger] sightings[k],
        ) by {
            if k < shorter.len() {
                lemma_added_covers(list, network, shorter[k]);
            }
        }
        assert forall|i: int| 0 <= i < whole.len() implies sightings.contains(
            #[trigger] whole[i],
        ) by {
            assert(sightings[sightings.len() - 1] == network);
            if i < list.len() && whole[i] == list[i] {
                let k = choose|k: int| 0 <= k < shorter.len() && shorter[k] == list[i];
                assert(sightings[k] == list[i]);
            }
        }
    }
}

/// What was covered stays covered.
proof fn lemma_added_covers(list: Seq<Network>, network: Network, other: Network)
    requires
        covers(list, other),
    ensures
        covers(added(list, network), other),
{
    lemma_added_entries(list, network);
    let i = choose|i: int|
        0 <= i < list.len() && (#[trigger] list[i]).bssid == other.bssid && list[i].signal_dbm
            >= other.signal_dbm;
    assert(added(list, network)[i].bssid == list[i].bssid);
}

/// Ranking a network in keeps a descending list descending, adds nothing but
/// the network, and puts it behind the others of its strength.
proof fn lemma_ranked_in(list: Seq<Network>, network: Network)
    requires
        descending(list),
    ensures
        descending(ranked_in(list, network)),
        ranked_in(list, network).to_multiset() == list.to_multiset().insert(network),
        forall|level: i8| #[trigger]
            of_strength(ranked_in(list, network), level) == of_strength(list.push(network), level),
    decreases list.len(),
{
    broadcast use vstd::seq_lib::group_to_multiset_ensures;

    if list.len() > 0 && list.last().signal_dbm < network.signal_dbm {
        let shorter = list.drop_last();
        let last = list.last();
        let inner = ranked_in(shorter, network);
        let whole = ranked_in(list, network);
        lemma_ranked_in(shorter, network);
        assert(shorter.push(last) =~= list);
        assert forall|i: int| 0 <= i < inner.len() implies (#[trigger] inner[i]).signal_dbm
            >= last.signal_dbm by {
            assert(inner.to_multiset().contains(inner[i]));
            if inner[i] != network {
                assert(shorter.to_multiset().contains(inner[i]));
                assert(shorter.contains(inner[i]));
                let k = choose|k: int| 0 <= k < shorter.len() && shorter[k] == inner[i];
                assert(list[k].signal_dbm >= list[list.len() - 1].signal_dbm);
            }
        }
        assert(descending(whole));
        assert(whole.to_multiset() =~= list.to_multiset().insert(network));
        assert forall|level: i8| #[trigger]
            of_strength(whole, level) == of_strength(list.push(network), level) by {
            let keep = |n: Network| n.signal_dbm == level;
            lemma_filter_push(inner, last, keep);
            lemma_filter_push(shorter, network, keep);
            lemma_filter_push(shorter, last, keep);
            lemma_filter_push(list, network, keep);
            assert(of_strength(inner, level) == of_strength(shorter.push(network), level));
        }
    }
}

/// Filtering a list with one more entry.
proof fn lemma_filter_push(list: Seq<Network>, network: Network, keep: spec_fn(Network) -> bool)
    ensures
        list.push(network).filter(keep) == if keep(network) {
            list.filter(keep).push(network)
        } else {
            list.filter(keep)
        },
{
    reveal(Seq::filter);
    assert(list.push(network).drop_last() =~= list);
}

/// The final list is in order of falling signal strength, holds exactly the
/// networks that were found, and keeps those of the same strength in the order
/// in which they were found.
pub proof fn lemma_strongest_first(list: Seq<Network>)
    ensures
        descending(strongest_first(list)),
        strongest_first(list).to_multiset() == list.to_multiset(),
        strongest_first(list).len() == list.len(),
        forall|level: i8| #[trigger]
            of_strength(strongest_first(list), level) == of_strength(list, level),
    decreases list.len(),
{
    broadcast use vstd::seq_lib::group_to_multiset_ensures;

    if list.len() > 0 {
        let shorter = list.drop_last();
        let network = list.last();
        let inner = strongest_first(shorter);
        lemma_strongest_first(shorter);
        lemma_ranked_in(inner, network);
        assert(shorter.push(network) =~= list);
        assert(strongest_first(list).to_multiset() =~= list.to_multiset());
        assert(strongest_first(list).to_multiset().len() == list.to_multiset().len());
        assert forall|level: i8| #[trigger]
            of_strength(strongest_first(list), level) == of_strength(list, level) by {
            let keep = |n: Network| n.signal_dbm == level;
            lemma_filter_push(inner, network, keep);
            lemma_filter_push(shorter, network, keep);
            assert(of_strength(inner, level) == of_strength(shorter, level));
        }
    }
}

/// Ranking in a network of a new BSSID leads to no repetition.
proof fn lemma_ranked_in_distinct(list: Seq<Network>, network: Network)
    requires
        distinct(list),
        forall|i: int| 0 <= i < list.len() ==> (#[trigger] list[i]).bssid != network.bssid,
    ensures
        distinct(ranked_in(list, network)),
        forall|i: int|
            0 <= i < ranked_in(list, network).len() ==> (#[trigger] ranked_in(list, network)[i])
                == network || list.contains(ranked_in(list, network)[i]),
    decreases list.len(),
{
    if list.len() > 0 && list.last().signal_dbm < network.signal_dbm {
        let shorter = list.drop_last();
        let inner = ranked_in(shorter, network);
        let whole = ranked_in(list, network);
        lemma_ranked_in_distinct(shorter, network);
        assert forall|i: int| 0 <= i < inner.len() implies (#[trigger] inner[i]) == network
            || exists|k: int| 0 <= k < list.len() - 1 && list[k] == inner[i] by {
            if inner[i] != network {
                let k = choose|k: int| 0 <= k < shorter.len() && shorter[k] == inner[i];
                assert(list[k] == inner[i]);
            }
        }
        assert forall|i: int| 0 <= i < whole.len() implies (#[trigger] whole[i]) == network
            || list.contains(whole[i]) by {
            if i < inner.len() {
                assert(whole[i] == inner[i]);
            } else {
                assert(list[list.len() - 1] == whole[i]);
            }
        }
        assert forall|i: int, j: int| 0 <= i < j < whole.len() implies (#[trigger] whole[i]).bssid
            != (#[trigger] whole[j]).bssid by {
            assert(whole[i] == inner[i]);
            if j < inner.len() {
                assert(whole[j] == inner[j]);
            }
        }
    } else {
        assert forall|i: int| 0 <= i < list.len() implies list.contains(#[trigger] list[i]) by {}
        assert forall|i: int| 0 <= i < list.push(network).len() implies (#[trigger] list.push(
            network,
        )[i]) == network || list.contains(list.push(network)[i]) by {
            if i < list.len() {
                assert(list.push(network)[i] == list[i]);
            }
        }
    }
}

/// Sorting leads to no repetition.
pub proof fn lemma_strongest_first_distinct(list: Seq<Network>)
    requires
        distinct(list),
    ensures
        distinct(strongest_first(list)),
        forall|i: int|
            0 <= i < strongest_first(list).len() ==> list.contains(
                #[trigger] strongest_first(list)[i],
            ),
    decreases list.len(),
{
    if list.len() > 0 {
        let shorter = list.drop_last();
        let network = list.last();
        let inner = strongest_first(shorter);
        let whole = strongest_first(list);
        lemma_strongest_first_distinct(shorter);
        assert forall|i: int| 0 <= i < inner.len() implies exists|k: int|
            0 <= k < list.len() - 1 && list[k] == #[trigger] inner[i] by {
            let k = choose|k: int| 0 <= k < shorter.len() && shorter[k] == inner[i];
            assert(list[k] == inner[i]);
        }
        lemma_ranked_in_distinct(inner, network);
        assert forall|i: int| 0 <= i < whole.len() implies list.contains(#[trigger] whole[i]) by {
            if whole[i] == network {
                assert(list[list.len() - 1] == network);
            } else {
                let k = choose|k: int| 0 <= k < inner.len() && inner[k] == whole[i];
                assert(list.contains(inner[k]));
            }
        }
    }
}

/// The quality of a signal by the four levels -70, -60, -50 and -40 dBm: each
/// that the signal reaches makes it one better, and what is above 0 dBm counts as
/// reaching none.
pub proof fn lemma_quality_levels(signal_dbm: i8, reached: int)
    requires
        reached == if signal_dbm > 0 {
            0
        } else {
            (if signal_dbm >= -70 {
                1int
            } else {
                0
            }) + (if signal_dbm >= -60 {
                1int
            } else {
                0
            }) + (if signal_dbm >= -50 {
                1int
            } else {
                0
            }) + (if signal_dbm >= -40 {
                1int
            } else {
                0
            })
        },
    ensures
        reached == 4 ==> quality(signal_dbm) == "Excellent"@,
        reached == 3 ==> quality(signal_dbm) == "Very Good"@,
        reached == 2 ==> quality(signal_dbm) == "Good"@,
        reached == 1 ==> quality(signal_dbm) == "Fair"@,
        reached == 0 ==> quality(signal_dbm) == "Weak"@,
{
}

/// A scan goes over the channels that were asked for, all of them and in their
/// order; where none were, over 1 to 14, 36 to 64 and 149 to 165, in the 5 GHz
/// band every fourth.
pub proof fn lemma_scanned_channels(plan: ScanPlan, k: int)
    ensures
        plan.channels.len() > 0 ==> plan.effective_channels() == plan.channels,
        plan.channels.len() == 0 ==> {
            let list = plan.effective_channels();
            &&& list.len() == 27
            &&& 0 <= k < 14 ==> list[k] == k + 1
            &&& 14 <= k < 22 ==> list[k] == 36 + 4 * (k - 14)
            &&& 22 <= k < 27 ==> list[k] == 149 + 4 * (k - 22)
        },
{
}

/// What one sighting does to the list. The first entry of the same access point
/// gives way to a stronger sighting and stays otherwise; without such an entry
/// the sighting goes to the end. No other entry changes.
pub proof fn lemma_sighting(list: Seq<Network>, network: Network, i: int)
    requires
        0 <= i <= list.len(),
        forall|j: int| 0 <= j < i ==> (#[trigger] list[j]).bssid != network.bssid,
        i < list.len() ==> list[i].bssid == network.bssid,
    ensures
        i == list.len() ==> added(list, network) == list.push(network),
        i < list.len() && network.signal_dbm > list[i].signal_dbm ==> added(list, network)
            == list.update(i, network),
        i < list.len() && network.signal_dbm <= list[i].signal_dbm ==> added(list, network) == list,
{
    lemma_added_skips(list, network, i);
    let rest = list.skip(i);
    let before = list.take(i);
    if i == list.len() {
        assert(before + seq![network] =~= list.push(network));
    } else {
        assert(rest[0] == list[i]);
        assert(before + rest =~= list);
        assert(before + rest.update(0, network) =~= list.update(i, network));
    }
}

/// A beacon below the least signal changes nothing. Any other is a sighting of
/// the network that it announces: encrypted unless it is open, WPA2 where it has
/// an RSN element.
pub proof fn lemma_beacon_is_sighting(
    list: Seq<Network>,
    beacon: ieee80211::Beacon,
    signal_dbm: i8,
    min_signal: i8,
)
    ensures
        signal_dbm < min_signal ==> after_beacon(list, beacon, signal_dbm, min_signal) == list,
        signal_dbm >= min_signal ==> after_beacon(list, beacon, signal_dbm, min_signal) == added(
            list,
            Network {
                ssid: beacon.ssid,
                bssid: beacon.bssid,
                channel: beacon.channel,
                signal_dbm,
                encrypted: !beacon.is_open,
                wpa2: beacon.has_rsn,
                beacon_interval: beacon.beacon_interval,
            },
        ),
{
}

} // verus!
