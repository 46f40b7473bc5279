use intel_wifi::ieee80211::BeaconInfo;
use intel_wifi::scan::{ScanConfig, ScanResults, ScannedNetwork};

fn network(last: u8, signal_dbm: i8, ssid: &str) -> ScannedNetwork {
    ScannedNetwork {
        ssid: String::from(ssid),
        bssid: [0, 0, 0, 0, 0, last],
        channel: 6,
        signal_dbm,
        encrypted: true,
        wpa2: true,
        beacon_interval: 100,
    }
}

#[test]
fn signal_names() {
    for (dbm, name) in [
        (0i8, "Excellent"),
        (-40, "Excellent"),
        (-41, "Very Good"),
        (-50, "Very Good"),
        (-51, "Good"),
        (-60, "Good"),
        (-61, "Fair"),
        (-70, "Fair"),
        (-71, "Weak"),
        (-128, "Weak"),
        (1, "Weak"),
    ] {
        assert_eq!(network(1, dbm, "").signal_quality(), name);
    }
}

#[test]
fn default_configuration() {
    let config = ScanConfig::default();
    assert!(config.channels.is_empty());
    assert!(config.ssid.is_none());
    assert_eq!(config.timeout_ms, 5000);
    assert_eq!(config.min_signal_dbm, -90);
    assert_eq!(
        config.channels_to_scan(),
        vec![
            1, 2, 3, 4, 5, 6, 7, 8, 9, 10, 11, 12, 13, 14, 36, 40, 44, 48, 52, 56, 60, 64, 149,
            153, 157, 161, 165
        ]
    );
}

#[test]
fn configured_channels_are_scanned() {
    let mut config = ScanConfig::default();
    config.channels = vec![1, 6, 11];
    assert_eq!(config.channels_to_scan(), vec![1, 6, 11]);
}

#[test]
fn the_strongest_sighting_is_kept() {
    let mut results = ScanResults::new();
    results.add(network(1, -60, "a"));
    results.add(network(2, -50, "b"));
    results.add(network(1, -70, "weaker"));
    results.add(network(1, -60, "same"));
    assert_eq!(results.count(), 2);
    results.add(network(1, -40, "stronger"));
    assert_eq!(results.count(), 2);
    let list = results.finalize();
    assert_eq!(list[0].ssid, "stronger");
    assert_eq!(list[0].signal_dbm, -40);
    assert_eq!(list[1].ssid, "b");
}

#[test]
fn networks_come_strongest_first_and_otherwise_in_order() {
    let mut results = ScanResults::new();
    for (i, dbm) in [-70i8, -40, -70, -90, -40, -40].iter().enumerate() {
        results.add(network(i as u8, *dbm, ""));
    }
    let order: Vec<(i8, u8)> =
        results.finalize().iter().map(|n| (n.signal_dbm, n.bssid[5])).collect();
    assert_eq!(order, vec![(-40, 1), (-40, 4), (-40, 5), (-70, 0), (-70, 2), (-90, 3)]);
}

#[test]
fn nothing_found() {
    let results = ScanResults::new();
    assert_eq!(results.count(), 0);
    assert!(results.finalize().is_empty());
}

#[test]
fn beacons_become_networks_unless_too_weak() {
    let beacon = BeaconInfo {
        bssid: [1, 2, 3, 4, 5, 6],
        ssid: String::from("home"),
        channel: 11,
        beacon_interval: 102,
        capability: 0,
        has_rsn: false,
        is_open: true,
    };
    let mut results = ScanResults::new();
    results.process_beacon(&beacon, -91, -90);
    assert_eq!(results.count(), 0);
    results.process_beacon(&beacon, -90, -90);
    let list = results.finalize();
    assert_eq!(list.len(), 1);
    assert_eq!(list[0].ssid, "home");
    assert_eq!(list[0].bssid, [1, 2, 3, 4, 5, 6]);
    assert_eq!(list[0].channel, 11);
    assert_eq!(list[0].signal_dbm, -90);
    assert!(!list[0].encrypted);
    assert!(!list[0].wpa2);
    assert_eq!(list[0].beacon_interval, 102);
}
