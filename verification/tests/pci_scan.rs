use std::collections::BTreeMap;

use intel_wifi::pci;
use intel_wifi::pci::{ConfigAccess, WifiDevice};
use intel_wifi::WifiVariant;

/// Run a scan over a configuration space. Dwords that are not listed read as
/// all ones. Returns what was found and what was written.
fn run(space: &BTreeMap<u32, u32>) -> (Option<WifiDevice>, Vec<(u32, u32)>) {
    let mut scan = pci::scan_pci_bus();
    let mut writes = Vec::new();
    loop {
        match scan.next_access() {
            ConfigAccess::Read { addr } => {
                scan.supply(space.get(&addr).copied().unwrap_or(0xFFFF_FFFF))
            }
            ConfigAccess::Write { addr, value } => {
                writes.push((addr, value));
                scan.supply(0);
            }
            ConfigAccess::Finished { found } => return (found, writes),
        }
    }
}

fn addr(bus: u32, dev: u32, func: u32, offset: u32) -> u32 {
    0x8000_0000 | bus << 16 | dev << 11 | func << 8 | offset
}

fn adapter(space: &mut BTreeMap<u32, u32>, bus: u32, dev: u32, func: u32, device_id: u32) {
    space.insert(addr(bus, dev, func, 0x00), device_id << 16 | 0x8086);
    space.insert(addr(bus, dev, func, 0x04), 0x0010_0401);
    space.insert(addr(bus, dev, func, 0x0C), 0);
    space.insert(addr(bus, dev, func, 0x10), 0xD000_0004);
    space.insert(addr(bus, dev, func, 0x14), 0x0000_0001);
    space.insert(addr(bus, dev, func, 0x3C), 0x0000_010B);
}

#[test]
fn identification() {
    assert!(pci::identify(0x8086, 0x2723) == Some(WifiVariant::AX200));
    assert!(pci::identify(0x8086, 0x2720) == Some(WifiVariant::AX200));
    assert!(pci::identify(0x8086, 0xA0F0) == Some(WifiVariant::AX201));
    assert!(pci::identify(0x8086, 0x7AF0) == Some(WifiVariant::AX201));
    assert!(pci::identify(0x8086, 0x2725) == Some(WifiVariant::AX210));
    assert!(pci::identify(0x8086, 0x2526) == Some(WifiVariant::AC9260));
    assert!(pci::identify(0x8086, 0x0A10) == Some(WifiVariant::AC9260));
    // In two tables
    assert!(pci::identify(0x8086, 0x06F0) == Some(WifiVariant::AX201));
    assert!(pci::identify(0x8086, 0x1234).is_none());
    assert!(pci::identify(0x10EC, 0x2723).is_none());
}

#[test]
fn variant_names() {
    assert_eq!(WifiVariant::AC9260.name(), "Intel Wireless-AC 9260");
    assert_eq!(WifiVariant::AX200.name(), "Intel Wi-Fi 6 AX200");
    assert_eq!(WifiVariant::AX201.name(), "Intel Wi-Fi 6 AX201");
    assert_eq!(WifiVariant::AX210.name(), "Intel Wi-Fi 6E AX210");
    assert_eq!(WifiVariant::AC9260.firmware_name(), "iwlwifi-9260-th-b0-jf-b0-46.ucode");
    assert_eq!(WifiVariant::AX200.firmware_name(), "iwlwifi-cc-a0-46.ucode");
    assert_eq!(WifiVariant::AX201.firmware_name(), "iwlwifi-QuZ-a0-hr-b0-77.ucode");
    assert_eq!(WifiVariant::AX210.firmware_name(), "iwlwifi-ty-a0-gf-a0-77.ucode");
}

#[test]
fn an_adapter_is_found_and_enabled() {
    let mut space = BTreeMap::new();
    adapter(&mut space, 2, 31, 0, 0x2725);
    let (found, writes) = run(&space);
    let device = found.unwrap();
    assert_eq!((device.bus, device.device, device.function), (2, 31, 0));
    assert_eq!(device.device_id, 0x2725);
    assert!(device.variant == WifiVariant::AX210);
    assert_eq!(device.bar0, 0x1_D000_0000);
    assert_eq!(device.irq_line, 0x0B);
    assert_eq!(writes, vec![(addr(2, 31, 0, 0x04), 0x0010_0407)]);
}

#[test]
fn nothing_is_found_on_an_empty_bus() {
    let (found, writes) = run(&BTreeMap::new());
    assert!(found.is_none());
    assert!(writes.is_empty());
}

#[test]
fn the_first_of_two_adapters_is_found() {
    let mut space = BTreeMap::new();
    adapter(&mut space, 5, 0, 0, 0x2723);
    adapter(&mut space, 4, 3, 0, 0xA0F0);
    let device = run(&space).0.unwrap();
    assert_eq!((device.bus, device.device), (4, 3));
    assert!(device.variant == WifiVariant::AX201);
}

#[test]
fn further_functions_are_looked_at_on_intel_multi_function_devices_only() {
    // Function 0 is another Intel device; function 3 is the adapter.
    let mut space = BTreeMap::new();
    adapter(&mut space, 0, 20, 3, 0x02F0);
    space.insert(addr(0, 20, 0, 0x00), 0x1234_8086);
    space.insert(addr(0, 20, 0, 0x0C), 0x0080_0000);
    let device = run(&space).0.unwrap();
    assert_eq!((device.device, device.function), (20, 3));

    // Not a multi-function device
    space.insert(addr(0, 20, 0, 0x0C), 0x0000_0000);
    assert!(run(&space).0.is_none());

    // Function 0 of another vendor
    space.insert(addr(0, 20, 0, 0x00), 0x1234_10EC);
    space.insert(addr(0, 20, 0, 0x0C), 0x0080_0000);
    assert!(run(&space).0.is_none());
}

#[test]
fn the_last_function_is_reached() {
    let mut space = BTreeMap::new();
    adapter(&mut space, 255, 31, 7, 0x2526);
    space.insert(addr(255, 31, 0, 0x00), 0x1234_8086);
    space.insert(addr(255, 31, 0, 0x0C), 0x0080_0000);
    let device = run(&space).0.unwrap();
    assert_eq!((device.bus, device.device, device.function), (255, 31, 7));
}
