//! Intel WiFi driver (iwlwifi equivalent).
//!
//! Supports the Intel AX201, AX200, AX210, and AC 9260 families. These are all
//! PCIe devices that share the same command/response transport (TFD/RXQ rings)
//! and require firmware microcode loaded into device SRAM before any 802.11
//! operations can proceed.
//!
//! # Architecture
//!
//! ```text
//!   WifiController (driver)           high-level API: scan, connect, disconnect
//!       |
//!   WPA2 handshake (wpa)              4-way handshake, PBKDF2-SHA1, AES-CCMP
//!       |
//!   Scanning (scan)                   active/passive scan, SSID matching
//!       |
//!   Commands (commands)               NVM access, PHY config, scan cmd, assoc
//!       |
//!   TX/RX queues (tx_rx)              TFD ring (transmit), RXQ (receive)
//!       |
//!   Firmware loader (firmware)        microcode upload to device SRAM
//!       |
//!   PCI detection (pci)               vendor 0x8086, device ID matching
//!       |
//!   802.11 frames (ieee80211)         beacon, probe, auth, assoc, data, QoS
//! ```
//!
//! The library touches no hardware. Where the driver has to, it says which
//! register or port it wants accessed and takes the value that was read; where
//! it waits, it is polled.
//!
//! # Firmware requirement
//!
//! Intel WiFi hardware is inert without firmware. The driver must load the
//! appropriate `.ucode` file into device SRAM via the BSM (Bootstrap State
//! Machine) before issuing any commands. See the [`firmware`] module.
use vstd::prelude::*;

pub mod aes;
pub mod bytes;
pub mod ccm;
pub mod commands;
pub mod driver;
pub mod firmware;
pub mod ieee80211;
pub mod pci;
pub mod registers;
pub mod scan;
pub mod sha1;
pub mod tx_rx;
pub mod views;
pub mod wpa;

pub use driver::WifiController;
pub use pci::WifiDevice;
pub use scan::ScannedNetwork;

verus! {

/// Intel WiFi device variant, selected from PCI device ID.
#[derive(Debug, Clone, Copy, PartialEq, Eq, Structural)]
pub enum WifiVariant {
    /// Intel Wireless-AC 9260 (CNVi, 2x2 802.11ac).
    AC9260,
    /// Intel Wi-Fi 6 AX200 (discrete PCIe, 2x2 802.11ax).
    AX200,
    /// Intel Wi-Fi 6 AX201 (CNVi, 2x2 802.11ax). Most common in 10th/11th gen laptops.
    AX201,
    /// Intel Wi-Fi 6E AX210 (discrete PCIe, 2x2 802.11ax with 6 GHz).
    AX210,
}

impl WifiVariant {
    /// Human-readable name for log messages.
    pub fn name(self) -> (name: &'static str)
        ensures
            name@ == match self {
                WifiVariant::AC9260 => "Intel Wireless-AC 9260"@,
                WifiVariant::AX200 => "Intel Wi-Fi 6 AX200"@,
                WifiVariant::AX201 => "Intel Wi-Fi 6 AX201"@,
                WifiVariant::AX210 => "Intel Wi-Fi 6E AX210"@,
            },
    {
        match self {
            WifiVariant::AC9260 => "Intel Wireless-AC 9260",
            WifiVariant::AX200 => "Intel Wi-Fi 6 AX200",
            WifiVariant::AX201 => "Intel Wi-Fi 6 AX201",
            WifiVariant::AX210 => "Intel Wi-Fi 6E AX210",
        }
    }

    /// The firmware image filename expected on the FAT32 persist partition.
    pub fn firmware_name(self) -> (name: &'static str)
        ensures
            name@ == match self {
                WifiVariant::AC9260 => "iwlwifi-9260-th-b0-jf-b0-46.ucode"@,
                WifiVariant::AX200 => "iwlwifi-cc-a0-46.ucode"@,
                WifiVariant::AX201 => "iwlwifi-QuZ-a0-hr-b0-77.ucode"@,
                WifiVariant::AX210 => "iwlwifi-ty-a0-gf-a0-77.ucode"@,
            },
    {
        match self {
            WifiVariant::AC9260 => "iwlwifi-9260-th-b0-jf-b0-46.ucode",
            WifiVariant::AX200 => "iwlwifi-cc-a0-46.ucode",
            WifiVariant::AX201 => "iwlwifi-QuZ-a0-hr-b0-77.ucode",
            WifiVariant::AX210 => "iwlwifi-ty-a0-gf-a0-77.ucode",
        }
    }
}

} // verus!
