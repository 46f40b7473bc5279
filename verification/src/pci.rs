//! PCI detection for Intel WiFi adapters.
//!
//! All supported adapters are PCI vendor `0x8086` (Intel). Device IDs are
//! mapped to [`WifiVariant`] for family-specific initialization paths.
//!
//! The bus is scanned by a [`BusScan`], which says which dword of the
//! configuration space it wants read or written next. The caller makes the
//! accesses through the I/O ports [`CONFIG_ADDRESS`] and [`CONFIG_DATA`].
use crate::WifiVariant;
use vstd::prelude::*;

verus! {

/// PCI vendor ID for Intel Corporation.
pub const INTEL_VENDOR_ID: u16 = 0x8086;

/// I/O port that takes a configuration address.
pub const CONFIG_ADDRESS: u16 = 0xCF8;

/// I/O port through which the addressed dword is read and written.
pub const CONFIG_DATA: u16 = 0xCFC;

// -------------------------------------------------------------------
// Device IDs, as listed in Linux iwlwifi/pcie/drv.c
// -------------------------------------------------------------------

/// Intel Wireless-AC 9260: the generic adapter and two 9260/9560 CNVi variants.
pub const AC9260_DEVICE_IDS: [u16; 3] = [0x2526, 0x06F0, 0x0A10];

/// Intel Wi-Fi 6 AX200: the discrete PCIe adapter and a variant.
pub const AX200_DEVICE_IDS: [u16; 2] = [0x2723, 0x2720];

/// Intel Wi-Fi 6 AX201 CNVi: Comet Lake, Ice Lake, a variant, Ice Lake-LP,
/// Jasper Lake, Tiger Lake-H, a variant, Alder Lake-P, Raptor Lake and Alder
/// Lake-S.
pub const AX201_DEVICE_IDS: [u16; 10] = [
    0x06F0,
    0xA0F0,
    0x02F0,
    0x34F0,
    0x4DF0,
    0x43F0,
    0xA0F4,
    0x54F0,
    0x51F0,
    0x7AF0,
];

/// Intel Wi-Fi 6E AX210: the discrete PCIe adapter and a variant.
pub const AX210_DEVICE_IDS: [u16; 2] = [0x2725, 0x2726];

/// Result of probing a PCI bus/device/function for an Intel WiFi adapter.
#[derive(Debug, Clone, Copy)]
pub struct WifiDevice {
    /// PCI bus number.
    pub bus: u8,
    /// PCI device number (0..31).
    pub device: u8,
    /// PCI function number (0..7).
    pub function: u8,
    /// PCI device ID.
    pub device_id: u16,
    /// Identified WiFi variant.
    pub variant: WifiVariant,
    /// BAR0 base address (MMIO).
    pub bar0: u64,
    /// Interrupt line from PCI config space.
    pub irq_line: u8,
}

/// The variant with the given PCI IDs. Where an ID is in two tables, AX201 wins.
pub open spec fn variant_with(vendor: u16, device: u16) -> Option<WifiVariant> {
    if vendor != INTEL_VENDOR_ID {
        None
    } else if AX201_DEVICE_IDS@.contains(device) {
        Some(WifiVariant::AX201)
    } else if AX200_DEVICE_IDS@.contains(device) {
        Some(WifiVariant::AX200)
    } else if AX210_DEVICE_IDS@.contains(device) {
        Some(WifiVariant::AX210)
    } else if AC9260_DEVICE_IDS@.contains(device) {
        Some(WifiVariant::AC9260)
    } else {
        None
    }
}

fn listed(table: &[u16], id: u16) -> (found: bool)
    ensures
        found == table@.contains(id),
{
    let n: usize = table.len();
    let mut i: usize = 0;
    while i < n
        invariant
            n == table@.len(),
            i <= n,
            forall|j: int| 0 <= j < i ==> table@[j] != id,
        decreases n - i,
    {
        if table[i] == id {
            return true;
        }
        i += 1;
    }
    false
}

/// Identify an Intel WiFi variant from PCI vendor and device IDs.
///
/// Returns `None` if the device is not a recognized Intel WiFi adapter.
///
/// Note: device ID `0x06F0` appears in both AC9260 and AX201 tables. In
/// practice the subsystem ID disambiguates. We default to AX201 since it is
/// far more common on modern hardware. If disambiguation is needed, pass the
/// subsystem device ID and compare against known values.
pub fn identify(vendor: u16, device: u16) -> (variant: Option<WifiVariant>)
    ensures
        variant == variant_with(vendor, device),
{
    if vendor != INTEL_VENDOR_ID {
        return None;
    }
    // Check AX201 first (most common on real hardware we target).
    if listed(AX201_DEVICE_IDS.as_slice(), device) {
        return Some(WifiVariant::AX201);
    }
    if listed(AX200_DEVICE_IDS.as_slice(), device) {
        return Some(WifiVariant::AX200);
    }
    if listed(AX210_DEVICE_IDS.as_slice(), device) {
        return Some(WifiVariant::AX210);
    }
    if listed(AC9260_DEVICE_IDS.as_slice(), device) {
        return Some(WifiVariant::AC9260);
    }
    None
}

// -------------------------------------------------------------------
// Configuration space
// -------------------------------------------------------------------

/// The configuration address of the dword that holds byte `offset`.
pub open spec fn config_addr(bus: u8, dev: u8, func: u8, offset: u8) -> int {
    0x8000_0000 + 0x1_0000 * bus + 0x800 * dev + 0x100 * func + (offset - offset % 4)
}

/// Two configuration addresses are the same only if they name the same dword of
/// the same function.
pub proof fn lemma_config_addr_unique(
    bus: u8,
    dev: u8,
    func: u8,
    offset: u8,
    bus2: u8,
    dev2: u8,
    func2: u8,
    offset2: u8,
)
    requires
        dev < 32,
        func < 8,
        dev2 < 32,
        func2 < 8,
        config_addr(bus, dev, func, offset) == config_addr(bus2, dev2, func2, offset2),
    ensures
        bus == bus2,
        dev == dev2,
        func == func2,
        offset / 4 == offset2 / 4,
{
}

fn pci_config_addr(bus: u8, dev: u8, func: u8, offset: u8) -> (addr: u32)
    requires
        dev < 32,
        func < 8,
    ensures
        addr == config_addr(bus, dev, func, offset),
{
    0x8000_0000 + 0x1_0000 * (bus as u32) + 0x800 * (dev as u32) + 0x100 * (func as u32) + (
    offset - offset % 4) as u32
}

/// The 16-bit field at `offset`, in the dword that holds it.
pub open spec fn half_in(dword: u32, offset: u8) -> u16 {
    if offset % 4 >= 2 {
        (dword / 0x1_0000) as u16
    } else {
        (dword % 0x1_0000) as u16
    }
}

/// The byte at `offset`, in the dword that holds it.
pub open spec fn byte_in(dword: u32, offset: u8) -> u8 {
    if offset % 4 == 0 {
        (dword % 0x100) as u8
    } else if offset % 4 == 1 {
        (dword / 0x100 % 0x100) as u8
    } else if offset % 4 == 2 {
        (dword / 0x1_0000 % 0x100) as u8
    } else {
        (dword / 0x100_0000) as u8
    }
}

/// The dword with the 16-bit field at `offset` replaced.
pub open spec fn with_half(dword: u32, offset: u8, value: u16) -> u32 {
    if offset % 4 >= 2 {
        (dword % 0x1_0000 + 0x1_0000 * value) as u32
    } else {
        (dword - dword % 0x1_0000 + value) as u32
    }
}

/// Replacing a field changes that field to the new value, and the other field
/// of the dword not at all.
pub proof fn lemma_with_half(dword: u32, offset: u8, value: u16)
    ensures
        half_in(with_half(dword, offset, value), offset) == value,
        offset % 4 >= 2 ==> half_in(with_half(dword, offset, value), 0) == half_in(dword, 0),
        offset % 4 < 2 ==> half_in(with_half(dword, offset, value), 2) == half_in(dword, 2),
{
}

fn pci_read_u16(dword: u32, offset: u8) -> (value: u16)
    ensures
        value == half_in(dword, offset),
{
    if offset % 4 >= 2 {
        (dword / 0x1_0000) as u16
    } else {
        (dword % 0x1_0000) as u16
    }
}

fn pci_read_u8(dword: u32, offset: u8) -> (value: u8)
    ensures
        value == byte_in(dword, offset),
{
    let place: u8 = offset % 4;
    if place == 0 {
        (dword % 0x100) as u8
    } else if place == 1 {
        (dword / 0x100 % 0x100) as u8
    } else if place == 2 {
        (dword / 0x1_0000 % 0x100) as u8
    } else {
        (dword / 0x100_0000) as u8
    }
}

fn pci_write_u16(dword: u32, offset: u8, value: u16) -> (merged: u32)
    ensures
        merged == with_half(dword, offset, value),
{
    if offset % 4 >= 2 {
        dword % 0x1_0000 + 0x1_0000 * (value as u32)
    } else {
        dword - dword % 0x1_0000 + value as u32
    }
}

/// The base address in the dwords of BAR0, without the flags in its low bits.
pub open spec fn base_address(low: u32, high: u32) -> u64 {
    (0x1_0000_0000 * high + (low - low % 16)) as u64
}

// -------------------------------------------------------------------
// Bus scan
// -------------------------------------------------------------------

/// What a bus scan wants next.
#[derive(Debug, Clone, Copy)]
pub enum ConfigAccess {
    /// Read the dword at this configuration address.
    Read { addr: u32 },
    /// Write the dword at this configuration address.
    Write { addr: u32, value: u32 },
    /// Nothing: this is the adapter, if there is one.
    Finished { found: Option<WifiDevice> },
}

/// What a bus scan knows of the function that it is looking at.
#[derive(Debug, Clone, Copy)]
pub enum Probe {
    /// Nothing yet.
    Vendor,
    /// It is an Intel device.
    DeviceId,
    /// It is the given adapter; its BAR0, interrupt line and command register
    /// are read one after another.
    Bar0Low { device_id: u16, variant: WifiVariant },
    Bar0High { device_id: u16, variant: WifiVariant, low: u32 },
    Irq { device_id: u16, variant: WifiVariant, bar0: u64 },
    Command { device: WifiDevice },
    /// Its command register is read again, to be changed to this value.
    Enable { device: WifiDevice, command: u16 },
    /// Its command register is written.
    Store { device: WifiDevice, dword: u32 },
    /// It is function 0 of some other Intel device.
    HeaderType,
    /// The scan has come to an end.
    Finished { found: Option<WifiDevice> },
}

/// A scan of the PCI bus for Intel WiFi devices.
#[derive(Debug, Clone, Copy)]
pub struct BusScan {
    /// Bus of the function that is looked at.
    pub bus: u8,
    /// Device of the function that is looked at.
    pub dev: u8,
    /// The function that is looked at.
    pub func: u8,
    /// What is known of it.
    pub probe: Probe,
}

/// Start a scan of the PCI bus for Intel WiFi devices.
pub fn scan_pci_bus() -> (scan: BusScan)
    ensures
        scan == BusScan::start(),
{
    BusScan { bus: 0, dev: 0, func: 0, probe: Probe::Vendor }
}

impl BusScan {
    /// A scan that has looked at nothing yet.
    pub open spec fn start() -> Self {
        BusScan { bus: 0, dev: 0, func: 0, probe: Probe::Vendor }
    }

    /// Whether the scan is at a function that can exist.
    pub open spec fn well_formed(self) -> bool {
        self.dev < 32 && self.func < 8
    }

    /// The scan at its current function, knowing something else of it.
    pub open spec fn with_probe(self, probe: Probe) -> Self {
        BusScan { probe, ..self }
    }

    /// The scan at the first function of the next device.
    pub open spec fn at_next_device(self) -> Self {
        if self.dev < 31 {
            BusScan { dev: (self.dev + 1) as u8, func: 0, probe: Probe::Vendor, ..self }
        } else if self.bus < 255 {
            BusScan { bus: (self.bus + 1) as u8, dev: 0, func: 0, probe: Probe::Vendor }
        } else {
            self.with_probe(Probe::Finished { found: None })
        }
    }

    /// The scan at the next function.
    pub open spec fn at_next_function(self) -> Self {
        if self.func < 7 {
            BusScan { func: (self.func + 1) as u8, probe: Probe::Vendor, ..self }
        } else {
            self.at_next_device()
        }
    }

    /// The byte of the configuration space that the scan wants next.
    pub open spec fn wanted_offset(self) -> u8 {
        match self.probe {
            Probe::Vendor => 0x00,
            Probe::DeviceId => 0x02,
            Probe::Bar0Low { .. } => 0x10,
            Probe::Bar0High { .. } => 0x14,
            Probe::Irq { .. } => 0x3C,
            Probe::Command { .. } | Probe::Enable { .. } | Probe::Store { .. } => 0x04,
            Probe::HeaderType | Probe::Finished { .. } => 0x0E,
        }
    }

    /// The configuration address of what the scan wants next.
    pub open spec fn wanted_addr(self) -> u32 {
        config_addr(self.bus, self.dev, self.func, self.wanted_offset()) as u32
    }

    /// What the scan wants next.
    pub open spec fn wanted(self) -> ConfigAccess {
        match self.probe {
            Probe::Store { device, dword } => ConfigAccess::Write {
                addr: self.wanted_addr(),
                value: dword,
            },
            Probe::Finished { found } => ConfigAccess::Finished { found },
            _ => ConfigAccess::Read { addr: self.wanted_addr() },
        }
    }

    /// The scan after the wanted access, which has read `dword` if it was a read.
    pub open spec fn after(self, dword: u32) -> Self {
        match self.probe {
            Probe::Vendor => if half_in(dword, 0x00) == INTEL_VENDOR_ID {
                self.with_probe(Probe::DeviceId)
            } else if self.func == 0 {
                // no device at this slot
                self.at_next_device()
            } else {
                self.at_next_function()
            },
            Probe::DeviceId => {
                let device_id = half_in(dword, 0x02);
                match variant_with(INTEL_VENDOR_ID, device_id) {
                    Some(variant) => self.with_probe(Probe::Bar0Low { device_id, variant }),
                    None => if self.func == 0 {
                        self.with_probe(Probe::HeaderType)
                    } else {
                        self.at_next_function()
                    },
                }
            },
            Probe::Bar0Low { device_id, variant } => self.with_probe(
                Probe::Bar0High { device_id, variant, low: dword },
            ),
            Probe::Bar0High { device_id, variant, low } => self.with_probe(
                Probe::Irq { device_id, variant, bar0: base_address(low, dword) },
            ),
            Probe::Irq { device_id, variant, bar0 } => self.with_probe(
                Probe::Command {
                    device: WifiDevice {
                        bus: self.bus,
                        device: self.dev,
                        function: self.func,
                        device_id,
                        variant,
                        bar0,
                        irq_line: byte_in(dword, 0x3C),
                    },
                },
            ),
            Probe::Command { device } => self.with_probe(
                Probe::Enable { device, command: half_in(dword, 0x04) | 0x06 },
            ),
            Probe::Enable { device, command } => self.with_probe(
                Probe::Store { device, dword: with_half(dword, 0x04, command) },
            ),
            Probe::Store { device, dword } => self.with_probe(
                Probe::Finished { found: Some(device) },
            ),
            Probe::HeaderType => if byte_in(dword, 0x0E) < 0x80 {
                // not multi-function: skip functions 1..7
                self.at_next_device()
            } else {
                self.at_next_function()
            },
            Probe::Finished { found } => self,
        }
    }

    /// The access that the scan wants next.
    pub fn next_access(&self) -> (access: ConfigAccess)
        requires
            self.well_formed(),
        ensures
            access == self.wanted(),
    {
        let offset: u8 = match self.probe {
            Probe::Finished { found } => {
                return ConfigAccess::Finished { found };
            },
            Probe::Vendor => 0x00,
            Probe::DeviceId => 0x02,
            Probe::Bar0Low { .. } => 0x10,
            Probe::Bar0High { .. } => 0x14,
            Probe::Irq { .. } => 0x3C,
            Probe::Command { .. } | Probe::Enable { .. } | Probe::Store { .. } => 0x04,
            Probe::HeaderType => 0x0E,
        };
        let addr: u32 = pci_config_addr(self.bus, self.dev, self.func, offset);
        match self.probe {
            Probe::Store { device: _, dword } => ConfigAccess::Write { addr, value: dword },
            _ => ConfigAccess::Read { addr },
        }
    }

    fn go_to_next_device(&mut self)
        requires
            old(self).well_formed(),
        ensures
            *final(self) == old(self).at_next_device(),
    {
        if self.dev < 31 {
            self.dev = self.dev + 1;
            self.func = 0;
            self.probe = Probe::Vendor;
        } else if self.bus < 255 {
            self.bus = self.bus + 1;
            self.dev = 0;
            self.func = 0;
            self.probe = Probe::Vendor;
        } else {
            self.probe = Probe::Finished { found: None };
        }
    }

    fn go_to_next_function(&mut self)
        requires
            old(self).well_formed(),
        ensures
            *final(self) == old(self).at_next_function(),
    {
        if self.func < 7 {
            self.func = self.func + 1;
            self.probe = Probe::Vendor;
        } else {
            self.go_to_next_device();
        }
    }

    /// Take note that the wanted access was made, and of the dword that was
    /// read if it was a read.
    pub fn supply(&mut self, dword: u32)
        requires
            old(self).well_formed(),
        ensures
            final(self).well_formed(),
            *final(self) == old(self).after(dword),
    {
        match self.probe {
            Probe::Vendor => {
                if pci_read_u16(dword, 0x00) == INTEL_VENDOR_ID {
                    self.probe = Probe::DeviceId;
                } else if self.func == 0 {
                    self.go_to_next_device();
                } else {
                    self.go_to_next_function();
                }
            },
            Probe::DeviceId => {
                let device_id: u16 = pci_read_u16(dword, 0x02);
                match identify(INTEL_VENDOR_ID, device_id) {
                    Some(variant) => {
                        self.probe = Probe::Bar0Low { device_id, variant };
                    },
                    None => {
                        if self.func == 0 {
                            self.probe = Probe::HeaderType;
                        } else {
                            self.go_to_next_function();
                        }
                    },
                }
            },
            Probe::Bar0Low { device_id, variant } => {
                self.probe = Probe::Bar0High { device_id, variant, low: dword };
            },
            Probe::Bar0High { device_id, variant, low } => {
                let bar0: u64 = 0x1_0000_0000 * (dword as u64) + (low - low % 16) as u64;
                self.probe = Probe::Irq { device_id, variant, bar0 };
            },
            Probe::Irq { device_id, variant, bar0 } => {
                let device = WifiDevice {
                    bus: self.bus,
                    device: self.dev,
                    function: self.func,
                    device_id,
                    variant,
                    bar0,
                    irq_line: pci_read_u8(dword, 0x3C),
                };
                self.probe = Probe::Command { device };
            },
            Probe::Command { device } => {
                // Enable bus mastering + memory space access
                let command: u16 = pci_read_u16(dword, 0x04) | 0x06;
                self.probe = Probe::Enable { device, command };
            },
            Probe::Enable { device, command } => {
                self.probe = Probe::Store { device, dword: pci_write_u16(dword, 0x04, command) };
            },
            Probe::Store { device, dword: _ } => {
                self.probe = Probe::Finished { found: Some(device) };
            },
            Probe::HeaderType => {
                if pci_read_u8(dword, 0x0E) < 0x80 {
                    self.go_to_next_device();
                } else {
                    self.go_to_next_function();
                }
            },
            Probe::Finished { found: _ } => {},
        }
    }
}

// -------------------------------------------------------------------
// What a scan finds
// -------------------------------------------------------------------

/// The dword of the configuration space that holds byte `offset` of a function.
/// The functions are numbered in the order of the scan: eight per device,
/// 256 per bus.
pub open spec fn dword_at(space: spec_fn(int) -> u32, n: int, offset: u8) -> u32 {
    space(config_addr((n / 256) as u8, (n / 8 % 32) as u8, (n % 8) as u8, offset))
}

/// Whether the `n`th function is an Intel device.
pub open spec fn is_intel(space: spec_fn(int) -> u32, n: int) -> bool {
    half_in(dword_at(space, n, 0x00), 0x00) == INTEL_VENDOR_ID
}

/// Whether the `n`th function is looked at. Functions 1 to 7 are if function 0
/// of their device is an Intel device with several functions.
pub open spec fn is_visited(space: spec_fn(int) -> u32, n: int) -> bool {
    let first = n - n % 8;
    n % 8 == 0 || (is_intel(space, first) && byte_in(dword_at(space, first, 0x0E), 0x0E) >= 0x80)
}

/// The adapter that the `n`th function is, if it is one.
pub open spec fn adapter_at(space: spec_fn(int) -> u32, n: int) -> Option<WifiDevice> {
    let device_id = half_in(dword_at(space, n, 0x02), 0x02);
    if !is_intel(space, n) {
        None
    } else {
        match variant_with(INTEL_VENDOR_ID, device_id) {
            Some(variant) => Some(
                WifiDevice {
                    bus: (n / 256) as u8,
                    device: (n / 8 % 32) as u8,
                    function: (n % 8) as u8,
                    device_id,
                    variant,
                    bar0: base_address(dword_at(space, n, 0x10), dword_at(space, n, 0x14)),
                    irq_line: byte_in(dword_at(space, n, 0x3C), 0x3C),
                },
            ),
            None => None,
        }
    }
}

/// The first adapter among the functions from the `n`th on that are looked at.
pub open spec fn first_adapter(space: spec_fn(int) -> u32, n: int) -> Option<WifiDevice>
    decreases 0x1_0000 - n,
{
    if n >= 0x1_0000 {
        None
    } else if is_visited(space, n) && adapter_at(space, n) is Some {
        adapter_at(space, n)
    } else {
        first_adapter(space, n + 1)
    }
}

impl BusScan {
    /// The number of the function that the scan is at.
    pub open spec fn position(self) -> int {
        256 * self.bus + 8 * self.dev + self.func
    }

    /// A bound on the number of accesses that the scan still wants.
    pub open spec fn accesses_left(self) -> int {
        if self.probe is Finished {
            0
        } else {
            10 * (0x1_0000 - self.position()) + match self.probe {
                Probe::Vendor => 9int,
                Probe::DeviceId => 8,
                Probe::Bar0Low { .. } => 7,
                Probe::Bar0High { .. } => 6,
                Probe::Irq { .. } => 5,
                Probe::Command { .. } => 4,
                Probe::Enable { .. } => 3,
                Probe::Store { .. } => 2,
                Probe::HeaderType => 1,
                Probe::Finished { .. } => 0,
            }
        }
    }

    /// What the scan finds in a configuration space, when every access that it
    /// wants is made there.
    pub open spec fn result_in(self, space: spec_fn(int) -> u32) -> Option<WifiDevice>
        decreases self.accesses_left(),
        when self.well_formed()
    {
        match self.probe {
            Probe::Finished { found } => found,
            _ => self.after(space(self.wanted_addr() as int)).result_in(space),
        }
    }
}

/// Every access brings the scan closer to its end.
pub proof fn lemma_scan_ends(scan: BusScan, dword: u32)
    requires
        scan.well_formed(),
        !(scan.probe is Finished),
    ensures
        scan.after(dword).well_formed(),
        0 <= scan.after(dword).accesses_left() < scan.accesses_left(),
{
}

/// The one write of a scan goes to the command register of the adapter. It sets
/// the bits for memory space access and bus mastering, keeps the other bits as
/// they were read, and keeps the status half of the dword.
pub proof fn lemma_enable_write(scan: BusScan, first: u32, second: u32)
    requires
        scan.well_formed(),
        scan.probe is Command,
    ensures
        scan.after(first).after(second).wanted() matches ConfigAccess::Write { addr, value } && {
            &&& addr == config_addr(scan.bus, scan.dev, scan.func, 0x04)
            &&& half_in(value, 0x04) == half_in(first, 0x04) | 0x06
            &&& half_in(value, 0x04) & 0x06 == 0x06
            &&& half_in(value, 0x06) == half_in(second, 0x06)
        },
{
    let command = half_in(first, 0x04);
    assert((command | 0x06) & 0x06 == 0x06) by (bit_vector);
    lemma_with_half(second, 0x04, command | 0x06);
}

/// Functions that are not looked at, or are no adapters, are passed over.
proof fn lemma_first_adapter_skips(space: spec_fn(int) -> u32, n: int, m: int)
    requires
        0 <= n <= m,
        forall|k: int|
            n <= k < m ==> !(#[trigger] is_visited(space, k)) || adapter_at(space, k) is None,
    ensures
        first_adapter(space, n) == first_adapter(space, m),
    decreases m - n,
{
    if n < m {
        assert(!is_visited(space, n) || adapter_at(space, n) is None);
        lemma_first_adapter_skips(space, n + 1, m);
    }
}

proof fn lemma_position(scan: BusScan)
    requires
        scan.well_formed(),
    ensures
        0 <= scan.position() < 0x1_0000,
        (scan.position() / 256) as u8 == scan.bus,
        (scan.position() / 8 % 32) as u8 == scan.dev,
        (scan.position() % 8) as u8 == scan.func,
        scan.position() % 8 == scan.func,
        forall|space: spec_fn(int) -> u32, offset: u8| #[trigger]
            dword_at(space, scan.position(), offset) == space(
                config_addr(scan.bus, scan.dev, scan.func, offset),
            ),
{
    let n = scan.position();
    assert(n / 256 == scan.bus);
    assert(n / 8 == 32 * scan.bus + scan.dev);
    assert(n / 8 % 32 == scan.dev);
    assert(n % 8 == scan.func);
}

/// An adapter is found once it has been identified.
proof fn lemma_adapter_is_found(scan: BusScan, space: spec_fn(int) -> u32)
    requires
        scan.well_formed(),
        scan.probe is DeviceId,
        is_intel(space, scan.position()),
        adapter_at(space, scan.position()) is Some,
    ensures
        scan.result_in(space) == adapter_at(space, scan.position()),
{
    let n = scan.position();
    lemma_position(scan);
    let low = scan.after(dword_at(space, n, 0x02));
    let high = low.after(dword_at(space, n, 0x10));
    let irq = high.after(dword_at(space, n, 0x14));
    let command = irq.after(dword_at(space, n, 0x3C));
    let enable = command.after(dword_at(space, n, 0x04));
    let store = enable.after(dword_at(space, n, 0x04));
    let finished = store.after(dword_at(space, n, 0x04));
    assert(scan.result_in(space) == low.result_in(space));
    assert(low.result_in(space) == high.result_in(space));
    assert(high.result_in(space) == irq.result_in(space));
    assert(irq.result_in(space) == command.result_in(space));
    assert(command.result_in(space) == enable.result_in(space));
    assert(enable.result_in(space) == store.result_in(space));
    assert(store.result_in(space) == finished.result_in(space));
}

/// From a function that is looked at, the scan finds the first adapter.
proof fn lemma_scan_from(scan: BusScan, space: spec_fn(int) -> u32)
    requires
        scan.well_formed(),
        scan.probe is Vendor,
        is_visited(space, scan.position()),
    ensures
        scan.result_in(space) == first_adapter(space, scan.position()),
    decreases scan.accesses_left(), 1int,
{
    let n = scan.position();
    lemma_position(scan);
    let known = scan.after(dword_at(space, n, 0x00));
    let listed = known.after(dword_at(space, n, 0x02));
    let headed = listed.after(dword_at(space, n, 0x0E));
    assert(scan.result_in(space) == known.result_in(space));
    if is_intel(space, n) {
        assert(known == scan.with_probe(Probe::DeviceId));
        assert(known.result_in(space) == listed.result_in(space));
        if adapter_at(space, n) is Some {
            lemma_adapter_is_found(known, space);
        } else if scan.func == 0 {
            assert(listed.result_in(space) == headed.result_in(space));
            if byte_in(dword_at(space, n, 0x0E), 0x0E) >= 0x80 {
                lemma_scan_on(scan, space, headed);
            } else {
                lemma_scan_past_device(scan, space, headed);
            }
        } else {
            lemma_scan_on(scan, space, listed);
        }
    } else if scan.func == 0 {
        lemma_scan_past_device(scan, space, known);
    } else {
        lemma_scan_on(scan, space, known);
    }
}

/// The scan goes on to the next function.
proof fn lemma_scan_on(scan: BusScan, space: spec_fn(int) -> u32, next: BusScan)
    requires
        scan.well_formed(),
        scan.probe is Vendor,
        is_visited(space, scan.position()),
        adapter_at(space, scan.position()) is None,
        scan.func == 0 ==> is_visited(space, scan.position() + 1),
        next == scan.at_next_function(),
    ensures
        next.result_in(space) == first_adapter(space, scan.position()),
    decreases scan.accesses_left(), 0int,
{
    let n = scan.position();
    lemma_position(scan);
    if next.probe is Finished {
        assert(n == 0xFFFF);
    } else {
        lemma_position(next);
        assert(next.position() == n + 1);
        assert((n + 1) % 8 != 0 ==> (n + 1) - (n + 1) % 8 == n - n % 8);
        lemma_scan_from(next, space);
    }
    lemma_first_adapter_skips(space, n, n + 1);
}

/// The scan goes on to the next device.
proof fn lemma_scan_past_device(scan: BusScan, space: spec_fn(int) -> u32, next: BusScan)
    requires
        scan.well_formed(),
        scan.probe is Vendor,
        scan.func == 0,
        adapter_at(space, scan.position()) is None,
        !is_visited(space, scan.position() + 1),
        next == scan.at_next_device(),
    ensures
        next.result_in(space) == first_adapter(space, scan.position()),
    decreases scan.accesses_left(), 0int,
{
    let n = scan.position();
    lemma_position(scan);
    assert((n + 1) % 8 == 1 && (n + 1) - (n + 1) % 8 == n);
    assert forall|k: int| n <= k < n + 8 implies !(#[trigger] is_visited(space, k)) || adapter_at(
        space,
        k,
    ) is None by {
        if k > n {
            assert(k - k % 8 == n);
        }
    }
    lemma_first_adapter_skips(space, n, n + 8);
    if !(next.probe is Finished) {
        lemma_position(next);
        assert(next.position() == n + 8);
        lemma_scan_from(next, space);
    }
}

/// A scan finds the first adapter in the order of bus, device and function, and
/// finds none only if there is none among the functions that it looks at.
pub proof fn lemma_scan_finds_first_adapter(space: spec_fn(int) -> u32)
    ensures
        BusScan::start().result_in(space) == first_adapter(space, 0),
{
    lemma_scan_from(BusScan::start(), space);
}

/// The device IDs of each variant, vendor by vendor: only Intel's count.
pub proof fn lemma_variant_ids(vendor: u16, device: u16)
    ensures
        vendor != 0x8086 ==> variant_with(vendor, device) is None,
        variant_with(0x8086, device) == Some(WifiVariant::AX201) <==> device == 0x06F0 || device
            == 0xA0F0 || device == 0x02F0 || device == 0x34F0 || device == 0x4DF0 || device == 0x43F0
            || device == 0xA0F4 || device == 0x54F0 || device == 0x51F0 || device == 0x7AF0,
        variant_with(0x8086, device) == Some(WifiVariant::AX200) <==> device == 0x2723 || device
            == 0x2720,
        variant_with(0x8086, device) == Some(WifiVariant::AX210) <==> device == 0x2725 || device
            == 0x2726,
        variant_with(0x8086, device) == Some(WifiVariant::AC9260) <==> device == 0x2526 || device
            == 0x0A10,
{
    let ax201 = AX201_DEVICE_IDS@;
    let ax200 = AX200_DEVICE_IDS@;
    let ax210 = AX210_DEVICE_IDS@;
    let ac9260 = AC9260_DEVICE_IDS@;
    assert(ax201 =~= seq![
        0x06F0u16,
        0xA0F0,
        0x02F0,
        0x34F0,
        0x4DF0,
        0x43F0,
        0xA0F4,
        0x54F0,
        0x51F0,
        0x7AF0,
    ]);
    assert(ax200 =~= seq![0x2723u16, 0x2720]);
    assert(ax210 =~= seq![0x2725u16, 0x2726]);
    assert(ac9260 =~= seq![0x2526u16, 0x06F0, 0x0A10]);
    assert(ax201[0] == 0x06F0 && ax201[1] == 0xA0F0 && ax201[2] == 0x02F0 && ax201[3] == 0x34F0
        && ax201[4] == 0x4DF0 && ax201[5] == 0x43F0 && ax201[6] == 0xA0F4 && ax201[7] == 0x54F0
        && ax201[8] == 0x51F0 && ax201[9] == 0x7AF0);
    assert(ax200[0] == 0x2723 && ax200[1] == 0x2720);
    assert(ax210[0] == 0x2725 && ax210[1] == 0x2726);
    assert(ac9260[0] == 0x2526 && ac9260[1] == 0x06F0 && ac9260[2] == 0x0A10);
}

/// Where the configuration space of function `n` begins, in the order of bus,
/// device and function.
pub open spec fn function_base(n: int) -> int {
    0x8000_0000 + 256 * n
}

proof fn lemma_dword_at(space: spec_fn(int) -> u32, n: int, offset: u8)
    requires
        0 <= n < 0x1_0000,
    ensures
        dword_at(space, n, offset) == space(function_base(n) + 4 * (offset as int / 4)),
{
    let bus = n / 256;
    let dev = n / 8 % 32;
    let func = n % 8;
    assert(n == 256 * bus + 8 * dev + func);
    assert(offset - offset % 4 == 4 * (offset as int / 4));
}

/// What a function's configuration space says of the adapter there: vendor and
/// device ID in the halves of the first double word, the interrupt line in the
/// lowest byte of the one at 0x3C. The base address is the 64-bit value at 0x10
/// with its four lowest bits, and no others, cleared.
pub proof fn lemma_adapter_dwords(space: spec_fn(int) -> u32, n: int)
    requires
        0 <= n < 0x1_0000,
    ensures
        ({
            let base = function_base(n);
            let vendor = space(base) % 0x1_0000;
            let device_id = (space(base) / 0x1_0000) as u16;
            let bar = 0x1_0000_0000 * space(base + 0x14) + space(base + 0x10);
            &&& adapter_at(space, n) is Some <==> vendor == 0x8086 && variant_with(
                0x8086,
                device_id,
            ) is Some
            &&& adapter_at(space, n) matches Some(device) ==> {
                &&& 256 * device.bus + 8 * device.device + device.function == n
                &&& device.device < 32
                &&& device.function < 8
                &&& device.device_id == device_id
                &&& variant_with(0x8086, device_id) == Some(device.variant)
                &&& device.bar0 % 16 == 0
                &&& device.bar0 <= bar < device.bar0 + 16
                &&& device.irq_line == space(base + 0x3C) % 256
            }
        }),
{
    lemma_dword_at(space, n, 0x00);
    lemma_dword_at(space, n, 0x02);
    lemma_dword_at(space, n, 0x10);
    lemma_dword_at(space, n, 0x14);
    lemma_dword_at(space, n, 0x3C);
    lemma_base_address(space(function_base(n) + 0x10), space(function_base(n) + 0x14));
    assert(n == 256 * (n / 256) + 8 * (n / 8 % 32) + n % 8);
}

proof fn lemma_base_address(low: u32, high: u32)
    ensures
        base_address(low, high) % 16 == 0,
        base_address(low, high) <= 0x1_0000_0000 * high + low < base_address(low, high) + 16,
{
    let q = low / 16;
    assert(low - low % 16 == 16 * q);
    assert(base_address(low, high) == 16 * (0x1000_0000 * high + q));
}

/// Whether a scan looks at function `n`, by what configuration space holds: at
/// every function 0, and at the others where function 0 is Intel's and bit 7 of
/// its header type is set.
pub proof fn lemma_visited_dwords(space: spec_fn(int) -> u32, n: int)
    requires
        0 <= n < 0x1_0000,
    ensures
        ({
            let first = function_base(n - n % 8);
            is_visited(space, n) <==> n % 8 == 0 || (space(first) % 0x1_0000 == 0x8086 && space(
                first + 0x0C,
            ) / 0x80_0000 % 2 == 1)
        }),
{
    let m = n - n % 8;
    let first = function_base(m);
    lemma_dword_at(space, m, 0x00);
    lemma_dword_at(space, m, 0x0E);
    let dword = space(first + 0x0C);
    assert((dword / 0x1_0000 % 0x100 >= 0x80) == (dword / 0x80_0000 % 2 == 1)) by (bit_vector);
}

proof fn lemma_first_adapter(space: spec_fn(int) -> u32, n: int) -> (m: int)
    requires
        0 <= n <= 0x1_0000,
    ensures
        match first_adapter(space, n) {
            Some(device) => {
                &&& n <= m < 0x1_0000
                &&& is_visited(space, m)
                &&& adapter_at(space, m) == Some(device)
                &&& forall|k: int|
                    n <= k < m ==> !(#[trigger] is_visited(space, k)) || adapter_at(space, k) is None
            },
            None => forall|k: int|
                n <= k < 0x1_0000 ==> !(#[trigger] is_visited(space, k)) || adapter_at(
                    space,
                    k,
                ) is None,
        },
    decreases 0x1_0000 - n,
{
    if n >= 0x1_0000 {
        n
    } else if is_visited(space, n) && adapter_at(space, n) is Some {
        n
    } else {
        lemma_first_adapter(space, n + 1)
    }
}

/// The adapter that a scan finds, by what configuration space holds: it is the
/// one at its bus, device and function, its base address is the 64-bit value
/// there with nothing but the four lowest bits cleared, and no function before it
/// that the scan looks at is an adapter.
pub proof fn lemma_found_adapter(space: spec_fn(int) -> u32, device: WifiDevice)
    requires
        BusScan::start().result_in(space) == Some(device),
    ensures
        ({
            let n = 256 * device.bus + 8 * device.device + device.function;
            let base = function_base(n);
            let bar = 0x1_0000_0000 * space(base + 0x14) + space(base + 0x10);
            &&& 0 <= n < 0x1_0000
            &&& is_visited(space, n)
            &&& space(base) % 0x1_0000 == 0x8086
            &&& space(base) / 0x1_0000 == device.device_id
            &&& variant_with(0x8086, device.device_id) == Some(device.variant)
            &&& device.bar0 % 16 == 0
            &&& device.bar0 <= bar < device.bar0 + 16
            &&& device.irq_line == space(base + 0x3C) % 256
            &&& forall|k: int|
                0 <= k < n ==> !(#[trigger] is_visited(space, k)) || adapter_at(space, k) is None
        }),
{
    lemma_scan_finds_first_adapter(space);
    let m = lemma_first_adapter(space, 0);
    lemma_adapter_dwords(space, m);
}

/// A scan overlooks nothing: where some function that it looks at is Intel's and
/// has the ID of a variant, an adapter is found there or before.
pub proof fn lemma_no_adapter_overlooked(space: spec_fn(int) -> u32, n: int)
    requires
        0 <= n < 0x1_0000,
        is_visited(space, n),
        space(function_base(n)) % 0x1_0000 == 0x8086,
        variant_with(0x8086, (space(function_base(n)) / 0x1_0000) as u16) is Some,
    ensures
        BusScan::start().result_in(space) matches Some(device) && 256 * device.bus + 8
            * device.device + device.function <= n,
{
    lemma_scan_finds_first_adapter(space);
    let m = lemma_first_adapter(space, 0);
    lemma_adapter_dwords(space, n);
    if first_adapter(space, 0) is Some {
        lemma_adapter_dwords(space, m);
    }
}

proof fn lemma_enabled_bits(command: u16)
    by (bit_vector)
    ensures
        (command | 0x06) / 2 % 4 == 3,
        (command | 0x06) % 2 == command % 2,
        (command | 0x06) / 8 == command / 8,
{
}

proof fn lemma_merged_bits(value: u32, low: u32, high: u32)
    by (bit_vector)
    requires
        low < 0x1_0000,
        high < 0x1_0000,
        value == 0x1_0000 * high + low,
    ensures
        value / 0x1_0000 == high,
        value / 2 % 4 == low / 2 % 4,
        value % 2 == low % 2,
        value % 0x1_0000 / 8 == low / 8,
{
}

/// The write that enables an adapter, as a number: command and status are read
/// twice and written once, at offset 4; the lower half is the command that was read, with memory space and bus mastering switched on, and the upper
/// half is the one that was read last.
pub proof fn lemma_enabled_command(scan: BusScan, first: u32, second: u32)
    requires
        scan.well_formed(),
        scan.probe is Command,
    ensures
        scan.wanted() == (ConfigAccess::Read { addr: (function_base(scan.position()) + 4) as u32 }),
        scan.after(first).wanted() == scan.wanted(),
        scan.after(first).after(second).wanted() matches ConfigAccess::Write { addr, value } && {
            &&& addr == function_base(scan.position()) + 4
            &&& value / 0x1_0000 == second / 0x1_0000
            &&& value / 2 % 4 == 3
            &&& value % 2 == first % 2
            &&& value % 0x1_0000 / 8 == first % 0x1_0000 / 8
        },
{
    let command = (first % 0x1_0000) as u16;
    let merged = command | 0x06;
    let value = with_half(second, 0x04, merged);
    lemma_enabled_bits(command);
    assert(value == 0x1_0000 * (second / 0x1_0000) + merged);
    lemma_merged_bits(value, merged as u32, second / 0x1_0000);
    lemma_merged_bits(first, command as u32, first / 0x1_0000);
    lemma_position(scan);
}

} // verus!
