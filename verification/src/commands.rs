//! Host command interface for the Intel WiFi firmware.
//!
//! After firmware is loaded and alive, all control-plane operations go through
//! a command/response protocol over the TFD transmit ring (queue 0 is the
//! command queue). The firmware processes commands and posts responses to the
//! RX queue.
//!
//! # Command format
//!
//! ```text
//! Offset  Size  Field
//! ------  ----  -----
//! 0x00    1     Command ID
//! 0x01    1     Group ID (0 for legacy commands)
//! 0x02    2     Sequence number
//! 0x04    2     Length of payload
//! 0x06    ...   Payload (command-specific)
//! ```
use crate::bytes;
use crate::views;
use vstd::prelude::*;

verus! {

/// Command IDs for the iwlwifi firmware command protocol.
#[derive(Debug, Clone, Copy, PartialEq, Eq, Structural)]
pub enum CommandId {
    /// Alive notification (firmware -> host).
    Alive,
    /// Error notification (firmware -> host).
    Error,
    /// NVM access (read/write calibration and regulatory data).
    NvmAccess,
    /// PHY configuration.
    PhyConfig,
    /// PHY context command (band/channel/width).
    PhyContext,
    /// MAC context command (add/modify/remove).
    MacContext,
    /// Binding command (bind MAC context to PHY context).
    Binding,
    /// Time event (for scanning, association).
    TimeEvent,
    /// Scan request (UMAC scan).
    ScanUmac,
    /// Scan complete notification (firmware -> host).
    ScanComplete,
    /// Add station (for association).
    AddStation,
    /// Remove station.
    RemoveStation,
    /// TX command (data frame transmission).
    Tx,
    /// TX response (firmware -> host).
    TxResponse,
    /// Set encryption key.
    AddKey,
    /// Power management.
    PowerTable,
    /// NIC configuration.
    NicConfig,
    /// Calibration result (firmware -> host).
    CalibResult,
}

impl CommandId {
    /// The number that the firmware knows it by.
    pub open spec fn number(self) -> u8 {
        match self {
            CommandId::Alive => 0x01,
            CommandId::Error => 0x05,
            CommandId::NvmAccess => 0x88,
            CommandId::PhyConfig => 0x6A,
            CommandId::PhyContext => 0x08,
            CommandId::MacContext => 0x28,
            CommandId::Binding => 0x2B,
            CommandId::TimeEvent => 0x29,
            CommandId::ScanUmac => 0x0C,
            CommandId::ScanComplete => 0x84,
            CommandId::AddStation => 0x18,
            CommandId::RemoveStation => 0x19,
            CommandId::Tx => 0x1C,
            CommandId::TxResponse => 0x1D,
            CommandId::AddKey => 0x0E,
            CommandId::PowerTable => 0x77,
            CommandId::NicConfig => 0xBB,
            CommandId::CalibResult => 0x14,
        }
    }

    /// The number that the firmware knows it by.
    pub fn code(self) -> (code: u8)
        ensures
            code == self.number(),
    {
        match self {
            CommandId::Alive => 0x01,
            CommandId::Error => 0x05,
            CommandId::NvmAccess => 0x88,
            CommandId::PhyConfig => 0x6A,
            CommandId::PhyContext => 0x08,
            CommandId::MacContext => 0x28,
            CommandId::Binding => 0x2B,
            CommandId::TimeEvent => 0x29,
            CommandId::ScanUmac => 0x0C,
            CommandId::ScanComplete => 0x84,
            CommandId::AddStation => 0x18,
            CommandId::RemoveStation => 0x19,
            CommandId::Tx => 0x1C,
            CommandId::TxResponse => 0x1D,
            CommandId::AddKey => 0x0E,
            CommandId::PowerTable => 0x77,
            CommandId::NicConfig => 0xBB,
            CommandId::CalibResult => 0x14,
        }
    }
}

/// A host command to send to the firmware.
#[derive(Debug, Clone)]
pub struct HostCommand {
    /// Command ID.
    pub id: CommandId,
    /// Group ID (0 for legacy commands, non-zero for extended groups).
    pub group: u8,
    /// Payload bytes.
    pub data: Vec<u8>,
}

/// A host command: its ID, its group and its payload.
pub ghost struct Command {
    pub id: CommandId,
    pub group: u8,
    pub data: Seq<u8>,
}

impl View for HostCommand {
    type V = Command;

    open spec fn view(&self) -> Command {
        Command { id: self.id, group: self.group, data: self.data@ }
    }
}

impl Command {
    /// The command as it is submitted, with sequence number `seq`. The length
    /// field holds the payload length modulo 2^16.
    pub open spec fn serialized(self, seq: u16) -> Seq<u8> {
        seq![self.id.number(), self.group] + bytes::le16(seq) + bytes::le16(
            (self.data.len() % 0x1_0000) as u16,
        ) + self.data
    }
}

/// A legacy command with the given payload.
pub open spec fn legacy(id: CommandId, data: Seq<u8>) -> Command {
    Command { id, group: 0, data }
}

/// Every field of a submitted command stands where the command format says.
pub proof fn lemma_command_layout(cmd: Command, seq: u16)
    ensures
        cmd.serialized(seq).len() == 6 + cmd.data.len(),
        cmd.serialized(seq)[0] == cmd.id.number(),
        cmd.serialized(seq)[1] == cmd.group,
        bytes::le16_at(cmd.serialized(seq), 2) == seq,
        bytes::le16_at(cmd.serialized(seq), 4) == cmd.data.len() % 0x1_0000,
        cmd.serialized(seq).skip(6) == cmd.data,
{
    let whole = cmd.serialized(seq);
    bytes::lemma_16_bit_round_trip(seq);
    bytes::lemma_16_bit_round_trip((cmd.data.len() % 0x1_0000) as u16);
    assert(whole.skip(6) =~= cmd.data);
}

impl HostCommand {
    /// Create a new host command with no payload.
    pub fn new(id: CommandId) -> (cmd: Self)
        ensures
            cmd@ == legacy(id, Seq::empty()),
    {
        HostCommand { id, group: 0, data: Vec::new() }
    }

    /// Create a new host command with the given payload.
    pub fn with_data(id: CommandId, data: Vec<u8>) -> (cmd: Self)
        ensures
            cmd@ == legacy(id, data@),
    {
        HostCommand { id, group: 0, data }
    }

    /// Serialize the command into a byte buffer suitable for TFD submission.
    pub fn serialize(&self, seq: u16) -> (buf: Vec<u8>)
        ensures
            buf@ == self@.serialized(seq),
    {
        let len: u16 = (self.data.len() % 0x1_0000) as u16;
        let mut buf: Vec<u8> = Vec::new();
        buf.push(self.id.code());
        buf.push(self.group);
        assert(buf@ =~= seq![self.id.number(), self.group]);
        bytes::push_le16(&mut buf, seq);
        bytes::push_le16(&mut buf, len);
        bytes::push_bytes(&mut buf, self.data.as_slice());
        buf
    }
}

/// Response from the firmware to a host command.
#[derive(Debug, Clone)]
pub struct CommandResponse {
    /// Command ID this is responding to.
    pub id: u8,
    /// Group ID.
    pub group: u8,
    /// Sequence number (matches the request).
    pub sequence: u16,
    /// Response status (0 = success).
    pub status: u32,
    /// Response payload.
    pub data: Vec<u8>,
}

/// The fields of a response.
pub ghost struct Response {
    pub id: u8,
    pub group: u8,
    pub sequence: u16,
    pub status: u32,
    pub data: Seq<u8>,
}

impl View for CommandResponse {
    type V = Response;

    open spec fn view(&self) -> Response {
        Response {
            id: self.id,
            group: self.group,
            sequence: self.sequence,
            status: self.status,
            data: self.data@,
        }
    }
}

/// The response in a received buffer, if the buffer is long enough.
pub open spec fn response_of(data: Seq<u8>) -> Option<Response> {
    if data.len() < 8 {
        None
    } else {
        Some(
            Response {
                id: data[0],
                group: data[1],
                sequence: bytes::le16_at(data, 2),
                status: bytes::le32_at(data, 4),
                data: data.skip(8),
            },
        )
    }
}

impl CommandResponse {
    /// Parse a command response from raw bytes received on the RX queue.
    pub fn parse(data: &[u8]) -> (response: Option<Self>)
        ensures
            views::optional(response) == response_of(data@),
    {
        if data.len() < 8 {
            return None;
        }
        let mut payload: Vec<u8> = Vec::new();
        bytes::push_bytes(&mut payload, vstd::slice::slice_subrange(data, 8, data.len()));
        assert(payload@ =~= data@.skip(8));
        Some(
            CommandResponse {
                id: data[0],
                group: data[1],
                sequence: bytes::read_le16(data, 2),
                status: bytes::read_le32(data, 4),
                data: payload,
            },
        )
    }
}

// -------------------------------------------------------------------
// NVM (Non-Volatile Memory) access
// -------------------------------------------------------------------

/// NVM section identifiers.
#[derive(Debug, Clone, Copy)]
pub enum NvmSection {
    /// Hardware (SKU, antenna config).
    Hardware,
    /// Regulatory data.
    Regulatory,
    /// Calibration data.
    Calibration,
    /// Production data (serial number, MAC address).
    Production,
    /// PHY SKU data.
    PhySku,
}

impl NvmSection {
    /// The number that the firmware knows it by.
    pub open spec fn number(self) -> u16 {
        match self {
            NvmSection::Hardware => 0,
            NvmSection::Regulatory => 1,
            NvmSection::Calibration => 2,
            NvmSection::Production => 3,
            NvmSection::PhySku => 4,
        }
    }

    /// The number that the firmware knows it by.
    pub fn code(self) -> (code: u16)
        ensures
            code == self.number(),
    {
        match self {
            NvmSection::Hardware => 0,
            NvmSection::Regulatory => 1,
            NvmSection::Calibration => 2,
            NvmSection::Production => 3,
            NvmSection::PhySku => 4,
        }
    }
}

/// The NVM read command: section, offset, length and two reserved bytes.
pub open spec fn nvm_read(section: NvmSection, offset: u16, length: u16) -> Command {
    legacy(
        CommandId::NvmAccess,
        bytes::le16(section.number()) + bytes::le16(offset) + bytes::le16(length) + bytes::zeros(2),
    )
}

/// Build an NVM read command for the given section.
pub fn nvm_read_cmd(section: NvmSection, offset: u16, length: u16) -> (cmd: HostCommand)
    ensures
        cmd@ == nvm_read(section, offset, length),
{
    let mut data: Vec<u8> = Vec::with_capacity(8);
    bytes::push_le16(&mut data, section.code());  // section
    assert(data@ =~= bytes::le16(section.number()));
    bytes::push_le16(&mut data, offset);  // offset
    bytes::push_le16(&mut data, length);  // length
    bytes::push_zeros(&mut data, 2);  // reserved
    HostCommand::with_data(CommandId::NvmAccess, data)
}

// -------------------------------------------------------------------
// PHY configuration
// -------------------------------------------------------------------

/// Radio band for PHY configuration.
#[derive(Debug, Clone, Copy, PartialEq, Eq, Structural)]
pub enum Band {
    /// 2.4 GHz.
    Band2G,
    /// 5 GHz.
    Band5G,
    /// 6 GHz (Wi-Fi 6E, AX210 only).
    Band6G,
}

impl Band {
    /// The number that the firmware knows it by.
    pub open spec fn number(self) -> u8 {
        match self {
            Band::Band2G => 0,
            Band::Band5G => 1,
            Band::Band6G => 2,
        }
    }

    /// The number that the firmware knows it by.
    pub fn code(self) -> (code: u8)
        ensures
            code == self.number(),
    {
        match self {
            Band::Band2G => 0,
            Band::Band5G => 1,
            Band::Band6G => 2,
        }
    }
}

/// Channel width for PHY configuration.
#[derive(Debug, Clone, Copy, PartialEq, Eq, Structural)]
pub enum ChannelWidth {
    /// 20 MHz.
    Mhz20,
    /// 40 MHz.
    Mhz40,
    /// 80 MHz.
    Mhz80,
    /// 160 MHz.
    Mhz160,
}

impl ChannelWidth {
    /// The number that the firmware knows it by.
    pub open spec fn number(self) -> u8 {
        match self {
            ChannelWidth::Mhz20 => 0,
            ChannelWidth::Mhz40 => 1,
            ChannelWidth::Mhz80 => 2,
            ChannelWidth::Mhz160 => 3,
        }
    }

    /// The number that the firmware knows it by.
    pub fn code(self) -> (code: u8)
        ensures
            code == self.number(),
    {
        match self {
            ChannelWidth::Mhz20 => 0,
            ChannelWidth::Mhz40 => 1,
            ChannelWidth::Mhz80 => 2,
            ChannelWidth::Mhz160 => 3,
        }
    }
}

/// The PHY context command: add at once, band, channel and width, on both
/// receive chains.
pub open spec fn phy_context(band: Band, channel: u8, width: ChannelWidth) -> Command {
    legacy(
        CommandId::PhyContext,
        seq![1u8, 0, 0, 0] + seq![band.number(), channel, width.number(), 0u8] + seq![
            0x03u8,
            0,
            0,
            0,
        ] + bytes::zeros(4),
    )
}

/// Build a PHY context command to configure band/channel/width.
pub fn phy_context_cmd(band: Band, channel: u8, width: ChannelWidth) -> (cmd: HostCommand)
    ensures
        cmd@ == phy_context(band, channel, width),
{
    // Action: add; apply time: immediate; two reserved bytes.
    let action: [u8; 4] = [1, 0, 0, 0];
    assert(action@ =~= seq![1u8, 0, 0, 0]);
    let setting: [u8; 4] = [band.code(), channel, width.code(), 0];
    assert(setting@ =~= seq![band.number(), channel, width.number(), 0u8]);
    // Chain A/B config (2x2 MIMO): both A and B.
    let chains: [u8; 4] = [0x03, 0, 0, 0];
    assert(chains@ =~= seq![0x03u8, 0, 0, 0]);
    let mut data: Vec<u8> = Vec::with_capacity(16);
    bytes::push_bytes(&mut data, action.as_slice());
    assert(data@ =~= action@);
    bytes::push_bytes(&mut data, setting.as_slice());
    bytes::push_bytes(&mut data, chains.as_slice());
    bytes::push_zeros(&mut data, 4);  // reserved
    HostCommand::with_data(CommandId::PhyContext, data)
}

// -------------------------------------------------------------------
// Scan command
// -------------------------------------------------------------------

/// The 33-byte SSID field of a scan command: its length and the SSID, cut to
/// 32 bytes and padded; all zero for a passive scan.
pub open spec fn ssid_field(ssid: Option<Seq<u8>>) -> Seq<u8> {
    match ssid {
        Some(name) => {
            let len = if name.len() < 32 {
                name.len() as int
            } else {
                32
            };
            seq![len as u8] + name.take(len) + bytes::zeros((32 - len) as nat)
        },
        None => bytes::zeros(33),
    }
}

/// The channel list of a scan command: channel, band 0 and a dwell time of
/// 100 ms for each.
pub open spec fn channel_list(channels: Seq<u8>) -> Seq<u8>
    decreases channels.len(),
{
    if channels.len() == 0 {
        Seq::empty()
    } else {
        channel_list(channels.drop_last()) + seq![channels.last(), 0u8] + bytes::le16(100)
    }
}

/// The scan command: active exactly if there is an SSID to probe for. The
/// channel count is stored modulo 256.
pub open spec fn scan_for(channels: Seq<u8>, ssid: Option<Seq<u8>>) -> Command {
    let active = if ssid is Some {
        1u32
    } else {
        0u32
    };
    legacy(
        CommandId::ScanUmac,
        bytes::le32(active) + seq![(channels.len() % 256) as u8] + bytes::zeros(3) + ssid_field(
            ssid,
        ) + channel_list(channels),
    )
}

/// The view of an optional byte string.
pub open spec fn ssid_view(ssid: Option<&[u8]>) -> Option<Seq<u8>> {
    match ssid {
        Some(name) => Some(name@),
        None => None,
    }
}

fn build_ssid_field(ssid: Option<&[u8]>) -> (field: Vec<u8>)
    ensures
        field@ == ssid_field(ssid_view(ssid)),
{
    let mut field: Vec<u8> = Vec::with_capacity(33);
    match ssid {
        Some(name) => {
            let len: usize = if name.len() < 32 {
                name.len()
            } else {
                32
            };
            let cut: &[u8] = vstd::slice::slice_subrange(name, 0, len);
            assert(cut@ =~= name@.take(len as int));
            field.push(len as u8);
            assert(field@ =~= seq![len as u8]);
            bytes::push_bytes(&mut field, cut);
            // Pad to 33 bytes (1 len + 32 max SSID)
            bytes::push_zeros(&mut field, 32 - len);
        },
        None => {
            bytes::push_zeros(&mut field, 33);
            assert(field@ =~= bytes::zeros(33));
        },
    }
    field
}

fn build_channel_list(channels: &[u8]) -> (list: Vec<u8>)
    ensures
        list@ == channel_list(channels@),
{
    let n: usize = channels.len();
    let mut list: Vec<u8> = Vec::new();
    let mut i: usize = 0;
    assert(channels@.take(0) =~= Seq::empty());
    while i < n
        invariant
            n == channels@.len(),
            i <= n,
            list@ == channel_list(channels@.take(i as int)),
        decreases n - i,
    {
        let pair: [u8; 2] = [channels[i], 0];
        assert(pair@ =~= seq![channels@[i as int], 0u8]);
        assert(channels@.take(i + 1).drop_last() =~= channels@.take(i as int));
        bytes::push_bytes(&mut list, pair.as_slice());
        bytes::push_le16(&mut list, 100);  // dwell time (ms)
        i += 1;
    }
    assert(channels@.take(n as int) =~= channels@);
    list
}

/// Build a UMAC scan command for the given channels and optional SSID.
///
/// If `ssid` is `None`, a passive scan is performed (listen-only).
/// If `ssid` is `Some`, an active scan with probe requests is performed.
pub fn scan_cmd(channels: &[u8], ssid: Option<&[u8]>) -> (cmd: HostCommand)
    ensures
        cmd@ == scan_for(channels@, ssid_view(ssid)),
{
    let active: bool = ssid.is_some();
    let flags: u32 = if active {
        0x01
    } else {
        0x00
    };
    let field: Vec<u8> = build_ssid_field(ssid);
    let list: Vec<u8> = build_channel_list(channels);
    let mut data: Vec<u8> = Vec::new();
    bytes::push_le32(&mut data, flags);  // scan flags
    assert(data@ =~= bytes::le32(flags));
    bytes::push_byte(&mut data, (channels.len() % 256) as u8);  // number of channels
    bytes::push_zeros(&mut data, 3);  // reserved/padding
    bytes::push_bytes(&mut data, field.as_slice());
    bytes::push_bytes(&mut data, list.as_slice());
    HostCommand::with_data(CommandId::ScanUmac, data)
}

// -------------------------------------------------------------------
// Association
// -------------------------------------------------------------------

/// The add-station command: station ID, BSSID and default station flags.
pub open spec fn add_station(bssid: Seq<u8>, station_id: u8) -> Command {
    legacy(
        CommandId::AddStation,
        seq![station_id] + bytes::zeros(3) + bssid + bytes::zeros(2) + bytes::zeros(20),
    )
}

/// Build an add-station command for association with an AP.
pub fn add_station_cmd(bssid: &[u8; 6], station_id: u8) -> (cmd: HostCommand)
    ensures
        cmd@ == add_station(bssid@, station_id),
{
    let mut data: Vec<u8> = Vec::with_capacity(32);
    data.push(station_id);
    assert(data@ =~= seq![station_id]);
    bytes::push_zeros(&mut data, 3);  // reserved
    bytes::push_bytes(&mut data, bssid.as_slice());
    bytes::push_zeros(&mut data, 2);  // reserved
    bytes::push_zeros(&mut data, 20);  // station flags + reserved
    HostCommand::with_data(CommandId::AddStation, data)
}

// -------------------------------------------------------------------
// Key management
// -------------------------------------------------------------------

/// Key algorithm for encryption.
#[derive(Debug, Clone, Copy)]
pub enum KeyAlgorithm {
    /// No encryption.
    Unencrypted,
    /// WEP (legacy, not recommended).
    Wep,
    /// TKIP (WPA1, legacy).
    Tkip,
    /// AES-CCMP (WPA2).
    Ccmp,
}

impl KeyAlgorithm {
    /// The number that the firmware knows it by.
    pub open spec fn number(self) -> u8 {
        match self {
            KeyAlgorithm::Unencrypted => 0,
            KeyAlgorithm::Wep => 1,
            KeyAlgorithm::Tkip => 2,
            KeyAlgorithm::Ccmp => 3,
        }
    }

    /// The number that the firmware knows it by.
    pub fn code(self) -> (code: u8)
        ensures
            code == self.number(),
    {
        match self {
            KeyAlgorithm::Unencrypted => 0,
            KeyAlgorithm::Wep => 1,
            KeyAlgorithm::Tkip => 2,
            KeyAlgorithm::Ccmp => 3,
        }
    }
}

/// The add-key command: station, key ID, algorithm, key length modulo 256, the
/// key padded to 32 bytes, and twelve bytes of RSC and reserved space. A key
/// longer than 32 bytes is not padded.
pub open spec fn add_key(
    station_id: u8,
    key_id: u8,
    algorithm: KeyAlgorithm,
    key: Seq<u8>,
) -> Command {
    let pad = if key.len() < 32 {
        (32 - key.len()) as nat
    } else {
        0
    };
    legacy(
        CommandId::AddKey,
        seq![station_id, key_id, algorithm.number(), (key.len() % 256) as u8] + key + bytes::zeros(
            pad,
        ) + bytes::zeros(12),
    )
}

/// Build an add-key command for installing an encryption key.
pub fn add_key_cmd(station_id: u8, key_id: u8, algorithm: KeyAlgorithm, key: &[u8]) -> (cmd:
    HostCommand)
    ensures
        cmd@ == add_key(station_id, key_id, algorithm, key@),
{
    let head: [u8; 4] = [station_id, key_id, algorithm.code(), (key.len() % 256) as u8];
    assert(head@ =~= seq![station_id, key_id, algorithm.number(), (key@.len() % 256) as u8]);
    let pad: usize = if key.len() < 32 {
        32 - key.len()
    } else {
        0
    };
    let mut data: Vec<u8> = Vec::with_capacity(48);
    bytes::push_bytes(&mut data, head.as_slice());
    assert(data@ =~= head@);
    bytes::push_bytes(&mut data, key);
    bytes::push_zeros(&mut data, pad);
    bytes::push_zeros(&mut data, 12);  // RSC + reserved
    HostCommand::with_data(CommandId::AddKey, data)
}

// -------------------------------------------------------------------
// Laws
// -------------------------------------------------------------------

/// The number of every command.
pub proof fn lemma_command_numbers()
    ensures
        CommandId::Alive.number() == 0x01,
        CommandId::Error.number() == 0x05,
        CommandId::PhyContext.number() == 0x08,
        CommandId::ScanUmac.number() == 0x0C,
        CommandId::AddKey.number() == 0x0E,
        CommandId::CalibResult.number() == 0x14,
        CommandId::AddStation.number() == 0x18,
        CommandId::RemoveStation.number() == 0x19,
        CommandId::Tx.number() == 0x1C,
        CommandId::TxResponse.number() == 0x1D,
        CommandId::MacContext.number() == 0x28,
        CommandId::TimeEvent.number() == 0x29,
        CommandId::Binding.number() == 0x2B,
        CommandId::PhyConfig.number() == 0x6A,
        CommandId::PowerTable.number() == 0x77,
        CommandId::ScanComplete.number() == 0x84,
        CommandId::NvmAccess.number() == 0x88,
        CommandId::NicConfig.number() == 0xBB,
{
}

/// No two commands have the same number.
pub proof fn lemma_command_numbers_differ(a: CommandId, b: CommandId)
    requires
        a.number() == b.number(),
    ensures
        a == b,
{
}

/// The numbers of the other enumerations in commands.
pub proof fn lemma_field_numbers()
    ensures
        NvmSection::Hardware.number() == 0,
        NvmSection::Regulatory.number() == 1,
        NvmSection::Calibration.number() == 2,
        NvmSection::Production.number() == 3,
        NvmSection::PhySku.number() == 4,
        Band::Band2G.number() == 0,
        Band::Band5G.number() == 1,
        Band::Band6G.number() == 2,
        ChannelWidth::Mhz20.number() == 0,
        ChannelWidth::Mhz40.number() == 1,
        ChannelWidth::Mhz80.number() == 2,
        ChannelWidth::Mhz160.number() == 3,
        KeyAlgorithm::Unencrypted.number() == 0,
        KeyAlgorithm::Wep.number() == 1,
        KeyAlgorithm::Tkip.number() == 2,
        KeyAlgorithm::Ccmp.number() == 3,
{
}

/// A response that was written field by field is read field by field, whatever
/// the fields hold; fewer than eight bytes are no response.
pub proof fn lemma_response_is_read(
    id: u8,
    group: u8,
    sequence: u16,
    status: u32,
    data: Seq<u8>,
    short: Seq<u8>,
)
    requires
        short.len() < 8,
    ensures
        response_of(
            seq![id, group] + bytes::le16(sequence) + bytes::le32(status) + data,
        ) == Some(Response { id, group, sequence, status, data }),
        response_of(short) is None,
{
    let whole = seq![id, group] + bytes::le16(sequence) + bytes::le32(status) + data;
    assert(whole.subrange(2, 4) =~= bytes::le16(sequence));
    assert(whole.subrange(4, 8) =~= bytes::le32(status));
    bytes::lemma_read_where_written(whole, 2, sequence, 0, 0);
    bytes::lemma_read_where_written(whole, 4, 0, status, 0);
    assert(whole.skip(8) =~= data);
}

/// The commands of fixed length, byte by byte. All belong to group 0.
pub proof fn lemma_fixed_commands(
    section: NvmSection,
    offset: u16,
    length: u16,
    band: Band,
    channel: u8,
    width: ChannelWidth,
    bssid: Seq<u8>,
    station_id: u8,
)
    requires
        bssid.len() == 6,
    ensures
        ({
            let nvm = nvm_read(section, offset, length);
            &&& nvm.id == CommandId::NvmAccess
            &&& nvm.group == 0
            &&& nvm.data.len() == 8
            &&& nvm.data[0] == section.number()
            &&& nvm.data[1] == 0
            &&& nvm.data[2] + 256 * nvm.data[3] == offset
            &&& nvm.data[4] + 256 * nvm.data[5] == length
            &&& nvm.data[6] == 0
            &&& nvm.data[7] == 0
        }),
        ({
            let phy = phy_context(band, channel, width);
            &&& phy.id == CommandId::PhyContext
            &&& phy.group == 0
            &&& phy.data == seq![
                1u8,
                0,
                0,
                0,
                band.number(),
                channel,
                width.number(),
                0,
                3,
                0,
                0,
                0,
                0,
                0,
                0,
                0,
            ]
        }),
        ({
            let station = add_station(bssid, station_id);
            &&& station.id == CommandId::AddStation
            &&& station.group == 0
            &&& station.data.len() == 32
            &&& station.data[0] == station_id
            &&& station.data.subrange(4, 10) == bssid
            &&& forall|i: int| 1 <= i < 4 || 10 <= i < 32 ==> station.data[i] == 0
        }),
{
    assert(add_station(bssid, station_id).data.subrange(4, 10) =~= bssid);
}

/// The key in a command stands behind its length, byte by byte, with zeros up to
/// 32 bytes behind a shorter one and twelve more behind all.
pub proof fn lemma_key_command(station_id: u8, key_id: u8, algorithm: KeyAlgorithm, key: Seq<u8>)
    requires
        key.len() < 256,
    ensures
        ({
            let command = add_key(station_id, key_id, algorithm, key);
            let data = command.data;
            &&& command.id == CommandId::AddKey
            &&& command.group == 0
            &&& data.len() == if key.len() < 32 {
                48
            } else {
                16 + key.len()
            }
            &&& data[0] == station_id
            &&& data[1] == key_id
            &&& data[2] == algorithm.number()
            &&& data[3] == key.len()
            &&& forall|i: int| 0 <= i < key.len() ==> data[4 + i] == #[trigger] key[i]
            &&& forall|i: int| 4 + key.len() <= i < data.len() ==> data[i] == 0
        }),
{
}

/// A scan command, byte by byte: bit 0 says whether an SSID is asked for; byte 4
/// counts the channels modulo 256; the SSID field holds the length and up to 32 bytes of the
/// name, then zeros; every channel has four bytes, its number and a dwell time of
/// 100.
pub proof fn lemma_scan_command(channels: Seq<u8>, ssid: Option<Seq<u8>>, k: int)
    ensures
        ({
            let command = scan_for(channels, ssid);
            let data = command.data;
            &&& command.id == CommandId::ScanUmac
            &&& command.group == 0
            &&& data.len() == 41 + 4 * channels.len()
            &&& data[0] == if ssid is Some {
                1u8
            } else {
                0
            }
            &&& data[4] == channels.len() % 256
            &&& forall|i: int| 1 <= i < 4 || 5 <= i < 8 ==> data[i] == 0
            &&& ssid is None ==> forall|i: int| 8 <= i < 41 ==> data[i] == 0
            &&& ssid matches Some(name) ==> {
                &&& data[8] == if name.len() < 32 {
                    name.len()
                } else {
                    32
                }
                &&& forall|i: int|
                    9 <= i < 41 ==> #[trigger] data[i] == if i - 9 < name.len() {
                        name[i - 9]
                    } else {
                        0
                    }
            }
            &&& 0 <= k < channels.len() ==> {
                &&& data[41 + 4 * k] == channels[k]
                &&& data[41 + 4 * k + 1] == 0
                &&& data[41 + 4 * k + 2] == 100
                &&& data[41 + 4 * k + 3] == 0
            }
        }),
{
    lemma_channel_list_len(channels);
    let flags = bytes::le32(
        if ssid is Some {
            1
        } else {
            0
        },
    );
    let head = flags + seq![(channels.len() % 256) as u8] + bytes::zeros(3);
    let field = ssid_field(ssid);
    let list = channel_list(channels);
    let data = scan_for(channels, ssid).data;
    assert(head.len() == 8 && field.len() == 33);
    assert(data =~= head + field + list);
    assert forall|i: int| 0 <= i < 33 implies data[8 + i] == #[trigger] field[i] by {}
    assert forall|i: int| 0 <= i < list.len() implies data[41 + i] == #[trigger] list[i] by {}
    assert(data[8] == field[0]);
    if 0 <= k < channels.len() {
        lemma_channel_list(channels, k);
        assert(list[4 * k] == channels[k] && list[4 * k + 1] == 0 && list[4 * k + 2] == 100
            && list[4 * k + 3] == 0);
    }
    assert forall|i: int| 8 <= i < 41 implies #[trigger] data[i] == field[i - 8] by {}
}

proof fn lemma_channel_list(channels: Seq<u8>, k: int)
    requires
        0 <= k < channels.len(),
    ensures
        channel_list(channels).len() == 4 * channels.len(),
        channel_list(channels)[4 * k] == channels[k],
        channel_list(channels)[4 * k + 1] == 0,
        channel_list(channels)[4 * k + 2] == 100,
        channel_list(channels)[4 * k + 3] == 0,
    decreases channels.len(),
{
    let shorter = channels.drop_last();
    lemma_channel_list_len(channels);
    lemma_channel_list_len(shorter);
    if k < shorter.len() {
        lemma_channel_list(shorter, k);
        assert(shorter[k] == channels[k]);
        let list = channel_list(channels);
        let before = channel_list(shorter);
        assert forall|i: int| 0 <= i < before.len() implies list[i] == #[trigger] before[i] by {}
    }
}

proof fn lemma_channel_list_len(channels: Seq<u8>)
    ensures
        channel_list(channels).len() == 4 * channels.len(),
    decreases channels.len(),
{
    if channels.len() > 0 {
        lemma_channel_list_len(channels.drop_last());
    }
}

} // verus!
