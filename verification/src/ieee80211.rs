//! IEEE 802.11 frame parsing and construction.
//!
//! Handles the frame types relevant to station (STA) mode operation:
//! beacons, probe requests/responses, authentication, association,
//! data frames, and QoS data frames.
//!
//! All frames share a common MAC header with a 2-byte frame control field,
//! duration, and up to 4 address fields.
use crate::bytes;
use crate::views;
use vstd::prelude::*;

pub mod ie_id;

verus! {

// -------------------------------------------------------------------
// Frame Control field
// -------------------------------------------------------------------

/// Frame type (bits 3:2 of Frame Control).
#[derive(Debug, Clone, Copy, PartialEq, Eq, Structural)]
pub enum FrameType {
    Management,
    Control,
    Data,
    Extension,
}

impl FrameType {
    /// The number of the frame type on the air.
    pub open spec fn number(self) -> u8 {
        match self {
            FrameType::Management => 0,
            FrameType::Control => 1,
            FrameType::Data => 2,
            FrameType::Extension => 3,
        }
    }

    /// The number of the frame type on the air.
    pub fn code(self) -> (code: u8)
        ensures
            code == self.number(),
    {
        match self {
            FrameType::Management => 0,
            FrameType::Control => 1,
            FrameType::Data => 2,
            FrameType::Extension => 3,
        }
    }
}

/// Management frame subtypes (bits 7:4 of Frame Control).
#[derive(Debug, Clone, Copy, PartialEq, Eq, Structural)]
pub enum MgmtSubtype {
    AssocRequest,
    AssocResponse,
    ReassocRequest,
    ReassocResponse,
    ProbeRequest,
    ProbeResponse,
    Beacon,
    Disassoc,
    Auth,
    Deauth,
    Action,
}

impl MgmtSubtype {
    /// The number of the subtype on the air.
    pub open spec fn number(self) -> u8 {
        match self {
            MgmtSubtype::AssocRequest => 0,
            MgmtSubtype::AssocResponse => 1,
            MgmtSubtype::ReassocRequest => 2,
            MgmtSubtype::ReassocResponse => 3,
            MgmtSubtype::ProbeRequest => 4,
            MgmtSubtype::ProbeResponse => 5,
            MgmtSubtype::Beacon => 8,
            MgmtSubtype::Disassoc => 10,
            MgmtSubtype::Auth => 11,
            MgmtSubtype::Deauth => 12,
            MgmtSubtype::Action => 13,
        }
    }

    /// The number of the subtype on the air.
    pub fn code(self) -> (code: u8)
        ensures
            code == self.number(),
    {
        match self {
            MgmtSubtype::AssocRequest => 0,
            MgmtSubtype::AssocResponse => 1,
            MgmtSubtype::ReassocRequest => 2,
            MgmtSubtype::ReassocResponse => 3,
            MgmtSubtype::ProbeRequest => 4,
            MgmtSubtype::ProbeResponse => 5,
            MgmtSubtype::Beacon => 8,
            MgmtSubtype::Disassoc => 10,
            MgmtSubtype::Auth => 11,
            MgmtSubtype::Deauth => 12,
            MgmtSubtype::Action => 13,
        }
    }
}

/// Data frame subtypes (bits 7:4 of Frame Control).
#[derive(Debug, Clone, Copy, PartialEq, Eq, Structural)]
pub enum DataSubtype {
    Data,
    Null,
    QosData,
    QosNull,
}

impl DataSubtype {
    /// The number of the subtype on the air.
    pub open spec fn number(self) -> u8 {
        match self {
            DataSubtype::Data => 0,
            DataSubtype::Null => 4,
            DataSubtype::QosData => 8,
            DataSubtype::QosNull => 12,
        }
    }

    /// The number of the subtype on the air.
    pub fn code(self) -> (code: u8)
        ensures
            code == self.number(),
    {
        match self {
            DataSubtype::Data => 0,
            DataSubtype::Null => 4,
            DataSubtype::QosData => 8,
            DataSubtype::QosNull => 12,
        }
    }
}

/// The protocol version in a frame control field.
pub open spec fn version_in(raw: u16) -> u8 {
    (raw & 0x03) as u8
}

/// The frame type in a frame control field.
pub open spec fn type_in(raw: u16) -> FrameType {
    let bits = (raw >> 2) & 0x03;
    if bits == 0 {
        FrameType::Management
    } else if bits == 1 {
        FrameType::Control
    } else if bits == 2 {
        FrameType::Data
    } else {
        FrameType::Extension
    }
}

/// The frame subtype in a frame control field.
pub open spec fn subtype_in(raw: u16) -> u8 {
    ((raw >> 4) & 0x0F) as u8
}

/// The To DS bit of a frame control field.
pub open spec fn to_ds_in(raw: u16) -> bool {
    raw & 0x0100 != 0
}

/// The From DS bit of a frame control field.
pub open spec fn from_ds_in(raw: u16) -> bool {
    raw & 0x0200 != 0
}

/// The Protected bit of a frame control field.
pub open spec fn protected_in(raw: u16) -> bool {
    raw & 0x4000 != 0
}

/// Whether a frame control field announces a QoS data frame.
pub open spec fn is_qos_in(raw: u16) -> bool {
    type_in(raw) == FrameType::Data && subtype_in(raw) & 0x08 != 0
}

/// Parsed frame control field.
#[derive(Debug, Clone, Copy)]
pub struct FrameControl {
    /// Raw 16-bit value.
    pub raw: u16,
}

impl FrameControl {
    pub fn from_raw(raw: u16) -> (fc: Self)
        ensures
            fc.raw == raw,
    {
        FrameControl { raw }
    }

    /// Protocol version (bits 1:0). Always 0 for current 802.11.
    pub fn protocol_version(self) -> (version: u8)
        ensures
            version == (self.raw & 0x03) as u8,
            version == version_in(self.raw),
            version == self.raw % 4,
    {
        proof {
            lemma_control_fields(self.raw);
        }
        (self.raw & 0x03) as u8
    }

    /// Frame type (bits 3:2).
    pub fn frame_type(self) -> (frame_type: FrameType)
        ensures
            frame_type == type_in(self.raw),
    {
        match (self.raw >> 2) & 0x03 {
            0 => FrameType::Management,
            1 => FrameType::Control,
            2 => FrameType::Data,
            _ => FrameType::Extension,
        }
    }

    /// Frame subtype (bits 7:4).
    pub fn subtype(self) -> (subtype: u8)
        ensures
            subtype == subtype_in(self.raw),
    {
        ((self.raw >> 4) & 0x0F) as u8
    }

    /// To DS bit (bit 8).
    pub fn to_ds(self) -> (set: bool)
        ensures
            set == to_ds_in(self.raw),
    {
        self.raw & 0x0100 != 0
    }

    /// From DS bit (bit 9).
    pub fn from_ds(self) -> (set: bool)
        ensures
            set == from_ds_in(self.raw),
    {
        self.raw & 0x0200 != 0
    }

    /// Protected frame bit (bit 14), indicates frame body is encrypted.
    pub fn protected(self) -> (set: bool)
        ensures
            set == protected_in(self.raw),
    {
        self.raw & 0x4000 != 0
    }

    /// QoS subtype flag (bit 7 of subtype field).
    pub fn is_qos(self) -> (qos: bool)
        ensures
            qos == is_qos_in(self.raw),
    {
        self.frame_type() == FrameType::Data && (self.subtype() & 0x08) != 0
    }
}

// -------------------------------------------------------------------
// MAC header
// -------------------------------------------------------------------

/// Parsed 802.11 MAC header.
#[derive(Debug, Clone)]
pub struct MacHeader {
    pub frame_control: FrameControl,
    pub duration: u16,
    /// Address 1: Receiver / Destination.
    pub addr1: [u8; 6],
    /// Address 2: Transmitter / Source.
    pub addr2: [u8; 6],
    /// Address 3: BSSID (for infrastructure mode).
    pub addr3: [u8; 6],
    /// Sequence control (fragment number + sequence number).
    pub seq_ctrl: u16,
    /// Address 4 (only present in WDS / mesh frames).
    pub addr4: Option<[u8; 6]>,
    /// QoS control field (only present in QoS data frames).
    pub qos_ctrl: Option<u16>,
    /// Total header length in bytes.
    pub header_len: usize,
}

/// The fields of a MAC header.
pub ghost struct Header {
    pub frame_control: u16,
    pub duration: u16,
    pub addr1: Seq<u8>,
    pub addr2: Seq<u8>,
    pub addr3: Seq<u8>,
    pub seq_ctrl: u16,
    pub addr4: Option<Seq<u8>>,
    pub qos_ctrl: Option<u16>,
    pub header_len: nat,
}

impl View for MacHeader {
    type V = Header;

    open spec fn view(&self) -> Header {
        Header {
            frame_control: self.frame_control.raw,
            duration: self.duration,
            addr1: self.addr1@,
            addr2: self.addr2@,
            addr3: self.addr3@,
            seq_ctrl: self.seq_ctrl,
            addr4: views::optional(self.addr4),
            qos_ctrl: self.qos_ctrl,
            header_len: self.header_len as nat,
        }
    }
}

/// Whether a frame has a fourth address: only between access points.
pub open spec fn has_addr4(raw: u16) -> bool {
    to_ds_in(raw) && from_ds_in(raw)
}

/// Where the QoS control field stands, if there is one: behind the addresses.
pub open spec fn qos_offset(raw: u16) -> int {
    if has_addr4(raw) {
        30
    } else {
        24
    }
}

/// The length of the MAC header that a frame control field announces.
pub open spec fn header_len_for(raw: u16) -> int {
    if is_qos_in(raw) {
        qos_offset(raw) + 2
    } else {
        qos_offset(raw)
    }
}

/// The MAC header of a frame, if the frame is long enough to hold it.
pub open spec fn header_of(data: Seq<u8>) -> Option<Header> {
    let raw = bytes::le16_at(data, 0);
    if data.len() < 24 || data.len() < header_len_for(raw) {
        None
    } else {
        Some(
            Header {
                frame_control: raw,
                duration: bytes::le16_at(data, 2),
                addr1: data.subrange(4, 10),
                addr2: data.subrange(10, 16),
                addr3: data.subrange(16, 22),
                seq_ctrl: bytes::le16_at(data, 22),
                addr4: if has_addr4(raw) {
                    Some(data.subrange(24, 30))
                } else {
                    None
                },
                qos_ctrl: if is_qos_in(raw) {
                    Some(bytes::le16_at(data, qos_offset(raw)))
                } else {
                    None
                },
                header_len: header_len_for(raw) as nat,
            },
        )
    }
}

impl MacHeader {
    /// Parse a MAC header from the beginning of a raw frame.
    ///
    /// Returns `None` if the frame is too short.
    pub fn parse(data: &[u8]) -> (header: Option<Self>)
        ensures
            views::optional(header) == header_of(data@),
    {
        if data.len() < 24 {
            return None;
        }
        let fc: FrameControl = FrameControl::from_raw(bytes::read_le16(data, 0));
        let mut header_len: usize = 24;
        let mut addr4: Option<[u8; 6]> = None;
        let mut qos_ctrl: Option<u16> = None;

        // Address 4 present when both To DS and From DS are set (WDS/mesh)
        if fc.to_ds() && fc.from_ds() {
            if data.len() < 30 {
                return None;
            }
            addr4 = Some(bytes::read_array(data, 24));
            header_len = 30;
        }

        // QoS control field present in QoS data frames
        if fc.is_qos() {
            if data.len() < header_len + 2 {
                return None;
            }
            qos_ctrl = Some(bytes::read_le16(data, header_len));
            header_len += 2;
        }

        Some(
            MacHeader {
                frame_control: fc,
                duration: bytes::read_le16(data, 2),
                addr1: bytes::read_array(data, 4),
                addr2: bytes::read_array(data, 10),
                addr3: bytes::read_array(data, 16),
                seq_ctrl: bytes::read_le16(data, 22),
                addr4,
                qos_ctrl,
                header_len,
            },
        )
    }
}

// -------------------------------------------------------------------
// Information Elements (IEs): tagged parameters in management frames
// -------------------------------------------------------------------

/// An information element from a management frame body.
#[derive(Debug, Clone)]
pub struct InformationElement<'a> {
    /// Element ID.
    pub id: u8,
    /// Element data.
    pub data: &'a [u8],
}

/// An information element: its ID and its data.
pub ghost struct Element {
    pub id: u8,
    pub data: Seq<u8>,
}

impl<'a> View for InformationElement<'a> {
    type V = Element;

    open spec fn view(&self) -> Element {
        Element { id: self.id, data: self.data@ }
    }
}

/// The element at the start of `data`, if all of it is there.
pub open spec fn first_element(data: Seq<u8>) -> Option<Element> {
    if data.len() < 2 || data.len() < 2 + data[1] {
        None
    } else {
        Some(Element { id: data[0], data: data.subrange(2, 2 + data[1]) })
    }
}

/// What is left behind the element at the start of `data`. Of an element that is
/// cut short, ID and length are read.
pub open spec fn behind_element(data: Seq<u8>) -> Seq<u8> {
    match first_element(data) {
        Some(element) => data.skip(2 + element.data.len() as int),
        None => if data.len() < 2 {
            data
        } else {
            data.skip(2)
        },
    }
}

/// The elements of a frame body, up to the first that is cut short.
pub open spec fn elements(data: Seq<u8>) -> Seq<Element>
    decreases data.len(),
{
    match first_element(data) {
        Some(first) => seq![first] + elements(data.skip(2 + first.data.len() as int)),
        None => Seq::empty(),
    }
}

/// Iterator over information elements in a management frame body.
pub struct IeIterator<'a> {
    data: &'a [u8],
    offset: usize,
}

impl<'a> IeIterator<'a> {
    #[verifier::type_invariant]
    closed spec fn in_bounds(self) -> bool {
        self.offset <= self.data@.len()
    }

    /// The bytes that have not been read yet.
    pub closed spec fn rest(&self) -> Seq<u8> {
        self.data@.skip(self.offset as int)
    }

    pub fn new(data: &'a [u8]) -> (iter: Self)
        ensures
            iter.rest() == data@,
    {
        assert(data@.skip(0) =~= data@);
        IeIterator { data, offset: 0 }
    }

    /// The next element. Where an element is cut short, its ID and length are
    /// read and there is no element.
    pub fn next(&mut self) -> (element: Option<InformationElement<'a>>)
        ensures
            views::optional(element) == first_element(old(self).rest()),
            final(self).rest() == behind_element(old(self).rest()),
            match element {
                Some(e) => final(self).rest() == old(self).rest().skip(2 + e.data@.len() as int),
                None => final(self).rest() == if old(self).rest().len() < 2 {
                    old(self).rest()
                } else {
                    old(self).rest().skip(2)
                },
            },
    {
        proof {
            use_type_invariant(&*self);
        }
        let ghost before = self.rest();
        let n: usize = self.data.len();
        if n - self.offset < 2 {
            return None;
        }
        let id: u8 = self.data[self.offset];
        let len: usize = self.data[self.offset + 1] as usize;
        let start: usize = self.offset + 2;
        self.offset = start;
        if n - start < len {
            assert(self.rest() =~= before.skip(2));
            return None;
        }
        let element_data: &'a [u8] = vstd::slice::slice_subrange(self.data, start, start + len);
        self.offset = start + len;
        assert(self.rest() =~= before.skip(2 + len as int));
        assert(element_data@ =~= before.subrange(2, 2 + len as int));
        Some(InformationElement { id, data: element_data })
    }
}

// -------------------------------------------------------------------
// Beacon / Probe Response parsing
// -------------------------------------------------------------------

/// Parsed beacon or probe response frame.
#[derive(Debug, Clone)]
pub struct BeaconInfo {
    /// BSSID (from MAC header addr3).
    pub bssid: [u8; 6],
    /// SSID (from IE 0). Empty string if hidden.
    pub ssid: String,
    /// Channel (from DS Parameter Set IE).
    pub channel: u8,
    /// Beacon interval in TUs (1 TU = 1024 microseconds).
    pub beacon_interval: u16,
    /// Capability information (ESS, IBSS, privacy, etc.).
    pub capability: u16,
    /// Whether WPA2 (RSN) is present.
    pub has_rsn: bool,
    /// Whether the network is open (no encryption).
    pub is_open: bool,
}

/// What a beacon says.
pub ghost struct Beacon {
    pub bssid: Seq<u8>,
    pub ssid: Seq<char>,
    pub channel: u8,
    pub beacon_interval: u16,
    pub capability: u16,
    pub has_rsn: bool,
    pub is_open: bool,
}

impl View for BeaconInfo {
    type V = Beacon;

    open spec fn view(&self) -> Beacon {
        Beacon {
            bssid: self.bssid@,
            ssid: self.ssid@,
            channel: self.channel,
            beacon_interval: self.beacon_interval,
            capability: self.capability,
            has_rsn: self.has_rsn,
            is_open: self.is_open,
        }
    }
}

/// The SSID among some elements: that of the last SSID element that is valid
/// UTF-8, empty if there is none.
pub open spec fn ssid_among(list: Seq<Element>) -> Seq<char>
    decreases list.len(),
{
    if list.len() == 0 {
        Seq::empty()
    } else if list.last().id == ie_id::SSID && vstd::utf8::valid_utf8(list.last().data) {
        vstd::utf8::decode_utf8(list.last().data)
    } else {
        ssid_among(list.drop_last())
    }
}

/// The channel among some elements: that of the last DS Parameter Set that has
/// one, 0 if there is none.
pub open spec fn channel_among(list: Seq<Element>) -> u8
    decreases list.len(),
{
    if list.len() == 0 {
        0
    } else if list.last().id == ie_id::DS_PARAMETER_SET && list.last().data.len() > 0 {
        list.last().data[0]
    } else {
        channel_among(list.drop_last())
    }
}

/// Whether there is an RSN element among some elements.
pub open spec fn rsn_among(list: Seq<Element>) -> bool {
    exists|i: int| 0 <= i < list.len() && (#[trigger] list[i]).id == ie_id::RSN
}

/// The beacon or probe response in a frame, if the frame is long enough. The
/// body is an 8-byte timestamp, the interval, the capabilities and the elements.
pub open spec fn beacon_of(data: Seq<u8>) -> Option<Beacon> {
    match header_of(data) {
        Some(header) => if data.len() < header.header_len + 12 {
            None
        } else {
            let body = data.skip(header.header_len as int);
            let list = elements(body.skip(12));
            let capability = bytes::le16_at(body, 10);
            Some(
                Beacon {
                    bssid: header.addr3,
                    ssid: ssid_among(list),
                    channel: channel_among(list),
                    beacon_interval: bytes::le16_at(body, 8),
                    capability,
                    has_rsn: rsn_among(list),
                    is_open: capability & 0x0010 == 0 && !rsn_among(list),
                },
            )
        },
        None => None,
    }
}

/// Calls `core::str::from_utf8`: the text of a byte string, and `None` exactly
/// where the byte string is not valid UTF-8.
#[verifier::external_body]
fn text_of(data: &[u8]) -> (text: Option<&str>)
    ensures
        text is Some <==> vstd::utf8::valid_utf8(data@),
        text matches Some(s) ==> s@ == vstd::utf8::decode_utf8(data@),
{
    core::str::from_utf8(data).ok()
}

/// Parse a beacon or probe response frame.
///
/// `data` is the full 802.11 frame including MAC header.
pub fn parse_beacon(data: &[u8]) -> (beacon: Option<BeaconInfo>)
    ensures
        views::optional(beacon) == beacon_of(data@),
{
    let header: MacHeader = match MacHeader::parse(data) {
        Some(header) => header,
        None => return None,
    };

    // Beacon / probe response body starts after MAC header.
    // First 12 bytes: timestamp(8) + beacon_interval(2) + capability(2)
    let body_start: usize = header.header_len;
    if data.len() - body_start < 12 {
        return None;
    }
    let (_, body) = data.split_at(body_start);
    assert(body@ =~= data@.skip(body_start as int));
    let beacon_interval: u16 = bytes::read_le16(body, 8);
    let capability: u16 = bytes::read_le16(body, 10);
    let (_, ie_data) = body.split_at(12);
    assert(ie_data@ =~= body@.skip(12));

    let mut ssid: String = String::new();
    let mut channel: u8 = 0;
    let mut has_rsn: bool = false;
    let mut list = IeIterator::new(ie_data);
    let ghost mut seen: Seq<Element> = Seq::empty();
    assert(seen + elements(list.rest()) =~= elements(ie_data@));
    let mut more: bool = true;
    while more
        invariant
            seen + elements(list.rest()) == elements(ie_data@) || !more,
            !more ==> seen == elements(ie_data@),
            ssid@ == ssid_among(seen),
            channel == channel_among(seen),
            has_rsn == rsn_among(seen),
        decreases (if more { 1int } else { 0int }), list.rest().len(),
    {
        let ghost before = seen;
        match list.next() {
            Some(ie) => {
                proof {
                    seen = before.push(ie@);
                    assert(seen.drop_last() =~= before);
                    assert forall|i: int| 0 <= i < before.len() implies seen[i] == before[i] by {}
                    assert(seen[before.len() as int] == ie@);
                }
                if ie.id == ie_id::SSID {
                    if let Some(s) = text_of(ie.data) {
                        ssid = s.to_owned();
                    }
                } else if ie.id == ie_id::DS_PARAMETER_SET {
                    if ie.data.len() > 0 {
                        channel = ie.data[0];
                    }
                } else if ie.id == ie_id::RSN {
                    has_rsn = true;
                }
                assert(seen + elements(list.rest()) =~= elements(ie_data@));
            },
            None => {
                more = false;
                assert(seen =~= elements(ie_data@));
            },
        }
    }

    // Privacy bit (bit 4 of capability) indicates some form of encryption
    let privacy: bool = capability & 0x0010 != 0;
    Some(
        BeaconInfo {
            bssid: header.addr3,
            ssid,
            channel,
            beacon_interval,
            capability,
            has_rsn,
            is_open: !privacy && !has_rsn,
        },
    )
}

// -------------------------------------------------------------------
// Frame construction helpers
// -------------------------------------------------------------------

/// The frame control field of a management frame from the station.
pub open spec fn mgmt_control(subtype: MgmtSubtype) -> u16 {
    (4 * FrameType::Management.number() + 16 * subtype.number()) as u16
}

/// The frame control field of a protected QoS data frame to the access point:
/// Data, QoS Data subtype, To DS, Protected.
pub open spec fn qos_data_control() -> u16 {
    (4 * FrameType::Data.number() + 16 * DataSubtype::QosData.number() + 0x0100 + 0x4000) as u16
}

/// The MAC header of a management frame to the access point: duration and
/// sequence control are zero.
pub open spec fn mgmt_header(subtype: MgmtSubtype, bssid: Seq<u8>, src_addr: Seq<u8>) -> Seq<u8> {
    bytes::le16(mgmt_control(subtype)) + bytes::le16(0) + bssid + src_addr + bssid + bytes::le16(0)
}

/// An authentication frame: Open System, sequence 1, status success.
pub open spec fn auth_frame(bssid: Seq<u8>, src_addr: Seq<u8>) -> Seq<u8> {
    mgmt_header(MgmtSubtype::Auth, bssid, src_addr) + bytes::le16(0) + bytes::le16(1) + bytes::le16(
        0,
    )
}

/// A disassociation frame, reason 3: the station is leaving.
pub open spec fn disassoc_frame(bssid: Seq<u8>, src_addr: Seq<u8>) -> Seq<u8> {
    mgmt_header(MgmtSubtype::Disassoc, bssid, src_addr) + bytes::le16(3)
}

/// An information element on the air: ID, length modulo 256 and data.
pub open spec fn element_bytes(id: u8, data: Seq<u8>) -> Seq<u8> {
    seq![id, (data.len() % 256) as u8] + data
}

/// The basic 802.11b/g rates: 1, 2, 5.5, 11, 6, 9, 12 and 18 Mbps.
pub open spec fn supported_rates() -> Seq<u8> {
    seq![0x82u8, 0x84, 0x8B, 0x96, 0x0C, 0x12, 0x18, 0x24]
}

/// The data of the RSN element: version 1, group cipher CCMP, one pairwise
/// cipher CCMP, one key management suite PSK, no capabilities.
pub open spec fn rsn_data() -> Seq<u8> {
    bytes::le16(1) + seq![0x00u8, 0x0F, 0xAC, 0x04] + bytes::le16(1) + seq![
        0x00u8,
        0x0F,
        0xAC,
        0x04,
    ] + bytes::le16(1) + seq![0x00u8, 0x0F, 0xAC, 0x02] + bytes::le16(0)
}

/// The elements of an association request: SSID, rates and RSN.
pub open spec fn assoc_elements(ssid: Seq<char>) -> Seq<u8> {
    element_bytes(ie_id::SSID, vstd::utf8::encode_utf8(ssid)) + element_bytes(
        ie_id::SUPPORTED_RATES,
        supported_rates(),
    ) + element_bytes(ie_id::RSN, rsn_data())
}

/// An association request: capabilities ESS, privacy, short preamble and short
/// slot time, a listen interval of 10, and the elements.
pub open spec fn assoc_request(bssid: Seq<u8>, src_addr: Seq<u8>, ssid: Seq<char>) -> Seq<u8> {
    mgmt_header(MgmtSubtype::AssocRequest, bssid, src_addr) + bytes::le16(0x0431) + bytes::le16(10)
        + assoc_elements(ssid)
}

/// The MAC header of a protected QoS data frame. The sequence number stands in
/// bits 15:4 of sequence control, the TID in bits 3:0 of QoS control.
pub open spec fn qos_data_header(
    bssid: Seq<u8>,
    src_addr: Seq<u8>,
    dst_addr: Seq<u8>,
    seq_num: u16,
    tid: u8,
) -> Seq<u8> {
    bytes::le16(qos_data_control()) + bytes::le16(0) + bssid + src_addr + dst_addr + bytes::le16(
        (16 * (seq_num % 0x1000)) as u16,
    ) + bytes::le16(tid as u16)
}

fn build_mgmt_header(subtype: MgmtSubtype, bssid: &[u8; 6], src_addr: &[u8; 6]) -> (frame: Vec<u8>)
    ensures
        frame@ == mgmt_header(subtype, bssid@, src_addr@),
{
    let fc: u16 = 4 * (FrameType::Management.code() as u16) + 16 * (subtype.code() as u16);
    let mut frame: Vec<u8> = Vec::with_capacity(64);
    bytes::push_le16(&mut frame, fc);
    assert(frame@ =~= bytes::le16(mgmt_control(subtype)));
    bytes::push_le16(&mut frame, 0);  // duration
    bytes::push_bytes(&mut frame, bssid.as_slice());  // addr1: destination (AP)
    bytes::push_bytes(&mut frame, src_addr.as_slice());  // addr2: source (us)
    bytes::push_bytes(&mut frame, bssid.as_slice());  // addr3: BSSID
    bytes::push_le16(&mut frame, 0);  // seq ctrl (filled by firmware)
    frame
}

/// Build an authentication frame (Open System, sequence 1).
pub fn build_auth_frame(bssid: &[u8; 6], src_addr: &[u8; 6]) -> (frame: Vec<u8>)
    ensures
        frame@ == auth_frame(bssid@, src_addr@),
{
    let mut frame: Vec<u8> = build_mgmt_header(MgmtSubtype::Auth, bssid, src_addr);
    bytes::push_le16(&mut frame, 0);  // Open System
    bytes::push_le16(&mut frame, 1);  // Sequence 1
    bytes::push_le16(&mut frame, 0);  // Status: success
    frame
}

/// Build a disassociation frame.
pub(crate) fn build_disassoc_frame(bssid: &[u8; 6], src_addr: &[u8; 6]) -> (frame: Vec<u8>)
    ensures
        frame@ == disassoc_frame(bssid@, src_addr@),
{
    let mut frame: Vec<u8> = build_mgmt_header(MgmtSubtype::Disassoc, bssid, src_addr);
    bytes::push_le16(&mut frame, 3);  // reason: deauth leaving
    frame
}

pub(crate) fn build_element(id: u8, data: &[u8]) -> (element: Vec<u8>)
    ensures
        element@ == element_bytes(id, data@),
{
    let mut element: Vec<u8> = Vec::new();
    element.push(id);
    element.push((data.len() % 256) as u8);
    assert(element@ =~= seq![id, (data@.len() % 256) as u8]);
    bytes::push_bytes(&mut element, data);
    element
}

/// Build the data portion of an RSN information element for WPA2-PSK / AES-CCMP.
pub(crate) fn build_rsn_ie_data() -> (rsn: Vec<u8>)
    ensures
        rsn@ == rsn_data(),
{
    let cipher: [u8; 4] = [0x00, 0x0F, 0xAC, 0x04];
    let akm: [u8; 4] = [0x00, 0x0F, 0xAC, 0x02];
    assert(cipher@ =~= seq![0x00u8, 0x0F, 0xAC, 0x04]);
    assert(akm@ =~= seq![0x00u8, 0x0F, 0xAC, 0x02]);
    let mut rsn: Vec<u8> = Vec::with_capacity(20);
    bytes::push_le16(&mut rsn, 1);  // RSN version 1
    assert(rsn@ =~= bytes::le16(1));
    bytes::push_bytes(&mut rsn, cipher.as_slice());  // Group cipher: AES-CCMP
    bytes::push_le16(&mut rsn, 1);  // Pairwise cipher count: 1
    bytes::push_bytes(&mut rsn, cipher.as_slice());  // Pairwise cipher: AES-CCMP
    bytes::push_le16(&mut rsn, 1);  // AKM count: 1
    bytes::push_bytes(&mut rsn, akm.as_slice());  // AKM: PSK
    bytes::push_le16(&mut rsn, 0);  // RSN capabilities
    rsn
}

fn build_assoc_elements(ssid: &str) -> (list: Vec<u8>)
    ensures
        list@ == assoc_elements(ssid@),
{
    let rates: [u8; 8] = [0x82, 0x84, 0x8B, 0x96, 0x0C, 0x12, 0x18, 0x24];
    assert(rates@ =~= supported_rates());
    let mut list: Vec<u8> = build_element(ie_id::SSID, ssid.as_bytes());
    let rates_element: Vec<u8> = build_element(ie_id::SUPPORTED_RATES, rates.as_slice());
    let rsn: Vec<u8> = build_rsn_ie_data();
    let rsn_element: Vec<u8> = build_element(ie_id::RSN, rsn.as_slice());
    bytes::push_bytes(&mut list, rates_element.as_slice());
    bytes::push_bytes(&mut list, rsn_element.as_slice());
    list
}

/// Build an association request frame.
pub fn build_assoc_request(bssid: &[u8; 6], src_addr: &[u8; 6], ssid: &str) -> (frame: Vec<u8>)
    ensures
        frame@ == assoc_request(bssid@, src_addr@, ssid@),
{
    let mut frame: Vec<u8> = build_mgmt_header(MgmtSubtype::AssocRequest, bssid, src_addr);
    // Capability: ESS + Privacy + Short Slot Time + Short Preamble
    bytes::push_le16(&mut frame, 0x0431);
    bytes::push_le16(&mut frame, 10);  // listen interval
    let list: Vec<u8> = build_assoc_elements(ssid);
    bytes::push_bytes(&mut frame, list.as_slice());
    frame
}

/// Build a QoS data frame (802.11 header only, caller appends encrypted payload).
pub fn build_qos_data_header(
    bssid: &[u8; 6],
    src_addr: &[u8; 6],
    dst_addr: &[u8; 6],
    seq_num: u16,
    tid: u8,
) -> (frame: Vec<u8>)
    ensures
        frame@ == qos_data_header(bssid@, src_addr@, dst_addr@, seq_num, tid),
{
    let fc: u16 = 4 * (FrameType::Data.code() as u16) + 16 * (DataSubtype::QosData.code() as u16)
        + 0x0100 + 0x4000;
    let mut frame: Vec<u8> = Vec::with_capacity(28);
    bytes::push_le16(&mut frame, fc);
    assert(frame@ =~= bytes::le16(qos_data_control()));
    bytes::push_le16(&mut frame, 0);  // duration
    bytes::push_bytes(&mut frame, bssid.as_slice());  // addr1: BSSID (AP)
    bytes::push_bytes(&mut frame, src_addr.as_slice());  // addr2: source (us)
    bytes::push_bytes(&mut frame, dst_addr.as_slice());  // addr3: destination
    // Sequence control: seq_num in bits 15:4, fragment 0 in bits 3:0
    bytes::push_le16(&mut frame, 16 * (seq_num % 0x1000));
    // QoS control: TID in bits 3:0
    bytes::push_le16(&mut frame, tid as u16);
    frame
}

// -------------------------------------------------------------------
// Laws
// -------------------------------------------------------------------

proof fn lemma_mgmt_control_bits(subtype: MgmtSubtype)
    ensures
        type_in(mgmt_control(subtype)) == FrameType::Management,
        subtype_in(mgmt_control(subtype)) == subtype.number(),
        !to_ds_in(mgmt_control(subtype)),
{
    let n = subtype.number() as u16;
    let raw = (16 * n) as u16;
    assert(n < 16 ==> {
        let raw = (16 * n) as u16;
        &&& (raw >> 2) & 0x03 == 0
        &&& (raw >> 4) & 0x0F == n
        &&& raw & 0x0100 == 0
    }) by (bit_vector);
    assert(raw == mgmt_control(subtype));
}

proof fn lemma_qos_data_control_bits()
    ensures
        type_in(qos_data_control()) == FrameType::Data,
        subtype_in(qos_data_control()) == DataSubtype::QosData.number(),
        is_qos_in(qos_data_control()),
        to_ds_in(qos_data_control()),
        !from_ds_in(qos_data_control()),
        protected_in(qos_data_control()),
{
    assert(qos_data_control() == 0x4188);
    assert((0x4188u16 >> 2) & 0x03 == 2 && (0x4188u16 >> 4) & 0x0F == 8 && 0x4188u16 & 0x0100 != 0
        && 0x4188u16 & 0x0200 == 0 && 0x4188u16 & 0x4000 != 0) by (bit_vector);
    assert(8u8 & 0x08 != 0) by (bit_vector);
}

/// The header of a management frame that the station builds parses as a
/// management frame of that subtype, from the station to the access point,
/// whatever follows it.
pub proof fn lemma_mgmt_header_parses(
    subtype: MgmtSubtype,
    bssid: Seq<u8>,
    src_addr: Seq<u8>,
    body: Seq<u8>,
)
    requires
        bssid.len() == 6,
        src_addr.len() == 6,
    ensures
        header_of(mgmt_header(subtype, bssid, src_addr) + body) == Some(
            Header {
                frame_control: mgmt_control(subtype),
                duration: 0,
                addr1: bssid,
                addr2: src_addr,
                addr3: bssid,
                seq_ctrl: 0,
                addr4: None,
                qos_ctrl: None,
                header_len: 24,
            },
        ),
        type_in(mgmt_control(subtype)) == FrameType::Management,
        subtype_in(mgmt_control(subtype)) == subtype.number(),
{
    let frame = mgmt_header(subtype, bssid, src_addr) + body;
    lemma_mgmt_control_bits(subtype);
    bytes::lemma_16_bit_round_trip(mgmt_control(subtype));
    assert(bytes::le16_at(frame, 0) == mgmt_control(subtype));
    assert(frame.subrange(4, 10) =~= bssid);
    assert(frame.subrange(10, 16) =~= src_addr);
    assert(frame.subrange(16, 22) =~= bssid);
}

/// The header of a data frame that the station builds parses as a protected
/// QoS data frame to the access point, with the addresses, the sequence number
/// and the TID that were put into it, whatever follows it.
pub proof fn lemma_qos_data_header_parses(
    bssid: Seq<u8>,
    src_addr: Seq<u8>,
    dst_addr: Seq<u8>,
    seq_num: u16,
    tid: u8,
    body: Seq<u8>,
)
    requires
        bssid.len() == 6,
        src_addr.len() == 6,
        dst_addr.len() == 6,
    ensures
        header_of(qos_data_header(bssid, src_addr, dst_addr, seq_num, tid) + body) == Some(
            Header {
                frame_control: qos_data_control(),
                duration: 0,
                addr1: bssid,
                addr2: src_addr,
                addr3: dst_addr,
                seq_ctrl: (16 * (seq_num % 0x1000)) as u16,
                addr4: None,
                qos_ctrl: Some(tid as u16),
                header_len: 26,
            },
        ),
        type_in(qos_data_control()) == FrameType::Data,
        is_qos_in(qos_data_control()),
        to_ds_in(qos_data_control()),
        !from_ds_in(qos_data_control()),
        protected_in(qos_data_control()),
{
    let frame = qos_data_header(bssid, src_addr, dst_addr, seq_num, tid) + body;
    lemma_qos_data_control_bits();
    assert(bytes::le16_at(frame, 0) == qos_data_control());
    assert(frame.subrange(4, 10) =~= bssid);
    assert(frame.subrange(10, 16) =~= src_addr);
    assert(frame.subrange(16, 22) =~= dst_addr);
    assert(bytes::le16_at(frame, 22) == (16 * (seq_num % 0x1000)) as u16);
    assert(bytes::le16_at(frame, 24) == tid as u16);
}

/// An element that was written is the first that is read, and what followed it
/// is read next.
pub proof fn lemma_elements_cons(id: u8, data: Seq<u8>, rest: Seq<u8>)
    requires
        data.len() < 256,
    ensures
        elements(element_bytes(id, data) + rest) == seq![Element { id, data }] + elements(rest),
{
    let whole = element_bytes(id, data) + rest;
    assert(whole.subrange(2, 2 + data.len() as int) =~= data);
    assert(whole.skip(2 + data.len() as int) =~= rest);
    assert(first_element(whole) == Some(Element { id, data }));
}

/// An association request carries three elements, and no others: the SSID, the
/// supported rates and the RSN parameters. (An SSID of 256 bytes or more does
/// not fit in an element.)
pub proof fn lemma_assoc_request_elements(bssid: Seq<u8>, src_addr: Seq<u8>, ssid: Seq<char>)
    requires
        bssid.len() == 6,
        src_addr.len() == 6,
        vstd::utf8::encode_utf8(ssid).len() < 256,
    ensures
        elements(assoc_request(bssid, src_addr, ssid).skip(28)) == seq![
            Element { id: ie_id::SSID, data: vstd::utf8::encode_utf8(ssid) },
            Element { id: ie_id::SUPPORTED_RATES, data: supported_rates() },
            Element { id: ie_id::RSN, data: rsn_data() },
        ],
{
    let name = vstd::utf8::encode_utf8(ssid);
    let none = Seq::<u8>::empty();
    let rsn = element_bytes(ie_id::RSN, rsn_data());
    let rates = element_bytes(ie_id::SUPPORTED_RATES, supported_rates());
    assert(mgmt_header(MgmtSubtype::AssocRequest, bssid, src_addr).len() == 24);
    assert(assoc_request(bssid, src_addr, ssid).skip(28) =~= element_bytes(ie_id::SSID, name) + (
    rates + (rsn + none)));
    assert(rsn_data().len() == 20);
    lemma_elements_cons(ie_id::SSID, name, rates + (rsn + none));
    lemma_elements_cons(ie_id::SUPPORTED_RATES, supported_rates(), rsn + none);
    lemma_elements_cons(ie_id::RSN, rsn_data(), none);
    assert(elements(none) =~= Seq::empty());
}

proof fn lemma_control_bits(raw: u16)
    by (bit_vector)
    ensures
        raw & 0x03 == raw % 4,
        (raw >> 2) & 0x03 == raw / 4 % 4,
        (raw >> 4) & 0x0F == raw / 16 % 16,
        (raw & 0x0100 != 0) == (raw / 256 % 2 == 1),
        (raw & 0x0200 != 0) == (raw / 512 % 2 == 1),
        (raw & 0x4000 != 0) == (raw / 16384 % 2 == 1),
        (raw / 16 % 16) / 8 == raw / 128 % 2,
{
}

/// The fields of a frame control field, bit by bit: version in bits 1:0, type in
/// bits 3:2, subtype in bits 7:4, To DS in bit 8, From DS in bit 9, Protected in
/// bit 14. A QoS data frame has type 2 and the highest bit of its subtype set.
pub proof fn lemma_control_fields(raw: u16)
    ensures
        version_in(raw) == raw % 4,
        type_in(raw).number() == raw / 4 % 4,
        subtype_in(raw) == raw / 16 % 16,
        to_ds_in(raw) <==> raw / 256 % 2 == 1,
        from_ds_in(raw) <==> raw / 512 % 2 == 1,
        protected_in(raw) <==> raw / 16384 % 2 == 1,
        is_qos_in(raw) <==> raw / 4 % 4 == 2 && raw / 128 % 2 == 1,
{
    lemma_control_bits(raw);
    let subtype = subtype_in(raw);
    assert((subtype & 0x08 != 0) == (subtype / 8 == 1)) by (bit_vector)
        requires
            subtype < 16,
    ;
}

/// The numbers of the frame types and of the management and data subtypes.
pub proof fn lemma_frame_numbers()
    ensures
        FrameType::Management.number() == 0,
        FrameType::Control.number() == 1,
        FrameType::Data.number() == 2,
        FrameType::Extension.number() == 3,
        MgmtSubtype::AssocRequest.number() == 0,
        MgmtSubtype::AssocResponse.number() == 1,
        MgmtSubtype::ReassocRequest.number() == 2,
        MgmtSubtype::ReassocResponse.number() == 3,
        MgmtSubtype::ProbeRequest.number() == 4,
        MgmtSubtype::ProbeResponse.number() == 5,
        MgmtSubtype::Beacon.number() == 8,
        MgmtSubtype::Disassoc.number() == 10,
        MgmtSubtype::Auth.number() == 11,
        MgmtSubtype::Deauth.number() == 12,
        MgmtSubtype::Action.number() == 13,
        DataSubtype::Data.number() == 0,
        DataSubtype::Null.number() == 4,
        DataSubtype::QosData.number() == 8,
        DataSubtype::QosNull.number() == 12,
{
}

/// The length of the MAC header by the first two bytes of a frame: 24 bytes, six
/// more where both DS bits are set, two more in a QoS data frame.
pub open spec fn header_len_by(first: u8, second: u8) -> int {
    24 + (if second % 4 == 3 {
        6int
    } else {
        0
    }) + (if first / 4 % 4 == 2 && first / 128 == 1 {
        2int
    } else {
        0
    })
}

proof fn lemma_control_split(raw: u16, low: u16, high: u16)
    by (bit_vector)
    requires
        low < 256,
        high < 256,
        raw == low + 256 * high,
    ensures
        raw / 4 % 4 == low / 4 % 4,
        raw / 128 % 2 == low / 128,
        (raw / 256 % 2 == 1 && raw / 512 % 2 == 1) == (high % 4 == 3),
        raw / 16 % 2 == low / 16 % 2,
{
}

proof fn lemma_header_len_by(data: Seq<u8>)
    ensures
        ({
            let raw = bytes::le16_at(data, 0);
            &&& header_len_for(raw) == header_len_by(data[0], data[1])
            &&& has_addr4(raw) <==> data[1] % 4 == 3
            &&& is_qos_in(raw) <==> data[0] / 4 % 4 == 2 && data[0] / 128 == 1
            &&& qos_offset(raw) == if data[1] % 4 == 3 {
                30int
            } else {
                24
            }
        }),
{
    let raw = bytes::le16_at(data, 0);
    lemma_control_fields(raw);
    lemma_control_split(raw, data[0] as u16, data[1] as u16);
}

/// The MAC header, byte by byte. A frame has one exactly where it is as long as
/// its first two bytes announce.
pub proof fn lemma_header_bytes(data: Seq<u8>)
    ensures
        header_of(data) is Some <==> data.len() >= header_len_by(data[0], data[1]),
        header_of(data) matches Some(header) ==> {
            let four = data[1] % 4 == 3;
            let qos = data[0] / 4 % 4 == 2 && data[0] / 128 == 1;
            &&& header.header_len == header_len_by(data[0], data[1])
            &&& header.frame_control == data[0] + 256 * data[1]
            &&& header.duration == data[2] + 256 * data[3]
            &&& header.addr1 == data.subrange(4, 10)
            &&& header.addr2 == data.subrange(10, 16)
            &&& header.addr3 == data.subrange(16, 22)
            &&& header.seq_ctrl == data[22] + 256 * data[23]
            &&& header.addr4 is Some <==> four
            &&& four ==> header.addr4 == Some(data.subrange(24, 30))
            &&& header.qos_ctrl is Some <==> qos
            &&& qos && !four ==> header.qos_ctrl == Some((data[24] + 256 * data[25]) as u16)
            &&& qos && four ==> header.qos_ctrl == Some((data[30] + 256 * data[31]) as u16)
        },
{
    lemma_header_len_by(data);
}

/// An element is an ID, the length of its data and the data: written so, it is
/// the first that is read, whatever it holds, and what follows it is read next.
pub proof fn lemma_element_is_read(id: u8, len: u8, data: Seq<u8>, rest: Seq<u8>)
    requires
        data.len() == len,
    ensures
        elements(seq![id, len] + data + rest) == seq![Element { id, data }] + elements(rest),
        first_element(seq![id, len] + data + rest) == Some(Element { id, data }),
        behind_element(seq![id, len] + data + rest) == rest,
{
    assert(seq![id, len] + data =~= element_bytes(id, data));
    lemma_elements_cons(id, data, rest);
    let whole = seq![id, len] + data + rest;
    assert(whole.subrange(2, 2 + data.len() as int) =~= data);
    assert(whole.skip(2 + data.len() as int) =~= rest);
}

/// Bytes that are too few for an element, or fewer than the second of them
/// announces, hold no element.
pub proof fn lemma_cut_element_is_not_read(cut: Seq<u8>)
    requires
        cut.len() < 2 || cut.len() < 2 + cut[1],
    ensures
        elements(cut) == Seq::<Element>::empty(),
        first_element(cut) is None,
        behind_element(cut) == if cut.len() < 2 {
            cut
        } else {
            cut.skip(2)
        },
{
}

/// What one more element adds to the elements before it: an SSID element
/// (number 0) in valid UTF-8 sets the SSID, a DS Parameter Set (number 3) that is
/// not empty sets the channel, an RSN element (number 48) says that there is one,
/// and nothing else changes. Without elements there is no SSID, no channel and no
/// RSN.
pub proof fn lemma_one_more_element(list: Seq<Element>, element: Element)
    ensures
        ssid_among(Seq::empty()) == Seq::<char>::empty(),
        channel_among(Seq::empty()) == 0,
        !rsn_among(Seq::empty()),
        element.id == 0 && vstd::utf8::valid_utf8(element.data) ==> ssid_among(list.push(element))
            == vstd::utf8::decode_utf8(element.data),
        !(element.id == 0 && vstd::utf8::valid_utf8(element.data)) ==> ssid_among(
            list.push(element),
        ) == ssid_among(list),
        element.id == 3 && element.data.len() > 0 ==> channel_among(list.push(element))
            == element.data[0],
        !(element.id == 3 && element.data.len() > 0) ==> channel_among(list.push(element))
            == channel_among(list),
        rsn_among(list.push(element)) <==> rsn_among(list) || element.id == 48,
{
    let more = list.push(element);
    assert(more.drop_last() =~= list);
    assert(more.last() == element);
    assert forall|i: int| 0 <= i < list.len() implies more[i] == list[i] by {}
    if rsn_among(list) {
        let i = choose|i: int| 0 <= i < list.len() && (#[trigger] list[i]).id == ie_id::RSN;
        assert(more[i].id == ie_id::RSN);
    }
    if element.id == 48 {
        assert(more[list.len() as int].id == ie_id::RSN);
    }
    if rsn_among(more) && element.id != 48 {
        let i = choose|i: int| 0 <= i < more.len() && (#[trigger] more[i]).id == ie_id::RSN;
        assert(list[i].id == ie_id::RSN);
    }
}

/// A beacon, byte by byte. A frame holds one exactly where its header is followed
/// by at least twelve bytes; behind these stand the elements. The network is open
/// exactly where bit 4 of the capabilities is clear and no element is an RSN
/// element: no other bit of the capabilities counts.
pub proof fn lemma_beacon_bytes(data: Seq<u8>)
    ensures
        ({
            let start = header_len_by(data[0], data[1]);
            &&& beacon_of(data) is Some <==> data.len() >= start + 12
            &&& beacon_of(data) matches Some(beacon) ==> {
                let list = elements(data.skip(start + 12));
                &&& beacon.bssid == data.subrange(16, 22)
                &&& beacon.beacon_interval == data[start + 8] + 256 * data[start + 9]
                &&& beacon.capability == data[start + 10] + 256 * data[start + 11]
                &&& beacon.ssid == ssid_among(list)
                &&& beacon.channel == channel_among(list)
                &&& beacon.has_rsn == exists|i: int|
                    0 <= i < list.len() && (#[trigger] list[i]).id == 48
                &&& beacon.is_open == (data[start + 10] / 16 % 2 == 0 && !beacon.has_rsn)
            }
        }),
{
    lemma_header_bytes(data);
    let start = header_len_by(data[0], data[1]);
    if data.len() >= start + 12 {
        let body = data.skip(start);
        assert(body.skip(12) =~= data.skip(start + 12));
        let low = data[start + 10];
        let capability = bytes::le16_at(body, 10);
        assert(capability == low + 256 * data[start + 11]);
        assert((capability & 0x0010 == 0) == (capability / 16 % 2 == 0)) by (bit_vector);
        lemma_control_split(capability, low as u16, data[start + 11] as u16);
    }
}

/// Of two networks without RSN elements, either both are open or neither is,
/// where bit 4 of their capabilities is the same, whatever the other bits are;
/// where it differs, exactly one is open. A network with an RSN element is not
/// open.
pub proof fn lemma_privacy_bit_decides(data: Seq<u8>, data2: Seq<u8>)
    requires
        beacon_of(data) is Some,
        beacon_of(data2) is Some,
    ensures
        ({
            let a = beacon_of(data).unwrap();
            let b = beacon_of(data2).unwrap();
            &&& a.has_rsn ==> !a.is_open
            &&& !a.has_rsn ==> a.is_open == (a.capability / 16 % 2 == 0)
            &&& !a.has_rsn && !b.has_rsn ==> (a.is_open == b.is_open <==> a.capability / 16 % 2
                == b.capability / 16 % 2)
        }),
{
    lemma_beacon_bytes(data);
    lemma_beacon_bytes(data2);
    let a = beacon_of(data).unwrap();
    let b = beacon_of(data2).unwrap();
    let start = header_len_by(data[0], data[1]);
    let start2 = header_len_by(data2[0], data2[1]);
    lemma_control_split(a.capability, data[start + 10] as u16, data[start + 11] as u16);
    lemma_control_split(b.capability, data2[start2 + 10] as u16, data2[start2 + 11] as u16);
}

/// The frames that the station sends to join and to leave, byte by byte: what
/// they hold besides the addresses and the SSID is always the same.
pub proof fn lemma_station_frames(bssid: Seq<u8>, src_addr: Seq<u8>, ssid: Seq<char>)
    requires
        bssid.len() == 6,
        src_addr.len() == 6,
    ensures
        auth_frame(bssid, src_addr) == seq![0xB0u8, 0, 0, 0] + bssid + src_addr + bssid + seq![
            0u8,
            0,
            0,
            0,
            1,
            0,
            0,
            0,
        ],
        disassoc_frame(bssid, src_addr) == seq![0xA0u8, 0, 0, 0] + bssid + src_addr + bssid + seq![
            0u8,
            0,
            3,
            0,
        ],
        assoc_request(bssid, src_addr, ssid).take(28) == seq![0u8, 0, 0, 0] + bssid + src_addr
            + bssid + seq![0u8, 0, 0x31, 0x04, 10, 0],
        supported_rates() == seq![0x82u8, 0x84, 0x8B, 0x96, 0x0C, 0x12, 0x18, 0x24],
        rsn_data() == seq![
            1u8,
            0,
            0x00,
            0x0F,
            0xAC,
            0x04,
            1,
            0,
            0x00,
            0x0F,
            0xAC,
            0x04,
            1,
            0,
            0x00,
            0x0F,
            0xAC,
            0x02,
            0,
            0,
        ],
{
    assert(assoc_request(bssid, src_addr, ssid).take(28) =~= seq![0u8, 0, 0, 0] + bssid + src_addr
        + bssid + seq![0u8, 0, 0x31, 0x04, 10, 0]);
}

/// The association request as a whole: what comes before the elements, and an
/// SSID of up to 255 bytes with its length in front.
pub proof fn lemma_assoc_request_bytes(bssid: Seq<u8>, src_addr: Seq<u8>, ssid: Seq<char>)
    requires
        bssid.len() == 6,
        src_addr.len() == 6,
        vstd::utf8::encode_utf8(ssid).len() < 256,
    ensures
        ({
            let name = vstd::utf8::encode_utf8(ssid);
            let frame = assoc_request(bssid, src_addr, ssid);
            let n = 30 + name.len() as int;
            &&& frame.len() == n + 32
            &&& frame[28] == 0
            &&& frame[29] == name.len()
            &&& frame.subrange(30, n) == name
            &&& frame[n] == 1
            &&& frame[n + 1] == 8
            &&& frame.subrange(n + 2, n + 10) == supported_rates()
            &&& frame[n + 10] == 48
            &&& frame[n + 11] == 20
            &&& frame.skip(n + 12) == rsn_data()
        }),
{
    let name = vstd::utf8::encode_utf8(ssid);
    let frame = assoc_request(bssid, src_addr, ssid);
    let n = 30 + name.len() as int;
    assert(mgmt_header(MgmtSubtype::AssocRequest, bssid, src_addr).len() == 24);
    assert(rsn_data().len() == 20);
    let head = mgmt_header(MgmtSubtype::AssocRequest, bssid, src_addr) + bytes::le16(0x0431)
        + bytes::le16(10);
    assert(frame =~= head + (seq![0u8, name.len() as u8] + name) + (seq![1u8, 8] + supported_rates())
        + (seq![48u8, 20] + rsn_data()));
    assert(frame.subrange(30, n) =~= name);
    assert(frame.subrange(n + 2, n + 10) =~= supported_rates());
    assert(frame.skip(n + 12) =~= rsn_data());
}

/// The header of a data frame, byte by byte: bits 15:4 of sequence control hold
/// the sequence number modulo 4096, and QoS control holds the TID.
pub proof fn lemma_qos_data_header_bytes(
    bssid: Seq<u8>,
    src_addr: Seq<u8>,
    dst_addr: Seq<u8>,
    seq_num: u16,
    tid: u8,
)
    requires
        bssid.len() == 6,
        src_addr.len() == 6,
        dst_addr.len() == 6,
    ensures
        ({
            let header = qos_data_header(bssid, src_addr, dst_addr, seq_num, tid);
            &&& header.len() == 26
            &&& header.take(22) == seq![0x88u8, 0x41, 0, 0] + bssid + src_addr + dst_addr
            &&& header[22] + 256 * header[23] == 16 * (seq_num % 4096)
            &&& header[24] == tid
            &&& header[25] == 0
        }),
{
    assert(qos_data_control() == 0x4188);
    assert(qos_data_header(bssid, src_addr, dst_addr, seq_num, tid).take(22) =~= seq![
        0x88u8,
        0x41,
        0,
        0,
    ] + bssid + src_addr + dst_addr);
}

} // verus!
