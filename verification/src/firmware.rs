//! Firmware loading for Intel WiFi devices.
//!
//! # Firmware requirement
//!
//! Intel WiFi hardware is completely inert without firmware microcode. The chip
//! contains a minimal bootstrap ROM that can load firmware into SRAM via the
//! BSM (Bootstrap State Machine), but all 802.11 MAC, PHY, and radio
//! functionality lives in the firmware image.
//!
//! ## Where to get firmware
//!
//! Firmware images ship with Linux (`/lib/firmware/`) and are also available from
//! <https://git.kernel.org/pub/scm/linux/kernel/git/firmware/linux-firmware.git>.
//!
//! For bare-metal, the firmware `.ucode` file must be placed on the FAT32 persist
//! partition under `/firmware/`. The expected filename depends on the device
//! variant, see [`WifiVariant::firmware_name()`](crate::WifiVariant::firmware_name).
//!
//! ## Firmware file format
//!
//! iwlwifi `.ucode` files use a TLV (Type-Length-Value) container format:
//!
//! ```text
//! Offset  Size  Description
//! ------  ----  -----------
//! 0x00    4     Magic: 0x0000 or IWL_TLV_UCODE_MAGIC (0x0a4c5749)
//! 0x04    4     Zero (padding)
//! 0x08    4     Alternative count
//! 0x0C    4     Version (API)
//! 0x10    4     Build number
//! 0x14    ...   TLV entries: [type:u32] [length:u32] [data:u8*length] [padding to 4]
//! ```
//!
//! Key TLV types:
//! - `IWL_UCODE_TLV_INST` (1): Instruction SRAM image
//! - `IWL_UCODE_TLV_DATA` (2): Data SRAM image
//! - `IWL_UCODE_TLV_INIT` (3): Init instruction image (runs once at boot)
//! - `IWL_UCODE_TLV_INIT_DATA` (4): Init data image
//! - `IWL_UCODE_TLV_FW_VERSION` (36): Firmware version string
//! - `IWL_UCODE_TLV_SEC` (50+): Paged firmware sections
//!
//! Entries of any other type than the first four are passed over. Fewer than
//! eight bytes behind the last entry are no entry and are passed over too.
use crate::bytes;
use crate::registers::{PollStatus, RegisterPoll, RegisterWrite};
use crate::views;
use vstd::prelude::*;

verus! {

/// Parsed firmware image ready for upload to device SRAM.
#[derive(Debug)]
pub struct FirmwareImage {
    /// Instruction SRAM section.
    pub inst_section: Vec<u8>,
    /// Data SRAM section.
    pub data_section: Vec<u8>,
    /// Init instruction section (runs once during first boot).
    pub init_inst_section: Vec<u8>,
    /// Init data section.
    pub init_data_section: Vec<u8>,
    /// Firmware API version.
    pub api_version: u32,
    /// Build number.
    pub build: u32,
}

/// The contents of a firmware image.
pub ghost struct Image {
    pub inst: Seq<u8>,
    pub data: Seq<u8>,
    pub init_inst: Seq<u8>,
    pub init_data: Seq<u8>,
    pub api_version: u32,
    pub build: u32,
}

impl View for FirmwareImage {
    type V = Image;

    open spec fn view(&self) -> Image {
        Image {
            inst: self.inst_section@,
            data: self.data_section@,
            init_inst: self.init_inst_section@,
            init_data: self.init_data_section@,
            api_version: self.api_version,
            build: self.build,
        }
    }
}

/// TLV type of the instruction section.
pub const TLV_INST: u32 = 1;

/// TLV type of the data section.
pub const TLV_DATA: u32 = 2;

/// TLV type of the init instruction section.
pub const TLV_INIT: u32 = 3;

/// TLV type of the init data section.
pub const TLV_INIT_DATA: u32 = 4;

/// Magic value at the start of `.ucode` files ("IWL\n" in little-endian).
pub const IWL_UCODE_TLV_MAGIC: u32 = 0x0A4C_5749;

/// Where the TLV entries start.
pub const TLV_START: usize = 0x14;

/// Length of the shortest image that can hold an entry's type.
pub const MIN_IMAGE_LEN: usize = 0x18;

// -------------------------------------------------------------------
// TLV entries
// -------------------------------------------------------------------

/// An entry of a TLV container.
pub ghost struct Tlv {
    pub kind: u32,
    pub value: Seq<u8>,
}

/// A length rounded up to a multiple of four.
pub open spec fn aligned(len: int) -> int {
    (len + 3) / 4 * 4
}

/// What is left of `data` behind its first `n` bytes.
pub open spec fn behind(data: Seq<u8>, n: int) -> Seq<u8> {
    if n < data.len() {
        data.skip(n)
    } else {
        Seq::empty()
    }
}

/// The entry at the start of `data`, if it is whole.
pub open spec fn first_tlv(data: Seq<u8>) -> Option<Tlv> {
    if data.len() >= 8 && data.len() >= 8 + bytes::le32_at(data, 4) {
        Some(
            Tlv {
                kind: bytes::le32_at(data, 0),
                value: data.subrange(8, 8 + bytes::le32_at(data, 4)),
            },
        )
    } else {
        None
    }
}

/// The entries in `data`. There are none, not even an empty list, if one of them
/// runs past the end.
#[verifier::opaque]
pub open spec fn tlvs(data: Seq<u8>) -> Option<Seq<Tlv>>
    decreases data.len(),
{
    if data.len() < 8 {
        Some(Seq::empty())
    } else {
        match first_tlv(data) {
            Some(tlv) => in_front(
                seq![tlv],
                tlvs(behind(data, 8 + aligned(tlv.value.len() as int))),
            ),
            None => None,
        }
    }
}

/// Some entries in front of further ones, if there are such.
pub open spec fn in_front(list: Seq<Tlv>, rest: Option<Seq<Tlv>>) -> Option<Seq<Tlv>> {
    match rest {
        Some(further) => Some(list + further),
        None => None,
    }
}

/// The value of the last entry of the given type, empty if there is none.
pub open spec fn section(list: Seq<Tlv>, kind: u32) -> Seq<u8>
    decreases list.len(),
{
    if list.len() == 0 {
        Seq::empty()
    } else if list.last().kind == kind {
        list.last().value
    } else {
        section(list.drop_last(), kind)
    }
}

/// The image in the bytes of a `.ucode` file: none if the file is too short, has
/// another magic value, or is corrupt, because an entry runs past its end or no
/// entry holds instructions.
pub open spec fn image_of(file: Seq<u8>) -> Option<Image> {
    let magic = bytes::le32_at(file, 0);
    if file.len() < MIN_IMAGE_LEN || (magic != IWL_UCODE_TLV_MAGIC && magic != 0) {
        None
    } else {
        match tlvs(file.skip(TLV_START as int)) {
            Some(list) => if section(list, TLV_INST).len() == 0 {
                None
            } else {
                Some(
                    Image {
                        inst: section(list, TLV_INST),
                        data: section(list, TLV_DATA),
                        init_inst: section(list, TLV_INIT),
                        init_data: section(list, TLV_INIT_DATA),
                        api_version: bytes::le32_at(file, 0x0C),
                        build: bytes::le32_at(file, 0x10),
                    },
                )
            },
            None => None,
        }
    }
}

/// The bytes of one entry, padded to a multiple of four.
pub open spec fn tlv_bytes(tlv: Tlv) -> Seq<u8> {
    bytes::le32(tlv.kind) + bytes::le32(tlv.value.len() as u32) + tlv.value + bytes::zeros(
        (aligned(tlv.value.len() as int) - tlv.value.len()) as nat,
    )
}

/// The bytes of a list of entries.
pub open spec fn container(list: Seq<Tlv>) -> Seq<u8>
    decreases list.len(),
{
    if list.len() == 0 {
        Seq::empty()
    } else {
        tlv_bytes(list[0]) + container(list.skip(1))
    }
}

/// Reading back a list of entries gives the entries that were written.
pub proof fn lemma_container_parses(list: Seq<Tlv>)
    requires
        forall|i: int| 0 <= i < list.len() ==> (#[trigger] list[i]).value.len() <= u32::MAX,
    ensures
        tlvs(container(list)) == Some(list),
    decreases list.len(),
{
    reveal(tlvs);
    if list.len() > 0 {
        let rest = container(list.skip(1));
        assert(list[0].value.len() <= u32::MAX);
        lemma_tlv_in_front(list[0], rest);
        assert(container(list).len() >= 8);
        lemma_container_parses(list.skip(1));
        assert(seq![list[0]] + list.skip(1) =~= list);
    }
}

/// The bytes of a `.ucode` file.
pub open spec fn ucode_file(
    magic: u32,
    alternatives: u32,
    api_version: u32,
    build: u32,
    list: Seq<Tlv>,
) -> Seq<u8> {
    bytes::le32(magic) + bytes::zeros(4) + bytes::le32(alternatives) + bytes::le32(api_version)
        + bytes::le32(build) + container(list)
}

/// A file in the `.ucode` format that holds instructions parses, to the versions
/// and to the last section of each type that were put into it.
pub proof fn lemma_ucode_file_parses(
    magic: u32,
    alternatives: u32,
    api_version: u32,
    build: u32,
    list: Seq<Tlv>,
)
    requires
        magic == 0 || magic == IWL_UCODE_TLV_MAGIC,
        forall|i: int| 0 <= i < list.len() ==> (#[trigger] list[i]).value.len() <= u32::MAX,
        section(list, TLV_INST).len() > 0,
    ensures
        image_of(ucode_file(magic, alternatives, api_version, build, list)) == Some(
            Image {
                inst: section(list, TLV_INST),
                data: section(list, TLV_DATA),
                init_inst: section(list, TLV_INIT),
                init_data: section(list, TLV_INIT_DATA),
                api_version,
                build,
            },
        ),
{
    let file = ucode_file(magic, alternatives, api_version, build, list);
    bytes::lemma_32_bit_round_trip(magic);
    bytes::lemma_32_bit_round_trip(api_version);
    bytes::lemma_32_bit_round_trip(build);
    lemma_container_parses(list);
    assert(file.skip(TLV_START as int) =~= container(list));
    assert(container(list).len() >= 8);
    assert(file.subrange(0, 4) =~= bytes::le32(magic));
    assert(file.subrange(0x0C, 0x10) =~= bytes::le32(api_version));
    assert(file.subrange(0x10, 0x14) =~= bytes::le32(build));
    assert(bytes::le32_at(file, 0) == bytes::le32_at(file.subrange(0, 4), 0));
    assert(bytes::le32_at(file, 0x0C) == bytes::le32_at(file.subrange(0x0C, 0x10), 0));
    assert(bytes::le32_at(file, 0x10) == bytes::le32_at(file.subrange(0x10, 0x14), 0));
}

/// An entry at the end of a file changes the section of its own type and no
/// other.
pub proof fn lemma_appended_entry(
    magic: u32,
    alternatives: u32,
    api_version: u32,
    build: u32,
    list: Seq<Tlv>,
    tlv: Tlv,
)
    requires
        magic == 0 || magic == IWL_UCODE_TLV_MAGIC,
        forall|i: int| 0 <= i < list.len() ==> (#[trigger] list[i]).value.len() <= u32::MAX,
        tlv.value.len() <= u32::MAX,
        section(list, TLV_INST).len() > 0,
        tlv.kind == TLV_INST ==> tlv.value.len() > 0,
    ensures
        ({
            let file = ucode_file(magic, alternatives, api_version, build, list);
            let before = image_of(file).unwrap();
            &&& image_of(file) is Some
            &&& image_of(file + tlv_bytes(tlv)) == Some(
                Image {
                    inst: if tlv.kind == TLV_INST {
                        tlv.value
                    } else {
                        before.inst
                    },
                    data: if tlv.kind == TLV_DATA {
                        tlv.value
                    } else {
                        before.data
                    },
                    init_inst: if tlv.kind == TLV_INIT {
                        tlv.value
                    } else {
                        before.init_inst
                    },
                    init_data: if tlv.kind == TLV_INIT_DATA {
                        tlv.value
                    } else {
                        before.init_data
                    },
                    ..before
                },
            )
        }),
{
    let file = ucode_file(magic, alternatives, api_version, build, list);
    let longer = list.push(tlv);
    assert(longer.drop_last() =~= list);
    assert forall|i: int| 0 <= i < longer.len() implies (#[trigger] longer[i]).value.len()
        <= u32::MAX by {
        if i < list.len() {
            assert(longer[i] == list[i]);
        }
    }
    lemma_container_push(list, tlv);
    assert(ucode_file(magic, alternatives, api_version, build, longer) =~= file + tlv_bytes(tlv));
    lemma_ucode_file_parses(magic, alternatives, api_version, build, list);
    lemma_ucode_file_parses(magic, alternatives, api_version, build, longer);
}

proof fn lemma_container_push(list: Seq<Tlv>, tlv: Tlv)
    ensures
        container(list.push(tlv)) == container(list) + tlv_bytes(tlv),
    decreases list.len(),
{
    let longer = list.push(tlv);
    if list.len() == 0 {
        assert(longer.skip(1) =~= Seq::<Tlv>::empty());
        assert(container(longer.skip(1)) =~= Seq::<u8>::empty());
        assert(tlv_bytes(tlv) + Seq::<u8>::empty() =~= Seq::<u8>::empty() + tlv_bytes(tlv));
    } else {
        lemma_container_push(list.skip(1), tlv);
        assert(longer.skip(1) =~= list.skip(1).push(tlv));
        assert(tlv_bytes(list[0]) + (container(list.skip(1)) + tlv_bytes(tlv)) =~= (tlv_bytes(
            list[0],
        ) + container(list.skip(1))) + tlv_bytes(tlv));
    }
}

/// A file whose last entry runs past its end is no image.
pub proof fn lemma_cut_entry_is_corrupt(
    magic: u32,
    alternatives: u32,
    api_version: u32,
    build: u32,
    list: Seq<Tlv>,
    cut: Seq<u8>,
)
    requires
        forall|i: int| 0 <= i < list.len() ==> (#[trigger] list[i]).value.len() <= u32::MAX,
        cut.len() >= 8,
        cut.len() < 8 + bytes::le32_at(cut, 4),
    ensures
        image_of(ucode_file(magic, alternatives, api_version, build, list) + cut) is None,
{
    let file = ucode_file(magic, alternatives, api_version, build, list) + cut;
    lemma_container_cut(list, cut);
    assert(file.skip(TLV_START as int) =~= container(list) + cut);
}

proof fn lemma_container_cut(list: Seq<Tlv>, cut: Seq<u8>)
    requires
        forall|i: int| 0 <= i < list.len() ==> (#[trigger] list[i]).value.len() <= u32::MAX,
        cut.len() >= 8,
        cut.len() < 8 + bytes::le32_at(cut, 4),
    ensures
        tlvs(container(list) + cut) is None,
    decreases list.len(),
{
    reveal(tlvs);
    if list.len() == 0 {
        assert(container(list) + cut =~= cut);
    } else {
        let rest = container(list.skip(1)) + cut;
        assert(list[0].value.len() <= u32::MAX);
        lemma_tlv_in_front(list[0], rest);
        assert(container(list) + cut =~= tlv_bytes(list[0]) + rest);
        lemma_container_cut(list.skip(1), cut);
    }
}

/// The entry at the start of some bytes, and what is left behind it.
proof fn lemma_tlv_in_front(tlv: Tlv, rest: Seq<u8>)
    requires
        tlv.value.len() <= u32::MAX,
    ensures
        first_tlv(tlv_bytes(tlv) + rest) == Some(tlv),
        behind(tlv_bytes(tlv) + rest, 8 + aligned(tlv.value.len() as int)) == rest,
{
    let data = tlv_bytes(tlv) + rest;
    let len = tlv.value.len() as u32;
    bytes::lemma_32_bit_round_trip(tlv.kind);
    bytes::lemma_32_bit_round_trip(len);
    assert(tlv_bytes(tlv).len() == 8 + aligned(len as int));
    assert(data[0] == bytes::le32(tlv.kind)[0]);
    assert(data[1] == bytes::le32(tlv.kind)[1]);
    assert(data[2] == bytes::le32(tlv.kind)[2]);
    assert(data[3] == bytes::le32(tlv.kind)[3]);
    assert(data[4] == bytes::le32(len)[0]);
    assert(data[5] == bytes::le32(len)[1]);
    assert(data[6] == bytes::le32(len)[2]);
    assert(data[7] == bytes::le32(len)[3]);
    assert(data.subrange(8, 8 + len) =~= tlv.value);
    assert(behind(data, 8 + aligned(len as int)) =~= rest);
}

/// The number of bytes that round a length up.
proof fn lemma_padding(len: u32)
    ensures
        aligned(len as int) == len + (4 - len % 4) % 4,
{
}

/// The entry at `offset`, and where the next one starts.
proof fn lemma_tlvs_at(data: Seq<u8>, offset: int)
    requires
        0 <= offset <= data.len(),
    ensures
        ({
            let rest = tlvs(data.skip(offset));
            let len = bytes::le32_at(data, offset + 4);
            let next = offset + 8 + aligned(len as int);
            if data.len() < offset + 8 {
                rest == Some(Seq::<Tlv>::empty())
            } else if data.len() < offset + 8 + len {
                rest is None
            } else {
                rest == in_front(
                    seq![
                        Tlv {
                            kind: bytes::le32_at(data, offset),
                            value: data.subrange(offset + 8, offset + 8 + len),
                        },
                    ],
                    tlvs(
                        data.skip(
                            if next < data.len() {
                                next
                            } else {
                                data.len() as int
                            },
                        ),
                    ),
                )
            }
        }),
{
    reveal(tlvs);
    let here = data.skip(offset);
    let len = bytes::le32_at(data, offset + 4);
    let next = offset + 8 + aligned(len as int);
    if data.len() >= offset + 8 {
        assert(bytes::le32_at(here, 0) == bytes::le32_at(data, offset));
        assert(bytes::le32_at(here, 4) == len);
        if data.len() >= offset + 8 + len {
            assert(here.subrange(8, 8 + len) =~= data.subrange(offset + 8, offset + 8 + len));
            if next < data.len() {
                assert(behind(here, 8 + aligned(len as int)) =~= data.skip(next));
            } else {
                assert(behind(here, 8 + aligned(len as int)) =~= data.skip(data.len() as int));
            }
        }
    }
}

/// Entries in front of entries in front of further ones.
proof fn lemma_in_front_of(a: Seq<Tlv>, b: Seq<Tlv>, rest: Option<Seq<Tlv>>)
    ensures
        in_front(a, in_front(b, rest)) == in_front(a + b, rest),
        in_front(Seq::empty(), rest) == rest,
{
    if let Some(further) = rest {
        assert(a + (b + further) =~= (a + b) + further);
        assert(Seq::empty() + further =~= further);
    }
}

fn copy_of(data: &[u8]) -> (copy: Vec<u8>)
    ensures
        copy@ == data@,
{
    let mut copy: Vec<u8> = Vec::with_capacity(data.len());
    bytes::push_bytes(&mut copy, data);
    assert(copy@ =~= data@);
    copy
}

impl FirmwareImage {
    /// Take in one entry: it replaces the section that it holds, if any.
    fn take_section(&mut self, kind: u32, value: &[u8], Ghost(list): Ghost<Seq<Tlv>>)
        requires
            old(self)@.holds(list),
        ensures
            final(self)@.holds(list.push(Tlv { kind, value: value@ })),
            final(self)@.api_version == old(self)@.api_version,
            final(self)@.build == old(self)@.build,
    {
        if kind == TLV_INST {
            self.inst_section = copy_of(value);
        } else if kind == TLV_DATA {
            self.data_section = copy_of(value);
        } else if kind == TLV_INIT {
            self.init_inst_section = copy_of(value);
        } else if kind == TLV_INIT_DATA {
            self.init_data_section = copy_of(value);
        }
        assert(list.push(Tlv { kind, value: value@ }).drop_last() =~= list);
    }
}

impl Image {
    /// Whether the sections are those of the given entries.
    pub open spec fn holds(self, list: Seq<Tlv>) -> bool {
        &&& self.inst == section(list, TLV_INST)
        &&& self.data == section(list, TLV_DATA)
        &&& self.init_inst == section(list, TLV_INIT)
        &&& self.init_data == section(list, TLV_INIT_DATA)
    }
}

/// Parse a `.ucode` firmware image from raw bytes.
///
/// Returns `None` if the image is corrupt, too short, or has an unrecognized
/// magic value. It is corrupt if an entry extends past its end, or if it holds no
/// instruction section.
pub fn parse_firmware(data: &[u8]) -> (image: Option<FirmwareImage>)
    ensures
        views::optional(image) == image_of(data@),
{
    if data.len() < MIN_IMAGE_LEN {
        return None;
    }
    let magic: u32 = bytes::read_le32(data, 0);
    if magic != IWL_UCODE_TLV_MAGIC && magic != 0 {
        return None;
    }
    let mut fw = FirmwareImage {
        inst_section: Vec::new(),
        data_section: Vec::new(),
        init_inst_section: Vec::new(),
        init_data_section: Vec::new(),
        api_version: bytes::read_le32(data, 0x0C),
        build: bytes::read_le32(data, 0x10),
    };
    let n: usize = data.len();
    let mut offset: usize = TLV_START;
    let ghost all = tlvs(data@.skip(TLV_START as int));
    let ghost mut done: Seq<Tlv> = Seq::empty();
    proof {
        assert(fw@.inst =~= Seq::<u8>::empty());
        assert(fw@.data =~= Seq::<u8>::empty());
        assert(fw@.init_inst =~= Seq::<u8>::empty());
        assert(fw@.init_data =~= Seq::<u8>::empty());
        lemma_in_front_of(done, done, all);
    }
    while n - offset >= 8
        invariant
            n == data@.len(),
            offset <= n,
            n >= MIN_IMAGE_LEN,
            all == tlvs(data@.skip(TLV_START as int)),
            all == in_front(done, tlvs(data@.skip(offset as int))),
            fw@.holds(done),
            fw@.api_version == bytes::le32_at(data@, 0x0C),
            fw@.build == bytes::le32_at(data@, 0x10),
        decreases n - offset,
    {
        let tlv_type: u32 = bytes::read_le32(data, offset);
        let tlv_len: u32 = bytes::read_le32(data, offset + 4);
        let start: usize = offset + 8;
        proof {
            lemma_padding(tlv_len);
            lemma_tlvs_at(data@, offset as int);
        }
        if ((n - start) as u64) < tlv_len as u64 {
            return None;
        }
        let end: usize = start + tlv_len as usize;
        let value: &[u8] = vstd::slice::slice_subrange(data, start, end);
        fw.take_section(tlv_type, value, Ghost(done));
        // Advance past the value, aligned to 4 bytes
        let padding: usize = ((4 - tlv_len % 4) % 4) as usize;
        let next: usize = if n - end < padding {
            n
        } else {
            end + padding
        };
        proof {
            let tlv = Tlv { kind: tlv_type, value: value@ };
            lemma_in_front_of(done, seq![tlv], tlvs(data@.skip(next as int)));
            assert(done + seq![tlv] =~= done.push(tlv));
            done = done.push(tlv);
        }
        offset = next;
    }
    proof {
        lemma_tlvs_at(data@, offset as int);
        assert(done + Seq::<Tlv>::empty() =~= done);
    }
    if fw.inst_section.len() == 0 {
        return None;
    }
    Some(fw)
}

// -------------------------------------------------------------------
// BSM (Bootstrap State Machine) upload
// -------------------------------------------------------------------

/// Start of the BSM staging area.
pub const BSM_SRAM_BASE: usize = 0x1000;

/// BSM control register.
pub const BSM_WR_CTRL: usize = 0x3400;

/// BSM source register.
pub const BSM_WR_MEM_SRC: usize = 0x3404;

/// BSM destination register.
pub const BSM_WR_MEM_DST: usize = 0x3408;

/// BSM count register, in units of four bytes.
pub const BSM_WR_DWCOUNT: usize = 0x340C;

/// BSM status register.
pub const BSM_WR_STATUS: usize = 0x3410;

/// BSM start command bit.
pub const BSM_WR_CTRL_START: u32 = 0x8000_0000;

/// Number of times that the BSM status is read before the upload is given up.
pub const BSM_POLLS: u32 = 1000;

/// The `i`th little-endian word of a section whose last word is padded with
/// zero bytes.
pub open spec fn word(data: Seq<u8>, i: int) -> u32 {
    bytes::le32_at(data + bytes::zeros(3), 4 * i)
}

/// The writes that put a section into the staging area, word by word.
pub open spec fn staging_writes(inst: Seq<u8>) -> Seq<RegisterWrite> {
    Seq::new(
        ((inst.len() + 3) / 4) as nat,
        |i: int| RegisterWrite { offset: (BSM_SRAM_BASE + 4 * i) as usize, value: word(inst, i) },
    )
}

/// The writes that have the BSM copy the whole words of the staged section.
pub open spec fn start_writes(inst: Seq<u8>) -> Seq<RegisterWrite> {
    seq![
        RegisterWrite { offset: BSM_WR_MEM_SRC, value: 0 },
        RegisterWrite { offset: BSM_WR_MEM_DST, value: 0 },
        RegisterWrite {
            offset: BSM_WR_DWCOUNT,
            value: ((inst.len() / 4) % 0x1_0000_0000) as u32,
        },
        RegisterWrite { offset: BSM_WR_CTRL, value: BSM_WR_CTRL_START },
    ]
}

/// The wait for the end of the copy.
pub open spec fn upload_wait() -> RegisterPoll {
    RegisterPoll { offset: BSM_WR_STATUS, mask: 1, until_set: true, reads_left: BSM_POLLS }
}

/// The little-endian word at `start`, padded with zero bytes at the end.
fn padded_word(data: &[u8], start: usize) -> (value: u32)
    requires
        start < data@.len(),
        start % 4 == 0,
    ensures
        value == word(data@, start as int / 4),
{
    let n: usize = data.len() - start;
    let mut four: Vec<u8> = Vec::with_capacity(4);
    if n >= 4 {
        bytes::push_bytes(&mut four, vstd::slice::slice_subrange(data, start, start + 4));
    } else {
        bytes::push_bytes(&mut four, vstd::slice::slice_subrange(data, start, data.len()));
        bytes::push_zeros(&mut four, 4 - n);
    }
    assert(four@ =~= (data@ + bytes::zeros(3)).subrange(start as int, start + 4));
    bytes::read_le32(four.as_slice(), 0)
}

/// The register writes that upload the instruction section to device SRAM via
/// the BSM, in order, and the wait for its completion that follows them.
pub fn upload_to_device(fw: &FirmwareImage) -> (plan: (Vec<RegisterWrite>, RegisterPoll))
    requires
        fw@.inst.len() + BSM_SRAM_BASE + 3 <= usize::MAX,
    ensures
        plan.0@ == staging_writes(fw@.inst) + start_writes(fw@.inst),
        plan.1 == upload_wait(),
{
    let inst: &[u8] = fw.inst_section.as_slice();
    let mut writes: Vec<RegisterWrite> = Vec::new();
    let mut start: usize = 0;
    while start < inst.len()
        invariant
            inst@ == fw@.inst,
            start % 4 == 0,
            start <= aligned(inst@.len() as int),
            fw@.inst.len() + BSM_SRAM_BASE + 3 <= usize::MAX,
            writes@ == staging_writes(inst@).take(start as int / 4),
        decreases aligned(inst@.len() as int) - start,
    {
        let value: u32 = padded_word(inst, start);
        writes.push(RegisterWrite { offset: BSM_SRAM_BASE + start, value });
        proof {
            let i = start as int / 4;
            assert(start == 4 * i);
            assert(i < staging_writes(inst@).len());
            assert(staging_writes(inst@).take(i + 1) =~= staging_writes(inst@).take(i).push(
                staging_writes(inst@)[i],
            ));
        }
        start += 4;
    }
    assert(staging_writes(inst@).take(start as int / 4) =~= staging_writes(inst@));
    writes.push(RegisterWrite { offset: BSM_WR_MEM_SRC, value: 0 });
    writes.push(RegisterWrite { offset: BSM_WR_MEM_DST, value: 0 });
    writes.push(
        RegisterWrite {
            offset: BSM_WR_DWCOUNT,
            value: ((inst.len() / 4) as u64 % 0x1_0000_0000) as u32,
        },
    );
    writes.push(RegisterWrite { offset: BSM_WR_CTRL, value: BSM_WR_CTRL_START });
    assert(writes@ =~= staging_writes(fw@.inst) + start_writes(fw@.inst));
    let poll = RegisterPoll {
        offset: BSM_WR_STATUS,
        mask: 1,
        until_set: true,
        reads_left: BSM_POLLS,
    };
    (writes, poll)
}

/// What the upload has come to, once the wait for it is over.
pub fn upload_result(status: PollStatus) -> (result: Option<Result<(), &'static str>>)
    ensures
        match status {
            PollStatus::Waiting => result is None,
            PollStatus::Met => result == Some(Ok::<(), &'static str>(())),
            PollStatus::TimedOut => result matches Some(Err(e)) && e@
                == "firmware BSM upload timed out"@,
        },
{
    match status {
        PollStatus::Waiting => None,
        PollStatus::Met => Some(Ok(())),
        PollStatus::TimedOut => Some(Err("firmware BSM upload timed out")),
    }
}

/// The staging area receives the instruction section: byte `k` of the section
/// is byte `k % 4`, counted from the least significant, of the word that is
/// written at offset `k - k % 4`.
pub proof fn lemma_staging_holds_section(inst: Seq<u8>, k: int)
    requires
        0 <= k < inst.len(),
        inst.len() + BSM_SRAM_BASE + 3 <= usize::MAX,
    ensures
        k / 4 < staging_writes(inst).len(),
        staging_writes(inst)[k / 4].offset == BSM_SRAM_BASE + k - k % 4,
        bytes::le32(staging_writes(inst)[k / 4].value)[k % 4] == inst[k],
{
    let i = k / 4;
    let s = inst + bytes::zeros(3);
    let a = s[4 * i];
    let b = s[4 * i + 1];
    let c = s[4 * i + 2];
    let d = s[4 * i + 3];
    let w = word(inst, i);
    assert(w == a + 0x100 * b + 0x1_0000 * c + 0x100_0000 * d);
    assert(w % 256 == a);
    assert(w / 0x100 % 256 == b);
    assert(w / 0x1_0000 % 256 == c);
    assert(w / 0x100_0000 == d);
}

/// An entry is read whatever its padding holds: its type, the length of its value,
/// the value, and as many further bytes as fill up the last four. Where the file
/// ends in the padding, nothing follows. Fewer than eight bytes are no entry.
pub proof fn lemma_entry_is_read(kind: u32, value: Seq<u8>, pad: Seq<u8>, rest: Seq<u8>)
    requires
        value.len() <= u32::MAX,
        pad.len() <= (4 - value.len() % 4) % 4,
        pad.len() < (4 - value.len() % 4) % 4 ==> rest.len() == 0,
    ensures
        ({
            let data = bytes::le32(kind) + bytes::le32(value.len() as u32) + value + pad + rest;
            tlvs(data) == match tlvs(rest) {
                Some(list) => Some(seq![Tlv { kind, value }] + list),
                None => None,
            }
        }),
        rest.len() < 8 ==> tlvs(rest) == Some(Seq::<Tlv>::empty()),
{
    reveal(tlvs);
    let data = bytes::le32(kind) + bytes::le32(value.len() as u32) + value + pad + rest;
    let n = value.len() as int;
    assert(data.subrange(0, 4) =~= bytes::le32(kind));
    assert(data.subrange(4, 8) =~= bytes::le32(n as u32));
    bytes::lemma_read_where_written(data, 0, 0, kind, 0);
    bytes::lemma_read_where_written(data, 4, 0, n as u32, 0);
    assert(data.subrange(8, 8 + n) =~= value);
    assert(first_tlv(data) == Some(Tlv { kind, value }));
    lemma_padding(n as u32);
    assert(aligned(n) == n + (4 - n % 4) % 4);
    assert(behind(data, 8 + aligned(n)) =~= rest);
}

/// One more entry sets the section of its own type and leaves the others alone;
/// without entries every section is empty.
pub proof fn lemma_last_entry_counts(list: Seq<Tlv>, tlv: Tlv, kind: u32)
    ensures
        section(Seq::empty(), kind).len() == 0,
        section(list.push(tlv), kind) == if tlv.kind == kind {
            tlv.value
        } else {
            section(list, kind)
        },
{
    assert(list.push(tlv).drop_last() =~= list);
}

/// When a file is an image, and where its parts come from: the type is in the
/// first four bytes, version and build at 12 and 16, the entries from 20 on. The
/// bytes from 4 to 12 are passed over.
pub proof fn lemma_image_parts(file: Seq<u8>)
    ensures
        ({
            let list = tlvs(file.skip(20));
            &&& image_of(file) is Some <==> file.len() >= 24 && (bytes::le32_at(file, 0) == 0
                || bytes::le32_at(file, 0) == 0x0A4C_5749) && list is Some && section(
                list.unwrap(),
                1,
            ).len() > 0
            &&& image_of(file) matches Some(image) ==> {
                &&& image.inst == section(list.unwrap(), 1)
                &&& image.data == section(list.unwrap(), 2)
                &&& image.init_inst == section(list.unwrap(), 3)
                &&& image.init_data == section(list.unwrap(), 4)
                &&& image.api_version == bytes::le32_at(file, 12)
                &&& image.build == bytes::le32_at(file, 16)
            }
        }),
{
}

/// The upload, write by write. The words of the section go to consecutive
/// addresses from 0x1000 on, the last filled up with zeros; then source and
/// destination are set to zero, the count to the number of whole words, and the
/// copy is started. The wait is for bit 0 of the status register.
pub proof fn lemma_upload_writes(inst: Seq<u8>, value: u32)
    requires
        inst.len() + 0x1003 <= usize::MAX,
        inst.len() / 4 < 0x1_0000_0000,
    ensures
        ({
            let writes = staging_writes(inst);
            let start = start_writes(inst);
            &&& writes.len() == (inst.len() + 3) / 4
            &&& forall|i: int| 0 <= i < writes.len() ==> (#[trigger] writes[i]).offset == 0x1000 + 4 * i
            &&& inst.len() % 4 == 1 ==> writes.last().value == inst.last()
            &&& inst.len() % 4 == 2 ==> writes.last().value < 0x1_0000
            &&& inst.len() % 4 == 3 ==> writes.last().value < 0x100_0000
            &&& start.len() == 4
            &&& start[0] == (RegisterWrite { offset: 0x3404, value: 0 })
            &&& start[1] == (RegisterWrite { offset: 0x3408, value: 0 })
            &&& start[2].offset == 0x340C
            &&& start[2].value == inst.len() / 4
            &&& start[3] == (RegisterWrite { offset: 0x3400, value: 0x8000_0000 })
            &&& upload_wait().offset == 0x3410
            &&& upload_wait().reads_left == 1000
            &&& upload_wait().met_by(value) <==> value % 2 == 1
        }),
{
    assert((value & 1 != 0) == (value % 2 == 1)) by (bit_vector);
    let writes = staging_writes(inst);
    let n = writes.len() as int;
    if inst.len() % 4 != 0 {
        let s = inst + bytes::zeros(3);
        assert(writes.last().value == bytes::le32_at(s, 4 * (n - 1)));
        assert(s[4 * (n - 1) + 3] == 0);
        if inst.len() % 4 < 3 {
            assert(s[4 * (n - 1) + 2] == 0);
        }
        if inst.len() % 4 == 1 {
            assert(s[4 * (n - 1) + 1] == 0);
            assert(s[4 * (n - 1)] == inst.last());
        }
    }
}

} // verus!
