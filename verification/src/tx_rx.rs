//! Transmit (TFD) and receive (RXQ) descriptor ring management.
//!
//! Intel WiFi devices use a split-queue DMA architecture:
//!
//! - **Transmit**: TFD (Transmit Frame Descriptor) rings. Each TFD points to
//!   up to 20 scatter-gather fragments in host memory. Queue 0 is the command
//!   queue; queues 1+ are data queues (one per TID for QoS).
//!
//! - **Receive**: A single RXQ with large buffers (4 KiB each). The firmware
//!   writes received frames and command responses into RX buffers and posts
//!   status entries to a status ring.
//!
//! # Memory layout
//!
//! All descriptor rings and buffers must be physically contiguous and
//! 256-byte aligned. The driver allocates them from the kernel heap and
//! converts virtual addresses to physical addresses via the known
//! `phys_mem_offset`.
use crate::bytes;
use crate::registers::RegisterWrite;
use crate::views;
use vstd::prelude::*;

verus! {

/// Number of TFDs per transmit queue (must be a power of 2, max 256).
pub const TFD_QUEUE_SIZE: usize = 256;

/// Number of RX buffers in the receive queue.
pub const RXQ_SIZE: usize = 256;

/// Size of each RX buffer in bytes.
pub const RX_BUF_SIZE: usize = 4096;

/// Maximum scatter-gather fragments per TFD.
pub const TFD_MAX_FRAGMENTS: usize = 20;

// -------------------------------------------------------------------
// Buffer addresses
// -------------------------------------------------------------------

/// The physical address behind a virtual address: `phys_mem_offset` below it,
/// modulo 2^64.
pub open spec fn physical(virt_addr: u64, phys_mem_offset: u64) -> u64 {
    ((virt_addr - phys_mem_offset) % 0x1_0000_0000_0000_0000) as u64
}

/// The physical addresses behind a list of virtual addresses.
pub open spec fn physical_each(virt_addrs: Seq<u64>, phys_mem_offset: u64) -> Seq<u64> {
    Seq::new(virt_addrs.len(), |i: int| physical(virt_addrs[i], phys_mem_offset))
}

/// Convert a virtual address to the physical address that the device uses.
pub fn physical_address(virt_addr: u64, phys_mem_offset: u64) -> (phys_addr: u64)
    ensures
        phys_addr == physical(virt_addr, phys_mem_offset),
{
    virt_addr.wrapping_sub(phys_mem_offset)
}

/// The address of a buffer's first byte, from `Vec::as_ptr`. Which address that
/// is, is up to the allocator, so nothing is said of it.
#[verifier::external_body]
pub(crate) fn buffer_address(buf: &Vec<u8>) -> (virt_addr: u64) {
    buf.as_ptr() as u64
}

// -------------------------------------------------------------------
// Transmit descriptors
// -------------------------------------------------------------------

/// A single scatter-gather fragment within a TFD.
#[derive(Debug, Clone, Copy)]
pub struct TfdFragment {
    /// Physical address of the data buffer.
    pub addr: u64,
    /// Length of the fragment in bytes (low 16 bits) + TB2_CTRL (upper 16 bits).
    pub len_ctrl: u32,
}

/// Transmit Frame Descriptor, one entry in a TFD ring.
///
/// Each TFD can point to up to 20 fragments. The total frame (header + payload)
/// is assembled from these fragments by the DMA engine.
#[derive(Debug, Clone, Copy)]
pub struct Tfd {
    /// Reserved / scratch DWORDs used by firmware.
    pub scratch: [u32; 2],
    /// Number of valid fragments (TBs) in this TFD.
    pub num_tbs: u8,
    /// Reserved.
    pub _reserved: [u8; 3],
    /// Scatter-gather fragment array.
    pub tbs: [TfdFragment; TFD_MAX_FRAGMENTS],
}

/// The contents of a transmit descriptor.
pub ghost struct Descriptor {
    pub scratch: Seq<u32>,
    pub num_tbs: u8,
    pub reserved: Seq<u8>,
    pub fragments: Seq<TfdFragment>,
}

impl View for Tfd {
    type V = Descriptor;

    open spec fn view(&self) -> Descriptor {
        Descriptor {
            scratch: self.scratch@,
            num_tbs: self.num_tbs,
            reserved: self._reserved@,
            fragments: self.tbs@,
        }
    }
}

impl Descriptor {
    /// A descriptor that points nowhere.
    pub open spec fn zeroed() -> Self {
        Descriptor {
            scratch: Seq::new(2, |i: int| 0u32),
            num_tbs: 0,
            reserved: bytes::zeros(3),
            fragments: Seq::new(
                TFD_MAX_FRAGMENTS as nat,
                |i: int| TfdFragment { addr: 0, len_ctrl: 0 },
            ),
        }
    }

    /// The descriptor with one valid fragment, which is a buffer of `len` bytes
    /// at `addr`.
    pub open spec fn pointing_to(self, addr: u64, len: nat) -> Self {
        Descriptor {
            num_tbs: 1,
            fragments: self.fragments.update(
                0,
                TfdFragment { addr, len_ctrl: (len % 0x1_0000_0000) as u32 },
            ),
            ..self
        }
    }
}

impl Tfd {
    /// Create a zeroed TFD.
    pub fn zeroed() -> (tfd: Self)
        ensures
            tfd@ == Descriptor::zeroed(),
    {
        let tfd = Tfd {
            scratch: [0; 2],
            num_tbs: 0,
            _reserved: [0; 3],
            tbs: [TfdFragment { addr: 0, len_ctrl: 0 };TFD_MAX_FRAGMENTS],
        };
        assert(tfd@.scratch =~= Descriptor::zeroed().scratch);
        assert(tfd@.reserved =~= Descriptor::zeroed().reserved);
        assert(tfd@.fragments =~= Descriptor::zeroed().fragments);
        tfd
    }
}

// -------------------------------------------------------------------
// Transmit queue
// -------------------------------------------------------------------

/// A transmit queue (TFD ring + associated byte count table).
pub struct TxQueue {
    /// TFD ring (physically contiguous, 256-byte aligned).
    pub tfds: Box<[Tfd; TFD_QUEUE_SIZE]>,
    /// Byte count table, one u16 per TFD, firmware uses for scheduling.
    pub byte_count_table: Box<[u16; TFD_QUEUE_SIZE]>,
    /// Pending transmit buffers (kept alive until firmware ACKs), one per TFD.
    pub pending_bufs: Vec<Option<Vec<u8>>>,
    /// Write index (next TFD to fill).
    pub write_idx: usize,
    /// Read index (next TFD the firmware will consume).
    pub read_idx: usize,
    /// Queue ID (0 = command queue).
    pub queue_id: u8,
}

/// The contents of a transmit queue.
#[verifier::ext_equal]
pub ghost struct TxRing {
    /// The descriptor of each slot.
    pub descriptors: Seq<Descriptor>,
    /// The byte count of each slot.
    pub byte_counts: Seq<u16>,
    /// The buffer that each slot keeps alive.
    pub pending: Seq<Option<Seq<u8>>>,
    /// The slot to fill next.
    pub write_idx: nat,
    /// The slot that the firmware consumes next.
    pub read_idx: nat,
    pub queue_id: u8,
}

impl View for TxQueue {
    type V = TxRing;

    open spec fn view(&self) -> TxRing {
        TxRing {
            descriptors: views::each(self.tfds@),
            byte_counts: self.byte_count_table@,
            pending: Seq::new(
                self.pending_bufs@.len(),
                |i: int| views::optional(self.pending_bufs@[i]),
            ),
            write_idx: self.write_idx as nat,
            read_idx: self.read_idx as nat,
            queue_id: self.queue_id,
        }
    }
}

impl TxRing {
    /// Every slot has its descriptor, byte count and buffer, and both indices
    /// name slots.
    pub open spec fn well_formed(self) -> bool {
        &&& self.descriptors.len() == TFD_QUEUE_SIZE
        &&& forall|i: int|
            0 <= i < TFD_QUEUE_SIZE ==> (#[trigger] self.descriptors[i]).fragments.len()
                == TFD_MAX_FRAGMENTS
        &&& self.byte_counts.len() == TFD_QUEUE_SIZE
        &&& self.pending.len() == TFD_QUEUE_SIZE
        &&& self.write_idx < TFD_QUEUE_SIZE
        &&& self.read_idx < TFD_QUEUE_SIZE
    }

    /// A ring with nothing in it.
    pub open spec fn unused(queue_id: u8) -> Self {
        TxRing {
            descriptors: Seq::new(TFD_QUEUE_SIZE as nat, |i: int| Descriptor::zeroed()),
            byte_counts: Seq::new(TFD_QUEUE_SIZE as nat, |i: int| 0u16),
            pending: Seq::new(TFD_QUEUE_SIZE as nat, |i: int| None),
            write_idx: 0,
            read_idx: 0,
            queue_id,
        }
    }

    /// The number of slots that are filled and not yet consumed.
    pub open spec fn outstanding(self) -> int {
        (self.write_idx - self.read_idx) % (TFD_QUEUE_SIZE as int)
    }

    /// Whether slot `i` is filled and not yet consumed.
    pub open spec fn holds(self, i: int) -> bool {
        0 <= i < TFD_QUEUE_SIZE && (i - self.read_idx) % (TFD_QUEUE_SIZE as int)
            < self.outstanding()
    }

    /// The number of frames that the queue still takes.
    pub open spec fn free(self) -> int {
        TFD_QUEUE_SIZE - 1 - self.outstanding()
    }

    /// Whether no slot is left. One slot always stays empty, so that a full ring
    /// differs from an empty one.
    pub open spec fn full(self) -> bool {
        self.outstanding() == TFD_QUEUE_SIZE - 1
    }

    /// The ring with `data`, which lies at `addr`, in the next slot.
    pub open spec fn with_frame(self, data: Seq<u8>, addr: u64) -> Self {
        let i = self.write_idx as int;
        TxRing {
            descriptors: self.descriptors.update(
                i,
                self.descriptors[i].pointing_to(addr, data.len()),
            ),
            byte_counts: self.byte_counts.update(i, (data.len() % 0x1_0000) as u16),
            pending: self.pending.update(i, Some(data)),
            write_idx: (self.write_idx + 1) % TFD_QUEUE_SIZE as nat,
            ..self
        }
    }

    /// The ring after the firmware has consumed everything up to slot `i`.
    pub open spec fn completed(self, i: int) -> Self {
        TxRing {
            pending: self.pending.update(i, None),
            read_idx: ((i + 1) % TFD_QUEUE_SIZE as int) as nat,
            ..self
        }
    }
}

impl TxQueue {
    /// Allocate a new transmit queue.
    pub fn new(queue_id: u8) -> (queue: Self)
        ensures
            queue@ == TxRing::unused(queue_id),
            queue@.well_formed(),
    {
        let tfds = Box::new([Tfd::zeroed();TFD_QUEUE_SIZE]);
        let byte_count_table = Box::new([0u16;TFD_QUEUE_SIZE]);
        let mut pending_bufs: Vec<Option<Vec<u8>>> = Vec::with_capacity(TFD_QUEUE_SIZE);
        while pending_bufs.len() < TFD_QUEUE_SIZE
            invariant
                pending_bufs@.len() <= TFD_QUEUE_SIZE,
                forall|i: int| 0 <= i < pending_bufs@.len() ==> pending_bufs@[i] is None,
            decreases TFD_QUEUE_SIZE - pending_bufs@.len(),
        {
            pending_bufs.push(None);
        }
        let queue = TxQueue {
            tfds,
            byte_count_table,
            pending_bufs,
            write_idx: 0,
            read_idx: 0,
            queue_id,
        };
        assert(queue@.descriptors =~= TxRing::unused(queue_id).descriptors);
        assert(queue@.byte_counts =~= TxRing::unused(queue_id).byte_counts);
        assert(queue@.pending =~= TxRing::unused(queue_id).pending);
        queue
    }

    /// Enqueue a frame for transmission. Returns the TFD index used.
    ///
    /// The caller must also poke the device's write pointer register to notify
    /// the firmware that new work is available.
    pub fn enqueue(&mut self, data: Vec<u8>, phys_addr: u64) -> (slot: Option<usize>)
        requires
            old(self)@.well_formed(),
        ensures
            final(self)@.well_formed(),
            old(self)@.full() ==> slot is None && final(self)@ == old(self)@,
            !old(self)@.full() ==> {
                &&& slot == Some(old(self).write_idx)
                &&& final(self)@ == old(self)@.with_frame(data@, phys_addr)
            },
    {
        let idx: usize = self.write_idx;
        let next: usize = (idx + 1) % TFD_QUEUE_SIZE;
        if next == self.read_idx {
            return None;
        }
        let ghost before = self@;
        let len: usize = data.len();
        let fragment = TfdFragment {
            addr: phys_addr,
            len_ctrl: (len as u64 % 0x1_0000_0000) as u32,
        };
        self.tfds[idx].num_tbs = 1;
        self.tfds[idx].tbs[0] = fragment;
        self.byte_count_table[idx] = (len % 0x1_0000) as u16;
        self.pending_bufs.set(idx, Some(data));
        self.write_idx = next;
        let ghost after = before.with_frame(data@, phys_addr);
        assert(self@.descriptors[idx as int].fragments =~= after.descriptors[idx as int].fragments);
        assert(self@.descriptors =~= after.descriptors);
        assert(self@.byte_counts =~= after.byte_counts);
        assert(self@.pending =~= after.pending);
        Some(idx)
    }

    /// Mark a TFD as completed by the firmware. Frees the pending buffer.
    pub fn complete(&mut self, idx: usize)
        requires
            old(self)@.well_formed(),
            idx < TFD_QUEUE_SIZE,
        ensures
            final(self)@.well_formed(),
            final(self)@ == old(self)@.completed(idx as int),
    {
        let ghost after = self@.completed(idx as int);
        self.pending_bufs.set(idx, None);
        self.read_idx = (idx + 1) % TFD_QUEUE_SIZE;
        assert(self@.pending =~= after.pending);
    }

    /// Number of free TFD slots.
    pub fn free_slots(&self) -> (free: usize)
        requires
            self@.well_formed(),
        ensures
            free == self@.free(),
            free == TFD_QUEUE_SIZE - 1 - self@.outstanding(),
    {
        if self.write_idx >= self.read_idx {
            TFD_QUEUE_SIZE - 1 - (self.write_idx - self.read_idx)
        } else {
            self.read_idx - self.write_idx - 1
        }
    }
}

/// The distance from slot `b` forward to slot `a`.
proof fn lemma_ring_distance(a: int, b: int)
    requires
        0 <= a < TFD_QUEUE_SIZE,
        0 <= b < TFD_QUEUE_SIZE,
    ensures
        (a - b) % (TFD_QUEUE_SIZE as int) == if a >= b {
            a - b
        } else {
            a - b + TFD_QUEUE_SIZE
        },
{
}

/// Enqueueing takes one slot, fills it, and leaves every slot that was
/// outstanding as it was.
pub proof fn lemma_enqueue_keeps_outstanding(ring: TxRing, data: Seq<u8>, addr: u64)
    requires
        ring.well_formed(),
        !ring.full(),
    ensures
        ring.with_frame(data, addr).well_formed(),
        ring.with_frame(data, addr).outstanding() == ring.outstanding() + 1,
        ring.with_frame(data, addr).holds(ring.write_idx as int),
        ring.with_frame(data, addr).pending[ring.write_idx as int] == Some(data),
        !ring.holds(ring.write_idx as int),
        forall|i: int| #[trigger]
            ring.holds(i) ==> {
                let after = ring.with_frame(data, addr);
                &&& after.holds(i)
                &&& after.descriptors[i] == ring.descriptors[i]
                &&& after.byte_counts[i] == ring.byte_counts[i]
                &&& after.pending[i] == ring.pending[i]
            },
{
    let after = ring.with_frame(data, addr);
    lemma_ring_distance(ring.write_idx as int, ring.read_idx as int);
    lemma_ring_distance(after.write_idx as int, ring.read_idx as int);
    assert forall|i: int| #[trigger] ring.holds(i) implies after.holds(i) && i != ring.write_idx by {
        lemma_ring_distance(i, ring.read_idx as int);
    }
}

/// Completing an outstanding slot frees it together with the slots before it,
/// and keeps the slots after it outstanding.
pub proof fn lemma_complete_frees(ring: TxRing, i: int)
    requires
        ring.well_formed(),
        ring.holds(i),
    ensures
        ring.completed(i).well_formed(),
        !ring.completed(i).holds(i),
        ring.completed(i).pending[i] is None,
        ring.completed(i).outstanding() == ring.outstanding() - 1 - (i - ring.read_idx) % (
        TFD_QUEUE_SIZE as int),
        forall|j: int| #[trigger]
            ring.completed(i).holds(j) ==> ring.holds(j) && ring.completed(i).pending[j]
                == ring.pending[j],
{
    let after = ring.completed(i);
    lemma_ring_distance(ring.write_idx as int, ring.read_idx as int);
    lemma_ring_distance(i, ring.read_idx as int);
    lemma_ring_distance(ring.write_idx as int, after.read_idx as int);
    lemma_ring_distance(i, after.read_idx as int);
    assert forall|j: int| #[trigger] after.holds(j) implies ring.holds(j) && j != i by {
        lemma_ring_distance(j, ring.read_idx as int);
        lemma_ring_distance(j, after.read_idx as int);
    }
}

/// A new ring has nothing outstanding and takes a frame.
pub proof fn lemma_unused_ring_is_empty(queue_id: u8)
    ensures
        TxRing::unused(queue_id).well_formed(),
        TxRing::unused(queue_id).outstanding() == 0,
        !TxRing::unused(queue_id).full(),
{
}

// -------------------------------------------------------------------
// Receive queue
// -------------------------------------------------------------------

/// A single entry in the RX status ring.
#[derive(Debug, Clone, Copy)]
pub struct RxStatus {
    /// Length of the received data.
    pub len: u16,
    /// Flags (frame type, error bits, etc.).
    pub flags: u16,
}

/// Receive queue (RX buffer ring + status ring).
pub struct RxQueue {
    /// RX buffer pointers (physical addresses posted to device).
    pub buf_phys_addrs: Box<[u64; RXQ_SIZE]>,
    /// RX buffers (for reading received data).
    pub bufs: Vec<Vec<u8>>,
    /// Read index (next buffer to check for received data).
    pub read_idx: usize,
    /// Write index (posted to device, how far ahead we've prepared buffers).
    pub write_idx: usize,
}

/// The contents of a receive queue.
#[verifier::ext_equal]
pub ghost struct RxRing {
    /// The physical address of each buffer.
    pub addrs: Seq<u64>,
    /// What each buffer holds.
    pub bufs: Seq<Seq<u8>>,
    /// The number of frames that were read.
    pub read_idx: nat,
    /// The number of buffers that were made available.
    pub write_idx: nat,
}

impl View for RxQueue {
    type V = RxRing;

    open spec fn view(&self) -> RxRing {
        RxRing {
            addrs: self.buf_phys_addrs@,
            bufs: views::each(self.bufs@),
            read_idx: self.read_idx as nat,
            write_idx: self.write_idx as nat,
        }
    }
}

impl RxRing {
    /// Every slot has an address and a buffer of the full size.
    pub open spec fn well_formed(self) -> bool {
        &&& self.addrs.len() == RXQ_SIZE
        &&& self.bufs.len() == RXQ_SIZE
        &&& forall|i: int|
            0 <= i < RXQ_SIZE ==> (#[trigger] self.bufs[i]).len() == RX_BUF_SIZE
    }

    /// A ring of zeroed buffers at the given addresses, all available to the
    /// device.
    pub open spec fn unused(addrs: Seq<u64>) -> Self {
        RxRing {
            addrs,
            bufs: Seq::new(RXQ_SIZE as nat, |i: int| bytes::zeros(RX_BUF_SIZE as nat)),
            read_idx: 0,
            write_idx: RXQ_SIZE as nat,
        }
    }

    /// The slot to look at next.
    pub open spec fn next_slot(self) -> int {
        self.read_idx as int % RXQ_SIZE as int
    }

    /// The frame in the next slot, if `statuses` shows one there. Its length is
    /// cut to the size of the buffer.
    pub open spec fn received(self, statuses: Seq<RxStatus>) -> Option<Seq<u8>> {
        let len = statuses[self.next_slot()].len as int;
        if len == 0 {
            None
        } else {
            Some(
                self.bufs[self.next_slot()].take(
                    if len < RX_BUF_SIZE {
                        len
                    } else {
                        RX_BUF_SIZE as int
                    },
                ),
            )
        }
    }

    /// The ring after a frame was read.
    pub open spec fn after_read(self) -> Self {
        RxRing { read_idx: self.read_idx + 1, ..self }
    }

    /// The ring after a buffer was given back to the device.
    pub open spec fn recycled(self) -> Self {
        RxRing { write_idx: self.write_idx + 1, ..self }
    }

    /// The ring after the device has put `data` at the start of a buffer.
    pub open spec fn with_written(self, slot: int, data: Seq<u8>) -> Self {
        RxRing {
            bufs: self.bufs.update(slot, data + self.bufs[slot].skip(data.len() as int)),
            ..self
        }
    }
}

impl RxQueue {
    /// Allocate a new receive queue with pre-allocated buffers. At which virtual
    /// addresses they lie is up to the allocator.
    pub fn new(phys_mem_offset: u64) -> (queue: Self)
        ensures
            queue@.well_formed(),
            exists|virt_addrs: Seq<u64>|
                queue@ == RxRing::unused(#[trigger] physical_each(virt_addrs, phys_mem_offset)),
    {
        let ghost mut virt_addrs: Seq<u64> = Seq::empty();
        let mut bufs: Vec<Vec<u8>> = Vec::with_capacity(RXQ_SIZE);
        let mut buf_phys_addrs = Box::new([0u64;RXQ_SIZE]);
        let mut i: usize = 0;
        while i < RXQ_SIZE
            invariant
                i <= RXQ_SIZE,
                bufs@.len() == i,
                virt_addrs.len() == i,
                forall|j: int|
                    0 <= j < i ==> (#[trigger] bufs@[j])@ == bytes::zeros(RX_BUF_SIZE as nat),
                forall|j: int|
                    0 <= j < i ==> #[trigger] buf_phys_addrs@[j] == physical(
                        virt_addrs[j],
                        phys_mem_offset,
                    ),
            decreases RXQ_SIZE - i,
        {
            let mut buf: Vec<u8> = Vec::with_capacity(RX_BUF_SIZE);
            bytes::push_zeros(&mut buf, RX_BUF_SIZE);
            assert(buf@ =~= bytes::zeros(RX_BUF_SIZE as nat));
            // In a single address space, physical addresses are a fixed offset
            // below virtual ones.
            let virt_addr: u64 = buffer_address(&buf);
            buf_phys_addrs[i] = physical_address(virt_addr, phys_mem_offset);
            proof {
                virt_addrs = virt_addrs.push(virt_addr);
            }
            bufs.push(buf);
            i += 1;
        }
        let queue = RxQueue { buf_phys_addrs, bufs, read_idx: 0, write_idx: RXQ_SIZE };
        proof {
            let addrs = physical_each(virt_addrs, phys_mem_offset);
            assert(queue@.addrs =~= addrs);
            assert(queue@.bufs =~= RxRing::unused(addrs).bufs);
        }
        queue
    }

    /// Read a received frame from the next RX buffer.
    ///
    /// Returns `None` if no new frames are available.
    pub fn receive(&mut self, status_ring: &[RxStatus]) -> (received: Option<(usize, &[u8])>)
        requires
            old(self)@.well_formed(),
            old(self)@.next_slot() < status_ring@.len(),
            old(self)@.received(status_ring@) is Some ==> old(self).read_idx < usize::MAX,
        ensures
            final(self)@.well_formed(),
            match received {
                None => {
                    &&& old(self)@.received(status_ring@) is None
                    &&& final(self)@ == old(self)@
                },
                Some((slot, data)) => {
                    &&& slot == old(self)@.next_slot()
                    &&& old(self)@.received(status_ring@) == Some(data@)
                    &&& final(self)@ == old(self)@.after_read()
                },
            },
    {
        let idx: usize = self.read_idx % RXQ_SIZE;
        let status: RxStatus = status_ring[idx];
        if status.len == 0 {
            return None;
        }
        let len: usize = if (status.len as usize) < RX_BUF_SIZE {
            status.len as usize
        } else {
            RX_BUF_SIZE
        };
        assert(self@.bufs[idx as int].len() == RX_BUF_SIZE);
        self.read_idx = self.read_idx + 1;
        let data: &[u8] = vstd::slice::slice_subrange(self.bufs[idx].as_slice(), 0, len);
        assert(data@ =~= self.bufs@[idx as int]@.take(len as int));
        Some((idx, data))
    }

    /// Recycle a buffer after the caller has finished processing the received data.
    pub fn recycle(&mut self, _idx: usize)
        requires
            old(self).write_idx < usize::MAX,
        ensures
            final(self)@ == old(self)@.recycled(),
    {
        // The buffer stays in place; the device can reuse one more.
        self.write_idx = self.write_idx + 1;
    }

    /// Take over what the device has written to the start of a buffer. The buffer
    /// stays in place, so that its physical address remains valid.
    pub fn written(&mut self, slot: usize, data: &[u8])
        requires
            old(self)@.well_formed(),
            slot < RXQ_SIZE,
            data@.len() <= RX_BUF_SIZE,
        ensures
            final(self)@.well_formed(),
            final(self)@ == old(self)@.with_written(slot as int, data@),
    {
        let ghost after = self@.with_written(slot as int, data@);
        assert(self@.bufs[slot as int].len() == RX_BUF_SIZE);
        let mut buf: Vec<u8> = Vec::new();
        core::mem::swap(&mut buf, &mut self.bufs[slot]);
        overwrite_start(&mut buf, data);
        core::mem::swap(&mut buf, &mut self.bufs[slot]);
        assert(self@.bufs =~= after.bufs);
    }
}

/// Overwrite the start of a buffer in place.
fn overwrite_start(buf: &mut Vec<u8>, data: &[u8])
    requires
        data@.len() <= old(buf)@.len(),
    ensures
        final(buf)@ == data@ + old(buf)@.skip(data@.len() as int),
{
    let n: usize = data.len();
    let mut i: usize = 0;
    while i < n
        invariant
            n == data@.len(),
            n <= buf@.len(),
            buf@.len() == old(buf)@.len(),
            i <= n,
            forall|k: int| 0 <= k < i ==> buf@[k] == data@[k],
            forall|k: int| i <= k < buf@.len() ==> buf@[k] == old(buf)@[k],
        decreases n - i,
    {
        buf.set(i, data[i]);
        i += 1;
    }
    assert(buf@ =~= data@ + old(buf)@.skip(n as int));
}

/// A frame that the device has written to the next buffer, and announced with
/// its length, is what is read next.
pub proof fn lemma_written_frame_is_received(
    ring: RxRing,
    statuses: Seq<RxStatus>,
    data: Seq<u8>,
    flags: u16,
)
    requires
        ring.well_formed(),
        statuses.len() == RXQ_SIZE,
        0 < data.len() <= RX_BUF_SIZE,
    ensures
        ring.with_written(ring.next_slot(), data).received(
            statuses.update(ring.next_slot(), RxStatus { len: data.len() as u16, flags }),
        ) == Some(data),
{
    let after = ring.with_written(ring.next_slot(), data);
    assert(ring.bufs[ring.next_slot()].len() == RX_BUF_SIZE);
    assert(after.bufs[ring.next_slot()].take(data.len() as int) =~= data);
}

// -------------------------------------------------------------------
// Device register helpers for queue management
// -------------------------------------------------------------------

/// TFD queue write pointer register base (one per queue).
pub const TFH_WRITE_PTR_BASE: u32 = 0x1C00;

/// Stride between queue write pointer registers.
pub const TFH_WRITE_PTR_STRIDE: u32 = 0x20;

/// RXQ write pointer register.
pub const RXQ_WRITE_PTR: u32 = 0x2000;

/// The register write that announces a transmit queue's write index.
pub open spec fn tx_doorbell(queue_id: u8, write_idx: nat) -> RegisterWrite {
    RegisterWrite {
        offset: (TFH_WRITE_PTR_BASE + queue_id * TFH_WRITE_PTR_STRIDE) as usize,
        value: (write_idx % 0x1_0000_0000) as u32,
    }
}

/// The register write that announces the receive queue's write index.
pub open spec fn rx_doorbell(write_idx: nat) -> RegisterWrite {
    RegisterWrite { offset: RXQ_WRITE_PTR as usize, value: (write_idx % RXQ_SIZE as nat) as u32 }
}

/// The write of the TFD queue write pointer that notifies firmware of new work.
pub fn poke_tx_write_ptr(queue_id: u8, write_idx: usize) -> (write: RegisterWrite)
    ensures
        write == tx_doorbell(queue_id, write_idx as nat),
{
    RegisterWrite {
        offset: (TFH_WRITE_PTR_BASE + (queue_id as u32) * TFH_WRITE_PTR_STRIDE) as usize,
        value: (write_idx as u64 % 0x1_0000_0000) as u32,
    }
}

/// The write of the RXQ write pointer that tells firmware how many RX buffers
/// are available.
pub fn poke_rx_write_ptr(write_idx: usize) -> (write: RegisterWrite)
    ensures
        write == rx_doorbell(write_idx as nat),
{
    RegisterWrite { offset: RXQ_WRITE_PTR as usize, value: (write_idx % RXQ_SIZE) as u32 }
}

// -------------------------------------------------------------------
// Laws of addresses, descriptors and slots
// -------------------------------------------------------------------

/// A physical address and the offset of the mapping add up to the virtual address,
/// modulo 2^64; where the mapping lies below the address, exactly.
pub proof fn lemma_physical(virt_addr: u64, phys_mem_offset: u64)
    ensures
        virt_addr >= phys_mem_offset ==> physical(virt_addr, phys_mem_offset) + phys_mem_offset
            == virt_addr,
        virt_addr < phys_mem_offset ==> physical(virt_addr, phys_mem_offset) + phys_mem_offset
            == virt_addr + 0x1_0000_0000_0000_0000,
{
}

/// What the device sees of a frame that was put into the queue: one fragment with
/// its address and its length, and its length modulo 2^16 in the byte counts. The other
/// fragments, the other slots and what is outstanding are as before, and the next
/// frame goes into the next slot, behind slot 255 into slot 0.
pub proof fn lemma_frame_in_slot(ring: TxRing, data: Seq<u8>, addr: u64, j: int, k: int)
    requires
        ring.well_formed(),
        data.len() < 0x1_0000_0000,
        0 <= j < 256,
        j != ring.write_idx,
        0 < k < 20,
    ensures
        ({
            let after = ring.with_frame(data, addr);
            let i = ring.write_idx as int;
            let descriptor = after.descriptors[i];
            &&& descriptor.num_tbs == 1
            &&& descriptor.fragments[0].addr == addr
            &&& descriptor.fragments[0].len_ctrl == data.len()
            &&& descriptor.fragments[k] == ring.descriptors[i].fragments[k]
            &&& descriptor.scratch == ring.descriptors[i].scratch
            &&& after.byte_counts[i] == data.len() % 0x1_0000
            &&& after.pending[i] == Some(data)
            &&& after.descriptors[j] == ring.descriptors[j]
            &&& after.byte_counts[j] == ring.byte_counts[j]
            &&& after.pending[j] == ring.pending[j]
            &&& after.write_idx == if i == 255 {
                0
            } else {
                i + 1
            }
            &&& after.read_idx == ring.read_idx
            &&& after.queue_id == ring.queue_id
        }),
{
}

/// A queue takes 255 frames and no more: it is full exactly where the next slot is
/// the one to be read next.
pub proof fn lemma_full_ring(ring: TxRing)
    requires
        ring.well_formed(),
    ensures
        0 <= ring.outstanding() < 256,
        ring.write_idx >= ring.read_idx ==> ring.outstanding() == ring.write_idx - ring.read_idx,
        ring.write_idx < ring.read_idx ==> ring.outstanding() == ring.write_idx + 256
            - ring.read_idx,
        ring.free() + ring.outstanding() == 255,
        ring.full() <==> ring.free() == 0,
        ring.full() <==> ring.write_idx + 1 == ring.read_idx || (ring.write_idx == 255
            && ring.read_idx == 0),
{
    lemma_ring_distance(ring.write_idx as int, ring.read_idx as int);
}

/// A completion empties its slot and makes the next slot the one to be read; it
/// touches nothing else.
pub proof fn lemma_completed_slot(ring: TxRing, i: int, j: int)
    requires
        ring.well_formed(),
        0 <= i < 256,
        0 <= j < 256,
        j != i,
    ensures
        ({
            let after = ring.completed(i);
            &&& after.pending[i] is None
            &&& after.pending[j] == ring.pending[j]
            &&& after.read_idx == if i == 255 {
                0
            } else {
                i + 1
            }
            &&& after.write_idx == ring.write_idx
            &&& after.descriptors == ring.descriptors
            &&& after.byte_counts == ring.byte_counts
        }),
{
}

/// What is received: nothing while the length of the next slot is zero, else that
/// many bytes of its buffer, at most all 4096. The slots come round in order, and
/// neither reading nor giving back a buffer changes what any buffer holds.
pub proof fn lemma_received_bytes(ring: RxRing, statuses: Seq<RxStatus>)
    requires
        ring.well_formed(),
    ensures
        ({
            let slot = ring.read_idx as int % 256;
            let len = statuses[slot].len as int;
            &&& ring.next_slot() == slot
            &&& ring.received(statuses) is None <==> len == 0
            &&& 0 < len <= 4096 ==> ring.received(statuses) == Some(ring.bufs[slot].take(len))
            &&& len > 4096 ==> ring.received(statuses) == Some(ring.bufs[slot])
            &&& ring.after_read().next_slot() == if slot == 255 {
                0
            } else {
                slot + 1
            }
            &&& ring.after_read() == RxRing { read_idx: ring.read_idx + 1, ..ring }
            &&& ring.recycled() == RxRing { write_idx: ring.write_idx + 1, ..ring }
        }),
{
    let slot = ring.read_idx as int % 256;
    assert(ring.bufs[slot].take(4096) =~= ring.bufs[slot]);
}

/// What the device writes to a buffer stands at its start; the rest of the buffer,
/// and every other one, is as before.
pub proof fn lemma_written_bytes(ring: RxRing, slot: int, data: Seq<u8>, j: int)
    requires
        ring.well_formed(),
        0 <= slot < 256,
        data.len() <= 4096,
        0 <= j < 256,
    ensures
        ({
            let after = ring.with_written(slot, data);
            &&& after.well_formed()
            &&& after.bufs[slot].take(data.len() as int) == data
            &&& after.bufs[slot].skip(data.len() as int) == ring.bufs[slot].skip(data.len() as int)
            &&& j != slot ==> after.bufs[j] == ring.bufs[j]
            &&& after.addrs == ring.addrs
            &&& after.read_idx == ring.read_idx
            &&& after.write_idx == ring.write_idx
        }),
{
    let after = ring.with_written(slot, data);
    assert(after.bufs[slot].take(data.len() as int) =~= data);
    assert(after.bufs[slot].skip(data.len() as int) =~= ring.bufs[slot].skip(data.len() as int));
}

/// Each transmit queue has a register of its own, 32 bytes behind that of the queue
/// before, from 0x1C00 on; the receive queue has 0x2000. What is written there is
/// the slot that will be used next.
pub proof fn lemma_doorbells(queue_id: u8, write_idx: nat)
    ensures
        tx_doorbell(queue_id, write_idx).offset == 0x1C00 + 32 * queue_id,
        write_idx < 0x1_0000_0000 ==> tx_doorbell(queue_id, write_idx).value == write_idx,
        rx_doorbell(write_idx).offset == 0x2000,
        rx_doorbell(write_idx).value == write_idx % 256,
        rx_doorbell(write_idx + 256) == rx_doorbell(write_idx),
{
}

} // verus!
