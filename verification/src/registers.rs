//! Accesses to the device's memory-mapped registers, as plain values.
//!
//! The library decides which registers are written and what the values that
//! were read mean. The accesses themselves are made by the caller, who owns the
//! mapping of the device.
use vstd::prelude::*;

verus! {

/// A 32-bit value to store in a device register.
#[derive(Debug, Clone, Copy, PartialEq, Eq, Structural)]
pub struct RegisterWrite {
    /// Offset of the register from the start of the register area.
    pub offset: usize,
    /// Value to store.
    pub value: u32,
}

/// A wait for a bit of a device register, limited to a number of reads.
#[derive(Debug, Clone, Copy, PartialEq, Eq, Structural)]
pub struct RegisterPoll {
    /// Offset of the register to read.
    pub offset: usize,
    /// The bits to look at.
    pub mask: u32,
    /// Whether to wait until one of them is set, or until all are clear.
    pub until_set: bool,
    /// Number of reads that are left.
    pub reads_left: u32,
}

/// What a wait has come to.
#[derive(Debug, Clone, Copy, PartialEq, Eq, Structural)]
pub enum PollStatus {
    /// The register has to be read once more.
    Waiting,
    /// The register held the awaited value.
    Met,
    /// The reads are used up.
    TimedOut,
}

impl RegisterPoll {
    /// Whether `value` is what the wait is for.
    pub open spec fn met_by(self, value: u32) -> bool {
        (value & self.mask != 0) == self.until_set
    }

    /// The wait after one more read.
    pub open spec fn after_read(self) -> Self {
        RegisterPoll { reads_left: (self.reads_left - 1) as u32, ..self }
    }

    /// What the wait comes to if the register holds the given values, one read
    /// after another.
    pub open spec fn outcome(self, values: Seq<u32>) -> PollStatus
        decreases values.len(),
    {
        if self.reads_left == 0 {
            PollStatus::TimedOut
        } else if values.len() == 0 {
            PollStatus::Waiting
        } else if self.met_by(values[0]) {
            PollStatus::Met
        } else {
            self.after_read().outcome(values.skip(1))
        }
    }

    /// Take note of the value that was read from the register.
    pub fn observe(&mut self, value: u32) -> (status: PollStatus)
        ensures
            status == old(self).outcome(seq![value]),
            *final(self) == if old(self).reads_left == 0 {
                *old(self)
            } else {
                old(self).after_read()
            },
    {
        if self.reads_left == 0 {
            return PollStatus::TimedOut;
        }
        let set: bool = value & self.mask != 0;
        self.reads_left = self.reads_left - 1;
        proof {
            reveal_with_fuel(RegisterPoll::outcome, 2);
            assert(seq![value].skip(1) =~= Seq::<u32>::empty());
        }
        if set == self.until_set {
            PollStatus::Met
        } else if self.reads_left == 0 {
            PollStatus::TimedOut
        } else {
            PollStatus::Waiting
        }
    }
}

/// A wait is met exactly if one of the reads that it is allowed finds the
/// awaited value, and times out exactly if all of them were made in vain.
pub proof fn lemma_poll_outcome(poll: RegisterPoll, values: Seq<u32>)
    ensures
        poll.outcome(values) == PollStatus::Met <==> exists|i: int|
            0 <= i < values.len() && i < poll.reads_left && #[trigger] poll.met_by(values[i]),
        poll.outcome(values) == PollStatus::TimedOut <==> {
            &&& poll.reads_left <= values.len()
            &&& forall|i: int|
                0 <= i < poll.reads_left ==> !(#[trigger] poll.met_by(values[i]))
        },
    decreases values.len(),
{
    if poll.reads_left != 0 && values.len() != 0 && !poll.met_by(values[0]) {
        let next = poll.after_read();
        let rest = values.skip(1);
        lemma_poll_outcome(next, rest);
        assert forall|i: int| 0 <= i < rest.len() implies #[trigger] next.met_by(rest[i])
            == poll.met_by(values[i + 1]) by {}
        if exists|i: int|
            0 <= i < values.len() && i < poll.reads_left && #[trigger] poll.met_by(values[i]) {
            let i = choose|i: int|
                0 <= i < values.len() && i < poll.reads_left && #[trigger] poll.met_by(values[i]);
            assert(next.met_by(rest[i - 1]));
        }
        if forall|i: int| 0 <= i < next.reads_left ==> !(#[trigger] next.met_by(rest[i])) {
            assert forall|i: int| 0 <= i < poll.reads_left && i < values.len() implies !(
            #[trigger] poll.met_by(values[i])) by {
                if i > 0 {
                    assert(!next.met_by(rest[i - 1]));
                }
            }
        }
    }
}

/// Any one bit of the mask that is set in the value makes the difference; a value
/// without any is as good as zero, and bits outside the mask do not count.
pub proof fn lemma_met_by_any_bit(poll: RegisterPoll, value: u32, other: u32, k: u32)
    requires
        k < 32,
    ensures
        (poll.mask >> k) & 1 == 1 && (value >> k) & 1 == 1 ==> poll.met_by(value) == poll.until_set,
        poll.met_by(0) == !poll.until_set,
        poll.met_by(value & poll.mask) == poll.met_by(value),
        poll.met_by(value | (other & !poll.mask)) == poll.met_by(value),
{
    let mask = poll.mask;
    assert((mask >> k) & 1 == 1 && (value >> k) & 1 == 1 ==> value & mask != 0) by (bit_vector);
    assert(0u32 & mask == 0) by (bit_vector);
    assert((value & mask) & mask == value & mask) by (bit_vector);
    assert((value | (other & !mask)) & mask == value & mask) by (bit_vector);
}

} // verus!
