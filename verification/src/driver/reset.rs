//! Reset of the NIC hardware.
//!
//! A [`NicReset`] says which register it wants written or read next and is told
//! what was read.
use crate::registers::{PollStatus, RegisterPoll, RegisterWrite};
use vstd::prelude::*;

verus! {

/// Reset register.
pub const CSR_RESET: usize = 0x020;

/// Software reset bit of the reset register.
pub const CSR_RESET_SW_RESET: u32 = 0x80;

/// General purpose control register.
pub const CSR_GP_CNTRL: usize = 0x024;

/// Initialization done bit of the control register.
pub const CSR_GP_CNTRL_INIT_DONE: u32 = 0x04;

/// MAC access request bit of the control register.
pub const CSR_GP_CNTRL_MAC_ACCESS_REQ: u32 = 0x08;

/// Number of times that each of the two registers is read at most.
pub const RESET_POLLS: u32 = 1000;

/// What a reset wants next.
#[derive(Debug, Clone, Copy, PartialEq, Eq, Structural)]
pub enum ResetAction {
    /// Write a register.
    Write(RegisterWrite),
    /// Read the register at this offset.
    Read(usize),
    /// Nothing, the reset has come to an end.
    Finished,
}

/// How far a reset has come.
#[derive(Debug, Clone, Copy, PartialEq, Eq, Structural)]
pub enum ResetStage {
    /// The software reset is to be triggered.
    Trigger,
    /// The reset bit is to clear.
    Resetting(RegisterPoll),
    /// MAC access is to be requested.
    Request,
    /// Initialization is to finish.
    Initializing(RegisterPoll),
    /// MAC access is granted.
    Granted,
    /// Initialization did not finish in time.
    TimedOut,
}

/// A reset of the NIC.
#[derive(Debug, Clone, Copy, PartialEq, Eq, Structural)]
pub struct NicReset {
    /// How far it has come.
    pub stage: ResetStage,
}

/// The wait for the reset bit to clear.
pub open spec fn reset_wait() -> RegisterPoll {
    RegisterPoll {
        offset: CSR_RESET,
        mask: CSR_RESET_SW_RESET,
        until_set: false,
        reads_left: RESET_POLLS,
    }
}

/// The wait for initialization.
pub open spec fn init_wait() -> RegisterPoll {
    RegisterPoll {
        offset: CSR_GP_CNTRL,
        mask: CSR_GP_CNTRL_INIT_DONE,
        until_set: true,
        reads_left: RESET_POLLS,
    }
}

impl ResetStage {
    /// What is wanted next.
    pub open spec fn wanted(self) -> ResetAction {
        match self {
            ResetStage::Trigger => ResetAction::Write(
                RegisterWrite { offset: CSR_RESET, value: CSR_RESET_SW_RESET },
            ),
            ResetStage::Resetting(poll) => ResetAction::Read(poll.offset),
            ResetStage::Request => ResetAction::Write(
                RegisterWrite { offset: CSR_GP_CNTRL, value: CSR_GP_CNTRL_MAC_ACCESS_REQ },
            ),
            ResetStage::Initializing(poll) => ResetAction::Read(poll.offset),
            ResetStage::Granted => ResetAction::Finished,
            ResetStage::TimedOut => ResetAction::Finished,
        }
    }

    /// The stage after the wanted access, which has read `value` if it was a
    /// read. A reset bit that does not clear in time is passed over.
    pub open spec fn after(self, value: u32) -> Self {
        match self {
            ResetStage::Trigger => ResetStage::Resetting(reset_wait()),
            ResetStage::Resetting(poll) => match poll.outcome(seq![value]) {
                PollStatus::Waiting => ResetStage::Resetting(poll.after_read()),
                PollStatus::Met => ResetStage::Request,
                PollStatus::TimedOut => ResetStage::Request,
            },
            ResetStage::Request => ResetStage::Initializing(init_wait()),
            ResetStage::Initializing(poll) => match poll.outcome(seq![value]) {
                PollStatus::Waiting => ResetStage::Initializing(poll.after_read()),
                PollStatus::Met => ResetStage::Granted,
                PollStatus::TimedOut => ResetStage::TimedOut,
            },
            ResetStage::Granted => self,
            ResetStage::TimedOut => self,
        }
    }

    /// The stage after a series of accesses.
    pub open spec fn after_all(self, values: Seq<u32>) -> Self
        decreases values.len(),
    {
        if values.len() == 0 {
            self
        } else {
            self.after(values[0]).after_all(values.skip(1))
        }
    }

    /// The accesses that are made one after another, if they read the given
    /// values.
    pub open spec fn accesses(self, values: Seq<u32>) -> Seq<ResetAction>
        decreases values.len(),
    {
        if values.len() == 0 {
            Seq::empty()
        } else {
            seq![self.wanted()] + self.after(values[0]).accesses(values.skip(1))
        }
    }

    /// A bound on the number of accesses that are still wanted.
    pub open spec fn accesses_left(self) -> int {
        match self {
            ResetStage::Trigger => 2 * RESET_POLLS + 6,
            ResetStage::Resetting(poll) => RESET_POLLS + 4 + poll.reads_left + 1,
            ResetStage::Request => RESET_POLLS + 4,
            ResetStage::Initializing(poll) => poll.reads_left + 1,
            ResetStage::Granted => 0,
            ResetStage::TimedOut => 0,
        }
    }
}

impl NicReset {
    /// Start a reset.
    pub fn new() -> (reset: Self)
        ensures
            reset.stage == ResetStage::Trigger,
    {
        NicReset { stage: ResetStage::Trigger }
    }

    /// The access that the reset wants next.
    pub fn next_action(&self) -> (action: ResetAction)
        ensures
            action == self.stage.wanted(),
    {
        match self.stage {
            ResetStage::Trigger => ResetAction::Write(
                RegisterWrite { offset: CSR_RESET, value: CSR_RESET_SW_RESET },
            ),
            ResetStage::Resetting(poll) => ResetAction::Read(poll.offset),
            ResetStage::Request => ResetAction::Write(
                RegisterWrite { offset: CSR_GP_CNTRL, value: CSR_GP_CNTRL_MAC_ACCESS_REQ },
            ),
            ResetStage::Initializing(poll) => ResetAction::Read(poll.offset),
            ResetStage::Granted => ResetAction::Finished,
            ResetStage::TimedOut => ResetAction::Finished,
        }
    }

    /// Take note that the wanted access was made, and of the value that was
    /// read if it was a read.
    pub fn advance(&mut self, value: u32)
        ensures
            final(self).stage == old(self).stage.after(value),
    {
        match self.stage {
            ResetStage::Trigger => {
                self.stage = ResetStage::Resetting(
                    RegisterPoll {
                        offset: CSR_RESET,
                        mask: CSR_RESET_SW_RESET,
                        until_set: false,
                        reads_left: RESET_POLLS,
                    },
                );
            },
            ResetStage::Resetting(poll) => {
                let mut poll: RegisterPoll = poll;
                self.stage = match poll.observe(value) {
                    PollStatus::Waiting => ResetStage::Resetting(poll),
                    PollStatus::Met => ResetStage::Request,
                    PollStatus::TimedOut => ResetStage::Request,
                };
            },
            ResetStage::Request => {
                self.stage = ResetStage::Initializing(
                    RegisterPoll {
                        offset: CSR_GP_CNTRL,
                        mask: CSR_GP_CNTRL_INIT_DONE,
                        until_set: true,
                        reads_left: RESET_POLLS,
                    },
                );
            },
            ResetStage::Initializing(poll) => {
                let mut poll: RegisterPoll = poll;
                self.stage = match poll.observe(value) {
                    PollStatus::Waiting => ResetStage::Initializing(poll),
                    PollStatus::Met => ResetStage::Granted,
                    PollStatus::TimedOut => ResetStage::TimedOut,
                };
            },
            ResetStage::Granted => {},
            ResetStage::TimedOut => {},
        }
    }
}

/// Every access brings the reset closer to its end.
pub proof fn lemma_reset_ends(stage: ResetStage, value: u32)
    requires
        stage.wanted() != ResetAction::Finished,
    ensures
        0 <= stage.after(value).accesses_left() < stage.accesses_left(),
{
    reveal_with_fuel(RegisterPoll::outcome, 2);
}

/// A number of reads of one register.
pub open spec fn reads(offset: usize, n: nat) -> Seq<ResetAction> {
    Seq::new(n, |i: int| ResetAction::Read(offset))
}

/// Whether a wait ends with the last of the given reads, and not before.
pub open spec fn ends_with(poll: RegisterPoll, values: Seq<u32>) -> bool {
    &&& values.len() > 0
    &&& poll.outcome(values.drop_last()) == PollStatus::Waiting
    &&& poll.outcome(values) != PollStatus::Waiting
}

/// The whole run of a reset: the software reset is triggered, the reset register
/// is read until its bit is clear or a thousand reads are made, MAC access is
/// requested, and the control register is read until initialization is done or a
/// thousand reads are made. Access is granted exactly if one of these last reads
/// finds initialization done, and the reset times out exactly if none does; the
/// reset bit decides nothing. What the two writes read does not matter.
pub proof fn lemma_reset_outcome(first: u32, resets: Seq<u32>, second: u32, inits: Seq<u32>)
    requires
        ends_with(reset_wait(), resets),
        ends_with(init_wait(), inits),
    ensures
        ({
            let values = seq![first] + (resets + (seq![second] + inits));
            let end = ResetStage::Trigger.after_all(values);
            &&& ResetStage::Trigger.accesses(values) == seq![
                ResetAction::Write(RegisterWrite { offset: CSR_RESET, value: CSR_RESET_SW_RESET }),
            ] + (reads(CSR_RESET, resets.len()) + (seq![
                ResetAction::Write(
                    RegisterWrite { offset: CSR_GP_CNTRL, value: CSR_GP_CNTRL_MAC_ACCESS_REQ },
                ),
            ] + reads(CSR_GP_CNTRL, inits.len())))
            &&& end.wanted() == ResetAction::Finished
            &&& end is Granted <==> exists|i: int|
                0 <= i < inits.len() && #[trigger] init_wait().met_by(inits[i])
            &&& end is TimedOut <==> {
                &&& inits.len() == RESET_POLLS
                &&& forall|i: int|
                    0 <= i < inits.len() ==> !(#[trigger] init_wait().met_by(inits[i]))
            }
            &&& resets.len() <= RESET_POLLS
            &&& inits.len() <= RESET_POLLS
        }),
{
    let tail = seq![second] + inits;
    let middle = resets + tail;
    let values = seq![first] + middle;
    assert(values.skip(1) =~= middle);
    assert(tail.skip(1) =~= inits);
    lemma_resetting(reset_wait(), resets, tail);
    lemma_initializing(init_wait(), inits);
    crate::registers::lemma_poll_outcome(init_wait(), inits);
    lemma_ends_in_time(reset_wait(), resets);
    lemma_ends_in_time(init_wait(), inits);
}

/// A wait ends within the reads that it is allowed.
proof fn lemma_ends_in_time(poll: RegisterPoll, values: Seq<u32>)
    requires
        ends_with(poll, values),
    ensures
        values.len() <= poll.reads_left,
    decreases values.len(),
{
    reveal_with_fuel(RegisterPoll::outcome, 2);
    if values.len() > 1 {
        assert(values.drop_last()[0] == values[0]);
        assert(values.skip(1).drop_last() =~= values.drop_last().skip(1));
        lemma_ends_in_time(poll.after_read(), values.skip(1));
    }
}

/// The wait for the reset bit leads to the request for MAC access.
proof fn lemma_resetting(poll: RegisterPoll, values: Seq<u32>, rest: Seq<u32>)
    requires
        ends_with(poll, values),
    ensures
        ResetStage::Resetting(poll).after_all(values + rest) == ResetStage::Request.after_all(rest),
        ResetStage::Resetting(poll).accesses(values + rest) == reads(poll.offset, values.len())
            + ResetStage::Request.accesses(rest),
    decreases values.len(),
{
    reveal_with_fuel(RegisterPoll::outcome, 2);
    let whole = values + rest;
    let stage = ResetStage::Resetting(poll);
    assert(seq![values[0]].skip(1) =~= Seq::<u32>::empty());
    assert(whole.skip(1) =~= values.skip(1) + rest);
    if values.len() == 1 {
        assert(values =~= seq![values[0]]);
        assert(stage.after(values[0]) == ResetStage::Request);
        assert(values.skip(1) + rest =~= rest);
    } else {
        assert(values.drop_last()[0] == values[0]);
        assert(values.skip(1).drop_last() =~= values.drop_last().skip(1));
        let next = poll.after_read();
        assert(next.reads_left != 0);
        assert(stage.after(values[0]) == ResetStage::Resetting(next));
        lemma_resetting(next, values.skip(1), rest);
    }
    assert(stage.accesses(whole) =~= reads(poll.offset, values.len())
        + ResetStage::Request.accesses(rest));
}

/// The wait for initialization ends the reset.
proof fn lemma_initializing(poll: RegisterPoll, values: Seq<u32>)
    requires
        ends_with(poll, values),
    ensures
        ResetStage::Initializing(poll).after_all(values) == if poll.outcome(values)
            == PollStatus::Met {
            ResetStage::Granted
        } else {
            ResetStage::TimedOut
        },
        ResetStage::Initializing(poll).accesses(values) == reads(poll.offset, values.len()),
    decreases values.len(),
{
    reveal_with_fuel(RegisterPoll::outcome, 2);
    let stage = ResetStage::Initializing(poll);
    assert(seq![values[0]].skip(1) =~= Seq::<u32>::empty());
    if values.len() == 1 {
        reveal_with_fuel(ResetStage::after_all, 2);
        reveal_with_fuel(ResetStage::accesses, 2);
        assert(values =~= seq![values[0]]);
        assert(values.skip(1) =~= Seq::<u32>::empty());
    } else {
        assert(values.drop_last()[0] == values[0]);
        assert(values.skip(1).drop_last() =~= values.drop_last().skip(1));
        let next = poll.after_read();
        assert(next.reads_left != 0);
        assert(stage.after(values[0]) == ResetStage::Initializing(next));
        lemma_initializing(next, values.skip(1));
    }
    assert(stage.accesses(values) =~= reads(poll.offset, values.len()));
}

/// The two writes and the two waits of a reset as numbers: bit 7 is written to
/// register 0x20 and waited for until it is clear, at most 1000 reads; then bit 3
/// is written to register 0x24 and bit 2 waited for until it is set, again at most
/// 1000 reads.
pub proof fn lemma_reset_registers(value: u32)
    ensures
        ResetStage::Trigger.wanted() == ResetAction::Write(
            RegisterWrite { offset: 0x20, value: 0x80 },
        ),
        ResetStage::Trigger.after(value) == ResetStage::Resetting(reset_wait()),
        reset_wait().offset == 0x20,
        reset_wait().reads_left == 1000,
        reset_wait().met_by(value) <==> value / 128 % 2 == 0,
        ResetStage::Request.wanted() == ResetAction::Write(
            RegisterWrite { offset: 0x24, value: 0x08 },
        ),
        ResetStage::Request.after(value) == ResetStage::Initializing(init_wait()),
        init_wait().offset == 0x24,
        init_wait().reads_left == 1000,
        init_wait().met_by(value) <==> value / 4 % 2 == 1,
{
    assert((value & 0x80 != 0) == (value / 128 % 2 == 1)) by (bit_vector);
    assert((value & 0x04 != 0) == (value / 4 % 2 == 1)) by (bit_vector);
}

} // verus!
