//! Shared telemetry state: the encoder snapshot record and the cell that
//! carries it between the periodic sampler and the serial link handler.
//!
//! The sampler runs at a lower interrupt priority than the handler; the two
//! never overlap inside the cell's critical section (priority-ceiling
//! discipline), so a publish replaces the whole record atomically from the
//! reader's viewpoint. The cell keeps a ghost history of every completed
//! sampling pass; a read returns exactly the most recent one, never a
//! mixture of two passes.

use vstd::prelude::*;

verus! {

/// The four most recently sampled encoder tick counts, bundled as one
/// record. Each channel keeps the native width of its hardware counter:
/// two timers count 32 bits wide, the other two only 16, and wraparound
/// semantics differ between the widths.
#[derive(Clone, Copy, Debug, PartialEq, Eq, Structural)]
pub struct MotorCounts {
    pub north_west: u32,
    pub north_east: u32,
    pub south_east: u16,
    pub south_west: u16,
}

/// The all-zero record the cell holds at startup.
pub open spec fn zero_counts() -> MotorCounts {
    MotorCounts { north_west: 0, north_east: 0, south_east: 0, south_west: 0 }
}

/// Encoder snapshot service: bundle the four raw counter values into one
/// record. The counters are read back-to-back, in the fixed order NE, SE,
/// NW, SW, with no critical section between the reads, so the arguments
/// arrive here already as-simultaneous-as-practical; this function only
/// assembles them.
pub fn sample(north_east: u32, south_east: u16, north_west: u32, south_west: u16) -> (snap:
    MotorCounts)
    ensures
        snap == (MotorCounts { north_west, north_east, south_east, south_west }),
{
    MotorCounts { north_west, north_east, south_east, south_west }
}

/// The shared telemetry cell. The record inside is written only by the
/// periodic sampler and read only by the serial link handler, both under
/// the priority-ceiling critical section; the ghost history records every
/// completed sampling pass, newest last.
pub struct TelemetryCell {
    counts: MotorCounts,
    history: Ghost<Seq<MotorCounts>>,
}

impl TelemetryCell {
    /// The cell always holds the record of the most recent completed pass.
    pub closed spec fn wf(self) -> bool {
        self.history@.len() >= 1 && self.counts == self.history@.last()
    }

    /// Every completed sampling pass, oldest first; the initial all-zero
    /// record counts as pass zero.
    pub closed spec fn passes(self) -> Seq<MotorCounts> {
        self.history@
    }

    /// The record a reader observes.
    pub closed spec fn current(self) -> MotorCounts {
        self.counts
    }

    /// A fresh cell, holding the all-zero startup record.
    pub fn new() -> (cell: Self)
        ensures
            cell.wf(),
            cell.passes() == seq![zero_counts()],
            cell.current() == zero_counts(),
    {
        let ghost h: Seq<MotorCounts> = seq![zero_counts()];
        TelemetryCell {
            counts: MotorCounts { north_west: 0, north_east: 0, south_east: 0, south_west: 0 },
            history: Ghost(h),
        }
    }

    /// The sampler's critical section: replace the whole record in one
    /// exclusive step. The priority ceiling keeps the handler from running
    /// while the four fields are assigned, so no reader ever sees a
    /// half-written record.
    pub fn publish(&mut self, snap: MotorCounts)
        requires
            old(self).wf(),
        ensures
            final(self).wf(),
            final(self).passes() == old(self).passes().push(snap),
            final(self).current() == snap,
    {
        self.history = Ghost(self.history@.push(snap));
        self.counts = snap;
    }

    /// The handler's read of the shared record, under the same critical
    /// section discipline: it returns the most recently completed pass,
    /// whole.
    pub fn read(&self) -> (snap: MotorCounts)
        requires
            self.wf(),
        ensures
            snap == self.current(),
            snap == self.passes().last(),
    {
        self.counts
    }
}

/// The periodic sampler's interrupt body: take the four counter values
/// that were read back-to-back from the hardware (fixed order NE, SE, NW,
/// SW, with no lock between the reads, to keep the skew between channels
/// minimal), bundle them, and publish the record into the shared cell
/// under the priority-ceiling critical section.
pub fn sampler_pass(
    cell: &mut TelemetryCell,
    north_east: u32,
    south_east: u16,
    north_west: u32,
    south_west: u16,
)
    requires
        old(cell).wf(),
    ensures
        final(cell).wf(),
        final(cell).passes() == old(cell).passes().push(
            MotorCounts { north_west, north_east, south_east, south_west },
        ),
        final(cell).current() == (MotorCounts { north_west, north_east, south_east, south_west }),
{
    let snap = sample(north_east, south_east, north_west, south_west);
    cell.publish(snap);
}

/// Every record a read can return is a completed sampling pass: the cell
/// never exposes fields drawn from two different passes.
pub proof fn lemma_read_is_one_pass(cell: TelemetryCell)
    requires
        cell.wf(),
    ensures
        cell.passes().contains(cell.current()),
{
    assert(cell.passes().last() == cell.passes()[cell.passes().len() - 1]);
}

} // verus!
