//! A simulated-scheduler model of the shared telemetry state, at the
//! granularity of single field assignments.
//!
//! `TelemetryCell` treats a publish as one atomic step; that is sound
//! because of the discipline modelled here. The sampler's critical
//! section really is four separate field assignments, and the serial
//! handler runs at a higher interrupt priority; what keeps a reader from
//! observing a half-written record is the priority ceiling: while the
//! sampler holds the section, the handler is prevented from running. This
//! module spells that discipline out as a small machine over interleaved
//! operations and proves that in every interleaving it admits, a read
//! observes four fields written by one and the same sampling pass.

use crate::telemetry::MotorCounts;
use vstd::prelude::*;

verus! {

/// One scheduler-visible operation on the shared telemetry record.
pub enum TelemetryOp {
    /// The sampler enters its critical section, opening a new sampling
    /// pass; the ceiling is raised.
    BeginSection,
    /// The sampler assigns the north-east field inside the section.
    WriteNorthEast(u32),
    /// The sampler assigns the south-east field inside the section.
    WriteSouthEast(u16),
    /// The sampler assigns the north-west field inside the section.
    WriteNorthWest(u32),
    /// The sampler assigns the south-west field inside the section.
    WriteSouthWest(u16),
    /// The sampler leaves its critical section; the ceiling is released.
    EndSection,
    /// The serial handler reads the whole record.
    Read,
}

/// The model state: which sampling pass each field of the shared record
/// was last written by, and whether the sampler currently holds its
/// critical section. Pass 0 stands for the all-zero startup record.
pub struct TelemetryModel {
    /// Index of the sampling pass opened most recently.
    pub pass: nat,
    /// Whether the sampler holds the critical section.
    pub in_section: bool,
    /// The pass that last wrote the north-east field.
    pub tag_north_east: nat,
    /// The pass that last wrote the south-east field.
    pub tag_south_east: nat,
    /// The pass that last wrote the north-west field.
    pub tag_north_west: nat,
    /// The pass that last wrote the south-west field.
    pub tag_south_west: nat,
}

/// The startup state: no pass has run, all fields carry the startup
/// record, no section is held.
pub open spec fn init_model() -> TelemetryModel {
    TelemetryModel {
        pass: 0,
        in_section: false,
        tag_north_east: 0,
        tag_south_east: 0,
        tag_north_west: 0,
        tag_south_west: 0,
    }
}

/// Whether the scheduler may dispatch `op` in state `st`. Field writes
/// happen only inside the sampler's critical section; the section ends
/// only once the sampler has assigned all four fields of the pass; and —
/// the priority-ceiling rule — a read never runs while the section is
/// held, because the holder's effective priority is raised to the
/// resource's ceiling.
pub open spec fn op_allowed(st: TelemetryModel, op: TelemetryOp) -> bool {
    match op {
        TelemetryOp::BeginSection => !st.in_section,
        TelemetryOp::WriteNorthEast(_) => st.in_section,
        TelemetryOp::WriteSouthEast(_) => st.in_section,
        TelemetryOp::WriteNorthWest(_) => st.in_section,
        TelemetryOp::WriteSouthWest(_) => st.in_section,
        TelemetryOp::EndSection => st.in_section && st.tag_north_east == st.pass
            && st.tag_south_east == st.pass && st.tag_north_west == st.pass
            && st.tag_south_west == st.pass,
        TelemetryOp::Read => !st.in_section,
    }
}

/// The effect of one operation on the model state.
pub open spec fn step(st: TelemetryModel, op: TelemetryOp) -> TelemetryModel {
    match op {
        TelemetryOp::BeginSection => TelemetryModel {
            pass: st.pass + 1,
            in_section: true,
            ..st
        },
        TelemetryOp::WriteNorthEast(_) => TelemetryModel { tag_north_east: st.pass, ..st },
        TelemetryOp::WriteSouthEast(_) => TelemetryModel { tag_south_east: st.pass, ..st },
        TelemetryOp::WriteNorthWest(_) => TelemetryModel { tag_north_west: st.pass, ..st },
        TelemetryOp::WriteSouthWest(_) => TelemetryModel { tag_south_west: st.pass, ..st },
        TelemetryOp::EndSection => TelemetryModel { in_section: false, ..st },
        TelemetryOp::Read => st,
    }
}

/// The state after running a whole trace from startup.
pub open spec fn run(trace: Seq<TelemetryOp>) -> TelemetryModel
    decreases trace.len(),
{
    if trace.len() == 0 {
        init_model()
    } else {
        step(run(trace.drop_last()), trace.last())
    }
}

/// Whether every operation of the trace was dispatched in a state that
/// admits it: the trace is an interleaving the scheduler can produce.
pub open spec fn trace_ok(trace: Seq<TelemetryOp>) -> bool
    decreases trace.len(),
{
    trace.len() == 0 || (trace_ok(trace.drop_last()) && op_allowed(
        run(trace.drop_last()),
        trace.last(),
    ))
}

/// The record is consistent whenever the section is not held: all four
/// fields were written by one and the same sampling pass.
pub open spec fn consistent(st: TelemetryModel) -> bool {
    !st.in_section ==> (st.tag_north_east == st.tag_south_east && st.tag_south_east
        == st.tag_north_west && st.tag_north_west == st.tag_south_west)
}

/// Every state reachable by a scheduler-admissible trace is consistent.
pub proof fn lemma_trace_consistent(trace: Seq<TelemetryOp>)
    requires
        trace_ok(trace),
    ensures
        consistent(run(trace)),
    decreases trace.len(),
{
    if trace.len() > 0 {
        lemma_trace_consistent(trace.drop_last());
    }
}

/// Shared-state consistency: in any interleaving of sampler writes and
/// handler reads that the priority-ceiling discipline admits, at any
/// point where a read is dispatched, the reader observes a record whose
/// four fields come from one single sampling pass — never from two
/// different passes.
pub proof fn lemma_read_sees_one_pass(trace: Seq<TelemetryOp>)
    requires
        trace_ok(trace),
        op_allowed(run(trace), TelemetryOp::Read),
    ensures
        run(trace).tag_north_east == run(trace).tag_south_east,
        run(trace).tag_south_east == run(trace).tag_north_west,
        run(trace).tag_north_west == run(trace).tag_south_west,
{
    lemma_trace_consistent(trace);
}

/// The operations one sampling pass appends to the trace: enter the
/// section, assign all four fields, leave the section.
pub open spec fn sampler_section(snap: MotorCounts) -> Seq<TelemetryOp> {
    seq![
        TelemetryOp::BeginSection,
        TelemetryOp::WriteNorthEast(snap.north_east),
        TelemetryOp::WriteSouthEast(snap.south_east),
        TelemetryOp::WriteNorthWest(snap.north_west),
        TelemetryOp::WriteSouthWest(snap.south_west),
        TelemetryOp::EndSection,
    ]
}

/// The sampler's critical section is always admissible when no section is
/// held: a whole sampling pass can run at any such point, and it leaves
/// the section released. Together with `lemma_read_sees_one_pass` this
/// shows the model is inhabited: passes and reads can be interleaved
/// freely outside sections.
pub proof fn lemma_sampler_section_ok(trace: Seq<TelemetryOp>, snap: MotorCounts)
    requires
        trace_ok(trace),
        !run(trace).in_section,
    ensures
        trace_ok(trace + sampler_section(snap)),
        !run(trace + sampler_section(snap)).in_section,
{
    let t1 = trace.push(TelemetryOp::BeginSection);
    let t2 = t1.push(TelemetryOp::WriteNorthEast(snap.north_east));
    let t3 = t2.push(TelemetryOp::WriteSouthEast(snap.south_east));
    let t4 = t3.push(TelemetryOp::WriteNorthWest(snap.north_west));
    let t5 = t4.push(TelemetryOp::WriteSouthWest(snap.south_west));
    let t6 = t5.push(TelemetryOp::EndSection);
    assert(t1.drop_last() =~= trace);
    assert(trace_ok(t1));
    assert(run(t1) == step(run(trace), TelemetryOp::BeginSection));
    assert(t2.drop_last() =~= t1);
    assert(trace_ok(t2));
    assert(run(t2) == step(run(t1), TelemetryOp::WriteNorthEast(snap.north_east)));
    assert(t3.drop_last() =~= t2);
    assert(trace_ok(t3));
    assert(run(t3) == step(run(t2), TelemetryOp::WriteSouthEast(snap.south_east)));
    assert(t4.drop_last() =~= t3);
    assert(trace_ok(t4));
    assert(run(t4) == step(run(t3), TelemetryOp::WriteNorthWest(snap.north_west)));
    assert(t5.drop_last() =~= t4);
    assert(trace_ok(t5));
    assert(run(t5) == step(run(t4), TelemetryOp::WriteSouthWest(snap.south_west)));
    assert(t6.drop_last() =~= t5);
    assert(trace_ok(t6));
    assert(run(t6) == step(run(t5), TelemetryOp::EndSection));
    assert(t6 =~= trace + sampler_section(snap));
}

} // verus!
