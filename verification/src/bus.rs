//! The steps that the panel driver asks of the bus: pin levels, byte writes
//! and pauses, in the order in which they must happen.
use vstd::prelude::*;

verus! {

/// The level of an output pin.
#[derive(Clone, Copy, Debug, PartialEq, Eq, Structural)]
pub enum Level {
    Low,
    High,
}

/// One step on the wires between the microcontroller and the panel.
#[derive(Clone, Debug, PartialEq, Eq)]
pub enum BusOp {
    /// Drive the chip-select line (low selects the panel).
    ChipSelect(Level),
    /// Drive the data/command line (low: the next write is a command byte).
    DataCommand(Level),
    /// Drive the panel's reset line.
    Reset(Level),
    /// Write these bytes over the SPI bus, in this order.
    Write(Vec<u8>),
    /// Pause for this many milliseconds.
    DelayMs(u32),
}

/// A bus step as a mathematical value.
pub enum BusStep {
    ChipSelect(Level),
    DataCommand(Level),
    Reset(Level),
    Write(Seq<u8>),
    DelayMs(u32),
}

impl View for BusOp {
    type V = BusStep;

    open spec fn view(&self) -> BusStep {
        match self {
            BusOp::ChipSelect(l) => BusStep::ChipSelect(*l),
            BusOp::DataCommand(l) => BusStep::DataCommand(*l),
            BusOp::Reset(l) => BusStep::Reset(*l),
            BusOp::Write(bytes) => BusStep::Write(bytes@),
            BusOp::DelayMs(ms) => BusStep::DelayMs(*ms),
        }
    }
}

/// The steps that a list of bus operations stands for.
pub open spec fn steps(ops: Seq<BusOp>) -> Seq<BusStep> {
    ops.map_values(|o: BusOp| o@)
}

pub proof fn lemma_steps_push(ops: Seq<BusOp>, op: BusOp)
    ensures
        steps(ops.push(op)) == steps(ops).push(op@),
{
    assert(steps(ops.push(op)) =~= steps(ops).push(op@));
}

pub proof fn lemma_steps_concat(a: Seq<BusOp>, b: Seq<BusOp>)
    ensures
        steps(a + b) == steps(a) + steps(b),
{
    assert(steps(a + b) =~= steps(a) + steps(b));
}

/// Appends one operation to a list.
pub fn push_op(ops: &mut Vec<BusOp>, op: BusOp)
    ensures
        steps(final(ops)@) == steps(old(ops)@).push(op@),
{
    proof {
        lemma_steps_push(old(ops)@, op);
    }
    ops.push(op);
}

/// Moves all operations of `more` to the end of `ops`.
pub fn append_ops(ops: &mut Vec<BusOp>, more: Vec<BusOp>)
    ensures
        steps(final(ops)@) == steps(old(ops)@) + steps(more@),
{
    let mut more = more;
    proof {
        lemma_steps_concat(old(ops)@, more@);
    }
    ops.append(&mut more);
}

} // verus!
