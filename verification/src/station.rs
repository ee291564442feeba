//! The entities of the machine: value-or-tag slots, reservation stations and
//! load buffers.
//!
//! A station tag is a small integer in `[0, 12)`: tags `0..6` are the adder
//! reservation stations, `6..9` the multiplier stations, `9..12` the load
//! buffers.  The tag doubles as the array index and as the source name on
//! the common data bus.

use vstd::prelude::*;

verus! {

/// The number of adder reservation stations.
pub const ARS: usize = 6;

/// The number of multiplier reservation stations.
pub const MRS: usize = 3;

/// The number of reservation stations (adders and multipliers together).
pub const RS_N: usize = 9;

/// The number of load buffers.
pub const LB_N: usize = 3;

/// The number of station tags: reservation stations plus load buffers.
pub const TAGS: usize = 12;

/// The number of adder function units.
pub const ADD_FU: usize = 3;

/// The number of multiplier function units.
pub const MUL_FU: usize = 2;

/// The number of loader function units.
pub const LOAD_FU: usize = 2;

/// A value-or-tag slot.  A register-file slot or a station operand slot
/// either holds a concrete 32-bit value or names the station tag that will
/// produce it (a register is then *pending*, an operand *waiting*).
#[derive(Copy, Clone, PartialEq, Eq, Structural, Debug)]
pub enum Slot {
    Value(u32),
    Pending(usize),
}

/// What a reservation station is busy with: a binary operator, or a jump
/// carrying its pre-adjusted program-counter offset.
#[derive(Copy, Clone, PartialEq, Eq, Structural, Debug)]
pub enum StationOp {
    Bin(crate::inst::BinOp),
    Jump(u32),
}

/// The bookkeeping common to reservation stations and load buffers.
///
/// `remain_time` is `None` while the entry awaits operands or a function
/// unit, `Some(k)` with `k > 0` while `k` cycles of execution remain, and
/// `Some(0)` when execution is complete and write-back is pending.
#[derive(Copy, Clone, PartialEq, Eq, Debug)]
pub struct RSBase {
    pub busy: bool,
    pub remain_time: Option<u8>,
    /// The clock at issue; breaks function-unit arbitration ties (older wins).
    pub issue_time: u32,
    /// The program index that issued into this entry (for the timing log).
    pub inst_idx: u32,
}

/// A reservation station: an arithmetic or branch entry with two operand
/// slots.
#[derive(Copy, Clone, PartialEq, Eq, Debug)]
pub struct ReservationStation {
    pub base: RSBase,
    pub op: StationOp,
    pub qv0: Slot,
    pub qv1: Slot,
}

/// A load buffer: an immediate-load entry.
#[derive(Copy, Clone, PartialEq, Eq, Debug)]
pub struct LoadBuffer {
    pub base: RSBase,
    pub imm: u32,
}

/// A free station slot, as the machine starts with.
pub open spec fn spec_empty_base() -> RSBase {
    RSBase { busy: false, remain_time: None, issue_time: 0, inst_idx: 0 }
}

/// A free reservation station.
pub open spec fn spec_empty_rs() -> ReservationStation {
    ReservationStation {
        base: spec_empty_base(),
        op: StationOp::Bin(crate::inst::BinOp::Add),
        qv0: Slot::Value(0),
        qv1: Slot::Value(0),
    }
}

/// A free load buffer.
pub open spec fn spec_empty_lb() -> LoadBuffer {
    LoadBuffer { base: spec_empty_base(), imm: 0 }
}

impl ReservationStation {
    /// A free reservation station.
    pub fn empty() -> (r: ReservationStation)
        ensures
            r == spec_empty_rs(),
    {
        ReservationStation {
            base: RSBase { busy: false, remain_time: None, issue_time: 0, inst_idx: 0 },
            op: StationOp::Bin(crate::inst::BinOp::Add),
            qv0: Slot::Value(0),
            qv1: Slot::Value(0),
        }
    }
}

impl LoadBuffer {
    /// A free load buffer.
    pub fn empty() -> (r: LoadBuffer)
        ensures
            r == spec_empty_lb(),
    {
        LoadBuffer {
            base: RSBase { busy: false, remain_time: None, issue_time: 0, inst_idx: 0 },
            imm: 0,
        }
    }
}

} // verus!
