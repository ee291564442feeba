//! Snapshots for the presentation layer: a plain-value copy of the whole
//! machine state, and the fixed rendering of station tags.

use vstd::prelude::*;
use crate::station::{Slot, ReservationStation, LoadBuffer, TAGS};

verus! {

/// A full copy of the observable machine state at one instant: the clock,
/// the program counter, the done flag, the register file, every station and
/// buffer, and the timing log.
#[derive(Clone, PartialEq, Eq, Debug)]
pub struct Snapshot {
    pub clk: u32,
    pub pc: u32,
    pub done: bool,
    pub regs: Vec<Slot>,
    pub rss: Vec<ReservationStation>,
    pub lbs: Vec<LoadBuffer>,
    pub times: Vec<(u32, u32)>,
}

/// The fixed rendered name of station tag `t`.
pub open spec fn spec_tag_name(t: int) -> Seq<char> {
    if t == 0 {
        "Ars1"@
    } else if t == 1 {
        "Ars2"@
    } else if t == 2 {
        "Ars3"@
    } else if t == 3 {
        "Ars4"@
    } else if t == 4 {
        "Ars5"@
    } else if t == 5 {
        "Ars6"@
    } else if t == 6 {
        "Mrs1"@
    } else if t == 7 {
        "Mrs2"@
    } else if t == 8 {
        "Mrs3"@
    } else if t == 9 {
        "LB1"@
    } else if t == 10 {
        "LB2"@
    } else {
        "LB3"@
    }
}

/// The rendered name of station tag `t`, from the fixed table.
pub fn tag_name(t: usize) -> (r: &'static str)
    requires
        t < TAGS,
    ensures
        r@ == spec_tag_name(t as int),
{
    match t {
        0 => "Ars1",
        1 => "Ars2",
        2 => "Ars3",
        3 => "Ars4",
        4 => "Ars5",
        5 => "Ars6",
        6 => "Mrs1",
        7 => "Mrs2",
        8 => "Mrs3",
        9 => "LB1",
        10 => "LB2",
        _ => "LB3",
    }
}

} // verus!
