//! The mathematical model of the machine and its per-tick transition.
//!
//! A tick runs three phases in order: write-back, then issue, then execute.
//! Write-back first makes results produced at the end of the previous cycle
//! visible to this cycle's consumers; issue before execute keeps a station
//! issued at cycle `t` from also advancing its timer at cycle `t`.  Each
//! phase is a total spec function on [`Model`]; the executable machine in
//! [`crate::sim`] is proved to follow them exactly.

use vstd::prelude::*;
use vstd::wrapping::u32_specs;
use crate::inst::{Inst, BinOp, inst_valid, spec_delay, REG};
use crate::station::{
    Slot, StationOp, RSBase, ReservationStation, LoadBuffer, spec_empty_rs, spec_empty_lb,
    ARS, RS_N, LB_N, TAGS, ADD_FU, MUL_FU, LOAD_FU,
};

verus! {

/// The whole machine state: the program and timing log, the clock and
/// program counter, the register file, and the station pool.
#[verifier::ext_equal]
pub ghost struct Model {
    /// The loaded program, read-only after construction.
    pub insts: Seq<Inst>,
    /// Per instruction, the issue cycle and the execution-complete cycle
    /// (0 = not yet recorded).
    pub times: Seq<(u32, u32)>,
    pub pc: u32,
    pub clk: u32,
    pub regs: Seq<Slot>,
    pub rss: Seq<ReservationStation>,
    pub lbs: Seq<LoadBuffer>,
}

// ---------------------------------------------------------------------------
// Common data bus
// ---------------------------------------------------------------------------

/// One slot observing a broadcast: a slot waiting on `tag` takes the value.
pub open spec fn bcast_slot(s: Slot, tag: usize, v: u32) -> Slot {
    match s {
        Slot::Pending(t) => if t == tag { Slot::Value(v) } else { s },
        Slot::Value(_) => s,
    }
}

/// One reservation station observing a broadcast on both operand slots.
pub open spec fn bcast_rs(r: ReservationStation, tag: usize, v: u32) -> ReservationStation {
    ReservationStation { qv0: bcast_slot(r.qv0, tag, v), qv1: bcast_slot(r.qv1, tag, v), ..r }
}

/// The common data bus drives `(tag, v)`: every operand slot and every
/// register slot waiting on `tag` becomes `Value(v)`, in one cycle.
pub open spec fn spec_bcast(m: Model, tag: usize, v: u32) -> Model {
    Model {
        rss: Seq::new(m.rss.len(), |j: int| bcast_rs(m.rss[j], tag, v)),
        regs: Seq::new(m.regs.len(), |j: int| bcast_slot(m.regs[j], tag, v)),
        ..m
    }
}

// ---------------------------------------------------------------------------
// Write-back phase
// ---------------------------------------------------------------------------

/// `r` with its busy flag cleared.
pub open spec fn rs_cleared(r: ReservationStation) -> ReservationStation {
    ReservationStation { base: RSBase { busy: false, ..r.base }, ..r }
}

/// Write-back of reservation station `i`, if it is busy with execution
/// complete: clear it, then either drive the bus with the computed value, or
/// (for a taken jump) add the stored offset to the program counter.
pub open spec fn wb_rs_at(m: Model, i: int) -> Model {
    let r = m.rss[i];
    if r.base.busy && r.base.remain_time == Some(0u8) {
        let cleared = Model { rss: m.rss.update(i, rs_cleared(r)), ..m };
        match r.op {
            StationOp::Bin(op) => {
                if r.qv0 is Value && r.qv1 is Value {
                    spec_bcast(cleared, i as usize, crate::inst::spec_eval(op, r.qv0->Value_0, r.qv1->Value_0))
                } else {
                    cleared
                }
            },
            StationOp::Jump(off) => {
                if r.qv0 == r.qv1 {
                    Model { pc: u32_specs::wrapping_add(m.pc, off), ..cleared }
                } else {
                    cleared
                }
            },
        }
    } else {
        m
    }
}

/// Write-back applied to reservation stations `0, 1, …, n-1`, in index
/// order; each broadcast takes effect before the next station is examined.
pub open spec fn wb_rss_upto(m: Model, n: int) -> Model
    decreases n,
{
    if n <= 0 { m } else { wb_rs_at(wb_rss_upto(m, n - 1), n - 1) }
}

/// Write-back of load buffer `i`: clear it and drive the bus with its
/// immediate.
pub open spec fn wb_lb_at(m: Model, i: int) -> Model {
    let l = m.lbs[i];
    if l.base.busy && l.base.remain_time == Some(0u8) {
        let cleared = Model {
            lbs: m.lbs.update(i, LoadBuffer { base: RSBase { busy: false, ..l.base }, ..l }),
            ..m
        };
        spec_bcast(cleared, (i + RS_N) as usize, l.imm)
    } else {
        m
    }
}

/// Write-back applied to load buffers `0, 1, …, n-1`, in index order.
pub open spec fn wb_lbs_upto(m: Model, n: int) -> Model
    decreases n,
{
    if n <= 0 { m } else { wb_lb_at(wb_lbs_upto(m, n - 1), n - 1) }
}

/// The write-back phase: all completing reservation stations in index order
/// (adders, then multipliers), then all completing load buffers.
pub open spec fn spec_write_back(m: Model) -> Model {
    wb_lbs_upto(wb_rss_upto(m, RS_N as int), LB_N as int)
}

// ---------------------------------------------------------------------------
// Issue phase
// ---------------------------------------------------------------------------

/// Issue stalls while any station holds an unresolved jump: this preserves
/// program order across branches.
pub open spec fn has_busy_jump(m: Model) -> bool {
    exists|i: int| 0 <= i < m.rss.len() && (#[trigger] m.rss[i]).base.busy && m.rss[i].op is Jump
}

/// The smallest index in `[i, end)` whose reservation station is free.
pub open spec fn first_free_rs(rss: Seq<ReservationStation>, i: int, end: int) -> Option<int>
    decreases end - i,
{
    if i >= end {
        None
    } else if !rss[i].base.busy {
        Some(i)
    } else {
        first_free_rs(rss, i + 1, end)
    }
}

/// The smallest index in `[i, end)` whose load buffer is free.
pub open spec fn first_free_lb(lbs: Seq<LoadBuffer>, i: int, end: int) -> Option<int>
    decreases end - i,
{
    if i >= end {
        None
    } else if !lbs[i].base.busy {
        Some(i)
    } else {
        first_free_lb(lbs, i + 1, end)
    }
}

/// Record an issue cycle in the timing log, only if not already set (the
/// first issue cycle is preserved).
pub open spec fn set_issue_time(times: Seq<(u32, u32)>, idx: int, clk: u32) -> Seq<(u32, u32)> {
    if 0 <= idx < times.len() && times[idx].0 == 0 {
        times.update(idx, (clk, times[idx].1))
    } else {
        times
    }
}

/// Record an execution-complete cycle in the timing log, only if not
/// already set.
pub open spec fn set_complete_time(times: Seq<(u32, u32)>, idx: int, clk: u32) -> Seq<(u32, u32)> {
    if 0 <= idx < times.len() && times[idx].1 == 0 {
        times.update(idx, (times[idx].0, clk))
    } else {
        times
    }
}

/// A freshly issued reservation station: busy, no function unit yet,
/// stamped with the issue clock and the program index.
pub open spec fn issued_rs(op: StationOp, q0: Slot, q1: Slot, clk: u32, pc: u32) -> ReservationStation {
    ReservationStation {
        base: RSBase { busy: true, remain_time: None, issue_time: clk, inst_idx: pc },
        op,
        qv0: q0,
        qv1: q1,
    }
}

/// A freshly issued load buffer.
pub open spec fn issued_lb(imm: u32, clk: u32, pc: u32) -> LoadBuffer {
    LoadBuffer { base: RSBase { busy: true, remain_time: None, issue_time: clk, inst_idx: pc }, imm }
}

/// The issue phase: at most one instruction per tick.
///
/// If no station holds an unresolved jump and the program counter is within
/// the program, the instruction at `pc` takes the first free slot of its
/// partition (adders for ADD/SUB and jumps, multipliers for MUL/DIV, load
/// buffers for loads), capturing its operand slots from the register file as
/// they stand; for an instruction with a destination the register is renamed
/// to the station's tag.  The program counter advances and the issue cycle
/// is logged.  A jump stores `off - 1` (wrapping), compensating for the
/// already-advanced program counter.  If no slot is free the phase is a
/// no-op and the instruction is retried next tick.
pub open spec fn spec_issue(m: Model) -> Model {
    if has_busy_jump(m) {
        m
    } else if (m.pc as int) < m.insts.len() && m.insts.len() <= 0xFFFF_FFFF
        && inst_valid(m.insts[m.pc as int]) {
        let inst = m.insts[m.pc as int];
        match inst {
            Inst::Bin(op, dst, l, r) => {
                let adder = op == BinOp::Add || op == BinOp::Sub;
                let beg: int = if adder { 0 } else { ARS as int };
                let end: int = if adder { ARS as int } else { RS_N as int };
                match first_free_rs(m.rss, beg, end) {
                    Some(i) => Model {
                        rss: m.rss.update(i, issued_rs(StationOp::Bin(op), m.regs[l as int], m.regs[r as int], m.clk, m.pc)),
                        regs: m.regs.update(dst as int, Slot::Pending(i as usize)),
                        times: set_issue_time(m.times, m.pc as int, m.clk),
                        pc: (m.pc + 1) as u32,
                        ..m
                    },
                    None => m,
                }
            },
            Inst::Ld(dst, imm) => {
                match first_free_lb(m.lbs, 0, LB_N as int) {
                    Some(i) => Model {
                        lbs: m.lbs.update(i, issued_lb(imm, m.clk, m.pc)),
                        regs: m.regs.update(dst as int, Slot::Pending((i + RS_N) as usize)),
                        times: set_issue_time(m.times, m.pc as int, m.clk),
                        pc: (m.pc + 1) as u32,
                        ..m
                    },
                    None => m,
                }
            },
            Inst::Jump(cmp, cond, off) => {
                match first_free_rs(m.rss, 0, ARS as int) {
                    Some(i) => Model {
                        rss: m.rss.update(i, issued_rs(
                            StationOp::Jump(u32_specs::wrapping_sub(off, 1)),
                            m.regs[cond as int],
                            Slot::Value(cmp),
                            m.clk,
                            m.pc,
                        )),
                        times: set_issue_time(m.times, m.pc as int, m.clk),
                        pc: (m.pc + 1) as u32,
                        ..m
                    },
                    None => m,
                }
            },
        }
    } else {
        m
    }
}

// ---------------------------------------------------------------------------
// Execute phase
// ---------------------------------------------------------------------------

/// The execution latency of a station entry: the operator's latency, or one
/// cycle for a jump.
pub open spec fn spec_latency(op: StationOp) -> u8 {
    match op {
        StationOp::Bin(o) => spec_delay(o),
        StationOp::Jump(_) => 1u8,
    }
}

/// A reservation station that outranks a competitor with issue time `it` in
/// the contest for a function unit: it already holds one, or it is also
/// ready and is older.
pub open spec fn rs_prio(r: ReservationStation, it: u32) -> bool {
    r.base.busy && (r.base.remain_time is Some
        || (r.qv0 is Value && r.qv1 is Value && r.base.issue_time < it))
}

/// A load buffer that outranks a competitor with issue time `it` (a load
/// buffer is ready as soon as it is busy).
pub open spec fn lb_prio(l: LoadBuffer, it: u32) -> bool {
    l.base.busy && (l.base.remain_time is Some || l.base.issue_time < it)
}

/// How many reservation stations in `[beg, end)` outrank issue time `it`.
pub open spec fn count_prio_rs(rss: Seq<ReservationStation>, beg: int, end: int, it: u32) -> int
    decreases end - beg,
{
    if beg >= end {
        0
    } else {
        count_prio_rs(rss, beg, end - 1, it) + (if rs_prio(rss[end - 1], it) { 1int } else { 0 })
    }
}

/// How many load buffers in `[beg, end)` outrank issue time `it`.
pub open spec fn count_prio_lb(lbs: Seq<LoadBuffer>, beg: int, end: int, it: u32) -> int
    decreases end - beg,
{
    if beg >= end {
        0
    } else {
        count_prio_lb(lbs, beg, end - 1, it) + (if lb_prio(lbs[end - 1], it) { 1int } else { 0 })
    }
}

/// `r` with remaining time set.
pub open spec fn rs_with_remain(r: ReservationStation, t: Option<u8>) -> ReservationStation {
    ReservationStation { base: RSBase { remain_time: t, ..r.base }, ..r }
}

/// `l` with remaining time set.
pub open spec fn lb_with_remain(l: LoadBuffer, t: Option<u8>) -> LoadBuffer {
    LoadBuffer { base: RSBase { remain_time: t, ..l.base }, ..l }
}

/// The execute step of reservation station `i`.
///
/// An executing station counts down; on reaching zero the completion cycle
/// is logged.  A station that is ready (busy, both operands values, no
/// function unit yet) competes for a unit of its partition: it is granted
/// one exactly when the stations that outrank it — those already holding a
/// unit, or ready and older — number fewer than the partition's capacity.
/// The count is taken over the state as already updated for smaller
/// indices.
pub open spec fn exec_rs_at(m: Model, i: int) -> Model {
    let r = m.rss[i];
    if !r.base.busy {
        m
    } else {
        match r.base.remain_time {
            Some(t) => {
                let nt: u8 = if t == 0 { 0u8 } else { (t - 1) as u8 };
                let m1 = Model { rss: m.rss.update(i, rs_with_remain(r, Some(nt))), ..m };
                if nt == 0 {
                    Model { times: set_complete_time(m1.times, r.base.inst_idx as int, m1.clk), ..m1 }
                } else {
                    m1
                }
            },
            None => {
                if r.qv0 is Value && r.qv1 is Value {
                    let adder = i < ARS as int;
                    let beg: int = if adder { 0 } else { ARS as int };
                    let end: int = if adder { ARS as int } else { RS_N as int };
                    let cap: int = if adder { ADD_FU as int } else { MUL_FU as int };
                    if count_prio_rs(m.rss, beg, end, r.base.issue_time) < cap {
                        Model { rss: m.rss.update(i, rs_with_remain(r, Some(spec_latency(r.op)))), ..m }
                    } else {
                        m
                    }
                } else {
                    m
                }
            },
        }
    }
}

/// Execute applied to reservation stations `0, 1, …, n-1`, in index order.
pub open spec fn exec_rss_upto(m: Model, n: int) -> Model
    decreases n,
{
    if n <= 0 { m } else { exec_rs_at(exec_rss_upto(m, n - 1), n - 1) }
}

/// The execute step of load buffer `i`; loads always take 3 cycles.
pub open spec fn exec_lb_at(m: Model, i: int) -> Model {
    let l = m.lbs[i];
    if !l.base.busy {
        m
    } else {
        match l.base.remain_time {
            Some(t) => {
                let nt: u8 = if t == 0 { 0u8 } else { (t - 1) as u8 };
                let m1 = Model { lbs: m.lbs.update(i, lb_with_remain(l, Some(nt))), ..m };
                if nt == 0 {
                    Model { times: set_complete_time(m1.times, l.base.inst_idx as int, m1.clk), ..m1 }
                } else {
                    m1
                }
            },
            None => {
                if count_prio_lb(m.lbs, 0, LB_N as int, l.base.issue_time) < LOAD_FU as int {
                    Model { lbs: m.lbs.update(i, lb_with_remain(l, Some(3u8))), ..m }
                } else {
                    m
                }
            },
        }
    }
}

/// Execute applied to load buffers `0, 1, …, n-1`, in index order.
pub open spec fn exec_lbs_upto(m: Model, n: int) -> Model
    decreases n,
{
    if n <= 0 { m } else { exec_lb_at(exec_lbs_upto(m, n - 1), n - 1) }
}

/// The execute phase: every reservation station in index order, then every
/// load buffer.  The two station partitions and the load buffers compete
/// for three disjoint pools of function units.
pub open spec fn spec_exec(m: Model) -> Model {
    exec_lbs_upto(exec_rss_upto(m, RS_N as int), LB_N as int)
}

// ---------------------------------------------------------------------------
// The tick, runs, construction and reset
// ---------------------------------------------------------------------------

/// One tick: advance the clock, then write-back, then issue, then execute.
pub open spec fn spec_step(m: Model) -> Model {
    let m1 = Model { clk: u32_specs::wrapping_add(m.clk, 1), ..m };
    spec_exec(spec_issue(spec_write_back(m1)))
}

/// The machine is done when the program counter is past the program and no
/// station or buffer is busy.
pub open spec fn spec_done(m: Model) -> bool {
    &&& (m.pc as int) >= m.insts.len()
    &&& forall|i: int| 0 <= i < m.rss.len() ==> !(#[trigger] m.rss[i]).base.busy
    &&& forall|i: int| 0 <= i < m.lbs.len() ==> !(#[trigger] m.lbs[i]).base.busy
}

/// Up to `n` ticks, stopping early once the machine is done.
pub open spec fn spec_run_n(m: Model, n: nat) -> Model
    decreases n,
{
    if n == 0 {
        m
    } else {
        let m1 = spec_step(m);
        if spec_done(m1) { m1 } else { spec_run_n(m1, (n - 1) as nat) }
    }
}

/// The initial machine for a program: clock and program counter at zero,
/// every register `Value(0)`, every station free, the timing log zeroed.
pub open spec fn init_model(insts: Seq<Inst>) -> Model {
    Model {
        insts,
        times: Seq::new(insts.len(), |i: int| (0u32, 0u32)),
        pc: 0,
        clk: 0,
        regs: Seq::new(REG as nat, |i: int| Slot::Value(0)),
        rss: Seq::new(RS_N as nat, |i: int| spec_empty_rs()),
        lbs: Seq::new(LB_N as nat, |i: int| spec_empty_lb()),
    }
}

/// Reset: back to the initial state, keeping only the loaded program.
pub open spec fn spec_reset(m: Model) -> Model {
    init_model(m.insts)
}

// ---------------------------------------------------------------------------
// Invariants
// ---------------------------------------------------------------------------

/// Dimensions and program validity: the machine has its fixed complement of
/// registers, stations and buffers, one timing entry per instruction, a
/// program short enough for a 32-bit program counter, and only valid
/// register indices in its instructions.
pub open spec fn wf(m: Model) -> bool {
    &&& m.regs.len() == REG
    &&& m.rss.len() == RS_N
    &&& m.lbs.len() == LB_N
    &&& m.times.len() == m.insts.len()
    &&& m.insts.len() <= 0xFFFF_FFFF
    &&& forall|k: int| 0 <= k < m.insts.len() ==> inst_valid(#[trigger] m.insts[k])
}

/// Whether the station named by tag `t` is busy.
pub open spec fn tag_busy(m: Model, t: usize) -> bool {
    if t < RS_N {
        m.rss[t as int].base.busy
    } else if t < TAGS {
        m.lbs[t - RS_N].base.busy
    } else {
        false
    }
}

/// Whether the station named by tag `t` will drive the bus at write-back
/// (jumps produce no value, so nothing may wait on one).
pub open spec fn tag_produces(m: Model, t: usize) -> bool {
    t >= RS_N || m.rss[t as int].op is Bin
}

/// A pending slot names a real tag whose station is busy and will produce a
/// value.
pub open spec fn slot_ok(m: Model, s: Slot) -> bool {
    match s {
        Slot::Pending(t) => t < TAGS && tag_busy(m, t) && tag_produces(m, t),
        Slot::Value(_) => true,
    }
}

/// Every pending register slot names a busy, producing station.
pub open spec fn regs_ok(m: Model) -> bool {
    forall|k: int| 0 <= k < m.regs.len() ==> slot_ok(m, #[trigger] m.regs[k])
}

/// Every waiting operand slot of a busy station names a busy, producing
/// station.
pub open spec fn waits_ok(m: Model) -> bool {
    forall|i: int| 0 <= i < m.rss.len() && (#[trigger] m.rss[i]).base.busy
        ==> slot_ok(m, m.rss[i].qv0) && slot_ok(m, m.rss[i].qv1)
}

/// A station holding or having held a function unit this cycle: busy with
/// its remaining time set.
pub open spec fn rs_occ(r: ReservationStation) -> bool {
    r.base.busy && r.base.remain_time is Some
}

/// A station in mid-execution: busy with positive remaining time.
pub open spec fn rs_running(r: ReservationStation) -> bool {
    r.base.busy && match r.base.remain_time { Some(k) => k > 0, None => false }
}

/// A load buffer holding a function unit.
pub open spec fn lb_occ(l: LoadBuffer) -> bool {
    l.base.busy && l.base.remain_time is Some
}

/// A load buffer in mid-execution.
pub open spec fn lb_running(l: LoadBuffer) -> bool {
    l.base.busy && match l.base.remain_time { Some(k) => k > 0, None => false }
}

/// How many reservation stations in `[beg, end)` are occupied.
pub open spec fn count_occ_rs(rss: Seq<ReservationStation>, beg: int, end: int) -> int
    decreases end - beg,
{
    if beg >= end {
        0
    } else {
        count_occ_rs(rss, beg, end - 1) + (if rs_occ(rss[end - 1]) { 1int } else { 0 })
    }
}

/// How many reservation stations in `[beg, end)` are running.
pub open spec fn count_running_rs(rss: Seq<ReservationStation>, beg: int, end: int) -> int
    decreases end - beg,
{
    if beg >= end {
        0
    } else {
        count_running_rs(rss, beg, end - 1) + (if rs_running(rss[end - 1]) { 1int } else { 0 })
    }
}

/// How many load buffers in `[beg, end)` are occupied.
pub open spec fn count_occ_lb(lbs: Seq<LoadBuffer>, beg: int, end: int) -> int
    decreases end - beg,
{
    if beg >= end {
        0
    } else {
        count_occ_lb(lbs, beg, end - 1) + (if lb_occ(lbs[end - 1]) { 1int } else { 0 })
    }
}

/// How many load buffers in `[beg, end)` are running.
pub open spec fn count_running_lb(lbs: Seq<LoadBuffer>, beg: int, end: int) -> int
    decreases end - beg,
{
    if beg >= end {
        0
    } else {
        count_running_lb(lbs, beg, end - 1) + (if lb_running(lbs[end - 1]) { 1int } else { 0 })
    }
}

/// No partition runs more stations at once than it has function units:
/// at most 3 adder stations, 2 multiplier stations and 2 load buffers.
pub open spec fn fu_caps_ok(m: Model) -> bool {
    &&& count_running_rs(m.rss, 0, ARS as int) <= ADD_FU
    &&& count_running_rs(m.rss, ARS as int, RS_N as int) <= MUL_FU
    &&& count_running_lb(m.lbs, 0, LB_N as int) <= LOAD_FU
}

/// A station with its remaining time set has both operands resolved:
/// execution cannot start with a waiting operand slot.
pub open spec fn operands_resolved(m: Model) -> bool {
    forall|i: int| 0 <= i < m.rss.len() && rs_occ(#[trigger] m.rss[i])
        ==> m.rss[i].qv0 is Value && m.rss[i].qv1 is Value
}

/// The machine invariant between ticks: well-formed dimensions, consistent
/// register renaming, resolved operands under execution, and respected
/// function-unit capacities.
pub open spec fn inv(m: Model) -> bool {
    &&& wf(m)
    &&& regs_ok(m)
    &&& waits_ok(m)
    &&& operands_resolved(m)
    &&& fu_caps_ok(m)
}

} // verus!
