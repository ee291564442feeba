//! The executable machine, proved to follow the transition functions of
//! [`crate::model`] exactly.

use vstd::prelude::*;
use crate::inst::{Inst, BinOp, inst_valid};
use crate::station::{
    Slot, StationOp, RSBase, ReservationStation, LoadBuffer, ARS, RS_N, LB_N, ADD_FU, MUL_FU,
    LOAD_FU,
};
use crate::model::{
    Model, inv, wf, operands_resolved, init_model, spec_bcast, bcast_rs, bcast_slot, spec_done,
    wb_rs_at, wb_rss_upto, wb_lb_at, wb_lbs_upto, spec_write_back, first_free_rs, first_free_lb,
    has_busy_jump, set_issue_time, spec_issue, count_prio_rs, count_prio_lb, rs_prio, lb_prio,
    exec_rs_at, exec_rss_upto, exec_lb_at, exec_lbs_upto, spec_exec,
};
use crate::laws::{
    lemma_wb_rss_upto_safety, lemma_wb_lbs_upto_safety, lemma_exec_rss_upto_frame,
    lemma_exec_lbs_upto_frame,
};

verus! {

/// The simulator: a value-owned machine stepped one tick at a time.
pub struct Tomasulo {
    insts: Vec<Inst>,
    times: Vec<(u32, u32)>,
    pc: u32,
    clk: u32,
    regs: Vec<Slot>,
    rss: Vec<ReservationStation>,
    lbs: Vec<LoadBuffer>,
}

impl View for Tomasulo {
    type V = Model;

    closed spec fn view(&self) -> Model {
        Model {
            insts: self.insts@,
            times: self.times@,
            pc: self.pc,
            clk: self.clk,
            regs: self.regs@,
            rss: self.rss@,
            lbs: self.lbs@,
        }
    }
}

impl Tomasulo {
    /// The machine loaded with an already-decoded program, in its initial
    /// state.
    pub fn with_program(insts: Vec<Inst>) -> (r: Tomasulo)
        requires
            insts@.len() <= 0xFFFF_FFFF,
            forall|k: int| 0 <= k < insts@.len() ==> inst_valid(#[trigger] insts@[k]),
        ensures
            r@ == init_model(insts@),
            inv(r@),
    {
        let n = insts.len();
        let mut times: Vec<(u32, u32)> = Vec::new();
        let mut i: usize = 0;
        while i < n
            invariant
                i <= n,
                times@.len() == i,
                forall|j: int| 0 <= j < i ==> times@[j] == (0u32, 0u32),
            decreases n - i,
        {
            times.push((0, 0));
            i = i + 1;
        }
        let mut regs: Vec<Slot> = Vec::new();
        let mut i: usize = 0;
        while i < 32
            invariant
                i <= 32,
                regs@.len() == i,
                forall|j: int| 0 <= j < i ==> regs@[j] == Slot::Value(0u32),
            decreases 32 - i,
        {
            regs.push(Slot::Value(0));
            i = i + 1;
        }
        let mut rss: Vec<ReservationStation> = Vec::new();
        let mut i: usize = 0;
        while i < RS_N
            invariant
                i <= RS_N,
                rss@.len() == i,
                forall|j: int| 0 <= j < i ==> rss@[j] == crate::station::spec_empty_rs(),
            decreases RS_N - i,
        {
            rss.push(ReservationStation::empty());
            i = i + 1;
        }
        let mut lbs: Vec<LoadBuffer> = Vec::new();
        let mut i: usize = 0;
        while i < LB_N
            invariant
                i <= LB_N,
                lbs@.len() == i,
                forall|j: int| 0 <= j < i ==> lbs@[j] == crate::station::spec_empty_lb(),
            decreases LB_N - i,
        {
            lbs.push(LoadBuffer::empty());
            i = i + 1;
        }
        let r = Tomasulo { insts, times, pc: 0, clk: 0, regs, rss, lbs };
        proof {
            assert(r@ =~~= init_model(r@.insts));
            crate::laws::lemma_init_inv(r@.insts);
        }
        r
    }

    /// Build the simulator from a program text: one instruction per line.
    /// Fails with the 0-based index of the first malformed line.
    pub fn new(code: &str) -> (r: Result<Tomasulo, usize>)
        requires
            code@.len() <= 0xFFFF_FFFF,
        ensures
            match r {
                Ok(t) => {
                    &&& crate::parse::spec_parse_program(code@) == Ok::<Seq<Inst>, int>(t@.insts)
                    &&& t@ == init_model(t@.insts)
                    &&& inv(t@)
                },
                Err(e) => crate::parse::spec_parse_program(code@) == Err::<Seq<Inst>, int>(
                    e as int,
                ),
            },
    {
        match crate::parse::parse_program(code) {
            Ok(v) => Ok(Tomasulo::with_program(v)),
            Err(e) => Err(e),
        }
    }

    /// Whether the run is over: the program counter is past the program and
    /// every station and buffer is free.
    pub fn done(&self) -> (r: bool)
        ensures
            r == spec_done(self@),
    {
        let mut busy = (self.pc as usize) < self.insts.len();
        let mut i: usize = 0;
        let n = self.rss.len();
        while i < n
            invariant
                i <= n,
                n == self.rss@.len(),
                busy == ((self.pc as int) < self@.insts.len()
                    || exists|j: int| 0 <= j < i && (#[trigger] self.rss@[j]).base.busy),
            decreases n - i,
        {
            if self.rss[i].base.busy {
                busy = true;
            }
            i = i + 1;
        }
        let m = self.lbs.len();
        let mut i: usize = 0;
        while i < m
            invariant
                i <= m,
                m == self.lbs@.len(),
                busy == ((self.pc as int) < self@.insts.len()
                    || (exists|j: int| 0 <= j < self.rss@.len() && (#[trigger] self.rss@[j]).base.busy)
                    || exists|j: int| 0 <= j < i && (#[trigger] self.lbs@[j]).base.busy),
            decreases m - i,
        {
            if self.lbs[i].base.busy {
                busy = true;
            }
            i = i + 1;
        }
        !busy
    }

    /// Drive the common data bus with `(tag, v)`: every waiting operand
    /// slot and every pending register slot naming `tag` takes the value.
    fn cdb_broadcast(&mut self, tag: usize, v: u32)
        ensures
            final(self)@ == spec_bcast(old(self)@, tag, v),
    {
        let n = self.rss.len();
        let mut i: usize = 0;
        while i < n
            invariant
                i <= n,
                n == self.rss@.len(),
                self.rss@.len() == old(self).rss@.len(),
                forall|j: int| 0 <= j < i ==> self.rss@[j] == bcast_rs(#[trigger] old(self).rss@[j], tag, v),
                forall|j: int| i <= j < n ==> self.rss@[j] == old(self).rss@[j],
                self.insts@ == old(self).insts@,
                self.times@ == old(self).times@,
                self.pc == old(self).pc,
                self.clk == old(self).clk,
                self.regs@ == old(self).regs@,
                self.lbs@ == old(self).lbs@,
            decreases n - i,
        {
            let r = self.rss[i];
            let mut r2 = r;
            match r.qv0 {
                Slot::Pending(t) => if t == tag { r2.qv0 = Slot::Value(v); },
                Slot::Value(_) => {},
            }
            match r.qv1 {
                Slot::Pending(t) => if t == tag { r2.qv1 = Slot::Value(v); },
                Slot::Value(_) => {},
            }
            self.rss[i] = r2;
            i = i + 1;
        }
        let k = self.regs.len();
        let mut i: usize = 0;
        while i < k
            invariant
                i <= k,
                k == self.regs@.len(),
                self.regs@.len() == old(self).regs@.len(),
                forall|j: int| 0 <= j < i ==> self.regs@[j] == bcast_slot(#[trigger] old(self).regs@[j], tag, v),
                forall|j: int| i <= j < k ==> self.regs@[j] == old(self).regs@[j],
                self.rss@.len() == old(self).rss@.len(),
                forall|j: int| 0 <= j < self.rss@.len()
                    ==> self.rss@[j] == bcast_rs(#[trigger] old(self).rss@[j], tag, v),
                self.insts@ == old(self).insts@,
                self.times@ == old(self).times@,
                self.pc == old(self).pc,
                self.clk == old(self).clk,
                self.lbs@ == old(self).lbs@,
            decreases k - i,
        {
            match self.regs[i] {
                Slot::Pending(t) => if t == tag { self.regs[i] = Slot::Value(v); },
                Slot::Value(_) => {},
            }
            i = i + 1;
        }
        proof {
            assert(self@ =~~= spec_bcast(old(self)@, tag, v));
        }
    }

    /// The write-back phase: every busy station or buffer whose execution
    /// is complete clears itself and, except for jumps, drives the common
    /// data bus; a completing taken jump adds its stored offset to the
    /// program counter.
    fn write_back(&mut self)
        requires
            wf(old(self)@),
            operands_resolved(old(self)@),
        ensures
            final(self)@ == spec_write_back(old(self)@),
    {
        let ghost m0 = self@;
        let mut i: usize = 0;
        while i < RS_N
            invariant
                i <= RS_N,
                wf(m0),
                operands_resolved(m0),
                self@ == wb_rss_upto(m0, i as int),
            decreases RS_N - i,
        {
            proof {
                lemma_wb_rss_upto_safety(m0, i as int);
            }
            let r = self.rss[i];
            if r.base.busy && matches!(r.base.remain_time, Some(0)) {
                let mut r2 = r;
                r2.base.busy = false;
                self.rss[i] = r2;
                match r.op {
                    StationOp::Bin(op) => {
                        let lv = match r.qv0 {
                            Slot::Value(v) => v,
                            Slot::Pending(_) => { proof { assert(false); } 0 },
                        };
                        let rv = match r.qv1 {
                            Slot::Value(v) => v,
                            Slot::Pending(_) => { proof { assert(false); } 0 },
                        };
                        let v = op.eval(lv, rv);
                        self.cdb_broadcast(i, v);
                    },
                    StationOp::Jump(off) => {
                        if r.qv0 == r.qv1 {
                            self.pc = self.pc.wrapping_add(off);
                        }
                    },
                }
            }
            proof {
                assert(self@ =~~= wb_rs_at(wb_rss_upto(m0, i as int), i as int));
            }
            i = i + 1;
        }
        let ghost m1 = self@;
        let mut i: usize = 0;
        while i < LB_N
            invariant
                i <= LB_N,
                wf(m0),
                operands_resolved(m0),
                m1 == wb_rss_upto(m0, RS_N as int),
                self@ == wb_lbs_upto(m1, i as int),
            decreases LB_N - i,
        {
            proof {
                lemma_wb_rss_upto_safety(m0, RS_N as int);
                lemma_wb_lbs_upto_safety(m1, i as int);
            }
            let l = self.lbs[i];
            if l.base.busy && matches!(l.base.remain_time, Some(0)) {
                let mut l2 = l;
                l2.base.busy = false;
                self.lbs[i] = l2;
                self.cdb_broadcast(i + RS_N, l.imm);
            }
            proof {
                assert(self@ =~~= wb_lb_at(wb_lbs_upto(m1, i as int), i as int));
            }
            i = i + 1;
        }
    }

    /// The smallest free reservation station in `[beg, end)`.
    fn find_free_rs(&self, beg: usize, end: usize) -> (r: Option<usize>)
        requires
            beg <= end,
            end <= self@.rss.len(),
        ensures
            match r {
                Some(k) => beg <= k < end
                    && first_free_rs(self@.rss, beg as int, end as int) == Some(k as int),
                None => first_free_rs(self@.rss, beg as int, end as int) is None,
            },
    {
        let mut i = beg;
        while i < end
            invariant
                beg <= i <= end,
                end <= self.rss@.len(),
                first_free_rs(self.rss@, beg as int, end as int)
                    == first_free_rs(self.rss@, i as int, end as int),
            decreases end - i,
        {
            if !self.rss[i].base.busy {
                return Some(i);
            }
            i = i + 1;
        }
        None
    }

    /// The smallest free load buffer.
    fn find_free_lb(&self) -> (r: Option<usize>)
        requires
            self@.lbs.len() == LB_N,
        ensures
            match r {
                Some(k) => k < LB_N
                    && first_free_lb(self@.lbs, 0, LB_N as int) == Some(k as int),
                None => first_free_lb(self@.lbs, 0, LB_N as int) is None,
            },
    {
        let mut i: usize = 0;
        while i < LB_N
            invariant
                i <= LB_N,
                self.lbs@.len() == LB_N,
                first_free_lb(self.lbs@, 0, LB_N as int)
                    == first_free_lb(self.lbs@, i as int, LB_N as int),
            decreases LB_N - i,
        {
            if !self.lbs[i].base.busy {
                return Some(i);
            }
            i = i + 1;
        }
        None
    }

    /// Log the issue cycle of the instruction at `pc` (first issue only)
    /// and advance the program counter.
    fn issue_advance(&mut self)
        requires
            (old(self)@.pc as int) < old(self)@.insts.len(),
            old(self)@.times.len() == old(self)@.insts.len(),
            old(self)@.insts.len() <= 0xFFFF_FFFF,
        ensures
            final(self)@ == (Model {
                times: set_issue_time(old(self)@.times, old(self)@.pc as int, old(self)@.clk),
                pc: (old(self)@.pc + 1) as u32,
                ..old(self)@
            }),
    {
        let idx = self.pc as usize;
        let t = self.times[idx];
        if t.0 == 0 {
            self.times[idx] = (self.clk, t.1);
        }
        self.pc = self.pc + 1;
        proof {
            assert(self@ =~~= (Model {
                times: set_issue_time(old(self)@.times, old(self)@.pc as int, old(self)@.clk),
                pc: (old(self)@.pc + 1) as u32,
                ..old(self)@
            }));
        }
    }

    /// The issue phase: if no station holds an unresolved jump and the
    /// program counter is within the program, the next instruction takes
    /// the first free slot of its partition, capturing its operands from
    /// the register file as they stand; otherwise the phase is a no-op.
    fn issue(&mut self)
        requires
            wf(old(self)@),
        ensures
            final(self)@ == spec_issue(old(self)@),
    {
        let ghost m0 = self@;
        let mut i: usize = 0;
        while i < RS_N
            invariant
                i <= RS_N,
                wf(m0),
                self@ == m0,
                forall|j: int| 0 <= j < i
                    ==> !((#[trigger] m0.rss[j]).base.busy && m0.rss[j].op is Jump),
            decreases RS_N - i,
        {
            let r = self.rss[i];
            if r.base.busy && matches!(r.op, StationOp::Jump(_)) {
                proof {
                    assert(has_busy_jump(m0));
                }
                return;
            }
            i = i + 1;
        }
        proof {
            assert(!has_busy_jump(m0));
        }
        if (self.pc as usize) < self.insts.len() {
            let inst = self.insts[self.pc as usize];
            match inst {
                Inst::Bin(op, dst, l, r) => {
                    let adder = op == BinOp::Add || op == BinOp::Sub;
                    let beg: usize = if adder { 0 } else { ARS };
                    let end: usize = if adder { ARS } else { RS_N };
                    match self.find_free_rs(beg, end) {
                        Some(idx) => {
                            let station = ReservationStation {
                                base: RSBase {
                                    busy: true,
                                    remain_time: None,
                                    issue_time: self.clk,
                                    inst_idx: self.pc,
                                },
                                op: StationOp::Bin(op),
                                qv0: self.regs[l],
                                qv1: self.regs[r],
                            };
                            self.rss[idx] = station;
                            self.regs[dst] = Slot::Pending(idx);
                            self.issue_advance();
                        },
                        None => {},
                    }
                },
                Inst::Ld(dst, imm) => {
                    match self.find_free_lb() {
                        Some(idx) => {
                            let buffer = LoadBuffer {
                                base: RSBase {
                                    busy: true,
                                    remain_time: None,
                                    issue_time: self.clk,
                                    inst_idx: self.pc,
                                },
                                imm,
                            };
                            self.lbs[idx] = buffer;
                            self.regs[dst] = Slot::Pending(idx + RS_N);
                            self.issue_advance();
                        },
                        None => {},
                    }
                },
                Inst::Jump(cmp, cond, off) => {
                    match self.find_free_rs(0, ARS) {
                        Some(idx) => {
                            let station = ReservationStation {
                                base: RSBase {
                                    busy: true,
                                    remain_time: None,
                                    issue_time: self.clk,
                                    inst_idx: self.pc,
                                },
                                op: StationOp::Jump(off.wrapping_sub(1)),
                                qv0: self.regs[cond],
                                qv1: Slot::Value(cmp),
                            };
                            self.rss[idx] = station;
                            self.issue_advance();
                        },
                        None => {},
                    }
                },
            }
        }
        proof {
            assert(self@ =~~= spec_issue(m0));
        }
    }

    /// How many reservation stations in `[beg, end)` outrank issue time
    /// `it` in the contest for a function unit.
    fn count_prio_rs_exec(&self, beg: usize, end: usize, it: u32) -> (c: usize)
        requires
            beg <= end,
            end <= self@.rss.len(),
        ensures
            c as int == count_prio_rs(self@.rss, beg as int, end as int, it),
    {
        let mut c: usize = 0;
        let mut j = beg;
        while j < end
            invariant
                beg <= j <= end,
                end <= self.rss@.len(),
                c <= j - beg,
                c as int == count_prio_rs(self.rss@, beg as int, j as int, it),
            decreases end - j,
        {
            let r1 = self.rss[j];
            let p = r1.base.busy && (matches!(r1.base.remain_time, Some(_))
                || (matches!(r1.qv0, Slot::Value(_)) && matches!(r1.qv1, Slot::Value(_))
                    && r1.base.issue_time < it));
            if p {
                c = c + 1;
            }
            proof {
                assert(rs_prio(self.rss@[j as int], it) == p);
            }
            j = j + 1;
        }
        c
    }

    /// How many load buffers outrank issue time `it`.
    fn count_prio_lb_exec(&self, it: u32) -> (c: usize)
        requires
            self@.lbs.len() == LB_N,
        ensures
            c as int == count_prio_lb(self@.lbs, 0, LB_N as int, it),
    {
        let mut c: usize = 0;
        let mut j: usize = 0;
        while j < LB_N
            invariant
                j <= LB_N,
                self.lbs@.len() == LB_N,
                c <= j,
                c as int == count_prio_lb(self.lbs@, 0, j as int, it),
            decreases LB_N - j,
        {
            let l1 = self.lbs[j];
            let p = l1.base.busy
                && (matches!(l1.base.remain_time, Some(_)) || l1.base.issue_time < it);
            if p {
                c = c + 1;
            }
            proof {
                assert(lb_prio(self.lbs@[j as int], it) == p);
            }
            j = j + 1;
        }
        c
    }

    /// The execute phase: every executing station counts down (logging the
    /// completion cycle on reaching zero), and every ready station starts
    /// executing if the stations outranking it number fewer than its
    /// partition's function units.
    fn exec(&mut self)
        requires
            wf(old(self)@),
        ensures
            final(self)@ == spec_exec(old(self)@),
    {
        let ghost m0 = self@;
        let mut i: usize = 0;
        while i < RS_N
            invariant
                i <= RS_N,
                wf(m0),
                self@ == exec_rss_upto(m0, i as int),
            decreases RS_N - i,
        {
            proof {
                lemma_exec_rss_upto_frame(m0, i as int);
            }
            let r = self.rss[i];
            if r.base.busy {
                match r.base.remain_time {
                    Some(t) => {
                        let nt: u8 = if t > 0 { t - 1 } else { 0 };
                        let mut r2 = r;
                        r2.base.remain_time = Some(nt);
                        self.rss[i] = r2;
                        if nt == 0 {
                            let ii = r.base.inst_idx as usize;
                            if ii < self.times.len() {
                                let tt = self.times[ii];
                                if tt.1 == 0 {
                                    self.times[ii] = (tt.0, self.clk);
                                }
                            }
                        }
                    },
                    None => {
                        if matches!(r.qv0, Slot::Value(_)) && matches!(r.qv1, Slot::Value(_)) {
                            let adder = i < ARS;
                            let beg: usize = if adder { 0 } else { ARS };
                            let end: usize = if adder { ARS } else { RS_N };
                            let cap: usize = if adder { ADD_FU } else { MUL_FU };
                            let cnt = self.count_prio_rs_exec(beg, end, r.base.issue_time);
                            if cnt < cap {
                                let lat: u8 = match r.op {
                                    StationOp::Bin(o) => o.delay(),
                                    StationOp::Jump(_) => 1,
                                };
                                let mut r2 = r;
                                r2.base.remain_time = Some(lat);
                                self.rss[i] = r2;
                            }
                        }
                    },
                }
            }
            proof {
                assert(self@ =~~= exec_rs_at(exec_rss_upto(m0, i as int), i as int));
            }
            i = i + 1;
        }
        let ghost m1 = self@;
        let mut i: usize = 0;
        while i < LB_N
            invariant
                i <= LB_N,
                wf(m0),
                m1 == exec_rss_upto(m0, RS_N as int),
                self@ == exec_lbs_upto(m1, i as int),
            decreases LB_N - i,
        {
            proof {
                lemma_exec_rss_upto_frame(m0, RS_N as int);
                lemma_exec_lbs_upto_frame(m1, i as int);
            }
            let l = self.lbs[i];
            if l.base.busy {
                match l.base.remain_time {
                    Some(t) => {
                        let nt: u8 = if t > 0 { t - 1 } else { 0 };
                        let mut l2 = l;
                        l2.base.remain_time = Some(nt);
                        self.lbs[i] = l2;
                        if nt == 0 {
                            let ii = l.base.inst_idx as usize;
                            if ii < self.times.len() {
                                let tt = self.times[ii];
                                if tt.1 == 0 {
                                    self.times[ii] = (tt.0, self.clk);
                                }
                            }
                        }
                    },
                    None => {
                        let cnt = self.count_prio_lb_exec(l.base.issue_time);
                        if cnt < LOAD_FU {
                            let mut l2 = l;
                            l2.base.remain_time = Some(3);
                            self.lbs[i] = l2;
                        }
                    },
                }
            }
            proof {
                assert(self@ =~~= exec_lb_at(exec_lbs_upto(m1, i as int), i as int));
            }
            i = i + 1;
        }
    }

    /// One tick: advance the clock, then write-back, then issue, then
    /// execute.  The machine invariant is preserved and the whole state
    /// after the tick is a pure function of the state before it.
    pub fn step(&mut self)
        requires
            inv(old(self)@),
            old(self)@.clk < 0xFFFF_FFFF,
        ensures
            final(self)@ == crate::model::spec_step(old(self)@),
            inv(final(self)@),
            final(self)@.clk == old(self)@.clk + 1,
            final(self)@.insts == old(self)@.insts,
    {
        proof {
            crate::laws::lemma_step_preserves_inv(old(self)@);
            crate::laws::lemma_step_frame(old(self)@);
        }
        self.clk = self.clk + 1;
        let ghost m1 = self@;
        proof {
            assert(m1 == (Model {
                clk: vstd::wrapping::u32_specs::wrapping_add(old(self)@.clk, 1),
                ..old(self)@
            }));
            crate::laws::lemma_clk_bump_inv(old(self)@);
            crate::laws::lemma_wb_preserves_inv(m1);
        }
        self.write_back();
        let ghost mw = self@;
        proof {
            crate::laws::lemma_issue_preserves_inv(mw);
        }
        self.issue();
        self.exec();
    }

    /// Up to `n` ticks, stopping early once the machine is done.
    pub fn run_n(&mut self, n: u32)
        requires
            inv(old(self)@),
            old(self)@.clk as int + n as int <= 0xFFFF_FFFF,
        ensures
            final(self)@ == crate::model::spec_run_n(old(self)@, n as nat),
            inv(final(self)@),
    {
        let mut k: u32 = 0;
        let mut stop: bool = false;
        while k < n && !stop
            invariant
                k <= n,
                inv(self@),
                self@.clk as int <= old(self)@.clk as int + k as int,
                old(self)@.clk as int + n as int <= 0xFFFF_FFFF,
                stop ==> crate::model::spec_run_n(old(self)@, n as nat) == self@,
                !stop ==> crate::model::spec_run_n(old(self)@, n as nat)
                    == crate::model::spec_run_n(self@, (n - k) as nat),
            decreases n - k,
        {
            let ghost mc = self@;
            self.step();
            k = k + 1;
            if self.done() {
                stop = true;
            }
            proof {
                assert(crate::model::spec_run_n(mc, (n - k + 1) as nat) == (if crate::model::spec_done(self@) {
                    self@
                } else {
                    crate::model::spec_run_n(self@, (n - k) as nat)
                }));
            }
        }
    }

    /// Reset: back to the initial state — program counter and clock at
    /// zero, all registers `Value(0)`, every station free, the timing log
    /// zeroed — keeping only the loaded program.
    pub fn reset(&mut self)
        requires
            inv(old(self)@),
        ensures
            final(self)@ == crate::model::spec_reset(old(self)@),
            inv(final(self)@),
    {
        self.pc = 0;
        self.clk = 0;
        let n = self.times.len();
        let mut i: usize = 0;
        while i < n
            invariant
                i <= n,
                n == self.times@.len(),
                self.pc == 0u32,
                self.clk == 0u32,
                forall|j: int| 0 <= j < i ==> self.times@[j] == (0u32, 0u32),
                self.insts@ == old(self).insts@,
                self.regs@ == old(self).regs@,
                self.rss@ == old(self).rss@,
                self.lbs@ == old(self).lbs@,
            decreases n - i,
        {
            self.times[i] = (0, 0);
            i = i + 1;
        }
        let mut i: usize = 0;
        while i < 32
            invariant
                i <= 32,
                self.regs@.len() == old(self).regs@.len(),
                old(self).regs@.len() == 32,
                self.pc == 0u32,
                self.clk == 0u32,
                forall|j: int| 0 <= j < i ==> self.regs@[j] == Slot::Value(0u32),
                self.insts@ == old(self).insts@,
                forall|j: int| 0 <= j < self.times@.len() ==> self.times@[j] == (0u32, 0u32),
                self.times@.len() == old(self).times@.len(),
                self.rss@ == old(self).rss@,
                self.lbs@ == old(self).lbs@,
            decreases 32 - i,
        {
            self.regs[i] = Slot::Value(0);
            i = i + 1;
        }
        let mut i: usize = 0;
        while i < RS_N
            invariant
                i <= RS_N,
                self.rss@.len() == old(self).rss@.len(),
                old(self).rss@.len() == RS_N,
                self.pc == 0u32,
                self.clk == 0u32,
                forall|j: int| 0 <= j < i ==> self.rss@[j] == crate::station::spec_empty_rs(),
                self.insts@ == old(self).insts@,
                forall|j: int| 0 <= j < self.times@.len() ==> self.times@[j] == (0u32, 0u32),
                self.times@.len() == old(self).times@.len(),
                forall|j: int| 0 <= j < self.regs@.len() ==> self.regs@[j] == Slot::Value(0u32),
                self.regs@.len() == 32,
                self.lbs@ == old(self).lbs@,
            decreases RS_N - i,
        {
            self.rss[i] = ReservationStation::empty();
            i = i + 1;
        }
        let mut i: usize = 0;
        while i < LB_N
            invariant
                i <= LB_N,
                self.lbs@.len() == old(self).lbs@.len(),
                old(self).lbs@.len() == LB_N,
                self.pc == 0u32,
                self.clk == 0u32,
                forall|j: int| 0 <= j < i ==> self.lbs@[j] == crate::station::spec_empty_lb(),
                self.insts@ == old(self).insts@,
                forall|j: int| 0 <= j < self.times@.len() ==> self.times@[j] == (0u32, 0u32),
                self.times@.len() == old(self).times@.len(),
                forall|j: int| 0 <= j < self.regs@.len() ==> self.regs@[j] == Slot::Value(0u32),
                self.regs@.len() == 32,
                forall|j: int| 0 <= j < self.rss@.len() ==> self.rss@[j] == crate::station::spec_empty_rs(),
                self.rss@.len() == RS_N,
            decreases LB_N - i,
        {
            self.lbs[i] = LoadBuffer::empty();
            i = i + 1;
        }
        proof {
            assert(self.pc == 0 && self.clk == 0);
            assert(self@ =~~= crate::model::init_model(old(self)@.insts));
            crate::laws::lemma_init_inv(old(self)@.insts);
        }
    }

    /// A full snapshot of the observable state.  Every field is a pure
    /// function of the machine state and the machine is untouched, so
    /// taking two snapshots without stepping yields equal values.
    pub fn snapshot(&self) -> (r: crate::snap::Snapshot)
        ensures
            r.clk == self@.clk,
            r.pc == self@.pc,
            r.done == spec_done(self@),
            r.regs@ == self@.regs,
            r.rss@ == self@.rss,
            r.lbs@ == self@.lbs,
            r.times@ == self@.times,
    {
        crate::snap::Snapshot {
            clk: self.clk,
            pc: self.pc,
            done: self.done(),
            regs: copy_vec(&self.regs),
            rss: copy_vec(&self.rss),
            lbs: copy_vec(&self.lbs),
            times: copy_vec(&self.times),
        }
    }
}

/// An element-by-element copy of a vector of plain values.
fn copy_vec<T: Copy>(v: &Vec<T>) -> (r: Vec<T>)
    ensures
        r@ == v@,
{
    let n = v.len();
    let mut r: Vec<T> = Vec::new();
    let mut i: usize = 0;
    while i < n
        invariant
            i <= n,
            n == v@.len(),
            r@.len() == i,
            forall|j: int| 0 <= j < i ==> r@[j] == v@[j],
        decreases n - i,
    {
        r.push(v[i]);
        i = i + 1;
    }
    proof {
        assert(r@ =~= v@);
    }
    r
}

} // verus!
