//! Counting lemmas, preservation of the machine invariant by every phase of
//! the tick, and the stated laws of the machine.

use vstd::prelude::*;
use crate::station::{Slot, StationOp, ReservationStation, LoadBuffer, ARS, RS_N, LB_N, TAGS, ADD_FU, MUL_FU, LOAD_FU};
use crate::model::{
    Model, wf, inv, regs_ok, waits_ok, slot_ok, tag_busy, operands_resolved, fu_caps_ok,
    spec_bcast, bcast_slot, bcast_rs, rs_cleared,
    wb_rs_at, wb_rss_upto, wb_lb_at, wb_lbs_upto, spec_write_back,
    spec_issue, exec_rs_at, exec_rss_upto, exec_lb_at, exec_lbs_upto, spec_exec, spec_step,
    rs_occ, rs_running, lb_occ, lb_running,
    count_occ_rs, count_running_rs, count_prio_rs,
    count_occ_lb, count_running_lb, count_prio_lb,
};

verus! {

// ---------------------------------------------------------------------------
// Counting lemmas
// ---------------------------------------------------------------------------

/// A range with no running station counts zero.
pub proof fn lemma_count_running_rs_none(s: Seq<ReservationStation>, beg: int, end: int)
    requires
        forall|j: int| beg <= j < end ==> !rs_running(#[trigger] s[j]),
    ensures
        count_running_rs(s, beg, end) == 0,
    decreases end - beg,
{
    if beg < end {
        lemma_count_running_rs_none(s, beg, end - 1);
    }
}

/// A range with no running load buffer counts zero.
pub proof fn lemma_count_running_lb_none(s: Seq<LoadBuffer>, beg: int, end: int)
    requires
        forall|j: int| beg <= j < end ==> !lb_running(#[trigger] s[j]),
    ensures
        count_running_lb(s, beg, end) == 0,
    decreases end - beg,
{
    if beg < end {
        lemma_count_running_lb_none(s, beg, end - 1);
    }
}

/// Running counts are monotone under pointwise implication.
pub proof fn lemma_count_running_rs_mono(a: Seq<ReservationStation>, b: Seq<ReservationStation>, beg: int, end: int)
    requires
        forall|j: int| beg <= j < end ==> rs_running(#[trigger] a[j]) ==> rs_running(#[trigger] b[j]),
    ensures
        count_running_rs(a, beg, end) <= count_running_rs(b, beg, end),
    decreases end - beg,
{
    if beg < end {
        lemma_count_running_rs_mono(a, b, beg, end - 1);
    }
}

/// A running station is occupied, so the running count bounds by the
/// occupancy count.
pub proof fn lemma_count_running_le_occ_rs(s: Seq<ReservationStation>, beg: int, end: int)
    ensures
        count_running_rs(s, beg, end) <= count_occ_rs(s, beg, end),
    decreases end - beg,
{
    if beg < end {
        lemma_count_running_le_occ_rs(s, beg, end - 1);
    }
}

/// An occupied station outranks every competitor, so the occupancy count
/// bounds by any priority count.
pub proof fn lemma_count_occ_le_prio_rs(s: Seq<ReservationStation>, beg: int, end: int, it: u32)
    ensures
        count_occ_rs(s, beg, end) <= count_prio_rs(s, beg, end, it),
    decreases end - beg,
{
    if beg < end {
        lemma_count_occ_le_prio_rs(s, beg, end - 1, it);
    }
}

/// How a single update moves the occupancy count.
pub proof fn lemma_count_occ_rs_update(s: Seq<ReservationStation>, beg: int, end: int, i: int, r2: ReservationStation)
    requires
        0 <= i < s.len(),
        0 <= beg,
        end <= s.len(),
    ensures
        count_occ_rs(s.update(i, r2), beg, end) == count_occ_rs(s, beg, end)
            + if beg <= i < end {
                (if rs_occ(r2) { 1int } else { 0 }) - (if rs_occ(s[i]) { 1int } else { 0 })
            } else {
                0
            },
    decreases end - beg,
{
    if beg < end {
        lemma_count_occ_rs_update(s, beg, end - 1, i, r2);
    }
}

/// Load-buffer analogue of [`lemma_count_running_rs_mono`].
pub proof fn lemma_count_running_lb_mono(a: Seq<LoadBuffer>, b: Seq<LoadBuffer>, beg: int, end: int)
    requires
        forall|j: int| beg <= j < end ==> lb_running(#[trigger] a[j]) ==> lb_running(#[trigger] b[j]),
    ensures
        count_running_lb(a, beg, end) <= count_running_lb(b, beg, end),
    decreases end - beg,
{
    if beg < end {
        lemma_count_running_lb_mono(a, b, beg, end - 1);
    }
}

/// Load-buffer analogue of [`lemma_count_running_le_occ_rs`].
pub proof fn lemma_count_running_le_occ_lb(s: Seq<LoadBuffer>, beg: int, end: int)
    ensures
        count_running_lb(s, beg, end) <= count_occ_lb(s, beg, end),
    decreases end - beg,
{
    if beg < end {
        lemma_count_running_le_occ_lb(s, beg, end - 1);
    }
}

/// Load-buffer analogue of [`lemma_count_occ_le_prio_rs`].
pub proof fn lemma_count_occ_le_prio_lb(s: Seq<LoadBuffer>, beg: int, end: int, it: u32)
    ensures
        count_occ_lb(s, beg, end) <= count_prio_lb(s, beg, end, it),
    decreases end - beg,
{
    if beg < end {
        lemma_count_occ_le_prio_lb(s, beg, end - 1, it);
    }
}

/// Load-buffer analogue of [`lemma_count_occ_rs_update`].
pub proof fn lemma_count_occ_lb_update(s: Seq<LoadBuffer>, beg: int, end: int, i: int, l2: LoadBuffer)
    requires
        0 <= i < s.len(),
        0 <= beg,
        end <= s.len(),
    ensures
        count_occ_lb(s.update(i, l2), beg, end) == count_occ_lb(s, beg, end)
            + if beg <= i < end {
                (if lb_occ(l2) { 1int } else { 0 }) - (if lb_occ(s[i]) { 1int } else { 0 })
            } else {
                0
            },
    decreases end - beg,
{
    if beg < end {
        lemma_count_occ_lb_update(s, beg, end - 1, i, l2);
    }
}

// ---------------------------------------------------------------------------
// What a broadcast and each phase leave untouched
// ---------------------------------------------------------------------------

/// A broadcast changes only waiting slots: station bookkeeping, operators
/// and already-resolved slots are untouched, as are all other components.
pub proof fn lemma_bcast_frame(m: Model, tag: usize, v: u32)
    ensures
        ({
            let m2 = spec_bcast(m, tag, v);
            &&& m2.rss.len() == m.rss.len()
            &&& m2.regs.len() == m.regs.len()
            &&& m2.insts == m.insts
            &&& m2.times == m.times
            &&& m2.lbs == m.lbs
            &&& m2.pc == m.pc
            &&& m2.clk == m.clk
            &&& forall|j: int| 0 <= j < m.rss.len()
                ==> (#[trigger] m2.rss[j]).base == m.rss[j].base && m2.rss[j].op == m.rss[j].op
            &&& forall|j: int| 0 <= j < m.rss.len()
                ==> ((m.rss[j].qv0 is Value ==> (#[trigger] m2.rss[j]).qv0 == m.rss[j].qv0)
                    && (m.rss[j].qv1 is Value ==> m2.rss[j].qv1 == m.rss[j].qv1))
        }),
{
}

/// Write-back of one reservation station keeps the machine well-formed and
/// operands resolved, and touches neither the program, the timing log, the
/// clock nor the load buffers.
pub proof fn lemma_wb_rs_at_safety(m: Model, i: int)
    requires
        wf(m),
        operands_resolved(m),
        0 <= i < RS_N,
    ensures
        wf(wb_rs_at(m, i)),
        operands_resolved(wb_rs_at(m, i)),
        wb_rs_at(m, i).insts == m.insts,
        wb_rs_at(m, i).times == m.times,
        wb_rs_at(m, i).clk == m.clk,
        wb_rs_at(m, i).lbs == m.lbs,
{
    let m2 = wb_rs_at(m, i);
    let r = m.rss[i];
    if r.base.busy && r.base.remain_time == Some(0u8) {
        let cleared = Model { rss: m.rss.update(i, crate::model::rs_cleared(r)), ..m };
        assert(wf(cleared));
        assert forall|j: int| 0 <= j < cleared.rss.len() && rs_occ(#[trigger] cleared.rss[j])
            implies cleared.rss[j].qv0 is Value && cleared.rss[j].qv1 is Value by {
            if j != i {
                assert(cleared.rss[j] == m.rss[j]);
            }
        }
        match r.op {
            crate::station::StationOp::Bin(op) => {
                if r.qv0 is Value && r.qv1 is Value {
                    let v = crate::inst::spec_eval(op, r.qv0->Value_0, r.qv1->Value_0);
                    lemma_bcast_frame(cleared, i as usize, v);
                    let mb = spec_bcast(cleared, i as usize, v);
                    assert forall|j: int| 0 <= j < mb.rss.len() && rs_occ(#[trigger] mb.rss[j])
                        implies mb.rss[j].qv0 is Value && mb.rss[j].qv1 is Value by {
                        assert(mb.rss[j].base == cleared.rss[j].base);
                        assert(rs_occ(cleared.rss[j]));
                        assert(mb.rss[j] == crate::model::bcast_rs(cleared.rss[j], i as usize, v));
                    }
                }
            },
            crate::station::StationOp::Jump(_) => {},
        }
    }
}

/// [`lemma_wb_rs_at_safety`] folded over a prefix of the stations.
pub proof fn lemma_wb_rss_upto_safety(m: Model, n: int)
    requires
        wf(m),
        operands_resolved(m),
        0 <= n <= RS_N,
    ensures
        wf(wb_rss_upto(m, n)),
        operands_resolved(wb_rss_upto(m, n)),
        wb_rss_upto(m, n).insts == m.insts,
        wb_rss_upto(m, n).times == m.times,
        wb_rss_upto(m, n).clk == m.clk,
        wb_rss_upto(m, n).lbs == m.lbs,
    decreases n,
{
    if n > 0 {
        lemma_wb_rss_upto_safety(m, n - 1);
        lemma_wb_rs_at_safety(wb_rss_upto(m, n - 1), n - 1);
    }
}

/// Write-back of one load buffer keeps the machine well-formed and
/// operands resolved, and does not touch the program, the timing log, the
/// clock or the program counter.
pub proof fn lemma_wb_lb_at_safety(m: Model, i: int)
    requires
        wf(m),
        operands_resolved(m),
        0 <= i < LB_N,
    ensures
        wf(wb_lb_at(m, i)),
        operands_resolved(wb_lb_at(m, i)),
        wb_lb_at(m, i).insts == m.insts,
        wb_lb_at(m, i).times == m.times,
        wb_lb_at(m, i).clk == m.clk,
        wb_lb_at(m, i).pc == m.pc,
{
    let m2 = wb_lb_at(m, i);
    let l = m.lbs[i];
    if l.base.busy && l.base.remain_time == Some(0u8) {
        let cleared = Model {
            lbs: m.lbs.update(i, LoadBuffer { base: crate::station::RSBase { busy: false, ..l.base }, ..l }),
            ..m
        };
        assert forall|j: int| 0 <= j < cleared.rss.len() && rs_occ(#[trigger] cleared.rss[j])
            implies cleared.rss[j].qv0 is Value && cleared.rss[j].qv1 is Value by {
            assert(cleared.rss[j] == m.rss[j]);
        }
        lemma_bcast_frame(cleared, (i + RS_N) as usize, l.imm);
        let mb = spec_bcast(cleared, (i + RS_N) as usize, l.imm);
        assert forall|j: int| 0 <= j < mb.rss.len() && rs_occ(#[trigger] mb.rss[j])
            implies mb.rss[j].qv0 is Value && mb.rss[j].qv1 is Value by {
            assert(mb.rss[j].base == cleared.rss[j].base);
            assert(rs_occ(cleared.rss[j]));
            assert(mb.rss[j] == crate::model::bcast_rs(cleared.rss[j], (i + RS_N) as usize, l.imm));
        }
    }
}

/// [`lemma_wb_lb_at_safety`] folded over a prefix of the load buffers.
pub proof fn lemma_wb_lbs_upto_safety(m: Model, n: int)
    requires
        wf(m),
        operands_resolved(m),
        0 <= n <= LB_N,
    ensures
        wf(wb_lbs_upto(m, n)),
        operands_resolved(wb_lbs_upto(m, n)),
        wb_lbs_upto(m, n).insts == m.insts,
        wb_lbs_upto(m, n).times == m.times,
        wb_lbs_upto(m, n).clk == m.clk,
        wb_lbs_upto(m, n).pc == m.pc,
    decreases n,
{
    if n > 0 {
        lemma_wb_lbs_upto_safety(m, n - 1);
        lemma_wb_lb_at_safety(wb_lbs_upto(m, n - 1), n - 1);
    }
}

/// The first free station of a range, when there is one, lies in the range
/// and is indeed free.
pub proof fn lemma_first_free_rs_props(rss: Seq<ReservationStation>, i: int, end: int)
    ensures
        match crate::model::first_free_rs(rss, i, end) {
            Some(k) => i <= k < end && !rss[k].base.busy,
            None => true,
        },
    decreases end - i,
{
    if i < end && rss[i].base.busy {
        lemma_first_free_rs_props(rss, i + 1, end);
    }
}

/// The first free load buffer of a range, when there is one, lies in the
/// range and is indeed free.
pub proof fn lemma_first_free_lb_props(lbs: Seq<LoadBuffer>, i: int, end: int)
    ensures
        match crate::model::first_free_lb(lbs, i, end) {
            Some(k) => i <= k < end && !lbs[k].base.busy,
            None => true,
        },
    decreases end - i,
{
    if i < end && lbs[i].base.busy {
        lemma_first_free_lb_props(lbs, i + 1, end);
    }
}

/// The execute fold over stations changes only remaining times and the
/// timing log.
pub proof fn lemma_exec_rss_upto_frame(m: Model, n: int)
    requires
        0 <= n <= m.rss.len(),
    ensures
        exec_rss_upto(m, n).rss.len() == m.rss.len(),
        exec_rss_upto(m, n).times.len() == m.times.len(),
        exec_rss_upto(m, n).insts == m.insts,
        exec_rss_upto(m, n).regs == m.regs,
        exec_rss_upto(m, n).lbs == m.lbs,
        exec_rss_upto(m, n).clk == m.clk,
        exec_rss_upto(m, n).pc == m.pc,
    decreases n,
{
    if n > 0 {
        lemma_exec_rss_upto_frame(m, n - 1);
    }
}

/// The execute fold over load buffers changes only remaining times and the
/// timing log.
pub proof fn lemma_exec_lbs_upto_frame(m: Model, n: int)
    requires
        0 <= n <= m.lbs.len(),
    ensures
        exec_lbs_upto(m, n).lbs.len() == m.lbs.len(),
        exec_lbs_upto(m, n).times.len() == m.times.len(),
        exec_lbs_upto(m, n).insts == m.insts,
        exec_lbs_upto(m, n).regs == m.regs,
        exec_lbs_upto(m, n).rss == m.rss,
        exec_lbs_upto(m, n).clk == m.clk,
        exec_lbs_upto(m, n).pc == m.pc,
    decreases n,
{
    if n > 0 {
        lemma_exec_lbs_upto_frame(m, n - 1);
    }
}

/// Issue keeps the machine well-formed.
pub proof fn lemma_issue_wf(m: Model)
    requires
        wf(m),
    ensures
        wf(spec_issue(m)),
        spec_issue(m).insts == m.insts,
        spec_issue(m).clk == m.clk,
{
    lemma_first_free_rs_props(m.rss, 0, crate::station::ARS as int);
    lemma_first_free_rs_props(m.rss, crate::station::ARS as int, RS_N as int);
    lemma_first_free_lb_props(m.lbs, 0, LB_N as int);
}

// ---------------------------------------------------------------------------
// Invariant preservation: write-back
// ---------------------------------------------------------------------------

/// After write-back, no busy station still shows a completed execution.
pub open spec fn rss_settled(m: Model) -> bool {
    forall|i: int| 0 <= i < m.rss.len() && (#[trigger] m.rss[i]).base.busy
        ==> m.rss[i].base.remain_time != Some(0u8)
}

/// After write-back, no busy load buffer still shows a completed execution.
pub open spec fn lbs_settled(m: Model) -> bool {
    forall|i: int| 0 <= i < m.lbs.len() && (#[trigger] m.lbs[i]).base.busy
        ==> m.lbs[i].base.remain_time != Some(0u8)
}

/// An occupied station that is not freshly completed is running, so under
/// settledness the occupancy count bounds by the running count.
pub proof fn lemma_count_occ_le_running_rs(s: Seq<ReservationStation>, beg: int, end: int)
    requires
        forall|j: int| beg <= j < end ==> rs_occ(#[trigger] s[j]) ==> rs_running(s[j]),
    ensures
        count_occ_rs(s, beg, end) <= count_running_rs(s, beg, end),
    decreases end - beg,
{
    if beg < end {
        lemma_count_occ_le_running_rs(s, beg, end - 1);
    }
}

/// Load-buffer analogue of [`lemma_count_occ_le_running_rs`].
pub proof fn lemma_count_occ_le_running_lb(s: Seq<LoadBuffer>, beg: int, end: int)
    requires
        forall|j: int| beg <= j < end ==> lb_occ(#[trigger] s[j]) ==> lb_running(s[j]),
    ensures
        count_occ_lb(s, beg, end) <= count_running_lb(s, beg, end),
    decreases end - beg,
{
    if beg < end {
        lemma_count_occ_le_running_lb(s, beg, end - 1);
    }
}

/// Write-back of one reservation station preserves the machine invariant;
/// moreover a station's remaining time is untouched and a non-busy station
/// stays non-busy.
pub proof fn lemma_wb_rs_at_inv(m: Model, i: int)
    requires
        inv(m),
        0 <= i < RS_N,
    ensures
        inv(wb_rs_at(m, i)),
        wb_rs_at(m, i).lbs == m.lbs,
        forall|j: int| 0 <= j < RS_N ==> {
            let r2 = (#[trigger] wb_rs_at(m, i).rss[j]);
            &&& (r2.base.busy ==> m.rss[j].base.busy)
            &&& r2.base.remain_time == m.rss[j].base.remain_time
            &&& r2.op == m.rss[j].op
        },
{
    lemma_wb_rs_at_safety(m, i);
    let m2 = wb_rs_at(m, i);
    let r = m.rss[i];
    if r.base.busy && r.base.remain_time == Some(0u8) {
        let cleared = Model { rss: m.rss.update(i, rs_cleared(r)), ..m };
        assert forall|k: usize| k < TAGS && tag_busy(cleared, k) implies tag_busy(m, k) by {
            if k as int != i && (k as int) < RS_N as int {
                assert(cleared.rss[k as int] == m.rss[k as int]);
            }
        }
        match r.op {
            StationOp::Bin(op) => {
                assert(rs_occ(r));
                assert(r.qv0 is Value && r.qv1 is Value);
                let v = crate::inst::spec_eval(op, r.qv0->Value_0, r.qv1->Value_0);
                lemma_bcast_frame(cleared, i as usize, v);
                assert(m2 == spec_bcast(cleared, i as usize, v));
                // the only station whose busy flag changed is i, and nothing
                // may still name it after its broadcast
                assert forall|k: int| 0 <= k < m2.regs.len()
                    implies slot_ok(m2, #[trigger] m2.regs[k]) by {
                    assert(m2.regs[k] == bcast_slot(m.regs[k], i as usize, v));
                    if m2.regs[k] is Pending {
                        let t = m2.regs[k]->Pending_0;
                        assert(m.regs[k] == Slot::Pending(t));
                        assert(slot_ok(m, m.regs[k]));
                        assert(t != i as usize);
                        assert(tag_busy(cleared, t));
                        if (t as int) < RS_N as int {
                            assert(m2.rss[t as int].base == cleared.rss[t as int].base);
                        }
                    }
                }
                assert forall|j: int| 0 <= j < m2.rss.len() && (#[trigger] m2.rss[j]).base.busy
                    implies slot_ok(m2, m2.rss[j].qv0) && slot_ok(m2, m2.rss[j].qv1) by {
                    assert(m2.rss[j].base == cleared.rss[j].base);
                    assert(j != i);
                    assert(cleared.rss[j] == m.rss[j]);
                    assert(m2.rss[j] == bcast_rs(m.rss[j], i as usize, v));
                    assert(m.rss[j].base.busy);
                    assert(slot_ok(m, m.rss[j].qv0) && slot_ok(m, m.rss[j].qv1));
                    if m2.rss[j].qv0 is Pending {
                        let t = m2.rss[j].qv0->Pending_0;
                        assert(m.rss[j].qv0 == Slot::Pending(t) && t != i as usize);
                        if (t as int) < RS_N as int {
                            assert(m2.rss[t as int].base == cleared.rss[t as int].base);
                        }
                    }
                    if m2.rss[j].qv1 is Pending {
                        let t = m2.rss[j].qv1->Pending_0;
                        assert(m.rss[j].qv1 == Slot::Pending(t) && t != i as usize);
                        if (t as int) < RS_N as int {
                            assert(m2.rss[t as int].base == cleared.rss[t as int].base);
                        }
                    }
                }
            },
            StationOp::Jump(_) => {
                assert(m2.regs == m.regs);
                assert forall|k: int| 0 <= k < m2.regs.len()
                    implies slot_ok(m2, #[trigger] m2.regs[k]) by {
                    if m2.regs[k] is Pending {
                        let t = m2.regs[k]->Pending_0;
                        assert(slot_ok(m, m.regs[k]));
                        // nothing names a jump station
                        assert(t != i as usize);
                        if (t as int) < RS_N as int {
                            assert(m2.rss[t as int] == m.rss[t as int]);
                        }
                    }
                }
                assert forall|j: int| 0 <= j < m2.rss.len() && (#[trigger] m2.rss[j]).base.busy
                    implies slot_ok(m2, m2.rss[j].qv0) && slot_ok(m2, m2.rss[j].qv1) by {
                    assert(j != i);
                    assert(m2.rss[j] == m.rss[j]);
                    assert(slot_ok(m, m.rss[j].qv0) && slot_ok(m, m.rss[j].qv1));
                    if m2.rss[j].qv0 is Pending {
                        let t = m2.rss[j].qv0->Pending_0;
                        assert(t != i as usize);
                        if (t as int) < RS_N as int {
                            assert(m2.rss[t as int] == m.rss[t as int]);
                        }
                    }
                    if m2.rss[j].qv1 is Pending {
                        let t = m2.rss[j].qv1->Pending_0;
                        assert(t != i as usize);
                        if (t as int) < RS_N as int {
                            assert(m2.rss[t as int] == m.rss[t as int]);
                        }
                    }
                }
            },
        }
        // capacities can only drop: busy flags only clear, remains are kept
        assert forall|j: int| 0 <= j < RS_N && rs_running(#[trigger] m2.rss[j])
            implies rs_running(m.rss[j]) by {
            if j != i {
                assert(m2.rss[j].base == m.rss[j].base);
            } else {
                assert(!m2.rss[j].base.busy);
            }
        }
        lemma_count_running_rs_mono(m2.rss, m.rss, 0, ARS as int);
        lemma_count_running_rs_mono(m2.rss, m.rss, ARS as int, RS_N as int);
    }
}

/// [`lemma_wb_rs_at_inv`] folded over a prefix of the stations: the
/// invariant holds throughout and every processed station is settled.
pub proof fn lemma_wb_rss_upto_inv(m: Model, n: int)
    requires
        inv(m),
        0 <= n <= RS_N,
    ensures
        inv(wb_rss_upto(m, n)),
        wb_rss_upto(m, n).lbs == m.lbs,
        forall|j: int| 0 <= j < RS_N ==> {
            let r2 = (#[trigger] wb_rss_upto(m, n).rss[j]);
            &&& (r2.base.busy ==> m.rss[j].base.busy)
            &&& r2.base.remain_time == m.rss[j].base.remain_time
            &&& r2.op == m.rss[j].op
        },
        forall|j: int| 0 <= j < n && (#[trigger] wb_rss_upto(m, n).rss[j]).base.busy
            ==> wb_rss_upto(m, n).rss[j].base.remain_time != Some(0u8),
    decreases n,
{
    if n > 0 {
        lemma_wb_rss_upto_inv(m, n - 1);
        let mp = wb_rss_upto(m, n - 1);
        lemma_wb_rs_at_inv(mp, n - 1);
        let mk = wb_rs_at(mp, n - 1);
        assert forall|j: int| 0 <= j < n && (#[trigger] mk.rss[j]).base.busy
            implies mk.rss[j].base.remain_time != Some(0u8) by {
            if j == n - 1 {
                let r = mp.rss[j];
                if r.base.busy && r.base.remain_time == Some(0u8) {
                    assert(!mk.rss[j].base.busy);
                }
            }
        }
    }
}

/// Write-back of one load buffer preserves the machine invariant and leaves
/// every reservation station's busy flag, remaining time and operator
/// alone.
pub proof fn lemma_wb_lb_at_inv(m: Model, i: int)
    requires
        inv(m),
        0 <= i < LB_N,
    ensures
        inv(wb_lb_at(m, i)),
        forall|j: int| 0 <= j < RS_N ==> {
            let r2 = (#[trigger] wb_lb_at(m, i).rss[j]);
            &&& r2.base == m.rss[j].base
            &&& r2.op == m.rss[j].op
        },
        forall|j: int| 0 <= j < LB_N ==> {
            let l2 = (#[trigger] wb_lb_at(m, i).lbs[j]);
            &&& (l2.base.busy ==> m.lbs[j].base.busy)
            &&& l2.base.remain_time == m.lbs[j].base.remain_time
        },
{
    lemma_wb_lb_at_safety(m, i);
    let m2 = wb_lb_at(m, i);
    let l = m.lbs[i];
    let tag = (i + RS_N) as usize;
    if l.base.busy && l.base.remain_time == Some(0u8) {
        let cleared = Model {
            lbs: m.lbs.update(i, LoadBuffer { base: crate::station::RSBase { busy: false, ..l.base }, ..l }),
            ..m
        };
        lemma_bcast_frame(cleared, tag, l.imm);
        assert(m2 == spec_bcast(cleared, tag, l.imm));
        assert forall|k: int| 0 <= k < m2.regs.len()
            implies slot_ok(m2, #[trigger] m2.regs[k]) by {
            assert(m2.regs[k] == bcast_slot(m.regs[k], tag, l.imm));
            if m2.regs[k] is Pending {
                let t = m2.regs[k]->Pending_0;
                assert(m.regs[k] == Slot::Pending(t));
                assert(slot_ok(m, m.regs[k]));
                assert(t != tag);
                if (t as int) < RS_N as int {
                    assert(m2.rss[t as int].base == cleared.rss[t as int].base);
                } else {
                    assert(cleared.lbs[t - RS_N] == m.lbs[t - RS_N]);
                }
            }
        }
        assert forall|j: int| 0 <= j < m2.rss.len() && (#[trigger] m2.rss[j]).base.busy
            implies slot_ok(m2, m2.rss[j].qv0) && slot_ok(m2, m2.rss[j].qv1) by {
            assert(m2.rss[j].base == cleared.rss[j].base);
            assert(cleared.rss[j] == m.rss[j]);
            assert(m2.rss[j] == bcast_rs(m.rss[j], tag, l.imm));
            assert(slot_ok(m, m.rss[j].qv0) && slot_ok(m, m.rss[j].qv1));
            if m2.rss[j].qv0 is Pending {
                let t = m2.rss[j].qv0->Pending_0;
                assert(m.rss[j].qv0 == Slot::Pending(t) && t != tag);
                if (t as int) < RS_N as int {
                    assert(m2.rss[t as int].base == cleared.rss[t as int].base);
                } else {
                    assert(cleared.lbs[t - RS_N] == m.lbs[t - RS_N]);
                }
            }
            if m2.rss[j].qv1 is Pending {
                let t = m2.rss[j].qv1->Pending_0;
                assert(m.rss[j].qv1 == Slot::Pending(t) && t != tag);
                if (t as int) < RS_N as int {
                    assert(m2.rss[t as int].base == cleared.rss[t as int].base);
                } else {
                    assert(cleared.lbs[t - RS_N] == m.lbs[t - RS_N]);
                }
            }
        }
        assert forall|j: int| 0 <= j < LB_N && lb_running(#[trigger] m2.lbs[j])
            implies lb_running(m.lbs[j]) by {
            if j != i {
                assert(m2.lbs[j] == m.lbs[j]);
            } else {
                assert(!m2.lbs[j].base.busy);
            }
        }
        lemma_count_running_lb_mono(m2.lbs, m.lbs, 0, LB_N as int);
        assert forall|j: int| 0 <= j < RS_N
            implies rs_running(#[trigger] m2.rss[j]) == rs_running(m.rss[j]) by {
            assert(m2.rss[j].base == m.rss[j].base);
        }
        lemma_count_running_rs_mono(m2.rss, m.rss, 0, ARS as int);
        lemma_count_running_rs_mono(m.rss, m2.rss, 0, ARS as int);
        lemma_count_running_rs_mono(m2.rss, m.rss, ARS as int, RS_N as int);
        lemma_count_running_rs_mono(m.rss, m2.rss, ARS as int, RS_N as int);
    }
}

/// [`lemma_wb_lb_at_inv`] folded over a prefix of the load buffers.
pub proof fn lemma_wb_lbs_upto_inv(m: Model, n: int)
    requires
        inv(m),
        0 <= n <= LB_N,
    ensures
        inv(wb_lbs_upto(m, n)),
        forall|j: int| 0 <= j < RS_N ==> {
            let r2 = (#[trigger] wb_lbs_upto(m, n).rss[j]);
            &&& r2.base == m.rss[j].base
            &&& r2.op == m.rss[j].op
        },
        forall|j: int| 0 <= j < LB_N ==> {
            let l2 = (#[trigger] wb_lbs_upto(m, n).lbs[j]);
            &&& (l2.base.busy ==> m.lbs[j].base.busy)
            &&& l2.base.remain_time == m.lbs[j].base.remain_time
        },
        forall|j: int| 0 <= j < n && (#[trigger] wb_lbs_upto(m, n).lbs[j]).base.busy
            ==> wb_lbs_upto(m, n).lbs[j].base.remain_time != Some(0u8),
    decreases n,
{
    if n > 0 {
        lemma_wb_lbs_upto_inv(m, n - 1);
        let mp = wb_lbs_upto(m, n - 1);
        lemma_wb_lb_at_inv(mp, n - 1);
        let mk = wb_lb_at(mp, n - 1);
        assert forall|j: int| 0 <= j < n && (#[trigger] mk.lbs[j]).base.busy
            implies mk.lbs[j].base.remain_time != Some(0u8) by {
            if j == n - 1 {
                let l = mp.lbs[j];
                if l.base.busy && l.base.remain_time == Some(0u8) {
                    assert(!mk.lbs[j].base.busy);
                }
            }
        }
    }
}

/// The write-back phase preserves the machine invariant and leaves every
/// surviving entry settled: no busy station or buffer still shows a
/// completed execution.
pub proof fn lemma_wb_preserves_inv(m: Model)
    requires
        inv(m),
    ensures
        inv(spec_write_back(m)),
        rss_settled(spec_write_back(m)),
        lbs_settled(spec_write_back(m)),
{
    lemma_wb_rss_upto_inv(m, RS_N as int);
    let m1 = wb_rss_upto(m, RS_N as int);
    lemma_wb_lbs_upto_inv(m1, LB_N as int);
}

// ---------------------------------------------------------------------------
// Invariant preservation: issue
// ---------------------------------------------------------------------------

/// The issue phase preserves the machine invariant and settledness: the
/// freshly issued entry is busy with no function unit, renamed into the
/// destination register, and nothing else moves.
pub proof fn lemma_issue_preserves_inv(m: Model)
    requires
        inv(m),
        rss_settled(m),
        lbs_settled(m),
    ensures
        inv(spec_issue(m)),
        rss_settled(spec_issue(m)),
        lbs_settled(spec_issue(m)),
{
    let m2 = spec_issue(m);
    if !crate::model::has_busy_jump(m) && (m.pc as int) < m.insts.len()
        && m.insts.len() <= 0xFFFF_FFFF && crate::inst::inst_valid(m.insts[m.pc as int]) {
        let inst = m.insts[m.pc as int];
        match inst {
            crate::inst::Inst::Bin(op, dst, l, r) => {
                let adder = op == crate::inst::BinOp::Add || op == crate::inst::BinOp::Sub;
                let beg: int = if adder { 0 } else { ARS as int };
                let end: int = if adder { ARS as int } else { RS_N as int };
                lemma_first_free_rs_props(m.rss, beg, end);
                match crate::model::first_free_rs(m.rss, beg, end) {
                    Some(i) => {
                        assert(slot_ok(m, m.regs[l as int]));
                        assert(slot_ok(m, m.regs[r as int]));
                        assert(m2.regs =~= m.regs.update(dst as int, Slot::Pending(i as usize)));
                        lemma_issue_slot_inv(m, m2, i, true);
                    },
                    None => {},
                }
            },
            crate::inst::Inst::Ld(dst, _) => {
                lemma_first_free_lb_props(m.lbs, 0, LB_N as int);
                match crate::model::first_free_lb(m.lbs, 0, LB_N as int) {
                    Some(i) => {
                        assert(m2.regs =~= m.regs.update(
                            dst as int,
                            Slot::Pending((i + RS_N) as usize),
                        ));
                        lemma_issue_lb_inv(m, m2, i);
                    },
                    None => {},
                }
            },
            crate::inst::Inst::Jump(_, cond, _) => {
                lemma_first_free_rs_props(m.rss, 0, ARS as int);
                match crate::model::first_free_rs(m.rss, 0, ARS as int) {
                    Some(i) => {
                        assert(slot_ok(m, m.regs[cond as int]));
                        lemma_issue_slot_inv(m, m2, i, false);
                    },
                    None => {},
                }
            },
        }
    }
}

/// The common argument for an instruction issued into reservation station
/// `i`: the station was free, so nothing names it; the new entry is sound.
/// `renames` says whether the destination register was renamed to tag `i`
/// (a binary operation) or the register file was untouched (a jump).
proof fn lemma_issue_slot_inv(m: Model, m2: Model, i: int, renames: bool)
    requires
        inv(m),
        rss_settled(m),
        lbs_settled(m),
        0 <= i < RS_N,
        !m.rss[i].base.busy,
        m2.rss.len() == RS_N,
        m2.lbs == m.lbs,
        m2.insts == m.insts,
        m2.times.len() == m.times.len(),
        m2.rss[i].base.busy,
        m2.rss[i].base.remain_time is None,
        renames ==> m2.rss[i].op is Bin,
        slot_ok(m, m2.rss[i].qv0),
        slot_ok(m, m2.rss[i].qv1),
        forall|j: int| 0 <= j < RS_N && j != i ==> m2.rss[j] == m.rss[j],
        if renames {
            exists|d: int| 0 <= d < m.regs.len()
                && m2.regs =~= #[trigger] m.regs.update(d, Slot::Pending(i as usize))
        } else {
            m2.regs == m.regs
        },
    ensures
        inv(m2),
        rss_settled(m2),
        lbs_settled(m2),
{
    // nothing in the old state names the free station i
    assert forall|s: Slot| slot_ok(m, s) && s is Pending implies s->Pending_0 != i as usize by {
        let t = s->Pending_0;
        if t == i as usize {
            assert(tag_busy(m, t));
        }
    }
    assert forall|t: usize| t < TAGS && t != i as usize && tag_busy(m, t)
        implies tag_busy(m2, t) && (crate::model::tag_produces(m, t)
            ==> crate::model::tag_produces(m2, t)) by {
        if (t as int) < RS_N as int {
            assert(m2.rss[t as int] == m.rss[t as int]);
        }
    }
    assert forall|k: int| 0 <= k < m2.regs.len()
        implies slot_ok(m2, #[trigger] m2.regs[k]) by {
        if m2.regs[k] is Pending {
            let t = m2.regs[k]->Pending_0;
            if t == i as usize {
                assert(tag_busy(m2, t));
                assert(crate::model::tag_produces(m2, t));
            } else {
                assert(m2.regs[k] == m.regs[k]);
                assert(slot_ok(m, m.regs[k]));
            }
        }
    }
    assert forall|j: int| 0 <= j < m2.rss.len() && (#[trigger] m2.rss[j]).base.busy
        implies slot_ok(m2, m2.rss[j].qv0) && slot_ok(m2, m2.rss[j].qv1) by {
        if j == i {
            assert(slot_ok(m, m2.rss[j].qv0));
            assert(slot_ok(m, m2.rss[j].qv1));
            if m2.rss[j].qv0 is Pending {
                assert(m2.rss[j].qv0->Pending_0 != i as usize);
            }
            if m2.rss[j].qv1 is Pending {
                assert(m2.rss[j].qv1->Pending_0 != i as usize);
            }
        } else {
            assert(m2.rss[j] == m.rss[j]);
            assert(slot_ok(m, m.rss[j].qv0));
            assert(slot_ok(m, m.rss[j].qv1));
            if m2.rss[j].qv0 is Pending {
                assert(m2.rss[j].qv0->Pending_0 != i as usize);
            }
            if m2.rss[j].qv1 is Pending {
                assert(m2.rss[j].qv1->Pending_0 != i as usize);
            }
        }
    }
    assert forall|j: int| 0 <= j < RS_N
        implies rs_running(#[trigger] m2.rss[j]) == rs_running(m.rss[j]) by {
        if j == i {
            assert(!rs_running(m.rss[j]));
            assert(!rs_running(m2.rss[j]));
        }
    }
    lemma_count_running_rs_mono(m2.rss, m.rss, 0, ARS as int);
    lemma_count_running_rs_mono(m.rss, m2.rss, 0, ARS as int);
    lemma_count_running_rs_mono(m2.rss, m.rss, ARS as int, RS_N as int);
    lemma_count_running_rs_mono(m.rss, m2.rss, ARS as int, RS_N as int);
}

/// The common argument for a load issued into load buffer `i`.
proof fn lemma_issue_lb_inv(m: Model, m2: Model, i: int)
    requires
        inv(m),
        rss_settled(m),
        lbs_settled(m),
        0 <= i < LB_N,
        !m.lbs[i].base.busy,
        m2.lbs.len() == LB_N,
        m2.rss == m.rss,
        m2.insts == m.insts,
        m2.times.len() == m.times.len(),
        m2.lbs[i].base.busy,
        m2.lbs[i].base.remain_time is None,
        forall|j: int| 0 <= j < LB_N && j != i ==> m2.lbs[j] == m.lbs[j],
        exists|d: int| 0 <= d < m.regs.len()
            && m2.regs =~= #[trigger] m.regs.update(d, Slot::Pending((i + RS_N) as usize)),
    ensures
        inv(m2),
        rss_settled(m2),
        lbs_settled(m2),
{
    let tag = (i + RS_N) as usize;
    assert forall|s: Slot| slot_ok(m, s) && s is Pending implies s->Pending_0 != tag by {
        let t = s->Pending_0;
        if t == tag {
            assert(tag_busy(m, t));
        }
    }
    assert forall|t: usize| t < TAGS && t != tag && tag_busy(m, t)
        implies tag_busy(m2, t) && (crate::model::tag_produces(m, t)
            ==> crate::model::tag_produces(m2, t)) by {
        if (t as int) >= RS_N as int {
            assert(m2.lbs[t - RS_N] == m.lbs[t - RS_N]);
        }
    }
    assert forall|k: int| 0 <= k < m2.regs.len()
        implies slot_ok(m2, #[trigger] m2.regs[k]) by {
        if m2.regs[k] is Pending {
            let t = m2.regs[k]->Pending_0;
            if t == tag {
                assert(tag_busy(m2, t));
            } else {
                assert(m2.regs[k] == m.regs[k]);
                assert(slot_ok(m, m.regs[k]));
            }
        }
    }
    assert forall|j: int| 0 <= j < m2.rss.len() && (#[trigger] m2.rss[j]).base.busy
        implies slot_ok(m2, m2.rss[j].qv0) && slot_ok(m2, m2.rss[j].qv1) by {
        assert(m2.rss[j] == m.rss[j]);
        assert(slot_ok(m, m.rss[j].qv0));
        assert(slot_ok(m, m.rss[j].qv1));
        if m2.rss[j].qv0 is Pending {
            assert(m2.rss[j].qv0->Pending_0 != tag);
        }
        if m2.rss[j].qv1 is Pending {
            assert(m2.rss[j].qv1->Pending_0 != tag);
        }
    }
    assert forall|j: int| 0 <= j < LB_N
        implies lb_running(#[trigger] m2.lbs[j]) == lb_running(m.lbs[j]) by {
        if j == i {
            assert(!lb_running(m.lbs[j]));
            assert(!lb_running(m2.lbs[j]));
        }
    }
    lemma_count_running_lb_mono(m2.lbs, m.lbs, 0, LB_N as int);
    lemma_count_running_lb_mono(m.lbs, m2.lbs, 0, LB_N as int);
}

// ---------------------------------------------------------------------------
// Invariant preservation: execute
// ---------------------------------------------------------------------------

/// The execute fold over stations keeps every busy flag, operator, operand
/// and issue time, keeps operands resolved, and never lets a partition's
/// occupancy exceed its function-unit capacity: a grant happens only when
/// the stations outranking the grantee — among them all occupants — number
/// fewer than the capacity.
pub proof fn lemma_exec_rss_upto_inv(m: Model, n: int)
    requires
        inv(m),
        rss_settled(m),
        0 <= n <= RS_N,
    ensures
        ({
            let mk = exec_rss_upto(m, n);
            &&& forall|j: int| 0 <= j < RS_N ==> {
                let r2 = (#[trigger] mk.rss[j]);
                &&& r2.base.busy == m.rss[j].base.busy
                &&& r2.op == m.rss[j].op
                &&& r2.qv0 == m.rss[j].qv0
                &&& r2.qv1 == m.rss[j].qv1
                &&& r2.base.issue_time == m.rss[j].base.issue_time
            }
            &&& count_occ_rs(mk.rss, 0, ARS as int) <= ADD_FU
            &&& count_occ_rs(mk.rss, ARS as int, RS_N as int) <= MUL_FU
            &&& operands_resolved(mk)
        }),
    decreases n,
{
    lemma_exec_rss_upto_frame(m, n);
    if n == 0 {
        assert forall|j: int| 0 <= j < RS_N && rs_occ(#[trigger] m.rss[j])
            implies rs_running(m.rss[j]) by {}
        lemma_count_occ_le_running_rs(m.rss, 0, ARS as int);
        lemma_count_occ_le_running_rs(m.rss, ARS as int, RS_N as int);
    } else {
        lemma_exec_rss_upto_inv(m, n - 1);
        lemma_exec_rss_upto_frame(m, n - 1);
        let mp = exec_rss_upto(m, n - 1);
        let i = n - 1;
        let r = mp.rss[i];
        let mk = exec_rs_at(mp, i);
        if r.base.busy {
            match r.base.remain_time {
                Some(t) => {
                    let nt: u8 = if t == 0 { 0u8 } else { (t - 1) as u8 };
                    let r2 = crate::model::rs_with_remain(r, Some(nt));
                    assert(mk.rss == mp.rss.update(i, r2));
                    lemma_count_occ_rs_update(mp.rss, 0, ARS as int, i, r2);
                    lemma_count_occ_rs_update(mp.rss, ARS as int, RS_N as int, i, r2);
                    assert(rs_occ(r) && rs_occ(r2));
                },
                None => {
                    if r.qv0 is Value && r.qv1 is Value {
                        let adder = i < ARS as int;
                        let beg: int = if adder { 0 } else { ARS as int };
                        let end: int = if adder { ARS as int } else { RS_N as int };
                        let cap: int = if adder { ADD_FU as int } else { MUL_FU as int };
                        if count_prio_rs(mp.rss, beg, end, r.base.issue_time) < cap {
                            let r2 = crate::model::rs_with_remain(
                                r,
                                Some(crate::model::spec_latency(r.op)),
                            );
                            assert(mk.rss == mp.rss.update(i, r2));
                            lemma_count_occ_le_prio_rs(mp.rss, beg, end, r.base.issue_time);
                            lemma_count_occ_rs_update(mp.rss, 0, ARS as int, i, r2);
                            lemma_count_occ_rs_update(mp.rss, ARS as int, RS_N as int, i, r2);
                            assert(!rs_occ(r) && rs_occ(r2));
                        }
                    }
                },
            }
        }
        assert forall|j: int| 0 <= j < mk.rss.len() && rs_occ(#[trigger] mk.rss[j])
            implies mk.rss[j].qv0 is Value && mk.rss[j].qv1 is Value by {
            if j != i {
                assert(mk.rss[j] == mp.rss[j]);
            }
        }
    }
}

/// Load-buffer analogue of [`lemma_exec_rss_upto_inv`], over any state
/// whose load buffers are settled and within capacity.
pub proof fn lemma_exec_lbs_upto_inv(m: Model, n: int)
    requires
        m.lbs.len() == LB_N,
        lbs_settled(m),
        count_running_lb(m.lbs, 0, LB_N as int) <= LOAD_FU,
        0 <= n <= LB_N,
    ensures
        ({
            let mk = exec_lbs_upto(m, n);
            &&& forall|j: int| 0 <= j < LB_N ==> {
                let l2 = (#[trigger] mk.lbs[j]);
                &&& l2.base.busy == m.lbs[j].base.busy
                &&& l2.base.issue_time == m.lbs[j].base.issue_time
            }
            &&& count_occ_lb(mk.lbs, 0, LB_N as int) <= LOAD_FU
        }),
    decreases n,
{
    lemma_exec_lbs_upto_frame(m, n);
    if n == 0 {
        assert forall|j: int| 0 <= j < LB_N && lb_occ(#[trigger] m.lbs[j])
            implies lb_running(m.lbs[j]) by {}
        lemma_count_occ_le_running_lb(m.lbs, 0, LB_N as int);
    } else {
        lemma_exec_lbs_upto_inv(m, n - 1);
        lemma_exec_lbs_upto_frame(m, n - 1);
        let mp = exec_lbs_upto(m, n - 1);
        let i = n - 1;
        let l = mp.lbs[i];
        let mk = exec_lb_at(mp, i);
        if l.base.busy {
            match l.base.remain_time {
                Some(t) => {
                    let nt: u8 = if t == 0 { 0u8 } else { (t - 1) as u8 };
                    let l2 = crate::model::lb_with_remain(l, Some(nt));
                    assert(mk.lbs == mp.lbs.update(i, l2));
                    lemma_count_occ_lb_update(mp.lbs, 0, LB_N as int, i, l2);
                    assert(lb_occ(l) && lb_occ(l2));
                },
                None => {
                    if count_prio_lb(mp.lbs, 0, LB_N as int, l.base.issue_time) < LOAD_FU as int {
                        let l2 = crate::model::lb_with_remain(l, Some(3u8));
                        assert(mk.lbs == mp.lbs.update(i, l2));
                        lemma_count_occ_le_prio_lb(mp.lbs, 0, LB_N as int, l.base.issue_time);
                        lemma_count_occ_lb_update(mp.lbs, 0, LB_N as int, i, l2);
                        assert(!lb_occ(l) && lb_occ(l2));
                    }
                },
            }
        }
    }
}

/// The execute phase preserves the machine invariant.
pub proof fn lemma_exec_preserves_inv(m: Model)
    requires
        inv(m),
        rss_settled(m),
        lbs_settled(m),
    ensures
        inv(spec_exec(m)),
{
    lemma_exec_rss_upto_inv(m, RS_N as int);
    lemma_exec_rss_upto_frame(m, RS_N as int);
    let m1 = exec_rss_upto(m, RS_N as int);
    assert forall|t: usize| t < TAGS && tag_busy(m, t)
        implies tag_busy(m1, t) && (crate::model::tag_produces(m, t)
            ==> crate::model::tag_produces(m1, t)) by {
        if (t as int) >= RS_N as int {
            assert(m1.lbs == m.lbs);
        }
    }
    assert forall|k: int| 0 <= k < m1.regs.len()
        implies slot_ok(m1, #[trigger] m1.regs[k]) by {
        assert(m1.regs[k] == m.regs[k]);
        assert(slot_ok(m, m.regs[k]));
    }
    assert forall|j: int| 0 <= j < m1.rss.len() && (#[trigger] m1.rss[j]).base.busy
        implies slot_ok(m1, m1.rss[j].qv0) && slot_ok(m1, m1.rss[j].qv1) by {
        assert(m.rss[j].base.busy);
        assert(slot_ok(m, m.rss[j].qv0));
        assert(slot_ok(m, m.rss[j].qv1));
        assert(m1.rss[j].qv0 == m.rss[j].qv0 && m1.rss[j].qv1 == m.rss[j].qv1);
    }
    lemma_count_running_le_occ_rs(m1.rss, 0, ARS as int);
    lemma_count_running_le_occ_rs(m1.rss, ARS as int, RS_N as int);
    assert(inv(m1));
    assert(lbs_settled(m1));
    lemma_exec_lbs_upto_inv(m1, LB_N as int);
    lemma_exec_lbs_upto_frame(m1, LB_N as int);
    let m2 = exec_lbs_upto(m1, LB_N as int);
    assert(m2 == spec_exec(m));
    assert forall|t: usize| t < TAGS && tag_busy(m1, t)
        implies tag_busy(m2, t) && (crate::model::tag_produces(m1, t)
            ==> crate::model::tag_produces(m2, t)) by {
        if (t as int) < RS_N as int {
            assert(m2.rss == m1.rss);
        }
    }
    assert forall|k: int| 0 <= k < m2.regs.len()
        implies slot_ok(m2, #[trigger] m2.regs[k]) by {
        assert(m2.regs[k] == m1.regs[k]);
        assert(slot_ok(m1, m1.regs[k]));
    }
    assert forall|j: int| 0 <= j < m2.rss.len() && (#[trigger] m2.rss[j]).base.busy
        implies slot_ok(m2, m2.rss[j].qv0) && slot_ok(m2, m2.rss[j].qv1) by {
        assert(m2.rss[j] == m1.rss[j]);
        assert(slot_ok(m1, m1.rss[j].qv0));
        assert(slot_ok(m1, m1.rss[j].qv1));
    }
    lemma_count_running_le_occ_lb(m2.lbs, 0, LB_N as int);
    assert(operands_resolved(m2));
}

/// One tick preserves the machine invariant: the register renaming stays
/// consistent, operands stay resolved under execution, and no partition
/// ever runs more stations than it has function units.
pub proof fn lemma_step_preserves_inv(m: Model)
    requires
        inv(m),
    ensures
        inv(spec_step(m)),
{
    let m1 = Model { clk: vstd::wrapping::u32_specs::wrapping_add(m.clk, 1), ..m };
    assert(regs_ok(m1)) by {
        assert forall|k: int| 0 <= k < m1.regs.len()
            implies slot_ok(m1, #[trigger] m1.regs[k]) by {
            assert(slot_ok(m, m.regs[k]));
        }
    }
    assert forall|j: int| 0 <= j < m1.rss.len() && (#[trigger] m1.rss[j]).base.busy
        implies slot_ok(m1, m1.rss[j].qv0) && slot_ok(m1, m1.rss[j].qv1) by {
        assert(slot_ok(m, m.rss[j].qv0));
        assert(slot_ok(m, m.rss[j].qv1));
    }
    assert(inv(m1));
    lemma_wb_preserves_inv(m1);
    let mw = spec_write_back(m1);
    lemma_issue_preserves_inv(mw);
    let mi = spec_issue(mw);
    lemma_exec_preserves_inv(mi);
    assert(spec_step(m) == spec_exec(mi));
}

// ---------------------------------------------------------------------------
// The machine invariant at the start, across the clock bump, and per tick
// ---------------------------------------------------------------------------

/// The initial machine satisfies the invariant.
pub proof fn lemma_init_inv(insts: Seq<crate::inst::Inst>)
    requires
        insts.len() <= 0xFFFF_FFFF,
        forall|k: int| 0 <= k < insts.len() ==> crate::inst::inst_valid(#[trigger] insts[k]),
    ensures
        inv(crate::model::init_model(insts)),
        rss_settled(crate::model::init_model(insts)),
        lbs_settled(crate::model::init_model(insts)),
{
    let m = crate::model::init_model(insts);
    lemma_count_running_rs_none(m.rss, 0, ARS as int);
    lemma_count_running_rs_none(m.rss, ARS as int, RS_N as int);
    lemma_count_running_lb_none(m.lbs, 0, LB_N as int);
}

/// Advancing the clock alone cannot disturb the invariant.
pub proof fn lemma_clk_bump_inv(m: Model)
    requires
        inv(m),
    ensures
        inv(Model { clk: vstd::wrapping::u32_specs::wrapping_add(m.clk, 1), ..m }),
{
    let m1 = Model { clk: vstd::wrapping::u32_specs::wrapping_add(m.clk, 1), ..m };
    assert forall|k: int| 0 <= k < m1.regs.len()
        implies slot_ok(m1, #[trigger] m1.regs[k]) by {
        assert(slot_ok(m, m.regs[k]));
    }
    assert forall|j: int| 0 <= j < m1.rss.len() && (#[trigger] m1.rss[j]).base.busy
        implies slot_ok(m1, m1.rss[j].qv0) && slot_ok(m1, m1.rss[j].qv1) by {
        assert(slot_ok(m, m.rss[j].qv0));
        assert(slot_ok(m, m.rss[j].qv1));
    }
}

/// One tick advances the clock by exactly one and never touches the
/// program.
pub proof fn lemma_step_frame(m: Model)
    requires
        inv(m),
    ensures
        spec_step(m).clk == vstd::wrapping::u32_specs::wrapping_add(m.clk, 1),
        spec_step(m).insts == m.insts,
{
    lemma_clk_bump_inv(m);
    let m1 = Model { clk: vstd::wrapping::u32_specs::wrapping_add(m.clk, 1), ..m };
    lemma_wb_rss_upto_safety(m1, RS_N as int);
    lemma_wb_lbs_upto_safety(wb_rss_upto(m1, RS_N as int), LB_N as int);
    let mw = spec_write_back(m1);
    lemma_wb_preserves_inv(m1);
    lemma_issue_wf(mw);
    let mi = spec_issue(mw);
    lemma_issue_preserves_inv(mw);
    lemma_exec_rss_upto_frame(mi, RS_N as int);
    lemma_exec_lbs_upto_frame(exec_rss_upto(mi, RS_N as int), LB_N as int);
}

// ---------------------------------------------------------------------------
// The stated laws
// ---------------------------------------------------------------------------

/// Witness that between `m` and `m2` exactly the station with tag `t` was
/// newly taken and everything else in the station pool stayed put.
pub open spec fn issued_at(m: Model, m2: Model, t: int) -> bool {
    &&& 0 <= t < TAGS
    &&& if t < RS_N {
        &&& !m.rss[t].base.busy
        &&& m2.rss[t].base.busy
        &&& m2.rss[t].base.remain_time is None
        &&& (forall|j: int| 0 <= j < RS_N && j != t ==> m2.rss[j] == m.rss[j])
        &&& m2.lbs == m.lbs
    } else {
        &&& !m.lbs[t - RS_N].base.busy
        &&& m2.lbs[t - RS_N].base.busy
        &&& m2.lbs[t - RS_N].base.remain_time is None
        &&& (forall|j: int| 0 <= j < LB_N && j != t - RS_N ==> m2.lbs[j] == m.lbs[j])
        &&& m2.rss == m.rss
    }
}

/// At most one instruction is issued per tick: the issue phase either does
/// nothing at all, or advances the program counter by exactly one and
/// fills exactly one previously free station or buffer.
pub proof fn lemma_issue_one_per_tick(m: Model)
    requires
        inv(m),
    ensures
        ({
            let m2 = spec_issue(m);
            ||| m2 == m
            ||| {
                &&& m2.pc == m.pc + 1
                &&& exists|t: int| #[trigger] issued_at(m, m2, t)
            }
        }),
{
    let m2 = spec_issue(m);
    if !crate::model::has_busy_jump(m) && (m.pc as int) < m.insts.len()
        && m.insts.len() <= 0xFFFF_FFFF && crate::inst::inst_valid(m.insts[m.pc as int]) {
        let inst = m.insts[m.pc as int];
        match inst {
            crate::inst::Inst::Bin(op, dst, l, r) => {
                let adder = op == crate::inst::BinOp::Add || op == crate::inst::BinOp::Sub;
                let beg: int = if adder { 0 } else { ARS as int };
                let end: int = if adder { ARS as int } else { RS_N as int };
                lemma_first_free_rs_props(m.rss, beg, end);
                match crate::model::first_free_rs(m.rss, beg, end) {
                    Some(i) => {
                        assert(issued_at(m, m2, i));
                    },
                    None => {},
                }
            },
            crate::inst::Inst::Ld(dst, _) => {
                lemma_first_free_lb_props(m.lbs, 0, LB_N as int);
                match crate::model::first_free_lb(m.lbs, 0, LB_N as int) {
                    Some(i) => {
                        assert(issued_at(m, m2, i + RS_N));
                    },
                    None => {},
                }
            },
            crate::inst::Inst::Jump(_, cond, _) => {
                lemma_first_free_rs_props(m.rss, 0, ARS as int);
                match crate::model::first_free_rs(m.rss, 0, ARS as int) {
                    Some(i) => {
                        assert(issued_at(m, m2, i));
                    },
                    None => {},
                }
            },
        }
    }
}

/// Write-back over the stations never moves the program counter while no
/// busy jump is in the pool, and cannot make a free station busy or change
/// an operator.
pub proof fn lemma_wb_rss_upto_pc(m: Model, n: int)
    requires
        0 <= n <= RS_N,
        m.rss.len() == RS_N,
        !crate::model::has_busy_jump(m),
    ensures
        ({
            let mk = wb_rss_upto(m, n);
            &&& mk.pc == m.pc
            &&& mk.rss.len() == RS_N
            &&& forall|j: int| 0 <= j < RS_N ==> {
                let r2 = (#[trigger] mk.rss[j]);
                &&& (r2.base.busy ==> m.rss[j].base.busy)
                &&& r2.op == m.rss[j].op
            }
        }),
    decreases n,
{
    if n > 0 {
        lemma_wb_rss_upto_pc(m, n - 1);
        let mp = wb_rss_upto(m, n - 1);
        let i = n - 1;
        let r = mp.rss[i];
        if r.base.busy && r.base.remain_time == Some(0u8) {
            assert(m.rss[i].base.busy);
            assert(r.op is Bin);
            let mk = wb_rs_at(mp, i);
            assert forall|j: int| 0 <= j < RS_N
                implies ((#[trigger] mk.rss[j]).base.busy ==> mp.rss[j].base.busy)
                    && mk.rss[j].op == mp.rss[j].op by {
                if j != i {
                    match r.op {
                        StationOp::Bin(op) => {
                            if r.qv0 is Value && r.qv1 is Value {
                                let cleared = Model {
                                    rss: mp.rss.update(i, rs_cleared(r)),
                                    ..mp
                                };
                                let v = crate::inst::spec_eval(op, r.qv0->Value_0, r.qv1->Value_0);
                                assert(mk.rss[j] == bcast_rs(cleared.rss[j], i as usize, v));
                            }
                        },
                        StationOp::Jump(_) => {},
                    }
                }
            }
        }
    }
}

/// Write-back over the load buffers never moves the program counter.
pub proof fn lemma_wb_lbs_upto_pc(m: Model, n: int)
    requires
        0 <= n,
    ensures
        wb_lbs_upto(m, n).pc == m.pc,
    decreases n,
{
    if n > 0 {
        lemma_wb_lbs_upto_pc(m, n - 1);
    }
}

/// The write-back phase moves the program counter only through a
/// completing taken jump: with no busy jump in the pool it leaves the
/// counter alone, so per tick the counter moves by the issue step of 0 or
/// 1 plus only the deltas of taken jumps.
pub proof fn lemma_wb_pc_no_jump(m: Model)
    requires
        m.rss.len() == RS_N,
        !crate::model::has_busy_jump(m),
    ensures
        spec_write_back(m).pc == m.pc,
{
    lemma_wb_rss_upto_pc(m, RS_N as int);
    lemma_wb_lbs_upto_pc(wb_rss_upto(m, RS_N as int), LB_N as int);
}

/// The machine invariant holds at every tick of a run: consistent
/// renaming, resolved operands under execution and respected
/// function-unit capacities are preserved over any number of ticks.
pub proof fn lemma_run_n_preserves_inv(m: Model, n: nat)
    requires
        inv(m),
    ensures
        inv(crate::model::spec_run_n(m, n)),
    decreases n,
{
    if n > 0 {
        lemma_step_preserves_inv(m);
        let m1 = spec_step(m);
        if !crate::model::spec_done(m1) {
            lemma_run_n_preserves_inv(m1, (n - 1) as nat);
        }
    }
}

/// Determinism across reset: two machines loaded with the same program
/// reach bit-identical states after a reset followed by any number of
/// ticks, whatever they did before the reset.
pub proof fn lemma_reset_determinism(m1: Model, m2: Model, n: nat)
    requires
        m1.insts == m2.insts,
    ensures
        crate::model::spec_run_n(crate::model::spec_reset(m1), n)
            == crate::model::spec_run_n(crate::model::spec_reset(m2), n),
{
    assert(crate::model::spec_reset(m1) == crate::model::spec_reset(m2));
}

} // verus!
