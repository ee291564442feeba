//! The stated machine properties, observed tick by tick on a busy program.

use tomasulo::station::{LoadBuffer, ReservationStation, Slot};
use tomasulo::{Snapshot, Tomasulo};

const PROGRAM: &str = "LD F1 3\nLD F2 7\nMUL F3 F1 F2\nDIV F4 F3 F1\nADD F5 F3 F4\nSUB F6 F5 F2\nADD F7 F1 F1\nADD F8 F2 F2\nADD F9 F1 F2\nJUMP F6 16 2\nLD F10 99\nMUL F11 F9 F9";

fn station_busy(s: &Snapshot, tag: usize) -> bool {
    if tag < 9 {
        s.rss[tag].base.busy
    } else {
        s.lbs[tag - 9].base.busy
    }
}

fn rs_running(r: &ReservationStation) -> bool {
    r.base.busy && matches!(r.base.remain_time, Some(k) if k > 0)
}

fn lb_running(l: &LoadBuffer) -> bool {
    l.base.busy && matches!(l.base.remain_time, Some(k) if k > 0)
}

/// Every pending register names a busy station, every waiting operand slot
/// of a busy station names a busy station, at every tick.
#[test]
fn pending_tags_name_busy_stations() {
    let mut t = Tomasulo::new(PROGRAM).unwrap();
    for _ in 0..120 {
        t.step();
        let s = t.snapshot();
        for slot in &s.regs {
            if let Slot::Pending(tag) = slot {
                assert!(*tag < 12 && station_busy(&s, *tag));
            }
        }
        for r in &s.rss {
            if r.base.busy {
                for q in [&r.qv0, &r.qv1] {
                    if let Slot::Pending(tag) = q {
                        assert!(*tag < 12 && station_busy(&s, *tag));
                    }
                }
            }
        }
    }
}

/// No partition ever runs more stations at once than it has function
/// units: 3 adders, 2 multipliers, 2 loaders.
#[test]
fn function_unit_capacities_respected() {
    let mut t = Tomasulo::new(PROGRAM).unwrap();
    for _ in 0..120 {
        t.step();
        let s = t.snapshot();
        let adders = s.rss[..6].iter().filter(|r| rs_running(r)).count();
        let mults = s.rss[6..].iter().filter(|r| rs_running(r)).count();
        let loads = s.lbs.iter().filter(|l| lb_running(l)).count();
        assert!(adders <= 3);
        assert!(mults <= 2);
        assert!(loads <= 2);
    }
}

/// A station that holds a remaining time has both operand slots resolved.
#[test]
fn executing_stations_have_resolved_operands() {
    let mut t = Tomasulo::new(PROGRAM).unwrap();
    for _ in 0..120 {
        t.step();
        let s = t.snapshot();
        for r in &s.rss {
            if r.base.busy && r.base.remain_time.is_some() {
                assert!(matches!(r.qv0, Slot::Value(_)));
                assert!(matches!(r.qv1, Slot::Value(_)));
            }
        }
    }
}

/// Per tick the program counter moves by 0 or 1 from issue, plus the
/// branch delta on a taken jump at write-back; with at most one new busy
/// station per tick.
#[test]
fn one_issue_per_tick() {
    let mut t = Tomasulo::new(PROGRAM).unwrap();
    let mut prev = t.snapshot();
    for _ in 0..120 {
        t.step();
        let s = t.snapshot();
        let newly_busy = (0..12).filter(|&g| station_busy(&s, g) && !station_busy(&prev, g)).count();
        assert!(newly_busy <= 1);
        // the only jump in the program is taken with offset 2, issued with
        // the counter already advanced: every other tick moves pc by 0 or 1
        let delta = s.pc.wrapping_sub(prev.pc);
        assert!(delta == 0 || delta == 1 || delta == 2);
        prev = s;
    }
}

/// Determinism: reset followed by N steps is bit-identical to the first N
/// steps of a freshly built machine.
#[test]
fn reset_is_deterministic() {
    let mut a = Tomasulo::new(PROGRAM).unwrap();
    let mut b = Tomasulo::new(PROGRAM).unwrap();
    // push `a` into the middle of a run, then reset it
    for _ in 0..17 {
        a.step();
    }
    a.reset();
    assert_eq!(a.snapshot(), b.snapshot());
    for _ in 0..60 {
        a.step();
        b.step();
        assert_eq!(a.snapshot(), b.snapshot());
    }
}

/// Reset returns the machine to its initial state, keeping the program.
#[test]
fn reset_restores_initial_state() {
    let mut t = Tomasulo::new("LD F1 5\nADD F2 F1 F1").unwrap();
    let before = t.snapshot();
    t.run_n(50);
    assert!(t.done());
    t.reset();
    let after = t.snapshot();
    assert_eq!(before, after);
    assert_eq!(after.clk, 0);
    assert_eq!(after.pc, 0);
    assert!(after.times.iter().all(|&x| x == (0, 0)));
    // and the program still runs to the same end
    t.run_n(50);
    assert_eq!(t.snapshot().regs[2], Slot::Value(10));
}

/// Taking a snapshot twice without stepping yields equal values.
#[test]
fn snapshot_is_idempotent() {
    let mut t = Tomasulo::new(PROGRAM).unwrap();
    assert_eq!(t.snapshot(), t.snapshot());
    for _ in 0..25 {
        t.step();
        assert_eq!(t.snapshot(), t.snapshot());
    }
}

/// `run_n` stops early once done, and `done` means every station is free.
#[test]
fn run_n_stops_when_done() {
    let mut t = Tomasulo::new("LD F1 5").unwrap();
    t.run_n(500);
    assert!(t.done());
    let clk_done = t.snapshot().clk;
    assert!(clk_done < 500);
    let s = t.snapshot();
    assert!(s.rss.iter().all(|r| !r.base.busy));
    assert!(s.lbs.iter().all(|l| !l.base.busy));
    assert!(s.pc as usize >= 1);
}
