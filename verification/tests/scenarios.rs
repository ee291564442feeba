//! End-to-end runs of small programs through the simulator.

use tomasulo::station::Slot;
use tomasulo::Tomasulo;

fn run_to_done(t: &mut Tomasulo) {
    t.run_n(1000);
    assert!(t.done());
}

fn reg(t: &Tomasulo, i: usize) -> u32 {
    match t.snapshot().regs[i] {
        Slot::Value(v) => v,
        Slot::Pending(q) => panic!("register {} still pending on tag {}", i, q),
    }
}

#[test]
fn simple_add() {
    let mut t = Tomasulo::new("LD F1 5\nLD F2 7\nADD F3 F1 F2").unwrap();
    run_to_done(&mut t);
    assert_eq!(reg(&t, 1), 5);
    assert_eq!(reg(&t, 2), 7);
    assert_eq!(reg(&t, 3), 12);
    let s = t.snapshot();
    assert_eq!(s.times, vec![(1, 4), (2, 5), (3, 9)]);
}

#[test]
fn divide_by_zero_yields_zero() {
    let mut t = Tomasulo::new("LD F1 10\nLD F2 0\nDIV F3 F1 F2").unwrap();
    run_to_done(&mut t);
    assert_eq!(reg(&t, 1), 10);
    assert_eq!(reg(&t, 2), 0);
    assert_eq!(reg(&t, 3), 0);
}

#[test]
fn raw_hazard_waits_for_broadcast() {
    let mut t = Tomasulo::new("LD F1 3\nMUL F2 F1 F1\nADD F3 F2 F1").unwrap();
    run_to_done(&mut t);
    assert_eq!(reg(&t, 1), 3);
    assert_eq!(reg(&t, 2), 9);
    assert_eq!(reg(&t, 3), 12);
}

#[test]
fn fu_contention_delays_fourth_add() {
    let mut t = Tomasulo::new(
        "ADD F1 F0 F0\nADD F2 F0 F0\nADD F3 F0 F0\nADD F4 F0 F0",
    )
    .unwrap();
    run_to_done(&mut t);
    for i in 1..5 {
        assert_eq!(reg(&t, i), 0);
    }
    let s = t.snapshot();
    // only 3 adder units: the first three finish back to back...
    assert_eq!(s.times[0], (1, 4));
    assert_eq!(s.times[1], (2, 5));
    assert_eq!(s.times[2], (3, 6));
    // ...and the fourth, though issued at tick 4, completes one tick later
    // than it would with a free unit (4 + 3 = 7).
    assert_eq!(s.times[3], (4, 8));
}

#[test]
fn taken_branch_skips_instruction() {
    let mut t = Tomasulo::new("LD F1 1\nJUMP F1 1 2\nLD F2 99\nLD F3 42").unwrap();
    run_to_done(&mut t);
    assert_eq!(reg(&t, 1), 1);
    assert_eq!(reg(&t, 2), 0);
    assert_eq!(reg(&t, 3), 42);
}

#[test]
fn untaken_branch_falls_through() {
    let mut t = Tomasulo::new("LD F1 1\nJUMP F1 5 2\nLD F2 99\nLD F3 42").unwrap();
    run_to_done(&mut t);
    assert_eq!(reg(&t, 1), 1);
    assert_eq!(reg(&t, 2), 99);
    assert_eq!(reg(&t, 3), 42);
}

#[test]
fn int_min_over_minus_one_wraps() {
    let mut t = Tomasulo::new("LD F1 0x80000000\nLD F2 0xFFFFFFFF\nDIV F3 F1 F2").unwrap();
    run_to_done(&mut t);
    assert_eq!(reg(&t, 1), 0x8000_0000);
    assert_eq!(reg(&t, 2), 0xFFFF_FFFF);
    assert_eq!(reg(&t, 3), 0x8000_0000);
}

#[test]
fn signed_division_truncates_toward_zero() {
    // -7 / 2 == -3 under two's complement
    let mut t = Tomasulo::new("LD F1 0xFFFFFFF9\nLD F2 2\nDIV F3 F1 F2").unwrap();
    run_to_done(&mut t);
    assert_eq!(reg(&t, 3), 0xFFFF_FFFD);
}

#[test]
fn backward_jump_loops() {
    // decrement F1 from 2 to 0, looping over the SUB twice
    let mut t = Tomasulo::new(
        "LD F2 1\nLD F1 2\nSUB F1 F1 F2\nJUMP F1 0 0x2\nJUMP F0 0 0xFFFFFFFE\nLD F3 7",
    )
    .unwrap();
    run_to_done(&mut t);
    assert_eq!(reg(&t, 1), 0);
    assert_eq!(reg(&t, 3), 7);
}

#[test]
fn empty_program_is_done_immediately() {
    let mut t = Tomasulo::new("").unwrap();
    assert!(t.done());
    t.step();
    assert!(t.done());
    assert_eq!(t.snapshot().clk, 1);
}

#[test]
fn stall_when_stations_full_retries_later() {
    // ten dependent adds all complete despite only six adder stations
    let mut prog = String::new();
    for _ in 0..10 {
        prog.push_str("ADD F1 F1 F2\n");
    }
    prog.push_str("LD F2 1");
    let mut t = Tomasulo::new(&prog).unwrap();
    run_to_done(&mut t);
    assert_eq!(reg(&t, 1), 0);
    assert_eq!(reg(&t, 2), 1);
}
