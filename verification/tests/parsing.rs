//! The assembly parser: accepted forms and rejected lines.

use tomasulo::{BinOp, Inst, Tomasulo};

#[test]
fn parse_bin_ops() {
    assert_eq!(Inst::parse("ADD F1 F2 F3"), Some(Inst::Bin(BinOp::Add, 1, 2, 3)));
    assert_eq!(Inst::parse("SUB F0 F0 F0"), Some(Inst::Bin(BinOp::Sub, 0, 0, 0)));
    assert_eq!(Inst::parse("MUL F31 F30 F29"), Some(Inst::Bin(BinOp::Mul, 31, 30, 29)));
    assert_eq!(Inst::parse("DIV F4 F5 F6"), Some(Inst::Bin(BinOp::Div, 4, 5, 6)));
}

#[test]
fn parse_r_registers_and_whitespace() {
    assert_eq!(Inst::parse("ADD R1 R2 R3"), Some(Inst::Bin(BinOp::Add, 1, 2, 3)));
    assert_eq!(Inst::parse("  ADD\tF1  F2\t F3  "), Some(Inst::Bin(BinOp::Add, 1, 2, 3)));
}

#[test]
fn parse_ld_decimal_and_hex() {
    assert_eq!(Inst::parse("LD F1 5"), Some(Inst::Ld(1, 5)));
    assert_eq!(Inst::parse("LD F1 0x1F"), Some(Inst::Ld(1, 31)));
    assert_eq!(Inst::parse("LD F1 0xdeadBEEF"), Some(Inst::Ld(1, 0xDEAD_BEEF)));
    assert_eq!(Inst::parse("LD F1 4294967295"), Some(Inst::Ld(1, u32::MAX)));
    assert_eq!(Inst::parse("LD F1 0xFFFFFFFF"), Some(Inst::Ld(1, u32::MAX)));
}

#[test]
fn parse_jump_field_order() {
    // JUMP <cond register> <compare immediate> <offset>
    assert_eq!(Inst::parse("JUMP F1 1 2"), Some(Inst::Jump(1, 1, 2)));
    assert_eq!(Inst::parse("JUMP F7 0 0xFFFFFFFE"), Some(Inst::Jump(0, 7, 0xFFFF_FFFE)));
}

#[test]
fn parse_rejects_malformed_lines() {
    assert_eq!(Inst::parse(""), None);
    assert_eq!(Inst::parse("   "), None);
    assert_eq!(Inst::parse("NOP"), None);
    assert_eq!(Inst::parse("ADD F1 F2"), None);
    assert_eq!(Inst::parse("ADD F1 F2 5"), None);
    assert_eq!(Inst::parse("LD F32 5"), None);
    assert_eq!(Inst::parse("LD F 5"), None);
    assert_eq!(Inst::parse("LD X1 5"), None);
    assert_eq!(Inst::parse("LD F1 4294967296"), None);
    assert_eq!(Inst::parse("LD F1 0x100000000"), None);
    assert_eq!(Inst::parse("LD F1 0x"), None);
    assert_eq!(Inst::parse("LD F1 0xg"), None);
    assert_eq!(Inst::parse("LD F1,5"), None);
    assert_eq!(Inst::parse("LD F1 -3"), None);
}

#[test]
fn parse_ignores_trailing_tokens() {
    assert_eq!(Inst::parse("LD F1 5 junk"), Some(Inst::Ld(1, 5)));
}

#[test]
fn parse_leading_zeros() {
    assert_eq!(Inst::parse("LD F01 007"), Some(Inst::Ld(1, 7)));
}

#[test]
fn program_error_reports_line_index() {
    assert_eq!(Tomasulo::new("LD F1 5\nBOGUS\nLD F2 6").err(), Some(1));
    assert_eq!(Tomasulo::new("BOGUS").err(), Some(0));
    assert_eq!(Tomasulo::new("LD F1 5\n\nLD F2 6").err(), Some(1));
    assert!(Tomasulo::new("LD F1 5\nLD F2 6").is_ok());
}

#[test]
fn program_accepts_crlf_lines() {
    let mut t = Tomasulo::new("LD F1 5\r\nLD F2 7").unwrap();
    t.run_n(20);
    assert!(t.done());
    let s = t.snapshot();
    assert_eq!(s.regs[1], tomasulo::Slot::Value(5));
    assert_eq!(s.regs[2], tomasulo::Slot::Value(7));
}
