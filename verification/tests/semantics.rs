//! Operator evaluation, latencies, names and tag rendering.

use tomasulo::snap::tag_name;
use tomasulo::BinOp;

#[test]
fn eval_add_sub_mul_wrap() {
    assert_eq!(BinOp::Add.eval(2, 3), 5);
    assert_eq!(BinOp::Add.eval(u32::MAX, 1), 0);
    assert_eq!(BinOp::Sub.eval(3, 5), u32::MAX - 1);
    assert_eq!(BinOp::Sub.eval(0, 1), u32::MAX);
    assert_eq!(BinOp::Mul.eval(6, 7), 42);
    assert_eq!(BinOp::Mul.eval(0x8000_0001, 2), 2);
}

#[test]
fn eval_div_signed_truncating() {
    assert_eq!(BinOp::Div.eval(42, 5), 8);
    // -6 / 3 == -2
    assert_eq!(BinOp::Div.eval(6u32.wrapping_neg(), 3), 2u32.wrapping_neg());
    // 7 / -2 == -3 (truncation toward zero)
    assert_eq!(BinOp::Div.eval(7, 2u32.wrapping_neg()), 3u32.wrapping_neg());
    // -7 / -2 == 3
    assert_eq!(BinOp::Div.eval(7u32.wrapping_neg(), 2u32.wrapping_neg()), 3);
}

#[test]
fn eval_div_edge_cases() {
    // division by zero is defined, not trapped
    assert_eq!(BinOp::Div.eval(10, 0), 0);
    assert_eq!(BinOp::Div.eval(0x8000_0000, 0), 0);
    // i32::MIN / -1 wraps back to i32::MIN
    assert_eq!(BinOp::Div.eval(0x8000_0000, 0xFFFF_FFFF), 0x8000_0000);
}

#[test]
fn latencies() {
    assert_eq!(BinOp::Add.delay(), 3);
    assert_eq!(BinOp::Sub.delay(), 3);
    assert_eq!(BinOp::Mul.delay(), 12);
    assert_eq!(BinOp::Div.delay(), 40);
}

#[test]
fn names() {
    assert_eq!(BinOp::Add.name(), "ADD");
    assert_eq!(BinOp::Sub.name(), "SUB");
    assert_eq!(BinOp::Mul.name(), "MUL");
    assert_eq!(BinOp::Div.name(), "DIV");
}

#[test]
fn tag_names_match_fixed_table() {
    let expected = [
        "Ars1", "Ars2", "Ars3", "Ars4", "Ars5", "Ars6", "Mrs1", "Mrs2", "Mrs3", "LB1", "LB2",
        "LB3",
    ];
    for (i, e) in expected.iter().enumerate() {
        assert_eq!(tag_name(i), *e);
    }
}
