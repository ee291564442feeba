//! The instruction set: decoded instructions, binary-operator semantics and
//! execution latencies.
//!
//! The register file holds 32-bit unsigned patterns.  ADD, SUB and MUL are
//! wrapping unsigned operations (MUL is the lower 32 bits of the product,
//! which coincides with the two's-complement reinterpretation).  DIV
//! reinterprets both operands as `i32` and divides with truncation toward
//! zero; division by zero yields 0 and `i32::MIN / -1` wraps back to
//! `i32::MIN`.

use vstd::prelude::*;
use vstd::wrapping::u32_specs;

verus! {

/// The number of architectural registers.
pub const REG: usize = 32;

/// A binary arithmetic operator.
#[derive(Copy, Clone, PartialEq, Eq, Structural, Debug)]
pub enum BinOp {
    Add,
    Sub,
    Mul,
    Div,
}

/// A decoded instruction.
///
/// - `Bin(op, dst, l, r)`: `regs[dst] = op(regs[l], regs[r])`; all three
///   register indices lie in `[0, REG)`.
/// - `Ld(dst, imm)`: `regs[dst] = imm` (an immediate load, not a memory
///   access).
/// - `Jump(cmp, cond, off)`: if `regs[cond] == cmp`, add `off` to the
///   program counter (wrapping; `off` is the two's-complement pattern of a
///   signed offset).
#[derive(Copy, Clone, PartialEq, Eq, Structural, Debug)]
pub enum Inst {
    Bin(BinOp, usize, usize, usize),
    Ld(usize, u32),
    Jump(u32, usize, u32),
}

/// A register index of an instruction is valid when it lies in `[0, REG)`.
pub open spec fn inst_valid(i: Inst) -> bool {
    match i {
        Inst::Bin(_, dst, l, r) => dst < REG && l < REG && r < REG,
        Inst::Ld(dst, _) => dst < REG,
        Inst::Jump(_, cond, _) => cond < REG,
    }
}

/// The two's-complement truncated quotient of the 32-bit patterns `l / r`,
/// stated over magnitudes: the magnitude of the quotient is the quotient of
/// the magnitudes, and the result is negative exactly when the operand signs
/// differ.  `r` must be nonzero.  The lone overflow case,
/// `i32::MIN / -1 == 0x8000_0000 / 0xFFFF_FFFF`, lands on `q == 0x8000_0000`
/// and is its own two's-complement pattern (the wrap the division owes).
pub open spec fn spec_div32(l: u32, r: u32) -> u32 {
    let neg_l = l >= 0x8000_0000;
    let neg_r = r >= 0x8000_0000;
    let la: int = if neg_l { 0x1_0000_0000 - l } else { l as int };
    let ra: int = if neg_r { 0x1_0000_0000 - r } else { r as int };
    let q: int = la / ra;
    if neg_l == neg_r {
        q as u32
    } else if q == 0 {
        0u32
    } else {
        (0x1_0000_0000 - q) as u32
    }
}

/// What a binary operator computes on two 32-bit register patterns.
pub open spec fn spec_eval(op: BinOp, l: u32, r: u32) -> u32 {
    match op {
        BinOp::Add => u32_specs::wrapping_add(l, r),
        BinOp::Sub => u32_specs::wrapping_sub(l, r),
        BinOp::Mul => u32_specs::wrapping_mul(l, r),
        BinOp::Div => if r == 0 {
            0u32
        } else {
            spec_div32(l, r)
        },
    }
}

/// The execution latency of a binary operator, in cycles.
pub open spec fn spec_delay(op: BinOp) -> u8 {
    match op {
        BinOp::Add => 3u8,
        BinOp::Sub => 3u8,
        BinOp::Mul => 12u8,
        BinOp::Div => 40u8,
    }
}

/// The rendered name of a binary operator.
pub open spec fn spec_name(op: BinOp) -> Seq<char> {
    match op {
        BinOp::Add => "ADD"@,
        BinOp::Sub => "SUB"@,
        BinOp::Mul => "MUL"@,
        BinOp::Div => "DIV"@,
    }
}

impl BinOp {
    /// The operator's assembly mnemonic.
    pub fn name(self) -> (r: &'static str)
        ensures
            r@ == spec_name(self),
    {
        match self {
            BinOp::Add => "ADD",
            BinOp::Sub => "SUB",
            BinOp::Mul => "MUL",
            BinOp::Div => "DIV",
        }
    }

    /// The execution latency of this operator: the number of cycles a
    /// reservation station spends with a positive remaining time.
    pub fn delay(self) -> (r: u8)
        ensures
            r == spec_delay(self),
    {
        match self {
            BinOp::Add => 3,
            BinOp::Sub => 3,
            BinOp::Mul => 12,
            BinOp::Div => 40,
        }
    }

    /// Apply the operator to two register patterns.
    pub fn eval(self, l: u32, r: u32) -> (v: u32)
        ensures
            v == spec_eval(self, l, r),
    {
        match self {
            BinOp::Add => l.wrapping_add(r),
            BinOp::Sub => l.wrapping_sub(r),
            BinOp::Mul => l.wrapping_mul(r),
            BinOp::Div => {
                if r == 0 {
                    0
                } else {
                    let neg_l = l >= 0x8000_0000;
                    let neg_r = r >= 0x8000_0000;
                    let la: u32 = if neg_l { 0u32.wrapping_sub(l) } else { l };
                    let ra: u32 = if neg_r { 0u32.wrapping_sub(r) } else { r };
                    let q: u32 = la / ra;
                    if neg_l != neg_r { 0u32.wrapping_sub(q) } else { q }
                }
            },
        }
    }
}

} // verus!
