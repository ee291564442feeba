//! The assembly parser.
//!
//! A program is one instruction per line (lines split on `'\n'`, a single
//! trailing `'\r'` stripped).  Fields are separated by spaces or tabs;
//! tokens beyond the instruction's last field are ignored.  Registers are
//! `F0`..`F31` or `R0`..`R31`; immediates are decimal or `0x`-prefixed
//! hexadecimal digits, within 32 bits.  The accepted forms:
//!
//! - `ADD Fd Fa Fb`, and likewise `SUB`, `MUL`, `DIV`
//! - `LD Fd imm`
//! - `JUMP Fa cmp off`
//!
//! A malformed line fails the whole parse with its 0-based line index.

use vstd::prelude::*;
use vstd::string::StrSliceExecFns;
use crate::inst::{Inst, BinOp, inst_valid, REG};

verus! {

// ---------------------------------------------------------------------------
// Character classes and token boundaries
// ---------------------------------------------------------------------------

/// A field separator: space or tab.
pub open spec fn is_space(c: char) -> bool {
    c == ' ' || c == '\t'
}

/// A decimal digit.
pub open spec fn is_digit(c: char) -> bool {
    ('0' as u32) <= (c as u32) && (c as u32) <= ('9' as u32)
}

/// The value of a decimal digit.
pub open spec fn digit_val(c: char) -> int {
    c as u32 - '0' as u32
}

/// A hexadecimal digit, either case.
pub open spec fn is_hex_digit(c: char) -> bool {
    ||| is_digit(c)
    ||| ('a' as u32) <= (c as u32) && (c as u32) <= ('f' as u32)
    ||| ('A' as u32) <= (c as u32) && (c as u32) <= ('F' as u32)
}

/// The value of a hexadecimal digit.
pub open spec fn hex_digit_val(c: char) -> int {
    if is_digit(c) {
        c as u32 - '0' as u32
    } else if ('a' as u32) <= (c as u32) && (c as u32) <= ('f' as u32) {
        c as u32 - 'a' as u32 + 10
    } else {
        c as u32 - 'A' as u32 + 10
    }
}

/// The first position at or after `i` holding a non-separator (or the end).
pub open spec fn ws_end(s: Seq<char>, i: int) -> int
    decreases s.len() - i,
{
    if 0 <= i < s.len() && is_space(s[i]) {
        ws_end(s, i + 1)
    } else {
        i
    }
}

/// The first position at or after `i` holding a separator (or the end):
/// the end of the token starting at `i`.
pub open spec fn tok_end(s: Seq<char>, i: int) -> int
    decreases s.len() - i,
{
    if 0 <= i < s.len() && !is_space(s[i]) {
        tok_end(s, i + 1)
    } else {
        i
    }
}

/// The first position at or after `i` holding `'\n'` (or the end).
pub open spec fn line_end(s: Seq<char>, i: int) -> int
    decreases s.len() - i,
{
    if 0 <= i < s.len() && s[i] != '\n' {
        line_end(s, i + 1)
    } else {
        i
    }
}

/// `line_end` stays within `[i, s.len()]`.
pub proof fn lemma_line_end_bounds(s: Seq<char>, i: int)
    requires
        0 <= i <= s.len(),
    ensures
        i <= line_end(s, i) <= s.len(),
    decreases s.len() - i,
{
    if i < s.len() && s[i] != '\n' {
        lemma_line_end_bounds(s, i + 1);
    }
}

// ---------------------------------------------------------------------------
// Numerals
// ---------------------------------------------------------------------------

/// Whether every character of `t` is a decimal digit.
pub open spec fn all_digits(t: Seq<char>) -> bool {
    forall|i: int| 0 <= i < t.len() ==> is_digit(#[trigger] t[i])
}

/// Whether every character of `t` is a hexadecimal digit.
pub open spec fn all_hex_digits(t: Seq<char>) -> bool {
    forall|i: int| 0 <= i < t.len() ==> is_hex_digit(#[trigger] t[i])
}

/// The value of a decimal numeral.
pub open spec fn dec_val(t: Seq<char>) -> int
    decreases t.len(),
{
    if t.len() == 0 {
        0
    } else {
        dec_val(t.take(t.len() - 1)) * 10 + digit_val(t.last())
    }
}

/// The value of a hexadecimal numeral.
pub open spec fn hex_val(t: Seq<char>) -> int
    decreases t.len(),
{
    if t.len() == 0 {
        0
    } else {
        hex_val(t.take(t.len() - 1)) * 16 + hex_digit_val(t.last())
    }
}

/// A decimal numeral's value is non-negative.
pub proof fn lemma_dec_val_nonneg(t: Seq<char>)
    requires
        all_digits(t),
    ensures
        dec_val(t) >= 0,
    decreases t.len(),
{
    if t.len() > 0 {
        assert(all_digits(t.take(t.len() - 1)));
        lemma_dec_val_nonneg(t.take(t.len() - 1));
    }
}

/// A hexadecimal numeral's value is non-negative.
pub proof fn lemma_hex_val_nonneg(t: Seq<char>)
    requires
        all_hex_digits(t),
    ensures
        hex_val(t) >= 0,
    decreases t.len(),
{
    if t.len() > 0 {
        assert(all_hex_digits(t.take(t.len() - 1)));
        lemma_hex_val_nonneg(t.take(t.len() - 1));
    }
}

/// Appending digits cannot shrink a decimal numeral's value.
pub proof fn lemma_dec_val_prefix_le(t: Seq<char>, k: int)
    requires
        all_digits(t),
        0 <= k <= t.len(),
    ensures
        dec_val(t.take(k)) <= dec_val(t),
    decreases t.len(),
{
    if k < t.len() {
        let t1 = t.take(t.len() - 1);
        assert(all_digits(t1));
        assert(t1.take(k) =~= t.take(k));
        lemma_dec_val_prefix_le(t1, k);
        lemma_dec_val_nonneg(t1);
    } else {
        assert(t.take(k) =~= t);
    }
}

/// Appending digits cannot shrink a hexadecimal numeral's value.
pub proof fn lemma_hex_val_prefix_le(t: Seq<char>, k: int)
    requires
        all_hex_digits(t),
        0 <= k <= t.len(),
    ensures
        hex_val(t.take(k)) <= hex_val(t),
    decreases t.len(),
{
    if k < t.len() {
        let t1 = t.take(t.len() - 1);
        assert(all_hex_digits(t1));
        assert(t1.take(k) =~= t.take(k));
        lemma_hex_val_prefix_le(t1, k);
        lemma_hex_val_nonneg(t1);
    } else {
        assert(t.take(k) =~= t);
    }
}

// ---------------------------------------------------------------------------
// Fields
// ---------------------------------------------------------------------------

/// What an immediate field means: one or more decimal digits, or `0x`
/// followed by one or more hexadecimal digits, within 32 bits.
pub open spec fn spec_parse_imm(t: Seq<char>) -> Option<u32> {
    if t.len() >= 2 && t[0] == '0' && t[1] == 'x' {
        let h = t.skip(2);
        if h.len() > 0 && all_hex_digits(h) && hex_val(h) <= 0xFFFF_FFFF {
            Some(hex_val(h) as u32)
        } else {
            None
        }
    } else if t.len() > 0 && all_digits(t) && dec_val(t) <= 0xFFFF_FFFF {
        Some(dec_val(t) as u32)
    } else {
        None
    }
}

/// What a register field means: `F` or `R` followed by a decimal index
/// below [`REG`].
pub open spec fn spec_parse_reg(t: Seq<char>) -> Option<usize> {
    if t.len() >= 2 && (t[0] == 'F' || t[0] == 'R') {
        let d = t.skip(1);
        if all_digits(d) && dec_val(d) < REG {
            Some(dec_val(d) as usize)
        } else {
            None
        }
    } else {
        None
    }
}

// ---------------------------------------------------------------------------
// Instructions and programs
// ---------------------------------------------------------------------------

/// What one line means: an opcode token, then the fields the opcode asks
/// for; anything further on the line is ignored.
pub open spec fn spec_parse_inst(s: Seq<char>) -> Option<Inst> {
    let p0 = ws_end(s, 0);
    let e0 = tok_end(s, p0);
    let op = s.subrange(p0, e0);
    let p1 = ws_end(s, e0);
    let e1 = tok_end(s, p1);
    let t1 = s.subrange(p1, e1);
    let p2 = ws_end(s, e1);
    let e2 = tok_end(s, p2);
    let t2 = s.subrange(p2, e2);
    let p3 = ws_end(s, e2);
    let e3 = tok_end(s, p3);
    let t3 = s.subrange(p3, e3);
    if op == seq!['L', 'D'] {
        match (spec_parse_reg(t1), spec_parse_imm(t2)) {
            (Some(d), Some(imm)) => Some(Inst::Ld(d, imm)),
            _ => None,
        }
    } else if op == seq!['J', 'U', 'M', 'P'] {
        match (spec_parse_reg(t1), spec_parse_imm(t2), spec_parse_imm(t3)) {
            (Some(cond), Some(cmp), Some(off)) => Some(Inst::Jump(cmp, cond, off)),
            _ => None,
        }
    } else {
        let bop = if op == seq!['A', 'D', 'D'] {
            Some(BinOp::Add)
        } else if op == seq!['S', 'U', 'B'] {
            Some(BinOp::Sub)
        } else if op == seq!['M', 'U', 'L'] {
            Some(BinOp::Mul)
        } else if op == seq!['D', 'I', 'V'] {
            Some(BinOp::Div)
        } else {
            None
        };
        match (bop, spec_parse_reg(t1), spec_parse_reg(t2), spec_parse_reg(t3)) {
            (Some(b), Some(d), Some(l), Some(r)) => Some(Inst::Bin(b, d, l, r)),
            _ => None,
        }
    }
}

/// Strip one trailing carriage return from a line.
pub open spec fn strip_cr(t: Seq<char>) -> Seq<char> {
    if t.len() > 0 && t.last() == '\r' {
        t.take(t.len() - 1)
    } else {
        t
    }
}

/// What the text from position `pos` onward means, with `ln` lines already
/// consumed: each line in turn, or the 0-based index of the first line
/// that fails.
pub open spec fn spec_parse_program_from(s: Seq<char>, pos: int, ln: int) -> Result<Seq<Inst>, int>
    decreases s.len() - pos,
    via spec_parse_program_from_decreases
{
    if !(0 <= pos < s.len()) {
        Ok(seq![])
    } else {
        let k = line_end(s, pos);
        match spec_parse_inst(strip_cr(s.subrange(pos, k))) {
            None => Err(ln),
            Some(inst) => {
                if k >= s.len() {
                    Ok(seq![inst])
                } else {
                    match spec_parse_program_from(s, k + 1, ln + 1) {
                        Ok(rest) => Ok(seq![inst] + rest),
                        Err(e) => Err(e),
                    }
                }
            },
        }
    }
}

#[via_fn]
proof fn spec_parse_program_from_decreases(s: Seq<char>, pos: int, ln: int) {
    if 0 <= pos < s.len() {
        lemma_line_end_bounds(s, pos);
    }
}

/// What a whole program text means.
pub open spec fn spec_parse_program(s: Seq<char>) -> Result<Seq<Inst>, int> {
    spec_parse_program_from(s, 0, 0)
}

// ---------------------------------------------------------------------------
// The executable parser
// ---------------------------------------------------------------------------

/// Find [`ws_end`] of the line `s[beg..end]`, from relative position `i`.
fn ws_end_x(s: &str, beg: usize, end: usize, i: usize) -> (r: usize)
    requires
        beg <= end <= s@.len(),
        i <= end - beg,
    ensures
        r as int == ws_end(s@.subrange(beg as int, end as int), i as int),
        i <= r <= end - beg,
{
    let ghost line = s@.subrange(beg as int, end as int);
    let m = end - beg;
    let mut j = i;
    while j < m
        invariant
            i <= j <= m,
            m == end - beg,
            beg <= end <= s@.len(),
            line == s@.subrange(beg as int, end as int),
            ws_end(line, i as int) == ws_end(line, j as int),
        decreases m - j,
    {
        let c = s.get_char(beg + j);
        proof {
            assert(line[j as int] == s@[beg + j as int]);
        }
        if !(c == ' ' || c == '\t') {
            return j;
        }
        j = j + 1;
    }
    j
}

/// Find [`tok_end`] of the line `s[beg..end]`, from relative position `i`.
fn tok_end_x(s: &str, beg: usize, end: usize, i: usize) -> (r: usize)
    requires
        beg <= end <= s@.len(),
        i <= end - beg,
    ensures
        r as int == tok_end(s@.subrange(beg as int, end as int), i as int),
        i <= r <= end - beg,
{
    let ghost line = s@.subrange(beg as int, end as int);
    let m = end - beg;
    let mut j = i;
    while j < m
        invariant
            i <= j <= m,
            m == end - beg,
            beg <= end <= s@.len(),
            line == s@.subrange(beg as int, end as int),
            tok_end(line, i as int) == tok_end(line, j as int),
        decreases m - j,
    {
        let c = s.get_char(beg + j);
        proof {
            assert(line[j as int] == s@[beg + j as int]);
        }
        if c == ' ' || c == '\t' {
            return j;
        }
        j = j + 1;
    }
    j
}

/// Parse the immediate field `s[beg..end]`.
fn parse_imm_x(s: &str, beg: usize, end: usize) -> (r: Option<u32>)
    requires
        beg <= end <= s@.len(),
    ensures
        r == spec_parse_imm(s@.subrange(beg as int, end as int)),
{
    let ghost t = s@.subrange(beg as int, end as int);
    let len = end - beg;
    if len >= 2 && s.get_char(beg) == '0' && s.get_char(beg + 1) == 'x' {
        let ghost h = t.skip(2);
        proof {
            assert(t[0] == s@[beg as int] && t[1] == s@[beg + 1int]);
        }
        let mut acc: u32 = 0;
        let mut j = beg + 2;
        while j < end
            invariant
                beg + 2 <= j <= end,
                end <= s@.len(),
                t == s@.subrange(beg as int, end as int),
                h == t.skip(2),
                h.len() == end - beg - 2,
                t.len() >= 2 && t[0] == '0' && t[1] == 'x',
                all_hex_digits(h.take(j - beg - 2)),
                acc as int == hex_val(h.take(j - beg - 2)),
            decreases end - j,
        {
            let c = s.get_char(j);
            let u = c as u32;
            let d: u32 = if u >= 48 && u <= 57 {
                u - 48
            } else if u >= 97 && u <= 102 {
                u - 97 + 10
            } else if u >= 65 && u <= 70 {
                u - 65 + 10
            } else {
                proof {
                    assert(h[j - beg - 2] == s@[j as int]);
                    assert(!is_hex_digit(h[j - beg - 2]));
                }
                return None;
            };
            proof {
                assert(h[j - beg - 2] == s@[j as int]);
                assert(is_hex_digit(h[j - beg - 2]));
                assert(hex_digit_val(h[j - beg - 2]) == d as int);
            }
            if acc >= 0x1000_0000 {
                proof {
                    let k = j - beg - 2 + 1;
                    assert(h.take(k).take(k - 1) =~= h.take(k - 1));
                    assert(h.take(k).last() == h[j - beg - 2]);
                    assert(hex_val(h.take(k)) == acc as int * 16 + d as int);
                    if all_hex_digits(h) {
                        lemma_hex_val_prefix_le(h, k);
                        assert(hex_val(h) > 0xFFFF_FFFF);
                    }
                }
                return None;
            }
            proof {
                let k = j - beg - 2 + 1;
                assert(h.take(k).take(k - 1) =~= h.take(k - 1));
                assert(h.take(k).last() == h[j - beg - 2]);
            }
            acc = acc * 16 + d;
            j = j + 1;
        }
        proof {
            assert(h.take(end - beg - 2) =~= h);
        }
        if len == 2 {
            return None;
        }
        Some(acc)
    } else {
        proof {
            if end - beg >= 2 {
                assert(t[0] == s@[beg as int]);
                assert(t[1] == s@[beg + 1int]);
            }
        }
        let mut acc: u32 = 0;
        let mut j = beg;
        while j < end
            invariant
                beg <= j <= end,
                end <= s@.len(),
                t == s@.subrange(beg as int, end as int),
                !(t.len() >= 2 && t[0] == '0' && t[1] == 'x'),
                all_digits(t.take(j - beg)),
                acc as int == dec_val(t.take(j - beg)),
            decreases end - j,
        {
            let c = s.get_char(j);
            let u = c as u32;
            if !(u >= 48 && u <= 57) {
                proof {
                    assert(t[j - beg] == s@[j as int]);
                    assert(!is_digit(t[j - beg]));
                }
                return None;
            }
            let d: u32 = u - 48;
            proof {
                assert(t[j - beg] == s@[j as int]);
                assert(is_digit(t[j - beg]));
                assert(digit_val(t[j - beg]) == d as int);
            }
            if acc > 429496729 || (acc == 429496729 && d > 5) {
                proof {
                    let k = j - beg + 1;
                    assert(t.take(k).take(k - 1) =~= t.take(k - 1));
                    assert(t.take(k).last() == t[j - beg]);
                    assert(dec_val(t.take(k)) == acc as int * 10 + d as int);
                    if all_digits(t) {
                        lemma_dec_val_prefix_le(t, k);
                        assert(dec_val(t) > 0xFFFF_FFFF);
                    }
                }
                return None;
            }
            proof {
                let k = j - beg + 1;
                assert(t.take(k).take(k - 1) =~= t.take(k - 1));
                assert(t.take(k).last() == t[j - beg]);
            }
            acc = acc * 10 + d;
            j = j + 1;
        }
        proof {
            assert(t.take(end - beg) =~= t);
        }
        if len == 0 {
            return None;
        }
        Some(acc)
    }
}

/// Parse the register field `s[beg..end]`.
fn parse_reg_x(s: &str, beg: usize, end: usize) -> (r: Option<usize>)
    requires
        beg <= end <= s@.len(),
    ensures
        r == spec_parse_reg(s@.subrange(beg as int, end as int)),
{
    let ghost t = s@.subrange(beg as int, end as int);
    let len = end - beg;
    if len < 2 {
        return None;
    }
    let c0 = s.get_char(beg);
    proof {
        assert(t[0] == s@[beg as int]);
    }
    if !(c0 == 'F' || c0 == 'R') {
        return None;
    }
    let ghost d = t.skip(1);
    let mut acc: u32 = 0;
    let mut j = beg + 1;
    while j < end
        invariant
            beg + 1 <= j <= end,
            end <= s@.len(),
            t == s@.subrange(beg as int, end as int),
            d == t.skip(1),
            d.len() == end - beg - 1,
            t.len() >= 2 && (t[0] == 'F' || t[0] == 'R'),
            all_digits(d.take(j - beg - 1)),
            acc as int == dec_val(d.take(j - beg - 1)),
            acc < 32,
        decreases end - j,
    {
        let c = s.get_char(j);
        let u = c as u32;
        if !(u >= 48 && u <= 57) {
            proof {
                assert(d[j - beg - 1] == s@[j as int]);
                assert(!is_digit(d[j - beg - 1]));
            }
            return None;
        }
        let dv: u32 = u - 48;
        proof {
            assert(d[j - beg - 1] == s@[j as int]);
            assert(is_digit(d[j - beg - 1]));
            assert(digit_val(d[j - beg - 1]) == dv as int);
        }
        proof {
            let k = j - beg - 1 + 1;
            assert(d.take(k).take(k - 1) =~= d.take(k - 1));
            assert(d.take(k).last() == d[j - beg - 1]);
        }
        if acc * 10 + dv >= 32 {
            proof {
                let k = j - beg;
                if all_digits(d) {
                    lemma_dec_val_prefix_le(d, k);
                    assert(dec_val(d) >= 32);
                }
            }
            return None;
        }
        acc = acc * 10 + dv;
        j = j + 1;
    }
    proof {
        assert(d.take(end - beg - 1) =~= d);
    }
    Some(acc as usize)
}

/// Whether the token `s[beg..end]` is the two characters `c0 c1`.
fn tok_eq2(s: &str, beg: usize, end: usize, c0: char, c1: char) -> (r: bool)
    requires
        beg <= end <= s@.len(),
    ensures
        r == (s@.subrange(beg as int, end as int) == seq![c0, c1]),
{
    let ghost t = s@.subrange(beg as int, end as int);
    if end - beg != 2 {
        proof {
            assert(t.len() != 2);
        }
        return false;
    }
    let r = s.get_char(beg) == c0 && s.get_char(beg + 1) == c1;
    proof {
        assert(t[0] == s@[beg as int] && t[1] == s@[beg + 1int]);
        if r {
            assert(t =~= seq![c0, c1]);
        }
    }
    r
}

/// Whether the token `s[beg..end]` is the three characters `c0 c1 c2`.
fn tok_eq3(s: &str, beg: usize, end: usize, c0: char, c1: char, c2: char) -> (r: bool)
    requires
        beg <= end <= s@.len(),
    ensures
        r == (s@.subrange(beg as int, end as int) == seq![c0, c1, c2]),
{
    let ghost t = s@.subrange(beg as int, end as int);
    if end - beg != 3 {
        proof {
            assert(t.len() != 3);
        }
        return false;
    }
    let r = s.get_char(beg) == c0 && s.get_char(beg + 1) == c1 && s.get_char(beg + 2) == c2;
    proof {
        assert(t[0] == s@[beg as int] && t[1] == s@[beg + 1int] && t[2] == s@[beg + 2int]);
        if r {
            assert(t =~= seq![c0, c1, c2]);
        }
    }
    r
}

/// Whether the token `s[beg..end]` is the four characters `c0 c1 c2 c3`.
fn tok_eq4(s: &str, beg: usize, end: usize, c0: char, c1: char, c2: char, c3: char) -> (r: bool)
    requires
        beg <= end <= s@.len(),
    ensures
        r == (s@.subrange(beg as int, end as int) == seq![c0, c1, c2, c3]),
{
    let ghost t = s@.subrange(beg as int, end as int);
    if end - beg != 4 {
        proof {
            assert(t.len() != 4);
        }
        return false;
    }
    let r = s.get_char(beg) == c0 && s.get_char(beg + 1) == c1 && s.get_char(beg + 2) == c2
        && s.get_char(beg + 3) == c3;
    proof {
        assert(t[0] == s@[beg as int] && t[1] == s@[beg + 1int] && t[2] == s@[beg + 2int]
            && t[3] == s@[beg + 3int]);
        if r {
            assert(t =~= seq![c0, c1, c2, c3]);
        }
    }
    r
}

/// Parse the line `s[beg..end]` as one instruction.
fn parse_inst_range(s: &str, beg: usize, end: usize) -> (r: Option<Inst>)
    requires
        beg <= end <= s@.len(),
    ensures
        r == spec_parse_inst(s@.subrange(beg as int, end as int)),
{
    let ghost line = s@.subrange(beg as int, end as int);
    let p0 = ws_end_x(s, beg, end, 0);
    let e0 = tok_end_x(s, beg, end, p0);
    let p1 = ws_end_x(s, beg, end, e0);
    let e1 = tok_end_x(s, beg, end, p1);
    let p2 = ws_end_x(s, beg, end, e1);
    let e2 = tok_end_x(s, beg, end, p2);
    let p3 = ws_end_x(s, beg, end, e2);
    let e3 = tok_end_x(s, beg, end, p3);
    proof {
        assert(line.subrange(p1 as int, e1 as int)
            =~= s@.subrange(beg + p1 as int, beg + e1 as int));
        assert(line.subrange(p2 as int, e2 as int)
            =~= s@.subrange(beg + p2 as int, beg + e2 as int));
        assert(line.subrange(p3 as int, e3 as int)
            =~= s@.subrange(beg + p3 as int, beg + e3 as int));
        assert(line.subrange(p0 as int, e0 as int)
            =~= s@.subrange(beg + p0 as int, beg + e0 as int));
    }
    if tok_eq2(s, beg + p0, beg + e0, 'L', 'D') {
        match (parse_reg_x(s, beg + p1, beg + e1), parse_imm_x(s, beg + p2, beg + e2)) {
            (Some(d), Some(imm)) => Some(Inst::Ld(d, imm)),
            _ => None,
        }
    } else if tok_eq4(s, beg + p0, beg + e0, 'J', 'U', 'M', 'P') {
        match (
            parse_reg_x(s, beg + p1, beg + e1),
            parse_imm_x(s, beg + p2, beg + e2),
            parse_imm_x(s, beg + p3, beg + e3),
        ) {
            (Some(cond), Some(cmp), Some(off)) => Some(Inst::Jump(cmp, cond, off)),
            _ => None,
        }
    } else {
        let bop: Option<BinOp> = if tok_eq3(s, beg + p0, beg + e0, 'A', 'D', 'D') {
            Some(BinOp::Add)
        } else if tok_eq3(s, beg + p0, beg + e0, 'S', 'U', 'B') {
            Some(BinOp::Sub)
        } else if tok_eq3(s, beg + p0, beg + e0, 'M', 'U', 'L') {
            Some(BinOp::Mul)
        } else if tok_eq3(s, beg + p0, beg + e0, 'D', 'I', 'V') {
            Some(BinOp::Div)
        } else {
            None
        };
        match bop {
            Some(b) => {
                match (
                    parse_reg_x(s, beg + p1, beg + e1),
                    parse_reg_x(s, beg + p2, beg + e2),
                    parse_reg_x(s, beg + p3, beg + e3),
                ) {
                    (Some(d), Some(l), Some(r)) => Some(Inst::Bin(b, d, l, r)),
                    _ => None,
                }
            },
            None => None,
        }
    }
}

impl Inst {
    /// Parse one line of assembly.
    pub fn parse(s: &str) -> (r: Option<Inst>)
        ensures
            r == spec_parse_inst(s@),
    {
        let n = s.unicode_len();
        let r = parse_inst_range(s, 0, n);
        proof {
            assert(s@.subrange(0, n as int) =~= s@);
        }
        r
    }
}

/// Find [`line_end`]: the next `'\n'` at or after `i`, or the end.
fn line_end_x(s: &str, i: usize, n: usize) -> (r: usize)
    requires
        n == s@.len(),
        i <= n,
    ensures
        r as int == line_end(s@, i as int),
        i <= r <= n,
{
    let mut j = i;
    while j < n
        invariant
            i <= j <= n,
            n == s@.len(),
            line_end(s@, i as int) == line_end(s@, j as int),
        decreases n - j,
    {
        if s.get_char(j) == '\n' {
            return j;
        }
        j = j + 1;
    }
    j
}

/// A parsed register index lies below [`REG`].
pub proof fn lemma_parse_reg_bound(t: Seq<char>)
    ensures
        match spec_parse_reg(t) {
            Some(x) => x < REG,
            None => true,
        },
{
    if t.len() >= 2 && (t[0] == 'F' || t[0] == 'R') {
        let d = t.skip(1);
        if all_digits(d) && dec_val(d) < REG {
            lemma_dec_val_nonneg(d);
        }
    }
}

/// A parsed instruction only ever holds valid register indices.
pub proof fn lemma_parse_inst_valid(line: Seq<char>)
    ensures
        match spec_parse_inst(line) {
            Some(i) => inst_valid(i),
            None => true,
        },
{
    let p0 = ws_end(line, 0);
    let e0 = tok_end(line, p0);
    let p1 = ws_end(line, e0);
    let e1 = tok_end(line, p1);
    let p2 = ws_end(line, e1);
    let e2 = tok_end(line, p2);
    let p3 = ws_end(line, e2);
    let e3 = tok_end(line, p3);
    lemma_parse_reg_bound(line.subrange(p1, e1));
    lemma_parse_reg_bound(line.subrange(p2, e2));
    lemma_parse_reg_bound(line.subrange(p3, e3));
}

/// Parse a whole program text: each line in turn, or the 0-based index of
/// the first line that fails.
#[verifier::rlimit(60)]
pub fn parse_program(s: &str) -> (r: Result<Vec<Inst>, usize>)
    requires
        s@.len() <= 0xFFFF_FFFF,
    ensures
        match r {
            Ok(v) => {
                &&& spec_parse_program(s@) == Ok::<Seq<Inst>, int>(v@)
                &&& v@.len() <= 0xFFFF_FFFF
                &&& forall|k: int| 0 <= k < v@.len() ==> inst_valid(#[trigger] v@[k])
            },
            Err(e) => spec_parse_program(s@) == Err::<Seq<Inst>, int>(e as int),
        },
{
    let n = s.unicode_len();
    let mut v: Vec<Inst> = Vec::new();
    let mut pos: usize = 0;
    let mut ln: usize = 0;
    while pos < n
        invariant
            pos <= n,
            n == s@.len(),
            ln == v@.len(),
            v@.len() <= pos,
            forall|k: int| 0 <= k < v@.len() ==> inst_valid(#[trigger] v@[k]),
            ({
                match spec_parse_program_from(s@, pos as int, ln as int) {
                    Ok(rest) => spec_parse_program(s@) == Ok::<Seq<Inst>, int>(v@ + rest),
                    Err(e) => spec_parse_program(s@) == Err::<Seq<Inst>, int>(e),
                }
            }),
        decreases n - pos,
    {
        let k = line_end_x(s, pos, n);
        let e = if k > pos {
            if s.get_char(k - 1) == '\r' { k - 1 } else { k }
        } else {
            k
        };
        proof {
            let raw = s@.subrange(pos as int, k as int);
            if k > pos && s@[k - 1int] == '\r' {
                assert(raw.last() == s@[k - 1int]);
                assert(strip_cr(raw) =~= s@.subrange(pos as int, e as int));
            } else {
                if k > pos {
                    assert(raw.last() == s@[k - 1int]);
                }
                assert(strip_cr(raw) =~= s@.subrange(pos as int, e as int));
            }
        }
        match parse_inst_range(s, pos, e) {
            None => {
                return Err(ln);
            },
            Some(inst) => {
                proof {
                    lemma_parse_inst_valid(strip_cr(s@.subrange(pos as int, k as int)));
                }
                let ghost v_old = v@;
                v.push(inst);
                ln = ln + 1;
                proof {
                    if (k as int) < s@.len() {
                        match spec_parse_program_from(s@, k + 1int, ln as int) {
                            Ok(rest) => {
                                assert(v_old + (seq![inst] + rest) =~= v@ + rest);
                            },
                            Err(_) => {},
                        }
                    } else {
                        assert(v_old + seq![inst] =~= v@);
                        assert(v@ + Seq::<Inst>::empty() =~= v@);
                    }
                }
                if k >= n {
                    proof {
                        assert(spec_parse_program_from(s@, k + 1int, ln as int)
                            == Ok::<Seq<Inst>, int>(seq![]));
                    }
                    pos = n;
                } else {
                    pos = k + 1;
                }
            },
        }
    }
    proof {
        assert(spec_parse_program_from(s@, pos as int, ln as int) == Ok::<Seq<Inst>, int>(seq![]));
        assert(v@ + Seq::<Inst>::empty() =~= v@);
    }
    Ok(v)
}

} // verus!
