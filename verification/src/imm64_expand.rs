//! 64-bit immediate expansion for the bitwise operations `or`, `and`, `xor`.
//!
//! x86-64 encodes at most a sign-extended 32-bit immediate in those
//! instructions; any other 64-bit immediate is first materialised in the
//! scratch register r11 (`movabs r11, imm64`) and then used as a register
//! operand (`<op> dst, r11`).

use vstd::prelude::*;

use crate::frame_stubs::Gpr;

verus! {

/// Diagnostic number of the r11 collision (an unsafe-block discipline
/// error, U1610).
pub const U_R11_COLLISION: u16 = 1610;

/// Message of the r11 collision diagnostic.
pub const R11_COLLISION_MESSAGE: &'static str = "cannot expand or/and/xor with imm64 when destination is r11; would clobber scratch register used for expansion";

/// The bitwise operations that take the expansion.
#[derive(Copy, Clone, Debug, PartialEq, Eq, Structural)]
pub enum BitOp {
    Or,
    And,
    Xor,
}

/// The two instructions of an expansion.
#[derive(Copy, Clone, Debug, PartialEq, Eq, Structural)]
pub enum ExpandedInst {
    /// `movabs reg, imm64`
    MovImm64(Gpr, i64),
    /// `<op> dst, src`
    OpReg(BitOp, Gpr, Gpr),
}

/// The expansion of `<op> dst, imm64`: `movabs r11, imm64` then
/// `<op> dst, r11`; impossible when `dst` is r11 itself.
pub open spec fn expansion_spec(op: BitOp, dst: Gpr, imm: i64) -> Option<Seq<ExpandedInst>> {
    if dst == Gpr::R11 {
        None
    } else {
        Some(seq![ExpandedInst::MovImm64(Gpr::R11, imm), ExpandedInst::OpReg(op, dst, Gpr::R11)])
    }
}

/// Expand `<op> dst, imm64` through the scratch register r11 (see
/// [`expansion_spec`]).  `None` when `dst` is r11: the expansion would
/// clobber its own destination, and the caller reports
/// [`U_R11_COLLISION`].
pub fn expand_bitop_imm64(op: BitOp, dst: Gpr, imm: i64) -> (r: Option<Vec<ExpandedInst>>)
    ensures
        match expansion_spec(op, dst, imm) {
            Some(insts) => r is Some && r->0@ == insts,
            None => r is None,
        },
{
    if dst == Gpr::R11 {
        return None;
    }
    let v = vec![ExpandedInst::MovImm64(Gpr::R11, imm), ExpandedInst::OpReg(op, dst, Gpr::R11)];
    assert(v@ =~= expansion_spec(op, dst, imm)->0);
    Some(v)
}

/// The immediate is representable as a sign-extended 32-bit value.
pub open spec fn fits_simm32(imm: i64) -> bool {
    i32::MIN <= imm <= i32::MAX
}

/// Does `imm` need the two-instruction `movabs r11` expansion?
///
/// True exactly when the signed 32-bit round trip `imm as i32 as i64`
/// does not give `imm` back.
pub fn needs_expansion(imm: i64) -> (r: bool)
    ensures
        r == !fits_simm32(imm),
        r == (imm != (imm as i32) as i64),
{
    let round_trip = (imm as i32) as i64;
    proof {
        assert((i32::MIN <= imm && imm <= i32::MAX) <==> imm == ((imm as i32) as i64)) by (bit_vector);
    }
    imm != round_trip
}

/// The value of `op` on two 64-bit operands.
pub open spec fn apply_bitop(op: BitOp, a: i64, b: i64) -> i64 {
    match op {
        BitOp::Or => a | b,
        BitOp::And => a & b,
        BitOp::Xor => a ^ b,
    }
}

/// The register file after one expanded instruction.
pub open spec fn exec_expanded(regs: Map<Gpr, i64>, i: ExpandedInst) -> Map<Gpr, i64> {
    match i {
        ExpandedInst::MovImm64(r, v) => regs.insert(r, v),
        ExpandedInst::OpReg(op, d, s) => regs.insert(d, apply_bitop(op, regs[d], regs[s])),
    }
}

/// The expansion means what `<op> dst, imm64` means: `dst` gets
/// `dst op imm`; only the scratch register r11 is clobbered besides.
pub proof fn lemma_expansion_computes_bitop(op: BitOp, dst: Gpr, imm: i64, regs: Map<Gpr, i64>)
    requires
        dst != Gpr::R11,
        regs.contains_key(dst),
    ensures
        ({
            let insts = expansion_spec(op, dst, imm)->0;
            let out = exec_expanded(exec_expanded(regs, insts[0]), insts[1]);
            &&& out[dst] == apply_bitop(op, regs[dst], imm)
            &&& out[Gpr::R11] == imm
            &&& forall|r: Gpr| r != dst && r != Gpr::R11 ==> #[trigger] out[r] == regs[r]
        }),
{
}

} // verus!
