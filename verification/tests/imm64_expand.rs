use paideia_as_elaborator::frame_stubs::Gpr;
use paideia_as_elaborator::imm64_expand::{
    expand_bitop_imm64, needs_expansion, BitOp, ExpandedInst, R11_COLLISION_MESSAGE, U_R11_COLLISION,
};

#[test]
fn needs_expansion_imm32_fits() {
    // 0xFFFFFFFF as i64 is 4294967295; as i32 it is -1, so it needs expansion.
    assert!(needs_expansion(0xFFFFFFFF_i64));
}

#[test]
fn needs_expansion_imm32_max_positive_fits() {
    assert!(!needs_expansion(0x7FFFFFFF_i64));
}

#[test]
fn needs_expansion_imm32_negative_fits() {
    assert!(!needs_expansion(-1i64));
}

#[test]
fn needs_expansion_imm64_high_bit_set() {
    assert!(needs_expansion(0xFFFFFFFF00000000u64 as i64));
}

#[test]
fn needs_expansion_imm64_arbitrary() {
    assert!(needs_expansion(0x8000000000000000u64 as i64));
}

#[test]
fn needs_expansion_imm64_max() {
    assert!(needs_expansion(0x7FFFFFFFFFFFFFFFu64 as i64));
}

#[test]
fn needs_expansion_zero() {
    assert!(!needs_expansion(0i64));
}

#[test]
fn needs_expansion_boundaries_of_simm32() {
    assert!(!needs_expansion(i32::MIN as i64));
    assert!(needs_expansion(i32::MIN as i64 - 1));
    assert!(!needs_expansion(i32::MAX as i64));
    assert!(needs_expansion(i32::MAX as i64 + 1));
}

#[test]
fn collision_guard_r11() {
    assert!(Gpr::R11 == Gpr::R11);
}

#[test]
fn collision_guard_r10() {
    assert!(Gpr::R10 != Gpr::R11);
}

#[test]
fn expansion_loads_r11_then_applies_op() {
    let insts = expand_bitop_imm64(BitOp::Xor, Gpr::Rax, 0x1_0000_0000).unwrap();
    assert_eq!(
        insts,
        vec![
            ExpandedInst::MovImm64(Gpr::R11, 0x1_0000_0000),
            ExpandedInst::OpReg(BitOp::Xor, Gpr::Rax, Gpr::R11),
        ]
    );
}

#[test]
fn expansion_refused_for_r11_destination() {
    assert!(expand_bitop_imm64(BitOp::Or, Gpr::R11, -5_000_000_000).is_none());
    assert_eq!(U_R11_COLLISION, 1610);
    assert!(R11_COLLISION_MESSAGE.contains("r11"));
}
