use paideia_as_elaborator::frame_stubs::{
    frame_prologue_injection, interrupt_epilogue, interrupt_prologue, isr_spill_regs,
    ret_sequence, Gpr, StubInst,
};

const EXPECTED_SPILL_ORDER: [Gpr; 13] = [
    Gpr::Rax,
    Gpr::Rcx,
    Gpr::Rdx,
    Gpr::Rsi,
    Gpr::Rdi,
    Gpr::R8,
    Gpr::R9,
    Gpr::R10,
    Gpr::R11,
    Gpr::R12,
    Gpr::R13,
    Gpr::R14,
    Gpr::R15,
];

/// The instructions of an interrupt handler with an empty body: entry stub,
/// then (the handler's `ret` being suppressed) the exit stub.
fn isr_function(has_error_code: bool) -> Vec<StubInst> {
    let mut insts = interrupt_prologue(false);
    insts.extend(ret_sequence(7, None, true, false, true));
    insts.extend(interrupt_epilogue(has_error_code));
    insts
}

#[test]
fn interrupt_prologue_pushes_13_gprs_and_clds() {
    let insts = isr_function(false);
    assert!(insts.len() >= 14);
    for (i, expected_reg) in EXPECTED_SPILL_ORDER.iter().enumerate() {
        assert_eq!(insts[i], StubInst::Push(*expected_reg), "prologue inst[{}]", i);
    }
    assert_eq!(insts[13], StubInst::Cld);
}

#[test]
fn interrupt_epilogue_pops_13_gprs_and_iretq_no_errcode() {
    let insts = isr_function(false);
    let n = insts.len();
    assert!(n >= 14);
    assert_eq!(insts[n - 1], StubInst::Iretq);
    for (i, expected_reg) in EXPECTED_SPILL_ORDER.iter().rev().enumerate() {
        let pos = n - 14 + i;
        assert_eq!(insts[pos], StubInst::Pop(*expected_reg), "tail inst[{}]", pos);
    }
    assert!(!insts.iter().any(|i| *i == StubInst::Ret));
}

#[test]
fn interrupt_error_epilogue_adds_rsp_before_iretq() {
    let insts = isr_function(true);
    let n = insts.len();
    assert!(n >= 15);
    assert_eq!(insts[n - 1], StubInst::Iretq);
    assert_eq!(insts[n - 2], StubInst::AddImm(Gpr::Rsp, 8));
    assert_eq!(insts[n - 3], StubInst::Pop(Gpr::Rax));
}

#[test]
fn interrupt_replaces_ret_with_iretq_on_non_unsafe_body() {
    let insts = isr_function(false);
    assert!(!insts.iter().any(|i| *i == StubInst::Ret));
    assert!(insts.iter().any(|i| *i == StubInst::Iretq));
    assert_eq!(insts[insts.len() - 1], StubInst::Iretq);
}

#[test]
fn interrupt_epilogue_sorts_after_body_for_unsafe() {
    let insts = isr_function(false);
    assert!(insts.len() >= 27);
    assert_eq!(insts[0], StubInst::Push(Gpr::Rax));
    assert_eq!(insts[insts.len() - 1], StubInst::Iretq);
}

#[test]
fn interrupt_prologue_emitted_once() {
    assert_eq!(interrupt_prologue(false).len(), 14);
    assert!(interrupt_prologue(true).is_empty());
}

#[test]
fn spill_list_leaves_callee_saved_frame_registers() {
    let regs = isr_spill_regs();
    assert_eq!(regs, EXPECTED_SPILL_ORDER.to_vec());
    assert!(!regs.contains(&Gpr::Rbx));
    assert!(!regs.contains(&Gpr::Rbp));
    assert!(!regs.contains(&Gpr::Rsp));
}

#[test]
fn frame_prologue_injected_when_armed() {
    assert_eq!(
        frame_prologue_injection(3, true),
        vec![StubInst::Push(Gpr::Rbp), StubInst::MovReg(Gpr::Rbp, Gpr::Rsp)]
    );
    assert!(frame_prologue_injection(3, false).is_empty());
    assert!(frame_prologue_injection(0, true).is_empty());
}

#[test]
fn ret_with_frame_pointer_epilogue() {
    assert_eq!(
        ret_sequence(3, None, false, true, false),
        vec![StubInst::MovReg(Gpr::Rsp, Gpr::Rbp), StubInst::Pop(Gpr::Rbp), StubInst::Ret]
    );
}

#[test]
fn ret_without_frame_when_no_frame_or_no_prologue() {
    assert_eq!(ret_sequence(3, None, true, true, false), vec![StubInst::Ret]);
    assert_eq!(ret_sequence(3, None, false, false, false), vec![StubInst::Ret]);
    assert_eq!(ret_sequence(0, Some(32), false, true, false), vec![StubInst::Ret]);
}

#[test]
fn ret_tears_down_closure_frame_first() {
    assert_eq!(
        ret_sequence(5, Some(32), false, true, false),
        vec![
            StubInst::AddImm(Gpr::Rsp, 32),
            StubInst::MovReg(Gpr::Rsp, Gpr::Rbp),
            StubInst::Pop(Gpr::Rbp),
            StubInst::Ret,
        ]
    );
    assert_eq!(ret_sequence(5, Some(0), true, false, false), vec![StubInst::Ret]);
}

#[test]
fn register_numbers_follow_hardware_encoding() {
    assert_eq!(Gpr::Rax.number(), 0);
    assert_eq!(Gpr::Rsp.number(), 4);
    assert_eq!(Gpr::Rbp.number(), 5);
    assert_eq!(Gpr::R11.number(), 11);
    assert_eq!(Gpr::R15.number(), 15);
}
