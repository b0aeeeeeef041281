use paideia_as_elaborator::emit_ledger::EmitLedger;
use paideia_as_elaborator::frame_stubs::{ret_sequence, Gpr, StubInst};

#[test]
fn emission_orders_are_consecutive() {
    let mut ledger = EmitLedger::new();
    let a = ledger.record_inst(10, 3, 4);
    let b = ledger.record_inst(11, 3, 2);
    assert_eq!((a, b), (0, 1));
    assert_eq!(ledger.next_emission_order, 2);
    assert_eq!(ledger.estimated_offset, 6);
    assert_eq!(ledger.instr_to_lambda.get(&11), Some(&3));
    assert_eq!(ledger.instr_order.get(&10), Some(&0));
}

#[test]
fn armed_lambda_entry_is_next_instruction() {
    let mut ledger = EmitLedger::new();
    ledger.arm_first_instr(7);
    ledger.record_inst(20, 7, 1);
    ledger.record_inst(21, 7, 1);
    assert_eq!(ledger.lambda_first_instr.get(&7), Some(&20));
    assert!(ledger.emitted_lambdas.contains_key(&7));
    assert!(ledger.pending_first_instr.is_none());
}

#[test]
fn recorded_entry_is_not_overwritten() {
    let mut ledger = EmitLedger::new();
    ledger.record_lambda_entry(5, 100);
    ledger.record_lambda_entry(5, 200);
    assert_eq!(ledger.lambda_first_instr.get(&5), Some(&100));
    assert!(ledger.emitted_lambdas.contains_key(&5));
}

#[test]
fn frame_prologue_fires_once_when_armed() {
    let mut ledger = EmitLedger::new();
    assert!(ledger.take_frame_prologue(4).is_empty());
    ledger.arm_frame_prologue(4);
    assert_eq!(
        ledger.take_frame_prologue(4),
        vec![StubInst::Push(Gpr::Rbp), StubInst::MovReg(Gpr::Rbp, Gpr::Rsp)]
    );
    assert!(ledger.frame_prologue_emitted.contains_key(&4));
    assert!(ledger.take_frame_prologue(4).is_empty());
    ledger.arm_frame_prologue(0);
    assert!(ledger.take_frame_prologue(0).is_empty());
}

#[test]
fn interrupt_prologue_once_per_handler() {
    let mut ledger = EmitLedger::new();
    assert_eq!(ledger.begin_interrupt_prologue(9).len(), 14);
    assert!(ledger.begin_interrupt_prologue(9).is_empty());
    assert_eq!(ledger.begin_interrupt_prologue(10).len(), 14);
}

#[test]
fn pending_epilogues_skip_emitted_handlers() {
    let mut ledger = EmitLedger::new();
    let handlers = vec![(4, false), (9, true), (12, false)];
    ledger.interrupt_epilogue_emitted.insert(9, ());
    assert_eq!(ledger.take_pending_epilogues(&handlers), vec![(4, false), (12, false)]);
    assert!(ledger.take_pending_epilogues(&handlers).is_empty());
}

#[test]
fn reserved_emission_position_then_resume() {
    let mut ledger = EmitLedger::new();
    ledger.record_inst(1, 2, 1);
    ledger.record_inst(2, 2, 1);
    let resume = ledger.next_emission_order;
    ledger.set_next_emission_order(1);
    let order = ledger.record_inst(3, 2, 1);
    ledger.set_next_emission_order(resume);
    assert_eq!(order, 1);
    assert_eq!(ledger.next_emission_order, 2);
}

/// `let f = fn(x) -> x`: the body `mov rax, rdi` (node 10) of lambda 2 with
/// its armed frame-pointer prologue (nodes 11, 12), then the exit sequence.
fn identity_function() -> (EmitLedger, Vec<(u32, StubInst)>) {
    let lambda = 2;
    let mut ledger = EmitLedger::new();
    ledger.arm_frame_prologue(lambda);
    ledger.record_lambda_entry(lambda, 10);
    let body = StubInst::MovReg(Gpr::Rax, Gpr::Rdi);
    let prologue = ledger.emit_inst(10, lambda, 3, 11, 1, 12, 3);
    let mut insts: Vec<(u32, StubInst)> = Vec::new();
    if !prologue.is_empty() {
        insts.push((11, prologue[0]));
        insts.push((12, prologue[1]));
    }
    insts.push((10, body));
    let prologue_emitted = ledger.frame_prologue_emitted.contains_key(&lambda);
    for (k, inst) in ret_sequence(lambda, None, false, prologue_emitted, false).into_iter().enumerate() {
        let id = 13 + k as u32;
        ledger.record_inst(id, lambda, 1);
        insts.push((id, inst));
    }
    (ledger, insts)
}

#[test]
fn epilogue_leave_ret() {
    let (_ledger, insts) = identity_function();
    let n = insts.len();
    assert!(n >= 3);
    assert_eq!(insts[n - 3].1, StubInst::MovReg(Gpr::Rsp, Gpr::Rbp));
    assert_eq!(insts[n - 2].1, StubInst::Pop(Gpr::Rbp));
    assert_eq!(insts[n - 1].1, StubInst::Ret);
}

#[test]
fn lambda_first_instr_points_at_prologue() {
    let (ledger, insts) = identity_function();
    let first_instr_id = *ledger
        .lambda_first_instr
        .get(&2)
        .expect("lambda_first_instr must be recorded for the identity function");
    let first_inst = insts
        .iter()
        .find(|(id, _)| *id == first_instr_id)
        .map(|(_, inst)| *inst)
        .expect("the recorded first-instruction id must resolve to an actual instruction");
    assert_eq!(first_inst, StubInst::Push(Gpr::Rbp));
}

#[test]
fn emit_inst_without_armed_prologue_records_only_the_instruction() {
    let mut ledger = EmitLedger::new();
    let prologue = ledger.emit_inst(5, 1, 2, 6, 1, 7, 3);
    assert!(prologue.is_empty());
    assert_eq!(ledger.next_emission_order, 1);
    assert_eq!(ledger.instr_order.get(&5), Some(&0));
    assert!(ledger.instr_order.get(&6).is_none());
    assert_eq!(ledger.estimated_offset, 2);
}

#[test]
fn emit_inst_orders_prologue_before_instruction() {
    let mut ledger = EmitLedger::new();
    ledger.arm_frame_prologue(4);
    ledger.emit_inst(20, 4, 3, 21, 1, 22, 3);
    assert_eq!(ledger.instr_order.get(&21), Some(&0));
    assert_eq!(ledger.instr_order.get(&22), Some(&1));
    assert_eq!(ledger.instr_order.get(&20), Some(&2));
    assert_eq!(ledger.estimated_offset, 7);
    assert!(ledger.pending_frame_prologue.get(&4).is_none());
}

#[test]
fn stubs_recorded_in_order_owned_by_function() {
    let mut ledger = EmitLedger::new();
    ledger.record_inst(1, 9, 2);
    ledger.record_stubs(4, &vec![30, 31, 32], &vec![1, 3, 1]);
    assert_eq!(ledger.instr_order.get(&30), Some(&1));
    assert_eq!(ledger.instr_order.get(&31), Some(&2));
    assert_eq!(ledger.instr_order.get(&32), Some(&3));
    assert_eq!(ledger.instr_to_lambda.get(&31), Some(&4));
    assert_eq!(ledger.next_emission_order, 4);
    assert_eq!(ledger.estimated_offset, 7);
}

#[test]
fn interrupt_entry_pins_first_push_once() {
    let mut ledger = EmitLedger::new();
    let ids: Vec<u32> = (100..114).collect();
    let sizes = vec![1u64; 14];
    let stub = ledger.emit_interrupt_entry(6, &ids, &sizes);
    assert_eq!(stub.len(), 14);
    assert_eq!(stub[0], StubInst::Push(Gpr::Rax));
    assert_eq!(ledger.lambda_first_instr.get(&6), Some(&100));
    assert_eq!(ledger.instr_order.get(&113), Some(&13));
    let again = ledger.emit_interrupt_entry(6, &(200..214).collect(), &sizes);
    assert!(again.is_empty());
    assert!(ledger.instr_order.get(&200).is_none());
}

#[test]
fn interrupt_exit_recorded_after_entry() {
    let mut ledger = EmitLedger::new();
    let sizes = vec![1u64; 15];
    ledger.emit_interrupt_entry(6, &(100..114).collect(), &sizes[..14].to_vec());
    let stub = ledger.emit_interrupt_exit(6, true, &(300..315).collect(), &sizes);
    assert_eq!(stub.len(), 15);
    assert_eq!(stub[14], StubInst::Iretq);
    assert_eq!(ledger.instr_order.get(&300), Some(&14));
    assert_eq!(ledger.instr_to_lambda.get(&314), Some(&6));
}

#[test]
fn ret_after_body_tears_down_frame_and_returns() {
    let mut ledger = EmitLedger::new();
    ledger.arm_frame_prologue(5);
    ledger.emit_inst(40, 5, 3, 41, 1, 42, 3);
    let seq = ledger.emit_ret(5, Some(16), false, false, &vec![50, 51, 52, 53], &vec![4, 3, 1, 1], 60, 1, 61, 3);
    assert_eq!(
        seq,
        vec![
            StubInst::AddImm(Gpr::Rsp, 16),
            StubInst::MovReg(Gpr::Rsp, Gpr::Rbp),
            StubInst::Pop(Gpr::Rbp),
            StubInst::Ret,
        ]
    );
    assert_eq!(seq, ret_sequence(5, Some(16), false, true, false));
    assert_eq!(ledger.instr_order.get(&50), Some(&3));
    assert_eq!(ledger.instr_order.get(&53), Some(&6));
    assert_eq!(ledger.instr_to_lambda.get(&52), Some(&5));
    assert_eq!(ledger.next_emission_order, 7);
    assert_eq!(ledger.estimated_offset, 7 + 9);
    assert!(ledger.instr_order.get(&60).is_none());
}

#[test]
fn ret_of_empty_body_injects_prologue_first() {
    let mut ledger = EmitLedger::new();
    ledger.arm_frame_prologue(5);
    let seq = ledger.emit_ret(5, Some(8), false, false, &vec![50, 51, 52, 53], &vec![4, 3, 1, 1], 60, 1, 61, 3);
    assert_eq!(
        seq,
        vec![
            StubInst::Push(Gpr::Rbp),
            StubInst::MovReg(Gpr::Rbp, Gpr::Rsp),
            StubInst::AddImm(Gpr::Rsp, 8),
            StubInst::MovReg(Gpr::Rsp, Gpr::Rbp),
            StubInst::Pop(Gpr::Rbp),
            StubInst::Ret,
        ]
    );
    assert_eq!(ledger.lambda_first_instr.get(&5), Some(&60));
    assert_eq!(ledger.instr_order.get(&60), Some(&0));
    assert_eq!(ledger.instr_order.get(&53), Some(&5));
}

#[test]
fn ret_of_interrupt_handler_has_no_ret() {
    let mut ledger = EmitLedger::new();
    let seq = ledger.emit_ret(9, None, true, true, &vec![50, 51, 52, 53], &vec![4, 3, 1, 1], 60, 1, 61, 3);
    assert!(seq.is_empty());
    assert_eq!(ledger.next_emission_order, 0);
    let seq = ledger.emit_ret(9, None, true, false, &vec![50, 51, 52, 53], &vec![4, 3, 1, 1], 60, 1, 61, 3);
    assert_eq!(seq, vec![StubInst::Ret]);
    assert_eq!(ledger.instr_order.get(&53), Some(&0));
    assert!(ledger.instr_order.get(&50).is_none());
}

#[test]
fn pending_interrupt_exits_emitted_once_in_order() {
    let mut ledger = EmitLedger::new();
    let handlers = vec![(3u32, false), (4u32, true), (5u32, false)];
    let ids: Vec<Vec<u32>> = vec![(100..114).collect(), (200..215).collect(), (300..314).collect()];
    let sizes: Vec<Vec<u64>> = vec![vec![1; 14], vec![2; 15], vec![1; 14]];
    ledger.emit_interrupt_exit(4, true, &(900..915).collect(), &vec![1; 15]);
    ledger.take_pending_epilogues(&vec![(4, true)]);
    let done = ledger.emit_interrupt_epilogues(&handlers, &ids, &sizes);
    assert_eq!(done, vec![(3, false), (5, false)]);
    assert_eq!(ledger.instr_order.get(&100), Some(&15));
    assert_eq!(ledger.instr_order.get(&300), Some(&29));
    assert_eq!(ledger.instr_to_lambda.get(&313), Some(&5));
    assert!(ledger.instr_order.get(&200).is_none());
    assert!(ledger.interrupt_epilogue_emitted.contains_key(&3));
    assert!(ledger.interrupt_epilogue_emitted.contains_key(&5));
    let again = ledger.emit_interrupt_epilogues(&handlers, &ids, &sizes);
    assert!(again.is_empty());
    assert_eq!(ledger.next_emission_order, 43);
}
