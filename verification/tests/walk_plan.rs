use paideia_as_elaborator::ir::{AtomicOrdering, CallingConvention, InterruptAttr, IrArena, IrKind, LetInfo};
use paideia_as_elaborator::walk_plan::{
    atomic_bindings, interrupt_lambdas, is_child_of_action, lambda_body_matches, let_plan,
    no_frame_lambdas, ownership_marks, pending_unsafe_plan, redundant_no_frame_lambdas, PendingStmt, unroutable_unsafe_stmts, unsafe_stmt,
    walk_step, SymbolKind, UnsafeStmt, WalkStep, B_REDUNDANT_NO_FRAME,
};

fn info(no_frame: bool, interrupt: Option<InterruptAttr>, atomic: Option<AtomicOrdering>) -> LetInfo {
    LetInfo { no_frame, interrupt, atomic, abi: None }
}

#[test]
fn no_frame_binding_marks_its_lambda() {
    let mut arena = IrArena::new();
    let body = arena.tree.add_node(IrKind::Unsafe, vec![]);
    let f = arena.tree.add_node(IrKind::Lambda, vec![body]);
    let let_f = arena.tree.add_node(IrKind::Let, vec![f]);
    let g = arena.tree.add_node(IrKind::Lambda, vec![]);
    let let_g = arena.tree.add_node(IrKind::Let, vec![g]);
    arena.let_meta.insert(let_f, info(true, None, None));
    arena.let_meta.insert(let_g, info(false, None, None));
    assert_eq!(no_frame_lambdas(&arena), vec![f]);
}

#[test]
fn interrupt_binding_marks_its_lambda() {
    let mut arena = IrArena::new();
    let body = arena.tree.add_node(IrKind::Unsafe, vec![]);
    let isr = arena.tree.add_node(IrKind::Lambda, vec![body]);
    let let_isr = arena.tree.add_node(IrKind::Let, vec![isr]);
    let attr = InterruptAttr { has_error_code: true, vector: 13, name: "general_protection".to_string() };
    arena.let_meta.insert(let_isr, info(true, Some(attr.clone()), None));
    assert_eq!(interrupt_lambdas(&arena), vec![(isr, attr)]);
}

#[test]
fn atomic_bindings_by_name() {
    let mut arena = IrArena::new();
    let lit = arena.tree.add_node(IrKind::Literal, vec![]);
    let let_c = arena.tree.add_node(IrKind::Let, vec![lit]);
    let lit2 = arena.tree.add_node(IrKind::Literal, vec![]);
    let let_d = arena.tree.add_node(IrKind::Let, vec![lit2]);
    arena.binding_names.insert(let_c, "counter".to_string());
    arena.let_meta.insert(let_c, info(false, None, Some(AtomicOrdering::SeqCst)));
    arena.let_meta.insert(let_d, info(false, None, Some(AtomicOrdering::Relaxed)));
    // `let_d` has no name: it records nothing.
    assert_eq!(atomic_bindings(&arena), vec![("counter".to_string(), AtomicOrdering::SeqCst)]);
}

#[test]
fn matches_in_lambda_bodies_are_owned_by_the_lambda() {
    let mut arena = IrArena::new();
    let scrut = arena.tree.add_node(IrKind::Var, vec![]);
    let m = arena.tree.add_node(IrKind::Match, vec![scrut]);
    let block = arena.tree.add_node(IrKind::Action, vec![m]);
    let f = arena.tree.add_node(IrKind::Lambda, vec![block]);
    let top_match = arena.tree.add_node(IrKind::Match, vec![]);
    let _let = arena.tree.add_node(IrKind::Let, vec![f, top_match]);
    assert_eq!(lambda_body_matches(&arena), vec![m]);
}

#[test]
fn ownership_of_let_values_and_lambda_bodies() {
    let mut arena = IrArena::new();
    let rec = arena.tree.add_node(IrKind::RecordCons, vec![]);
    let payload = arena.tree.add_node(IrKind::RecordCons, vec![]);
    let ec = arena.tree.add_node(IrKind::EnumCons, vec![payload]);
    let name = arena.tree.add_node(IrKind::Var, vec![]);
    let let_rec = arena.tree.add_node(IrKind::Let, vec![rec]);
    let let_ec = arena.tree.add_node(IrKind::Let, vec![name, ec]);
    arena.data_lets.insert(let_ec, ());
    let v = arena.tree.add_node(IrKind::Var, vec![]);
    let st = arena.tree.add_node(IrKind::Store, vec![v]);
    let f = arena.tree.add_node(IrKind::Lambda, vec![st]);

    let marks = ownership_marks(&arena);
    assert_eq!(marks.data_lets, vec![let_ec]);
    assert_eq!(marks.record_cons, vec![rec, payload]);
    assert_eq!(marks.enum_cons, vec![ec]);
    assert_eq!(marks.stores, vec![st]);
    assert!(marks.field_access.is_empty());
    let _ = (let_rec, f);
}

#[test]
fn ownership_of_module_field_callee_and_enum_arguments() {
    let mut arena = IrArena::new();
    let recv = arena.tree.add_node(IrKind::Var, vec![]);
    let callee = arena.tree.add_node(IrKind::FieldAccess, vec![recv]);
    let arg = arena.tree.add_node(IrKind::EnumCons, vec![]);
    let other = arena.tree.add_node(IrKind::Literal, vec![]);
    let app = arena.tree.add_node(IrKind::App, vec![callee, arg, other]);
    let _f = arena.tree.add_node(IrKind::Lambda, vec![app]);
    let p = arena.tree.add_node(IrKind::Var, vec![]);
    let deref = arena.tree.add_node(IrKind::Deref, vec![p]);
    let fa = arena.tree.add_node(IrKind::FieldAccess, vec![deref]);
    let val = arena.tree.add_node(IrKind::Literal, vec![]);
    let _store = arena.tree.add_node(IrKind::Store, vec![fa, val]);

    let marks = ownership_marks(&arena);
    assert_eq!(marks.field_access, vec![callee, fa]);
    assert_eq!(marks.enum_cons, vec![arg]);
}

#[test]
fn walk_steps_by_kind() {
    let mut arena = IrArena::new();
    let lit = arena.tree.add_node(IrKind::Literal, vec![]);
    let let_x = arena.tree.add_node(IrKind::Let, vec![lit]);
    let f = arena.tree.add_node(IrKind::Lambda, vec![]);
    let u = arena.tree.add_node(IrKind::Unsafe, vec![]);
    let fa = arena.tree.add_node(IrKind::FieldAccess, vec![]);
    let m = arena.tree.add_node(IrKind::Match, vec![]);
    let stmt_let = arena.tree.add_node(IrKind::Let, vec![lit]);
    arena.stmt_lets.insert(stmt_let, ());

    assert_eq!(walk_step(&arena, let_x, false), WalkStep::Binding);
    assert_eq!(walk_step(&arena, stmt_let, false), WalkStep::Skip);
    assert_eq!(walk_step(&arena, f, false), WalkStep::Lambda);
    assert_eq!(walk_step(&arena, u, false), WalkStep::QueueUnsafe);
    assert_eq!(walk_step(&arena, fa, false), WalkStep::FieldAccess);
    assert_eq!(walk_step(&arena, fa, true), WalkStep::Skip);
    assert_eq!(walk_step(&arena, m, false), WalkStep::Match);
    assert_eq!(walk_step(&arena, m, true), WalkStep::Skip);
    assert_eq!(walk_step(&arena, lit, false), WalkStep::Skip);
    assert_eq!(walk_step(&arena, 99, false), WalkStep::Skip);
}

#[test]
fn store_steps_by_target() {
    let mut arena = IrArena::new();
    let p = arena.tree.add_node(IrKind::Var, vec![]);
    let fa = arena.tree.add_node(IrKind::FieldAccess, vec![p]);
    let s1 = arena.tree.add_node(IrKind::Store, vec![fa]);
    let x = arena.tree.add_node(IrKind::Var, vec![]);
    let s2 = arena.tree.add_node(IrKind::Store, vec![x]);
    let idx = arena.tree.add_node(IrKind::Other, vec![]);
    let s3 = arena.tree.add_node(IrKind::Store, vec![idx]);
    let y = arena.tree.add_node(IrKind::Var, vec![]);
    let s4 = arena.tree.add_node(IrKind::Store, vec![y]);
    let _block = arena.tree.add_node(IrKind::Action, vec![s4]);

    assert_eq!(walk_step(&arena, s1, false), WalkStep::FieldAssign);
    assert_eq!(walk_step(&arena, s2, false), WalkStep::VarAssign);
    assert_eq!(walk_step(&arena, s3, false), WalkStep::IndexStore);
    assert_eq!(walk_step(&arena, s2, true), WalkStep::Skip);
    assert!(is_child_of_action(&arena, s4));
    assert!(!is_child_of_action(&arena, s3));
    assert_eq!(walk_step(&arena, s4, false), WalkStep::Skip);
}

#[test]
fn let_plan_for_function_and_object() {
    let mut arena = IrArena::new();
    let body = arena.tree.add_node(IrKind::Var, vec![]);
    let f = arena.tree.add_node(IrKind::Lambda, vec![body]);
    let let_f = arena.tree.add_node(IrKind::Let, vec![f]);
    let lit = arena.tree.add_node(IrKind::Literal, vec![]);
    let let_x = arena.tree.add_node(IrKind::Let, vec![lit]);
    arena.binding_names.insert(let_f, "main".to_string());
    arena.public_lets.insert(let_f, ());
    arena.let_meta.insert(let_f, info(true, None, None));
    arena.literal_nodes.insert(lit, ());

    let pf = let_plan(&arena, let_f, false).unwrap();
    assert_eq!(pf.symbol_name, "main");
    assert_eq!(pf.symbol_kind, SymbolKind::Function);
    assert_eq!(pf.symbol_node, f);
    assert!(pf.global);
    assert!(pf.lambda_no_frame);
    assert!(!pf.emit_literal);

    let px = let_plan(&arena, let_x, false).unwrap();
    assert_eq!(px.symbol_name, format!("_let_{}", let_x));
    assert_eq!(px.symbol_kind, SymbolKind::Object);
    assert_eq!(px.symbol_node, let_x);
    assert!(!px.global);
    assert!(px.emit_literal);
    assert!(!let_plan(&arena, let_x, true).unwrap().emit_literal);
}

#[test]
fn unsafe_statement_treatment() {
    assert_eq!(unsafe_stmt(IrKind::RawInstruction), UnsafeStmt::Skip);
    assert_eq!(unsafe_stmt(IrKind::Placeholder), UnsafeStmt::Skip);
    assert_eq!(unsafe_stmt(IrKind::Var), UnsafeStmt::Skip);
    assert_eq!(unsafe_stmt(IrKind::Literal), UnsafeStmt::Skip);
    assert_eq!(unsafe_stmt(IrKind::Label), UnsafeStmt::Skip);
    assert_eq!(unsafe_stmt(IrKind::Action), UnsafeStmt::Action);
    assert_eq!(unsafe_stmt(IrKind::Let), UnsafeStmt::Unroutable);
    assert_eq!(unsafe_stmt(IrKind::While), UnsafeStmt::Unroutable);
}

/// Whether the ownership pre-pass leaves `id` to another lowering path.
fn owned(list: &[u32], id: u32) -> bool {
    list.contains(&id)
}

#[test]
fn pre_pass_marks_let_record_cons_rhs() {
    let mut arena = IrArena::new();
    let record_cons_id = arena.tree.add_node(IrKind::RecordCons, vec![]);
    let _let_id = arena.tree.add_node(IrKind::Let, vec![record_cons_id]);
    let marks = ownership_marks(&arena);
    assert!(owned(&marks.record_cons, record_cons_id), "RecordCons should be marked as handled by pre-pass");
}

#[test]
fn guard_skips_record_cons_when_marked() {
    let mut arena = IrArena::new();
    let record_cons_id = arena.tree.add_node(IrKind::RecordCons, vec![]);
    let _let_id = arena.tree.add_node(IrKind::Let, vec![record_cons_id]);
    let marks = ownership_marks(&arena);
    let step = walk_step(&arena, record_cons_id, owned(&marks.record_cons, record_cons_id));
    assert_eq!(step, WalkStep::Skip, "guard should keep the flat walk off the record constructor");
}

#[test]
fn pre_pass_marks_lambda_field_access_body() {
    let mut arena = IrArena::new();
    let var_id = arena.tree.add_node(IrKind::Var, vec![]);
    let field_access_id = arena.tree.add_node(IrKind::FieldAccess, vec![var_id]);
    let _lambda_id = arena.tree.add_node(IrKind::Lambda, vec![field_access_id]);
    let marks = ownership_marks(&arena);
    assert!(owned(&marks.field_access, field_access_id), "FieldAccess in Lambda body should be marked");
}

#[test]
fn guard_skips_field_access_when_marked() {
    let mut arena = IrArena::new();
    let var_id = arena.tree.add_node(IrKind::Var, vec![]);
    let field_access_id = arena.tree.add_node(IrKind::FieldAccess, vec![var_id]);
    let _lambda_id = arena.tree.add_node(IrKind::Lambda, vec![field_access_id]);
    let marks = ownership_marks(&arena);
    let step = walk_step(&arena, field_access_id, owned(&marks.field_access, field_access_id));
    assert_eq!(step, WalkStep::Skip, "guard should keep the flat walk off the field access");
}

#[test]
fn pre_pass_marks_lambda_app_callee_field_access() {
    let mut arena = IrArena::new();
    let var_id = arena.tree.add_node(IrKind::Var, vec![]);
    let field_access_id = arena.tree.add_node(IrKind::FieldAccess, vec![var_id]);
    let arg_id = arena.tree.add_node(IrKind::Literal, vec![]);
    let app_id = arena.tree.add_node(IrKind::App, vec![field_access_id, arg_id]);
    let _lambda_id = arena.tree.add_node(IrKind::Lambda, vec![app_id]);
    let marks = ownership_marks(&arena);
    assert!(owned(&marks.field_access, field_access_id), "FieldAccess in Lambda → App should be marked");
}

#[test]
fn pre_pass_leaves_store_field_access_unmarked() {
    let mut arena = IrArena::new();
    let receiver_id = arena.tree.add_node(IrKind::Var, vec![]);
    let field_access_id = arena.tree.add_node(IrKind::FieldAccess, vec![receiver_id]);
    let other_var_id = arena.tree.add_node(IrKind::Var, vec![]);
    let store_id = arena.tree.add_node(IrKind::Store, vec![field_access_id, other_var_id, receiver_id]);
    let marks = ownership_marks(&arena);
    // The pre-pass does not claim this field access; the store's own
    // field-assignment lowering handles it.
    assert!(!owned(&marks.field_access, field_access_id));
    assert_eq!(walk_step(&arena, store_id, false), WalkStep::FieldAssign);
}

#[test]
fn pre_pass_skips_lambda_field_access_when_receiver_is_not_var() {
    let mut arena = IrArena::new();
    let ptr_var_id = arena.tree.add_node(IrKind::Var, vec![]);
    let deref_id = arena.tree.add_node(IrKind::Deref, vec![ptr_var_id]);
    let field_access_id = arena.tree.add_node(IrKind::FieldAccess, vec![deref_id]);
    let _lambda_id = arena.tree.add_node(IrKind::Lambda, vec![field_access_id]);
    let marks = ownership_marks(&arena);
    assert!(
        !owned(&marks.field_access, field_access_id),
        "FieldAccess with Deref receiver must NOT be marked — the field-access lowering owns it"
    );
    assert_eq!(walk_step(&arena, field_access_id, false), WalkStep::FieldAccess);
}

#[test]
fn let_plan_carries_calling_convention() {
    let mut arena = IrArena::new();
    let body = arena.tree.add_node(IrKind::Var, vec![]);
    let f = arena.tree.add_node(IrKind::Lambda, vec![body]);
    let let_f = arena.tree.add_node(IrKind::Let, vec![f]);
    let lit = arena.tree.add_node(IrKind::Literal, vec![]);
    let let_x = arena.tree.add_node(IrKind::Let, vec![lit]);
    arena.let_meta.insert(let_f, LetInfo { no_frame: false, interrupt: None, atomic: None, abi: Some(CallingConvention::Ms) });
    arena.let_meta.insert(let_x, LetInfo { no_frame: false, interrupt: None, atomic: None, abi: Some(CallingConvention::Sysv) });
    let pf = let_plan(&arena, let_f, false).unwrap();
    assert_eq!(pf.abi, Some(CallingConvention::Ms));
    assert_eq!(pf.lambda_abi, Some(CallingConvention::Ms));
    let px = let_plan(&arena, let_x, false).unwrap();
    assert_eq!(px.abi, Some(CallingConvention::Sysv));
    assert_eq!(px.lambda_abi, None);
}

/// `let f = fn(x) -> unsafe {}` with the given `@no_frame` and interrupt
/// markers.
fn unsafe_bodied(no_frame: bool, interrupt: Option<InterruptAttr>) -> (IrArena, u32) {
    let mut arena = IrArena::new();
    let unsafe_body = arena.tree.add_node(IrKind::Unsafe, vec![]);
    let lambda_id = arena.tree.add_node(IrKind::Lambda, vec![unsafe_body]);
    let let_id = arena.tree.add_node(IrKind::Let, vec![lambda_id]);
    arena.binding_names.insert(let_id, "f".to_string());
    arena.let_meta.insert(let_id, info(no_frame, interrupt, None));
    (arena, lambda_id)
}

#[test]
fn no_frame_on_unsafe_body_emits_b1707() {
    let (arena, lambda_id) = unsafe_bodied(true, None);
    assert_eq!(redundant_no_frame_lambdas(&arena), vec![lambda_id]);
    assert_eq!(B_REDUNDANT_NO_FRAME, 1707);
}

#[test]
fn no_frame_absent_on_unsafe_body_emits_no_b1707() {
    let (arena, _lambda_id) = unsafe_bodied(false, None);
    assert!(redundant_no_frame_lambdas(&arena).is_empty());
}

#[test]
fn interrupt_no_b1707_on_implicit_no_frame() {
    let attr = InterruptAttr { has_error_code: false, vector: 0x20, name: "test_vec".to_string() };
    let (arena, _lambda_id) = unsafe_bodied(true, Some(attr));
    assert!(redundant_no_frame_lambdas(&arena).is_empty());
}

#[test]
fn no_frame_on_ordinary_body_is_not_redundant() {
    let mut arena = IrArena::new();
    let x = arena.tree.add_node(IrKind::Var, vec![]);
    let f = arena.tree.add_node(IrKind::Lambda, vec![x]);
    let let_f = arena.tree.add_node(IrKind::Let, vec![f]);
    arena.let_meta.insert(let_f, info(true, None, None));
    assert!(redundant_no_frame_lambdas(&arena).is_empty());
}

#[test]
fn unroutable_statements_of_unsafe_block() {
    let mut arena = IrArena::new();
    let raw = arena.tree.add_node(IrKind::RawInstruction, vec![]);
    let stmt = arena.tree.add_node(IrKind::Action, vec![]);
    let inner_let = arena.tree.add_node(IrKind::Let, vec![]);
    let lp = arena.tree.add_node(IrKind::Loop, vec![]);
    let block = arena.tree.add_node(IrKind::Unsafe, vec![raw, stmt, inner_let, lp]);
    assert_eq!(unroutable_unsafe_stmts(&arena, block), vec![inner_let, lp]);
}

#[test]
fn pending_unsafe_blocks_planned_in_queue_order() {
    let mut arena = IrArena::new();
    let raw = arena.tree.add_node(IrKind::RawInstruction, vec![]);
    let act = arena.tree.add_node(IrKind::Action, vec![]);
    let first = arena.tree.add_node(IrKind::Unsafe, vec![raw, act]);
    let lp = arena.tree.add_node(IrKind::Loop, vec![]);
    let second = arena.tree.add_node(IrKind::Unsafe, vec![lp]);
    let mut owners = std::collections::HashMap::new();
    owners.insert(second, 200u32);
    let (current, plan) = pending_unsafe_plan(&arena, &vec![second, 0, first], &owners, 7);
    assert_eq!(current, 200);
    assert_eq!(
        plan,
        vec![
            PendingStmt { block: second, function: 200, stmt: lp, action: UnsafeStmt::Unroutable },
            PendingStmt { block: first, function: 200, stmt: raw, action: UnsafeStmt::Skip },
            PendingStmt { block: first, function: 200, stmt: act, action: UnsafeStmt::Action },
        ]
    );
    let (current, plan) = pending_unsafe_plan(&arena, &vec![first], &owners, 7);
    assert_eq!(current, 7);
    assert_eq!(plan[1].function, 7);
}

#[test]
fn block_plan_reports_the_unroutable_statements() {
    let mut arena = IrArena::new();
    let lt = arena.tree.add_node(IrKind::Let, vec![]);
    let act = arena.tree.add_node(IrKind::Action, vec![]);
    let lp = arena.tree.add_node(IrKind::Loop, vec![]);
    let block = arena.tree.add_node(IrKind::Unsafe, vec![lt, act, lp]);
    let (_, plan) = pending_unsafe_plan(&arena, &vec![block], &std::collections::HashMap::new(), 3);
    let reported: Vec<u32> =
        plan.iter().filter(|p| p.action == UnsafeStmt::Unroutable).map(|p| p.stmt).collect();
    assert_eq!(reported, unroutable_unsafe_stmts(&arena, block));
    assert_eq!(reported, vec![lt, lp]);
}
