use paideia_as_elaborator::env::{TypeEnv, TypeId};

#[test]
fn lookup_in_innermost_scope() {
    let mut env = TypeEnv::new();
    let sym = 42;
    let ty = TypeId::new(100).unwrap();

    env.bind(sym, ty);
    assert_eq!(env.lookup(sym), Some(ty));
}

#[test]
fn outer_scope_visible() {
    let mut env = TypeEnv::new();
    let sym_outer = 1;
    let sym_inner = 2;
    let ty_outer = TypeId::new(10).unwrap();
    let ty_inner = TypeId::new(20).unwrap();

    env.bind(sym_outer, ty_outer);
    env.enter_scope();
    env.bind(sym_inner, ty_inner);

    assert_eq!(env.lookup(sym_outer), Some(ty_outer));
    assert_eq!(env.lookup(sym_inner), Some(ty_inner));
}

#[test]
fn enter_leave_scope_stack() {
    let mut env = TypeEnv::new();
    assert_eq!(env.depth(), 1);

    env.enter_scope();
    assert_eq!(env.depth(), 2);

    env.enter_scope();
    assert_eq!(env.depth(), 3);

    env.leave_scope();
    assert_eq!(env.depth(), 2);

    env.leave_scope();
    assert_eq!(env.depth(), 1);
}

#[test]
fn bind_shadows_outer() {
    let mut env = TypeEnv::new();
    let sym = 5;
    let ty_outer = TypeId::new(50).unwrap();
    let ty_inner = TypeId::new(51).unwrap();

    env.bind(sym, ty_outer);
    assert_eq!(env.lookup(sym), Some(ty_outer));

    env.enter_scope();
    env.bind(sym, ty_inner);
    assert_eq!(env.lookup(sym), Some(ty_inner));

    env.leave_scope();
    assert_eq!(env.lookup(sym), Some(ty_outer));
}

#[test]
fn unbound_symbol_is_none() {
    let mut env = TypeEnv::new();
    assert_eq!(env.lookup(7), None);
    env.bind(8, TypeId::new(3).unwrap());
    assert_eq!(env.lookup(7), None);
}

#[test]
fn type_id_zero_is_reserved() {
    assert!(TypeId::new(0).is_none());
    assert_eq!(TypeId::new(9).unwrap().get(), 9);
}

#[test]
fn default_env_has_no_scope() {
    let env = TypeEnv::default();
    assert_eq!(env.depth(), 0);
    assert_eq!(env.lookup(1), None);
}

#[test]
fn rebinding_in_same_scope_replaces() {
    let mut env = TypeEnv::new();
    env.bind(4, TypeId::new(1).unwrap());
    env.bind(4, TypeId::new(2).unwrap());
    assert_eq!(env.lookup(4), Some(TypeId::new(2).unwrap()));
    assert_eq!(env.depth(), 1);
}

#[test]
fn leaving_scope_drops_its_bindings() {
    let mut env = TypeEnv::new();
    env.enter_scope();
    env.bind(11, TypeId::new(5).unwrap());
    env.leave_scope();
    assert_eq!(env.lookup(11), None);
}
