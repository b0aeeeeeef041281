//! Decisions of the emit walk: the pre-passes that record per-function
//! attributes and which lowering path owns which node, and the per-node
//! choice of what the flat walk does.

use std::collections::HashMap;
use vstd::prelude::*;

use crate::hygiene::{decimal, push_decimal};
use crate::ir::{
    children_of, has_kind, of_kind, valid_id, visible, visible_nodes, AtomicOrdering, CallingConvention, InterruptAttr,
    IrArena, IrKind, IrNodeView, LetInfo,
};

verus! {

broadcast use vstd::std_specs::hash::group_hash_axioms;

/// The first child of `id`, if any.
pub open spec fn first_child_of(t: Seq<IrNodeView>, id: int) -> Option<u32> {
    if children_of(t, id).len() > 0 {
        Some(children_of(t, id)[0])
    } else {
        None
    }
}

/// Whether `id` exists, has a first child, and that child has kind `k`.
pub open spec fn first_child_is(t: Seq<IrNodeView>, id: int, k: IrKind) -> bool {
    first_child_of(t, id) is Some && has_kind(t, first_child_of(t, id)->0 as int, k)
}

// ---------------------------------------------------------------------------
// Per-function attributes from `let` metadata.

/// The lambda bound by `let` node `id` when the binding is `@no_frame`.
pub open spec fn no_frame_lambda(t: Seq<IrNodeView>, meta: Map<u32, LetInfo>, id: u32) -> Option<u32> {
    if has_kind(t, id as int, IrKind::Let) && meta.contains_key(id) && meta[id].no_frame
        && first_child_is(t, id as int, IrKind::Lambda) {
        first_child_of(t, id as int)
    } else {
        None
    }
}

/// The lambdas of nodes `1..=n` bound `@no_frame`, in id order.
pub open spec fn no_frame_upto(t: Seq<IrNodeView>, meta: Map<u32, LetInfo>, n: nat) -> Seq<u32>
    decreases n,
{
    if n == 0 {
        Seq::empty()
    } else {
        let prev = no_frame_upto(t, meta, (n - 1) as nat);
        match no_frame_lambda(t, meta, n as u32) {
            Some(l) => prev.push(l),
            None => prev,
        }
    }
}

/// The lambdas bound `@no_frame` (they get no frame-pointer prologue or
/// epilogue), in id order of their bindings.
pub fn no_frame_lambdas(arena: &IrArena) -> (r: Vec<u32>)
    ensures
        r@ == no_frame_upto(arena.tree@, arena.let_meta@, arena.tree@.len()),
{
    let t = &arena.tree;
    let n = t.len();
    let mut out: Vec<u32> = Vec::new();
    let mut i: u32 = 0;
    while i < n
        invariant
            t == &arena.tree,
            n == t@.len(),
            i <= n,
            out@ == no_frame_upto(t@, arena.let_meta@, i as nat),
        decreases n - i,
    {
        i = i + 1;
        if t.is_kind(i, IrKind::Let) {
            if let Some(info) = arena.let_meta.get(&i) {
                if info.no_frame {
                    if let Some(rhs) = t.first_child(i) {
                        if t.is_kind(rhs, IrKind::Lambda) {
                            out.push(rhs);
                        }
                    }
                }
            }
        }
    }
    out
}

/// The lambda bound by `let` node `id` with its interrupt-handler marker.
pub open spec fn interrupt_lambda(t: Seq<IrNodeView>, meta: Map<u32, LetInfo>, id: u32) -> Option<
    (u32, InterruptAttr),
> {
    if has_kind(t, id as int, IrKind::Let) && meta.contains_key(id) && meta[id].interrupt is Some
        && first_child_is(t, id as int, IrKind::Lambda) {
        Some((first_child_of(t, id as int)->0, meta[id].interrupt->0))
    } else {
        None
    }
}

/// The interrupt-handler lambdas of nodes `1..=n`, in id order.
pub open spec fn interrupt_upto(t: Seq<IrNodeView>, meta: Map<u32, LetInfo>, n: nat) -> Seq<
    (u32, InterruptAttr),
>
    decreases n,
{
    if n == 0 {
        Seq::empty()
    } else {
        let prev = interrupt_upto(t, meta, (n - 1) as nat);
        match interrupt_lambda(t, meta, n as u32) {
            Some(e) => prev.push(e),
            None => prev,
        }
    }
}

/// The lambdas bound as interrupt handlers, with their markers, in id order
/// of their bindings.
pub fn interrupt_lambdas(arena: &IrArena) -> (r: Vec<(u32, InterruptAttr)>)
    ensures
        r@ == interrupt_upto(arena.tree@, arena.let_meta@, arena.tree@.len()),
{
    let t = &arena.tree;
    let n = t.len();
    let mut out: Vec<(u32, InterruptAttr)> = Vec::new();
    let mut i: u32 = 0;
    while i < n
        invariant
            t == &arena.tree,
            n == t@.len(),
            i <= n,
            out@ == interrupt_upto(t@, arena.let_meta@, i as nat),
        decreases n - i,
    {
        i = i + 1;
        if t.is_kind(i, IrKind::Let) {
            if let Some(info) = arena.let_meta.get(&i) {
                match &info.interrupt {
                    Some(attr) => {
                        if let Some(rhs) = t.first_child(i) {
                            if t.is_kind(rhs, IrKind::Lambda) {
                                let attr_copy = InterruptAttr {
                                    has_error_code: attr.has_error_code,
                                    vector: attr.vector,
                                    name: attr.name.clone(),
                                };
                                assert(attr_copy == *attr);
                                out.push((rhs, attr_copy));
                            }
                        }
                    },
                    None => {},
                }
            }
        }
    }
    out
}

/// The binding name and ordering of `let` node `id` when it is atomic and
/// named.
pub open spec fn atomic_binding(
    t: Seq<IrNodeView>,
    meta: Map<u32, LetInfo>,
    names: Map<u32, String>,
    id: u32,
) -> Option<(Seq<char>, AtomicOrdering)> {
    if has_kind(t, id as int, IrKind::Let) && meta.contains_key(id) && meta[id].atomic is Some
        && names.contains_key(id) {
        Some((names[id]@, meta[id].atomic->0))
    } else {
        None
    }
}

/// The atomic bindings of nodes `1..=n`, in id order.
pub open spec fn atomic_upto(
    t: Seq<IrNodeView>,
    meta: Map<u32, LetInfo>,
    names: Map<u32, String>,
    n: nat,
) -> Seq<(Seq<char>, AtomicOrdering)>
    decreases n,
{
    if n == 0 {
        Seq::empty()
    } else {
        let prev = atomic_upto(t, meta, names, (n - 1) as nat);
        match atomic_binding(t, meta, names, n as u32) {
            Some(e) => prev.push(e),
            None => prev,
        }
    }
}

/// Views of (name, ordering) pairs.
pub open spec fn atomic_views(v: Seq<(String, AtomicOrdering)>) -> Seq<(Seq<char>, AtomicOrdering)> {
    v.map_values(|e: (String, AtomicOrdering)| (e.0@, e.1))
}

/// The atomic bindings, name and ordering, in id order of their `let`s (a
/// later binding of a name overrides an earlier one).  Memory accesses to
/// a `SeqCst` binding are bracketed by fences.
pub fn atomic_bindings(arena: &IrArena) -> (r: Vec<(String, AtomicOrdering)>)
    ensures
        atomic_views(r@) == atomic_upto(
            arena.tree@,
            arena.let_meta@,
            arena.binding_names@,
            arena.tree@.len(),
        ),
{
    let t = &arena.tree;
    let n = t.len();
    let mut out: Vec<(String, AtomicOrdering)> = Vec::new();
    let mut i: u32 = 0;
    while i < n
        invariant
            t == &arena.tree,
            n == t@.len(),
            i <= n,
            atomic_views(out@) == atomic_upto(t@, arena.let_meta@, arena.binding_names@, i as nat),
        decreases n - i,
    {
        i = i + 1;
        let ghost prev = out@;
        if t.is_kind(i, IrKind::Let) {
            if let Some(info) = arena.let_meta.get(&i) {
                if let Some(ord) = info.atomic {
                    if let Some(name) = arena.binding_names.get(&i) {
                        out.push((name.clone(), ord));
                        assert(atomic_views(out@) =~= atomic_views(prev).push((name@, ord)));
                    }
                }
            }
        }
        assert(atomic_views(out@) =~= atomic_upto(t@, arena.let_meta@, arena.binding_names@, i as nat));
    }
    out
}

// ---------------------------------------------------------------------------
// Match ownership.

/// The `match` nodes inside the body of lambda `id` (not entering nested
/// functions or `unsafe` blocks).
pub open spec fn lambda_matches(t: Seq<IrNodeView>, id: u32) -> Seq<u32> {
    if has_kind(t, id as int, IrKind::Lambda) && first_child_of(t, id as int) is Some {
        of_kind(t, visible(t, first_child_of(t, id as int)->0 as int), IrKind::Match)
    } else {
        Seq::empty()
    }
}

/// The `match` nodes of lambda bodies `1..=n`, in order.
pub open spec fn matches_upto(t: Seq<IrNodeView>, n: nat) -> Seq<u32>
    decreases n,
{
    if n == 0 {
        Seq::empty()
    } else {
        matches_upto(t, (n - 1) as nat) + lambda_matches(t, n as u32)
    }
}

/// Every `match` reachable in some lambda body: those are lowered by the
/// lambda's body emission and must not be lowered again by the flat walk.
pub fn lambda_body_matches(arena: &IrArena) -> (r: Vec<u32>)
    ensures
        r@ == matches_upto(arena.tree@, arena.tree@.len()),
{
    let t = &arena.tree;
    let n = t.len();
    let mut out: Vec<u32> = Vec::new();
    let mut i: u32 = 0;
    while i < n
        invariant
            t == &arena.tree,
            n == t@.len(),
            i <= n,
            out@ == matches_upto(t@, i as nat),
        decreases n - i,
    {
        i = i + 1;
        let ghost prev = out@;
        if t.is_kind(i, IrKind::Lambda) {
            if let Some(body) = t.first_child(i) {
                let vis = visible_nodes(t, body);
                let ms = crate::ir::filter_kind(t, &vis, IrKind::Match);
                let mut k: usize = 0;
                while k < ms.len()
                    invariant
                        k <= ms@.len(),
                        out@ == prev + ms@.subrange(0, k as int),
                    decreases ms@.len() - k,
                {
                    out.push(ms[k]);
                    assert(ms@.subrange(0, k + 1) =~= ms@.subrange(0, k as int).push(ms@[k as int]));
                    k = k + 1;
                }
                assert(ms@.subrange(0, ms@.len() as int) =~= ms@);
            }
        }
        assert(out@ =~= matches_upto(t@, i as nat));
    }
    out
}

// ---------------------------------------------------------------------------
// Ownership marks: nodes lowered by a path other than the flat walk.

/// Lists of nodes, by the lowering path that owns them.
pub ghost struct MarkLists {
    /// `let`s whose value is in the data table.
    pub data_lets: Seq<u32>,
    /// Record constructors lowered by the data encoder.
    pub record_cons: Seq<u32>,
    /// Field accesses lowered by their enclosing construct.
    pub field_access: Seq<u32>,
    /// Enum constructors lowered by their enclosing construct.
    pub enum_cons: Seq<u32>,
    /// Stores lowered by their lambda.
    pub stores: Seq<u32>,
}

/// Concatenation of mark lists.
pub open spec fn join_marks(a: MarkLists, b: MarkLists) -> MarkLists {
    MarkLists {
        data_lets: a.data_lets + b.data_lets,
        record_cons: a.record_cons + b.record_cons,
        field_access: a.field_access + b.field_access,
        enum_cons: a.enum_cons + b.enum_cons,
        stores: a.stores + b.stores,
    }
}

/// No marks.
pub open spec fn no_marks() -> MarkLists {
    MarkLists {
        data_lets: Seq::empty(),
        record_cons: Seq::empty(),
        field_access: Seq::empty(),
        enum_cons: Seq::empty(),
        stores: Seq::empty(),
    }
}

/// `[x]` when `b`, else empty.
pub open spec fn when(b: bool, x: u32) -> Seq<u32> {
    if b {
        seq![x]
    } else {
        Seq::empty()
    }
}

/// Marks of a `let` node: its own data-table entry, and the right-hand side
/// (second child in statement form, else the only child) when a record or
/// enum constructor or a field access owns it; a record payload of an enum
/// constructor in the data table belongs to the data encoder too.
pub open spec fn let_marks(t: Seq<IrNodeView>, data: Map<u32, ()>, id: u32) -> MarkLists {
    let is_data = data.contains_key(id);
    let cs = children_of(t, id as int);
    let rhs_idx = if cs.len() > 1 {
        1int
    } else {
        0int
    };
    let rhs_ok = rhs_idx < cs.len() && valid_id(t, cs[rhs_idx] as int);
    let rhs = if rhs_ok {
        cs[rhs_idx]
    } else {
        0
    };
    let payload_rc = rhs_ok && has_kind(t, rhs as int, IrKind::EnumCons) && is_data && first_child_is(
        t,
        rhs as int,
        IrKind::RecordCons,
    );
    MarkLists {
        data_lets: when(is_data, id),
        record_cons: when(rhs_ok && has_kind(t, rhs as int, IrKind::RecordCons), rhs) + when(
            payload_rc,
            if payload_rc {
                first_child_of(t, rhs as int)->0
            } else {
                0
            },
        ),
        field_access: when(rhs_ok && has_kind(t, rhs as int, IrKind::FieldAccess), rhs),
        enum_cons: when(rhs_ok && has_kind(t, rhs as int, IrKind::EnumCons), rhs),
        stores: Seq::empty(),
    }
}

/// The arguments (children after the first) of `app` that are enum
/// constructors.
pub open spec fn enum_cons_args(t: Seq<IrNodeView>, app: u32) -> Seq<u32> {
    let cs = children_of(t, app as int);
    if cs.len() > 0 {
        of_kind(t, cs.drop_first(), IrKind::EnumCons)
    } else {
        Seq::empty()
    }
}

/// Marks of a lambda: its body when the lambda's own emission lowers it (a
/// field access of a variable, a store to a variable, an enum constructor),
/// a module-symbol callee of an application body, and the enum-constructor
/// arguments of such an application.
pub open spec fn lambda_marks(t: Seq<IrNodeView>, id: u32) -> MarkLists {
    let body = first_child_of(t, id as int);
    if body is None || !valid_id(t, body->0 as int) {
        no_marks()
    } else {
        let b = body->0;
        let callee = first_child_of(t, b as int);
        let is_app = has_kind(t, b as int, IrKind::App);
        let callee_fa = is_app && callee is Some && has_kind(t, callee->0 as int, IrKind::FieldAccess)
            && first_child_is(t, callee->0 as int, IrKind::Var);
        MarkLists {
            data_lets: Seq::empty(),
            record_cons: Seq::empty(),
            field_access: when(
                has_kind(t, b as int, IrKind::FieldAccess) && first_child_is(t, b as int, IrKind::Var),
                b,
            ) + when(
                callee_fa,
                if callee_fa {
                    callee->0
                } else {
                    0
                },
            ),
            enum_cons: (if is_app {
                enum_cons_args(t, b)
            } else {
                Seq::empty()
            }) + when(has_kind(t, b as int, IrKind::EnumCons), b),
            stores: when(has_kind(t, b as int, IrKind::Store) && first_child_is(t, b as int, IrKind::Var), b),
        }
    }
}

/// Marks of a store whose target is a field access through a dereference or
/// a module name: the field assignment lowering owns that field access.
pub open spec fn store_marks(t: Seq<IrNodeView>, module_refs: Map<u32, ()>, id: u32) -> MarkLists {
    let fa = first_child_of(t, id as int);
    let owned = fa is Some && has_kind(t, fa->0 as int, IrKind::FieldAccess) && (first_child_is(
        t,
        fa->0 as int,
        IrKind::Deref,
    ) || module_refs.contains_key(fa->0));
    MarkLists {
        field_access: when(
            owned,
            if owned {
                fa->0
            } else {
                0
            },
        ),
        ..no_marks()
    }
}

/// Marks contributed by node `id`.
pub open spec fn node_marks(t: Seq<IrNodeView>, data: Map<u32, ()>, module_refs: Map<u32, ()>, id: u32) -> MarkLists {
    if has_kind(t, id as int, IrKind::Let) {
        let_marks(t, data, id)
    } else if has_kind(t, id as int, IrKind::Lambda) {
        lambda_marks(t, id)
    } else if has_kind(t, id as int, IrKind::Store) {
        store_marks(t, module_refs, id)
    } else {
        no_marks()
    }
}

/// Marks of nodes `1..=n`, in id order.
pub open spec fn marks_upto(t: Seq<IrNodeView>, data: Map<u32, ()>, module_refs: Map<u32, ()>, n: nat) -> MarkLists
    decreases n,
{
    if n == 0 {
        no_marks()
    } else {
        join_marks(marks_upto(t, data, module_refs, (n - 1) as nat), node_marks(t, data, module_refs, n as u32))
    }
}

/// Node lists by owning lowering path (see [`MarkLists`]).
#[derive(Debug)]
pub struct OwnershipMarks {
    pub data_lets: Vec<u32>,
    pub record_cons: Vec<u32>,
    pub field_access: Vec<u32>,
    pub enum_cons: Vec<u32>,
    pub stores: Vec<u32>,
}

impl View for OwnershipMarks {
    type V = MarkLists;

    open spec fn view(&self) -> MarkLists {
        MarkLists {
            data_lets: self.data_lets@,
            record_cons: self.record_cons@,
            field_access: self.field_access@,
            enum_cons: self.enum_cons@,
            stores: self.stores@,
        }
    }
}

/// Append the enum-constructor arguments of application `app` to `out`.
fn push_enum_cons_args(arena: &IrArena, app: u32, out: &mut Vec<u32>)
    ensures
        final(out)@ == old(out)@ + enum_cons_args(arena.tree@, app),
{
    let t = &arena.tree;
    let cs = t.children(app);
    if cs.len() == 0 {
        assert(final(out)@ =~= old(out)@ + enum_cons_args(arena.tree@, app));
        return;
    }
    let ghost args = cs@.drop_first();
    let mut k: usize = 1;
    while k < cs.len()
        invariant
            t == &arena.tree,
            cs@ == children_of(t@, app as int),
            cs@.len() > 0,
            args == cs@.drop_first(),
            1 <= k <= cs@.len(),
            out@ == old(out)@ + of_kind(t@, args.subrange(0, k - 1), IrKind::EnumCons),
        decreases cs@.len() - k,
    {
        let a = cs[k];
        if t.is_kind(a, IrKind::EnumCons) {
            out.push(a);
        }
        proof {
            let f = |id: u32| has_kind(t@, id as int, IrKind::EnumCons);
            assert(args.subrange(0, k as int) =~= args.subrange(0, k - 1).push(a));
            args.subrange(0, k - 1).lemma_filter_push(a, f);
        }
        k = k + 1;
    }
    assert(args.subrange(0, args.len() as int) =~= args);
}

/// Which lowering path owns which node: the pre-pass that keeps the flat
/// walk from lowering a node twice.
pub fn ownership_marks(arena: &IrArena) -> (r: OwnershipMarks)
    ensures
        r@ == marks_upto(arena.tree@, arena.data_lets@, arena.module_field_refs@, arena.tree@.len()),
{
    let t = &arena.tree;
    let n = t.len();
    let mut m = OwnershipMarks {
        data_lets: Vec::new(),
        record_cons: Vec::new(),
        field_access: Vec::new(),
        enum_cons: Vec::new(),
        stores: Vec::new(),
    };
    assert(m@ =~= no_marks());
    let mut i: u32 = 0;
    while i < n
        invariant
            t == &arena.tree,
            n == t@.len(),
            i <= n,
            m@ == marks_upto(t@, arena.data_lets@, arena.module_field_refs@, i as nat),
        decreases n - i,
    {
        i = i + 1;
        let ghost prev = m@;
        let ghost add = node_marks(t@, arena.data_lets@, arena.module_field_refs@, i);
        if t.is_kind(i, IrKind::Let) {
            let is_data = arena.data_lets.contains_key(&i);
            if is_data {
                m.data_lets.push(i);
            }
            let cs = t.children(i);
            let rhs_idx: usize = if cs.len() > 1 { 1 } else { 0 };
            if rhs_idx < cs.len() && t.kind(cs[rhs_idx]).is_some() {
                let rhs = cs[rhs_idx];
                if t.is_kind(rhs, IrKind::RecordCons) {
                    m.record_cons.push(rhs);
                } else if t.is_kind(rhs, IrKind::FieldAccess) {
                    m.field_access.push(rhs);
                } else if t.is_kind(rhs, IrKind::EnumCons) {
                    m.enum_cons.push(rhs);
                    if is_data {
                        if let Some(payload) = t.first_child(rhs) {
                            if t.is_kind(payload, IrKind::RecordCons) {
                                m.record_cons.push(payload);
                            }
                        }
                    }
                }
            }
        } else if t.is_kind(i, IrKind::Lambda) {
            if let Some(b) = t.first_child(i) {
                if t.kind(b).is_some() {
                    if t.is_kind(b, IrKind::FieldAccess) {
                        if let Some(recv) = t.first_child(b) {
                            if t.is_kind(recv, IrKind::Var) {
                                m.field_access.push(b);
                            }
                        }
                    } else if t.is_kind(b, IrKind::App) {
                        if let Some(callee) = t.first_child(b) {
                            if t.is_kind(callee, IrKind::FieldAccess) {
                                if let Some(recv) = t.first_child(callee) {
                                    if t.is_kind(recv, IrKind::Var) {
                                        m.field_access.push(callee);
                                    }
                                }
                            }
                        }
                        push_enum_cons_args(arena, b, &mut m.enum_cons);
                    } else if t.is_kind(b, IrKind::Store) {
                        if let Some(first) = t.first_child(b) {
                            if t.is_kind(first, IrKind::Var) {
                                m.stores.push(b);
                            }
                        }
                    } else if t.is_kind(b, IrKind::EnumCons) {
                        m.enum_cons.push(b);
                    }
                }
            }
        } else if t.is_kind(i, IrKind::Store) {
            if let Some(fa) = t.first_child(i) {
                if t.is_kind(fa, IrKind::FieldAccess) {
                    let deref_recv = match t.first_child(fa) {
                        Some(r) => t.is_kind(r, IrKind::Deref),
                        None => false,
                    };
                    if deref_recv || arena.module_field_refs.contains_key(&fa) {
                        m.field_access.push(fa);
                    }
                }
            }
        }
        assert(m@.data_lets =~= prev.data_lets + add.data_lets);
        assert(m@.record_cons =~= prev.record_cons + add.record_cons);
        assert(m@.field_access =~= prev.field_access + add.field_access);
        assert(m@.enum_cons =~= prev.enum_cons + add.enum_cons);
        assert(m@.stores =~= prev.stores + add.stores);
    }
    m
}

// ---------------------------------------------------------------------------
// The flat walk's per-node choice.

/// What the flat walk does at a node.
#[derive(Copy, Clone, Debug, PartialEq, Eq, Structural)]
pub enum WalkStep {
    /// Nothing: the node is owned elsewhere or needs no lowering here.
    Skip,
    /// A module-level binding: register its symbol (see [`let_plan`]).
    Binding,
    /// Enter a function: reset scratch registers and lower its body.
    Lambda,
    /// Queue an `unsafe` block for the raw-instruction pass.
    QueueUnsafe,
    /// Lower a field access.
    FieldAccess,
    /// Lower `(*p).f = v`.
    FieldAssign,
    /// Lower `x = v`.
    VarAssign,
    /// Lower an indexed store `a[i] = v`.
    IndexStore,
    /// Lower a record constructor.
    RecordCons,
    /// Lower an enum constructor.
    EnumCons,
    /// Extract an enum discriminant.
    EnumDiscriminant,
    /// Lower an `if`.
    Branch,
    /// Lower a `while`.
    While,
    /// Lower a `loop`.
    Loop,
    /// Lower a `match` (its value discarded).
    Match,
}

/// Whether `id` is a child of some action (block statement) node.
pub open spec fn child_of_action(t: Seq<IrNodeView>, id: u32) -> bool {
    exists|a: int| 1 <= a <= t.len() && #[trigger] has_kind(t, a, IrKind::Action) && children_of(t, a).contains(id)
}

/// Whether `id` is a child of some action (block statement) node; such
/// stores are lowered with their block.
pub fn is_child_of_action(arena: &IrArena, id: u32) -> (r: bool)
    ensures
        r == child_of_action(arena.tree@, id),
{
    let t = &arena.tree;
    let n = t.len();
    let mut a: u32 = 0;
    while a < n
        invariant
            t == &arena.tree,
            n == t@.len(),
            a <= n,
            forall|b: int| 1 <= b <= a ==> !(has_kind(t@, b, IrKind::Action) && children_of(t@, b).contains(id)),
        decreases n - a,
    {
        a = a + 1;
        if t.is_kind(a, IrKind::Action) {
            let cs = t.children(a);
            let mut k: usize = 0;
            while k < cs.len()
                invariant
                    t == &arena.tree,
                    k <= cs@.len(),
                    1 <= a <= n,
                    n == t@.len(),
                    has_kind(t@, a as int, IrKind::Action),
                    cs@ == children_of(t@, a as int),
                    forall|j: int| 0 <= j < k ==> cs@[j] != id,
                decreases cs@.len() - k,
            {
                if cs[k] == id {
                    assert(cs@[k as int] == id);
                    assert(children_of(t@, a as int).contains(id));
                    assert(child_of_action(t@, id)) by {
                        let w = a as int;
                        assert(1 <= w <= t@.len() && has_kind(t@, w, IrKind::Action) && children_of(
                            t@,
                            w,
                        ).contains(id));
                    }
                    return true;
                }
                k = k + 1;
            }
        }
    }
    false
}

/// The flat walk's choice at node `id`, given what the emission state
/// records of it.
pub open spec fn walk_step_spec(
    t: Seq<IrNodeView>,
    stmt_lets: Map<u32, ()>,
    id: u32,
    owned_elsewhere: bool,
) -> WalkStep {
    if !valid_id(t, id as int) {
        WalkStep::Skip
    } else {
        match t[id - 1].0 {
            IrKind::Let => if stmt_lets.contains_key(id) || first_child_of(t, id as int) is None {
                WalkStep::Skip
            } else {
                WalkStep::Binding
            },
            IrKind::Lambda => WalkStep::Lambda,
            IrKind::Unsafe => WalkStep::QueueUnsafe,
            IrKind::FieldAccess => if owned_elsewhere {
                WalkStep::Skip
            } else {
                WalkStep::FieldAccess
            },
            IrKind::Store => if owned_elsewhere || child_of_action(t, id) {
                WalkStep::Skip
            } else if first_child_is(t, id as int, IrKind::FieldAccess) {
                WalkStep::FieldAssign
            } else if first_child_is(t, id as int, IrKind::Var) {
                WalkStep::VarAssign
            } else {
                WalkStep::IndexStore
            },
            IrKind::RecordCons => if owned_elsewhere {
                WalkStep::Skip
            } else {
                WalkStep::RecordCons
            },
            IrKind::EnumCons => if owned_elsewhere {
                WalkStep::Skip
            } else {
                WalkStep::EnumCons
            },
            IrKind::EnumDiscriminant => WalkStep::EnumDiscriminant,
            IrKind::Branch => WalkStep::Branch,
            IrKind::While => WalkStep::While,
            IrKind::Loop => WalkStep::Loop,
            IrKind::Match => if owned_elsewhere {
                WalkStep::Skip
            } else {
                WalkStep::Match
            },
            _ => WalkStep::Skip,
        }
    }
}

/// The flat walk's choice at node `id`.  `owned_elsewhere` is what the
/// emission state records of the node: for a field access, record or enum
/// constructor, or match, that another path already lowers it; for a store,
/// that its lambda already emitted it.
pub fn walk_step(arena: &IrArena, id: u32, owned_elsewhere: bool) -> (r: WalkStep)
    ensures
        r == walk_step_spec(arena.tree@, arena.stmt_lets@, id, owned_elsewhere),
{
    let t = &arena.tree;
    let kind = match t.kind(id) {
        Some(k) => k,
        None => {
            return WalkStep::Skip;
        },
    };
    match kind {
        IrKind::Let => {
            if arena.stmt_lets.contains_key(&id) || t.first_child(id).is_none() {
                WalkStep::Skip
            } else {
                WalkStep::Binding
            }
        },
        IrKind::Lambda => WalkStep::Lambda,
        IrKind::Unsafe => WalkStep::QueueUnsafe,
        IrKind::FieldAccess => if owned_elsewhere {
            WalkStep::Skip
        } else {
            WalkStep::FieldAccess
        },
        IrKind::Store => {
            if owned_elsewhere || is_child_of_action(arena, id) {
                WalkStep::Skip
            } else {
                let first = t.first_child(id);
                let first_is = |k: IrKind| -> (b: bool)
                    ensures
                        b == (first is Some && has_kind(t@, first->0 as int, k)),
                    {
                        match first {
                            Some(c) => t.is_kind(c, k),
                            None => false,
                        }
                    };
                if first_is(IrKind::FieldAccess) {
                    WalkStep::FieldAssign
                } else if first_is(IrKind::Var) {
                    WalkStep::VarAssign
                } else {
                    WalkStep::IndexStore
                }
            }
        },
        IrKind::RecordCons => if owned_elsewhere {
            WalkStep::Skip
        } else {
            WalkStep::RecordCons
        },
        IrKind::EnumCons => if owned_elsewhere {
            WalkStep::Skip
        } else {
            WalkStep::EnumCons
        },
        IrKind::EnumDiscriminant => WalkStep::EnumDiscriminant,
        IrKind::Branch => WalkStep::Branch,
        IrKind::While => WalkStep::While,
        IrKind::Loop => WalkStep::Loop,
        IrKind::Match => if owned_elsewhere {
            WalkStep::Skip
        } else {
            WalkStep::Match
        },
        _ => WalkStep::Skip,
    }
}

/// Kind of a module-level symbol.
#[derive(Copy, Clone, Debug, PartialEq, Eq, Structural)]
pub enum SymbolKind {
    Function,
    Object,
}

/// What a module-level binding registers and lowers.
#[derive(Debug)]
pub struct LetPlan {
    /// Symbol name: the binding name, else `_let_<id>`.
    pub symbol_name: String,
    /// Function when the value is a lambda, else object.
    pub symbol_kind: SymbolKind,
    /// The node the symbol's address comes from: the lambda for a function,
    /// the `let` itself for an object.
    pub symbol_node: u32,
    /// The binding is public (global visibility).
    pub global: bool,
    /// The calling convention the symbol carries (the binding's annotation).
    pub abi: Option<CallingConvention>,
    /// The calling convention recorded for the bound lambda (the binding's
    /// annotation, when the value is a lambda).
    pub lambda_abi: Option<CallingConvention>,
    /// The bound lambda is `@no_frame`.
    pub lambda_no_frame: bool,
    /// The bound lambda's interrupt-handler marker.
    pub lambda_interrupt: Option<InterruptAttr>,
    /// Emit the literal value into a register (it is not in the data table).
    pub emit_literal: bool,
    /// Lower the field-access value (it is not a module-qualified access).
    pub lower_field_access: bool,
}

/// Mathematical value of a [`LetPlan`].
pub ghost struct LetPlanView {
    pub symbol_name: Seq<char>,
    pub symbol_kind: SymbolKind,
    pub symbol_node: u32,
    pub global: bool,
    pub abi: Option<CallingConvention>,
    pub lambda_abi: Option<CallingConvention>,
    pub lambda_no_frame: bool,
    pub lambda_interrupt: Option<InterruptAttr>,
    pub emit_literal: bool,
    pub lower_field_access: bool,
}

impl View for LetPlan {
    type V = LetPlanView;

    open spec fn view(&self) -> LetPlanView {
        LetPlanView {
            symbol_name: self.symbol_name@,
            symbol_kind: self.symbol_kind,
            symbol_node: self.symbol_node,
            global: self.global,
            abi: self.abi,
            lambda_abi: self.lambda_abi,
            lambda_no_frame: self.lambda_no_frame,
            lambda_interrupt: self.lambda_interrupt,
            emit_literal: self.emit_literal,
            lower_field_access: self.lower_field_access,
        }
    }
}

/// The plan of module-level binding `id` with value `rhs` (its first
/// child); `data_let_handled` says the value is in the data table.
pub open spec fn let_plan_spec(a: &IrArena, id: u32, rhs: u32, data_let_handled: bool) -> LetPlanView {
    let t = a.tree@;
    let is_lambda = has_kind(t, rhs as int, IrKind::Lambda);
    let meta = a.let_meta@;
    LetPlanView {
        symbol_name: if a.binding_names@.contains_key(id) {
            a.binding_names@[id]@
        } else {
            "_let_"@ + decimal(id as nat)
        },
        symbol_kind: if is_lambda {
            SymbolKind::Function
        } else {
            SymbolKind::Object
        },
        symbol_node: if is_lambda {
            rhs
        } else {
            id
        },
        global: a.public_lets@.contains_key(id),
        abi: if meta.contains_key(id) {
            meta[id].abi
        } else {
            None
        },
        lambda_abi: if is_lambda && meta.contains_key(id) {
            meta[id].abi
        } else {
            None
        },
        lambda_no_frame: is_lambda && meta.contains_key(id) && meta[id].no_frame,
        lambda_interrupt: if is_lambda && meta.contains_key(id) {
            meta[id].interrupt
        } else {
            None
        },
        emit_literal: has_kind(t, rhs as int, IrKind::Literal) && a.literal_nodes@.contains_key(rhs)
            && !data_let_handled,
        lower_field_access: has_kind(t, rhs as int, IrKind::FieldAccess)
            && !a.module_field_refs@.contains_key(rhs),
    }
}

/// The plan of module-level binding `id` (a [`WalkStep::Binding`] node):
/// its symbol, the attributes its lambda carries, and which of its value's
/// lowerings the flat walk performs.
pub fn let_plan(arena: &IrArena, id: u32, data_let_handled: bool) -> (r: Option<LetPlan>)
    ensures
        match first_child_of(arena.tree@, id as int) {
            Some(rhs) => r is Some && r->0@ == let_plan_spec(arena, id, rhs, data_let_handled),
            None => r is None,
        },
{
    let t = &arena.tree;
    let rhs = match t.first_child(id) {
        Some(c) => c,
        None => {
            return None;
        },
    };
    let is_lambda = t.is_kind(rhs, IrKind::Lambda);
    let symbol_name = match arena.binding_names.get(&id) {
        Some(n) => n.clone(),
        None => {
            let mut s = "_let_".to_owned();
            proof {
                reveal_strlit("_let_");
            }
            push_decimal(&mut s, id);
            s
        },
    };
    let abi = match arena.let_meta.get(&id) {
        Some(info) => info.abi,
        None => None,
    };
    let lambda_abi = if is_lambda {
        abi
    } else {
        None
    };
    let (lambda_no_frame, lambda_interrupt) = if is_lambda {
        match arena.let_meta.get(&id) {
            Some(info) => {
                let intr = match &info.interrupt {
                    Some(attr) => {
                        let c = InterruptAttr {
                            has_error_code: attr.has_error_code,
                            vector: attr.vector,
                            name: attr.name.clone(),
                        };
                        assert(c == *attr);
                        Some(c)
                    },
                    None => None,
                };
                (info.no_frame, intr)
            },
            None => (false, None),
        }
    } else {
        (false, None)
    };
    let plan = LetPlan {
        symbol_name,
        symbol_kind: if is_lambda {
            SymbolKind::Function
        } else {
            SymbolKind::Object
        },
        symbol_node: if is_lambda {
            rhs
        } else {
            id
        },
        global: arena.public_lets.contains_key(&id),
        abi,
        lambda_abi,
        lambda_no_frame,
        lambda_interrupt,
        emit_literal: t.is_kind(rhs, IrKind::Literal) && arena.literal_nodes.contains_key(&rhs)
            && !data_let_handled,
        lower_field_access: t.is_kind(rhs, IrKind::FieldAccess) && !arena.module_field_refs.contains_key(
            &rhs,
        ),
    };
    Some(plan)
}

/// The ownership guard of the flat walk: a field access, record or enum
/// constructor, `match` or store that another lowering path owns is skipped,
/// so it is lowered once; a field access, record or enum constructor or
/// `match` that no other path owns is lowered by the walk's step for its kind.
pub proof fn lemma_walk_step_ownership(t: Seq<IrNodeView>, stmt_lets: Map<u32, ()>, id: u32)
    requires
        valid_id(t, id as int),
    ensures
        ({
            let k = t[id - 1].0;
            &&& (k == IrKind::FieldAccess || k == IrKind::RecordCons || k == IrKind::EnumCons || k == IrKind::Match
                || k == IrKind::Store) ==> walk_step_spec(t, stmt_lets, id, true) == WalkStep::Skip
            &&& k == IrKind::FieldAccess ==> walk_step_spec(t, stmt_lets, id, false) == WalkStep::FieldAccess
            &&& k == IrKind::RecordCons ==> walk_step_spec(t, stmt_lets, id, false) == WalkStep::RecordCons
            &&& k == IrKind::EnumCons ==> walk_step_spec(t, stmt_lets, id, false) == WalkStep::EnumCons
            &&& k == IrKind::Match ==> walk_step_spec(t, stmt_lets, id, false) == WalkStep::Match
        }),
{
}

// ---------------------------------------------------------------------------
// Statements of `unsafe` blocks lowered after the raw-instruction pass.

/// Diagnostic number of an unroutable statement in an `unsafe` block
/// (U1614).
pub const U_UNROUTABLE_UNSAFE_STMT: u16 = 1614;

/// What happens to a statement of an `unsafe` block after the
/// raw-instruction pass.
#[derive(Copy, Clone, Debug, PartialEq, Eq, Structural)]
pub enum UnsafeStmt {
    /// Already emitted (raw instructions) or without effect (labels,
    /// variables, literals).
    Skip,
    /// An expression statement, lowered as an action statement at its
    /// reserved position.
    Action,
    /// A statement kind that cannot be lowered here: rejected.
    Unroutable,
}

/// The treatment of an `unsafe`-block statement of kind `k`.
pub open spec fn unsafe_stmt_spec(k: IrKind) -> UnsafeStmt {
    match k {
        IrKind::RawInstruction | IrKind::Label | IrKind::Placeholder | IrKind::Var | IrKind::Literal => UnsafeStmt::Skip,
        IrKind::Action => UnsafeStmt::Action,
        _ => UnsafeStmt::Unroutable,
    }
}

/// The treatment of an `unsafe`-block statement of kind `k`.
pub fn unsafe_stmt(k: IrKind) -> (r: UnsafeStmt)
    ensures
        r == unsafe_stmt_spec(k),
{
    match k {
        IrKind::RawInstruction | IrKind::Label | IrKind::Placeholder | IrKind::Var | IrKind::Literal => UnsafeStmt::Skip,
        IrKind::Action => UnsafeStmt::Action,
        _ => UnsafeStmt::Unroutable,
    }
}

/// The statements of `unsafe` block `id` that cannot be lowered there
/// (each reported as U1614 at its span), in order.
pub open spec fn unroutable_stmts_spec(t: Seq<IrNodeView>, id: u32) -> Seq<u32> {
    children_of(t, id as int).filter(
        |c: u32| valid_id(t, c as int) && unsafe_stmt_spec(t[c - 1].0) == UnsafeStmt::Unroutable,
    )
}

/// The statements of `unsafe` block `id` that cannot be lowered there, in
/// order: each is reported as U1614 at its span.
pub fn unroutable_unsafe_stmts(arena: &IrArena, id: u32) -> (r: Vec<u32>)
    ensures
        r@ == unroutable_stmts_spec(arena.tree@, id),
{
    let t = &arena.tree;
    let cs = t.children(id);
    let mut out: Vec<u32> = Vec::new();
    let mut k: usize = 0;
    while k < cs.len()
        invariant
            t == &arena.tree,
            cs@ == children_of(t@, id as int),
            k <= cs@.len(),
            out@ == cs@.subrange(0, k as int).filter(
                |c: u32| valid_id(t@, c as int) && unsafe_stmt_spec(t@[c - 1].0) == UnsafeStmt::Unroutable,
            ),
        decreases cs@.len() - k,
    {
        let c = cs[k];
        if let Some(kind) = t.kind(c) {
            if unsafe_stmt(kind) == UnsafeStmt::Unroutable {
                out.push(c);
            }
        }
        proof {
            let f = |c: u32| valid_id(t@, c as int) && unsafe_stmt_spec(t@[c - 1].0) == UnsafeStmt::Unroutable;
            assert(cs@.subrange(0, k + 1) =~= cs@.subrange(0, k as int).push(c));
            cs@.subrange(0, k as int).lemma_filter_push(c, f);
        }
        k = k + 1;
    }
    assert(cs@.subrange(0, cs@.len() as int) =~= cs@);
    out
}

/// A statement of a pending `unsafe` block, in the order the statements
/// are lowered after the raw-instruction pass.
#[derive(Copy, Clone, Debug, PartialEq, Eq, Structural)]
pub struct PendingStmt {
    /// The `unsafe` block.
    pub block: u32,
    /// The function the statement is lowered in (0: none).
    pub function: u32,
    /// The statement.
    pub stmt: u32,
    /// Its treatment.
    pub action: UnsafeStmt,
}

/// The statements among `cs` (children of `unsafe` block `b`) that name a
/// node, in order, lowered in function `f`.
pub open spec fn block_stmts(t: Seq<IrNodeView>, b: u32, f: u32, cs: Seq<u32>) -> Seq<PendingStmt>
    decreases cs.len(),
{
    if cs.len() == 0 {
        Seq::empty()
    } else {
        let prev = block_stmts(t, b, f, cs.drop_last());
        let c = cs.last();
        if valid_id(t, c as int) {
            prev.push(PendingStmt { block: b, function: f, stmt: c, action: unsafe_stmt_spec(t[c - 1].0) })
        } else {
            prev
        }
    }
}

/// The current function and the statements planned after the first `k`
/// blocks of the queue `pending`, starting in function `current`.  Block id
/// 0 is skipped; a block registered in `owners` with a non-zero function
/// makes that function current before its statements.
pub open spec fn pending_plan(
    t: Seq<IrNodeView>,
    owners: Map<u32, u32>,
    pending: Seq<u32>,
    current: u32,
    k: nat,
) -> (u32, Seq<PendingStmt>)
    decreases k,
{
    if k == 0 {
        (current, Seq::empty())
    } else {
        let (cur, out) = pending_plan(t, owners, pending, current, (k - 1) as nat);
        let b = pending[k - 1];
        if b == 0 {
            (cur, out)
        } else {
            let f = if owners.contains_key(b) && owners[b] != 0 {
                owners[b]
            } else {
                cur
            };
            (f, out + block_stmts(t, b, f, children_of(t, b as int)))
        }
    }
}

/// The statements a block's plan reports as unroutable are exactly those
/// [`unroutable_unsafe_stmts`] lists for the block, in the same order.
pub proof fn lemma_block_plan_unroutable(t: Seq<IrNodeView>, b: u32, f: u32)
    ensures
        block_stmts(t, b, f, children_of(t, b as int)).filter(|p: PendingStmt| p.action == UnsafeStmt::Unroutable).map_values(
            |p: PendingStmt| p.stmt,
        ) == unroutable_stmts_spec(t, b),
{
    lemma_block_stmts_unroutable(t, b, f, children_of(t, b as int));
}

proof fn lemma_block_stmts_unroutable(t: Seq<IrNodeView>, b: u32, f: u32, cs: Seq<u32>)
    ensures
        block_stmts(t, b, f, cs).filter(|p: PendingStmt| p.action == UnsafeStmt::Unroutable).map_values(
            |p: PendingStmt| p.stmt,
        ) == cs.filter(|c: u32| valid_id(t, c as int) && unsafe_stmt_spec(t[c - 1].0) == UnsafeStmt::Unroutable),
    decreases cs.len(),
{
    let pa = |p: PendingStmt| p.action == UnsafeStmt::Unroutable;
    let st = |p: PendingStmt| p.stmt;
    let fc = |c: u32| valid_id(t, c as int) && unsafe_stmt_spec(t[c - 1].0) == UnsafeStmt::Unroutable;
    if cs.len() == 0 {
        assert(block_stmts(t, b, f, cs).filter(pa) =~= Seq::<PendingStmt>::empty());
        assert(cs.filter(fc) =~= Seq::<u32>::empty());
    } else {
        let prev = cs.drop_last();
        let c = cs.last();
        lemma_block_stmts_unroutable(t, b, f, prev);
        assert(cs =~= prev.push(c));
        prev.lemma_filter_push(c, fc);
        let bp = block_stmts(t, b, f, prev);
        if valid_id(t, c as int) {
            let p = PendingStmt { block: b, function: f, stmt: c, action: unsafe_stmt_spec(t[c - 1].0) };
            bp.lemma_filter_push(p, pa);
            if pa(p) {
                assert(bp.filter(pa).push(p).map_values(st) =~= bp.filter(pa).map_values(st).push(c));
            }
        }
    }
}

/// The lowering plan of the queue `pending` of `unsafe` blocks, in queue
/// order (see [`pending_plan`]): each statement of each block with the
/// function it is lowered in and its treatment (an action statement is
/// lowered, an unroutable one reported as U1614, the rest skipped).
/// `owners` maps blocks to their enclosing function; `current_function` is
/// the function current before the first block.  Returns the function
/// current after the last block and the plan.
pub fn pending_unsafe_plan(
    arena: &IrArena,
    pending: &Vec<u32>,
    owners: &HashMap<u32, u32>,
    current_function: u32,
) -> (r: (u32, Vec<PendingStmt>))
    ensures
        (r.0, r.1@) == pending_plan(arena.tree@, owners@, pending@, current_function, pending@.len()),
{
    let t = &arena.tree;
    let mut cur = current_function;
    let mut out: Vec<PendingStmt> = Vec::new();
    let mut i: usize = 0;
    while i < pending.len()
        invariant
            t == &arena.tree,
            i <= pending@.len(),
            (cur, out@) == pending_plan(t@, owners@, pending@, current_function, i as nat),
        decreases pending@.len() - i,
    {
        let b = pending[i];
        if b != 0 {
            match owners.get(&b) {
                Some(l) => {
                    if *l != 0 {
                        cur = *l;
                    }
                },
                None => {},
            }
            let cs = t.children(b);
            let ghost base = out@;
            let mut k: usize = 0;
            while k < cs.len()
                invariant
                    t == &arena.tree,
                    cs@ == children_of(t@, b as int),
                    k <= cs@.len(),
                    out@ == base + block_stmts(t@, b, cur, cs@.subrange(0, k as int)),
                decreases cs@.len() - k,
            {
                let c = cs[k];
                if let Some(kind) = t.kind(c) {
                    out.push(PendingStmt { block: b, function: cur, stmt: c, action: unsafe_stmt(kind) });
                }
                proof {
                    assert(cs@.subrange(0, k + 1).drop_last() =~= cs@.subrange(0, k as int));
                }
                k = k + 1;
            }
            assert(cs@.subrange(0, cs@.len() as int) =~= cs@);
        }
        i = i + 1;
    }
    (cur, out)
}

/// Diagnostic number of a redundant `@no_frame` (B1707).
pub const B_REDUNDANT_NO_FRAME: u16 = 1707;

/// The lambda bound by `let` node `id` when its `@no_frame` is redundant:
/// the binding is `@no_frame` and not an interrupt handler (whose marker
/// implies `@no_frame`), and the lambda's body is an `unsafe` block, which
/// never gets a frame-pointer prologue anyway.
pub open spec fn redundant_no_frame(t: Seq<IrNodeView>, meta: Map<u32, LetInfo>, id: u32) -> Option<u32> {
    match no_frame_lambda(t, meta, id) {
        Some(l) => if meta[id].interrupt is None && first_child_is(t, l as int, IrKind::Unsafe) {
            Some(l)
        } else {
            None
        },
        None => None,
    }
}

/// The lambdas of bindings `1..=n` with a redundant `@no_frame`, in id order.
pub open spec fn redundant_no_frame_upto(t: Seq<IrNodeView>, meta: Map<u32, LetInfo>, n: nat) -> Seq<u32>
    decreases n,
{
    if n == 0 {
        Seq::empty()
    } else {
        let prev = redundant_no_frame_upto(t, meta, (n - 1) as nat);
        match redundant_no_frame(t, meta, n as u32) {
            Some(l) => prev.push(l),
            None => prev,
        }
    }
}

/// The lambdas whose `@no_frame` annotation is redundant (each reported as
/// B1707): annotated, not interrupt handlers, with an `unsafe` body.
pub fn redundant_no_frame_lambdas(arena: &IrArena) -> (r: Vec<u32>)
    ensures
        r@ == redundant_no_frame_upto(arena.tree@, arena.let_meta@, arena.tree@.len()),
{
    let t = &arena.tree;
    let n = t.len();
    let mut out: Vec<u32> = Vec::new();
    let mut i: u32 = 0;
    while i < n
        invariant
            t == &arena.tree,
            n == t@.len(),
            i <= n,
            out@ == redundant_no_frame_upto(t@, arena.let_meta@, i as nat),
        decreases n - i,
    {
        i = i + 1;
        if t.is_kind(i, IrKind::Let) {
            if let Some(info) = arena.let_meta.get(&i) {
                if info.no_frame && info.interrupt.is_none() {
                    if let Some(l) = t.first_child(i) {
                        if t.is_kind(l, IrKind::Lambda) {
                            if let Some(body) = t.first_child(l) {
                                if t.is_kind(body, IrKind::Unsafe) {
                                    out.push(l);
                                }
                            }
                        }
                    }
                }
            }
        }
    }
    out
}

} // verus!
