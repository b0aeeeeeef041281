//! Closure pre-passes of the emit walk: stack-slot layout of the closures a
//! function constructs, linker symbols of closure bodies, and detection of
//! closures that invoke inner closures.

use vstd::prelude::*;

use crate::hygiene::{decimal, push_decimal};
use crate::ir::{children_of, has_kind, visible, visible_nodes, ClosureMeta, IrArena, IrKind, IrNodeView};

verus! {

/// Size in bytes of a closure's fat pointer (environment pointer and code
/// pointer).
pub const FAT_PAIR_SIZE: u64 = 16;

/// Stack alignment of a frame (SysV).
pub const FRAME_ALIGN: u64 = 16;

/// Stack slots of the closures one function constructs.
#[derive(Clone, Debug)]
pub struct FrameLayout {
    /// (closure constructor node, fat-pointer offset, environment offset),
    /// in assignment order.
    pub slots: Vec<(u32, u64, u64)>,
    /// Total frame size, a multiple of 16.
    pub total_size: u64,
}

/// The closure body lambda of a closure constructor: its first child.
pub open spec fn closure_body_of(t: Seq<IrNodeView>, cc: u32) -> Option<u32> {
    if children_of(t, cc as int).len() > 0 {
        Some(children_of(t, cc as int)[0])
    } else {
        None
    }
}

/// Environment size of closure constructor `cc`: that recorded for its body
/// lambda, 0 when there is none.
pub open spec fn env_size_of(t: Seq<IrNodeView>, meta: Map<u32, ClosureMeta>, cc: u32) -> nat {
    match closure_body_of(t, cc) {
        Some(l) => if meta.contains_key(l) {
            meta[l].env_size as nat
        } else {
            0
        },
        None => 0,
    }
}

/// Offset just past the slots of the closures `ccs`, packed from offset 0:
/// each takes a 16-byte fat pointer followed by its environment record.
pub open spec fn slots_end(t: Seq<IrNodeView>, meta: Map<u32, ClosureMeta>, ccs: Seq<u32>) -> nat
    decreases ccs.len(),
{
    if ccs.len() == 0 {
        0
    } else {
        slots_end(t, meta, ccs.drop_last()) + 16 + env_size_of(t, meta, ccs.last())
    }
}

/// `n` rounded up to a multiple of 16.
pub open spec fn round_up_16(n: nat) -> nat {
    ((n + 15) / 16 * 16) as nat
}

/// The slots assigned to the closures `ccs`: closure `k` gets its fat
/// pointer at the end of the slots before it and its environment right
/// after.
pub open spec fn slot_list(t: Seq<IrNodeView>, meta: Map<u32, ClosureMeta>, ccs: Seq<u32>) -> Seq<
    (u32, u64, u64),
> {
    Seq::new(
        ccs.len(),
        |k: int|
            (
                ccs[k],
                slots_end(t, meta, ccs.subrange(0, k)) as u64,
                (slots_end(t, meta, ccs.subrange(0, k)) + 16) as u64,
            ),
    )
}

/// The closure constructors a function body builds: those visible from the
/// body (nested functions and `unsafe` blocks are not entered).
pub open spec fn frame_closures(t: Seq<IrNodeView>, caller: u32) -> Seq<u32> {
    if children_of(t, caller as int).len() > 0 {
        visible(t, children_of(t, caller as int)[0] as int).filter(
            |id: u32| has_kind(t, id as int, IrKind::ClosureCons),
        )
    } else {
        Seq::empty()
    }
}

/// The frame layout of function `caller`: none when it builds no closure,
/// else the packed slots with the total rounded up to 16 bytes.
pub open spec fn frame_layout_spec(t: Seq<IrNodeView>, meta: Map<u32, ClosureMeta>, caller: u32) -> Option<
    (Seq<(u32, u64, u64)>, nat),
> {
    let ccs = frame_closures(t, caller);
    if ccs.len() == 0 {
        None
    } else {
        Some((slot_list(t, meta, ccs), round_up_16(slots_end(t, meta, ccs))))
    }
}

proof fn lemma_slots_end_monotone(t: Seq<IrNodeView>, meta: Map<u32, ClosureMeta>, ccs: Seq<u32>, k: int)
    requires
        0 <= k <= ccs.len(),
    ensures
        slots_end(t, meta, ccs.subrange(0, k)) <= slots_end(t, meta, ccs),
        k < ccs.len() ==> slots_end(t, meta, ccs.subrange(0, k)) + 16 + env_size_of(t, meta, ccs[k])
            <= slots_end(t, meta, ccs),
    decreases ccs.len() - k,
{
    if k < ccs.len() {
        lemma_slots_end_monotone(t, meta, ccs, k + 1);
        assert(ccs.subrange(0, k + 1).drop_last() =~= ccs.subrange(0, k));
    } else {
        assert(ccs.subrange(0, k) =~= ccs);
    }
}

/// The slots of a frame never overlap: every closure's environment record
/// directly follows its fat pointer and ends before the next closure's fat
/// pointer, and the 16-byte aligned total covers them all.
pub proof fn lemma_frame_slots_disjoint(t: Seq<IrNodeView>, meta: Map<u32, ClosureMeta>, ccs: Seq<u32>)
    requires
        slots_end(t, meta, ccs) + 15 <= u64::MAX,
    ensures
        ({
            let slots = slot_list(t, meta, ccs);
            let total = round_up_16(slots_end(t, meta, ccs));
            &&& total % 16 == 0
            &&& slots_end(t, meta, ccs) <= total < slots_end(t, meta, ccs) + 16
            &&& forall|k: int| 0 <= k < slots.len() ==> #[trigger] slots[k].2 == slots[k].1 + 16
            &&& forall|k: int| 0 <= k < slots.len() ==> #[trigger] slots[k].2 + env_size_of(t, meta, ccs[k]) <= total
            &&& forall|j: int, k: int|
                0 <= j < k < slots.len() ==> #[trigger] slots[j].2 + env_size_of(t, meta, ccs[j])
                    <= #[trigger] slots[k].1
        }),
{
    let slots = slot_list(t, meta, ccs);
    let end = slots_end(t, meta, ccs);
    assert forall|k: int| 0 <= k < slots.len() implies #[trigger] slots[k].2 + env_size_of(t, meta, ccs[k]) <= round_up_16(end) by {
        lemma_slots_end_monotone(t, meta, ccs, k);
    }
    assert forall|k: int| 0 <= k < slots.len() implies #[trigger] slots[k].2 == slots[k].1 + 16 by {
        lemma_slots_end_monotone(t, meta, ccs, k);
    }
    assert forall|j: int, k: int| 0 <= j < k < slots.len() implies #[trigger] slots[j].2 + env_size_of(t, meta, ccs[j])
        <= #[trigger] slots[k].1 by {
        let pre = ccs.subrange(0, k);
        lemma_slots_end_monotone(t, meta, pre, j);
        lemma_slots_end_monotone(t, meta, ccs, k);
        assert(pre.subrange(0, j) =~= ccs.subrange(0, j));
        assert(pre[j] == ccs[j]);
    }
}

/// The frame layout of function `caller` (see [`frame_layout_spec`]).
/// The frame must fit in `u64`.
pub fn precompute_caller_frame(arena: &IrArena, caller: u32) -> (r: Option<FrameLayout>)
    requires
        slots_end(arena.tree@, arena.closure_meta@, frame_closures(arena.tree@, caller)) + 15
            <= u64::MAX,
    ensures
        match frame_layout_spec(arena.tree@, arena.closure_meta@, caller) {
            None => r is None,
            Some((slots, total)) => r is Some && r->0.slots@ == slots && r->0.total_size == total,
        },
{
    let t = &arena.tree;
    let ghost meta = arena.closure_meta@;
    let body = match t.first_child(caller) {
        Some(b) => b,
        None => {
            return None;
        },
    };
    let visible_ids = visible_nodes(t, body);
    let ccs = crate::ir::filter_kind(t, &visible_ids, IrKind::ClosureCons);
    assert(ccs@ == frame_closures(t@, caller));
    let ghost all = ccs@;
    let mut slots: Vec<(u32, u64, u64)> = Vec::new();
    let mut current: u64 = 0;
    let mut k: usize = 0;
    while k < ccs.len()
        invariant
            all == ccs@,
            meta == arena.closure_meta@,
            t == &arena.tree,
            k <= all.len(),
            slots_end(t@, meta, all) + 15 <= u64::MAX,
            current == slots_end(t@, meta, all.subrange(0, k as int)),
            slots@ == slot_list(t@, meta, all.subrange(0, k as int)),
        decreases all.len() - k,
    {
        let cc = ccs[k];
        let env_size: u64 = match t.first_child(cc) {
            Some(lambda) => match arena.closure_meta.get(&lambda) {
                Some(m) => m.env_size,
                None => 0,
            },
            None => 0,
        };
        proof {
            lemma_slots_end_monotone(t@, meta, all, k as int);
            assert(env_size == env_size_of(t@, meta, cc));
        }
        let fat_offset = current;
        let env_offset = current + FAT_PAIR_SIZE;
        slots.push((cc, fat_offset, env_offset));
        current = env_offset + env_size;
        proof {
            let pre = all.subrange(0, k as int);
            let post = all.subrange(0, k + 1);
            assert(post.drop_last() =~= pre);
            assert(post.last() == cc);
            assert(slots@ =~= slot_list(t@, meta, post)) by {
                assert forall|j: int| 0 <= j < post.len() implies #[trigger] slots@[j] == slot_list(t@, meta, post)[j] by {
                    if j < k {
                        assert(post.subrange(0, j) =~= pre.subrange(0, j));
                    } else {
                        assert(post.subrange(0, j) =~= pre);
                    }
                }
            }
        }
        k = k + 1;
    }
    assert(all.subrange(0, all.len() as int) =~= all);
    if current > 0 {
        let total = (current + 15) / FRAME_ALIGN * FRAME_ALIGN;
        Some(FrameLayout { slots, total_size: total })
    } else {
        proof {
            if all.len() > 0 {
                assert(all.drop_last() =~= all.subrange(0, all.len() - 1));
            }
        }
        None
    }
}

impl FrameLayout {
    /// The (fat-pointer, environment) offsets assigned to closure
    /// constructor `cc`: its latest assignment, if any.
    pub fn get_slot(&self, cc: u32) -> (r: Option<(u64, u64)>)
        ensures
            match r {
                Some((fat, env)) => exists|k: int|
                    0 <= k < self.slots@.len() && self.slots@[k] == (cc, fat, env) && forall|j: int|
                        k < j < self.slots@.len() ==> self.slots@[j].0 != cc,
                None => forall|k: int| 0 <= k < self.slots@.len() ==> self.slots@[k].0 != cc,
            },
    {
        let mut i = self.slots.len();
        while i > 0
            invariant
                i <= self.slots@.len(),
                forall|j: int| i <= j < self.slots@.len() ==> self.slots@[j].0 != cc,
            decreases i,
        {
            i = i - 1;
            let (id, fat, env) = self.slots[i];
            if id == cc {
                assert(self.slots@[i as int] == (cc, fat, env));
                return Some((fat, env));
            }
        }
        None
    }
}

/// A closure body symbol: the linker-visible name of a closure body lambda
/// (a local function symbol).
#[derive(Clone, Debug)]
pub struct ClosureSymbol {
    pub name: String,
    pub lambda: u32,
}

/// The symbol of closure constructor `cc`, when its first child is a
/// lambda: named as the closure metadata says, else `closure_anon_<id>`.
pub open spec fn closure_symbol_spec(t: Seq<IrNodeView>, meta: Map<u32, ClosureMeta>, cc: u32) -> Option<
    (Seq<char>, u32),
> {
    if has_kind(t, cc as int, IrKind::ClosureCons) && closure_body_of(t, cc) is Some && has_kind(
        t,
        closure_body_of(t, cc)->0 as int,
        IrKind::Lambda,
    ) {
        let l = closure_body_of(t, cc)->0;
        if meta.contains_key(l) {
            Some((meta[l].mangled_name@, l))
        } else {
            Some(("closure_anon_"@ + decimal(l as nat), l))
        }
    } else {
        None
    }
}

/// The closure body symbols of nodes `1..=n`, in id order.
pub open spec fn closure_symbols_upto(t: Seq<IrNodeView>, meta: Map<u32, ClosureMeta>, n: nat) -> Seq<
    (Seq<char>, u32),
>
    decreases n,
{
    if n == 0 {
        Seq::empty()
    } else {
        let prev = closure_symbols_upto(t, meta, (n - 1) as nat);
        match closure_symbol_spec(t, meta, n as u32) {
            Some(s) => prev.push(s),
            None => prev,
        }
    }
}

/// The views of a list of closure symbols.
pub open spec fn symbol_views(syms: Seq<ClosureSymbol>) -> Seq<(Seq<char>, u32)> {
    syms.map_values(|s: ClosureSymbol| (s.name@, s.lambda))
}

/// The symbols of every closure body in the arena, in id order of their
/// closure constructors.
pub fn closure_body_symbols(arena: &IrArena) -> (r: Vec<ClosureSymbol>)
    ensures
        symbol_views(r@) == closure_symbols_upto(arena.tree@, arena.closure_meta@, arena.tree@.len()),
{
    let t = &arena.tree;
    let n = t.len();
    let mut out: Vec<ClosureSymbol> = Vec::new();
    let mut i: u32 = 0;
    while i < n
        invariant
            t == &arena.tree,
            n == t@.len(),
            i <= n,
            symbol_views(out@) == closure_symbols_upto(t@, arena.closure_meta@, i as nat),
        decreases n - i,
    {
        i = i + 1;
        let ghost prev = out@;
        if t.is_kind(i, IrKind::ClosureCons) {
            if let Some(lambda) = t.first_child(i) {
                if t.is_kind(lambda, IrKind::Lambda) {
                    let name = match arena.closure_meta.get(&lambda) {
                        Some(m) => m.mangled_name.clone(),
                        None => {
                            let mut s = "closure_anon_".to_owned();
                            proof {
                                reveal_strlit("closure_anon_");
                            }
                            push_decimal(&mut s, lambda);
                            s
                        },
                    };
                    out.push(ClosureSymbol { name, lambda });
                    assert(symbol_views(out@) =~= symbol_views(prev).push(
                        closure_symbol_spec(t@, arena.closure_meta@, i)->0,
                    ));
                }
            }
        }
        assert(symbol_views(out@) =~= closure_symbols_upto(t@, arena.closure_meta@, i as nat));
    }
    out
}

// ---------------------------------------------------------------------------
// Nested closure invocations.

/// The binding name of `id` when it is a `let` whose right-hand side (its
/// second child in statement form, else its only child) constructs a
/// closure.
pub open spec fn closure_let_name(t: Seq<IrNodeView>, names: Map<u32, String>, id: u32) -> Option<
    Seq<char>,
> {
    let cs = children_of(t, id as int);
    let rhs_idx = if cs.len() > 1 {
        1int
    } else {
        0int
    };
    if has_kind(t, id as int, IrKind::Let) && rhs_idx < cs.len() && has_kind(
        t,
        cs[rhs_idx] as int,
        IrKind::ClosureCons,
    ) && names.contains_key(id) {
        Some(names[id]@)
    } else {
        None
    }
}

/// The name `id` calls when it is an application whose callee (first
/// child) is a named variable or placeholder.
pub open spec fn callee_name(t: Seq<IrNodeView>, names: Map<u32, String>, id: u32) -> Option<Seq<char>> {
    let cs = children_of(t, id as int);
    if has_kind(t, id as int, IrKind::App) && cs.len() > 0 && (has_kind(t, cs[0] as int, IrKind::Var)
        || has_kind(t, cs[0] as int, IrKind::Placeholder)) && names.contains_key(cs[0]) {
        Some(names[cs[0]]@)
    } else {
        None
    }
}

/// Whether `name` is bound to a closure by some `let` among `ids`.
pub open spec fn binds_closure(t: Seq<IrNodeView>, names: Map<u32, String>, ids: Seq<u32>, name: Seq<char>) -> bool {
    exists|k: int| 0 <= k < ids.len() && closure_let_name(t, names, ids[k]) == Some(name)
}

/// Whether node `id` invokes a closure bound among `ids`.
pub open spec fn invokes_inner(t: Seq<IrNodeView>, names: Map<u32, String>, ids: Seq<u32>, id: u32) -> bool {
    match callee_name(t, names, id) {
        Some(n) => binds_closure(t, names, ids, n),
        None => false,
    }
}

/// The first of `cands` that invokes a closure bound among `ids`.
pub open spec fn first_inner_invocation(
    t: Seq<IrNodeView>,
    names: Map<u32, String>,
    ids: Seq<u32>,
    cands: Seq<u32>,
) -> Option<u32>
    decreases cands.len(),
{
    if cands.len() == 0 {
        None
    } else if invokes_inner(t, names, ids, cands[0]) {
        Some(cands[0])
    } else {
        first_inner_invocation(t, names, ids, cands.drop_first())
    }
}

/// The first application in closure body lambda `l` that invokes a closure
/// the body itself binds (nothing when `l` is no closure body).
pub open spec fn nested_invocation_spec(
    t: Seq<IrNodeView>,
    names: Map<u32, String>,
    meta: Map<u32, ClosureMeta>,
    l: u32,
) -> Option<u32> {
    if has_kind(t, l as int, IrKind::Lambda) && meta.contains_key(l) && children_of(t, l as int).len()
        > 0 {
        let vis = visible(t, children_of(t, l as int)[0] as int);
        first_inner_invocation(t, names, vis, vis)
    } else {
        None
    }
}

/// Whether some `let` among `ids` binds `name` to a closure.
fn find_closure_binding(arena: &IrArena, ids: &Vec<u32>, name: &String) -> (r: bool)
    ensures
        r == binds_closure(arena.tree@, arena.binding_names@, ids@, name@),
{
    let t = &arena.tree;
    let mut k: usize = 0;
    while k < ids.len()
        invariant
            t == &arena.tree,
            k <= ids@.len(),
            forall|j: int| 0 <= j < k ==> closure_let_name(t@, arena.binding_names@, ids@[j]) != Some(name@),
        decreases ids@.len() - k,
    {
        let id = ids[k];
        if let Some(n) = closure_let_name_of(arena, id) {
            if n.eq(name) {
                return true;
            }
        }
        k = k + 1;
    }
    false
}

/// The binding name of `id` when it is a `let` that constructs a closure.
fn closure_let_name_of(arena: &IrArena, id: u32) -> (r: Option<&String>)
    ensures
        match r {
            Some(s) => closure_let_name(arena.tree@, arena.binding_names@, id) == Some(s@),
            None => closure_let_name(arena.tree@, arena.binding_names@, id) is None,
        },
{
    let t = &arena.tree;
    if !t.is_kind(id, IrKind::Let) {
        return None;
    }
    let cs = t.children(id);
    let rhs_idx: usize = if cs.len() > 1 { 1 } else { 0 };
    if rhs_idx < cs.len() && t.is_kind(cs[rhs_idx], IrKind::ClosureCons) {
        arena.binding_names.get(&id)
    } else {
        None
    }
}

/// The name that `id` calls when it applies a named variable.
fn callee_name_of(arena: &IrArena, id: u32) -> (r: Option<&String>)
    ensures
        match r {
            Some(s) => callee_name(arena.tree@, arena.binding_names@, id) == Some(s@),
            None => callee_name(arena.tree@, arena.binding_names@, id) is None,
        },
{
    let t = &arena.tree;
    if !t.is_kind(id, IrKind::App) {
        return None;
    }
    match t.first_child(id) {
        Some(c) => {
            if t.is_kind(c, IrKind::Var) || t.is_kind(c, IrKind::Placeholder) {
                arena.binding_names.get(&c)
            } else {
                None
            }
        },
        None => None,
    }
}

/// For closure body lambda `l`: the first application in its body that
/// invokes a closure the body itself binds.  Such an invocation would
/// clobber the outer closure's environment pointer; it is rejected.
pub fn nested_closure_invocation(arena: &IrArena, l: u32) -> (r: Option<u32>)
    ensures
        r == nested_invocation_spec(arena.tree@, arena.binding_names@, arena.closure_meta@, l),
{
    let t = &arena.tree;
    if !t.is_kind(l, IrKind::Lambda) || !arena.closure_meta.contains_key(&l) {
        return None;
    }
    let body = match t.first_child(l) {
        Some(b) => b,
        None => {
            return None;
        },
    };
    let vis = visible_nodes(t, body);
    assert(vis@.subrange(0, vis@.len() as int) =~= vis@);
    let mut i: usize = 0;
    while i < vis.len()
        invariant
            t == &arena.tree,
            i <= vis@.len(),
            has_kind(t@, l as int, IrKind::Lambda),
            arena.closure_meta@.contains_key(l),
            children_of(t@, l as int).len() > 0,
            vis@ == visible(t@, children_of(t@, l as int)[0] as int),
            first_inner_invocation(t@, arena.binding_names@, vis@, vis@) == first_inner_invocation(
                t@,
                arena.binding_names@,
                vis@,
                vis@.subrange(i as int, vis@.len() as int),
            ),
        decreases vis@.len() - i,
    {
        let id = vis[i];
        let ghost rest = vis@.subrange(i as int, vis@.len() as int);
        assert(rest[0] == id);
        assert(rest.drop_first() =~= vis@.subrange(i + 1, vis@.len() as int));
        if let Some(n) = callee_name_of(arena, id) {
            if find_closure_binding(arena, &vis, n) {
                assert(invokes_inner(t@, arena.binding_names@, vis@, rest[0]));
                assert(first_inner_invocation(t@, arena.binding_names@, vis@, rest) == Some(id));
                return Some(id);
            }
        }
        i = i + 1;
    }
    None
}

/// The lambdas rejected for invoking an inner closure, each with the first
/// offending application, in lambda id order.
pub open spec fn nested_invocations_upto(
    t: Seq<IrNodeView>,
    names: Map<u32, String>,
    meta: Map<u32, ClosureMeta>,
    n: nat,
) -> Seq<(u32, u32)>
    decreases n,
{
    if n == 0 {
        Seq::empty()
    } else {
        let prev = nested_invocations_upto(t, names, meta, (n - 1) as nat);
        match nested_invocation_spec(t, names, meta, n as u32) {
            Some(app) => prev.push((n as u32, app)),
            None => prev,
        }
    }
}

/// Every closure body lambda of the arena that invokes an inner closure,
/// with its first such application (lambda id, application id).
pub fn check_nested_closure_invocations(arena: &IrArena) -> (r: Vec<(u32, u32)>)
    ensures
        r@ == nested_invocations_upto(
            arena.tree@,
            arena.binding_names@,
            arena.closure_meta@,
            arena.tree@.len(),
        ),
{
    let n = arena.tree.len();
    let mut out: Vec<(u32, u32)> = Vec::new();
    let mut i: u32 = 0;
    while i < n
        invariant
            n == arena.tree@.len(),
            i <= n,
            out@ == nested_invocations_upto(
                arena.tree@,
                arena.binding_names@,
                arena.closure_meta@,
                i as nat,
            ),
        decreases n - i,
    {
        i = i + 1;
        if let Some(app) = nested_closure_invocation(arena, i) {
            out.push((i, app));
        }
    }
    out
}

/// Diagnostic number of a nested closure invocation (T0575).
pub const T_NESTED_CLOSURE_INVOCATION: u16 = 575;

/// A rejected nested closure invocation: reported as T0575 at the
/// application, rejecting the closure body lambda.
#[derive(Clone, Debug)]
pub struct NestedInvocationReport {
    pub lambda: u32,
    pub app: u32,
    pub message: String,
}

/// Message of the T0575 diagnostic.
pub open spec fn nested_invocation_message() -> Seq<char> {
    "nested closure invocation not yet supported"@
}

/// The T0575 reports of the arena: one per closure body lambda that invokes
/// an inner closure, at its first such application, in lambda id order.
pub fn nested_closure_reports(arena: &IrArena) -> (r: Vec<NestedInvocationReport>)
    ensures
        r@.len() == nested_invocations_upto(
            arena.tree@,
            arena.binding_names@,
            arena.closure_meta@,
            arena.tree@.len(),
        ).len(),
        forall|k: int|
            0 <= k < r@.len() ==> (#[trigger] r@[k].lambda, r@[k].app) == nested_invocations_upto(
                arena.tree@,
                arena.binding_names@,
                arena.closure_meta@,
                arena.tree@.len(),
            )[k] && r@[k].message@ == nested_invocation_message(),
{
    let pairs = check_nested_closure_invocations(arena);
    let mut out: Vec<NestedInvocationReport> = Vec::new();
    let mut k: usize = 0;
    while k < pairs.len()
        invariant
            k <= pairs@.len(),
            out@.len() == k,
            forall|j: int|
                0 <= j < k ==> (#[trigger] out@[j].lambda, out@[j].app) == pairs@[j] && out@[j].message@
                    == nested_invocation_message(),
        decreases pairs@.len() - k,
    {
        let (lambda, app) = pairs[k];
        let message = "nested closure invocation not yet supported".to_owned();
        proof {
            reveal_strlit("nested closure invocation not yet supported");
        }
        out.push(NestedInvocationReport { lambda, app, message });
        k = k + 1;
    }
    out
}

} // verus!
