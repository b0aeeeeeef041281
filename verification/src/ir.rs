//! The IR as the emit passes read it: a node arena whose children are
//! allocated before their parents, with the side tables the passes consult.

use vstd::hash_map::HashMapWithView;
use vstd::prelude::*;

verus! {

broadcast use vstd::std_specs::hash::group_hash_axioms;

/// Kinds of IR node the emit passes distinguish; every other kind is
/// `Other`.
#[derive(Copy, Clone, Debug, PartialEq, Eq, Hash, Structural)]
pub enum IrKind {
    Let,
    Lambda,
    Unsafe,
    Match,
    ClosureCons,
    App,
    Var,
    Placeholder,
    FieldAccess,
    Store,
    RecordCons,
    EnumCons,
    EnumDiscriminant,
    Branch,
    While,
    Loop,
    Deref,
    Action,
    Literal,
    RawInstruction,
    Label,
    Other,
}

/// One node: its kind and its children's ids, in order.
#[derive(Clone, Debug)]
pub struct IrNode {
    pub kind: IrKind,
    pub children: Vec<u32>,
}

/// Mathematical value of an [`IrNode`].
pub type IrNodeView = (IrKind, Seq<u32>);

/// Node arena.  Node ids start at 1; node `i` lives at index `i - 1`, and
/// every child id is smaller than its parent's id (children are allocated
/// first).
#[derive(Debug)]
pub struct IrTree {
    nodes: Vec<IrNode>,
}

/// The arena's well-formedness: ids fit in `u32`, every child id names an
/// earlier node.
pub open spec fn tree_wf(nodes: Seq<IrNodeView>) -> bool {
    &&& nodes.len() < u32::MAX
    &&& forall|i: int, k: int|
        0 <= i < nodes.len() && 0 <= k < nodes[i].1.len() ==> 1 <= #[trigger] nodes[i].1[k] <= i
}

/// Whether `id` names a node of `t`.
pub open spec fn valid_id(t: Seq<IrNodeView>, id: int) -> bool {
    1 <= id <= t.len()
}

/// The kind of node `id` (meaningful when `valid_id`).
pub open spec fn kind_of(t: Seq<IrNodeView>, id: int) -> IrKind {
    t[id - 1].0
}

/// The children of node `id`; none for an unknown id.
pub open spec fn children_of(t: Seq<IrNodeView>, id: int) -> Seq<u32> {
    if valid_id(t, id) {
        t[id - 1].1
    } else {
        Seq::empty()
    }
}

/// Whether node `id` exists and has kind `k`.
pub open spec fn has_kind(t: Seq<IrNodeView>, id: int, k: IrKind) -> bool {
    valid_id(t, id) && kind_of(t, id) == k
}

/// Whether node `id` exists and is a boundary the passes do not descend
/// into (a nested function or an `unsafe` block).
pub open spec fn is_boundary(t: Seq<IrNodeView>, id: int) -> bool {
    has_kind(t, id, IrKind::Lambda) || has_kind(t, id, IrKind::Unsafe)
}

impl View for IrTree {
    type V = Seq<IrNodeView>;

    closed spec fn view(&self) -> Seq<IrNodeView> {
        self.nodes@.map_values(|n: IrNode| (n.kind, n.children@))
    }
}

impl IrTree {
    #[verifier::type_invariant]
    closed spec fn wf(self) -> bool {
        tree_wf(self@)
    }

    /// An empty arena.
    pub fn new() -> (r: Self)
        ensures
            r@ == Seq::<IrNodeView>::empty(),
    {
        let r = IrTree { nodes: Vec::new() };
        assert(r@ =~= Seq::<IrNodeView>::empty());
        r
    }

    /// Number of nodes (the largest id).
    pub fn len(&self) -> (r: u32)
        ensures
            r == self@.len(),
    {
        proof {
            use_type_invariant(self);
        }
        self.nodes.len() as u32
    }

    /// Allocate a node with the given kind and (already allocated) children;
    /// returns its id.
    pub fn add_node(&mut self, kind: IrKind, children: Vec<u32>) -> (id: u32)
        requires
            old(self)@.len() + 1 < u32::MAX,
            forall|k: int| 0 <= k < children@.len() ==> 1 <= #[trigger] children@[k] <= old(self)@.len(),
        ensures
            id == old(self)@.len() + 1,
            final(self)@ == old(self)@.push((kind, children@)),
    {
        proof {
            use_type_invariant(&*self);
        }
        let ghost ch = children@;
        let mut nodes: Vec<IrNode> = Vec::new();
        std::mem::swap(&mut nodes, &mut self.nodes);
        nodes.push(IrNode { kind, children });
        let id = nodes.len() as u32;
        let ghost v = nodes@.map_values(|n: IrNode| (n.kind, n.children@));
        assert(v =~= old(self)@.push((kind, ch)));
        assert(tree_wf(v)) by {
            assert forall|i: int, k: int| 0 <= i < v.len() && 0 <= k < v[i].1.len() implies 1
                <= #[trigger] v[i].1[k] <= i by {
                if i < v.len() - 1 {
                    assert(v[i] == old(self)@[i]);
                }
            }
        }
        self.nodes = nodes;
        id
    }

    /// The kind of node `id`, if it exists.
    pub fn kind(&self, id: u32) -> (r: Option<IrKind>)
        ensures
            r == (if valid_id(self@, id as int) {
                Some(kind_of(self@, id as int))
            } else {
                None
            }),
    {
        if id >= 1 && id as usize <= self.nodes.len() {
            Some(self.nodes[id as usize - 1].kind)
        } else {
            None
        }
    }

    /// The children of node `id` (none for an unknown id); each was
    /// allocated before `id`.
    pub fn children(&self, id: u32) -> (r: &[u32])
        ensures
            r@ == children_of(self@, id as int),
            forall|k: int| 0 <= k < r@.len() ==> 1 <= #[trigger] r@[k] < id,
    {
        proof {
            use_type_invariant(self);
            if valid_id(self@, id as int) {
                assert forall|k: int| 0 <= k < children_of(self@, id as int).len() implies 1
                    <= #[trigger] children_of(self@, id as int)[k] < id by {
                    assert(self@[id - 1].1[k] == children_of(self@, id as int)[k]);
                }
            }
        }
        if id >= 1 && id as usize <= self.nodes.len() {
            self.nodes[id as usize - 1].children.as_slice()
        } else {
            &[]
        }
    }

    /// The first child of node `id`, if any.
    pub fn first_child(&self, id: u32) -> (r: Option<u32>)
        ensures
            r == (if children_of(self@, id as int).len() > 0 {
                Some(children_of(self@, id as int)[0])
            } else {
                None
            }),
    {
        let cs = self.children(id);
        if cs.len() > 0 {
            Some(cs[0])
        } else {
            None
        }
    }

    /// Whether node `id` exists and has kind `k`.
    pub fn is_kind(&self, id: u32, k: IrKind) -> (r: bool)
        ensures
            r == has_kind(self@, id as int, k),
    {
        match self.kind(id) {
            Some(kind) => kind == k,
            None => false,
        }
    }
}

/// The nodes a pass sees from `id`, in pre-order: `id` and, recursively,
/// its children's, without entering nested functions or `unsafe` blocks
/// (which are skipped together with everything below them).
pub open spec fn visible(t: Seq<IrNodeView>, id: int) -> Seq<u32>
    decreases id, 1int, 0int,
{
    if !valid_id(t, id) || is_boundary(t, id) {
        Seq::empty()
    } else {
        seq![id as u32] + visible_list(t, children_of(t, id), id)
    }
}

/// Concatenation of `visible` over those of `cs` below `bound`.
pub open spec fn visible_list(t: Seq<IrNodeView>, cs: Seq<u32>, bound: int) -> Seq<u32>
    decreases bound, 0int, cs.len(),
{
    if cs.len() == 0 {
        Seq::empty()
    } else {
        let c = cs.last();
        visible_list(t, cs.drop_last(), bound) + if 0 <= c < bound {
            visible(t, c as int)
        } else {
            Seq::empty()
        }
    }
}

/// The passes stay inside their scope: every node visible from `id` exists,
/// is neither a nested function nor an `unsafe` block, and was allocated no
/// later than `id`.
pub proof fn lemma_visible_inside(t: Seq<IrNodeView>, id: int)
    requires
        tree_wf(t),
    ensures
        forall|k: int|
            0 <= k < visible(t, id).len() ==> valid_id(t, #[trigger] visible(t, id)[k] as int) && !is_boundary(
                t,
                visible(t, id)[k] as int,
            ) && visible(t, id)[k] <= id,
    decreases id, 1int, 0int,
{
    if valid_id(t, id) && !is_boundary(t, id) {
        lemma_visible_list_inside(t, children_of(t, id), id);
        let v = visible(t, id);
        let rest = visible_list(t, children_of(t, id), id);
        assert(v =~= seq![id as u32] + rest);
        assert forall|k: int| 0 <= k < v.len() implies valid_id(t, #[trigger] v[k] as int) && !is_boundary(t, v[k] as int)
            && v[k] <= id by {
            if k > 0 {
                assert(v[k] == rest[k - 1]);
            }
        }
    }
}

proof fn lemma_visible_list_inside(t: Seq<IrNodeView>, cs: Seq<u32>, bound: int)
    requires
        tree_wf(t),
    ensures
        forall|k: int|
            0 <= k < visible_list(t, cs, bound).len() ==> valid_id(t, #[trigger] visible_list(t, cs, bound)[k] as int)
                && !is_boundary(t, visible_list(t, cs, bound)[k] as int) && visible_list(t, cs, bound)[k] < bound,
    decreases bound, 0int, cs.len(),
{
    if cs.len() > 0 {
        let c = cs.last();
        lemma_visible_list_inside(t, cs.drop_last(), bound);
        let pre = visible_list(t, cs.drop_last(), bound);
        let v = visible_list(t, cs, bound);
        if 0 <= c < bound {
            lemma_visible_inside(t, c as int);
            let tail = visible(t, c as int);
            assert forall|k: int| 0 <= k < v.len() implies valid_id(t, #[trigger] v[k] as int) && !is_boundary(t, v[k] as int)
                && v[k] < bound by {
                if k < pre.len() {
                    assert(v[k] == pre[k]);
                } else {
                    assert(v[k] == tail[k - pre.len()]);
                }
            }
        } else {
            assert(v =~= pre);
        }
    }
}

/// Append the nodes visible from `id` (see [`visible`]) to `out`.
pub fn collect_visible(t: &IrTree, id: u32, out: &mut Vec<u32>)
    ensures
        final(out)@ == old(out)@ + visible(t@, id as int),
    decreases id,
{
    if t.kind(id).is_none() || t.is_kind(id, IrKind::Lambda) || t.is_kind(id, IrKind::Unsafe) {
        assert(old(out)@ + visible(t@, id as int) =~= old(out)@);
        return;
    }
    let ghost start = out@;
    out.push(id);
    let cs = t.children(id);
    let mut k: usize = 0;
    while k < cs.len()
        invariant
            valid_id(t@, id as int),
            cs@ == children_of(t@, id as int),
            forall|j: int| 0 <= j < cs@.len() ==> 1 <= #[trigger] cs@[j] < id,
            k <= cs@.len(),
            out@ == start + seq![id] + visible_list(t@, cs@.subrange(0, k as int), id as int),
        decreases cs@.len() - k,
    {
        let c = cs[k];
        collect_visible(t, c, out);
        proof {
            let pre = cs@.subrange(0, k as int);
            let post = cs@.subrange(0, k + 1);
            assert(post.drop_last() =~= pre);
            assert(post.last() == c);
            assert(out@ =~= start + seq![id] + visible_list(t@, post, id as int));
        }
        k = k + 1;
    }
    assert(cs@.subrange(0, cs@.len() as int) =~= cs@);
    assert(out@ =~= old(out)@ + visible(t@, id as int));
}

/// The nodes visible from `id` (see [`visible`]).
pub fn visible_nodes(t: &IrTree, id: u32) -> (r: Vec<u32>)
    ensures
        r@ == visible(t@, id as int),
{
    let mut out: Vec<u32> = Vec::new();
    collect_visible(t, id, &mut out);
    assert(out@ =~= visible(t@, id as int));
    out
}

/// The members of `ids` that name a node of kind `k`, in order.
pub open spec fn of_kind(t: Seq<IrNodeView>, ids: Seq<u32>, k: IrKind) -> Seq<u32> {
    ids.filter(|id: u32| has_kind(t, id as int, k))
}

/// The members of `ids` that name a node of kind `k`, in order.
pub fn filter_kind(t: &IrTree, ids: &Vec<u32>, k: IrKind) -> (r: Vec<u32>)
    ensures
        r@ == of_kind(t@, ids@, k),
{
    let mut out: Vec<u32> = Vec::new();
    let mut i: usize = 0;
    while i < ids.len()
        invariant
            i <= ids@.len(),
            out@ == of_kind(t@, ids@.subrange(0, i as int), k),
        decreases ids@.len() - i,
    {
        let id = ids[i];
        if t.is_kind(id, k) {
            out.push(id);
        }
        proof {
            let f = |id: u32| has_kind(t@, id as int, k);
            assert(ids@.subrange(0, i + 1) =~= ids@.subrange(0, i as int).push(id));
            ids@.subrange(0, i as int).lemma_filter_push(id, f);
        }
        i = i + 1;
    }
    assert(ids@.subrange(0, ids@.len() as int) =~= ids@);
    out
}

/// Interrupt-handler attributes of a binding (`@interrupt` /
/// `@interrupt_error`).
#[derive(Clone, Debug, PartialEq, Eq)]
pub struct InterruptAttr {
    /// The vector pushes an error code (the `@interrupt_error` form).
    pub has_error_code: bool,
    /// The interrupt vector.
    pub vector: u8,
    /// The handler's name.
    pub name: String,
}

/// Memory ordering of an atomic binding.
#[derive(Copy, Clone, Debug, PartialEq, Eq, Structural)]
pub enum AtomicOrdering {
    Relaxed,
    Acquire,
    Release,
    AcqRel,
    SeqCst,
}

/// Calling convention of a function binding.
#[derive(Copy, Clone, Debug, PartialEq, Eq, Structural)]
pub enum CallingConvention {
    /// System V AMD64.
    Sysv,
    /// Microsoft x64.
    Ms,
}

/// Per-binding metadata of a `let`.
#[derive(Clone, Debug)]
pub struct LetInfo {
    /// `@no_frame`: no frame-pointer prologue / epilogue.
    pub no_frame: bool,
    /// Interrupt-handler marker.
    pub interrupt: Option<InterruptAttr>,
    /// Atomic access ordering.
    pub atomic: Option<AtomicOrdering>,
    /// Calling convention annotation.
    pub abi: Option<CallingConvention>,
}

/// Closure metadata of a closure body lambda.
#[derive(Clone, Debug)]
pub struct ClosureMeta {
    /// The linker-visible name of the closure body.
    pub mangled_name: String,
    /// Size in bytes of the captured-environment record.
    pub env_size: u64,
}

/// The arena with the side tables the emit passes read, each keyed by node
/// id.
pub struct IrArena {
    /// The node arena.
    pub tree: IrTree,
    /// Source-level binding name of a node.
    pub binding_names: HashMapWithView<u32, String>,
    /// Metadata of a `let` node.
    pub let_meta: HashMapWithView<u32, LetInfo>,
    /// Closure metadata of a closure body lambda.
    pub closure_meta: HashMapWithView<u32, ClosureMeta>,
    /// `let` nodes that have an entry in the data table.
    pub data_lets: HashMapWithView<u32, ()>,
    /// Field accesses through a module name.
    pub module_field_refs: HashMapWithView<u32, ()>,
    /// Statement-scope (function-local) `let` nodes.
    pub stmt_lets: HashMapWithView<u32, ()>,
    /// `let` nodes marked public.
    pub public_lets: HashMapWithView<u32, ()>,
    /// Nodes that carry a literal value.
    pub literal_nodes: HashMapWithView<u32, ()>,
}

impl IrArena {
    /// An empty arena with empty side tables.
    pub fn new() -> (r: Self)
        ensures
            r.tree@ == Seq::<IrNodeView>::empty(),
            r.binding_names@ == Map::<u32, String>::empty(),
            r.let_meta@ == Map::<u32, LetInfo>::empty(),
            r.closure_meta@ == Map::<u32, ClosureMeta>::empty(),
            r.data_lets@ == Map::<u32, ()>::empty(),
            r.module_field_refs@ == Map::<u32, ()>::empty(),
            r.stmt_lets@ == Map::<u32, ()>::empty(),
            r.public_lets@ == Map::<u32, ()>::empty(),
            r.literal_nodes@ == Map::<u32, ()>::empty(),
    {
        IrArena {
            tree: IrTree::new(),
            binding_names: HashMapWithView::new(),
            let_meta: HashMapWithView::new(),
            closure_meta: HashMapWithView::new(),
            data_lets: HashMapWithView::new(),
            module_field_refs: HashMapWithView::new(),
            stmt_lets: HashMapWithView::new(),
            public_lets: HashMapWithView::new(),
            literal_nodes: HashMapWithView::new(),
        }
    }
}

} // verus!
