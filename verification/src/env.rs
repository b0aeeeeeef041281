//! Type environment for phase-1 inference: a stack of scopes mapping symbols
//! to types, where the innermost binding of a symbol wins.

use std::collections::HashMap;
use vstd::prelude::*;

verus! {

broadcast use vstd::std_specs::hash::group_hash_axioms;

/// Symbol identifier: phase-1 uses the interned mnemonic id of the IR node.
pub type Symbol = u32;

/// A type handle: a non-zero index into the type arena.
#[derive(Clone, Copy, Debug, PartialEq, Eq, Hash, Structural)]
pub struct TypeId {
    raw: u32,
}

impl View for TypeId {
    type V = u32;

    closed spec fn view(&self) -> u32 {
        self.raw
    }
}

impl TypeId {
    #[verifier::type_invariant]
    spec fn non_zero(self) -> bool {
        self.raw != 0
    }

    /// The handle for arena index `raw`; `None` for the reserved index 0.
    pub fn new(raw: u32) -> (r: Option<TypeId>)
        ensures
            raw == 0 <==> r is None,
            r matches Some(t) ==> t@ == raw,
    {
        if raw == 0 {
            None
        } else {
            Some(TypeId { raw })
        }
    }

    /// The arena index of this handle (never 0).
    pub fn get(&self) -> (r: u32)
        ensures
            r == self@,
            r != 0,
    {
        proof {
            use_type_invariant(self);
        }
        self.raw
    }
}

/// The binding of `sym` as seen from the top of `scopes`: the innermost scope
/// that binds it decides.
pub open spec fn lookup_in(scopes: Seq<Map<Symbol, TypeId>>, sym: Symbol) -> Option<TypeId>
    decreases scopes.len(),
{
    if scopes.len() == 0 {
        None
    } else if scopes.last().contains_key(sym) {
        Some(scopes.last()[sym])
    } else {
        lookup_in(scopes.drop_last(), sym)
    }
}

/// `scopes` with `sym` bound to `t` in the innermost scope.
pub open spec fn bind_in(scopes: Seq<Map<Symbol, TypeId>>, sym: Symbol, t: TypeId) -> Seq<
    Map<Symbol, TypeId>,
>
    recommends
        scopes.len() > 0,
{
    scopes.update(scopes.len() - 1, scopes.last().insert(sym, t))
}

/// Mapping from symbols to types, with a scope stack for block scoping.
#[derive(Clone, Debug)]
pub struct TypeEnv {
    scopes: Vec<HashMap<Symbol, TypeId>>,
}

impl View for TypeEnv {
    type V = Seq<Map<Symbol, TypeId>>;

    closed spec fn view(&self) -> Seq<Map<Symbol, TypeId>> {
        self.scopes@.map_values(|m: HashMap<Symbol, TypeId>| m@)
    }
}

impl Default for TypeEnv {
    /// An environment with no scope at all (not even the root scope).
    fn default() -> (r: Self)
        ensures
            r@ == Seq::<Map<Symbol, TypeId>>::empty(),
    {
        let r = TypeEnv { scopes: Vec::new() };
        assert(r@ =~= Seq::<Map<Symbol, TypeId>>::empty());
        r
    }
}

impl TypeEnv {
    /// A new environment with a single, empty root scope.
    pub fn new() -> (r: Self)
        ensures
            r@ == seq![Map::<Symbol, TypeId>::empty()],
    {
        let mut scopes: Vec<HashMap<Symbol, TypeId>> = Vec::new();
        scopes.push(HashMap::new());
        let r = TypeEnv { scopes };
        assert(r@ =~= seq![Map::<Symbol, TypeId>::empty()]);
        r
    }

    /// The most recent binding of `sym`, searching from the innermost scope
    /// outward; `None` when no scope binds it.
    pub fn lookup(&self, sym: Symbol) -> (r: Option<TypeId>)
        ensures
            r == lookup_in(self@, sym),
    {
        let mut i = self.scopes.len();
        assert(self@.subrange(0, i as int) =~= self@);
        while i > 0
            invariant
                i <= self.scopes.len(),
                lookup_in(self@, sym) == lookup_in(self@.subrange(0, i as int), sym),
            decreases i,
        {
            proof {
                let sub = self@.subrange(0, i as int);
                assert(sub.last() == self.scopes[i - 1]@);
                assert(sub.drop_last() =~= self@.subrange(0, i - 1));
            }
            if let Some(t) = self.scopes[i - 1].get(&sym) {
                return Some(*t);
            }
            i = i - 1;
        }
        None
    }

    /// Bind `sym` to `t` in the innermost scope, replacing a binding of `sym`
    /// in that scope; outer scopes are unaffected.
    pub fn bind(&mut self, sym: Symbol, t: TypeId)
        requires
            old(self)@.len() > 0,
        ensures
            final(self)@ == bind_in(old(self)@, sym, t),
    {
        let mut last = self.scopes.pop().unwrap();
        last.insert(sym, t);
        self.scopes.push(last);
        assert(self@ =~= bind_in(old(self)@, sym, t));
    }

    /// Push a new, empty scope.
    pub fn enter_scope(&mut self)
        ensures
            final(self)@ == old(self)@.push(Map::<Symbol, TypeId>::empty()),
    {
        self.scopes.push(HashMap::new());
        assert(self@ =~= old(self)@.push(Map::<Symbol, TypeId>::empty()));
    }

    /// Pop the innermost scope; the root scope must remain.
    pub fn leave_scope(&mut self)
        requires
            old(self)@.len() > 1,
        ensures
            final(self)@ == old(self)@.drop_last(),
    {
        self.scopes.pop();
        assert(self@ =~= old(self)@.drop_last());
    }

    /// The depth of the scope stack (1 for the root scope alone).
    pub fn depth(&self) -> (r: usize)
        ensures
            r == self@.len(),
    {
        self.scopes.len()
    }
}

/// A binding is visible right after it is made, and leaves every other
/// symbol's lookup as it was.
pub proof fn lemma_lookup_after_bind(scopes: Seq<Map<Symbol, TypeId>>, sym: Symbol, t: TypeId, other: Symbol)
    requires
        scopes.len() > 0,
    ensures
        lookup_in(bind_in(scopes, sym, t), sym) == Some(t),
        other != sym ==> lookup_in(bind_in(scopes, sym, t), other) == lookup_in(scopes, other),
{
    let b = bind_in(scopes, sym, t);
    assert(b.drop_last() =~= scopes.drop_last());
}

/// Entering a scope changes no lookup: outer bindings stay visible.
pub proof fn lemma_enter_scope_keeps_lookups(scopes: Seq<Map<Symbol, TypeId>>, sym: Symbol)
    ensures
        lookup_in(scopes.push(Map::<Symbol, TypeId>::empty()), sym) == lookup_in(scopes, sym),
{
    assert(scopes.push(Map::<Symbol, TypeId>::empty()).drop_last() =~= scopes);
}

/// Leaving a scope undoes entering it, whatever was bound meanwhile: an inner
/// binding that shadowed an outer one disappears with its scope.
pub proof fn lemma_leave_scope_restores(
    scopes: Seq<Map<Symbol, TypeId>>,
    binds: Seq<(Symbol, TypeId)>,
)
    ensures
        bind_all(scopes.push(Map::<Symbol, TypeId>::empty()), binds).drop_last() == scopes,
        bind_all(scopes.push(Map::<Symbol, TypeId>::empty()), binds).len() == scopes.len() + 1,
    decreases binds.len(),
{
    if binds.len() > 0 {
        lemma_leave_scope_restores(scopes, binds.drop_last());
    }
    assert(bind_all(scopes.push(Map::<Symbol, TypeId>::empty()), binds).drop_last() =~= scopes);
}

/// `scopes` after binding each pair of `binds` in turn in the innermost scope.
pub open spec fn bind_all(scopes: Seq<Map<Symbol, TypeId>>, binds: Seq<(Symbol, TypeId)>) -> Seq<
    Map<Symbol, TypeId>,
>
    decreases binds.len(),
{
    if binds.len() == 0 {
        scopes
    } else {
        let prev = bind_all(scopes, binds.drop_last());
        bind_in(prev, binds.last().0, binds.last().1)
    }
}

} // verus!
