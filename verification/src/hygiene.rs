//! Macro hygiene (Lean 4 / Ullrich 2020 style).
//!
//! Every identifier carries a set of `MacroId` tags.  Identifiers introduced
//! inside a macro template get a fresh tag at expansion time; identifiers
//! passed in from the use site keep the use-site context.  Name resolution
//! compares spellings and tag sets, so a `temp` introduced inside macro `M`
//! cannot collide with a use-site `temp` passed as an argument.
//!
//! Fresh tags come from an explicit [`MacroIdSupply`]; a [`HygieneCache`]
//! maps node ids to the hygienic names of identifiers introduced by a splice.

use vstd::hash_map::HashMapWithView;
use vstd::prelude::*;

verus! {

broadcast use vstd::std_specs::hash::group_hash_axioms;

/// One macro expansion's hygiene tag: a non-zero number, distinct from every
/// tag handed out before by the same supply.
#[derive(Copy, Clone, PartialEq, Eq, Structural, Hash, PartialOrd, Ord, Debug)]
pub struct MacroId {
    raw: u32,
}

impl View for MacroId {
    type V = u32;

    open spec fn view(&self) -> u32 {
        self.spec_raw()
    }
}

impl MacroId {
    /// The tag's number.
    pub closed spec fn spec_raw(&self) -> u32 {
        self.raw
    }

    #[verifier::type_invariant]
    closed spec fn non_zero(self) -> bool {
        self.raw != 0
    }

    /// Allocate a fresh tag: the supply's next number, which exceeds every
    /// number the supply handed out before.
    pub fn fresh(supply: &mut MacroIdSupply) -> (r: MacroId)
        requires
            !old(supply).spec_exhausted(),
        ensures
            r@ == old(supply)@,
            r@ != 0,
            final(supply)@ == old(supply)@ + 1,
            forall|t: MacroId| old(supply).has_issued(t) ==> t != r,
            forall|t: MacroId| old(supply).has_issued(t) ==> final(supply).has_issued(t),
            final(supply).has_issued(r),
    {
        proof {
            use_type_invariant(&*supply);
        }
        let n = supply.next as u32;
        supply.next = supply.next + 1;
        MacroId { raw: n }
    }

    /// Raw integer value.
    pub fn get(self) -> (r: u32)
        ensures
            r == self@,
            r != 0,
    {
        proof {
            use_type_invariant(&self);
        }
        self.raw
    }

    /// The tag as displayed: `m` followed by its number in decimal.
    pub fn to_display_string(&self) -> (r: String)
        ensures
            r@ == seq!['m'] + decimal(self@ as nat),
    {
        let mut s = "m".to_owned();
        proof {
            reveal_strlit("m");
        }
        push_decimal(&mut s, self.raw);
        s
    }
}

/// Source of fresh macro tags: tags 1, 2, 3, ... in order.
#[derive(Debug)]
pub struct MacroIdSupply {
    next: u64,
}

impl View for MacroIdSupply {
    type V = nat;

    /// The number of the next tag.
    closed spec fn view(&self) -> nat {
        self.next as nat
    }
}

impl MacroIdSupply {
    #[verifier::type_invariant]
    closed spec fn in_range(self) -> bool {
        1 <= self.next <= u32::MAX + 1
    }

    /// Every 32-bit tag has been handed out.
    pub open spec fn spec_exhausted(&self) -> bool {
        self@ > u32::MAX
    }

    /// `t` was handed out by this supply.
    pub open spec fn has_issued(&self, t: MacroId) -> bool {
        1 <= t@ < self@
    }

    /// A supply whose first tag is 1.
    pub fn new() -> (r: Self)
        ensures
            r@ == 1,
    {
        MacroIdSupply { next: 1 }
    }

    /// Every 32-bit tag has been handed out; `MacroId::fresh` may not be called.
    pub fn exhausted(&self) -> (r: bool)
        ensures
            r == self.spec_exhausted(),
    {
        self.next > u32::MAX as u64
    }
}

/// Decimal spelling of a digit.
pub open spec fn digit_char(d: nat) -> char {
    (48 + d) as char
}

/// Decimal spelling of `n`, most significant digit first.
pub open spec fn decimal(n: nat) -> Seq<char>
    decreases n,
{
    if n < 10 {
        seq![digit_char(n)]
    } else {
        decimal(n / 10).push(digit_char(n % 10))
    }
}

fn digit_str(d: u32) -> (r: &'static str)
    requires
        d < 10,
    ensures
        r@ == seq![digit_char(d as nat)],
{
    proof {
        reveal_strlit("0");
        reveal_strlit("1");
        reveal_strlit("2");
        reveal_strlit("3");
        reveal_strlit("4");
        reveal_strlit("5");
        reveal_strlit("6");
        reveal_strlit("7");
        reveal_strlit("8");
        reveal_strlit("9");
    }
    let r = if d == 0 { "0" }
    else if d == 1 { "1" }
    else if d == 2 { "2" }
    else if d == 3 { "3" }
    else if d == 4 { "4" }
    else if d == 5 { "5" }
    else if d == 6 { "6" }
    else if d == 7 { "7" }
    else if d == 8 { "8" }
    else { "9" };
    assert(r@ =~= seq![digit_char(d as nat)]);
    r
}

pub(crate) fn push_decimal(s: &mut String, n: u32)
    ensures
        final(s)@ == old(s)@ + decimal(n as nat),
    decreases n,
{
    if n >= 10 {
        push_decimal(s, n / 10);
    }
    s.append(digit_str(n % 10));
    assert(final(s)@ =~= old(s)@ + decimal(n as nat)) by {
        if n >= 10 {
            assert(decimal(n as nat) == decimal((n / 10) as nat).push(digit_char((n % 10) as nat)));
        }
    }
}

/// The tags are listed in strictly increasing order (sorted, no repeats).
pub open spec fn strictly_increasing(tags: Seq<MacroId>) -> bool {
    forall|i: int, j: int| 0 <= i < j < tags.len() ==> tags[i]@ < tags[j]@
}

/// Mathematical value of a [`HygienicName`].
pub ghost struct HygienicNameView {
    pub spelling: Seq<char>,
    pub tags: Seq<MacroId>,
}

impl HygienicNameView {
    /// The tag list is in canonical (sorted, deduplicated) form.
    pub open spec fn wf(self) -> bool {
        strictly_increasing(self.tags)
    }

    /// `self` is `prev` carrying one more tag, `tag`, in canonical form.
    pub open spec fn tagged_from(self, prev: HygienicNameView, tag: MacroId) -> bool {
        &&& self.wf()
        &&& self.spelling == prev.spelling
        &&& self.tags.to_set() == prev.tags.to_set().insert(tag)
    }
}

/// A name plus the set of macro tags it inherited from its expansion context,
/// kept sorted and deduplicated so that equality compares tag sets.
#[derive(Clone, Eq, Debug, Hash)]
pub struct HygienicName {
    /// Source-level spelling.
    pub spelling: String,
    /// Macro tags inherited from the expansion context, sorted + deduplicated.
    pub tags: Vec<MacroId>,
}

impl View for HygienicName {
    type V = HygienicNameView;

    open spec fn view(&self) -> HygienicNameView {
        HygienicNameView { spelling: self.spelling@, tags: self.tags@ }
    }
}

/// Insert `t` into the canonical tag list `tags`.
fn insert_tag(tags: &mut Vec<MacroId>, t: MacroId)
    requires
        strictly_increasing(old(tags)@),
    ensures
        strictly_increasing(final(tags)@),
        final(tags)@.to_set() == old(tags)@.to_set().insert(t),
{
    let ghost old_tags = tags@;
    let mut i: usize = 0;
    while i < tags.len() && tags[i].get() < t.get()
        invariant
            0 <= i <= tags@.len(),
            tags@ == old_tags,
            strictly_increasing(tags@),
            forall|j: int| 0 <= j < i ==> tags@[j]@ < t@,
        decreases tags@.len() - i,
    {
        i += 1;
    }
    if i < tags.len() && tags[i].get() == t.get() {
        assert(tags@[i as int] == t);
        assert(old_tags.to_set().insert(t) =~= old_tags.to_set());
        return;
    }
    tags.insert(i, t);
    proof {
        assert(tags@ =~= old_tags.insert(i as int, t));
        assert forall|a: int, b: int| 0 <= a < b < tags@.len() implies tags@[a]@ < tags@[b]@ by {
            if b < i {
            } else if b == i {
            } else if a < i {
                assert(tags@[b] == old_tags[b - 1]);
            } else if a == i {
                assert(tags@[b] == old_tags[b - 1]);
                assert(old_tags[i as int]@ >= t@);
                if b - 1 > i {
                    assert(old_tags[i as int]@ < old_tags[b - 1]@);
                }
            } else {
                assert(tags@[a] == old_tags[a - 1]);
                assert(tags@[b] == old_tags[b - 1]);
            }
        }
        assert forall|x: MacroId| tags@.to_set().contains(x) <==> old_tags.to_set().insert(t).contains(x) by {
            if tags@.contains(x) {
                let k = choose|k: int| 0 <= k < tags@.len() && tags@[k] == x;
                if k < i {
                    assert(old_tags[k] == x);
                } else if k > i {
                    assert(old_tags[k - 1] == x);
                }
            }
            if old_tags.contains(x) {
                let k = choose|k: int| 0 <= k < old_tags.len() && old_tags[k] == x;
                if k < i {
                    assert(tags@[k] == x);
                } else {
                    assert(tags@[k + 1] == x);
                }
            }
            assert(tags@[i as int] == t);
        }
        assert(tags@.to_set() =~= old_tags.to_set().insert(t));
    }
}

/// Canonical (sorted, deduplicated) form of a tag list.
fn canonical_tags(tags: &Vec<MacroId>) -> (r: Vec<MacroId>)
    ensures
        strictly_increasing(r@),
        r@.to_set() == tags@.to_set(),
{
    let mut out: Vec<MacroId> = Vec::new();
    let mut i: usize = 0;
    while i < tags.len()
        invariant
            0 <= i <= tags@.len(),
            strictly_increasing(out@),
            out@.to_set() == tags@.subrange(0, i as int).to_set(),
        decreases tags@.len() - i,
    {
        insert_tag(&mut out, tags[i]);
        proof {
            assert(tags@.subrange(0, i + 1) =~= tags@.subrange(0, i as int).push(tags@[i as int]));
            tags@.subrange(0, i as int).lemma_push_to_set_commute(tags@[i as int]);
        }
        i += 1;
    }
    assert(tags@.subrange(0, i as int) =~= tags@);
    out
}

fn tags_equal(a: &Vec<MacroId>, b: &Vec<MacroId>) -> (r: bool)
    ensures
        r == (a@ == b@),
{
    if a.len() != b.len() {
        return false;
    }
    let mut i: usize = 0;
    while i < a.len()
        invariant
            0 <= i <= a@.len(),
            a@.len() == b@.len(),
            forall|j: int| 0 <= j < i ==> a@[j] == b@[j],
        decreases a@.len() - i,
    {
        if a[i] != b[i] {
            return false;
        }
        i += 1;
    }
    assert(a@ =~= b@);
    true
}

impl HygienicName {
    /// A name with the supplied tag set, put in canonical (sorted,
    /// deduplicated) form so that equality is well-defined.
    pub fn new(spelling: &str, tags: Vec<MacroId>) -> (r: Self)
        ensures
            r@.wf(),
            r@.spelling == spelling@,
            r@.tags.to_set() == tags@.to_set(),
    {
        let tags = canonical_tags(&tags);
        HygienicName { spelling: spelling.to_owned(), tags }
    }

    /// A name with no expansion tags (introduced at the source root).
    pub fn unmarked(spelling: &str) -> (r: Self)
        ensures
            r@.wf(),
            r@.spelling == spelling@,
            r@.tags.len() == 0,
    {
        let r = Self::new(spelling, Vec::new());
        proof {
            if r@.tags.len() > 0 {
                assert(r@.tags.to_set().contains(r@.tags[0]));
            }
        }
        r
    }

    /// Add `tag` to the name's tag set, as when crossing a macro template
    /// boundary: every identifier introduced by the template gets the macro's
    /// fresh tag.
    pub fn with_tag(self, tag: MacroId) -> (r: Self)
        ensures
            r@.tagged_from(self@, tag),
    {
        let mut tags = canonical_tags(&self.tags);
        insert_tag(&mut tags, tag);
        HygienicName { spelling: self.spelling, tags }
    }
}

impl PartialEq for HygienicName {
    fn eq(&self, other: &Self) -> (r: bool) {
        self.spelling.eq(&other.spelling) && tags_equal(&self.tags, &other.tags)
    }
}

impl vstd::std_specs::cmp::PartialEqSpecImpl for HygienicName {
    open spec fn obeys_eq_spec() -> bool {
        true
    }

    open spec fn eq_spec(&self, other: &Self) -> bool {
        self@ == other@
    }
}

proof fn lemma_increasing_determined_by_set(a: Seq<MacroId>, b: Seq<MacroId>)
    requires
        strictly_increasing(a),
        strictly_increasing(b),
        a.to_set() == b.to_set(),
    ensures
        a == b,
    decreases a.len() + b.len(),
{
    if a.len() == 0 {
        if b.len() > 0 {
            assert(b.to_set().contains(b[0]));
            assert(a.to_set().contains(b[0]));
        }
        assert(a =~= b);
    } else if b.len() == 0 {
        assert(a.to_set().contains(a[0]));
        assert(b.to_set().contains(a[0]));
    } else {
        // The largest elements agree; drop them and recurse.
        let (la, lb) = (a.last(), b.last());
        assert(a.to_set().contains(la));
        assert(b.to_set().contains(lb));
        let ka = choose|k: int| 0 <= k < a.len() && a[k] == lb;
        let kb = choose|k: int| 0 <= k < b.len() && b[k] == la;
        if ka < a.len() - 1 {
            assert(a[ka]@ < la@);
        }
        if kb < b.len() - 1 {
            assert(b[kb]@ < lb@);
        }
        assert(la == lb);
        let (a2, b2) = (a.drop_last(), b.drop_last());
        assert forall|x: MacroId| a2.to_set().contains(x) <==> b2.to_set().contains(x) by {
            if a2.contains(x) {
                let k = choose|k: int| 0 <= k < a2.len() && a2[k] == x;
                assert(a[k] == x && x@ < la@);
                assert(b.to_set().contains(x));
                let k2 = choose|k2: int| 0 <= k2 < b.len() && b[k2] == x;
                assert(k2 != b.len() - 1);
                assert(b2[k2] == x);
            }
            if b2.contains(x) {
                let k = choose|k: int| 0 <= k < b2.len() && b2[k] == x;
                assert(b[k] == x && x@ < lb@);
                assert(a.to_set().contains(x));
                let k2 = choose|k2: int| 0 <= k2 < a.len() && a[k2] == x;
                assert(k2 != a.len() - 1);
                assert(a2[k2] == x);
            }
        }
        assert(a2.to_set() =~= b2.to_set());
        lemma_increasing_determined_by_set(a2, b2);
        assert(a =~= a2.push(la));
        assert(b =~= b2.push(lb));
    }
}

/// Canonical names are equal exactly when spellings and tag sets agree: the
/// order in which tags arrived does not matter.
pub proof fn lemma_names_equal_iff_tag_sets_equal(a: HygienicNameView, b: HygienicNameView)
    requires
        a.wf(),
        b.wf(),
    ensures
        a == b <==> (a.spelling == b.spelling && a.tags.to_set() == b.tags.to_set()),
{
    if a.spelling == b.spelling && a.tags.to_set() == b.tags.to_set() {
        lemma_increasing_determined_by_set(a.tags, b.tags);
    }
}

/// Tagging twice with the same tag is the same as tagging once.
pub proof fn lemma_with_tag_idempotent(n: HygienicNameView, t: MacroId, a: HygienicNameView, b: HygienicNameView)
    requires
        a.tagged_from(n, t),
        b.tagged_from(a, t),
    ensures
        b == a,
{
    assert(a.tags.to_set().insert(t) =~= a.tags.to_set());
    lemma_names_equal_iff_tag_sets_equal(a, b);
}

/// Nested expansions accumulate tags regardless of order: tagging with `t1`
/// then `t2` gives the same name as tagging with `t2` then `t1`.
pub proof fn lemma_with_tag_commutes(
    n: HygienicNameView,
    t1: MacroId,
    t2: MacroId,
    a1: HygienicNameView,
    a: HygienicNameView,
    b1: HygienicNameView,
    b: HygienicNameView,
)
    requires
        a1.tagged_from(n, t1),
        a.tagged_from(a1, t2),
        b1.tagged_from(n, t2),
        b.tagged_from(b1, t1),
    ensures
        a == b,
{
    assert(a.tags.to_set() =~= b.tags.to_set());
    lemma_names_equal_iff_tag_sets_equal(a, b);
}

/// A macro-introduced identifier never equals an unmarked use-site
/// identifier of the same spelling.
pub proof fn lemma_tagged_differs_from_unmarked(n: HygienicNameView, t: MacroId, a: HygienicNameView)
    requires
        n.tags.len() == 0,
        a.tagged_from(n, t),
    ensures
        a != n,
        a.tags.len() >= 1,
{
    assert(a.tags.to_set().contains(t));
    assert(n.tags.to_set() =~= Set::<MacroId>::empty());
}

/// Cache mapping AST node ids to the hygienic names of identifiers that a
/// splice introduced.
pub struct HygieneCache {
    tags: HashMapWithView<u32, HygienicName>,
}

impl View for HygieneCache {
    type V = Map<u32, HygienicName>;

    closed spec fn view(&self) -> Map<u32, HygienicName> {
        self.tags@
    }
}

impl HygieneCache {
    /// A fresh, empty hygiene cache.
    pub fn new() -> (r: Self)
        ensures
            r@ == Map::<u32, HygienicName>::empty(),
    {
        HygieneCache { tags: HashMapWithView::new() }
    }

    /// Record that node `node_id` (typically an identifier) was introduced by
    /// a splice with tag `tag`: its name is `spelling` carrying `tag` alone.
    pub fn tag_introduced_at(&mut self, node_id: u32, spelling: String, tag: MacroId)
        ensures
            final(self)@.dom() == old(self)@.dom().insert(node_id),
            forall|k: u32| k != node_id && old(self)@.contains_key(k) ==> final(self)@[k] == old(self)@[k],
            final(self)@[node_id]@.spelling == spelling@,
            final(self)@[node_id]@.tags == seq![tag],
    {
        let hygienic_name = HygienicName::unmarked(spelling.as_str()).with_tag(tag);
        proof {
            let tags = hygienic_name@.tags;
            assert(tags.to_set() =~= set![tag]);
            assert(tags.to_set().contains(tags[0]));
            if tags.len() > 1 {
                assert(tags.to_set().contains(tags[1]));
                assert(tags[0]@ < tags[1]@);
            }
            assert(tags.to_set().contains(tag));
            assert(tags =~= seq![tag]);
        }
        self.tags.insert(node_id, hygienic_name);
    }

    /// The hygienic name recorded for a node, if it has been tagged.
    pub fn lookup(&self, node_id: u32) -> (r: Option<&HygienicName>)
        ensures
            match r {
                Some(n) => self@.contains_key(node_id) && *n == self@[node_id],
                None => !self@.contains_key(node_id),
            },
    {
        self.tags.get(&node_id)
    }

    /// Merge another cache into this one; on a shared node the entry of
    /// `other` wins.
    pub fn merge(&mut self, other: HygieneCache)
        ensures
            final(self)@ == old(self)@.union_prefer_right(other@),
    {
        self.tags.union_prefer_right(other.tags);
    }

    /// Number of cached entries.
    pub fn len(&self) -> (r: usize)
        ensures
            r == self@.len(),
    {
        self.tags.len()
    }

    /// True if the cache is empty.
    pub fn is_empty(&self) -> (r: bool)
        ensures
            r == (self@.len() == 0),
    {
        self.tags.len() == 0
    }
}

} // verus!
