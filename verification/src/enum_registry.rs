//! Enum-declaration registry: each named `enum` item gets the next enum type
//! id, and each of its variants a descriptor (name, payload type nodes).

use std::collections::HashMap;
use vstd::hash_map::StringHashMap;
use vstd::prelude::*;
use vstd::utf8::{encode_utf8, is_char_boundary};

use crate::file_module::str_byte_range;

verus! {

broadcast use vstd::std_specs::hash::group_hash_axioms;

/// Identifier of an enum type (ids are handed out from 1).
#[derive(Copy, Clone, Debug, PartialEq, Eq, Hash, Structural)]
pub struct EnumTypeId(pub u32);

/// A variant descriptor: the variant's name and its payload type nodes.
pub type VariantDescriptor = (String, Vec<u32>);

/// Mathematical value of a [`VariantDescriptor`].
pub type VariantView = (Seq<char>, Seq<u32>);

/// Views of a list of variant descriptors.
pub open spec fn variant_views(v: Seq<VariantDescriptor>) -> Seq<VariantView> {
    v.map_values(|d: VariantDescriptor| (d.0@, d.1@))
}

/// Registry of enum declarations: enum names to type ids, and type ids (by
/// number) to variant descriptors.
pub struct EnumRegistry {
    /// Enum name to its type id.
    pub by_name: StringHashMap<EnumTypeId>,
    /// Type id number to the enum's variant descriptors, in declaration order.
    pub variants: HashMap<u32, Vec<VariantDescriptor>>,
}

impl EnumRegistry {
    /// An empty registry.
    pub fn empty() -> (r: Self)
        ensures
            r.by_name@ == Map::<Seq<char>, EnumTypeId>::empty(),
            r.variants@ == Map::<u32, Vec<VariantDescriptor>>::empty(),
    {
        EnumRegistry { by_name: StringHashMap::new(), variants: HashMap::new() }
    }

    /// The type id of the enum named `name`.
    pub fn get_by_name(&self, name: &str) -> (r: Option<EnumTypeId>)
        ensures
            r == (if self.by_name@.contains_key(name@) {
                Some(self.by_name@[name@])
            } else {
                None
            }),
    {
        match self.by_name.get(name) {
            Some(id) => Some(*id),
            None => None,
        }
    }

    /// The variant descriptors of enum `type_id`.
    pub fn get_variants(&self, type_id: EnumTypeId) -> (r: Option<&Vec<VariantDescriptor>>)
        ensures
            match r {
                Some(v) => self.variants@.contains_key(type_id.0) && *v == self.variants@[type_id.0],
                None => !self.variants@.contains_key(type_id.0),
            },
    {
        self.variants.get(&type_id.0)
    }
}

/// The source text of the byte range `start..start + len` of `source`, or
/// `None` when the range runs past the end.
pub fn extract_source_text(source: &str, start: u32, len: u32) -> (r: Option<String>)
    requires
        start as int + len as int <= usize::MAX,
        encode_utf8(source@).len() <= usize::MAX,
        start + len <= encode_utf8(source@).len() ==> is_char_boundary(
            encode_utf8(source@),
            start as int,
        ) && is_char_boundary(encode_utf8(source@), start + len),
    ensures
        start + len > encode_utf8(source@).len() <==> r is None,
        r matches Some(text) ==> encode_utf8(text@) == encode_utf8(source@).subrange(
            start as int,
            start + len,
        ),
{
    let s = start as usize;
    let e = s + len as usize;
    if e > source.len() {
        return None;
    }
    let text = str_byte_range(source, s, e);
    Some(text.to_owned())
}

/// A variant as declared: name (when its text could be read) and shape.
#[derive(Clone, Debug)]
pub enum VariantDecl {
    /// `Name`
    Unit { name: Option<String> },
    /// `Name(T1, T2, ...)`: payload type nodes.
    Tuple { name: Option<String>, payload: Vec<u32> },
    /// `Name { f1: T1, ... }`: (field name node, type node) pairs.
    Record { name: Option<String>, fields: Vec<(u32, u32)> },
}

/// An `enum` item as declared: its name (when its text could be read) and
/// its variants.
#[derive(Clone, Debug)]
pub struct EnumDecl {
    pub name: Option<String>,
    pub variants: Vec<VariantDecl>,
}

/// The descriptor of a declared variant: its name and payload type nodes
/// (a record variant's field types); none when its name is unreadable.
pub open spec fn variant_descriptor(v: VariantDecl) -> Option<VariantView> {
    match v {
        VariantDecl::Unit { name } => match name {
            Some(n) => Some((n@, Seq::empty())),
            None => None,
        },
        VariantDecl::Tuple { name, payload } => match name {
            Some(n) => Some((n@, payload@)),
            None => None,
        },
        VariantDecl::Record { name, fields } => match name {
            Some(n) => Some((n@, fields@.map_values(|f: (u32, u32)| f.1))),
            None => None,
        },
    }
}

/// The descriptors of the readable variants among `vs`, in order.
pub open spec fn descriptors(vs: Seq<VariantDecl>) -> Seq<VariantView>
    decreases vs.len(),
{
    if vs.len() == 0 {
        Seq::empty()
    } else {
        let prev = descriptors(vs.drop_last());
        match variant_descriptor(vs.last()) {
            Some(d) => prev.push(d),
            None => prev,
        }
    }
}

/// Registry contents after the first `n` declarations: (names, variants
/// by id number, next id).
pub open spec fn registry_upto(decls: Seq<EnumDecl>, n: nat) -> (Map<Seq<char>, EnumTypeId>, Map<u32, Seq<VariantView>>, nat)
    decreases n,
{
    if n == 0 {
        (Map::empty(), Map::empty(), 1)
    } else {
        let (names, vars, next) = registry_upto(decls, (n - 1) as nat);
        let d = decls[n - 1];
        match d.name {
            Some(nm) => (
                names.insert(nm@, EnumTypeId(next as u32)),
                vars.insert(next as u32, descriptors(d.variants@)),
                next + 1,
            ),
            None => (names, vars, next),
        }
    }
}

/// The number of declarations with a readable name.
pub open spec fn named_count(decls: Seq<EnumDecl>) -> nat {
    decls.filter(|d: EnumDecl| d.name is Some).len()
}

proof fn lemma_next_id(decls: Seq<EnumDecl>, n: nat)
    requires
        n <= decls.len(),
        decls.subrange(0, n as int).filter(|d: EnumDecl| d.name is Some).len() < u32::MAX,
    ensures
        registry_upto(decls, n).2 == 1 + decls.subrange(0, n as int).filter(|d: EnumDecl| d.name is Some).len(),
        forall|k: u32| registry_upto(decls, n).1.contains_key(k) ==> 1 <= k < registry_upto(decls, n).2,
    decreases n,
{
    let f = |d: EnumDecl| d.name is Some;
    if n > 0 {
        assert(decls.subrange(0, n as int) =~= decls.subrange(0, n - 1).push(decls[n - 1]));
        decls.subrange(0, n - 1).lemma_filter_push(decls[n - 1], f);
        lemma_next_id(decls, (n - 1) as nat);
    } else {
        assert(decls.subrange(0, 0) =~= Seq::<EnumDecl>::empty());
    }
}

proof fn lemma_prefix_filter_len(decls: Seq<EnumDecl>, n: nat)
    requires
        n <= decls.len(),
    ensures
        decls.subrange(0, n as int).filter(|d: EnumDecl| d.name is Some).len() <= named_count(decls),
    decreases decls.len() - n,
{
    let f = |d: EnumDecl| d.name is Some;
    if n < decls.len() {
        lemma_prefix_filter_len(decls, n + 1);
        assert(decls.subrange(0, n + 1 as int) =~= decls.subrange(0, n as int).push(decls[n as int]));
        decls.subrange(0, n as int).lemma_filter_push(decls[n as int], f);
    } else {
        assert(decls.subrange(0, n as int) =~= decls);
    }
}

/// The descriptors of the readable variants of `vs`.
fn variant_descriptors(vs: &Vec<VariantDecl>) -> (r: Vec<VariantDescriptor>)
    ensures
        variant_views(r@) == descriptors(vs@),
{
    let mut out: Vec<VariantDescriptor> = Vec::new();
    let mut i: usize = 0;
    while i < vs.len()
        invariant
            i <= vs@.len(),
            variant_views(out@) == descriptors(vs@.subrange(0, i as int)),
        decreases vs@.len() - i,
    {
        let ghost prev = out@;
        let v = &vs[i];
        match v {
            VariantDecl::Unit { name } => {
                if let Some(n) = name {
                    out.push((n.clone(), Vec::new()));
                }
            },
            VariantDecl::Tuple { name, payload } => {
                if let Some(n) = name {
                    out.push((n.clone(), payload.clone()));
                }
            },
            VariantDecl::Record { name, fields } => {
                if let Some(n) = name {
                    let mut tys: Vec<u32> = Vec::new();
                    let mut k: usize = 0;
                    while k < fields.len()
                        invariant
                            k <= fields@.len(),
                            tys@ == fields@.subrange(0, k as int).map_values(|f: (u32, u32)| f.1),
                        decreases fields@.len() - k,
                    {
                        tys.push(fields[k].1);
                        assert(fields@.subrange(0, k + 1).map_values(|f: (u32, u32)| f.1) =~= fields@.subrange(
                            0,
                            k as int,
                        ).map_values(|f: (u32, u32)| f.1).push(fields@[k as int].1));
                        k = k + 1;
                    }
                    assert(fields@.subrange(0, fields@.len() as int) =~= fields@);
                    out.push((n.clone(), tys));
                }
            },
        }
        proof {
            let post = vs@.subrange(0, i + 1);
            assert(post.drop_last() =~= vs@.subrange(0, i as int));
            assert(post.last() == *v);
            assert(variant_views(out@) =~= descriptors(post));
        }
        i = i + 1;
    }
    assert(vs@.subrange(0, vs@.len() as int) =~= vs@);
    out
}

/// Build the registry from the `enum` items, in node order: each item with a
/// readable name gets the next type id (from 1) and its readable variants'
/// descriptors; an item whose name is unreadable is skipped.
pub fn build_enum_registry(decls: &Vec<EnumDecl>) -> (r: EnumRegistry)
    requires
        named_count(decls@) < u32::MAX,
    ensures
        r.by_name@ == registry_upto(decls@, decls@.len()).0,
        forall|k: u32| #[trigger] r.variants@.contains_key(k) <==> registry_upto(decls@, decls@.len()).1.contains_key(k),
        forall|k: u32| #[trigger] r.variants@.contains_key(k) ==> variant_views(r.variants@[k]@) == registry_upto(
            decls@,
            decls@.len(),
        ).1[k],
{
    let mut registry = EnumRegistry::empty();
    let mut next_id: u32 = 1;
    let mut i: usize = 0;
    while i < decls.len()
        invariant
            i <= decls@.len(),
            named_count(decls@) < u32::MAX,
            next_id == registry_upto(decls@, i as nat).2,
            registry.by_name@ == registry_upto(decls@, i as nat).0,
            forall|k: u32| #[trigger] registry.variants@.contains_key(k) <==> registry_upto(decls@, i as nat).1.contains_key(k),
            forall|k: u32| #[trigger] registry.variants@.contains_key(k) ==> variant_views(registry.variants@[k]@)
                == registry_upto(decls@, i as nat).1[k],
        decreases decls@.len() - i,
    {
        let d = &decls[i];
        proof {
            lemma_prefix_filter_len(decls@, (i + 1) as nat);
            lemma_prefix_filter_len(decls@, i as nat);
            lemma_next_id(decls@, i as nat);
            lemma_next_id(decls@, (i + 1) as nat);
        }
        if let Some(name) = &d.name {
            let type_id = EnumTypeId(next_id);
            let descs = variant_descriptors(&d.variants);
            registry.by_name.insert(name.clone(), type_id);
            registry.variants.insert(next_id, descs);
            next_id = next_id + 1;
        }
        i = i + 1;
    }
    registry
}

/// The registry stays consistent: every registered name maps to a type id
/// that has variant descriptors, and every type id is below the next id to
/// hand out.
pub proof fn lemma_registry_consistent(decls: Seq<EnumDecl>, n: nat)
    requires
        n <= decls.len(),
        named_count(decls) < u32::MAX,
    ensures
        forall|nm: Seq<char>| #[trigger] registry_upto(decls, n).0.contains_key(nm) ==> registry_upto(
            decls,
            n,
        ).1.contains_key(registry_upto(decls, n).0[nm].0),
        forall|nm: Seq<char>| #[trigger] registry_upto(decls, n).0.contains_key(nm) ==> registry_upto(
            decls,
            n,
        ).0[nm].0 < registry_upto(decls, n).2,
        forall|k: u32| #[trigger] registry_upto(decls, n).1.contains_key(k) ==> 1 <= k < registry_upto(decls, n).2,
    decreases n,
{
    lemma_prefix_filter_len(decls, n);
    lemma_next_id(decls, n);
    if n > 0 {
        lemma_registry_consistent(decls, (n - 1) as nat);
        lemma_prefix_filter_len(decls, (n - 1) as nat);
        lemma_next_id(decls, (n - 1) as nat);
        let (names, vars, next) = registry_upto(decls, (n - 1) as nat);
        let d = decls[n - 1];
        if d.name is Some {
            assert forall|nm: Seq<char>| #[trigger] registry_upto(decls, n).0.contains_key(nm) implies registry_upto(
                decls,
                n,
            ).1.contains_key(registry_upto(decls, n).0[nm].0) by {
                if nm != d.name->0@ {
                    assert(names.contains_key(nm));
                }
            }
        }
    }
}

} // verus!
