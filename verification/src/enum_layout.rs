//! Enum layouts: the payload size of each enum (the largest of its
//! variants' payloads, laid out with C-ABI alignment) and the record type of
//! each single-payload variant.

use std::collections::HashMap;
use vstd::prelude::*;
use vstd::std_specs::iter::IteratorSpec;

use crate::enum_registry::{EnumRegistry, VariantDescriptor};

verus! {

broadcast use vstd::std_specs::hash::group_hash_axioms;

/// Diagnostic number of an unsupported enum payload type (T0557).
pub const T_UNSUPPORTED_ENUM_PAYLOAD: u16 = 557;

/// Size of an enum's discriminant.
pub const DISCRIMINANT_SIZE: u64 = 8;

/// `x` rounded up to a multiple of `a`.
pub open spec fn align_up(x: nat, a: nat) -> nat {
    if a == 0 {
        x
    } else {
        ((x + a - 1) as int / a as int * a as int) as nat
    }
}

/// The field size a decoded field-type code carries: its low nibble.
pub open spec fn code_size(code: u8) -> nat {
    (code % 16) as nat
}

/// End offset of fields of sizes `sizes` laid out in order, each aligned to
/// its own size.
pub open spec fn fields_end(sizes: Seq<nat>) -> nat
    decreases sizes.len(),
{
    if sizes.len() == 0 {
        0
    } else {
        align_up(fields_end(sizes.drop_last()), sizes.last()) + sizes.last()
    }
}

/// The largest field alignment (at least 1).
pub open spec fn max_align(sizes: Seq<nat>) -> nat
    decreases sizes.len(),
{
    if sizes.len() == 0 {
        1
    } else if max_align(sizes.drop_last()) >= sizes.last() {
        max_align(sizes.drop_last())
    } else {
        sizes.last()
    }
}

/// C-ABI size of a payload with fields of sizes `sizes`: the fields' end,
/// tail-padded to the largest alignment.
pub open spec fn payload_size_of(sizes: Seq<nat>) -> nat {
    align_up(fields_end(sizes), max_align(sizes))
}

/// Every payload node has a decoded field type.
pub open spec fn all_resolved(codes: Map<u32, u8>, nodes: Seq<u32>) -> bool {
    forall|k: int| 0 <= k < nodes.len() ==> #[trigger] codes.contains_key(nodes[k])
}

/// Field sizes of payload nodes.
pub open spec fn node_sizes(codes: Map<u32, u8>, nodes: Seq<u32>) -> Seq<nat> {
    nodes.map_values(|n: u32| code_size(codes[n]))
}

/// The payload size of a variant with payload type nodes `nodes`: none when
/// some node's type cannot be decoded.
pub open spec fn variant_payload_spec(codes: Map<u32, u8>, nodes: Seq<u32>) -> Option<nat> {
    if all_resolved(codes, nodes) {
        Some(payload_size_of(node_sizes(codes, nodes)))
    } else {
        None
    }
}

/// The layout of a variant's payload can be computed: up to the first
/// undecodable node, every field size is non-zero and the fields end well
/// inside `u64`.
pub open spec fn payload_computable(codes: Map<u32, u8>, nodes: Seq<u32>) -> bool {
    forall|k: int|
        0 <= k < nodes.len() && #[trigger] all_resolved(codes, nodes.subrange(0, k + 1)) ==> code_size(codes[nodes[k]]) != 0
            && fields_end(node_sizes(codes, nodes.subrange(0, k + 1))) + 15 <= u64::MAX
}

proof fn lemma_align_up_bounds(x: nat, a: nat)
    requires
        a > 0,
    ensures
        x <= align_up(x, a) <= x + a - 1,
        align_up(x, a) % a == 0,
{
    let y = (x + a - 1) as int;
    vstd::arithmetic::div_mod::lemma_fundamental_div_mod(y, a as int);
    vstd::arithmetic::div_mod::lemma_mod_bound(y, a as int);
    vstd::arithmetic::div_mod::lemma_mod_multiples_basic(y / a as int, a as int);
    vstd::arithmetic::mul::lemma_mul_is_commutative(y / a as int, a as int);
}

proof fn lemma_max_align_bounds(sizes: Seq<nat>)
    requires
        forall|k: int| 0 <= k < sizes.len() ==> 1 <= #[trigger] sizes[k] <= 15,
    ensures
        1 <= max_align(sizes) <= 15,
    decreases sizes.len(),
{
    if sizes.len() > 0 {
        lemma_max_align_bounds(sizes.drop_last());
    }
}

/// Sum of field sizes.
pub open spec fn total_size(sizes: Seq<nat>) -> nat
    decreases sizes.len(),
{
    if sizes.len() == 0 {
        0
    } else {
        total_size(sizes.drop_last()) + sizes.last()
    }
}

/// A payload laid out with C-ABI alignment holds all its fields without
/// overlap (its size is at least the sum of the field sizes), and its size
/// is a multiple of the largest field alignment, padded by less than one
/// alignment unit.
pub proof fn lemma_payload_size_bounds(sizes: Seq<nat>)
    requires
        forall|k: int| 0 <= k < sizes.len() ==> 1 <= #[trigger] sizes[k] <= 15,
    ensures
        total_size(sizes) <= fields_end(sizes),
        fields_end(sizes) <= payload_size_of(sizes) < fields_end(sizes) + max_align(sizes),
        payload_size_of(sizes) % max_align(sizes) == 0,
    decreases sizes.len(),
{
    if sizes.len() > 0 {
        let rest = sizes.drop_last();
        lemma_payload_size_bounds(rest);
        lemma_align_up_bounds(fields_end(rest), sizes.last());
    }
    lemma_max_align_bounds(sizes);
    lemma_align_up_bounds(fields_end(sizes), max_align(sizes));
}

/// The C-ABI payload size of a variant (see [`variant_payload_spec`]).
/// `codes` maps each payload node whose type decodes to its field-type
/// code.
pub fn compute_variant_payload_size(nodes: &[u32], codes: &HashMap<u32, u8>) -> (r: Option<u64>)
    requires
        payload_computable(codes@, nodes@),
    ensures
        match variant_payload_spec(codes@, nodes@) {
            Some(n) => r == Some(n as u64),
            None => r is None,
        },
{
    let mut offset: u64 = 0;
    let mut align: u64 = 1;
    let mut k: usize = 0;
    while k < nodes.len()
        invariant
            k <= nodes@.len(),
            payload_computable(codes@, nodes@),
            all_resolved(codes@, nodes@.subrange(0, k as int)),
            offset == fields_end(node_sizes(codes@, nodes@.subrange(0, k as int))),
            align == max_align(node_sizes(codes@, nodes@.subrange(0, k as int))),
            1 <= align <= 15,
            k > 0 ==> offset + 15 <= u64::MAX,
        decreases nodes@.len() - k,
    {
        let code = match codes.get(&nodes[k]) {
            Some(c) => *c,
            None => {
                assert(!all_resolved(codes@, nodes@)) by {
                    assert(!codes@.contains_key(nodes@[k as int]));
                }
                return None;
            },
        };
        let field_size = (code & 0x0F) as u64;
        assert(code & 0x0F == code % 16) by (bit_vector);
        let ghost pre = nodes@.subrange(0, k as int);
        let ghost post = nodes@.subrange(0, k + 1);
        proof {
            assert(post =~= pre.push(nodes@[k as int]));
            assert(all_resolved(codes@, post)) by {
                assert forall|j: int| 0 <= j < post.len() implies #[trigger] codes@.contains_key(post[j]) by {
                    if j < k {
                        assert(pre[j] == post[j]);
                    }
                }
            }
            assert(node_sizes(codes@, post) =~= node_sizes(codes@, pre).push(code_size(code)));
            assert(node_sizes(codes@, post).drop_last() =~= node_sizes(codes@, pre));
            lemma_align_up_bounds(offset as nat, field_size as nat);
        }
        if field_size > align {
            align = field_size;
        }
        offset = ((offset + field_size - 1) / field_size) * field_size;
        offset = offset + field_size;
        k = k + 1;
    }
    proof {
        assert(nodes@.subrange(0, nodes@.len() as int) =~= nodes@);
        lemma_align_up_bounds(offset as nat, align as nat);
    }
    offset = ((offset + align - 1) / align) * align;
    Some(offset)
}

/// Layout of an enum: discriminant then payload.
#[derive(Copy, Clone, Debug, PartialEq, Eq, Structural)]
pub struct EnumLayout {
    /// Size of the largest variant payload.
    pub payload_size: u64,
    /// Total size: discriminant plus payload.
    pub size: u64,
}

impl EnumLayout {
    /// The layout of an enum whose largest payload is `payload_size` bytes.
    pub fn new(payload_size: u64) -> (r: Self)
        requires
            payload_size + DISCRIMINANT_SIZE <= u64::MAX,
        ensures
            r.payload_size == payload_size,
            r.size == DISCRIMINANT_SIZE + payload_size,
    {
        EnumLayout { payload_size, size: DISCRIMINANT_SIZE + payload_size }
    }
}

/// The largest computable payload among `variants` (0 when none is).
pub open spec fn max_payload(codes: Map<u32, u8>, variants: Seq<VariantDescriptor>) -> nat
    decreases variants.len(),
{
    if variants.len() == 0 {
        0
    } else {
        let prev = max_payload(codes, variants.drop_last());
        match variant_payload_spec(codes, variants.last().1@) {
            Some(n) => if n > prev {
                n
            } else {
                prev
            },
            None => prev,
        }
    }
}

/// A variant whose payload type cannot be laid out: reported as T0557 at
/// its first payload node.
#[derive(Clone, Debug)]
pub struct UnsupportedPayload {
    /// The diagnostic's message.
    pub message: String,
    /// The variant's first payload node.
    pub node: u32,
}

/// Message of the T0557 diagnostic for variant `name`.
pub open spec fn unsupported_message(name: Seq<char>) -> Seq<char> {
    "enum payload type not yet supported for layout: variant "@ + name
}

/// The reports of an enum's variants, in order: one (message, first payload
/// node) for each variant whose payload cannot be laid out and that has a
/// payload node.
pub open spec fn unsupported_reports(codes: Map<u32, u8>, variants: Seq<VariantDescriptor>) -> Seq<
    (Seq<char>, u32),
>
    decreases variants.len(),
{
    if variants.len() == 0 {
        Seq::empty()
    } else {
        let prev = unsupported_reports(codes, variants.drop_last());
        let v = variants.last();
        if variant_payload_spec(codes, v.1@) is None && v.1@.len() > 0 {
            prev.push((unsupported_message(v.0@), v.1@[0]))
        } else {
            prev
        }
    }
}

/// Views of reports.
pub open spec fn report_views(v: Seq<UnsupportedPayload>) -> Seq<(Seq<char>, u32)> {
    v.map_values(|r: UnsupportedPayload| (r.message@, r.node))
}

/// Every variant of every enum can be laid out (see
/// [`payload_computable`]) and every enum's payload leaves room for the
/// discriminant.
pub open spec fn layouts_computable(codes: Map<u32, u8>, variants: Map<u32, Vec<VariantDescriptor>>) -> bool {
    forall|t: u32|
        #[trigger] variants.contains_key(t) ==> enum_computable(codes, variants[t]@)
}

/// Every variant of an enum can be laid out and the payload leaves room for
/// the discriminant.
pub open spec fn enum_computable(codes: Map<u32, u8>, variants: Seq<VariantDescriptor>) -> bool {
    &&& forall|i: int| 0 <= i < variants.len() ==> payload_computable(codes, #[trigger] variants[i].1@)
    &&& max_payload(codes, variants) + DISCRIMINANT_SIZE <= u64::MAX
}

/// The payload layout of one enum: the largest computable payload, and the
/// reports of its variants that cannot be laid out.
pub fn enum_payload(variants: &Vec<VariantDescriptor>, codes: &HashMap<u32, u8>) -> (r: (u64, Vec<UnsupportedPayload>))
    requires
        enum_computable(codes@, variants@),
    ensures
        r.0 == max_payload(codes@, variants@),
        report_views(r.1@) == unsupported_reports(codes@, variants@),
{
    let mut reports: Vec<UnsupportedPayload> = Vec::new();
    let mut max: u64 = 0;
    let mut i: usize = 0;
    while i < variants.len()
        invariant
            i <= variants@.len(),
            enum_computable(codes@, variants@),
            max == max_payload(codes@, variants@.subrange(0, i as int)),
            report_views(reports@) == unsupported_reports(codes@, variants@.subrange(0, i as int)),
        decreases variants@.len() - i,
    {
        let (name, nodes) = &variants[i];
        let ghost prev = reports@;
        proof {
            let pre = variants@.subrange(0, i as int);
            let post = variants@.subrange(0, i + 1);
            assert(post.drop_last() =~= pre);
            assert(post.last() == variants@[i as int]);
            lemma_max_payload_prefix(codes@, variants@, i + 1);
            assert(payload_computable(codes@, variants@[i as int].1@));
        }
        match compute_variant_payload_size(nodes.as_slice(), codes) {
            Some(size) => {
                if size > max {
                    max = size;
                }
            },
            None => {
                if nodes.len() > 0 {
                    let mut message = "enum payload type not yet supported for layout: variant ".to_owned();
                    proof {
                        reveal_strlit("enum payload type not yet supported for layout: variant ");
                    }
                    message.append(name.as_str());
                    reports.push(UnsupportedPayload { message, node: nodes[0] });
                    assert(report_views(reports@) =~= report_views(prev).push(
                        (unsupported_message(name@), nodes@[0]),
                    ));
                }
            },
        }
        i = i + 1;
    }
    assert(variants@.subrange(0, variants@.len() as int) =~= variants@);
    (max, reports)
}

proof fn lemma_max_payload_prefix(codes: Map<u32, u8>, variants: Seq<VariantDescriptor>, n: int)
    requires
        0 <= n <= variants.len(),
    ensures
        max_payload(codes, variants.subrange(0, n)) <= max_payload(codes, variants),
    decreases variants.len() - n,
{
    if n < variants.len() {
        lemma_max_payload_prefix(codes, variants, n + 1);
        assert(variants.subrange(0, n + 1).drop_last() =~= variants.subrange(0, n));
    } else {
        assert(variants.subrange(0, n) =~= variants);
    }
}

/// The layout of every enum of the registry: the discriminant followed by
/// the largest payload any of its variants can lay out; and, by enum, the
/// reports of the variants whose payload cannot be laid out.  `codes` maps
/// each payload node whose type decodes to its field-type code.
pub fn finalise_enum_layouts(registry: &EnumRegistry, codes: &HashMap<u32, u8>) -> (r: (
    HashMap<u32, EnumLayout>,
    HashMap<u32, Vec<UnsupportedPayload>>,
))
    requires
        layouts_computable(codes@, registry.variants@),
    ensures
        r.0@.dom() == registry.variants@.dom(),
        r.1@.dom() == registry.variants@.dom(),
        forall|t: u32| #[trigger] r.0@.contains_key(t) ==> r.0@[t].payload_size == max_payload(codes@, registry.variants@[t]@)
            && r.0@[t].size == DISCRIMINANT_SIZE + max_payload(codes@, registry.variants@[t]@),
        forall|t: u32| #[trigger] r.1@.contains_key(t) ==> report_views(r.1@[t]@) == unsupported_reports(
            codes@,
            registry.variants@[t]@,
        ),
{
    let m = &registry.variants;
    let mut layouts: HashMap<u32, EnumLayout> = HashMap::new();
    let mut reports: HashMap<u32, Vec<UnsupportedPayload>> = HashMap::new();
    let ghost all = vstd::std_specs::hash::spec_hash_map_iter(m).remaining();
    for (t, vs) in it: m.iter()
        invariant
            layouts_computable(codes@, m@),
            it.seq() == all,
            all == vstd::std_specs::hash::spec_hash_map_iter(m).remaining(),
            forall|j: int| 0 <= j < it.index() ==> #[trigger] layouts@.contains_key(*all[j].0),
            forall|q: u32| #[trigger] layouts@.contains_key(q) <==> reports@.contains_key(q),
            forall|q: u32| #[trigger] layouts@.contains_key(q) ==> m@.contains_key(q) && layouts@[q].payload_size
                == max_payload(codes@, m@[q]@) && layouts@[q].size == DISCRIMINANT_SIZE + max_payload(codes@, m@[q]@),
            forall|q: u32| #[trigger] reports@.contains_key(q) ==> report_views(reports@[q]@) == unsupported_reports(
                codes@,
                m@[q]@,
            ),
    {
        assert(m@.contains_key(*t) && m@[*t] == *vs);
        let (max, rs) = enum_payload(vs, codes);
        layouts.insert(*t, EnumLayout::new(max));
        reports.insert(*t, rs);
    }
    proof {
        assert forall|q: u32| m@.contains_key(q) implies layouts@.contains_key(q) by {
            assert(all.contains((&q, &m@[q])));
            let j = choose|j: int| 0 <= j < all.len() && all[j] == (&q, &m@[q]);
            assert(layouts@.contains_key(*all[j].0));
        }
        assert(layouts@.dom() =~= m@.dom());
        assert(reports@.dom() =~= m@.dom());
    }
    (layouts, reports)
}

/// The record type of a variant's payload: the registered record named by
/// its single payload node, none for zero or several payload nodes.
pub open spec fn variant_record(records: Map<u32, u32>, nodes: Seq<u32>) -> Option<u32> {
    if nodes.len() == 1 && records.contains_key(nodes[0]) {
        Some(records[nodes[0]])
    } else {
        None
    }
}

/// The payload record types of an enum's variants, by variant index.
pub open spec fn variant_records(records: Map<u32, u32>, variants: Seq<VariantDescriptor>) -> Seq<Option<u32>> {
    variants.map_values(|v: VariantDescriptor| variant_record(records, v.1@))
}

/// A variant has a payload record type only when it has exactly one payload
/// node: then it is the record registered for that node, if any.  A variant
/// with no payload node, or with two or more, has none.  There is one entry
/// per variant, in variant order.
pub proof fn lemma_variant_records_single_payload(records: Map<u32, u32>, variants: Seq<VariantDescriptor>)
    ensures
        variant_records(records, variants).len() == variants.len(),
        forall|i: int|
            0 <= i < variants.len() ==> {
                let nodes = variants[i].1@;
                let rec = #[trigger] variant_records(records, variants)[i];
                &&& nodes.len() != 1 ==> rec is None
                &&& nodes.len() == 1 ==> rec == (if records.contains_key(nodes[0]) {
                    Some(records[nodes[0]])
                } else {
                    None
                })
            },
{
}

/// The payload record type of every variant of every enum, by enum type id
/// number and variant index.  `records` maps each payload node whose text
/// names a registered record to that record's type id.
pub fn finalise_enum_variant_payloads(registry: &EnumRegistry, records: &HashMap<u32, u32>) -> (r: HashMap<
    u32,
    Vec<Option<u32>>,
>)
    ensures
        r@.dom() == registry.variants@.dom(),
        forall|t: u32| #[trigger] r@.contains_key(t) ==> r@[t]@ == variant_records(records@, registry.variants@[t]@),
{
    let m = &registry.variants;
    let mut out: HashMap<u32, Vec<Option<u32>>> = HashMap::new();
    let ghost all = vstd::std_specs::hash::spec_hash_map_iter(m).remaining();
    for (t, vs) in it: m.iter()
        invariant
            it.seq() == all,
            all == vstd::std_specs::hash::spec_hash_map_iter(m).remaining(),
            forall|j: int| 0 <= j < it.index() ==> #[trigger] out@.contains_key(*all[j].0),
            forall|q: u32| #[trigger] out@.contains_key(q) ==> m@.contains_key(q) && out@[q]@ == variant_records(
                records@,
                m@[q]@,
            ),
    {
        assert(m@.contains_key(*t) && m@[*t] == *vs);
        let mut per: Vec<Option<u32>> = Vec::new();
        let mut i: usize = 0;
        while i < vs.len()
            invariant
                i <= vs@.len(),
                per@ == variant_records(records@, vs@.subrange(0, i as int)),
            decreases vs@.len() - i,
        {
            let nodes = &vs[i].1;
            let rec = if nodes.len() == 1 {
                match records.get(&nodes[0]) {
                    Some(r) => Some(*r),
                    None => None,
                }
            } else {
                None
            };
            per.push(rec);
            assert(per@ =~= variant_records(records@, vs@.subrange(0, i + 1)));
            i = i + 1;
        }
        assert(vs@.subrange(0, vs@.len() as int) =~= vs@);
        out.insert(*t, per);
    }
    proof {
        assert forall|q: u32| m@.contains_key(q) implies out@.contains_key(q) by {
            assert(all.contains((&q, &m@[q])));
            let j = choose|j: int| 0 <= j < all.len() && all[j] == (&q, &m@[q]);
            assert(out@.contains_key(*all[j].0));
        }
        assert(out@.dom() =~= m@.dom());
    }
    out
}

} // verus!
