//! Built-in intrinsic functions.
//!
//! The elaborator resolves `index_*`, `index_*_set`, `ptr_sub_*` and
//! `ptr_sub_bytes_*` to typed intrinsics.  The raw-memory accessors carry the
//! canonical `(*T, u64) -> T !{RawMem} @{paideia.raw_mem}` row; the pointer
//! subtractions are register-only and carry empty rows.

use vstd::prelude::*;

verus! {

/// Type classification for intrinsic signatures: the ten width families,
/// their pointer forms, the index type and unit.
#[derive(Copy, Clone, Debug, PartialEq, Eq, Hash, Structural)]
pub enum TypeKind {
    /// Pointer to u8.
    PtrU8,
    /// Pointer to u16.
    PtrU16,
    /// Pointer to u32.
    PtrU32,
    /// Pointer to u64.
    PtrU64,
    /// Pointer to i8.
    PtrI8,
    /// Pointer to i16.
    PtrI16,
    /// Pointer to i32.
    PtrI32,
    /// Pointer to i64.
    PtrI64,
    /// Pointer to f32.
    PtrF32,
    /// Pointer to f64.
    PtrF64,
    /// 8-bit unsigned integer.
    U8,
    /// 16-bit unsigned integer.
    U16,
    /// 32-bit unsigned integer.
    U32,
    /// 64-bit unsigned integer.
    U64,
    /// 8-bit signed integer.
    I8,
    /// 16-bit signed integer.
    I16,
    /// 32-bit signed integer.
    I32,
    /// 64-bit signed integer.
    I64,
    /// 32-bit floating-point.
    F32,
    /// 64-bit floating-point.
    F64,
    /// Index type (u64).
    UIndex,
    /// Unit type.
    Unit,
}

impl TypeKind {
    /// One of the ten pointer kinds.
    pub open spec fn is_pointer(self) -> bool {
        ||| self is PtrU8
        ||| self is PtrU16
        ||| self is PtrU32
        ||| self is PtrU64
        ||| self is PtrI8
        ||| self is PtrI16
        ||| self is PtrI32
        ||| self is PtrI64
        ||| self is PtrF32
        ||| self is PtrF64
    }
}

/// Signature of an intrinsic function.
#[derive(Clone, Debug, PartialEq, Eq)]
pub struct IntrinsicSignature {
    /// The intrinsic's name (e.g., "index_u64", "index_i8_set").
    pub name: String,
    /// Parameter types in order.
    pub param_types: Vec<TypeKind>,
    /// Return type.
    pub return_type: TypeKind,
    /// Effect row ("RawMem" for the raw-memory accessors, empty otherwise).
    pub effect_row: String,
    /// Capability row ("paideia.raw_mem" for the raw-memory accessors, empty otherwise).
    pub capability_row: String,
}

/// Mathematical value of an [`IntrinsicSignature`].
pub ghost struct IntrinsicView {
    pub name: Seq<char>,
    pub param_types: Seq<TypeKind>,
    pub return_type: TypeKind,
    pub effect_row: Seq<char>,
    pub capability_row: Seq<char>,
}

impl View for IntrinsicSignature {
    type V = IntrinsicView;

    open spec fn view(&self) -> IntrinsicView {
        IntrinsicView {
            name: self.name@,
            param_types: self.param_types@,
            return_type: self.return_type,
            effect_row: self.effect_row@,
            capability_row: self.capability_row@,
        }
    }
}

/// Number of width families.
pub const WIDTH_FAMILIES: usize = 10;

/// Number of intrinsics per width family (get, set, ptr_sub, ptr_sub_bytes).
pub const OPS_PER_FAMILY: usize = 4;

/// Spelling of width family `f` (in table order u8 .. f64).
pub open spec fn width_name(f: int) -> Seq<char> {
    if f == 0 { "u8"@ }
    else if f == 1 { "u16"@ }
    else if f == 2 { "u32"@ }
    else if f == 3 { "u64"@ }
    else if f == 4 { "i8"@ }
    else if f == 5 { "i16"@ }
    else if f == 6 { "i32"@ }
    else if f == 7 { "i64"@ }
    else if f == 8 { "f32"@ }
    else { "f64"@ }
}

/// Value type of width family `f`.
pub open spec fn value_kind(f: int) -> TypeKind {
    if f == 0 { TypeKind::U8 }
    else if f == 1 { TypeKind::U16 }
    else if f == 2 { TypeKind::U32 }
    else if f == 3 { TypeKind::U64 }
    else if f == 4 { TypeKind::I8 }
    else if f == 5 { TypeKind::I16 }
    else if f == 6 { TypeKind::I32 }
    else if f == 7 { TypeKind::I64 }
    else if f == 8 { TypeKind::F32 }
    else { TypeKind::F64 }
}

/// Pointer type of width family `f`.
pub open spec fn pointer_kind(f: int) -> TypeKind {
    if f == 0 { TypeKind::PtrU8 }
    else if f == 1 { TypeKind::PtrU16 }
    else if f == 2 { TypeKind::PtrU32 }
    else if f == 3 { TypeKind::PtrU64 }
    else if f == 4 { TypeKind::PtrI8 }
    else if f == 5 { TypeKind::PtrI16 }
    else if f == 6 { TypeKind::PtrI32 }
    else if f == 7 { TypeKind::PtrI64 }
    else if f == 8 { TypeKind::PtrF32 }
    else { TypeKind::PtrF64 }
}

/// The canonical effect row of the raw-memory accessors.
pub open spec fn raw_mem_effect() -> Seq<char> {
    "RawMem"@
}

/// The canonical capability row of the raw-memory accessors.
pub open spec fn raw_mem_capability() -> Seq<char> {
    "paideia.raw_mem"@
}

/// Intrinsic `op` (0 = index, 1 = index_set, 2 = ptr_sub, 3 = ptr_sub_bytes)
/// of width family `f`.
pub open spec fn intrinsic_entry(f: int, op: int) -> IntrinsicView {
    let w = width_name(f);
    let v = value_kind(f);
    let p = pointer_kind(f);
    if op == 0 {
        IntrinsicView {
            name: "index_"@ + w,
            param_types: seq![p, TypeKind::UIndex],
            return_type: v,
            effect_row: raw_mem_effect(),
            capability_row: raw_mem_capability(),
        }
    } else if op == 1 {
        IntrinsicView {
            name: "index_"@ + w + "_set"@,
            param_types: seq![p, TypeKind::UIndex, v],
            return_type: TypeKind::Unit,
            effect_row: raw_mem_effect(),
            capability_row: raw_mem_capability(),
        }
    } else if op == 2 {
        IntrinsicView {
            name: "ptr_sub_"@ + w,
            param_types: seq![p, p],
            return_type: TypeKind::U64,
            effect_row: Seq::empty(),
            capability_row: Seq::empty(),
        }
    } else {
        IntrinsicView {
            name: "ptr_sub_bytes_"@ + w,
            param_types: seq![p, p],
            return_type: TypeKind::U64,
            effect_row: Seq::empty(),
            capability_row: Seq::empty(),
        }
    }
}

/// The full intrinsic table, family by family, four operations per family.
pub open spec fn intrinsic_table() -> Seq<IntrinsicView> {
    Seq::new(40, |i: int| intrinsic_entry(i / 4, i % 4))
}

/// The first table entry named `name`, if any.
pub open spec fn first_named(table: Seq<IntrinsicView>, name: Seq<char>) -> Option<IntrinsicView>
    decreases table.len(),
{
    if table.len() == 0 {
        None
    } else if table[0].name == name {
        Some(table[0])
    } else {
        first_named(table.drop_first(), name)
    }
}

impl IntrinsicSignature {
    /// An intrinsic signature with the canonical raw-memory effect/capability rows.
    fn canonical(name: String, param_types: Vec<TypeKind>, return_type: TypeKind) -> (r: Self)
        ensures
            r@ == (IntrinsicView {
                name: name@,
                param_types: param_types@,
                return_type,
                effect_row: raw_mem_effect(),
                capability_row: raw_mem_capability(),
            }),
    {
        IntrinsicSignature {
            name,
            param_types,
            return_type,
            effect_row: "RawMem".to_owned(),
            capability_row: "paideia.raw_mem".to_owned(),
        }
    }
}

/// Spelling, value type and pointer type of width family `f`.
fn width_config(f: usize) -> (r: (&'static str, TypeKind, TypeKind))
    requires
        f < WIDTH_FAMILIES,
    ensures
        r.0@ == width_name(f as int),
        r.1 == value_kind(f as int),
        r.2 == pointer_kind(f as int),
{
    if f == 0 { ("u8", TypeKind::U8, TypeKind::PtrU8) }
    else if f == 1 { ("u16", TypeKind::U16, TypeKind::PtrU16) }
    else if f == 2 { ("u32", TypeKind::U32, TypeKind::PtrU32) }
    else if f == 3 { ("u64", TypeKind::U64, TypeKind::PtrU64) }
    else if f == 4 { ("i8", TypeKind::I8, TypeKind::PtrI8) }
    else if f == 5 { ("i16", TypeKind::I16, TypeKind::PtrI16) }
    else if f == 6 { ("i32", TypeKind::I32, TypeKind::PtrI32) }
    else if f == 7 { ("i64", TypeKind::I64, TypeKind::PtrI64) }
    else if f == 8 { ("f32", TypeKind::F32, TypeKind::PtrF32) }
    else { ("f64", TypeKind::F64, TypeKind::PtrF64) }
}

/// Construct the list of all intrinsic signatures: ten width families
/// (u8, u16, u32, u64, i8, i16, i32, i64, f32, f64), each contributing
/// `index_*`, `index_*_set`, `ptr_sub_*` and `ptr_sub_bytes_*`, in that order.
pub fn all_intrinsics() -> (out: Vec<IntrinsicSignature>)
    ensures
        out@.len() == 40,
        forall|i: int| 0 <= i < 40 ==> #[trigger] out@[i]@ == intrinsic_table()[i],
{
    let mut out: Vec<IntrinsicSignature> = Vec::new();
    let mut f: usize = 0;
    while f < WIDTH_FAMILIES
        invariant
            f <= WIDTH_FAMILIES,
            out@.len() == 4 * f,
            forall|i: int| 0 <= i < 4 * f ==> #[trigger] out@[i]@ == intrinsic_entry(i / 4, i % 4),
        decreases WIDTH_FAMILIES - f,
    {
        let (w, value_t, ptr_t) = width_config(f);
        let ghost before = out@;

        // index_* : (*T, u64) -> T
        let get_name = "index_".to_owned().concat(w);
        out.push(IntrinsicSignature::canonical(get_name, vec![ptr_t, TypeKind::UIndex], value_t));

        // index_*_set : (*T, u64, T) -> ()
        let set_name = "index_".to_owned().concat(w).concat("_set");
        out.push(IntrinsicSignature::canonical(set_name, vec![ptr_t, TypeKind::UIndex, value_t], TypeKind::Unit));

        // ptr_sub_* : (*T, *T) -> u64 (element distance), effect-free.
        out.push(IntrinsicSignature {
            name: "ptr_sub_".to_owned().concat(w),
            param_types: vec![ptr_t, ptr_t],
            return_type: TypeKind::U64,
            effect_row: String::new(),
            capability_row: String::new(),
        });

        // ptr_sub_bytes_* : (*T, *T) -> u64 (byte distance), effect-free.
        out.push(IntrinsicSignature {
            name: "ptr_sub_bytes_".to_owned().concat(w),
            param_types: vec![ptr_t, ptr_t],
            return_type: TypeKind::U64,
            effect_row: String::new(),
            capability_row: String::new(),
        });

        proof {
            assert forall|i: int| 0 <= i < 4 * (f + 1) implies #[trigger] out@[i]@ == intrinsic_entry(i / 4, i % 4) by {
                if i < 4 * f {
                    assert(out@[i] == before[i]);
                } else {
                    assert(i / 4 == f as int);
                }
            }
        }
        f += 1;
    }
    out
}


proof fn lemma_first_named_skip(table: Seq<IntrinsicView>, name: Seq<char>, i: int)
    requires
        0 <= i <= table.len(),
        forall|j: int| 0 <= j < i ==> #[trigger] table[j].name != name,
    ensures
        first_named(table, name) == first_named(table.skip(i), name),
    decreases i,
{
    if i > 0 {
        assert(table[0].name != name);
        let rest = table.drop_first();
        assert forall|j: int| 0 <= j < i - 1 implies #[trigger] rest[j].name != name by {
            assert(rest[j] == table[j + 1]);
        }
        lemma_first_named_skip(rest, name, i - 1);
        assert(rest.skip(i - 1) =~= table.skip(i));
    } else {
        assert(table.skip(0) =~= table);
    }
}

/// Look up an intrinsic by name: the signature of the first table entry with
/// that name, or `None` if the name is unknown.
pub fn lookup_intrinsic(name: &str) -> (r: Option<IntrinsicSignature>)
    ensures
        (match r {
            Some(s) => Some(s@),
            None => None,
        }) == first_named(intrinsic_table(), name@),
{
    let mut all = all_intrinsics();
    let key = name.to_owned();
    let ghost table = intrinsic_table();
    let mut i: usize = 0;
    while i < all.len()
        invariant
            all@.len() == 40,
            key@ == name@,
            forall|k: int| 0 <= k < 40 ==> #[trigger] all@[k]@ == table[k],
            table == intrinsic_table(),
            0 <= i <= 40,
            forall|j: int| 0 <= j < i ==> #[trigger] table[j].name != name@,
        decreases 40 - i,
    {
        let same = all[i].name.eq(&key);
        if same {
            proof {
                lemma_first_named_skip(table, name@, i as int);
                assert(table.skip(i as int)[0] == table[i as int]);
            }
            return Some(all.remove(i));
        }
        assert(all@[i as int].name@ != key@);
        assert(all@[i as int]@.name != name@);
        assert(table[i as int].name != name@);
        i += 1;
    }
    proof {
        lemma_first_named_skip(table, name@, 40);
        assert(table.skip(40).len() == 0);
    }
    None
}


proof fn reveal_width_names()
    ensures
        forall|f: int| 0 <= f < 10 ==> {
            let w = #[trigger] width_name(f);
            &&& 2 <= w.len() <= 3
            &&& w.last() != 't'
            &&& w[0] != '_'
        },
        forall|f1: int, f2: int|
            0 <= f1 < 10 && 0 <= f2 < 10 && f1 != f2 ==> {
                let w1 = #[trigger] width_name(f1);
                let w2 = #[trigger] width_name(f2);
                ||| w1.len() != w2.len()
                ||| w1[0] != w2[0]
                ||| w1[1] != w2[1]
            },
{
    reveal_strlit("u8");
    reveal_strlit("u16");
    reveal_strlit("u32");
    reveal_strlit("u64");
    reveal_strlit("i8");
    reveal_strlit("i16");
    reveal_strlit("i32");
    reveal_strlit("i64");
    reveal_strlit("f32");
    reveal_strlit("f64");
}

/// Every intrinsic in the table has its own name: no two entries of
/// [`all_intrinsics`] share a name, so [`lookup_intrinsic`] is unambiguous.
pub proof fn lemma_intrinsic_names_unique()
    ensures
        forall|i: int, j: int|
            0 <= i < 40 && 0 <= j < 40 && i != j ==> #[trigger] intrinsic_table()[i].name
                != #[trigger] intrinsic_table()[j].name,
{
    reveal_width_names();
    reveal_strlit("index_");
    reveal_strlit("_set");
    reveal_strlit("ptr_sub_");
    reveal_strlit("ptr_sub_bytes_");
    assert forall|i: int, j: int|
        0 <= i < 40 && 0 <= j < 40 && i != j implies #[trigger] intrinsic_table()[i].name
            != #[trigger] intrinsic_table()[j].name by {
        let (f1, o1, f2, o2) = (i / 4, i % 4, j / 4, j % 4);
        let n1 = intrinsic_entry(f1, o1).name;
        let n2 = intrinsic_entry(f2, o2).name;
        let w1 = width_name(f1);
        let w2 = width_name(f2);
        assert(intrinsic_table()[i].name == n1);
        assert(intrinsic_table()[j].name == n2);
        if (o1 < 2) != (o2 < 2) {
            assert(n1[0] != n2[0]);
        } else if o1 != o2 {
            assert(n1.len() != n2.len());
        } else {
            assert(f1 != f2);
            let plen: int = if o1 < 2 { 6 } else if o1 == 2 { 8 } else { 14 };
            if w1.len() == w2.len() {
                if w1[0] != w2[0] {
                    assert(n1[plen] != n2[plen]);
                } else {
                    assert(n1[plen + 1] != n2[plen + 1]);
                }
            } else {
                assert(n1.len() != n2.len());
            }
        }
    }
}

/// Exactly the `index_*_set` accessors return unit: an intrinsic's name ends
/// in `_set` if and only if its return type is `Unit`, and no intrinsic
/// returns a pointer.
pub proof fn lemma_intrinsic_return_types()
    ensures
        forall|i: int| 0 <= i < 40 ==> {
            let e = #[trigger] intrinsic_table()[i];
            &&& (e.name.len() >= 4 && e.name.subrange(e.name.len() - 4, e.name.len() as int)
                == "_set"@) <==> e.return_type == TypeKind::Unit
            &&& !e.return_type.is_pointer()
        },
{
    reveal_width_names();
    reveal_strlit("index_");
    reveal_strlit("_set");
    reveal_strlit("ptr_sub_");
    reveal_strlit("ptr_sub_bytes_");
    assert forall|i: int| 0 <= i < 40 implies {
        let e = #[trigger] intrinsic_table()[i];
        &&& (e.name.len() >= 4 && e.name.subrange(e.name.len() - 4, e.name.len() as int)
            == "_set"@) <==> e.return_type == TypeKind::Unit
        &&& !e.return_type.is_pointer()
    } by {
        let (f, o) = (i / 4, i % 4);
        let e = intrinsic_table()[i];
        assert(e == intrinsic_entry(f, o));
        let w = width_name(f);
        if o == 1 {
            assert(e.name.subrange(e.name.len() - 4, e.name.len() as int) =~= "_set"@);
        } else {
            assert(e.name.last() == w.last());
            if e.name.len() >= 4 {
                let tail = e.name.subrange(e.name.len() - 4, e.name.len() as int);
                assert(tail[3] == e.name.last());
                assert("_set"@[3] == 't');
            }
        }
    }
}

/// The pointer subtractions (entries 2 and 3 of each family) are
/// effect-free; the raw-memory accessors carry the canonical rows.
pub proof fn lemma_intrinsic_rows()
    ensures
        forall|i: int| 0 <= i < 40 ==> {
            let e = #[trigger] intrinsic_table()[i];
            if i % 4 < 2 {
                e.effect_row == raw_mem_effect() && e.capability_row == raw_mem_capability()
            } else {
                e.effect_row.len() == 0 && e.capability_row.len() == 0
            }
        },
{
}

/// Lookup round trip: looking up the name of any table entry gives that
/// entry back, and a name that no entry has gives nothing.
pub proof fn lemma_lookup_intrinsic_round_trip(name: Seq<char>)
    ensures
        forall|i: int|
            0 <= i < 40 ==> first_named(intrinsic_table(), #[trigger] intrinsic_table()[i].name) == Some(
                intrinsic_table()[i],
            ),
        (forall|i: int| 0 <= i < 40 ==> #[trigger] intrinsic_table()[i].name != name) ==> first_named(
            intrinsic_table(),
            name,
        ) is None,
{
    let table = intrinsic_table();
    lemma_intrinsic_names_unique();
    assert forall|i: int| 0 <= i < 40 implies first_named(table, #[trigger] table[i].name) == Some(table[i]) by {
        assert forall|j: int| 0 <= j < i implies #[trigger] table[j].name != table[i].name by {
            assert(table[j].name != table[i].name);
        }
        lemma_first_named_skip(table, table[i].name, i);
        assert(table.skip(i)[0] == table[i]);
    }
    if forall|i: int| 0 <= i < 40 ==> #[trigger] table[i].name != name {
        lemma_first_named_skip(table, name, 40);
        assert(table.skip(40).len() == 0);
    }
}

} // verus!
