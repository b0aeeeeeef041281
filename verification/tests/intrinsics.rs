use paideia_as_elaborator::intrinsics::{all_intrinsics, lookup_intrinsic, TypeKind};

#[test]
fn all_intrinsics_returns_40_entries() {
    let intrinsics = all_intrinsics();
    assert_eq!(
        intrinsics.len(),
        40,
        "expected 10 widths × 4 (get + set + ptr_sub + ptr_sub_bytes) = 40 intrinsics"
    );
}

#[test]
fn index_u64_signature_is_ptr_u64_uindex_to_u64() {
    let sig = lookup_intrinsic("index_u64").expect("index_u64 should exist");
    assert_eq!(sig.name, "index_u64");
    assert_eq!(sig.param_types.len(), 2);
    assert_eq!(sig.param_types[0], TypeKind::PtrU64);
    assert_eq!(sig.param_types[1], TypeKind::UIndex);
    assert_eq!(sig.return_type, TypeKind::U64);
    assert_eq!(sig.effect_row, "RawMem");
    assert_eq!(sig.capability_row, "paideia.raw_mem");
}

#[test]
fn index_u8_set_signature_is_ptr_u8_uindex_u8_to_unit() {
    let sig = lookup_intrinsic("index_u8_set").expect("index_u8_set should exist");
    assert_eq!(sig.name, "index_u8_set");
    assert_eq!(sig.param_types.len(), 3);
    assert_eq!(sig.param_types[0], TypeKind::PtrU8);
    assert_eq!(sig.param_types[1], TypeKind::UIndex);
    assert_eq!(sig.param_types[2], TypeKind::U8);
    assert_eq!(sig.return_type, TypeKind::Unit);
    assert_eq!(sig.effect_row, "RawMem");
    assert_eq!(sig.capability_row, "paideia.raw_mem");
}

#[test]
fn lookup_intrinsic_finds_index_u32() {
    let sig = lookup_intrinsic("index_u32").expect("index_u32 should exist");
    assert_eq!(sig.name, "index_u32");
    assert_eq!(sig.return_type, TypeKind::U32);
}

#[test]
fn lookup_intrinsic_returns_none_for_unknown() {
    let result = lookup_intrinsic("unknown_function");
    assert!(
        result.is_none(),
        "lookup_intrinsic should return None for unknown names"
    );
}

#[test]
fn all_intrinsic_names_are_unique() {
    let intrinsics = all_intrinsics();
    let mut names = std::collections::HashSet::new();
    for sig in &intrinsics {
        assert!(
            names.insert(&sig.name),
            "duplicate intrinsic name: {}",
            sig.name
        );
    }
}

#[test]
fn index_i64_set_has_canonical_row() {
    let sig = lookup_intrinsic("index_i64_set").expect("index_i64_set should exist");
    assert_eq!(sig.effect_row, "RawMem");
    assert_eq!(sig.capability_row, "paideia.raw_mem");
}

#[test]
fn index_f64_has_correct_types() {
    let sig = lookup_intrinsic("index_f64").expect("index_f64 should exist");
    assert_eq!(sig.return_type, TypeKind::F64);
    assert_eq!(sig.param_types[0], TypeKind::PtrF64);
    assert_eq!(sig.param_types[1], TypeKind::UIndex);
}

#[test]
fn intrinsic_set_operations_return_unit() {
    let all = all_intrinsics();
    let set_ops: Vec<_> = all.iter().filter(|s| s.name.contains("_set")).collect();
    for sig in set_ops {
        assert_eq!(
            sig.return_type,
            TypeKind::Unit,
            "{} should return Unit",
            sig.name
        );
    }
}

#[test]
fn intrinsic_get_operations_return_value_type() {
    let all = all_intrinsics();
    let get_ops: Vec<_> = all.iter().filter(|s| !s.name.contains("_set")).collect();
    for sig in get_ops {
        assert_ne!(
            sig.return_type,
            TypeKind::Unit,
            "{} should not return Unit",
            sig.name
        );
        assert!(
            !matches!(
                sig.return_type,
                TypeKind::PtrU8
                    | TypeKind::PtrU16
                    | TypeKind::PtrU32
                    | TypeKind::PtrU64
                    | TypeKind::PtrI8
                    | TypeKind::PtrI16
                    | TypeKind::PtrI32
                    | TypeKind::PtrI64
                    | TypeKind::PtrF32
                    | TypeKind::PtrF64
            ),
            "{} should return a value type, not a pointer",
            sig.name
        );
    }
}

#[test]
fn ptr_sub_signature_returns_u64() {
    let sig = lookup_intrinsic("ptr_sub_u64").expect("ptr_sub_u64 should exist");
    assert_eq!(sig.name, "ptr_sub_u64");
    assert_eq!(sig.param_types.len(), 2);
    assert_eq!(sig.param_types[0], TypeKind::PtrU64);
    assert_eq!(sig.param_types[1], TypeKind::PtrU64);
    assert_eq!(sig.return_type, TypeKind::U64);
    assert_eq!(sig.effect_row, "");
    assert_eq!(sig.capability_row, "");
}

#[test]
fn ptr_sub_bytes_signature_returns_u64() {
    let sig = lookup_intrinsic("ptr_sub_bytes_u64").expect("ptr_sub_bytes_u64 should exist");
    assert_eq!(sig.name, "ptr_sub_bytes_u64");
    assert_eq!(sig.param_types.len(), 2);
    assert_eq!(sig.param_types[0], TypeKind::PtrU64);
    assert_eq!(sig.param_types[1], TypeKind::PtrU64);
    assert_eq!(sig.return_type, TypeKind::U64);
    assert_eq!(sig.effect_row, "");
    assert_eq!(sig.capability_row, "");
}

#[test]
fn ptr_sub_count_is_20_entries() {
    let all = all_intrinsics();
    let ptr_sub_count = all.iter().filter(|s| s.name.contains("ptr_sub")).count();
    assert_eq!(
        ptr_sub_count, 20,
        "expected 10 widths × (ptr_sub + ptr_sub_bytes) = 20 ptr_sub* entries"
    );
}

#[test]
fn lookup_intrinsic_finds_ptr_sub_u64() {
    let sig = lookup_intrinsic("ptr_sub_u64").expect("ptr_sub_u64 should exist");
    assert_eq!(sig.name, "ptr_sub_u64");
    assert_eq!(sig.return_type, TypeKind::U64);
    assert_eq!(sig.param_types[0], TypeKind::PtrU64);
}

#[test]
fn intrinsic_table_order_is_family_major() {
    let all = all_intrinsics();
    let names: Vec<&str> = all.iter().take(8).map(|s| s.name.as_str()).collect();
    assert_eq!(
        names,
        vec![
            "index_u8",
            "index_u8_set",
            "ptr_sub_u8",
            "ptr_sub_bytes_u8",
            "index_u16",
            "index_u16_set",
            "ptr_sub_u16",
            "ptr_sub_bytes_u16",
        ]
    );
    assert_eq!(all[39].name, "ptr_sub_bytes_f64");
    assert_eq!(all[36].param_types, vec![TypeKind::PtrF64, TypeKind::UIndex]);
}

#[test]
fn lookup_intrinsic_is_case_sensitive() {
    assert!(lookup_intrinsic("INDEX_U8").is_none());
    assert!(lookup_intrinsic("index_u8 ").is_none());
    assert!(lookup_intrinsic("").is_none());
}
