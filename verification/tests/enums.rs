use std::collections::HashMap;

use paideia_as_elaborator::enum_layout::{
    compute_variant_payload_size, finalise_enum_layouts, finalise_enum_variant_payloads, EnumLayout,
};
use paideia_as_elaborator::enum_registry::{
    build_enum_registry, extract_source_text, EnumDecl, EnumRegistry, EnumTypeId, VariantDecl,
};

fn no_codes() -> HashMap<u32, u8> {
    HashMap::new()
}

#[test]
fn test_enum_registry_empty() {
    let registry = EnumRegistry::empty();
    assert!(registry.by_name.is_empty());
    assert!(registry.variants.is_empty());
}

#[test]
fn test_enum_registry_get_by_name_not_found() {
    let registry = EnumRegistry::empty();
    assert_eq!(registry.get_by_name("NonExistent"), None);
}

#[test]
fn test_enum_registry_get_variants_not_found() {
    let registry = EnumRegistry::empty();
    let type_id = EnumTypeId(999);
    assert_eq!(registry.get_variants(type_id), None);
}

#[test]
fn test_enum_registry_insert_and_retrieve() {
    let mut registry = EnumRegistry::empty();
    let type_id = EnumTypeId(1);
    let variants = vec![("Ok".to_string(), vec![])];

    registry.by_name.insert("Result".to_string(), type_id);
    registry.variants.insert(type_id.0, variants.clone());

    assert_eq!(registry.get_by_name("Result"), Some(type_id));
    assert_eq!(registry.get_variants(type_id), Some(&variants));
}

#[test]
fn finalise_enum_layouts_result_u64() {
    let mut registry = EnumRegistry::empty();
    let type_id = EnumTypeId(1);
    registry
        .variants
        .insert(type_id.0, vec![("Ok".to_string(), vec![]), ("Err".to_string(), vec![])]);

    let (layouts, _reports) = finalise_enum_layouts(&registry, &no_codes());

    assert_eq!(layouts.get(&type_id.0).map(|l| l.payload_size), Some(0));
    assert_eq!(layouts.get(&type_id.0).map(|l| l.size), Some(8));
}

#[test]
fn finalise_enum_layouts_pure_tag() {
    let mut registry = EnumRegistry::empty();
    let type_id = EnumTypeId(2);
    registry.variants.insert(
        type_id.0,
        vec![("A".to_string(), vec![]), ("B".to_string(), vec![]), ("C".to_string(), vec![])],
    );

    let (layouts, _reports) = finalise_enum_layouts(&registry, &no_codes());

    assert_eq!(layouts.get(&type_id.0).map(|l| l.payload_size), Some(0));
    assert_eq!(layouts.get(&type_id.0).map(|l| l.size), Some(8));
}

#[test]
fn compute_variant_payload_size_single_u64() {
    let size = compute_variant_payload_size(&[], &no_codes());
    assert_eq!(size, Some(0));
}

#[test]
fn compute_variant_payload_size_empty() {
    let size = compute_variant_payload_size(&[], &no_codes());
    assert_eq!(size, Some(0));
}

#[test]
fn finalise_enum_layouts_consistency() {
    let mut registry = EnumRegistry::empty();
    let type_id_1 = EnumTypeId(10);
    let type_id_2 = EnumTypeId(20);
    registry
        .variants
        .insert(type_id_1.0, vec![("V1".to_string(), vec![]), ("V2".to_string(), vec![])]);
    registry.variants.insert(type_id_2.0, vec![("W1".to_string(), vec![])]);

    let (layouts, _reports) = finalise_enum_layouts(&registry, &no_codes());

    assert_eq!(layouts.len(), 2);
    assert!(layouts.contains_key(&type_id_1.0));
    assert!(layouts.contains_key(&type_id_2.0));
}

#[test]
fn unit_variant_yields_none() {
    let mut registry = EnumRegistry::empty();
    let enum_id = EnumTypeId(1);
    registry.variants.insert(enum_id.0, vec![("A".to_string(), vec![])]);

    let payloads = finalise_enum_variant_payloads(&registry, &HashMap::new());

    assert_eq!(payloads.get(&enum_id.0).map(|v| v[0]), Some(None));
}

#[test]
fn multiple_payload_nodes_yields_none() {
    let mut registry = EnumRegistry::empty();
    let enum_id = EnumTypeId(1);
    registry.variants.insert(enum_id.0, vec![("V".to_string(), vec![1, 2])]);

    let payloads = finalise_enum_variant_payloads(&registry, &HashMap::new());

    assert_eq!(payloads.get(&enum_id.0).map(|v| v[0]), Some(None));
}

#[test]
fn unknown_record_type_yields_none() {
    let mut registry = EnumRegistry::empty();
    let enum_id = EnumTypeId(1);
    registry.variants.insert(enum_id.0, vec![("V".to_string(), vec![1])]);

    let payloads = finalise_enum_variant_payloads(&registry, &HashMap::new());

    assert_eq!(payloads.get(&enum_id.0).map(|v| v[0]), Some(None));
}

#[test]
fn idempotent() {
    let mut registry = EnumRegistry::empty();
    let enum_id = EnumTypeId(1);
    registry.variants.insert(enum_id.0, vec![("A".to_string(), vec![])]);

    let payloads_1 = finalise_enum_variant_payloads(&registry, &HashMap::new());
    let payloads_2 = finalise_enum_variant_payloads(&registry, &HashMap::new());

    assert_eq!(payloads_1, payloads_2);
}

#[test]
fn multiple_variants_tracked_separately() {
    let mut registry = EnumRegistry::empty();
    let enum_id = EnumTypeId(1);
    registry.variants.insert(
        enum_id.0,
        vec![("A".to_string(), vec![]), ("B".to_string(), vec![1]), ("C".to_string(), vec![])],
    );

    let payloads = finalise_enum_variant_payloads(&registry, &HashMap::new());

    let per_variant = payloads.get(&enum_id.0).unwrap();
    assert_eq!(payloads.values().map(|v| v.len()).sum::<usize>(), 3);
    assert_eq!(per_variant[0], None);
    assert_eq!(per_variant[1], None);
    assert_eq!(per_variant[2], None);
}

#[test]
fn single_payload_naming_a_record_resolves() {
    let mut registry = EnumRegistry::empty();
    registry.variants.insert(3, vec![("Some".to_string(), vec![7]), ("None".to_string(), vec![])]);
    let mut records = HashMap::new();
    records.insert(7, 42);
    let payloads = finalise_enum_variant_payloads(&registry, &records);
    assert_eq!(payloads.get(&3), Some(&vec![Some(42), None]));
}

#[test]
fn payload_fields_follow_c_alignment() {
    // u8, u64, u16: 1 at 0, 8 at 8, 2 at 16 → end 18, tail-padded to 24.
    let mut codes = HashMap::new();
    codes.insert(1, 0x01);
    codes.insert(2, 0x08);
    codes.insert(3, 0x12); // high nibble ignored: size 2
    assert_eq!(compute_variant_payload_size(&[1, 2, 3], &codes), Some(24));
    assert_eq!(compute_variant_payload_size(&[1], &codes), Some(1));
    assert_eq!(compute_variant_payload_size(&[3, 1], &codes), Some(4));
    assert_eq!(compute_variant_payload_size(&[1, 9], &codes), None);
}

#[test]
fn largest_variant_decides_and_unsupported_reported() {
    let mut registry = EnumRegistry::empty();
    registry.variants.insert(
        5,
        vec![
            ("Small".to_string(), vec![1]),
            ("Big".to_string(), vec![2, 2]),
            ("Odd".to_string(), vec![9]),
            ("Unit".to_string(), vec![]),
        ],
    );
    let mut codes = HashMap::new();
    codes.insert(1, 0x04);
    codes.insert(2, 0x08);
    let (layouts, reports) = finalise_enum_layouts(&registry, &codes);
    assert_eq!(layouts.get(&5), Some(&EnumLayout::new(16)));
    assert_eq!(layouts.get(&5).unwrap().size, 24);
    let rs = reports.get(&5).unwrap();
    assert_eq!(rs.len(), 1);
    assert_eq!(rs[0].node, 9);
    assert_eq!(rs[0].message, "enum payload type not yet supported for layout: variant Odd");
}

#[test]
fn registry_assigns_ids_in_declaration_order() {
    let decls = vec![
        EnumDecl {
            name: Some("Color".to_string()),
            variants: vec![
                VariantDecl::Unit { name: Some("Red".to_string()) },
                VariantDecl::Tuple { name: Some("Rgb".to_string()), payload: vec![4, 5, 6] },
                VariantDecl::Unit { name: None },
            ],
        },
        EnumDecl { name: None, variants: vec![] },
        EnumDecl {
            name: Some("Shape".to_string()),
            variants: vec![VariantDecl::Record { name: Some("Rect".to_string()), fields: vec![(10, 11), (12, 13)] }],
        },
    ];
    let registry = build_enum_registry(&decls);
    assert_eq!(registry.get_by_name("Color"), Some(EnumTypeId(1)));
    assert_eq!(registry.get_by_name("Shape"), Some(EnumTypeId(2)));
    assert_eq!(
        registry.get_variants(EnumTypeId(1)),
        Some(&vec![("Red".to_string(), vec![]), ("Rgb".to_string(), vec![4, 5, 6])])
    );
    assert_eq!(registry.get_variants(EnumTypeId(2)), Some(&vec![("Rect".to_string(), vec![11, 13])]));
    assert_eq!(registry.variants.len(), 2);
}

#[test]
fn source_text_extraction() {
    assert_eq!(extract_source_text("enum Color { Red }", 5, 5), Some("Color".to_string()));
    assert_eq!(extract_source_text("abc", 1, 2), Some("bc".to_string()));
    assert_eq!(extract_source_text("abc", 2, 2), None);
    assert_eq!(extract_source_text("", 0, 0), Some(String::new()));
}
