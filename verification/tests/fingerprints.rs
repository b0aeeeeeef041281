use paideia_as_elaborator::fingerprints::{
    populate_fingerprints, sort_by_node_id, SectionKind, FINGERPRINT_ALIGN, FINGERPRINT_SYMBOL_PREFIX,
};

fn table(entries: &[(u32, &str)]) -> Vec<(u32, String)> {
    entries.iter().map(|(id, name)| (*id, name.to_string())).collect()
}

#[test]
fn single_entry_populates_rodata() {
    let fps = populate_fingerprints(&table(&[(3, "test.turn.001")]));

    assert_eq!(fps.len(), 1);
    let e = &fps[0];
    assert_eq!(e.section, SectionKind::Rodata);
    assert_eq!(e.symbol_name, "fp_test.turn.001");
    assert_eq!(e.bytes, b"test.turn.001\0".to_vec());
    assert_eq!(e.align, FINGERPRINT_ALIGN);
}

#[test]
fn multiple_entries_are_sorted_by_node_id() {
    let fps = populate_fingerprints(&table(&[
        (7, "gamma-turn.03"),
        (2, "alpha-turn.01"),
        (5, "beta-turn.02"),
    ]));

    assert_eq!(fps.len(), 3);
    let syms: Vec<&str> = fps.iter().map(|e| e.symbol_name.as_str()).collect();
    assert_eq!(syms, vec!["fp_alpha-turn.01", "fp_beta-turn.02", "fp_gamma-turn.03"]);
    assert_eq!(fps[0].bytes, b"alpha-turn.01\0".to_vec());
    assert_eq!(fps[1].bytes, b"beta-turn.02\0".to_vec());
    assert_eq!(fps[2].bytes, b"gamma-turn.03\0".to_vec());
}

#[test]
fn empty_side_table_is_noop() {
    let fps = populate_fingerprints(&Vec::new());
    assert!(fps.is_empty());
}

#[test]
fn layout_independent_of_table_order() {
    let a = populate_fingerprints(&table(&[(4, "x"), (1, "y"), (9, "z")]));
    let b = populate_fingerprints(&table(&[(9, "z"), (4, "x"), (1, "y")]));
    let names_a: Vec<String> = a.iter().map(|e| e.symbol_name.clone()).collect();
    let names_b: Vec<String> = b.iter().map(|e| e.symbol_name.clone()).collect();
    assert_eq!(names_a, names_b);
    assert_eq!(names_a, vec!["fp_y", "fp_x", "fp_z"]);
}

#[test]
fn sort_keeps_every_pair() {
    let sorted = sort_by_node_id(&table(&[(30, "c"), (10, "a"), (20, "b")]));
    assert_eq!(sorted, table(&[(10, "a"), (20, "b"), (30, "c")]));
}

#[test]
fn symbol_prefix_constant() {
    assert_eq!(FINGERPRINT_SYMBOL_PREFIX, "fp_");
    let fps = populate_fingerprints(&table(&[(1, "é")]));
    assert!(fps[0].symbol_name.starts_with(FINGERPRINT_SYMBOL_PREFIX));
    assert_eq!(fps[0].bytes, vec![0xC3, 0xA9, 0]);
}
