use paideia_as_elaborator::functor_apply::{
    apply_key_input, compute_apply_key, M_SIG_KIND_MISMATCH, M_SIG_MISSING_DECL,
};

const EMPTY_SIGNATURE: &str = "SignatureKind { decls: [] }";

#[test]
fn same_argument_twice_yields_same_apply_key() {
    // Functor `M` whose body spans one byte at offset 103 of file 1.
    let key1 = compute_apply_key("M", 1, 103, 104, EMPTY_SIGNATURE);
    let key2 = compute_apply_key("M", 1, 103, 104, EMPTY_SIGNATURE);
    assert_eq!(key1, key2);
}

#[test]
fn different_argument_yields_different_apply_key() {
    let arg2 = "SignatureKind { decls: [Val { name: \"extra\", ty_id: 0 }] }";
    let key1 = compute_apply_key("M", 1, 104, 105, EMPTY_SIGNATURE);
    let key2 = compute_apply_key("M", 1, 104, 105, arg2);
    assert_ne!(key1, key2);
}

#[test]
fn key_input_layout() {
    let bytes = apply_key_input("M", 1, 0x0102_0304, 5, "S");
    assert_eq!(bytes, vec![b'M', 1, 0, 0, 0, 4, 3, 2, 1, 5, 0, 0, 0, b'S']);
}

#[test]
fn key_is_blake3_of_input() {
    let bytes = apply_key_input("F", 2, 10, 20, EMPTY_SIGNATURE);
    let key = compute_apply_key("F", 2, 10, 20, EMPTY_SIGNATURE);
    assert_eq!(key.0, *blake3::hash(&bytes).as_bytes());
}

#[test]
fn span_changes_the_key() {
    let k1 = compute_apply_key("M", 1, 100, 101, EMPTY_SIGNATURE);
    let k2 = compute_apply_key("M", 1, 101, 102, EMPTY_SIGNATURE);
    let k3 = compute_apply_key("M", 2, 100, 101, EMPTY_SIGNATURE);
    let k4 = compute_apply_key("N", 1, 100, 101, EMPTY_SIGNATURE);
    assert_ne!(k1, k2);
    assert_ne!(k1, k3);
    assert_ne!(k1, k4);
}

#[test]
fn signature_diagnostic_numbers() {
    assert_eq!(M_SIG_MISSING_DECL, 301);
    assert_eq!(M_SIG_KIND_MISMATCH, 302);
}
