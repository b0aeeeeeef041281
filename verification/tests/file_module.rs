use paideia_as_elaborator::file_module::{
    check_file_module_mapping, expected_module_name, M_FILE_NAME_MISMATCH, M_NO_TOP_MODULE,
};

#[test]
fn pascal_case_transform_handles_underscores() {
    assert_eq!(expected_module_name("hello"), "Hello");
    assert_eq!(expected_module_name("my_module"), "MyModule");
    assert_eq!(expected_module_name("my_small_module"), "MySmallModule");
}

#[test]
fn pascal_case_transform_handles_hyphens() {
    assert_eq!(expected_module_name("kebab-case"), "KebabCase");
    assert_eq!(expected_module_name("hello-world"), "HelloWorld");
}

#[test]
fn pascal_case_transform_handles_mixed() {
    assert_eq!(expected_module_name("hello_world-test"), "HelloWorldTest");
}

#[test]
fn single_module_with_matching_name_ok() {
    // One top-level module whose name spans bytes 0..5 of the content.
    let content = "Hello";
    let report = check_file_module_mapping("Hello", &[Some((0, 5))], content);

    assert!(report.ok);
    assert!(report.diagnostic.is_none());
}

#[test]
fn multiple_modules_causes_validation_to_fail() {
    let content = "Hello";
    let report = check_file_module_mapping("Hello", &[Some((0, 5)), Some((0, 5))], content);

    // The parser reports M0306; the check itself adds no diagnostic.
    assert!(!report.ok);
    assert!(report.diagnostic.is_none());
}

#[test]
fn name_mismatch_emits_m0305() {
    let content = "WrongName";
    let report = check_file_module_mapping("my_thing", &[Some((0, 7))], content);

    assert!(!report.ok);
    let diag = report.diagnostic.expect("mismatch is reported");
    assert_eq!(diag.code, M_FILE_NAME_MISMATCH);
}

#[test]
fn empty_file_emits_m0313() {
    let content = "";
    let report = check_file_module_mapping("MyModule", &[], content);

    assert!(!report.ok);
    assert!(report.diagnostic.iter().any(|d| d.code == M_NO_TOP_MODULE));
}

#[test]
fn pascal_case_transform_skips_numeric_prefixes() {
    assert_eq!(expected_module_name("01_hello"), "Hello");
    assert_eq!(expected_module_name("02_functions"), "Functions");
    assert_eq!(expected_module_name("03_records"), "Records");
    assert_eq!(expected_module_name("10_capabilities"), "Capabilities");
    assert_eq!(expected_module_name("01"), "");
    assert_eq!(expected_module_name("123_456_abc"), "Abc");
}

#[test]
fn mismatch_message_names_both_sides() {
    let report = check_file_module_mapping("my_thing", &[Some((0, 9))], "WrongName");
    let diag = report.diagnostic.unwrap();
    assert_eq!(
        diag.message,
        "module name 'WrongName' does not match file basename 'my_thing' (expected 'MyThing')"
    );
    assert_eq!(diag.name_span, Some((0, 9)));
}

#[test]
fn no_module_message_text() {
    let report = check_file_module_mapping("a", &[], "");
    let diag = report.diagnostic.unwrap();
    assert_eq!(diag.message, "file contains no top-level module; expected exactly one");
    assert_eq!(diag.name_span, None);
}

#[test]
fn unnamed_single_module_passes() {
    let report = check_file_module_mapping("x", &[None], "");
    assert!(report.ok);
    assert!(report.diagnostic.is_none());
}

#[test]
fn name_span_past_content_reads_empty() {
    let report = check_file_module_mapping("abc", &[Some((0, 50))], "Abc");
    assert!(!report.ok);
    assert_eq!(
        report.diagnostic.unwrap().message,
        "module name '' does not match file basename 'abc' (expected 'Abc')"
    );
}

#[test]
fn separators_and_case_in_expected_name() {
    assert_eq!(expected_module_name("a__b"), "AB");
    assert_eq!(expected_module_name("-lead"), "Lead");
    assert_eq!(expected_module_name("x1_y"), "X1Y");
}
