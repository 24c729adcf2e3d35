//! Tag scanning of source text.

use req_engine::scanner::{validate_req_id, CodeScanner, TagType};

#[test]
fn test_scan_req_tags() {
    let scanner = CodeScanner::new();
    let code = r#"
// REQ: LLR-0001
void adc_init() {
    // implementation
}

/* REQ: LLR-0002, LLR-0003 */
void motor_control() {
}

// VERIFIES: TST-0035
void test_adc() {
}
"#;
    let tags = scanner.scan_content(code);

    assert_eq!(tags.len(), 4);
    assert!(tags.iter().any(|t| t.req_id == "LLR-0001" && t.tag_type == TagType::Req));
    assert!(tags.iter().any(|t| t.req_id == "LLR-0002" && t.tag_type == TagType::Req));
    assert!(tags.iter().any(|t| t.req_id == "LLR-0003" && t.tag_type == TagType::Req));
    assert!(tags.iter().any(|t| t.req_id == "TST-0035" && t.tag_type == TagType::Verifies));
}

#[test]
fn test_validate_req_id() {
    assert!(validate_req_id("HLR-0001").is_ok());
    assert!(validate_req_id("LLR-0123").is_ok());
    assert!(validate_req_id("TST-0035").is_ok());
    assert!(validate_req_id("invalid").is_err());
    assert!(validate_req_id("XYZ-001").is_err());
}

#[test]
fn test_scan_block_tags() {
    let scanner = CodeScanner::new();
    let code = r#"// BEGIN-REQ: LLR-0016
fn import_requirement() {
    // parse file
    // validate id
    // store in cache
}
// END-REQ: LLR-0016

// BEGIN-REQ: LLR-0017
fn export_requirement() {
    // generate output
}
// END-REQ: LLR-0017
"#;
    let tags = scanner.scan_content(code);

    assert_eq!(tags.len(), 2);

    let llr_16 = tags.iter().find(|t| t.req_id == "LLR-0016").unwrap();
    assert_eq!(llr_16.line, 1);
    assert_eq!(llr_16.line_end, Some(7));

    let llr_17 = tags.iter().find(|t| t.req_id == "LLR-0017").unwrap();
    assert_eq!(llr_17.line, 9);
    assert_eq!(llr_17.line_end, Some(13));
}

#[test]
fn test_mixed_tags() {
    let scanner = CodeScanner::new();
    let code = r#"
// REQ: LLR-0001
void single_line() {}

// BEGIN-REQ: LLR-0002
void block_impl() {
    // multiple lines
}
// END-REQ: LLR-0002
"#;
    let tags = scanner.scan_content(code);

    assert_eq!(tags.len(), 2);

    let single = tags.iter().find(|t| t.req_id == "LLR-0001").unwrap();
    assert_eq!(single.line, 3);
    assert_eq!(single.line_end, None);

    let block = tags.iter().find(|t| t.req_id == "LLR-0002").unwrap();
    assert_eq!(block.line, 5);
    assert_eq!(block.line_end, Some(9));
}

#[test]
fn test_unclosed_block_tag() {
    let scanner = CodeScanner::new();
    let code = r#"
// BEGIN-REQ: LLR-0001
fn unclosed_function() {
    // no END-REQ
}
"#;
    let tags = scanner.scan_content(code);

    assert_eq!(tags.len(), 1);
    let tag = &tags[0];
    assert_eq!(tag.req_id, "LLR-0001");
    assert_eq!(tag.line, 3);
    assert_eq!(tag.line_end, Some(6));
}

#[test]
fn test_orphan_end_tag() {
    let scanner = CodeScanner::new();
    let code = r#"
// END-REQ: LLR-0001
fn some_function() {
}
"#;
    let tags = scanner.scan_content(code);
    assert_eq!(tags.len(), 0);
}

// ── own tests ──

#[test]
fn criterion_tags_carry_index() {
    let scanner = CodeScanner::new();
    let code = "// CRITERION: LLR-0005 #2\nfn t() {}\n";
    let tags = scanner.scan_content(code);
    assert_eq!(tags.len(), 1);
    assert_eq!(tags[0].tag_type, TagType::Criterion);
    assert_eq!(tags[0].req_id, "LLR-0005");
    assert_eq!(tags[0].criterion_index, Some(2));
}

#[test]
fn fn_lookahead_records_symbol() {
    let scanner = CodeScanner::new();
    let code = "// REQ: LLR-0009\npub fn compute_total(x: u32) -> u32 {\n    x + 1\n}\n";
    let tags = scanner.scan_content(code);
    assert_eq!(tags.len(), 1);
    assert_eq!(tags[0].line, 2);
    assert_eq!(tags[0].symbol, Some("compute_total".to_string()));
    assert_eq!(tags[0].line_end, Some(5));
}

#[test]
fn source_extensions_are_recognised() {
    assert!(CodeScanner::is_source_file("src/main.rs"));
    assert!(CodeScanner::is_source_file("a/b.py"));
    assert!(!CodeScanner::is_source_file("README.md"));
    assert!(!CodeScanner::is_source_file("Makefile"));
}

#[test]
fn tags_become_code_refs_for_req_tags_only() {
    let scanner = CodeScanner::new();
    let code = "// REQ: LLR-0001\nint x;\n// VERIFIES: TST-0001\nint y;\n";
    let tags = scanner.scan_content(code);
    let refs = CodeScanner::tags_to_code_refs("src/a.c", &tags);
    assert_eq!(refs.len(), 1);
    assert_eq!(refs[0].req_id, "LLR-0001");
    assert_eq!(refs[0].file, "src/a.c");
}

#[test]
fn hash_content_is_blake3_hex() {
    let h = CodeScanner::hash_content(b"abc");
    assert_eq!(h, "6437b3ac38465133ffb63b75273a8db548c558465d79db03fd359c6cd5bd9d85");
}

#[test]
fn hidden_entries_are_passed_over() {
    assert!(CodeScanner::is_hidden_entry("src/.hidden.rs"));
    assert!(CodeScanner::is_hidden_entry("proj/.git"));
    assert!(CodeScanner::is_hidden_entry("src/.."));
    assert!(!CodeScanner::is_hidden_entry("src/lib.rs"));
    assert!(!CodeScanner::is_hidden_entry("./src/lib.rs"));
}
