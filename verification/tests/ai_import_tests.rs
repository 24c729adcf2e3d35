//! AI suggestion import and provenance.

use req_engine::ai_import::{generated_ids_fit, import_suggestions, is_valid_id_format, AiSuggestion, AiSuggestions, ImportOptions};
use req_engine::models::{RequirementStatus, RequirementType};
use req_engine::provenance::{find_requirement_file, lock_marker, violation_of, ProvenanceStatus};

fn suggestions(items: Vec<AiSuggestion>) -> AiSuggestions {
    AiSuggestions { source: Some("test-model".to_string()), generated_at: None, suggestions: items }
}

fn sug(id: Option<&str>, t: &str, title: &str, text: &str, parent: Option<&str>) -> AiSuggestion {
    AiSuggestion {
        id: id.map(|s| s.to_string()),
        req_type: t.to_string(),
        title: title.to_string(),
        text: text.to_string(),
        parent: parent.map(|s| s.to_string()),
        rationale: None,
    }
}

#[test]
fn test_import_forces_draft_status() {
    let batch = suggestions(vec![sug(None, "hlr", "AI-generated HLR", "Some requirement text.", None)]);
    let result = import_suggestions(batch, &[], &ImportOptions::default());
    assert_eq!(result.imported.len(), 1);
    assert_eq!(result.imported[0].status, RequirementStatus::Draft);
}

#[test]
fn test_import_rejects_invalid_id_format() {
    let batch = suggestions(vec![sug(Some("INVALID-FORMAT"), "hlr", "Bad ID", "", None)]);
    let result = import_suggestions(batch, &[], &ImportOptions::default());
    assert_eq!(result.imported.len(), 0);
    assert!(!result.errors.is_empty());
}

#[test]
fn test_import_rejects_llr_without_parent() {
    let batch = suggestions(vec![sug(None, "llr", "Orphan LLR", "", None)]);
    let result = import_suggestions(batch, &[], &ImportOptions::default());
    assert_eq!(result.imported.len(), 0);
    assert!(!result.skipped.is_empty() || !result.errors.is_empty());
}

#[test]
fn test_import_rejects_duplicate_id() {
    let existing = vec!["HLR-0001".to_string()];
    let batch = suggestions(vec![sug(Some("HLR-0001"), "hlr", "Duplicate", "", None)]);
    let result = import_suggestions(batch, &existing, &ImportOptions::default());
    assert_eq!(result.imported.len(), 0);
    assert!(!result.skipped.is_empty() || !result.errors.is_empty());
}

#[test]
fn test_import_accepts_llr_with_valid_parent() {
    let existing = vec!["HLR-0001".to_string()];
    let batch = suggestions(vec![sug(None, "llr", "Valid LLR", "Some text.", Some("HLR-0001"))]);
    let result = import_suggestions(batch, &existing, &ImportOptions::default());
    assert_eq!(result.imported.len(), 1);
    assert_eq!(result.imported[0].parent, Some("HLR-0001".to_string()));
}

#[test]
fn test_import_dry_run_does_not_persist() {
    let batch = suggestions(vec![sug(None, "hlr", "Dry-run HLR", "", None)]);
    let opts = ImportOptions { dry_run: true, ..Default::default() };
    let result = import_suggestions(batch, &[], &opts);
    assert_eq!(result.imported.len(), 1);
}

// ── own tests ──

#[test]
fn imported_requirements_carry_source_provenance_and_rationale() {
    let mut s = sug(None, "tst", "A test", "  body  ", None);
    s.rationale = Some("because".to_string());
    let existing = vec!["TST-0004".to_string()];
    let result = import_suggestions(suggestions(vec![s]), &existing, &ImportOptions::default());
    assert_eq!(result.imported.len(), 1);
    let r = &result.imported[0];
    assert_eq!(r.id, "TST-0005");
    assert_eq!(r.req_type, RequirementType::Tst);
    assert_eq!(r.text, "  body  ");
    assert_eq!(r.attributes.get("source"), Some(&"ai-suggestion".to_string()));
    assert_eq!(r.attributes.get("provenance"), Some(&"test-model".to_string()));
    assert_eq!(r.attributes.get("ai_rationale"), Some(&"because".to_string()));
}

#[test]
fn option_provenance_wins_over_batch_source() {
    let opts = ImportOptions { provenance: Some("cli".to_string()), ..Default::default() };
    let result = import_suggestions(suggestions(vec![sug(None, "hlr", "H", "", None)]), &[], &opts);
    assert_eq!(result.imported[0].attributes.get("provenance"), Some(&"cli".to_string()));
}

#[test]
fn each_suggestion_lands_in_exactly_one_list() {
    let existing = vec!["HLR-0001".to_string()];
    let batch = suggestions(vec![
        sug(None, "hlr", "new", "", None),
        sug(Some("HLR-0001"), "hlr", "dup", "", None),
        sug(None, "bogus", "bad type", "", None),
        sug(None, "llr", "no parent", "", None),
        sug(None, "llr", "missing parent", "", Some("HLR-0404")),
        sug(Some("LLR-12x"), "llr", "bad id", "", Some("HLR-0001")),
    ]);
    let result = import_suggestions(batch, &existing, &ImportOptions::default());
    assert_eq!(result.imported.len() + result.skipped.len() + result.errors.len(), 6);
    assert_eq!(result.imported.len(), 1);
    assert_eq!(result.imported[0].id, "HLR-0002");
    assert_eq!(result.skipped.len(), 2);
    assert_eq!(result.skipped[0], ("HLR-0001".to_string(), "ID already exists".to_string()));
    assert_eq!(result.errors.len(), 3);
    assert_eq!(result.errors[0], "Invalid type 'bogus' for 'bad type'");
    assert_eq!(result.errors[1], "Parent 'HLR-0404' not found for 'missing parent'");
    assert_eq!(result.errors[2], "Invalid ID format: 'LLR-12x'");
}

#[test]
fn id_format_rule() {
    assert!(is_valid_id_format("HLR-0001"));
    assert!(is_valid_id_format("TST-9"));
    assert!(is_valid_id_format("HLR-"));
    assert!(!is_valid_id_format("HLR-1-2"));
    assert!(!is_valid_id_format("hlr-0001"));
    assert!(!is_valid_id_format("ABC-0001"));
}

// ── provenance ──

#[test]
fn test_verify_provenance_missing_file() {
    let status = ProvenanceStatus::missing();
    assert!(!status.file_exists, "non-existent requirement should show file_exists=false");
}

#[test]
fn test_verify_provenance_hash_match() {
    let content = "---\nid: HLR-0001\ntool_version: 0.1.0\n---\n# Title\n";
    let status = ProvenanceStatus::of_file(content, false, None);
    assert!(status.file_exists);
    assert!(status.hash_matches);
    assert!(status.has_tool_version);

    let real_hash = status.current_hash.clone().unwrap();
    let status2 = ProvenanceStatus::of_file(content, false, Some(real_hash.as_str()));
    assert!(status2.hash_matches);
    assert!(status2.is_tool_created());
}

#[test]
fn test_check_all_provenance_detects_manual_edit() {
    let content = "---\nid: HLR-0001\ntype: hlr\ntitle: Manual\nstatus: draft\n---\n";
    let status = ProvenanceStatus::of_file(content, false, None);
    let v = violation_of("HLR-0001", &status);
    assert!(v.is_some(), "manually-created requirement should be a provenance violation");
    let v = v.unwrap();
    assert_eq!(v.req_id, "HLR-0001");
    assert_eq!(v.reason, "Missing tool_version attribute");
}

#[test]
fn changed_hash_is_a_manual_edit() {
    let content = "---\nid: HLR-0001\ntool_version: 0.1.0\n---\n";
    let status = ProvenanceStatus::of_file(content, true, Some("0000"));
    assert!(status.is_locked);
    assert!(!status.hash_matches);
    assert!(status.appears_manually_edited());
    let v = violation_of("HLR-0001", &status).unwrap();
    assert_eq!(v.reason, "File may have been manually edited");
    assert!(violation_of("HLR-0002", &ProvenanceStatus::missing()).is_none());
}

#[test]
fn requirement_file_path_by_prefix() {
    let p = find_requirement_file("/proj", "LLR-0007").unwrap();
    assert_eq!(p, "/proj/requirements/llr/LLR-0007.md");
    assert!(find_requirement_file("/proj", "XYZ-0001").is_err());
}

#[test]
fn lock_marker_text() {
    assert_eq!(lock_marker("2024-01-01"), "Locked at: 2024-01-01\nTool version: 0.1.0\n");
}

#[test]
fn generated_ids_in_one_batch_are_distinct() {
    let batch = suggestions(vec![sug(None, "hlr", "First", "", None), sug(None, "hlr", "Second", "", None)]);
    let result = import_suggestions(batch, &[], &ImportOptions::default());
    assert_eq!(result.imported.len(), 2);
    assert_eq!(result.imported[0].id, "HLR-0001");
    assert_eq!(result.imported[1].id, "HLR-0002");
}

#[test]
fn repeated_suggested_id_in_one_batch_is_skipped() {
    let batch = suggestions(vec![
        sug(Some("HLR-0005"), "hlr", "First", "", None),
        sug(Some("HLR-0005"), "hlr", "Again", "", None),
        sug(None, "hlr", "Generated", "", None),
    ]);
    let result = import_suggestions(batch, &[], &ImportOptions::default());
    assert_eq!(result.imported.len(), 2);
    assert_eq!(result.imported[0].id, "HLR-0005");
    assert_eq!(result.imported[1].id, "HLR-0006");
    assert_eq!(result.skipped, vec![("HLR-0005".to_string(), "ID already exists".to_string())]);
}

#[test]
fn generated_ids_fit_detects_overflow() {
    let existing = vec!["HLR-4294967295".to_string()];
    let batch = suggestions(vec![sug(None, "hlr", "Next", "", None)]);
    assert!(!generated_ids_fit(&batch, &existing));
    let ok = suggestions(vec![sug(None, "hlr", "Next", "", None)]);
    assert!(generated_ids_fit(&ok, &[]));
}
