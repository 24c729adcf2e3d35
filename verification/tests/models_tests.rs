//! Requirement model: ids, types, statuses, attributes, schema version.

use req_engine::models::{
    Coverage, Requirement, RequirementStatus, RequirementType, SCHEMA_VERSION, TOOL_VERSION,
    AiExport, LinkType,
};

#[test]
fn test_requirement_struct_fields() {
    let mut req = Requirement::new(
        "LLR-0001".to_string(),
        RequirementType::Llr,
        "Test Requirement".to_string(),
    );

    assert_eq!(req.id, "LLR-0001");
    assert_eq!(req.req_type, RequirementType::Llr);
    assert_eq!(req.title, "Test Requirement");
    assert_eq!(req.status, RequirementStatus::Draft);
    assert!(req.parent.is_none());
    assert!(req.aliases.is_empty());
    assert!(req.attributes.is_empty());

    req.parent = Some("HLR-0001".to_string());
    req.aliases.push("reqif-uuid-123".to_string());
    req.attributes.insert("priority".to_string(), "high".to_string());

    assert_eq!(req.parent, Some("HLR-0001".to_string()));
    assert_eq!(req.aliases.len(), 1);
    assert_eq!(req.attributes.get("priority"), Some(&"high".to_string()));
}

#[test]
fn test_id_format_validation() {
    assert!(Requirement::parse_id("HLR-0001").is_some());
    assert!(Requirement::parse_id("LLR-0123").is_some());
    assert!(Requirement::parse_id("TST-0035").is_some());

    assert!(Requirement::parse_id("invalid").is_none());
    assert!(Requirement::parse_id("XYZ-001").is_none());
    assert!(Requirement::parse_id("HLR-ABC").is_none());
    assert!(Requirement::parse_id("HLR").is_none());
    assert!(Requirement::parse_id("").is_none());
}

#[test]
fn test_id_generation() {
    let empty: Vec<String> = Vec::new();
    let id1 = Requirement::generate_id(RequirementType::Hlr, &empty);
    assert_eq!(id1, "HLR-0001");

    let existing = vec!["HLR-0001".to_string(), "HLR-0002".to_string()];
    let id2 = Requirement::generate_id(RequirementType::Hlr, &existing);
    assert_eq!(id2, "HLR-0003");

    let llr_existing = vec!["LLR-0001".to_string(), "LLR-0002".to_string()];
    let id3 = Requirement::generate_id(RequirementType::Llr, &llr_existing);
    assert_eq!(id3, "LLR-0003");

    let tst_id = Requirement::generate_id(RequirementType::Tst, &empty);
    assert_eq!(tst_id, "TST-0001");
}

#[test]
fn test_requirement_type_conversion() {
    assert_eq!(RequirementType::from_str("hlr"), Some(RequirementType::Hlr));
    assert_eq!(RequirementType::from_str("llr"), Some(RequirementType::Llr));
    assert_eq!(RequirementType::from_str("tst"), Some(RequirementType::Tst));
    assert_eq!(RequirementType::from_str("test"), Some(RequirementType::Tst));
    assert_eq!(RequirementType::from_str("invalid"), None);

    assert_eq!(RequirementType::Hlr.as_str(), "hlr");
    assert_eq!(RequirementType::Llr.as_str(), "llr");
    assert_eq!(RequirementType::Tst.as_str(), "tst");
}

#[test]
fn test_requirement_status_conversion() {
    assert_eq!(RequirementStatus::from_str("draft"), Some(RequirementStatus::Draft));
    assert_eq!(RequirementStatus::from_str("approved"), Some(RequirementStatus::Approved));
    assert_eq!(RequirementStatus::from_str("deprecated"), Some(RequirementStatus::Deprecated));
    assert_eq!(RequirementStatus::from_str("rejected"), Some(RequirementStatus::Rejected));
    assert_eq!(RequirementStatus::from_str("invalid"), None);

    let default_status = RequirementStatus::default();
    assert_eq!(default_status, RequirementStatus::Approved);
}

#[test]
fn test_parse_id() {
    assert_eq!(Requirement::parse_id("HLR-0001"), Some((RequirementType::Hlr, 1)));
    assert_eq!(Requirement::parse_id("LLR-0123"), Some((RequirementType::Llr, 123)));
    assert_eq!(Requirement::parse_id("TST-0042"), Some((RequirementType::Tst, 42)));
    assert_eq!(Requirement::parse_id("invalid"), None);
    assert_eq!(Requirement::parse_id("XYZ-001"), None);
}

#[test]
fn test_generate_id() {
    let existing = vec!["HLR-0001".to_string(), "HLR-0002".to_string()];
    let new_id = Requirement::generate_id(RequirementType::Hlr, &existing);
    assert_eq!(new_id, "HLR-0003");
}

#[test]
fn schema_version_is_non_empty() {
    assert!(SCHEMA_VERSION.len() > 0, "SCHEMA_VERSION must not be empty");
}

#[test]
fn schema_version_constant_value() {
    assert_eq!(SCHEMA_VERSION, "1.0.0");
}

#[test]
fn ai_export_schema_version_matches_constant() {
    let export = AiExport::new(vec![], vec![], vec![], Coverage::default());
    assert_eq!(export.schema_version, SCHEMA_VERSION);
}

#[test]
fn ai_export_tool_version_non_empty() {
    let export = AiExport::new(vec![], vec![], vec![], Coverage::default());
    assert!(!export.tool_version.is_empty());
    assert_eq!(export.tool_version, TOOL_VERSION);
}

// ── own tests ──

#[test]
fn type_and_status_names_round_trip() {
    for t in [RequirementType::Hlr, RequirementType::Llr, RequirementType::Tst] {
        assert_eq!(RequirementType::from_str(t.as_str()), Some(t));
    }
    for s in [
        RequirementStatus::Draft,
        RequirementStatus::Approved,
        RequirementStatus::Deprecated,
        RequirementStatus::Rejected,
    ] {
        assert_eq!(RequirementStatus::from_str(s.as_str()), Some(s));
    }
    for l in [LinkType::Implements, LinkType::Verifies, LinkType::References] {
        assert_eq!(LinkType::from_str(l.as_str()), Some(l));
    }
}

#[test]
fn type_names_ignore_ascii_case() {
    assert_eq!(RequirementType::from_str("HLR"), Some(RequirementType::Hlr));
    assert_eq!(RequirementType::from_str("Test"), Some(RequirementType::Tst));
    assert_eq!(RequirementStatus::from_str("DRAFT"), Some(RequirementStatus::Draft));
}

#[test]
fn generated_id_skips_other_types_and_takes_max() {
    let existing = vec![
        "HLR-0007".to_string(),
        "LLR-0002".to_string(),
        "HLR-0003".to_string(),
        "HLR-bogus".to_string(),
    ];
    let id = Requirement::generate_id(RequirementType::Hlr, &existing);
    assert_eq!(id, "HLR-0008");
    assert!(!existing.contains(&id));
    assert_eq!(Requirement::parse_id(&id), Some((RequirementType::Hlr, 8)));
    assert!(Requirement::can_generate_id(RequirementType::Llr, &existing));
}

#[test]
fn generated_id_pads_to_four_digits_only() {
    let existing = vec!["TST-12345".to_string()];
    let id = Requirement::generate_id(RequirementType::Tst, &existing);
    assert_eq!(id, "TST-12346");
}

#[test]
fn attributes_insert_replaces_and_keeps_key_order() {
    let mut req = Requirement::new("HLR-0001".to_string(), RequirementType::Hlr, "T".to_string());
    req.attributes.insert("zeta".to_string(), "1".to_string());
    req.attributes.insert("alpha".to_string(), "2".to_string());
    req.attributes.insert("zeta".to_string(), "3".to_string());
    assert_eq!(req.attributes.len(), 2);
    assert_eq!(req.attributes.get("zeta"), Some(&"3".to_string()));
    assert_eq!(req.attributes.get("alpha"), Some(&"2".to_string()));
    assert_eq!(req.attributes.get("Alpha"), None);
    let keys: Vec<&str> = req.attributes.as_slice().iter().map(|p| p.0.as_str()).collect();
    assert_eq!(keys, vec!["alpha", "zeta"]);
}

#[test]
fn coverage_default_is_all_zero() {
    let c = Coverage::default();
    assert_eq!(c.hlr_total, 0);
    assert_eq!(c.llr_implemented, 0);
    assert_eq!(c.orphan_code, 0);
}

#[test]
fn test_database_locked_error_message_mentions_mcp_server() {
    let msg = req_engine::error::Error::DatabaseLocked.message();
    assert!(msg.contains("MCP server"), "DatabaseLocked message must mention 'MCP server', got: {msg}");
}

#[test]
fn placeholder_id_parses_as_valid_llr() {
    let parsed = Requirement::parse_id("LLR-0123");
    assert!(parsed.is_some(), "LLR-0123 should parse as a valid requirement ID");
    let (req_type, number) = parsed.unwrap();
    assert_eq!(req_type, RequirementType::Llr);
    assert_eq!(number, 123);
}

#[test]
fn error_messages_carry_their_prefix() {
    assert_eq!(req_engine::error::Error::RequirementNotFound("X".to_string()).message(), "Requirement not found: X");
    assert_eq!(req_engine::error::Error::NotInitialized.message(), "Project not initialized. Run 'req init' first.");
    assert_eq!(req_engine::error::Error::Config("c".to_string()).message(), "Configuration error: c");
}
