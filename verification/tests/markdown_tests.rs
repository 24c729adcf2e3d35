//! Markdown requirement files: frontmatter split, body cleaning, rendering.

use req_engine::error::Error;
use req_engine::markdown::{clean_body, extract_title, split_frontmatter, Frontmatter, MarkdownAdapter};
use req_engine::models::{Requirement, RequirementStatus, RequirementType};

fn yaml_str(v: &serde_yaml::Value, key: &str) -> Option<String> {
    v.get(key).and_then(|x| x.as_str()).map(|s| s.to_string())
}

/// Reads a requirement file: the frontmatter text is decoded with
/// serde_yaml, the rest is the library's.
fn parse_content(content: &str) -> Result<Requirement, String> {
    let (yaml, body) = split_frontmatter(content).map_err(|e| e.message())?;
    let v: serde_yaml::Value = serde_yaml::from_str(&yaml).map_err(|e| e.to_string())?;
    let id = yaml_str(&v, "id").ok_or("missing id")?;
    let req_type = yaml_str(&v, "type").ok_or("missing type")?;
    let aliases = match v.get("aliases").and_then(|a| a.as_sequence()) {
        Some(seq) => seq.iter().filter_map(|x| x.as_str().map(|s| s.to_string())).collect(),
        None => vec![],
    };
    let attributes = match v.get("attributes").and_then(|a| a.as_mapping()) {
        Some(m) => m
            .iter()
            .filter_map(|(k, x)| Some((k.as_str()?.to_string(), x.as_str()?.to_string())))
            .collect(),
        None => vec![],
    };
    let fm = Frontmatter {
        id,
        req_type,
        title: yaml_str(&v, "title"),
        status: yaml_str(&v, "status").unwrap_or_default(),
        parent: yaml_str(&v, "parent"),
        aliases,
        attributes,
    };
    fm.into_requirement(&body, None).map_err(|e| e.message())
}

fn requirement(id: &str, t: RequirementType, title: &str, text: &str) -> Requirement {
    let mut r = Requirement::new(id.to_string(), t, title.to_string());
    r.text = text.to_string();
    r
}

#[test]
fn test_parse_frontmatter_and_body() {
    let content = r#"---
id: LLR-0001
type: llr
title: "ADC Sampling Rate"
status: approved
parent: HLR-0001
---

# ADC Sampling Rate

The ADC shall sample at 10 kHz ±1%.
"#;
    let req = parse_content(content).unwrap();
    assert_eq!(req.id, "LLR-0001");
    assert_eq!(req.req_type, RequirementType::Llr);
    assert_eq!(req.title, "ADC Sampling Rate");
    assert_eq!(req.status, RequirementStatus::Approved);
    assert_eq!(req.parent, Some("HLR-0001".to_string()));
    assert!(req.text.contains("10 kHz"));
}

#[test]
fn test_parse_different_types() {
    let hlr_content = r#"---
id: HLR-0001
type: hlr
title: "High Level Requirement"
status: draft
---

HLR content here.
"#;
    let req = parse_content(hlr_content).unwrap();
    assert_eq!(req.req_type, RequirementType::Hlr);
    assert_eq!(req.status, RequirementStatus::Draft);
}

#[test]
fn test_parse_aliases_and_attributes() {
    let content = r#"---
id: LLR-0002
type: llr
title: "Test Requirement"
status: approved
aliases:
  - reqif-uuid-12345
  - old-id-LLR-99
attributes:
  priority: high
  safety: ASIL-B
---

Requirement text.
"#;
    let req = parse_content(content).unwrap();
    assert_eq!(req.aliases.len(), 2);
    assert!(req.aliases.contains(&"reqif-uuid-12345".to_string()));
    assert_eq!(req.attributes.get("priority"), Some(&"high".to_string()));
    assert_eq!(req.attributes.get("safety"), Some(&"ASIL-B".to_string()));
}

#[test]
fn test_parse_missing_frontmatter() {
    let content = r#"# No Frontmatter

This has no YAML frontmatter.
"#;
    let result = parse_content(content);
    assert!(result.is_err());
}

#[test]
fn test_parse_invalid_yaml() {
    let content = r#"---
id: LLR-0001
type: llr
title: [invalid yaml
---

Content here.
"#;
    let result = parse_content(content);
    assert!(result.is_err());
}

#[test]
fn test_write_requirement() {
    let adapter = MarkdownAdapter::new();
    let mut req = requirement("HLR-TEST", RequirementType::Hlr, "Test Title", "Test requirement text.");
    req.status = RequirementStatus::Approved;
    let content = adapter.format_to_string(&req).unwrap();
    let path = MarkdownAdapter::get_requirement_path("/tmp/proj", &req);
    assert_eq!(path, "/tmp/proj/requirements/hlr/HLR-TEST.md");
    assert!(content.contains("id: HLR-TEST"));
    assert!(content.contains("type: hlr"));
    assert!(content.contains("Test requirement text"));
}

#[test]
fn test_roundtrip() {
    let adapter = MarkdownAdapter::new();
    let mut original = requirement(
        "LLR-ROUNDTRIP",
        RequirementType::Llr,
        "Roundtrip Test",
        "This tests roundtrip serialization.",
    );
    original.status = RequirementStatus::Approved;
    original.parent = Some("HLR-001".to_string());
    original.aliases = vec!["alias-1".to_string()];
    original.attributes.insert("key".to_string(), "value".to_string());

    let content = adapter.format_to_string(&original).unwrap();
    let read_req = parse_content(&content).unwrap();

    assert_eq!(read_req.id, original.id);
    assert_eq!(read_req.req_type, original.req_type);
    assert_eq!(read_req.title, original.title);
    assert_eq!(read_req.parent, original.parent);
    assert_eq!(read_req.text, original.text);
    assert_eq!(read_req.status, original.status);
    assert_eq!(read_req.aliases, original.aliases);
    assert_eq!(read_req.attributes.get("key"), Some(&"value".to_string()));
}

fn make_req_with_attrs(id: &str, attrs: &[(&str, &str)]) -> Requirement {
    let mut req = Requirement::new(id.to_string(), RequirementType::Llr, "Attr test".to_string());
    for (k, v) in attrs {
        req.attributes.insert(k.to_string(), v.to_string());
    }
    req
}

#[test]
fn attributes_roundtrip_markdown() {
    let adapter = MarkdownAdapter::new();
    let req = make_req_with_attrs("LLR-ATTR-01", &[("risk", "high"), ("source", "DOORS-42")]);
    let md = adapter.format_to_string(&req).unwrap();
    let parsed = parse_content(&md).unwrap();
    assert_eq!(parsed.attributes.get("risk").map(String::as_str), Some("high"));
    assert_eq!(parsed.attributes.get("source").map(String::as_str), Some("DOORS-42"));
}

#[test]
fn attributes_absent_parses_as_empty() {
    let content = "---\nid: LLR-NOATTR\ntype: llr\ntitle: \"No attrs\"\nstatus: draft\n---\n";
    let req = parse_content(content).unwrap();
    assert!(req.attributes.is_empty());
}

#[test]
fn attributes_case_sensitive_keys() {
    let adapter = MarkdownAdapter::new();
    let req = make_req_with_attrs("LLR-ATTR-03", &[("CamelCase", "v1"), ("snake_case", "v2")]);
    let md = adapter.format_to_string(&req).unwrap();
    let parsed = parse_content(&md).unwrap();
    assert_eq!(parsed.attributes.get("CamelCase").map(String::as_str), Some("v1"));
    assert_eq!(parsed.attributes.get("snake_case").map(String::as_str), Some("v2"));
}

#[test]
fn attributes_with_quotes_roundtrip() {
    let adapter = MarkdownAdapter::new();
    let req = make_req_with_attrs("HLR-0001", &[("quote", "say \"hi\"")]);
    let md = adapter.format_to_string(&req).unwrap();
    let back = parse_content(&md).unwrap();
    assert_eq!(back.attributes.get("quote"), Some(&"say \"hi\"".to_string()));
}

#[test]
fn import_accepts_minimal_frontmatter() {
    let content = "---\nid: LLR-MIN-01\ntype: llr\ntitle: \"Minimal\"\nstatus: draft\n---\n";
    let req = parse_content(content).unwrap();
    assert_eq!(req.id, "LLR-MIN-01");
    assert!(req.parent.is_none());
    assert!(req.aliases.is_empty());
    assert!(req.attributes.is_empty());
}

#[test]
fn import_preserves_unknown_fields_in_attributes() {
    let content = "---\nid: LLR-ATTR-01\ntype: llr\ntitle: \"Attrs\"\nstatus: draft\nattributes:\n  custom_field: \"foo\"\n---\n";
    let req = parse_content(content).unwrap();
    assert_eq!(req.attributes.get("custom_field").map(String::as_str), Some("foo"));
}

#[test]
fn title_falls_back_to_heading() {
    let content = "---\nid: HLR-0042\ntype: hlr\n---\n# Heading Title\n\nBody text.\n";
    let req = parse_content(content).unwrap();
    assert_eq!(req.title, "Heading Title");
    assert_eq!(req.text, "Body text.");
    assert_eq!(req.status, RequirementStatus::Draft);
}

// ── own tests ──

#[test]
fn split_errors_name_the_problem() {
    match split_frontmatter("no frontmatter") {
        Err(Error::Parse(m)) => assert_eq!(m, "No YAML frontmatter found"),
        _ => panic!("expected a parse error"),
    }
    match split_frontmatter("---\nid: x\nno close\n") {
        Err(Error::Parse(m)) => assert_eq!(m, "Unclosed YAML frontmatter"),
        _ => panic!("expected a parse error"),
    }
    let (yaml, body) = split_frontmatter("---\r\nid: x\r\n---\r\nbody").unwrap();
    assert_eq!(yaml, "id: x\r");
    assert_eq!(body, "body");
}

#[test]
fn unknown_type_is_an_error() {
    let content = "---\nid: X-1\ntype: epic\n---\nBody\n";
    assert_eq!(parse_content(content).unwrap_err(), "Invalid requirement type: epic");
}

#[test]
fn body_cleaning_and_title() {
    assert_eq!(clean_body("\n# Title\n\nLine one\nLine two\n\n"), "# Title\n\nLine one\nLine two");
    assert_eq!(clean_body("# Title\n\nLine one\n\n"), "Line one");
    assert_eq!(extract_title("text\n  # The Title  \nmore"), Some("The Title".to_string()));
    assert_eq!(extract_title("no heading"), None);
}

#[test]
fn rendered_file_has_exact_shape() {
    let adapter = MarkdownAdapter::new();
    let mut req = requirement("LLR-0001", RequirementType::Llr, "A \"T\"", "  text  ");
    req.parent = Some("HLR-0001".to_string());
    let content = adapter.format_to_string(&req).unwrap();
    assert_eq!(
        content,
        "---\nid: LLR-0001\ntype: llr\ntitle: \"A \\\"T\\\"\"\nstatus: draft\nparent: HLR-0001\n---\n\ntext\n"
    );
    assert_eq!(adapter.name(), "markdown");
}
