//! ReqIF adapter: extension check, type and status mapping.

use req_engine::models::{RequirementStatus, RequirementType};
use req_engine::reqif::{ReqIfAdapter, ReqIfMapping};
use req_engine::error::Error;

#[test]
fn can_handle_accepts_reqif() {
    let adapter = ReqIfAdapter::new();
    assert!(adapter.can_handle("spec.reqif"));
}

#[test]
fn can_handle_accepts_reqifz() {
    let adapter = ReqIfAdapter::new();
    assert!(adapter.can_handle("spec.reqifz"));
}

#[test]
fn can_handle_rejects_other_extensions() {
    let adapter = ReqIfAdapter::new();
    assert!(!adapter.can_handle("spec.json"));
    assert!(!adapter.can_handle("spec.xml"));
    assert!(!adapter.can_handle("notes.md"));
    assert!(!adapter.can_handle("spec"));
}

#[test]
fn map_type_hlr() {
    let adapter = ReqIfAdapter::new();
    assert_eq!(adapter.map_type("HLR"), RequirementType::Hlr);
    assert_eq!(adapter.map_type("HIGH"), RequirementType::Hlr);
}

#[test]
fn map_type_llr() {
    let adapter = ReqIfAdapter::new();
    assert_eq!(adapter.map_type("LLR"), RequirementType::Llr);
    assert_eq!(adapter.map_type("unknown_type"), RequirementType::Llr);
}

#[test]
fn map_type_tst() {
    let adapter = ReqIfAdapter::new();
    assert_eq!(adapter.map_type("TST"), RequirementType::Tst);
    assert_eq!(adapter.map_type("TEST"), RequirementType::Tst);
}

#[test]
fn map_status_known_values() {
    let adapter = ReqIfAdapter::new();
    assert_eq!(adapter.map_status("approved"), RequirementStatus::Approved);
    assert_eq!(adapter.map_status("draft"), RequirementStatus::Draft);
    assert_eq!(adapter.map_status("deprecated"), RequirementStatus::Deprecated);
    assert_eq!(adapter.map_status("rejected"), RequirementStatus::Rejected);
}

#[test]
fn map_status_unknown_defaults_to_draft() {
    let adapter = ReqIfAdapter::new();
    assert_eq!(adapter.map_status("unknown"), RequirementStatus::Draft);
}

#[test]
fn default_mapping_attribute_names() {
    let m = ReqIfMapping::default();
    assert_eq!(m.id_attribute, "ReqIF.ForeignID");
    assert_eq!(m.text_attribute, "ReqIF.Content");
    assert_eq!(m.title_attribute.as_deref(), Some("ReqIF.Name"));
    assert_eq!(m.status_attribute.as_deref(), Some("ReqIF.Status"));
}

#[test]
fn default_mapping_status_round_trips() {
    let m = ReqIfMapping::default();
    for status in ["approved", "draft", "deprecated", "rejected"] {
        let mapped = m.status_mapping.get(status);
        assert_eq!(mapped.map(|s| s.as_str()), Some(status), "mapping missing for {status}");
    }
}

#[test]
fn read_without_feature_returns_config_error() {
    let adapter = ReqIfAdapter::new();
    let result = adapter.read("spec.reqif");
    assert!(result.is_err());
    let msg = result.unwrap_err().message();
    assert!(msg.contains("reqif"), "expected 'reqif' in error: {msg}");
}

#[test]
fn write_without_feature_returns_config_error() {
    let adapter = ReqIfAdapter::new();
    let result = adapter.write(&[], "out.reqif");
    assert!(result.is_err());
    let msg = result.unwrap_err().message();
    assert!(msg.contains("reqif"), "expected 'reqif' in error: {msg}");
}

// ── own tests ──

#[test]
fn read_error_is_config_variant() {
    let adapter = ReqIfAdapter::new();
    match adapter.read("spec.reqif") {
        Err(Error::Config(m)) => {
            assert_eq!(m, "ReqIF support not enabled. Recompile with --features reqif")
        }
        _ => panic!("expected a config error"),
    }
}

#[test]
fn can_handle_is_case_sensitive() {
    let adapter = ReqIfAdapter::new();
    assert!(!adapter.can_handle("SPEC.REQIF"));
    assert!(adapter.can_handle("dir/spec.reqifz"));
}

#[test]
fn map_type_uses_configured_names_and_is_case_insensitive() {
    let adapter = ReqIfAdapter::new();
    assert_eq!(adapter.map_type("Spec-llr-type"), RequirementType::Llr);
    assert_eq!(adapter.map_type("high level"), RequirementType::Hlr);
    assert_eq!(adapter.map_type("test case"), RequirementType::Tst);
}

#[test]
fn map_status_is_case_insensitive_via_mapping() {
    let adapter = ReqIfAdapter::new();
    assert_eq!(adapter.map_status("APPROVED"), RequirementStatus::Approved);
}
