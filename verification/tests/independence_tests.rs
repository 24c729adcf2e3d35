//! Author independence check without git access.

use req_engine::independence::{check_independence, extract_agent_session};
use req_engine::models::CodeRef;

fn make_ref(req_id: &str, file: &str) -> CodeRef {
    CodeRef {
        req_id: req_id.to_string(),
        file: file.to_string(),
        line: 1,
        line_end: Some(5),
        hash: None,
        symbol: None,
    }
}

#[test]
fn without_git_feature_returns_ok_with_warning() {
    let result = check_independence(".", &[], &[]).unwrap();
    assert!(result.violations.is_empty());
    assert!(!result.warnings.is_empty());
}

#[test]
fn empty_refs_no_violations() {
    let result = check_independence(".", &[], &[]).unwrap();
    assert!(result.violations.is_empty());
}

#[test]
fn refs_with_non_existent_repo_produce_warning_not_panic() {
    let r = make_ref("LLR-0001", "src/foo.rs");
    let result = check_independence("/nonexistent/path", &[r.clone()], &[r]);
    assert!(result.is_ok());
}

#[test]
fn independence_without_git_feature_returns_ok() {
    let result = check_independence(".", &[], &[]).unwrap();
    assert!(result.violations.is_empty());
    assert!(!result.warnings.is_empty(), "should warn that git feature is disabled");
}

#[test]
fn independence_nonexistent_repo_returns_warning() {
    let r = make_ref("LLR-0001", "src/foo.rs");
    let result = check_independence("/nonexistent/path", &[r.clone()], &[r]);
    assert!(result.is_ok());
}

#[test]
fn independence_empty_refs_no_violations() {
    let result = check_independence(".", &[], &[]).unwrap();
    assert!(result.violations.is_empty());
}

// ── own tests ──

#[test]
fn skipped_check_has_one_anonymous_warning() {
    let result = check_independence(".", &[], &[]).unwrap();
    assert_eq!(result.warnings.len(), 1);
    assert!(result.warnings[0].req_id.is_empty());
    assert!(result.warnings[0].file.is_empty());
    assert!(result.warnings[0].reason.contains("git feature not enabled"));
}

#[test]
fn agent_session_trailer_is_extracted() {
    let msg = "Fix bug\n\nReq-Agent-Session: abc123  \nOther: x\n";
    assert_eq!(extract_agent_session(msg), Some("abc123".to_string()));
    let msg2 = "Req-Agent-Session: one\nReq-Agent-Session: two";
    assert_eq!(extract_agent_session(msg2), Some("two".to_string()));
    assert_eq!(extract_agent_session("no trailer here"), None);
}
