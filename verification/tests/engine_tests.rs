//! Engine building blocks: export formats, criteria, audit bundle, hooks,
//! configuration, code reference handling.

use req_engine::audit::{AUDIT_PROMPT_HINT, AUDIT_SCHEMA_VERSION};
use req_engine::config::{cache_gitignore, Config};
use req_engine::engine::{
    audit_bundle, criteria_report, criteria_texts, criterion_links, export_code_refs,
    find_coverage_score, import_digest, import_status, join_exports, new_requirement, normalize_path,
    sort_by_id, undefined_refs, verifies_links, widest_code_refs, ExportFormat, ImportFormat,
};
use req_engine::error::Error;
use req_engine::hooks::{generate_ci_workflow, install_hook, uninstall_hook, GITHUB_WORKFLOW};
use req_engine::markdown::MarkdownAdapter;
use req_engine::models::{CodeRef, LinkType, Requirement, RequirementStatus, RequirementType};
use req_engine::scanner::CodeScanner;
use req_engine::resources::{resource_of, Resource, ResourceError};
use req_engine::audit::LineCoverageScore;

fn cref(req_id: &str, file: &str, line: usize, line_end: Option<usize>) -> CodeRef {
    CodeRef { req_id: req_id.to_string(), file: file.to_string(), line, line_end, hash: None, symbol: None }
}

// ── export ──

#[test]
fn export_unknown_format_returns_err() {
    let err = ExportFormat::parse("xml").unwrap_err();
    assert!(err.message().contains("Unknown export format"), "unexpected error: {}", err.message());
}

#[test]
fn export_markdown_contains_frontmatter() {
    let adapter = MarkdownAdapter::new();
    let req = Requirement::new("HLR-0001".to_string(), RequirementType::Hlr, "HLR".to_string());
    let md = join_exports(&[adapter.format_to_string(&req).unwrap()]);
    assert!(md.contains("---"), "expected YAML frontmatter delimiter");
    assert!(md.contains("id: HLR-0001"), "expected id field in frontmatter");
}

#[test]
fn export_markdown_single_id() {
    let adapter = MarkdownAdapter::new();
    let reqs = vec![
        Requirement::new("HLR-0001".to_string(), RequirementType::Hlr, "A".to_string()),
        Requirement::new("HLR-0002".to_string(), RequirementType::Hlr, "B".to_string()),
    ];
    let chosen: Vec<String> = reqs
        .iter()
        .filter(|r| r.id == "HLR-0001")
        .map(|r| adapter.format_to_string(r).unwrap())
        .collect();
    let md = join_exports(&chosen);
    let count = md.matches("id: HLR-0001").count();
    assert_eq!(count, 1, "expected exactly one id: HLR-0001");
    assert!(!md.contains("id: HLR-0002"), "should not contain HLR-0002");
}

#[test]
fn export_and_import_format_names() {
    assert_eq!(ExportFormat::parse("json").unwrap(), ExportFormat::Json);
    assert_eq!(ExportFormat::parse("ai").unwrap(), ExportFormat::AiContext);
    assert_eq!(ExportFormat::parse("md").unwrap(), ExportFormat::Markdown);
    assert_eq!(ImportFormat::parse("markdown").unwrap(), ImportFormat::Markdown);
    match ImportFormat::parse("reqif") {
        Err(Error::Config(m)) => assert_eq!(m, "Unknown import format: reqif"),
        _ => panic!("expected a config error"),
    }
}

#[test]
fn join_exports_uses_separator() {
    assert_eq!(join_exports(&["a".to_string(), "b".to_string()]), "a\n\n---\n\nb");
    assert_eq!(join_exports(&[]), "");
}

#[test]
fn test_list_requirements_sorted_by_id() {
    let reqs = vec![
        Requirement::new("LLR-0002".to_string(), RequirementType::Llr, "b".to_string()),
        Requirement::new("HLR-0001".to_string(), RequirementType::Hlr, "a".to_string()),
        Requirement::new("LLR-0001".to_string(), RequirementType::Llr, "c".to_string()),
    ];
    let sorted = sort_by_id(reqs);
    let ids: Vec<&str> = sorted.iter().map(|r| r.id.as_str()).collect();
    assert_eq!(ids, vec!["HLR-0001", "LLR-0001", "LLR-0002"]);
}

#[test]
fn test_export_ai_context_paths_forward_slashes() {
    let refs = vec![cref("LLR-0002", "/proj\\src\\b.rs", 3, None), cref("LLR-0001", "/proj/src/a.rs", 9, None)];
    let out = export_code_refs(refs, "/proj");
    assert_eq!(out.len(), 2);
    assert_eq!(out[0].req_id, "LLR-0001");
    for r in &out {
        assert!(!r.file.contains('\\'), "paths must use forward slashes: {}", r.file);
    }
    assert_eq!(out[0].file, "src/a.rs");
}

#[test]
fn normalize_path_strips_base() {
    assert_eq!(normalize_path("/proj/src/a.rs", "/proj"), "src/a.rs");
    assert_eq!(normalize_path("other\\x.rs", "/proj"), "other/x.rs");
}

// ── criteria and bundle ──

#[test]
fn audit_criteria_unlinked_status() {
    let text = "## Acceptance criteria\n- [ ] First criterion\n- [ ] Second criterion\n";
    let texts = criteria_texts(text);
    let report = criteria_report("LLR-0001", &texts, &[]);
    assert_eq!(report.criteria.len(), 2);
    assert!(!report.criteria[0].linked);
    assert!(!report.criteria[1].linked);
}

#[test]
fn audit_criteria_linked_after_scan() {
    let text = "## Acceptance criteria\n- [ ] Do the thing\n";
    let scanner = CodeScanner::new();
    let tags = scanner.scan_content("// CRITERION: LLR-0099 #1\nfn do_thing() { assert!(1==1); }\n");
    let links: Vec<(usize, String, usize)> = criterion_links(&tags)
        .into_iter()
        .filter(|l| l.0 == "LLR-0099")
        .map(|l| (l.1, "src/thing.rs".to_string(), l.2))
        .collect();
    let report = criteria_report("LLR-0099", &criteria_texts(text), &links);
    assert_eq!(report.criteria.len(), 1);
    assert!(report.criteria[0].linked, "criterion #1 should be linked after scan");
    assert_eq!(report.criteria[0].test_file, Some("src/thing.rs".to_string()));
    assert_eq!(report.criteria[0].test_line, Some(1));
}

#[test]
fn criteria_beyond_count_warn() {
    let texts = criteria_texts("- [x] done\n  - [X] also\n- not a criterion\n");
    assert_eq!(texts, vec!["done".to_string(), "also".to_string()]);
    let links = vec![(3, "t.rs".to_string(), 7), (1, "a.rs".to_string(), 2), (1, "b.rs".to_string(), 5)];
    let report = criteria_report("LLR-0001", &texts, &links);
    assert_eq!(report.criteria[0].test_file, Some("a.rs".to_string()));
    assert!(!report.criteria[1].linked);
    assert_eq!(report.warnings.len(), 1);
}

fn bundle_for(id: &str) -> req_engine::audit::AuditBundle {
    let mut llr = Requirement::new(id.to_string(), RequirementType::Llr, "Test LLR".to_string());
    llr.status = RequirementStatus::Approved;
    let report = criteria_report(id, &criteria_texts(&llr.text), &[]);
    audit_bundle(id, llr, None, vec![], vec![], vec![], report, None, None)
}

#[test]
fn audit_bundle_schema_version() {
    let bundle = bundle_for("LLR-0001");
    assert_eq!(bundle.schema_version, AUDIT_SCHEMA_VERSION);
}

#[test]
fn audit_bundle_prompt_hint_is_constant() {
    let bundle = bundle_for("LLR-0001");
    assert_eq!(bundle.prompt_hint, AUDIT_PROMPT_HINT);
}

#[test]
fn audit_bundle_timestamp_is_rfc3339_utc() {
    let bundle = bundle_for("LLR-0001");
    let t = bundle.generated_at.as_bytes();
    assert!(bundle.generated_at.ends_with("+00:00"));
    assert_eq!((t[4], t[7], t[10], t[13], t[16]), (b'-', b'-', b'T', b':', b':'));
    assert!([25usize, 29, 32, 35].contains(&t.len()));
}

#[test]
fn coverage_score_lookup_takes_first() {
    let scores = vec![
        LineCoverageScore { req_id: "LLR-0001".to_string(), file: "a".to_string(), lines_total: 4, lines_hit: 1 },
        LineCoverageScore { req_id: "LLR-0001".to_string(), file: "b".to_string(), lines_total: 9, lines_hit: 9 },
    ];
    let s = find_coverage_score(scores, "LLR-0001").unwrap();
    assert_eq!(s.file, "a");
}

// ── hooks ──

#[test]
fn hook_install_creates_pre_commit_file() {
    let content = install_hook(false, false).expect("install should succeed");
    assert!(!content.is_empty(), "hook file should be non-empty");
}

#[test]
fn hook_uninstall_removes_pre_commit_file() {
    let content = install_hook(false, false).unwrap();
    assert_eq!(uninstall_hook(Some(content)).expect("uninstall should succeed"), true);
}

#[test]
fn hook_uninstall_absent_file_is_safe() {
    let result = uninstall_hook(None);
    assert!(result.is_ok(), "uninstall with no hook present should return Ok, got: {:?}", result);
}

#[test]
fn hook_install_strict_writes_strict_flag() {
    let content = install_hook(true, false).expect("install strict should succeed");
    assert!(content.contains("--strict"), "strict hook should contain '--strict', got:\n{content}");
}

#[test]
fn hook_decisions_refuse_foreign_hooks() {
    assert!(matches!(install_hook(false, true), Err(Error::Config(_))));
    assert!(matches!(uninstall_hook(Some("#!/bin/sh\nmake lint\n")), Err(Error::Config(_))));
}

#[test]
fn ci_workflow_paths() {
    let (path, text) = generate_ci_workflow("gh", "/proj").unwrap();
    assert_eq!(path, "/proj/.github/workflows/traceability.yml");
    assert_eq!(text, GITHUB_WORKFLOW);
    let (path, _) = generate_ci_workflow("gitlab", "/proj").unwrap();
    assert_eq!(path, "/proj/traceability.gitlab-ci.yml");
    match generate_ci_workflow("jenkins", "/proj") {
        Err(Error::Config(m)) => assert_eq!(m, "Unknown CI type: jenkins. Supported: github, gitlab"),
        _ => panic!("expected a config error"),
    }
}

// ── configuration ──

#[test]
fn default_config_values() {
    let c = Config::default();
    assert_eq!(c.source_dirs, vec!["src".to_string(), "tests".to_string()]);
    assert_eq!(c.requirements_dir, "requirements");
    assert_eq!(c.default_adapter, "markdown");
    assert_eq!(c.requirements_path("/p"), "/p/requirements");
    assert_eq!(c.cache_path("/p"), "/p/.req/cache.db");
    assert_eq!(Config::config_path("/p"), "/p/.req/config.toml");
    assert!(cache_gitignore().contains("*.db"));
}

// ── code references, links, new requirements ──

#[test]
fn widest_code_ref_per_slot_is_kept() {
    let refs = vec![
        cref("LLR-0001", "a.rs", 3, None),
        cref("LLR-0001", "a.rs", 3, Some(9)),
        cref("LLR-0001", "a.rs", 3, Some(5)),
        cref("LLR-0002", "a.rs", 3, None),
    ];
    let out = widest_code_refs(refs);
    assert_eq!(out.len(), 2);
    assert_eq!(out[0].line_end, Some(9));
    assert_eq!(out[1].req_id, "LLR-0002");
}

#[test]
fn undefined_refs_in_order() {
    let refs = vec![cref("LLR-0009", "a.rs", 1, None), cref("LLR-0001", "a.rs", 2, None), cref("LLR-0009", "b.rs", 1, None)];
    let existing = vec!["LLR-0001".to_string()];
    assert_eq!(undefined_refs(&refs, &existing), vec!["LLR-0009".to_string(), "LLR-0009".to_string()]);
}

#[test]
fn verifies_tags_become_links_from_the_file() {
    let tags = CodeScanner::new().scan_content("// VERIFIES: LLR-0001, LLR-0002\n#[test]\nfn t() {}\n// REQ: LLR-0003\nint x;\n");
    let links = verifies_links("tests/t.rs", &tags);
    assert_eq!(links.len(), 2);
    assert_eq!(links[0].source, "tests/t.rs");
    assert_eq!(links[1].target, "LLR-0002");
    assert_eq!(links[0].link_type, LinkType::Verifies);
}

#[test]
fn new_requirement_checks_parent() {
    let existing = vec!["HLR-0001".to_string(), "LLR-0003".to_string()];
    let r = new_requirement(RequirementType::Llr, "x", Some("HLR-0001"), RequirementStatus::Draft, &existing).unwrap();
    assert_eq!(r.id, "LLR-0004");
    assert_eq!(r.parent, Some("HLR-0001".to_string()));
    match new_requirement(RequirementType::Llr, "x", Some("HLR-0404"), RequirementStatus::Draft, &existing) {
        Err(Error::ParentNotFound(p)) => assert_eq!(p, "HLR-0404"),
        _ => panic!("expected ParentNotFound"),
    }
}

#[test]
fn import_source_status() {
    let abc = "ba7816bf8f01cfea414140de5dae2223b00361a396177a9cb410ff61f20015ad";
    assert_eq!(import_status(false, None, abc).as_deref(), Some("orphaned"));
    assert_eq!(import_status(true, Some(b"abc"), abc), None);
    assert_eq!(import_status(true, Some(b"abd"), abc).as_deref(), Some("stale"));
    assert_eq!(import_status(true, None, abc).as_deref(), Some("stale"));
}

// ── resource addresses ──

#[test]
fn resource_addresses() {
    assert!(matches!(resource_of("req://coverage"), Ok(Resource::Coverage)));
    assert!(matches!(resource_of("req://gaps"), Ok(Resource::Gaps)));
    match resource_of("req://requirements/llr") {
        Ok(Resource::Requirements { req_type, id }) => {
            assert_eq!(req_type, RequirementType::Llr);
            assert_eq!(id, None);
        }
        _ => panic!("expected a requirement listing"),
    }
    match resource_of("req://requirements/hlr/HLR-0001") {
        Ok(Resource::Requirements { req_type, id }) => {
            assert_eq!(req_type, RequirementType::Hlr);
            assert_eq!(id, Some("HLR-0001".to_string()));
        }
        _ => panic!("expected a single requirement"),
    }
    match resource_of("req://requirements/epic/X") {
        Err(ResourceError::UnknownType(t)) => assert_eq!(t, "epic"),
        _ => panic!("expected an unknown type"),
    }
    match resource_of("req://nothing") {
        Err(ResourceError::UnknownUri(u)) => assert_eq!(u, "req://nothing"),
        _ => panic!("expected an unknown address"),
    }
}

#[test]
fn import_digest_is_sha256_hex() {
    assert_eq!(import_digest(b""), "e3b0c44298fc1c149afbf4c8996fb92427ae41e4649b934ca495991b7852b855");
    assert_eq!(import_digest(b"abc"), "ba7816bf8f01cfea414140de5dae2223b00361a396177a9cb410ff61f20015ad");
}
