//! Traceability graph: children, parents, code references, impact, gaps,
//! coverage, validation and the trace tree.

use req_engine::models::{CodeRef, Link, LinkType, Requirement, RequirementStatus, RequirementType};
use req_engine::trace::TraceGraph;
use req_engine::validation::Severity;

fn code_ref(req_id: &str, file: &str, line: usize, symbol: Option<&str>) -> CodeRef {
    CodeRef {
        req_id: req_id.to_string(),
        file: file.to_string(),
        line,
        line_end: None,
        hash: None,
        symbol: symbol.map(|s| s.to_string()),
    }
}

fn populated() -> (Vec<Requirement>, Vec<CodeRef>) {
    let hlr = Requirement::new("HLR-0001".to_string(), RequirementType::Hlr, "Root".to_string());
    let mut llr1 = Requirement::new("LLR-0001".to_string(), RequirementType::Llr, "Sub1".to_string());
    llr1.parent = Some("HLR-0001".to_string());
    let mut llr2 = Requirement::new("LLR-0002".to_string(), RequirementType::Llr, "Sub2".to_string());
    llr2.parent = Some("HLR-0001".to_string());
    let refs = vec![code_ref("LLR-0001", "src/impl.rs", 42, Some("impl_fn"))];
    (vec![hlr, llr1, llr2], refs)
}

fn populated_graph() -> TraceGraph {
    let (reqs, refs) = populated();
    TraceGraph::new(reqs, refs, vec![])
}

#[test]
fn test_trace_tree_hlr_has_children() {
    let graph = populated_graph();
    let children = graph.get_children("HLR-0001");
    let ids: Vec<&str> = children.iter().map(|r| r.id.as_str()).collect();
    assert!(ids.contains(&"LLR-0001"));
    assert!(ids.contains(&"LLR-0002"));
}

#[test]
fn test_trace_tree_llr_has_code_refs() {
    let graph = populated_graph();
    let refs = graph.get_code_refs("LLR-0001");
    assert_eq!(refs.len(), 1);
    assert_eq!(refs[0].line, 42);
}

#[test]
fn test_trace_tree_llr_parent() {
    let graph = populated_graph();
    let parent = graph.get_parent("LLR-0001");
    assert!(parent.is_some());
    assert_eq!(parent.unwrap().id, "HLR-0001");
}

#[test]
fn test_impact_analysis_direct() {
    let graph = populated_graph();
    let impact = graph.impact_analysis("HLR-0001");
    assert!(impact.affected_requirements.iter().any(|id| id == "LLR-0001"));
    assert!(impact.affected_requirements.iter().any(|id| id == "LLR-0002"));
}

#[test]
fn test_gap_hlr_without_llr() {
    let hlr = Requirement::new("HLR-GAP".to_string(), RequirementType::Hlr, "Unimplemented".to_string());
    let graph = TraceGraph::new(vec![hlr], vec![], vec![]);
    let gaps = graph.find_gaps();
    assert!(gaps.hlr_without_llr.iter().any(|id| id == "HLR-GAP"));
}

#[test]
fn test_gap_llr_without_code() {
    let llr = Requirement::new("LLR-GAP".to_string(), RequirementType::Llr, "No code".to_string());
    let graph = TraceGraph::new(vec![llr], vec![], vec![]);
    let gaps = graph.find_gaps();
    assert!(gaps.llr_without_code.iter().any(|id| id == "LLR-GAP"));
}

#[test]
fn test_no_gaps_full_chain() {
    let (reqs, mut refs) = populated();
    refs.push(code_ref("LLR-0002", "src/impl2.rs", 10, None));
    let graph = TraceGraph::new(reqs, refs, vec![]);
    let gaps = graph.find_gaps();
    assert!(!gaps.hlr_without_llr.iter().any(|id| id == "HLR-0001"));
    assert!(!gaps.llr_without_code.iter().any(|id| id == "LLR-0001"));
    assert!(!gaps.llr_without_code.iter().any(|id| id == "LLR-0002"));
}

#[test]
fn test_trace_tree_hlr_output() {
    let graph = populated_graph();
    let output = graph.trace_tree("HLR-0001", 0).expect("trace_tree should return Some for known ID");
    assert!(output.contains("HLR-0001"), "output should include the requirement ID");
    assert!(output.contains("Root"), "output should include the title");
    assert!(output.contains("LLR-0001") || output.contains("children"), "output should mention children");
}

#[test]
fn test_trace_tree_llr_output() {
    let graph = populated_graph();
    let output = graph.trace_tree("LLR-0001", 0).expect("trace_tree should return Some for LLR-0001");
    assert!(output.contains("LLR-0001"));
    assert!(output.contains("HLR-0001"), "output should reference the parent");
    assert!(output.contains("src/impl.rs"), "output should show the code ref file");
}

#[test]
fn test_trace_tree_unknown_id_returns_none() {
    let graph = populated_graph();
    let result = graph.trace_tree("HLR-UNKNOWN", 0);
    assert!(result.is_none(), "trace_tree should return None for unknown requirement ID");
}

#[test]
fn test_trace_tree_depth_indentation() {
    let graph = populated_graph();
    let output_depth0 = graph.trace_tree("LLR-0001", 0).unwrap();
    let output_depth2 = graph.trace_tree("LLR-0001", 2).unwrap();
    assert!(output_depth2.starts_with("    "), "depth=2 should add 4 spaces of indentation");
    assert!(!output_depth0.starts_with("  "), "depth=0 should have no leading indentation");
}

// ── coverage ──

fn percent(part: usize, total: usize) -> f64 {
    if total == 0 {
        100.0
    } else {
        part as f64 / total as f64 * 100.0
    }
}

#[test]
fn test_hlr_coverage_with_llr() {
    let hlr = Requirement::new("HLR-0001".to_string(), RequirementType::Hlr, "Top".to_string());
    let mut llr = Requirement::new("LLR-0001".to_string(), RequirementType::Llr, "Sub".to_string());
    llr.parent = Some("HLR-0001".to_string());
    let graph = TraceGraph::new(vec![hlr, llr], vec![], vec![]);
    let cov = graph.calculate_coverage();
    assert_eq!(cov.hlr_total, 1);
    assert_eq!(cov.hlr_with_llr, 1);
    assert!(percent(cov.hlr_with_llr, cov.hlr_total) > 99.0);
}

#[test]
fn test_hlr_coverage_without_llr() {
    let hlr = Requirement::new("HLR-0001".to_string(), RequirementType::Hlr, "Top".to_string());
    let graph = TraceGraph::new(vec![hlr], vec![], vec![]);
    let cov = graph.calculate_coverage();
    assert_eq!(cov.hlr_total, 1);
    assert_eq!(cov.hlr_with_llr, 0);
    assert!(percent(cov.hlr_with_llr, cov.hlr_total) < 1.0);
}

#[test]
fn test_llr_implementation_coverage() {
    let llr = Requirement::new("LLR-0001".to_string(), RequirementType::Llr, "Impl".to_string());
    let graph = TraceGraph::new(vec![llr], vec![code_ref("LLR-0001", "src/lib.rs", 1, None)], vec![]);
    let cov = graph.calculate_coverage();
    assert_eq!(cov.llr_total, 1);
    assert_eq!(cov.llr_implemented, 1);
    assert!(percent(cov.llr_implemented, cov.llr_total) > 99.0);
}

#[test]
fn test_llr_not_implemented_without_code_ref() {
    let llr = Requirement::new("LLR-0001".to_string(), RequirementType::Llr, "Impl".to_string());
    let graph = TraceGraph::new(vec![llr], vec![], vec![]);
    let cov = graph.calculate_coverage();
    assert_eq!(cov.llr_total, 1);
    assert_eq!(cov.llr_implemented, 0);
    assert!(percent(cov.llr_implemented, cov.llr_total) < 1.0);
}

// ── determinism and validation ──

#[test]
fn test_gaps_vectors_are_sorted() {
    let mut reqs = Vec::new();
    for id in ["LLR-0003", "LLR-0001", "LLR-0002"] {
        let mut req = Requirement::new(id.to_string(), RequirementType::Llr, format!("T {id}"));
        req.parent = None;
        reqs.push(req);
    }
    let graph = TraceGraph::new(reqs, vec![], vec![]);
    let gaps = graph.find_gaps();
    let mut sorted = gaps.llr_without_parent.clone();
    sorted.sort();
    assert_eq!(gaps.llr_without_parent, sorted, "gaps.llr_without_parent must be sorted");
    assert_eq!(gaps.llr_without_parent.len(), 3);
}

#[test]
fn test_validate_issues_sorted_by_requirement_id() {
    let mut reqs = Vec::new();
    for id in ["LLR-0003", "LLR-0001", "LLR-0002"] {
        let mut req = Requirement::new(id.to_string(), RequirementType::Llr, format!("T {id}"));
        req.parent = None;
        reqs.push(req);
    }
    let graph = TraceGraph::new(reqs, vec![], vec![]);
    let issues = graph.validate();
    let ids: Vec<&str> = issues.iter().filter_map(|i| i.requirement_id.as_deref()).collect();
    let mut sorted = ids.clone();
    sorted.sort();
    assert_eq!(ids, sorted, "validate issues must be sorted by requirement_id");
}

#[test]
fn validate_clean_project_returns_no_issues() {
    let hlr = Requirement::new("HLR-CI-01".to_string(), RequirementType::Hlr, "CI HLR".to_string());
    let mut llr = Requirement::new("LLR-CI-01".to_string(), RequirementType::Llr, "CI LLR".to_string());
    llr.parent = Some("HLR-CI-01".to_string());
    llr.status = RequirementStatus::Approved;
    let graph = TraceGraph::new(vec![hlr, llr], vec![code_ref("LLR-CI-01", "src/lib.rs", 1, None)], vec![]);
    let issues = graph.validate();
    assert!(issues.is_empty(), "clean project should have no validation issues, got: {:?}", issues);
}

#[test]
fn validate_broken_link_returns_error_issue() {
    let mut llr = Requirement::new("LLR-CI-02".to_string(), RequirementType::Llr, "Broken LLR".to_string());
    llr.parent = Some("HLR-DOES-NOT-EXIST".to_string());
    let graph = TraceGraph::new(vec![llr], vec![], vec![]);
    let issues = graph.validate();
    assert!(!issues.is_empty(), "broken parent link should produce at least one validation issue");
    let has_error = issues.iter().any(|i| i.severity == Severity::Error);
    assert!(has_error, "expected at least one Error-severity issue, got: {:?}", issues);
    let mentions_id = issues.iter().any(|i| i.message.contains("LLR-CI-02"));
    assert!(mentions_id, "expected an issue mentioning 'LLR-CI-02', got: {:?}", issues);
}

#[test]
fn validate_warning_issue_is_not_error_severity() {
    let hlr = Requirement::new("HLR-CI-03".to_string(), RequirementType::Hlr, "Warning HLR".to_string());
    let graph = TraceGraph::new(vec![hlr], vec![], vec![]);
    let issues = graph.validate();
    let has_warning = issues.iter().any(|i| i.severity == Severity::Warning);
    assert!(has_warning, "expected at least one Warning issue, got: {:?}", issues);
    let has_error = issues.iter().any(|i| i.severity == Severity::Error);
    assert!(!has_error, "no Error-severity issues expected for warning-only scenario, got: {:?}", issues);
}

// ── own tests ──

#[test]
fn duplicate_ids_keep_the_last_requirement() {
    let a = Requirement::new("HLR-0001".to_string(), RequirementType::Hlr, "First".to_string());
    let b = Requirement::new("HLR-0001".to_string(), RequirementType::Hlr, "Second".to_string());
    let graph = TraceGraph::new(vec![a, b], vec![], vec![]);
    assert_eq!(graph.requirements().len(), 1);
    assert_eq!(graph.get_requirement("HLR-0001").unwrap().title, "Second");
}

#[test]
fn impact_of_cycle_terminates_and_lists_each_once() {
    let mut a = Requirement::new("LLR-0001".to_string(), RequirementType::Llr, "A".to_string());
    a.parent = Some("LLR-0002".to_string());
    let mut b = Requirement::new("LLR-0002".to_string(), RequirementType::Llr, "B".to_string());
    b.parent = Some("LLR-0001".to_string());
    let graph = TraceGraph::new(vec![a, b], vec![code_ref("LLR-0002", "src/b.rs", 3, None)], vec![]);
    let impact = graph.impact_analysis("LLR-0001");
    assert_eq!(impact.requirement_id, "LLR-0001");
    assert_eq!(
        impact.affected_requirements,
        vec!["LLR-0001".to_string(), "LLR-0002".to_string()]
    );
    assert_eq!(impact.affected_files, vec!["src/b.rs".to_string()]);
}

#[test]
fn impact_lists_tests_of_descendants() {
    let hlr = Requirement::new("HLR-0001".to_string(), RequirementType::Hlr, "H".to_string());
    let mut llr = Requirement::new("LLR-0001".to_string(), RequirementType::Llr, "L".to_string());
    llr.parent = Some("HLR-0001".to_string());
    let link = Link {
        source: "tests/l_test.rs".to_string(),
        target: "LLR-0001".to_string(),
        link_type: LinkType::Verifies,
    };
    let graph = TraceGraph::new(vec![hlr, llr], vec![], vec![link]);
    let impact = graph.impact_analysis("HLR-0001");
    assert_eq!(
        impact.affected_requirements,
        vec!["HLR-0001".to_string(), "LLR-0001".to_string()]
    );
    assert_eq!(impact.affected_tests, vec!["tests/l_test.rs".to_string()]);
    assert!(impact.affected_files.is_empty());
}

#[test]
fn undefined_link_targets_are_gaps_and_errors() {
    let hlr = Requirement::new("HLR-0001".to_string(), RequirementType::Hlr, "H".to_string());
    let link = Link {
        source: "HLR-0001".to_string(),
        target: "LLR-0404".to_string(),
        link_type: LinkType::Implements,
    };
    let graph = TraceGraph::new(vec![hlr], vec![code_ref("LLR-0999", "src/x.rs", 1, None)], vec![link]);
    let gaps = graph.find_gaps();
    assert_eq!(gaps.undefined_ids, vec!["LLR-0404".to_string()]);
    assert_eq!(gaps.code_refs_undefined, vec!["LLR-0999".to_string()]);
    let issues = graph.validate();
    assert!(issues.iter().any(|i| i.severity == Severity::Error));
}

#[test]
fn coverage_counts_verified_llrs() {
    let mut llr = Requirement::new("LLR-0001".to_string(), RequirementType::Llr, "L".to_string());
    llr.parent = Some("HLR-0404".to_string());
    let link = Link {
        source: "tests/a.rs".to_string(),
        target: "LLR-0001".to_string(),
        link_type: LinkType::Verifies,
    };
    let graph = TraceGraph::new(vec![llr], vec![code_ref("LLR-0777", "src/o.rs", 1, None)], vec![link]);
    let cov = graph.calculate_coverage();
    assert_eq!(cov.llr_total, 1);
    assert_eq!(cov.llr_tested, 1);
    assert_eq!(cov.llr_implemented, 0);
    assert_eq!(cov.orphan_code, 0);
}
