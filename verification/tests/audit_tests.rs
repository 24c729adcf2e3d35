//! Audit heuristics: triviality findings, mutation scores, line coverage.

use req_engine::audit::{FindingSeverity, TrivialityPattern};
use req_engine::audit::{LineCoverageScore, MutationReport};
use req_engine::coverage_map::{line_coverage_scores, CovData, CovFunction, JsonItem};
use req_engine::error::Error;
use req_engine::report_json::{parse_llvm_cov_report, parse_mutants_report, try_parse_mutants_report};
use req_engine::models::CodeRef;
use req_engine::mutation::{mutation_report, MutantRecord};
use req_engine::triviality::{analyse_code_ref, should_skip};

fn make_ref(req_id: &str, file: &str, line: usize, line_end: usize) -> CodeRef {
    CodeRef {
        req_id: req_id.to_string(),
        file: file.to_string(),
        line,
        line_end: Some(line_end),
        hash: None,
        symbol: None,
    }
}

// ── triviality ──

#[test]
fn detects_tautological_assert() {
    let content = "// VERIFIES: LLR-0001\n#[test]\nfn t() { assert!(true); }\n";
    let findings = analyse_code_ref("tests/t.rs", content, 1, Some(3), "LLR-0001");
    assert!(
        findings.iter().any(|f| f.pattern == TrivialityPattern::TautologicalAssertion),
        "expected TautologicalAssertion, got: {findings:?}"
    );
    assert!(findings.iter().any(|f| f.severity == FindingSeverity::Error));
}

#[test]
fn detects_zero_substantive_lines() {
    let content = "// REQ: LLR-0001\n\n// just a comment\n";
    let findings = analyse_code_ref("src/a.rs", content, 1, Some(3), "LLR-0001");
    assert!(
        findings.iter().any(|f| f.pattern == TrivialityPattern::ZeroSubstantiveLines),
        "expected ZeroSubstantiveLines"
    );
}

#[test]
fn legitimate_function_no_findings() {
    let content = "// REQ: LLR-0001\nfn add(a: i32, b: i32) -> i32 {\n    let result = a + b;\n    if result > 100 { return 100; }\n    result\n}\n";
    let findings = analyse_code_ref("src/a.rs", content, 1, Some(6), "LLR-0001");
    assert!(findings.is_empty(), "unexpected findings: {findings:?}");
}

#[test]
fn detects_stub_body() {
    let content = "// REQ: LLR-0001\nfn foo() -> Result<()> {\n    Ok(())\n}\n";
    let findings = analyse_code_ref("src/a.rs", content, 1, Some(4), "LLR-0001");
    assert!(findings.iter().any(|f| f.pattern == TrivialityPattern::StubBody), "expected StubBody");
    assert!(findings.iter().any(|f| f.severity == FindingSeverity::Warning));
}

#[test]
fn skips_examples_directory() {
    let findings = analyse_code_ref("/project/examples/demo.rs", "", 1, Some(3), "LLR-0001");
    assert!(findings.is_empty());
}

#[test]
fn allow_dead_code_downgrades_stub_to_info() {
    let content = "#[allow(dead_code)]\n// REQ: LLR-0001\nfn foo() {\n    Ok(())\n}\n";
    let findings = analyse_code_ref("src/a.rs", content, 2, Some(5), "LLR-0001");
    let stub = findings.iter().find(|f| f.pattern == TrivialityPattern::StubBody);
    if let Some(s) = stub {
        assert_eq!(s.severity, FindingSeverity::Info);
    }
}

#[test]
fn triviality_empty_span_is_zero_substantive() {
    let findings = analyse_code_ref("foo.rs", "\n\n\n", 1, Some(3), "LLR-0001");
    assert!(
        findings.iter().any(|f| f.pattern == TrivialityPattern::ZeroSubstantiveLines),
        "expected ZeroSubstantiveLines"
    );
}

#[test]
fn triviality_assert_true_is_tautological() {
    let findings = analyse_code_ref("foo.rs", "fn t() {\n    assert!(true);\n}\n", 1, Some(3), "LLR-0001");
    let f = findings.iter().find(|f| f.pattern == TrivialityPattern::TautologicalAssertion);
    assert!(f.is_some(), "expected TautologicalAssertion");
    assert_eq!(f.unwrap().severity, FindingSeverity::Error);
}

#[test]
fn triviality_real_impl_no_findings() {
    let content = "fn add(a: i32, b: i32) -> i32 {\n    a + b\n}\n";
    let findings = analyse_code_ref("lib.rs", content, 1, Some(3), "LLR-0001");
    assert!(findings.is_empty(), "expected no findings for real impl");
}

#[test]
fn triviality_skips_build_rs() {
    let findings = analyse_code_ref("/tmp/x/build.rs", "\n\n", 1, Some(2), "LLR-0001");
    assert!(findings.is_empty(), "build.rs should be skipped");
}

// ── own triviality tests ──

#[test]
fn zero_substantive_finding_stands_alone() {
    let content = "// a\n\n// b\n";
    let findings = analyse_code_ref("tests/t.rs", content, 1, Some(3), "LLR-0002");
    assert_eq!(findings.len(), 1);
    assert_eq!(findings[0].pattern, TrivialityPattern::ZeroSubstantiveLines);
    assert_eq!(findings[0].matched_text, "// a");
    assert_eq!(findings[0].req_id, "LLR-0002");
    assert_eq!(findings[0].file, "tests/t.rs");
    assert_eq!(findings[0].line, 1);
}

#[test]
fn empty_test_body_is_reported() {
    let content = "#[test]\nlet x = 1;\n";
    let findings = analyse_code_ref("tests/t.rs", content, 1, Some(2), "TST-0001");
    assert!(findings.iter().any(|f| f.pattern == TrivialityPattern::EmptyTestBody));
}

#[test]
fn single_literal_return_is_reported() {
    let content = "fn flag() -> bool {\n    true\n}\n";
    let findings = analyse_code_ref("src/f.rs", content, 1, Some(3), "LLR-0003");
    let lit = findings.iter().find(|f| f.pattern == TrivialityPattern::SingleLiteralReturn);
    assert!(lit.is_some(), "expected SingleLiteralReturn, got {findings:?}");
    assert_eq!(lit.unwrap().severity, FindingSeverity::Warning);
    assert_eq!(lit.unwrap().matched_text, "true");
}

#[test]
fn tautology_finding_is_at_its_own_line() {
    let content = "fn t() {\n    let a = 1;\n    assert_eq!(a, a);\n}\n";
    let findings = analyse_code_ref("src/t.rs", content, 1, Some(4), "LLR-0004");
    let f = findings.iter().find(|f| f.pattern == TrivialityPattern::TautologicalAssertion).unwrap();
    assert_eq!(f.line, 3);
}

#[test]
fn span_past_end_of_file_has_no_findings() {
    let findings = analyse_code_ref("src/a.rs", "fn a() {}\n", 10, None, "LLR-0001");
    assert!(findings.is_empty());
}

#[test]
fn skip_rules_match_paths() {
    assert!(should_skip("crate/build.rs"));
    assert!(should_skip("crate/benches/b.rs"));
    assert!(should_skip("crate\\examples\\e.rs"));
    assert!(!should_skip("crate/src/lib.rs"));
}

#[test]
fn pattern_descriptions_and_severity_names() {
    assert_eq!(FindingSeverity::Error.as_str(), "error");
    assert!(!TrivialityPattern::StubBody.description().is_empty());
}

// ── mutation ──

fn mutant(file: &str, line: usize, outcome: &str) -> MutantRecord {
    MutantRecord { file: file.to_string(), line, outcome: outcome.to_string() }
}

fn mutants(json: &str, refs: &[CodeRef]) -> Result<MutationReport, Error> {
    parse_mutants_report(json, refs)
}

#[test]
fn parses_valid_json_and_counts() {
    let json = r#"[
            {"file":"src/foo.rs","line":10,"kind":"Replace","outcome":"Caught"},
            {"file":"src/foo.rs","line":11,"kind":"Replace","outcome":"Missed"}
        ]"#;
    let refs = vec![make_ref("LLR-0001", "src/foo.rs", 8, 15)];
    let report = mutants(json, &refs).unwrap();
    let score = report.scores.iter().find(|s| s.req_id == "LLR-0001").unwrap();
    assert_eq!(score.caught, 1);
    assert_eq!(score.missed, 1);
    assert_eq!(score.mutants_total, 2);
    let pct = score.caught as f64 / (score.caught + score.missed) as f64 * 100.0;
    assert!((pct - 50.0).abs() < 0.01);
}

#[test]
fn unmatched_mutant_goes_to_untagged() {
    let json = r#"[{"file":"src/other.rs","line":100,"outcome":"Caught"}]"#;
    let refs = vec![make_ref("LLR-0001", "src/foo.rs", 1, 10)];
    let report = mutants(json, &refs).unwrap();
    assert_eq!(report.untagged_mutants, 1);
    assert!(report.scores.is_empty());
}

#[test]
fn unviable_counts_in_total_not_caught_or_missed() {
    let json = r#"[{"file":"src/foo.rs","line":5,"outcome":"Unviable"}]"#;
    let refs = vec![make_ref("LLR-0001", "src/foo.rs", 1, 10)];
    let report = mutants(json, &refs).unwrap();
    let score = report.scores.iter().find(|s| s.req_id == "LLR-0001").unwrap();
    assert_eq!(score.mutants_total, 1);
    assert_eq!(score.caught, 0);
    assert_eq!(score.missed, 0);
    assert!(score.caught + score.missed == 0);
}

#[test]
fn mutation_malformed_json_returns_parse_error() {
    let result = mutants("{ not valid json }", &[]);
    assert!(result.is_err());
    match result {
        Err(Error::Parse(m)) => assert!(m.starts_with("cargo mutants JSON parse error: ")),
        _ => panic!("expected a parse error"),
    }
}

#[test]
fn mutation_parses_valid_json() {
    let json = r#"[
        {"file":"src/foo.rs","line":10,"kind":"Replace","outcome":"Caught"},
        {"file":"src/foo.rs","line":11,"kind":"Replace","outcome":"Missed"}
    ]"#;
    let refs = vec![make_ref("LLR-0001", "src/foo.rs", 8, 15)];
    let report = mutants(json, &refs).unwrap();
    let score = report.scores.iter().find(|s| s.req_id == "LLR-0001").unwrap();
    assert_eq!(score.caught, 1);
    assert_eq!(score.missed, 1);
    let pct = score.caught as f64 / (score.caught + score.missed) as f64 * 100.0;
    assert!((pct - 50.0).abs() < 0.01);
}

#[test]
fn mutation_unmatched_goes_to_untagged() {
    let json = r#"[{"file":"src/other.rs","line":100,"outcome":"Caught"}]"#;
    let refs = vec![make_ref("LLR-0001", "src/foo.rs", 1, 10)];
    let report = mutants(json, &refs).unwrap();
    assert_eq!(report.untagged_mutants, 1);
    assert!(report.scores.is_empty());
}

#[test]
fn mutation_malformed_json_returns_err() {
    let result = mutants("{not valid json}", &[]);
    assert!(result.is_err());
}

#[test]
fn mutants_report_must_be_an_array() {
    let result = mutants(r#"{"file":"src/foo.rs"}"#, &[]);
    assert!(matches!(result, Err(Error::Parse(_))));
}

#[test]
fn mutant_fields_default_when_missing() {
    let json = r#"[{"line":"three"}, {"file":"src/foo.rs","line":3}]"#;
    let refs = vec![make_ref("LLR-0001", "src/foo.rs", 1, 10)];
    let report = mutants(json, &refs).unwrap();
    assert_eq!(report.untagged_mutants, 1);
    let score = report.scores.iter().find(|s| s.req_id == "LLR-0001").unwrap();
    assert_eq!((score.mutants_total, score.caught, score.missed), (1, 0, 0));
}

#[test]
fn try_parse_mutants_report_gives_the_report() {
    let json = r#"[{"file":"src/foo.rs","line":5,"outcome":"Caught"}]"#;
    let refs = vec![make_ref("LLR-0001", "src/foo.rs", 1, 10)];
    let report = try_parse_mutants_report(json, &refs).unwrap().unwrap();
    assert_eq!(report.scores[0].caught, 1);
}

#[test]
fn mutant_counts_for_each_holding_span_and_backslashes_match() {
    let recs = vec![mutant("src\\foo.rs", 5, "Missed"), mutant("src/foo.rs", 10, "Caught")];
    let refs = vec![make_ref("LLR-0001", "src/foo.rs", 1, 10), make_ref("LLR-0002", "src/foo.rs", 4, 12)];
    let report = mutation_report(&recs, &refs);
    assert_eq!(report.untagged_mutants, 0);
    let a = report.scores.iter().find(|s| s.req_id == "LLR-0001").unwrap();
    assert_eq!((a.mutants_total, a.caught, a.missed), (1, 0, 1));
    let b = report.scores.iter().find(|s| s.req_id == "LLR-0002").unwrap();
    assert_eq!((b.mutants_total, b.caught, b.missed), (2, 1, 1));
}

// ── coverage ──

fn coverage(json: &str, refs: &[CodeRef]) -> Result<Vec<LineCoverageScore>, Error> {
    parse_llvm_cov_report(json, refs)
}

#[test]
fn parses_valid_llvm_json_and_scores() {
    let json = r#"{
            "data": [{
                "files": [{
                    "filename": "src/foo.rs",
                    "segments": [
                        [1, 0, 1, true, true],
                        [4, 0, 0, true, true],
                        [6, 0, 0, true, false]
                    ]
                }]
            }]
        }"#;
    let refs = vec![make_ref("LLR-0001", "src/foo.rs", 1, 6)];
    let scores = coverage(json, &refs).unwrap();
    let score = scores.iter().find(|s| s.req_id == "LLR-0001").unwrap();
    assert_eq!(score.lines_total, 5);
    assert_eq!(score.lines_hit, 3);
    let pct = score.lines_hit as f64 / score.lines_total as f64 * 100.0;
    assert!((pct - 60.0).abs() < 0.01);
}

#[test]
fn line_with_zero_count_is_missed() {
    let json = r#"{
            "data": [{
                "files": [{
                    "filename": "src/foo.rs",
                    "segments": [[1, 0, 0, true, true]]
                }]
            }]
        }"#;
    let refs = vec![make_ref("LLR-0001", "src/foo.rs", 1, 2)];
    let scores = coverage(json, &refs).unwrap();
    let score = scores.iter().find(|s| s.req_id == "LLR-0001").unwrap();
    assert_eq!(score.lines_hit, 0);
}

#[test]
fn lines_outside_refs_are_ignored() {
    let json = r#"{"data": [{"files": [{"filename": "src/foo.rs", "segments": [[50,0,5,true,true]]}]}]}"#;
    let refs = vec![make_ref("LLR-0001", "src/foo.rs", 1, 5)];
    let scores = coverage(json, &refs).unwrap();
    if let Some(score) = scores.iter().find(|s| s.req_id == "LLR-0001") {
        assert_eq!(score.lines_hit, 0);
    }
}

#[test]
fn coverage_map_malformed_json_returns_parse_error() {
    let result = coverage("not json at all", &[]);
    assert!(result.is_err());
    match result {
        Err(Error::Parse(m)) => assert!(m.starts_with("cargo llvm-cov JSON parse error: ")),
        _ => panic!("expected a parse error"),
    }
}

#[test]
fn coverage_report_without_data_entry_is_an_error() {
    let result = coverage(r#"{"data": []}"#, &[]);
    match result {
        Err(Error::Parse(m)) => assert_eq!(m, "llvm-cov JSON: missing data[0]"),
        _ => panic!("expected the missing data error"),
    }
}

#[test]
fn path_separators_normalised() {
    let json = r#"{
            "data": [{"files": [{"filename": "src\\foo.rs", "segments": [[1,0,5,true,true]]}]}]
        }"#;
    let refs = vec![make_ref("LLR-0001", "src/foo.rs", 1, 2)];
    let scores = coverage(json, &refs).unwrap();
    assert!(!scores.is_empty(), "expected match after path normalisation");
}

#[test]
fn coverage_parses_valid_json() {
    let json = r#"{
        "data": [{"files": [{"filename": "src/foo.rs", "segments": [
            [1, 0, 1, true, true],
            [4, 0, 0, true, true],
            [6, 0, 0, true, false]
        ]}]}]
    }"#;
    let refs = vec![make_ref("LLR-0001", "src/foo.rs", 1, 6)];
    let scores = coverage(json, &refs).unwrap();
    let score = scores.iter().find(|s| s.req_id == "LLR-0001").unwrap();
    assert_eq!(score.lines_total, 5);
    assert_eq!(score.lines_hit, 3);
    let pct = score.lines_hit as f64 / score.lines_total as f64 * 100.0;
    assert!((pct - 60.0).abs() < 0.01);
}

#[test]
fn coverage_path_normalisation() {
    let json = r#"{"data":[{"files":[{"filename":"src\\foo.rs","segments":[[1,0,5,true,true]]}]}]}"#;
    let refs = vec![make_ref("LLR-0001", "src/foo.rs", 1, 2)];
    let scores = coverage(json, &refs).unwrap();
    assert!(!scores.is_empty(), "should match after path normalisation");
}

#[test]
fn coverage_malformed_json_returns_err() {
    let result = coverage("not json", &[]);
    assert!(result.is_err());
}

#[test]
fn symbol_fallback_reports_covered_when_function_called() {
    let json = r#"{
            "data": [{
                "files": [],
                "functions": [{
                    "name": "_RNv...9scan_file...",
                    "filenames": ["src/scanner.rs"],
                    "count": 6,
                    "regions": []
                }]
            }]
        }"#;
    let mut refs = vec![make_ref("LLR-0001", "src/scanner.rs", 1, 2)];
    refs[0].symbol = Some("scan_file".to_string());
    let scores = coverage(json, &refs).unwrap();
    let score = scores.iter().find(|s| s.req_id == "LLR-0001").expect("expected score");
    assert!(score.lines_hit > 0, "symbol fallback should report covered; got {score:?}");
}

#[test]
fn symbol_fallback_respects_uncalled_function() {
    let json = r#"{
            "data": [{
                "files": [],
                "functions": [{
                    "name": "_RNv...12never_called...",
                    "filenames": ["src/foo.rs"],
                    "count": 0,
                    "regions": []
                }]
            }]
        }"#;
    let mut refs = vec![make_ref("LLR-0001", "src/foo.rs", 1, 2)];
    refs[0].symbol = Some("never_called".to_string());
    let scores = coverage(json, &refs).unwrap();
    if let Some(score) = scores.iter().find(|s| s.req_id == "LLR-0001") {
        assert_eq!(score.lines_hit, 0, "uncalled function should have 0 hits; got {score:?}");
    }
}

#[test]
fn data_entry_may_be_an_object_member() {
    let json = r#"{"data": {"0": {"files": [{"filename": "src/foo.rs", "segments": [[1,0,2,true,true]]}]}}}"#;
    let refs = vec![make_ref("LLR-0001", "src/foo.rs", 1, 2)];
    let scores = coverage(json, &refs).unwrap();
    assert_eq!(scores.len(), 1);
    assert_eq!(scores[0].lines_hit, 1);
}

#[test]
fn region_data_gives_max_count_per_line() {
    let region = Some(vec![
        JsonItem::Unsigned(2),
        JsonItem::Unsigned(1),
        JsonItem::Unsigned(3),
        JsonItem::Unsigned(1),
        JsonItem::Unsigned(4),
        JsonItem::Unsigned(0),
        JsonItem::Unsigned(0),
        JsonItem::Unsigned(0),
    ]);
    let data = CovData {
        files: None,
        functions: Some(vec![CovFunction {
            name: Some("f".to_string()),
            count: Some(4),
            filenames: Some(vec![Some("src/r.rs".to_string())]),
            regions: Some(vec![region]),
        }]),
    };
    let refs = vec![make_ref("LLR-0005", "src/r.rs", 1, 5)];
    let scores = line_coverage_scores(&data, &refs);
    assert_eq!(scores.len(), 1);
    assert_eq!(scores[0].lines_total, 4);
    assert_eq!(scores[0].lines_hit, 2);
}

#[test]
fn separators_in_report_names_do_not_change_scores() {
    let a = r#"{"data":[{"files":[{"filename":"src\\foo.rs","segments":[[1,0,5,true,true],[3,0,0,true,true]]}]}]}"#;
    let b = r#"{"data":[{"files":[{"filename":"src/foo.rs","segments":[[1,0,5,true,true],[3,0,0,true,true]]}]}]}"#;
    let refs = vec![make_ref("LLR-0001", "src/foo.rs", 1, 5)];
    let sa = coverage(a, &refs).unwrap();
    let sb = coverage(b, &refs).unwrap();
    assert_eq!(sa.len(), 1);
    assert_eq!((sa[0].lines_total, sa[0].lines_hit), (sb[0].lines_total, sb[0].lines_hit));
    assert_eq!((sa[0].lines_total, sa[0].lines_hit), (4, 2));
}
