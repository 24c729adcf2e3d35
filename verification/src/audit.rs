//! Audit data types for checking the integrity of AI-generated
//! implementations and tests.

use vstd::prelude::*;
use crate::models::Requirement;

verus! {

/// Schema version for `AuditBundle` JSON output.
pub const AUDIT_SCHEMA_VERSION: &'static str = "2.0.0";

/// Static prompt hint embedded in every `AuditBundle`.
pub const AUDIT_PROMPT_HINT: &'static str = "You are an independent auditor of AI-generated safety-critical code. For each item in `acceptance_criteria`: (1) locate the corresponding test spans via `criterion_coverage`; (2) determine whether the test genuinely exercises the criterion, not merely a tautology or stub; (3) review `implementation_spans` for any `triviality_findings`; (4) flag criteria where `linked` is false (no CRITERION tag present); (5) consider the `mutation_score` and `line_coverage_score` if present; (6) return structured JSON: { \"verdict\": \"pass\" | \"fail\" | \"needs_review\", \"findings\": [ { \"criterion_index\": N, \"issue\": \"...\", \"severity\": \"error\" | \"warning\" | \"info\" } ] }.";

// ───────────────────────── triviality ─────────────────────────

/// Pattern matched by the triviality detector.
#[derive(Clone, Copy, Debug, PartialEq, Eq, Structural)]
pub enum TrivialityPattern {
    /// `assert!(true)`, `assert_eq!(x, x)` — tautological assertion
    TautologicalAssertion,
    /// Sole body is `Ok(())`, `unimplemented!()`, `todo!()`, or `panic!()`
    StubBody,
    /// Tagged span has no non-comment, non-blank lines
    ZeroSubstantiveLines,
    /// Function returns only a bare literal (`true`, `false`, `0`, `""`)
    SingleLiteralReturn,
    /// `#[test]` function with no assertions and no function calls
    EmptyTestBody,
    /// `assert_eq!(f(x), x)` — output mirrors input literally
    ArgumentEchoAssertion,
}

/// Human-readable description of a pattern.
pub open spec fn pattern_description(p: TrivialityPattern) -> Seq<char> {
    match p {
        TrivialityPattern::TautologicalAssertion => "tautological assertion (assert!(true) or equivalent)"@,
        TrivialityPattern::StubBody => "stub body (Ok(()), unimplemented!(), or todo!())"@,
        TrivialityPattern::ZeroSubstantiveLines => "no substantive lines in tagged span"@,
        TrivialityPattern::SingleLiteralReturn => "function returns only a bare literal"@,
        TrivialityPattern::EmptyTestBody => "test function has no assertions or function calls"@,
        TrivialityPattern::ArgumentEchoAssertion => "assert_eq mirrors its input argument"@,
    }
}

impl TrivialityPattern {
    /// Human-readable description of the pattern.
    pub fn description(self) -> (s: &'static str)
        ensures
            s@ == pattern_description(self),
    {
        match self {
            TrivialityPattern::TautologicalAssertion => "tautological assertion (assert!(true) or equivalent)",
            TrivialityPattern::StubBody => "stub body (Ok(()), unimplemented!(), or todo!())",
            TrivialityPattern::ZeroSubstantiveLines => "no substantive lines in tagged span",
            TrivialityPattern::SingleLiteralReturn => "function returns only a bare literal",
            TrivialityPattern::EmptyTestBody => "test function has no assertions or function calls",
            TrivialityPattern::ArgumentEchoAssertion => "assert_eq mirrors its input argument",
        }
    }
}

/// Severity of a triviality finding (ordered `Info < Warning < Error`).
#[derive(Clone, Copy, Debug, PartialEq, Eq, Structural, PartialOrd, Ord)]
pub enum FindingSeverity {
    /// Informational — worth noting but not blocking
    Info,
    /// Warning — likely an issue, should be reviewed
    Warning,
    /// Error — definitely indicates a hollow implementation or test
    Error,
}

/// Display name of a finding severity.
pub open spec fn finding_severity_name(s: FindingSeverity) -> Seq<char> {
    match s {
        FindingSeverity::Info => "info"@,
        FindingSeverity::Warning => "warning"@,
        FindingSeverity::Error => "error"@,
    }
}

impl FindingSeverity {
    /// Display name: `info`, `warning` or `error`.
    pub fn as_str(&self) -> (s: &'static str)
        ensures
            s@ == finding_severity_name(*self),
    {
        match self {
            FindingSeverity::Info => "info",
            FindingSeverity::Warning => "warning",
            FindingSeverity::Error => "error",
        }
    }
}

/// A single triviality finding for one tagged span.
#[derive(Debug)]
pub struct TrivialityFinding {
    /// Requirement ID the tagged span belongs to
    pub req_id: String,
    /// Source file
    pub file: String,
    /// Line number of the tag
    pub line: usize,
    /// Which pattern was matched
    pub pattern: TrivialityPattern,
    /// Severity
    pub severity: FindingSeverity,
    /// The matched source text (the triggering line or excerpt)
    pub matched_text: String,
}

/// Aggregated triviality findings for one LLR.
#[derive(Debug)]
pub struct TrivialityReport {
    /// Requirement ID
    pub req_id: String,
    /// All findings for this requirement
    pub findings: Vec<TrivialityFinding>,
}

// ───────────────────────── mutation testing and line coverage ─────────────────────────

/// Per-LLR mutation counts derived from `cargo mutants --json` output.  The
/// score in percent is `caught / (caught + missed) * 100`, undefined when
/// `caught + missed == 0`.
#[derive(Debug)]
pub struct MutationScore {
    /// Requirement ID
    pub req_id: String,
    /// Total mutants in the tagged span (including Unviable)
    pub mutants_total: usize,
    /// Mutants with outcome `Caught`
    pub caught: usize,
    /// Mutants with outcome `Missed`
    pub missed: usize,
}

/// Overall mutation report summary.
#[derive(Debug)]
pub struct MutationReport {
    /// Per-LLR scores
    pub scores: Vec<MutationScore>,
    /// Mutants that did not overlap any code reference range
    pub untagged_mutants: usize,
}

/// Per-LLR line coverage counts derived from `cargo llvm-cov --json`
/// output.  The percentage is `lines_hit / lines_total * 100`, undefined
/// when `lines_total == 0`.
#[derive(Debug)]
pub struct LineCoverageScore {
    /// Requirement ID
    pub req_id: String,
    /// Source file
    pub file: String,
    /// Total lines in the tagged span
    pub lines_total: usize,
    /// Lines with at least one execution hit
    pub lines_hit: usize,
}

// ───────────────────────── criterion linkage ─────────────────────────

/// Status of a single acceptance criterion item within an LLR.
#[derive(Debug)]
pub struct CriterionStatus {
    /// 1-based index matching the `- [ ]` bullet position in the LLR file
    pub index: usize,
    /// Text of the criterion bullet (without the `- [ ] ` prefix)
    pub text: String,
    /// Whether at least one `CRITERION: <id> #N` tag exists for this index
    pub linked: bool,
    /// Source file containing the linking tag, if any
    pub test_file: Option<String>,
    /// Line of the linking tag, if any
    pub test_line: Option<usize>,
}

/// Per-LLR criterion linkage report.
#[derive(Debug)]
pub struct CriteriaReport {
    /// Requirement ID
    pub req_id: String,
    /// Status of each criterion item
    pub criteria: Vec<CriterionStatus>,
    /// Warnings (e.g., `#N` reference exceeds criterion count)
    pub warnings: Vec<String>,
}

// ───────────────────────── audit bundle ─────────────────────────

/// A source span with its extracted text.
#[derive(Debug)]
pub struct SourceSpan {
    /// Requirement ID the tag belongs to
    pub req_id: String,
    /// Source file path
    pub file: String,
    /// Start line (1-based)
    pub line: usize,
    /// End line (1-based, inclusive), if known
    pub line_end: Option<usize>,
    /// Extracted source text for the span (empty if file could not be read)
    pub source_text: String,
    /// Warning if the file could not be read
    pub read_warning: Option<String>,
}

/// One criterion item as it appears in the bundle.
#[derive(Debug)]
pub struct AuditCriterion {
    /// 1-based index
    pub index: usize,
    /// Full text of the criterion
    pub text: String,
    /// Whether a CRITERION tag exists for this index
    pub linked: bool,
    /// Locations of CRITERION tags for this index
    pub test_locations: Vec<SourceSpan>,
}

/// Full audit context bundle for one LLR — intended as LLM input payload.
#[derive(Debug)]
pub struct AuditBundle {
    /// Schema version — always `AUDIT_SCHEMA_VERSION`
    pub schema_version: String,
    /// Tool version
    pub tool_version: String,
    /// ISO 8601 generation timestamp
    pub generated_at: String,
    /// The LLR under review
    pub llr: Requirement,
    /// The parent HLR, if present
    pub hlr: Option<Requirement>,
    /// Acceptance criteria with linkage status
    pub acceptance_criteria: Vec<AuditCriterion>,
    /// Implementation spans (`REQ:` tagged)
    pub implementation_spans: Vec<SourceSpan>,
    /// Test spans (`VERIFIES:` tagged)
    pub test_spans: Vec<SourceSpan>,
    /// Triviality findings for this LLR
    pub triviality_findings: Vec<TrivialityFinding>,
    /// Mutation score, if a mutants report was supplied
    pub mutation_score: Option<MutationScore>,
    /// Line coverage score, if a coverage report was supplied
    pub line_coverage_score: Option<LineCoverageScore>,
    /// Criterion-level linkage (mirrors `acceptance_criteria[*].linked`)
    pub criterion_coverage: Vec<CriterionStatus>,
    /// Static prompt for the LLM auditor — always `AUDIT_PROMPT_HINT`
    pub prompt_hint: String,
    /// Non-fatal warnings encountered while building the bundle
    pub warnings: Vec<String>,
}

// ───────────────────────── independence ─────────────────────────

/// An independence violation: implementation and test share an author identity.
#[derive(Debug)]
pub struct IndependenceViolation {
    /// Requirement ID
    pub req_id: String,
    /// Identities found in the implementation spans
    pub impl_identities: Vec<String>,
    /// Identities found in the test spans
    pub test_identities: Vec<String>,
    /// The overlapping identities
    pub shared: Vec<String>,
}

/// A non-fatal warning from the independence check.
#[derive(Debug)]
pub struct IndependenceWarning {
    /// Requirement ID (may be empty for file-level warnings)
    pub req_id: String,
    /// Affected file
    pub file: String,
    /// Human-readable reason
    pub reason: String,
}

/// Result of the full independence check.
#[derive(Debug)]
pub struct IndependenceResult {
    /// Actual violations (implementation and test share an identity)
    pub violations: Vec<IndependenceViolation>,
    /// Non-fatal warnings (dirty files, feature disabled, etc.)
    pub warnings: Vec<IndependenceWarning>,
}

} // verus!
