//! Parameters of the engine operations as a tool server receives them,
//! with the defaults of their optional fields.

use vstd::prelude::*;

verus! {

/// Input for a scan.
#[derive(Debug)]
pub struct ScanInput {
    /// Clear the cache before scanning (default: false)
    pub clear: bool,
}

/// Input for a trace or an impact analysis.
#[derive(Debug)]
pub struct IdInput {
    /// Requirement ID to operate on (e.g. `"LLR-0001"`)
    pub id: String,
}

/// Input for listing requirements.
#[derive(Debug)]
pub struct ListInput {
    /// Filter by requirement type: `"hlr"`, `"llr"`, or `"tst"`
    pub req_type: Option<String>,
    /// Filter by status: `"draft"`, `"approved"`, `"deprecated"`, `"rejected"`
    pub status: Option<String>,
}

/// Input for an export.
#[derive(Debug)]
pub struct ExportInput {
    /// Export format: `"json"` (default), `"ai-context"`, or `"markdown"`
    pub format: String,
    /// Export a single requirement by ID (optional). If omitted, all are exported.
    pub id: Option<String>,
}

/// The default export format: `json`.
pub fn default_format() -> (s: String)
    ensures
        s@ == "json"@,
{
    "json".to_owned()
}

/// Input for a line coverage audit.
#[derive(Debug)]
pub struct AuditCoverageInput {
    /// Path to the `cargo llvm-cov --json` report file
    pub report: String,
}

/// Input for creating a requirement.
#[derive(Debug)]
pub struct CreateRequirementInput {
    /// Requirement type: `"hlr"`, `"llr"`, or `"tst"`
    pub req_type: String,
    /// Requirement title
    pub title: String,
    /// Parent requirement ID (required for LLR; optional otherwise)
    pub parent: Option<String>,
    /// Status: `"draft"` (default), `"approved"`, `"deprecated"`, `"rejected"`
    pub status: String,
}

/// The default status of a new requirement: `draft`.
pub fn default_status() -> (s: String)
    ensures
        s@ == "draft"@,
{
    "draft".to_owned()
}

/// Input for removing a requirement.
#[derive(Debug)]
pub struct RemoveInput {
    /// Requirement ID to remove (e.g. `"LLR-0042"`)
    pub id: String,
    /// Purge cache entries only — do not delete the `.md` file
    pub cache_only: bool,
    /// Skip dependency check (remove even if children or code refs exist)
    pub force: bool,
}

/// Input for an import.
#[derive(Debug)]
pub struct ImportInput {
    /// Path to the file to import
    pub input: String,
    /// Import format: `"markdown"` (default) or `"json"`
    pub format: String,
    /// Origin identifier for audit trail (e.g. `"DOORS-project-X"`)
    pub provenance: Option<String>,
}

/// The default import format: `markdown`.
pub fn default_import_format() -> (s: String)
    ensures
        s@ == "markdown"@,
{
    "markdown".to_owned()
}

/// Input for importing AI suggestions.
#[derive(Debug)]
pub struct ImportAiInput {
    /// Path to the AI suggestions JSON file
    pub input: String,
    /// Preview without writing to disk/cache (dry run)
    pub dry_run: bool,
    /// Origin identifier stored as provenance attribute
    pub provenance: Option<String>,
}

/// Input for a migration.
#[derive(Debug)]
pub struct MigrateInput {
    /// Preview changes without writing files
    pub dry_run: bool,
}

/// Input for audits restricted to one LLR or run over all.
#[derive(Debug)]
pub struct OptionalIdInput {
    /// Restrict to a single LLR ID (optional; default: all)
    pub id: Option<String>,
}

/// Input for a mutation audit.
#[derive(Debug)]
pub struct AuditMutationInput {
    /// Path to the `cargo mutants --json` report file
    pub report: String,
}

/// Input for exporting an audit bundle.
#[derive(Debug)]
pub struct AuditExportContextInput {
    /// LLR ID to bundle
    pub id: String,
    /// Path to a `cargo mutants --json` report (optional)
    pub mutation: Option<String>,
    /// Path to a `cargo llvm-cov --json` report (optional)
    pub coverage: Option<String>,
}

} // verus!
