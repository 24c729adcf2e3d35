//! Error types for the requirement engine.

use vstd::prelude::*;

use crate::text::{chars_of, chars_of_string, push_chars, push_str, string_of};

verus! {

/// All errors that can occur in the engine.  Errors raised by I/O, the
/// database or a data-format parser carry that failure's message.
#[derive(Debug)]
pub enum Error {
    /// I/O failure
    Io(String),
    /// Database failure
    Database(String),
    /// YAML parsing failure
    Yaml(String),
    /// JSON failure
    Json(String),
    /// TOML parsing failure
    Toml(String),
    /// Requirement not found
    RequirementNotFound(String),
    /// Duplicate requirement ID
    DuplicateId(String),
    /// Invalid requirement ID format
    InvalidIdFormat(String),
    /// Invalid requirement type
    InvalidRequirementType(String),
    /// Parent requirement not found
    ParentNotFound(String),
    /// Project not initialized
    NotInitialized,
    /// Configuration error
    Config(String),
    /// Parse error
    Parse(String),
    /// No requirements directory found
    NoRequirementsDir,
    /// No source code found
    NoSourceCode,
    /// The cache database is locked by another process
    DatabaseLocked,
}

/// Human-readable message of an error.
pub open spec fn error_message(e: Error) -> Seq<char> {
    match e {
        Error::Io(m) => "IO error: "@ + m@,
        Error::Database(m) => "Database error: "@ + m@,
        Error::Yaml(m) => "YAML parsing error: "@ + m@,
        Error::Json(m) => "JSON error: "@ + m@,
        Error::Toml(m) => "TOML parsing error: "@ + m@,
        Error::RequirementNotFound(m) => "Requirement not found: "@ + m@,
        Error::DuplicateId(m) => "Duplicate requirement ID: "@ + m@,
        Error::InvalidIdFormat(m) => "Invalid requirement ID format: "@ + m@,
        Error::InvalidRequirementType(m) => "Invalid requirement type: "@ + m@,
        Error::ParentNotFound(m) => "Parent requirement not found: "@ + m@,
        Error::NotInitialized => "Project not initialized. Run 'req init' first."@,
        Error::Config(m) => "Configuration error: "@ + m@,
        Error::Parse(m) => "Parse error: "@ + m@,
        Error::NoRequirementsDir => "No requirements directory found"@,
        Error::NoSourceCode => "No source code found"@,
        Error::DatabaseLocked =>
            "cache.db is locked (likely held by the MCP server).\nStop the MCP server or use --wait <seconds> to retry."@,
    }
}

fn prefixed(prefix: &str, m: &String) -> (r: String)
    ensures
        r@ == prefix@ + m@,
{
    let mut v = chars_of(prefix);
    let mc = chars_of_string(m);
    push_chars(&mut v, mc.as_slice());
    string_of(v.as_slice())
}

impl Error {
    /// The error's message (its `Display` text).
    pub fn message(&self) -> (r: String)
        ensures
            r@ == error_message(*self),
    {
        match self {
            Error::Io(m) => prefixed("IO error: ", m),
            Error::Database(m) => prefixed("Database error: ", m),
            Error::Yaml(m) => prefixed("YAML parsing error: ", m),
            Error::Json(m) => prefixed("JSON error: ", m),
            Error::Toml(m) => prefixed("TOML parsing error: ", m),
            Error::RequirementNotFound(m) => prefixed("Requirement not found: ", m),
            Error::DuplicateId(m) => prefixed("Duplicate requirement ID: ", m),
            Error::InvalidIdFormat(m) => prefixed("Invalid requirement ID format: ", m),
            Error::InvalidRequirementType(m) => prefixed("Invalid requirement type: ", m),
            Error::ParentNotFound(m) => prefixed("Parent requirement not found: ", m),
            Error::NotInitialized => String::from_str("Project not initialized. Run 'req init' first."),
            Error::Config(m) => prefixed("Configuration error: ", m),
            Error::Parse(m) => prefixed("Parse error: ", m),
            Error::NoRequirementsDir => String::from_str("No requirements directory found"),
            Error::NoSourceCode => String::from_str("No source code found"),
            Error::DatabaseLocked => String::from_str(
                "cache.db is locked (likely held by the MCP server).\nStop the MCP server or use --wait <seconds> to retry.",
            ),
        }
    }
}

/// Text of `a` followed by text of `b`.
pub fn concat_strs(a: &str, b: &str) -> (r: String)
    ensures
        r@ == a@ + b@,
{
    let mut v = chars_of(a);
    push_str(&mut v, b);
    string_of(v.as_slice())
}

} // verus!
