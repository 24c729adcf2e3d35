//! Provenance of requirement files: whether a file was written by the tool
//! (it records `tool_version:` and its hash matches the cache) or appears
//! edited by hand.

use vstd::prelude::*;
use crate::error::Error;
use crate::models::{split_dash, split_dash_chars, TOOL_VERSION};
use crate::outside::{blake3_hex, blake3_hex_of, joined, path_join};
use crate::text::{chars_eq_str, chars_of, contains, contains_str, push_str, string_of};

verus! {

/// Status of a requirement's provenance.
#[derive(Debug)]
pub struct ProvenanceStatus {
    pub file_exists: bool,
    pub is_locked: bool,
    pub hash_matches: bool,
    pub has_tool_version: bool,
    pub current_hash: Option<String>,
}

/// A detected provenance violation.
#[derive(Debug)]
pub struct ProvenanceViolation {
    pub req_id: String,
    pub reason: String,
}

impl ProvenanceStatus {
    /// The status of a requirement whose file does not exist.
    pub fn missing() -> (s: Self)
        ensures
            !s.file_exists,
            !s.is_locked,
            s.hash_matches,
            !s.has_tool_version,
            s.current_hash is None,
    {
        ProvenanceStatus {
            file_exists: false,
            is_locked: false,
            hash_matches: true,
            has_tool_version: false,
            current_hash: None,
        }
    }

    /// The status of an existing requirement file with this content: its
    /// BLAKE3 hash, whether that matches the cached hash (when there is
    /// one), and whether it records `tool_version:`.
    pub fn of_file(content: &str, locked: bool, cache_hash: Option<&str>) -> (s: Self)
        ensures
            s.file_exists,
            s.is_locked == locked,
            s.current_hash matches Some(h) && h@ == blake3_hex_of(vstd::utf8::encode_utf8(content@)),
            s.hash_matches == match cache_hash {
                Some(c) => blake3_hex_of(vstd::utf8::encode_utf8(content@)) == c@,
                None => true,
            },
            s.has_tool_version == contains(content@, "tool_version:"@),
    {
        let h = blake3_hex(content.as_bytes());
        let hash_matches = match cache_hash {
            Some(c) => {
                let hc = chars_of(h.as_str());
                chars_eq_str(hc.as_slice(), c)
            },
            None => true,
        };
        let cc = chars_of(content);
        let has_tool_version = contains_str(cc.as_slice(), "tool_version:");
        ProvenanceStatus {
            file_exists: true,
            is_locked: locked,
            hash_matches,
            has_tool_version,
            current_hash: Some(h),
        }
    }

    /// True if the requirement appears to have been created by the tool.
    pub fn is_tool_created(&self) -> (b: bool)
        ensures
            b == (self.has_tool_version && self.hash_matches),
    {
        self.has_tool_version && self.hash_matches
    }

    /// True if there is evidence of manual editing outside the tool.
    pub fn appears_manually_edited(&self) -> (b: bool)
        ensures
            b == (self.file_exists && (!self.hash_matches || !self.has_tool_version)),
    {
        self.file_exists && (!self.hash_matches || !self.has_tool_version)
    }
}

/// The violation a status shows, if the file appears edited by hand: a
/// missing `tool_version`, else a possible manual edit.
pub fn violation_of(req_id: &str, status: &ProvenanceStatus) -> (r: Option<ProvenanceViolation>)
    ensures
        match r {
            Some(v) => status.file_exists && (!status.hash_matches || !status.has_tool_version)
                && v.req_id@ == req_id@ && v.reason@ == if !status.has_tool_version {
                "Missing tool_version attribute"@
            } else {
                "File may have been manually edited"@
            },
            None => !(status.file_exists && (!status.hash_matches || !status.has_tool_version)),
        },
{
    if status.appears_manually_edited() {
        let reason = if !status.has_tool_version {
            "Missing tool_version attribute".to_owned()
        } else {
            "File may have been manually edited".to_owned()
        };
        Some(ProvenanceViolation { req_id: req_id.to_owned(), reason })
    } else {
        None
    }
}

/// The directory of a requirement type's files, by id prefix.
pub open spec fn type_dir(prefix: Seq<char>) -> Option<Seq<char>> {
    if prefix == "HLR"@ {
        Some("hlr"@)
    } else if prefix == "LLR"@ {
        Some("llr"@)
    } else if prefix == "TST"@ {
        Some("tst"@)
    } else {
        None
    }
}

/// The file of requirement `req_id` below `base`:
/// `requirements/<type dir>/<id>.md`, the type dir chosen by the id's part
/// before the first `-`.
pub fn find_requirement_file(base: &str, req_id: &str) -> (r: Result<String, Error>)
    ensures
        match type_dir(split_dash(req_id@)[0]) {
            Some(d) => r matches Ok(p) && p@ == joined(
                joined(joined(base@, "requirements"@), d),
                req_id@ + ".md"@,
            ),
            None => r matches Err(Error::RequirementNotFound(m)) && m@ == req_id@,
        },
{
    let c = chars_of(req_id);
    let parts = split_dash_chars(c.as_slice());
    assert(split_dash(req_id@).len() >= 1);
    assert(parts.deep_view().len() == parts@.len());
    assert(parts.deep_view()[0] == parts@[0]@);
    assert(parts@[0]@ == split_dash(req_id@)[0]);
    let p = parts[0].as_slice();
    let sub = if chars_eq_str(p, "HLR") {
        "hlr"
    } else if chars_eq_str(p, "LLR") {
        "llr"
    } else if chars_eq_str(p, "TST") {
        "tst"
    } else {
        return Err(Error::RequirementNotFound(req_id.to_owned()));
    };
    let a = path_join(base, "requirements");
    let b = path_join(a.as_str(), sub);
    let mut f = chars_of(req_id);
    push_str(&mut f, ".md");
    let fname = string_of(f.as_slice());
    Ok(path_join(b.as_str(), fname.as_str()))
}

/// The text of the lock marker written when requirements are locked.
pub fn lock_marker(now: &str) -> (s: String)
    ensures
        s@ == "Locked at: "@ + now@ + "\nTool version: "@ + TOOL_VERSION@ + "\n"@,
{
    let mut w: Vec<char> = Vec::new();
    push_str(&mut w, "Locked at: ");
    push_str(&mut w, now);
    push_str(&mut w, "\nTool version: ");
    push_str(&mut w, TOOL_VERSION);
    push_str(&mut w, "\n");
    string_of(w.as_slice())
}

} // verus!
