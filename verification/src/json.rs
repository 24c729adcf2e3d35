//! JSON adapter for AI integration and CI pipelines: requirements as a JSON
//! array in `requirements.json` (reading and writing the file is the
//! application's).

use vstd::prelude::*;
use crate::outside::{joined, path_join};

verus! {

/// JSON adapter for reading/writing requirements.
pub struct JsonAdapter;

impl JsonAdapter {
    /// Create a new JsonAdapter.
    pub fn new() -> (a: Self) {
        JsonAdapter
    }

    /// Human-readable name of the adapter (`"json"`).
    pub fn name(&self) -> (s: &'static str)
        ensures
            s@ == "json"@,
    {
        "json"
    }

    /// The file requirements are kept in below a directory.
    pub fn directory_file(dir: &str) -> (p: String)
        ensures
            p@ == joined(dir@, "requirements.json"@),
    {
        path_join(dir, "requirements.json")
    }
}

impl Default for JsonAdapter {
    fn default() -> (a: Self) {
        JsonAdapter
    }
}

} // verus!
