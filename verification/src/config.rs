//! Project configuration: the settings a project keeps in
//! `.req/config.toml` and the paths derived from a project root.

use vstd::prelude::*;
use crate::outside::{joined, path_join};

verus! {

/// Named import/export profile.
#[derive(Debug)]
pub struct Profile {
    /// Format adapter to use
    pub format: String,
    /// Optional mapping configuration file
    pub mapping: Option<String>,
    /// Optional source path (for import profiles)
    pub source: Option<String>,
}

/// Main project configuration.
#[derive(Debug)]
pub struct Config {
    /// Project name
    pub project: String,
    /// Source directories to scan
    pub source_dirs: Vec<String>,
    /// Requirements directory
    pub requirements_dir: String,
    /// Adapter profiles for named import/export configurations, by name
    pub profiles: Vec<(String, Profile)>,
    /// Default adapter
    pub default_adapter: String,
}

/// The default source directories: `src` and `tests`.
pub fn default_source_dirs() -> (r: Vec<String>)
    ensures
        r@.len() == 2,
        r@[0]@ == "src"@,
        r@[1]@ == "tests"@,
{
    let mut v: Vec<String> = Vec::new();
    v.push("src".to_owned());
    v.push("tests".to_owned());
    v
}

/// The default requirements directory: `requirements`.
pub fn default_requirements_dir() -> (r: String)
    ensures
        r@ == "requirements"@,
{
    "requirements".to_owned()
}

/// The default adapter: `markdown`.
pub fn default_adapter() -> (r: String)
    ensures
        r@ == "markdown"@,
{
    "markdown".to_owned()
}

impl Default for Config {
    fn default() -> (c: Self)
        ensures
            c.project@.len() == 0,
            c.source_dirs@.len() == 2,
            c.source_dirs@[0]@ == "src"@,
            c.source_dirs@[1]@ == "tests"@,
            c.requirements_dir@ == "requirements"@,
            c.profiles@.len() == 0,
            c.default_adapter@ == "markdown"@,
    {
        Config {
            project: String::new(),
            source_dirs: default_source_dirs(),
            requirements_dir: default_requirements_dir(),
            profiles: Vec::new(),
            default_adapter: default_adapter(),
        }
    }
}

impl Config {
    /// The requirements directory below the project root.
    pub fn requirements_path(&self, base: &str) -> (p: String)
        ensures
            p@ == joined(base@, self.requirements_dir@),
    {
        path_join(base, self.requirements_dir.as_str())
    }

    /// The SQLite cache below the project root: `.req/cache.db`.
    pub fn cache_path(&self, base: &str) -> (p: String)
        ensures
            p@ == joined(joined(base@, ".req"@), "cache.db"@),
    {
        let d = path_join(base, ".req");
        path_join(d.as_str(), "cache.db")
    }

    /// The configuration file of a project root: `.req/config.toml`.
    pub fn config_path(base: &str) -> (p: String)
        ensures
            p@ == joined(joined(base@, ".req"@), "config.toml"@),
    {
        let d = path_join(base, ".req");
        path_join(d.as_str(), "config.toml")
    }
}

/// The text of the `.gitignore` a new project gets in `.req/`.
pub fn cache_gitignore() -> (s: &'static str)
    ensures
        s@ == "# Cache database \u{2014} can be regenerated\n*.db\n"@,
{
    "# Cache database \u{2014} can be regenerated\n*.db\n"
}

} // verus!
