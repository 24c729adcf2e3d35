//! ReqIF adapter: the attribute mapping, status and type mapping, and file
//! recognition.  Reading and writing ReqIF files needs an external Python
//! library that this build does not include; both report so.

use vstd::prelude::*;
use crate::error::Error;
use crate::models::{parse_status, Attributes, Requirement, RequirementStatus, RequirementType};
use crate::outside::{extension_of, lower_case, path_extension, to_lowercase, to_uppercase, upper_case};
use crate::text::{chars_eq_str, chars_of_string, contains, contains_chars, contains_str};

verus! {

/// ReqIF attribute mapping configuration.
#[derive(Debug)]
pub struct ReqIfMapping {
    /// Attribute name for requirement ID
    pub id_attribute: String,
    /// Attribute name for requirement text
    pub text_attribute: String,
    /// Attribute name for requirement title
    pub title_attribute: Option<String>,
    /// Attribute name for status
    pub status_attribute: Option<String>,
    /// Attribute name for parent reference
    pub parent_attribute: Option<String>,
    /// Mapping from ReqIF status values to internal status names
    pub status_mapping: Attributes,
    /// Type name for HLR requirements
    pub hlr_type: Option<String>,
    /// Type name for LLR requirements
    pub llr_type: Option<String>,
    /// Type name for Test requirements
    pub tst_type: Option<String>,
}

/// The status mapping of the default mapping: each status name to itself.
pub open spec fn default_status_mapping() -> Map<Seq<char>, Seq<char>> {
    Map::<Seq<char>, Seq<char>>::empty().insert("approved"@, "approved"@).insert(
        "draft"@,
        "draft"@,
    ).insert("deprecated"@, "deprecated"@).insert("rejected"@, "rejected"@)
}

impl Default for ReqIfMapping {
    fn default() -> (m: Self)
        ensures
            m.id_attribute@ == "ReqIF.ForeignID"@,
            m.text_attribute@ == "ReqIF.Content"@,
            m.title_attribute matches Some(t) && t@ == "ReqIF.Name"@,
            m.status_attribute matches Some(t) && t@ == "ReqIF.Status"@,
            m.parent_attribute is None,
            m.status_mapping.map() == default_status_mapping(),
            m.hlr_type matches Some(t) && t@ == "HLR"@,
            m.llr_type matches Some(t) && t@ == "LLR"@,
            m.tst_type matches Some(t) && t@ == "TST"@,
    {
        let mut status_mapping = Attributes::new();
        status_mapping.insert("approved".to_owned(), "approved".to_owned());
        status_mapping.insert("draft".to_owned(), "draft".to_owned());
        status_mapping.insert("deprecated".to_owned(), "deprecated".to_owned());
        status_mapping.insert("rejected".to_owned(), "rejected".to_owned());
        ReqIfMapping {
            id_attribute: "ReqIF.ForeignID".to_owned(),
            text_attribute: "ReqIF.Content".to_owned(),
            title_attribute: Some("ReqIF.Name".to_owned()),
            status_attribute: Some("ReqIF.Status".to_owned()),
            parent_attribute: None,
            status_mapping,
            hlr_type: Some("HLR".to_owned()),
            llr_type: Some("LLR".to_owned()),
            tst_type: Some("TST".to_owned()),
        }
    }
}

/// ReqIF adapter for importing and exporting requirements.
pub struct ReqIfAdapter {
    pub mapping: ReqIfMapping,
}

/// The status a ReqIF status string maps to: the mapping's entry for the
/// lower-cased string when there is one (its status, or draft), else the
/// string's own status, else draft.
pub open spec fn mapped_status(m: Map<Seq<char>, Seq<char>>, status: Seq<char>) -> RequirementStatus {
    let lower = lower_case(status);
    let named = if m.dom().contains(lower) {
        parse_status(m[lower])
    } else {
        parse_status(status)
    };
    match named {
        Some(s) => s,
        None => RequirementStatus::Draft,
    }
}

/// Whether the upper-cased spec type contains the upper-cased type name.
pub open spec fn names_type(upper: Seq<char>, name: Option<String>) -> bool {
    match name {
        Some(t) => contains(upper, upper_case(t@)),
        None => false,
    }
}

/// The type a ReqIF spec-type string maps to: the first configured type
/// name (HLR, LLR, TST) contained in it, compared upper-cased; else HLR
/// if it contains `HLR` or `HIGH`, TST if it contains `TST` or `TEST`,
/// otherwise LLR.
pub open spec fn mapped_type(m: ReqIfMapping, spec_type: Seq<char>) -> RequirementType {
    let upper = upper_case(spec_type);
    if names_type(upper, m.hlr_type) {
        RequirementType::Hlr
    } else if names_type(upper, m.llr_type) {
        RequirementType::Llr
    } else if names_type(upper, m.tst_type) {
        RequirementType::Tst
    } else if contains(upper, "HLR"@) || contains(upper, "HIGH"@) {
        RequirementType::Hlr
    } else if contains(upper, "TST"@) || contains(upper, "TEST"@) {
        RequirementType::Tst
    } else {
        RequirementType::Llr
    }
}

/// The message for ReqIF operations in this build.
pub open spec fn reqif_disabled_message() -> Seq<char> {
    "ReqIF support not enabled. Recompile with --features reqif"@
}

fn names_type_exec(upper: &[char], name: &Option<String>) -> (b: bool)
    ensures
        b == names_type(upper@, *name),
{
    match name {
        Some(t) => {
            let tu = to_uppercase(t.as_str());
            let tc = chars_of_string(&tu);
            contains_chars(upper, tc.as_slice())
        },
        None => false,
    }
}

impl ReqIfAdapter {
    /// Create with the default mapping.
    pub fn new() -> (a: Self)
        ensures
            a.mapping.id_attribute@ == "ReqIF.ForeignID"@,
            a.mapping.status_mapping.map() == default_status_mapping(),
            a.mapping.hlr_type matches Some(t) && t@ == "HLR"@,
            a.mapping.llr_type matches Some(t) && t@ == "LLR"@,
            a.mapping.tst_type matches Some(t) && t@ == "TST"@,
    {
        ReqIfAdapter { mapping: ReqIfMapping::default() }
    }

    /// Create with a custom mapping.
    pub fn with_mapping(mapping: ReqIfMapping) -> (a: Self)
        ensures
            a.mapping == mapping,
    {
        ReqIfAdapter { mapping }
    }

    /// Human-readable name of the adapter (`"reqif"`).
    pub fn name(&self) -> (s: &'static str)
        ensures
            s@ == "reqif"@,
    {
        "reqif"
    }

    /// Map a ReqIF status string to an internal `RequirementStatus`.
    pub fn map_status(&self, status: &str) -> (s: RequirementStatus)
        ensures
            s == mapped_status(self.mapping.status_mapping.map(), status@),
    {
        let lower = to_lowercase(status);
        let named = match self.mapping.status_mapping.get(lower.as_str()) {
            Some(mapped) => RequirementStatus::from_str(mapped.as_str()),
            None => RequirementStatus::from_str(status),
        };
        match named {
            Some(s) => s,
            None => RequirementStatus::Draft,
        }
    }

    /// Map a ReqIF spec-type string to an internal `RequirementType`.
    pub fn map_type(&self, spec_type: &str) -> (t: RequirementType)
        ensures
            t == mapped_type(self.mapping, spec_type@),
    {
        let upper = to_uppercase(spec_type);
        let uc = chars_of_string(&upper);
        let u = uc.as_slice();
        if names_type_exec(u, &self.mapping.hlr_type) {
            RequirementType::Hlr
        } else if names_type_exec(u, &self.mapping.llr_type) {
            RequirementType::Llr
        } else if names_type_exec(u, &self.mapping.tst_type) {
            RequirementType::Tst
        } else if contains_str(u, "HLR") || contains_str(u, "HIGH") {
            RequirementType::Hlr
        } else if contains_str(u, "TST") || contains_str(u, "TEST") {
            RequirementType::Tst
        } else {
            RequirementType::Llr
        }
    }

    /// Whether the path has a `.reqif` or `.reqifz` extension.
    pub fn can_handle(&self, path: &str) -> (b: bool)
        ensures
            b == match extension_of(path@) {
                Some(e) => e == "reqif"@ || e == "reqifz"@,
                None => false,
            },
    {
        match path_extension(path) {
            Some(e) => {
                let ec = chars_of_string(&e);
                chars_eq_str(ec.as_slice(), "reqif") || chars_eq_str(ec.as_slice(), "reqifz")
            },
            None => false,
        }
    }

    /// Read requirements from a ReqIF file: not available in this build.
    pub fn read(&self, source: &str) -> (r: Result<Vec<Requirement>, Error>)
        ensures
            r matches Err(Error::Config(m)) && m@ == reqif_disabled_message(),
    {
        Err(Error::Config("ReqIF support not enabled. Recompile with --features reqif".to_owned()))
    }

    /// Write requirements to a ReqIF file: not available in this build.
    pub fn write(&self, requirements: &[Requirement], target: &str) -> (r: Result<(), Error>)
        ensures
            r matches Err(Error::Config(m)) && m@ == reqif_disabled_message(),
    {
        Err(Error::Config("ReqIF support not enabled. Recompile with --features reqif".to_owned()))
    }
}

impl Default for ReqIfAdapter {
    fn default() -> (a: Self)
        ensures
            a.mapping.status_mapping.map() == default_status_mapping(),
    {
        ReqIfAdapter::new()
    }
}

} // verus!
