//! Resource addresses of the tool server: `req://coverage`, `req://gaps`
//! and `req://requirements/<type>[/<id>]`.

use vstd::prelude::*;
use crate::models::{parse_type, RequirementType};
use crate::text::{
    chars_eq_str, chars_of, first_index, has_prefix, lemma_first_index, slice_chars,
    starts_with_str, string_of,
};

verus! {

/// What a resource address asks for.
#[derive(Debug)]
pub enum Resource {
    /// The coverage summary
    Coverage,
    /// The traceability gaps
    Gaps,
    /// The requirements of a type, or the one with the given id among them
    Requirements { req_type: RequirementType, id: Option<String> },
}

/// Why a resource address was refused.
#[derive(Debug)]
pub enum ResourceError {
    /// The type segment is not a requirement type
    UnknownType(String),
    /// The address is none of the known forms
    UnknownUri(String),
}

/// The prefix of requirement listings.
pub open spec fn requirements_prefix() -> Seq<char> {
    "req://requirements/"@
}

/// The type segment of the rest of a requirement listing address: up to
/// the first `/`.
pub open spec fn type_segment(rest: Seq<char>) -> Seq<char> {
    if first_index(rest, '/') < 0 {
        rest
    } else {
        rest.take(first_index(rest, '/'))
    }
}

/// The id segment: what follows the first `/`, if there is one.
pub open spec fn id_segment(rest: Seq<char>) -> Option<Seq<char>> {
    if first_index(rest, '/') < 0 {
        None
    } else {
        Some(rest.skip(first_index(rest, '/') + 1))
    }
}

/// A resource request as plain values.
pub enum ResourceView {
    Coverage,
    Gaps,
    Requirements(RequirementType, Option<Seq<char>>),
    UnknownType(Seq<char>),
    UnknownUri(Seq<char>),
}

/// The plain values of the outcome of reading an address.
pub open spec fn resource_view(r: Result<Resource, ResourceError>) -> ResourceView {
    match r {
        Ok(Resource::Coverage) => ResourceView::Coverage,
        Ok(Resource::Gaps) => ResourceView::Gaps,
        Ok(Resource::Requirements { req_type, id }) => ResourceView::Requirements(
            req_type,
            match id {
                Some(i) => Some(i@),
                None => None,
            },
        ),
        Err(ResourceError::UnknownType(t)) => ResourceView::UnknownType(t@),
        Err(ResourceError::UnknownUri(u)) => ResourceView::UnknownUri(u@),
    }
}

/// What an address asks for: the coverage, the gaps, or the requirements
/// of the type named after `req://requirements/` (case-insensitively),
/// with the id that follows a further `/`.
pub open spec fn resource_spec(uri: Seq<char>) -> ResourceView {
    if uri == "req://coverage"@ {
        ResourceView::Coverage
    } else if uri == "req://gaps"@ {
        ResourceView::Gaps
    } else if has_prefix(uri, requirements_prefix()) {
        let rest = uri.skip(requirements_prefix().len() as int);
        match parse_type(type_segment(rest)) {
            Some(t) => ResourceView::Requirements(t, id_segment(rest)),
            None => ResourceView::UnknownType(type_segment(rest)),
        }
    } else {
        ResourceView::UnknownUri(uri)
    }
}

fn first_slash(s: &[char]) -> (r: Option<usize>)
    ensures
        match r {
            Some(k) => k < s@.len() && first_index(s@, '/') == k,
            None => first_index(s@, '/') < 0,
        },
{
    let mut k: usize = 0;
    while k < s.len()
        invariant
            k <= s@.len(),
            forall|j: int| 0 <= j < k ==> s@[j] != '/',
        decreases s.len() - k,
    {
        if s[k] == '/' {
            proof {
                lemma_first_index(s@, '/', k as int);
            }
            return Some(k);
        }
        k = k + 1;
    }
    proof {
        lemma_first_index(s@, '/', s@.len() as int);
    }
    None
}

/// Read a resource address.
pub fn resource_of(uri: &str) -> (r: Result<Resource, ResourceError>)
    ensures
        resource_view(r) == resource_spec(uri@),
{
    let u = chars_of(uri);
    let us = u.as_slice();
    if chars_eq_str(us, "req://coverage") {
        return Ok(Resource::Coverage);
    }
    if chars_eq_str(us, "req://gaps") {
        return Ok(Resource::Gaps);
    }
    if starts_with_str(us, "req://requirements/") {
        proof {
            reveal_strlit("req://requirements/");
        }
        let p = chars_of("req://requirements/");
        let rest = slice_chars(us, p.len(), us.len());
        let (ty, id) = match first_slash(rest.as_slice()) {
            Some(k) => (slice_chars(rest.as_slice(), 0, k), Some(slice_chars(rest.as_slice(), k + 1, rest.len()))),
            None => (slice_chars(rest.as_slice(), 0, rest.len()), None),
        };
        proof {
            assert(rest@ == uri@.skip(requirements_prefix().len() as int));
            assert(rest@.subrange(0, rest@.len() as int) =~= rest@);
            assert(ty@ == type_segment(rest@));
        }
        return match RequirementType::from_chars(ty.as_slice()) {
            Some(t) => Ok(
                Resource::Requirements {
                    req_type: t,
                    id: match id {
                        Some(i) => Some(string_of(i.as_slice())),
                        None => None,
                    },
                },
            ),
            None => Err(ResourceError::UnknownType(string_of(ty.as_slice()))),
        };
    }
    Err(ResourceError::UnknownUri(uri.to_owned()))
}

} // verus!
