//! Author independence check between the implementation and the tests of
//! a requirement.  This build has no git access: the check reports no
//! violations and one warning that it was skipped.

use vstd::prelude::*;
use crate::audit::{IndependenceResult, IndependenceWarning};
use crate::error::Error;
use crate::models::CodeRef;
use crate::text::{chars_of, has_prefix, lines, split_lines, string_of, trim, trim_chars, starts_with_str, slice_chars};

verus! {

/// The reason given when the check is skipped.
pub open spec fn skipped_reason() -> Seq<char> {
    "git feature not enabled; independence check skipped. Rebuild with --features git to enable."@
}

/// Check author independence for the given implementation and test spans.
/// Without git access this always succeeds with no violations and a single
/// warning (no requirement, no file) that the check was skipped.
pub fn check_independence(base: &str, impl_refs: &[CodeRef], test_refs: &[CodeRef]) -> (r: Result<
    IndependenceResult,
    Error,
>)
    ensures
        r matches Ok(res) && res.violations@.len() == 0 && res.warnings@.len() == 1
            && res.warnings@[0].req_id@.len() == 0 && res.warnings@[0].file@.len() == 0
            && res.warnings@[0].reason@ == skipped_reason(),
{
    let mut warnings: Vec<IndependenceWarning> = Vec::new();
    warnings.push(
        IndependenceWarning {
            req_id: String::new(),
            file: String::new(),
            reason: "git feature not enabled; independence check skipped. Rebuild with --features git to enable.".to_owned(),
        },
    );
    Ok(IndependenceResult { violations: Vec::new(), warnings })
}

/// The `Req-Agent-Session:` trailer value of a commit message: the last
/// line starting with it, the rest trimmed.
pub open spec fn agent_session(message: Seq<char>) -> Option<Seq<char>> {
    agent_session_in(lines(message))
}

/// The session token of the last line with the trailer prefix.
pub open spec fn agent_session_in(ls: Seq<Seq<char>>) -> Option<Seq<char>>
    decreases ls.len(),
{
    if ls.len() == 0 {
        None
    } else if has_prefix(ls.last(), "Req-Agent-Session:"@) {
        Some(trim(ls.last().skip("Req-Agent-Session:"@.len() as int)))
    } else {
        agent_session_in(ls.drop_last())
    }
}

/// Extract the `Req-Agent-Session: <token>` trailer from a commit message.
pub fn extract_agent_session(message: &str) -> (r: Option<String>)
    ensures
        match agent_session(message@) {
            Some(t) => r matches Some(s) && s@ == t,
            None => r is None,
        },
{
    let cs = chars_of(message);
    let ls = split_lines(cs.as_slice());
    let ghost lv = ls.deep_view();
    let p = chars_of("Req-Agent-Session:");
    let mut i: usize = ls.len();
    assert(lv == lines(message@));
    assert(lv.take(i as int) =~= lv);
    while i > 0
        invariant
            i <= ls@.len(),
            lv == ls.deep_view(),
            lv == lines(message@),
            p@ == "Req-Agent-Session:"@,
            agent_session_in(lv) == agent_session_in(lv.take(i as int)),
        decreases i,
    {
        let line = ls[i - 1].as_slice();
        assert(lv.take(i as int).last() == ls@[i - 1]@);
        if starts_with_str(line, "Req-Agent-Session:") {
            let rest = slice_chars(line, p.len(), line.len());
            assert(rest@ =~= line@.skip(p@.len() as int));
            return Some(string_of(trim_chars(rest.as_slice()).as_slice()));
        }
        assert(lv.take(i as int).drop_last() =~= lv.take(i - 1));
        i = i - 1;
    }
    None
}

} // verus!
