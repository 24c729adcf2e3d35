//! Validation of a traceability graph: one issue per gap and per link
//! endpoint that is not defined, sorted by requirement id (none sorts as
//! the empty id) and then by message.

use vstd::prelude::*;
use vstd::relations::*;
use crate::models::{lex_lt, lemma_lex_trichotomy, lemma_lex_transitive, string_less, LinkType, Link, Requirement};
use crate::sorting::{lemma_insert_to_multiset, views};
use crate::text::{push_str, string_of};
use crate::trace::{
    has_req, hlr_gap_ids, llr_missing_parent_ids, llr_orphan_ids, llr_uncoded_ids, sorted_ids,
    undefined_link_ids, undefined_ref_ids, TraceGaps, TraceGraph,
};

verus! {

/// Severity level for validation issues.
#[derive(Clone, Copy, Debug, PartialEq, Eq, Structural)]
pub enum Severity {
    /// Traceability broken — must be fixed
    Error,
    /// Traceability incomplete — should be addressed
    Warning,
    /// Informational
    Info,
}

/// Display name of a severity.
pub open spec fn severity_name(s: Severity) -> Seq<char> {
    match s {
        Severity::Error => "ERROR"@,
        Severity::Warning => "WARNING"@,
        Severity::Info => "INFO"@,
    }
}

/// Rank of a severity, used to make the issue order total.
pub open spec fn severity_rank(s: Severity) -> int {
    match s {
        Severity::Error => 0,
        Severity::Warning => 1,
        Severity::Info => 2,
    }
}

impl Severity {
    /// Display name: `ERROR`, `WARNING` or `INFO`.
    pub fn as_str(&self) -> (s: &'static str)
        ensures
            s@ == severity_name(*self),
    {
        match self {
            Severity::Error => "ERROR",
            Severity::Warning => "WARNING",
            Severity::Info => "INFO",
        }
    }

    fn rank(&self) -> (r: u8)
        ensures
            r == severity_rank(*self),
    {
        match self {
            Severity::Error => 0,
            Severity::Warning => 1,
            Severity::Info => 2,
        }
    }
}

/// A validation issue found during a traceability check.
#[derive(Debug)]
pub struct ValidationIssue {
    pub severity: Severity,
    pub message: String,
    pub requirement_id: Option<String>,
}

/// An issue as plain values: requirement id, message, severity.
pub type IssueView = (Option<Seq<char>>, Seq<char>, Severity);

/// The plain values of an issue.
pub open spec fn issue_view(i: ValidationIssue) -> IssueView {
    (
        match i.requirement_id {
            Some(s) => Some(s@),
            None => None,
        },
        i.message@,
        i.severity,
    )
}

/// The plain values of each issue.
pub open spec fn issue_views(s: Seq<ValidationIssue>) -> Seq<IssueView> {
    s.map_values(|i: ValidationIssue| issue_view(i))
}

/// The sort key of an issue's requirement id: the id, or empty.
pub open spec fn id_key(v: IssueView) -> Seq<char> {
    match v.0 {
        Some(x) => x,
        None => seq![],
    }
}

/// Issue order: by id key, then message; then (never needed for the
/// issues this module produces) severity and id presence, so that the
/// order is total.
pub open spec fn issue_leq(a: IssueView, b: IssueView) -> bool {
    ||| lex_lt(id_key(a), id_key(b))
    ||| id_key(a) == id_key(b) && lex_lt(a.1, b.1)
    ||| id_key(a) == id_key(b) && a.1 == b.1 && severity_rank(a.2) < severity_rank(b.2)
    ||| id_key(a) == id_key(b) && a.1 == b.1 && a.2 == b.2 && (a.0 is None || b.0 is Some)
}

/// `issue_leq` as a relation.
pub open spec fn issue_order() -> spec_fn(IssueView, IssueView) -> bool {
    |a: IssueView, b: IssueView| issue_leq(a, b)
}

proof fn lemma_issue_antisymmetric(a: IssueView, b: IssueView)
    requires
        issue_leq(a, b),
        issue_leq(b, a),
    ensures
        a == b,
{
    lemma_lex_trichotomy(id_key(a), id_key(b));
    lemma_lex_trichotomy(a.1, b.1);
    assert(id_key(a) == id_key(b));
    assert(a.1 == b.1);
    assert(a.2 == b.2);
    assert(a.0 == b.0);
}

proof fn lemma_issue_transitive(a: IssueView, b: IssueView, c: IssueView)
    requires
        issue_leq(a, b),
        issue_leq(b, c),
    ensures
        issue_leq(a, c),
{
    if lex_lt(id_key(a), id_key(b)) && lex_lt(id_key(b), id_key(c)) {
        lemma_lex_transitive(id_key(a), id_key(b), id_key(c));
    }
    if id_key(a) == id_key(b) && id_key(b) == id_key(c) && lex_lt(a.1, b.1) && lex_lt(b.1, c.1) {
        lemma_lex_transitive(a.1, b.1, c.1);
    }
}

proof fn lemma_issue_total(a: IssueView, b: IssueView)
    ensures
        issue_leq(a, b) || issue_leq(b, a),
{
    lemma_lex_trichotomy(id_key(a), id_key(b));
    lemma_lex_trichotomy(a.1, b.1);
}

/// `issue_order()` is a total order.
pub proof fn lemma_issue_order_total()
    ensures
        total_ordering(issue_order()),
{
    let r = issue_order();
    assert forall|a: IssueView| #[trigger] r(a, a) by {
        lemma_lex_trichotomy(id_key(a), id_key(a));
    }
    assert forall|a: IssueView, b: IssueView| #![trigger r(a, b)] r(a, b) && r(b, a) implies a
        == b by {
        lemma_issue_antisymmetric(a, b);
    }
    assert forall|a: IssueView, b: IssueView, c: IssueView|
        #[trigger] r(a, b) && #[trigger] r(b, c) implies r(a, c) by {
        lemma_issue_transitive(a, b, c);
    }
    assert forall|a: IssueView, b: IssueView| #[trigger] r(a, b) || #[trigger] r(b, a) by {
        lemma_issue_total(a, b);
    }
}

/// Executable `issue_leq`.
fn issue_leq_exec(a: &ValidationIssue, b: &ValidationIssue) -> (r: bool)
    ensures
        r == issue_leq(issue_view(*a), issue_view(*b)),
{
    let empty = String::new();
    let ka = match &a.requirement_id {
        Some(x) => x,
        None => &empty,
    };
    let kb = match &b.requirement_id {
        Some(x) => x,
        None => &empty,
    };
    assert(ka@ == id_key(issue_view(*a)));
    assert(kb@ == id_key(issue_view(*b)));
    if string_less(ka, kb) {
        return true;
    }
    if !(*ka == *kb) {
        return false;
    }
    if string_less(&a.message, &b.message) {
        return true;
    }
    if !(a.message == b.message) {
        return false;
    }
    let ra = a.severity.rank();
    let rb = b.severity.rank();
    if ra < rb {
        return true;
    }
    if ra != rb {
        return false;
    }
    a.requirement_id.is_none() || b.requirement_id.is_some()
}

/// Sort issues by `issue_order()`.
pub fn sort_issues(v: Vec<ValidationIssue>) -> (r: Vec<ValidationIssue>)
    ensures
        issue_views(r@) == issue_views(v@).sort_by(issue_order()),
{
    proof {
        lemma_issue_order_total();
    }
    let ghost input = v@;
    let mut out: Vec<ValidationIssue> = Vec::new();
    assert(issue_views(out@) =~= issue_views(input.take(0)));
    for x in it: v
        invariant
            it.seq() == input,
            total_ordering(issue_order()),
            sorted_by(issue_views(out@), issue_order()),
            issue_views(out@).to_multiset() == issue_views(input.take(it.index() as int)).to_multiset(),
    {
        let ghost i = it.index() as int;
        let mut k: usize = 0;
        while k < out.len() && issue_leq_exec(&out[k], &x)
            invariant
                k <= out@.len(),
                total_ordering(issue_order()),
                forall|j: int| 0 <= j < k ==> issue_leq(issue_view(#[trigger] out@[j]), issue_view(x)),
            decreases out.len() - k,
        {
            k = k + 1;
        }
        proof {
            let s = issue_views(out@);
            let xv = issue_view(x);
            assert forall|j: int| k <= j < s.len() implies issue_leq(xv, #[trigger] s[j]) by {
                lemma_issue_total(s[k as int], xv);
                if j > k {
                    assert(issue_order()(s[k as int], s[j]));
                    lemma_issue_transitive(xv, s[k as int], s[j]);
                }
            }
        }
        let ghost before = out@;
        out.insert(k, x);
        proof {
            let b = issue_views(before);
            let s = issue_views(out@);
            let xv = issue_view(x);
            assert(s =~= b.insert(k as int, xv));
            lemma_insert_to_multiset(b, k as int, xv);
            assert forall|p: int, q: int| 0 <= p < q < s.len() implies #[trigger] issue_order()(
                s[p],
                s[q],
            ) by {
                if q < k {
                    assert(issue_order()(b[p], b[q]));
                } else if p > k {
                    assert(issue_order()(b[p - 1], b[q - 1]));
                } else if p < k && q > k {
                    lemma_issue_transitive(b[p], xv, b[q - 1]);
                }
            }
            assert(issue_views(input.take(i + 1)) =~= issue_views(input.take(i)).push(xv));
            broadcast use vstd::seq_lib::group_to_multiset_ensures;

        }
    }
    proof {
        assert(input.take(input.len() as int) =~= input);
        issue_views(input).lemma_sort_by_ensures(issue_order());
        vstd::seq_lib::lemma_sorted_unique(
            issue_views(out@),
            issue_views(input).sort_by(issue_order()),
            issue_order(),
        );
    }
    out
}

// ───────────────────────── issues ─────────────────────────

/// The kind of a gap, which fixes the message and severity of its issue.
#[derive(Clone, Copy, Debug, PartialEq, Eq, Structural)]
pub enum GapKind {
    HlrWithoutLlr,
    LlrWithoutParent,
    LlrMissingParent,
    LlrWithoutCode,
    UndefinedId,
    CodeRefUndefined,
    ImportStale,
    ImportOrphaned,
}

/// Message text before the id.
pub open spec fn gap_prefix(k: GapKind) -> Seq<char> {
    match k {
        GapKind::HlrWithoutLlr => "HLR '"@,
        GapKind::LlrWithoutParent => "LLR '"@,
        GapKind::LlrMissingParent => "LLR '"@,
        GapKind::LlrWithoutCode => "LLR '"@,
        GapKind::UndefinedId => "Requirement '"@,
        GapKind::CodeRefUndefined => "Code references undefined requirement '"@,
        GapKind::ImportStale => "'"@,
        GapKind::ImportOrphaned => "'"@,
    }
}

/// Message text after the id.
pub open spec fn gap_suffix(k: GapKind) -> Seq<char> {
    match k {
        GapKind::HlrWithoutLlr => "' has no LLR children"@,
        GapKind::LlrWithoutParent => "' has no parent HLR"@,
        GapKind::LlrMissingParent => "' references non-existent parent"@,
        GapKind::LlrWithoutCode => "' is not implemented in code"@,
        GapKind::UndefinedId => "' is referenced but not defined"@,
        GapKind::CodeRefUndefined => "'"@,
        GapKind::ImportStale => "' was imported from a source that has since changed (import_stale)"@,
        GapKind::ImportOrphaned => "' was imported from a source that no longer exists (import_orphaned)"@,
    }
}

/// Severity of the issue for a gap: HLRs without children and LLRs without
/// code are warnings, the rest errors.
pub open spec fn gap_severity(k: GapKind) -> Severity {
    match k {
        GapKind::HlrWithoutLlr => Severity::Warning,
        GapKind::LlrWithoutCode => Severity::Warning,
        _ => Severity::Error,
    }
}

/// The issue for the gap `k` at requirement `x`.
pub open spec fn gap_issue_view(k: GapKind, x: Seq<char>) -> IssueView {
    (Some(x), gap_prefix(k) + x + gap_suffix(k), gap_severity(k))
}

/// The issues for a list of gap ids of one kind.
pub open spec fn gap_issue_views(ids: Seq<Seq<char>>, k: GapKind) -> Seq<IssueView> {
    ids.map_values(|x: Seq<char>| gap_issue_view(k, x))
}

/// The issues for all gap lists, list by list.
pub open spec fn gap_issues_of(
    hlr: Seq<Seq<char>>,
    orphan: Seq<Seq<char>>,
    missing: Seq<Seq<char>>,
    uncoded: Seq<Seq<char>>,
    undefined: Seq<Seq<char>>,
    refs_undefined: Seq<Seq<char>>,
    stale: Seq<Seq<char>>,
    orphaned: Seq<Seq<char>>,
) -> Seq<IssueView> {
    gap_issue_views(hlr, GapKind::HlrWithoutLlr) + gap_issue_views(orphan, GapKind::LlrWithoutParent)
        + gap_issue_views(missing, GapKind::LlrMissingParent) + gap_issue_views(
        uncoded,
        GapKind::LlrWithoutCode,
    ) + gap_issue_views(undefined, GapKind::UndefinedId) + gap_issue_views(
        refs_undefined,
        GapKind::CodeRefUndefined,
    ) + gap_issue_views(stale, GapKind::ImportStale) + gap_issue_views(
        orphaned,
        GapKind::ImportOrphaned,
    )
}

/// The issues for the lists of `g`.
pub open spec fn gap_issue_list(g: TraceGaps) -> Seq<IssueView> {
    gap_issues_of(
        views(g.hlr_without_llr@),
        views(g.llr_without_parent@),
        views(g.llr_missing_parent@),
        views(g.llr_without_code@),
        views(g.undefined_ids@),
        views(g.code_refs_undefined@),
        views(g.import_stale@),
        views(g.import_orphaned@),
    )
}

/// For each link in order: an error if it is not `Verifies` and its source
/// is not defined, then an error if its target is not defined.
pub open spec fn link_issue_list(reqs: Seq<Requirement>, links: Seq<Link>) -> Seq<IssueView>
    decreases links.len(),
{
    if links.len() == 0 {
        seq![]
    } else {
        let l = links.last();
        let a = link_issue_list(reqs, links.drop_last());
        let b = if l.link_type != LinkType::Verifies && !has_req(reqs, l.source@) {
            a.push((None, "Link source '"@ + l.source@ + "' does not exist"@, Severity::Error))
        } else {
            a
        };
        if !has_req(reqs, l.target@) {
            b.push((None, "Link target '"@ + l.target@ + "' does not exist"@, Severity::Error))
        } else {
            b
        }
    }
}

fn gap_texts(k: GapKind) -> (r: (&'static str, &'static str))
    ensures
        r.0@ == gap_prefix(k),
        r.1@ == gap_suffix(k),
{
    match k {
        GapKind::HlrWithoutLlr => ("HLR '", "' has no LLR children"),
        GapKind::LlrWithoutParent => ("LLR '", "' has no parent HLR"),
        GapKind::LlrMissingParent => ("LLR '", "' references non-existent parent"),
        GapKind::LlrWithoutCode => ("LLR '", "' is not implemented in code"),
        GapKind::UndefinedId => ("Requirement '", "' is referenced but not defined"),
        GapKind::CodeRefUndefined => ("Code references undefined requirement '", "'"),
        GapKind::ImportStale => (
            "'",
            "' was imported from a source that has since changed (import_stale)",
        ),
        GapKind::ImportOrphaned => (
            "'",
            "' was imported from a source that no longer exists (import_orphaned)",
        ),
    }
}

fn gap_severity_exec(k: GapKind) -> (s: Severity)
    ensures
        s == gap_severity(k),
{
    match k {
        GapKind::HlrWithoutLlr => Severity::Warning,
        GapKind::LlrWithoutCode => Severity::Warning,
        _ => Severity::Error,
    }
}

/// The text `prefix + id + suffix`.
fn framed(prefix: &str, id: &String, suffix: &str) -> (s: String)
    ensures
        s@ == prefix@ + id@ + suffix@,
{
    let mut w: Vec<char> = Vec::new();
    push_str(&mut w, prefix);
    push_str(&mut w, id.as_str());
    push_str(&mut w, suffix);
    string_of(w.as_slice())
}

/// The issue for gap `k` at requirement `id`.
pub fn gap_issue(k: GapKind, id: &String) -> (i: ValidationIssue)
    ensures
        issue_view(i) == gap_issue_view(k, id@),
{
    let (p, q) = gap_texts(k);
    ValidationIssue {
        severity: gap_severity_exec(k),
        message: framed(p, id, q),
        requirement_id: Some(id.clone()),
    }
}

fn push_gap_issues(out: &mut Vec<ValidationIssue>, ids: &Vec<String>, k: GapKind)
    ensures
        issue_views(final(out)@) == issue_views(old(out)@) + gap_issue_views(views(ids@), k),
{
    let ghost start = issue_views(out@);
    let mut j: usize = 0;
    while j < ids.len()
        invariant
            j <= ids@.len(),
            issue_views(out@) == start + gap_issue_views(views(ids@.take(j as int)), k),
        decreases ids.len() - j,
    {
        let ghost before = issue_views(out@);
        let i = gap_issue(k, &ids[j]);
        out.push(i);
        proof {
            assert(views(ids@.take(j + 1)) =~= views(ids@.take(j as int)).push(ids@[j as int]@));
            assert(gap_issue_views(views(ids@.take(j + 1)), k) =~= gap_issue_views(
                views(ids@.take(j as int)),
                k,
            ).push(gap_issue_view(k, ids@[j as int]@)));
            assert(issue_views(out@) =~= before.push(issue_view(i)));
        }
        j = j + 1;
    }
    proof {
        assert(ids@.take(j as int) =~= ids@);
    }
}

impl TraceGraph {
    fn push_link_issues(&self, out: &mut Vec<ValidationIssue>)
        requires
            self.wf(),
        ensures
            issue_views(final(out)@) == issue_views(old(out)@) + link_issue_list(
                self.reqs(),
                self.link_list(),
            ),
    {
        let ghost start = issue_views(out@);
        let links = self.links();
        let mut j: usize = 0;
        assert(link_issue_list(self.reqs(), links@.take(0)) =~= seq![]);
        while j < links.len()
            invariant
                j <= links@.len(),
                links@ == self.link_list(),
                self.wf(),
                issue_views(out@) == start + link_issue_list(self.reqs(), links@.take(j as int)),
            decreases links.len() - j,
        {
            let l = &links[j];
            proof {
                assert(links@.take(j + 1).drop_last() =~= links@.take(j as int));
            }
            let ghost before = issue_views(out@);
            let bad_source = l.link_type != LinkType::Verifies && !self.contains(l.source.as_str());
            if bad_source {
                let i = ValidationIssue {
                    severity: Severity::Error,
                    message: framed("Link source '", &l.source, "' does not exist"),
                    requirement_id: None,
                };
                out.push(i);
                assert(issue_views(out@) =~= before.push(issue_view(i)));
            }
            let ghost mid = issue_views(out@);
            let bad_target = !self.contains(l.target.as_str());
            if bad_target {
                let i = ValidationIssue {
                    severity: Severity::Error,
                    message: framed("Link target '", &l.target, "' does not exist"),
                    requirement_id: None,
                };
                out.push(i);
                assert(issue_views(out@) =~= mid.push(issue_view(i)));
            }
            proof {
                assert(issue_views(out@) =~= start + link_issue_list(
                    self.reqs(),
                    links@.take(j + 1),
                ));
            }
            j = j + 1;
        }
        proof {
            assert(links@.take(j as int) =~= links@);
        }
    }

    /// Validate using a pre-built `TraceGaps` (which may include import
    /// staleness flags): one issue per gap, then one per undefined link
    /// endpoint, sorted by requirement id (none as empty) and message.
    pub fn validate_with_gaps(&self, gaps: TraceGaps) -> (r: Vec<ValidationIssue>)
        requires
            self.wf(),
        ensures
            issue_views(r@) == (gap_issue_list(gaps) + link_issue_list(
                self.reqs(),
                self.link_list(),
            )).sort_by(issue_order()),
    {
        let mut issues: Vec<ValidationIssue> = Vec::new();
        assert(issue_views(issues@) =~= seq![]);
        push_gap_issues(&mut issues, &gaps.hlr_without_llr, GapKind::HlrWithoutLlr);
        push_gap_issues(&mut issues, &gaps.llr_without_parent, GapKind::LlrWithoutParent);
        push_gap_issues(&mut issues, &gaps.llr_missing_parent, GapKind::LlrMissingParent);
        push_gap_issues(&mut issues, &gaps.llr_without_code, GapKind::LlrWithoutCode);
        push_gap_issues(&mut issues, &gaps.undefined_ids, GapKind::UndefinedId);
        push_gap_issues(&mut issues, &gaps.code_refs_undefined, GapKind::CodeRefUndefined);
        push_gap_issues(&mut issues, &gaps.import_stale, GapKind::ImportStale);
        push_gap_issues(&mut issues, &gaps.import_orphaned, GapKind::ImportOrphaned);
        assert(issue_views(issues@) =~= gap_issue_list(gaps));
        self.push_link_issues(&mut issues);
        sort_issues(issues)
    }

    /// Validate all traceability links: `validate_with_gaps` on the graph's
    /// own gaps.
    pub fn validate(&self) -> (r: Vec<ValidationIssue>)
        requires
            self.wf(),
        ensures
            issue_views(r@) == (structural_gap_issues(*self) + link_issue_list(
                self.reqs(),
                self.link_list(),
            )).sort_by(issue_order()),
    {
        let gaps = self.find_gaps();
        self.validate_with_gaps(gaps)
    }
}

/// The issues for the graph's own gaps (no import flags).
pub open spec fn structural_gap_issues(g: TraceGraph) -> Seq<IssueView> {
    gap_issues_of(
        sorted_ids(hlr_gap_ids(g.reqs())),
        sorted_ids(llr_orphan_ids(g.reqs())),
        sorted_ids(llr_missing_parent_ids(g.reqs())),
        sorted_ids(llr_uncoded_ids(g.reqs(), g.refs())),
        sorted_ids(undefined_link_ids(g.reqs(), g.link_list())),
        sorted_ids(undefined_ref_ids(g.reqs(), g.refs())),
        seq![],
        seq![],
    )
}

} // verus!
