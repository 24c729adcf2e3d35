//! Properties of the library as a whole, each stated over the models the
//! operations' contracts use and proved from them.

use vstd::prelude::*;
use vstd::relations::*;
use crate::models::{
    link_req_type_name, parse_link_type, parse_status, parse_type, req_type_name, status_name,
    LinkType, RequirementStatus, RequirementType,
};
use crate::text::{
    ascii_lower, eq_ignore_case_lower, has_prefix, is_ascii_digit, lemma_first_index,
    lemma_zero_padded_parse, zero_padded,
};
use crate::models::{id_number, max_id_number, max_id_number_in, next_id, next_id_fits, next_id_fits_in, next_id_in, parse_id_spec, split_dash, type_prefix};
use crate::sorting::views;
use crate::models::{Link, Requirement};
use crate::sorting::{id_order, lemma_id_order_total};
use crate::trace::{
    has_req, hlr_gap_ids, id_index, id_of, hlr_gap_pred, ids_unique, implemented_llr_pred, is_child_of, keep_last,
    lemma_keep_last, linked_hlr_pred, llr_missing_parent_ids, llr_orphan_ids, llr_uncoded_ids,
    llr_uncoded_pred, sorted_ids, type_pred, undefined_link_ids, undefined_ref_ids, TraceGaps,
    TraceGraph,
};
use crate::validation::{
    gap_issue_list, gap_issue_view, gap_issue_views, gap_severity, issue_order,
    lemma_issue_order_total, link_issue_list, structural_gap_issues, GapKind, IssueView, Severity,
};
use crate::ai_import::{error_list, ids_available, import_attributes, imported_list, outcome_of, skipped_list, taken_after, AiSuggestion, ImportOutcome};
use crate::triviality::{
    body_findings, empty_test_findings, literal_findings, skipped_path, span_end, span_findings,
    stub_findings, tautology_findings, triviality_findings,
};
use crate::audit::TrivialityPattern;
use crate::coverage_map::{coverage_scores, data_files, data_functions, norm_path, ref_end, region_hits, segment_hits, CovData, CovFile, CovFunction};
use crate::mutation::{hit_sum, scores_for, MutantRecord};
use crate::models::CodeRef;
use crate::markdown::{after_open, body_start, clean_body_spec, close_pos, drop_leading_blank, drop_trailing_blank, frontmatter_lines, lemma_first_occ, lemma_frontmatter_shape, markdown_text, raw_fields_single_line, split_frontmatter_spec, tail_part};
use crate::text::{is_ws, lemma_lines_after_newline, lemma_lines_of_text, lemma_not_blank, lemma_trim_ends, lemma_trim_offset, lines, occurs_at, trim};
use crate::engine::{end_rank, same_slot, widest_at, widest_prefix};
use crate::engine::{id_insert_pos, ref_before, ref_insert_pos, sorted_by_id, sorted_refs};
use crate::models::{lemma_lex_transitive, lemma_lex_trichotomy, lex_lt};
use crate::sorting::lemma_insert_to_multiset;
use crate::engine::{status_of, CriterionLink};
use crate::hooks::{PRE_COMMIT_HOOK, PRE_COMMIT_HOOK_STRICT};
use crate::tree::{indent_of, trace_tree_text};
use crate::impact::{descends, impact_files, impact_ids, impact_tests, lemma_descends_extend, lemma_root_descends, strict_descendant_pred};

verus! {

/// A type's name parses back to the type (`from_str(as_str())`).
pub proof fn law_type_name_roundtrip(t: RequirementType)
    ensures
        parse_type(req_type_name(t)) == Some(t),
{
    reveal_strlit("hlr");
    reveal_strlit("llr");
    reveal_strlit("tst");
    reveal_strlit("test");
    match t {
        RequirementType::Hlr => {
            assert(eq_ignore_case_lower("hlr"@, "hlr"@));
        },
        RequirementType::Llr => {
            assert(eq_ignore_case_lower("llr"@, "llr"@));
            assert(ascii_lower("llr"@[0]) != "hlr"@[0]);
        },
        RequirementType::Tst => {
            assert(eq_ignore_case_lower("tst"@, "tst"@));
            assert(ascii_lower("tst"@[0]) != "hlr"@[0]);
            assert(ascii_lower("tst"@[0]) != "llr"@[0]);
        },
    }
}

/// A status's name parses back to the status (`from_str(as_str())`).
pub proof fn law_status_name_roundtrip(s: RequirementStatus)
    ensures
        parse_status(status_name(s)) == Some(s),
{
    reveal_strlit("draft");
    reveal_strlit("approved");
    reveal_strlit("deprecated");
    reveal_strlit("rejected");
    match s {
        RequirementStatus::Draft => {
            assert(eq_ignore_case_lower("draft"@, "draft"@));
        },
        RequirementStatus::Approved => {
            assert(eq_ignore_case_lower("approved"@, "approved"@));
            assert(ascii_lower("approved"@[0]) != "draft"@[0]);
        },
        RequirementStatus::Deprecated => {
            assert(eq_ignore_case_lower("deprecated"@, "deprecated"@));
            assert(ascii_lower("deprecated"@[1]) != "draft"@[1]);
            assert(ascii_lower("deprecated"@[0]) != "approved"@[0]);
        },
        RequirementStatus::Rejected => {
            assert(eq_ignore_case_lower("rejected"@, "rejected"@));
            assert(ascii_lower("rejected"@[0]) != "draft"@[0]);
            assert(ascii_lower("rejected"@[0]) != "approved"@[0]);
            assert(ascii_lower("rejected"@[0]) != "deprecated"@[0]);
        },
    }
}

/// A link type's name parses back to the link type.
pub proof fn law_link_type_name_roundtrip(l: LinkType)
    ensures
        parse_link_type(link_req_type_name(l)) == Some(l),
{
    reveal_strlit("refines");
    reveal_strlit("implements");
    reveal_strlit("verifies");
    reveal_strlit("references");
    match l {
        LinkType::Refines => {
            assert(eq_ignore_case_lower("refines"@, "refines"@));
        },
        LinkType::Implements => {
            assert(eq_ignore_case_lower("implements"@, "implements"@));
            assert(ascii_lower("implements"@[0]) != "refines"@[0]);
        },
        LinkType::Verifies => {
            assert(eq_ignore_case_lower("verifies"@, "verifies"@));
            assert(ascii_lower("verifies"@[0]) != "refines"@[0]);
            assert(ascii_lower("verifies"@[0]) != "implements"@[0]);
        },
        LinkType::References => {
            assert(eq_ignore_case_lower("references"@, "references"@));
            assert("references"@.len() != "refines"@.len());
            assert(ascii_lower("references"@[0]) != "implements"@[0]);
            assert(ascii_lower("references"@[0]) != "verifies"@[0]);
        },
    }
}

// ───────────────────────── traceability ─────────────────────────

/// Filtering by a predicate that is the disjoint union of two others
/// keeps as many elements as the two together.
pub proof fn lemma_filter_split<A>(
    s: Seq<A>,
    p: spec_fn(A) -> bool,
    q: spec_fn(A) -> bool,
    r: spec_fn(A) -> bool,
)
    requires
        forall|x: A| #[trigger] p(x) == (q(x) || r(x)),
        forall|x: A| !(#[trigger] q(x) && r(x)),
    ensures
        s.filter(p).len() == s.filter(q).len() + s.filter(r).len(),
    decreases s.len(),
{
    if s.len() > 0 {
        let t = s.drop_last();
        lemma_filter_split(t, p, q, r);
        assert(s =~= t.push(s.last()));
        t.lemma_filter_push(s.last(), p);
        t.lemma_filter_push(s.last(), q);
        t.lemma_filter_push(s.last(), r);
    }
}

/// Sorting keeps the length.
pub proof fn lemma_sorted_ids_len(x: Seq<Seq<char>>)
    ensures
        sorted_ids(x).len() == x.len(),
        sorted_by(sorted_ids(x), id_order()),
{
    lemma_id_order_total();
    x.lemma_sort_by_ensures(id_order());
    broadcast use vstd::seq_lib::group_to_multiset_ensures;

    assert(x.to_multiset().len() == x.len());
}

/// Coverage and gaps agree: every HLR either has a child (counted in
/// `hlr_with_llr`) or is listed in `hlr_without_llr`, and every LLR is
/// either implemented (counted in `llr_implemented`) or listed in
/// `llr_without_code`; hence neither count exceeds its total.
pub proof fn law_coverage_matches_gaps(g: TraceGraph)
    requires
        g.wf(),
    ensures
        g.reqs().filter(linked_hlr_pred(g.reqs())).len() + sorted_ids(hlr_gap_ids(g.reqs())).len()
            == g.reqs().filter(type_pred(RequirementType::Hlr)).len(),
        g.reqs().filter(implemented_llr_pred(g.refs())).len() + sorted_ids(
            llr_uncoded_ids(g.reqs(), g.refs()),
        ).len() == g.reqs().filter(type_pred(RequirementType::Llr)).len(),
        g.reqs().filter(linked_hlr_pred(g.reqs())).len() <= g.reqs().filter(
            type_pred(RequirementType::Hlr),
        ).len(),
        g.reqs().filter(implemented_llr_pred(g.refs())).len() <= g.reqs().filter(
            type_pred(RequirementType::Llr),
        ).len(),
{
    let reqs = g.reqs();
    let refs = g.refs();
    lemma_filter_split(
        reqs,
        type_pred(RequirementType::Hlr),
        linked_hlr_pred(reqs),
        hlr_gap_pred(reqs),
    );
    lemma_filter_split(
        reqs,
        type_pred(RequirementType::Llr),
        implemented_llr_pred(refs),
        llr_uncoded_pred(refs),
    );
    lemma_sorted_ids_len(hlr_gap_ids(reqs));
    lemma_sorted_ids_len(llr_uncoded_ids(reqs, refs));
}

/// There are as many link issues as undefined link endpoints.
pub proof fn lemma_link_issues_len(reqs: Seq<Requirement>, links: Seq<Link>)
    ensures
        link_issue_list(reqs, links).len() == undefined_link_ids(reqs, links).len(),
    decreases links.len(),
{
    if links.len() > 0 {
        lemma_link_issues_len(reqs, links.drop_last());
    }
}

/// Checking finds no issue exactly when the graph has no gaps: no HLR
/// without children, no LLR without a parent, with an undefined parent or
/// without code, no undefined id named by a link or by code.
pub proof fn law_clean_check_iff_no_gaps(g: TraceGraph)
    requires
        g.wf(),
    ensures
        (structural_gap_issues(g) + link_issue_list(g.reqs(), g.link_list())).sort_by(
            issue_order(),
        ).len() == 0 <==> {
            &&& hlr_gap_ids(g.reqs()).len() == 0
            &&& llr_orphan_ids(g.reqs()).len() == 0
            &&& llr_missing_parent_ids(g.reqs()).len() == 0
            &&& llr_uncoded_ids(g.reqs(), g.refs()).len() == 0
            &&& undefined_link_ids(g.reqs(), g.link_list()).len() == 0
            &&& undefined_ref_ids(g.reqs(), g.refs()).len() == 0
        },
{
    let reqs = g.reqs();
    let all = structural_gap_issues(g) + link_issue_list(reqs, g.link_list());
    lemma_issue_order_total();
    all.lemma_sort_by_ensures(issue_order());
    broadcast use vstd::seq_lib::group_to_multiset_ensures;

    assert(all.to_multiset().len() == all.len());
    assert(all.sort_by(issue_order()).to_multiset().len() == all.sort_by(issue_order()).len());
    lemma_sorted_ids_len(hlr_gap_ids(reqs));
    lemma_sorted_ids_len(llr_orphan_ids(reqs));
    lemma_sorted_ids_len(llr_missing_parent_ids(reqs));
    lemma_sorted_ids_len(llr_uncoded_ids(reqs, g.refs()));
    lemma_sorted_ids_len(undefined_link_ids(reqs, g.link_list()));
    lemma_sorted_ids_len(undefined_ref_ids(reqs, g.refs()));
    lemma_link_issues_len(reqs, g.link_list());
}

/// "Not a `Verifies` link, and its source is not defined", as a predicate.
pub open spec fn undefined_source_pred(reqs: Seq<Requirement>) -> spec_fn(Link) -> bool {
    |l: Link| l.link_type != LinkType::Verifies && !has_req(reqs, l.source@)
}

/// "Its target is not defined", as a predicate.
pub open spec fn undefined_target_pred(reqs: Seq<Requirement>) -> spec_fn(Link) -> bool {
    |l: Link| !has_req(reqs, l.target@)
}

proof fn lemma_link_issue_count(reqs: Seq<Requirement>, links: Seq<Link>)
    ensures
        link_issue_list(reqs, links).len() == links.filter(undefined_source_pred(reqs)).len()
            + links.filter(undefined_target_pred(reqs)).len(),
    decreases links.len(),
{
    if links.len() > 0 {
        lemma_link_issue_count(reqs, links.drop_last());
        assert(links.drop_last().push(links.last()) =~= links);
        links.drop_last().lemma_filter_push(links.last(), undefined_source_pred(reqs));
        links.drop_last().lemma_filter_push(links.last(), undefined_target_pred(reqs));
    }
}

/// A check reports one issue for each id of each gap list, one for each
/// link other than `Verifies` whose source is not defined, and one for each
/// link whose target is not defined.
pub proof fn law_check_issue_count(g: TraceGraph, gaps: TraceGaps)
    requires
        g.wf(),
    ensures
        (gap_issue_list(gaps) + link_issue_list(g.reqs(), g.link_list())).sort_by(
            issue_order(),
        ).len() == gaps.hlr_without_llr@.len() + gaps.llr_without_parent@.len()
            + gaps.llr_missing_parent@.len() + gaps.llr_without_code@.len()
            + gaps.undefined_ids@.len() + gaps.code_refs_undefined@.len()
            + gaps.import_stale@.len() + gaps.import_orphaned@.len() + g.link_list().filter(
            undefined_source_pred(g.reqs()),
        ).len() + g.link_list().filter(undefined_target_pred(g.reqs())).len(),
{
    let all = gap_issue_list(gaps) + link_issue_list(g.reqs(), g.link_list());
    lemma_issue_order_total();
    all.lemma_sort_by_ensures(issue_order());
    broadcast use vstd::seq_lib::group_to_multiset_ensures;

    assert(all.to_multiset().len() == all.len());
    assert(all.sort_by(issue_order()).to_multiset().len() == all.sort_by(issue_order()).len());
    lemma_link_issue_count(g.reqs(), g.link_list());
}

proof fn lemma_contains_left(a: Seq<IssueView>, b: Seq<IssueView>, v: IssueView)
    requires
        a.contains(v),
    ensures
        (a + b).contains(v),
{
    let j = choose|j: int| 0 <= j < a.len() && a[j] == v;
    assert((a + b)[j] == v);
}

proof fn lemma_contains_right(a: Seq<IssueView>, b: Seq<IssueView>, v: IssueView)
    requires
        b.contains(v),
    ensures
        (a + b).contains(v),
{
    let j = choose|j: int| 0 <= j < b.len() && b[j] == v;
    assert((a + b)[a.len() + j] == v);
}

proof fn lemma_gap_view_in(ids: Seq<Seq<char>>, k: GapKind, x: Seq<char>)
    requires
        ids.contains(x),
    ensures
        gap_issue_views(ids, k).contains(gap_issue_view(k, x)),
{
    let j = choose|j: int| 0 <= j < ids.len() && ids[j] == x;
    assert(gap_issue_views(ids, k)[j] == gap_issue_view(k, x));
}

/// A requirement whose import source has changed, or no longer exists, is
/// reported by a check as an error naming the requirement and
/// `import_stale` or `import_orphaned`.
pub proof fn law_import_gaps_are_errors(g: TraceGraph, gaps: TraceGaps, x: Seq<char>)
    requires
        g.wf(),
    ensures
        gap_severity(GapKind::ImportStale) == Severity::Error,
        gap_severity(GapKind::ImportOrphaned) == Severity::Error,
        gap_issue_view(GapKind::ImportStale, x) == (
            Some(x),
            "'"@ + x + "' was imported from a source that has since changed (import_stale)"@,
            Severity::Error,
        ),
        gap_issue_view(GapKind::ImportOrphaned, x) == (
            Some(x),
            "'"@ + x + "' was imported from a source that no longer exists (import_orphaned)"@,
            Severity::Error,
        ),
        views(gaps.import_stale@).contains(x) ==> (gap_issue_list(gaps) + link_issue_list(
            g.reqs(),
            g.link_list(),
        )).sort_by(issue_order()).contains(gap_issue_view(GapKind::ImportStale, x)),
        views(gaps.import_orphaned@).contains(x) ==> (gap_issue_list(gaps) + link_issue_list(
            g.reqs(),
            g.link_list(),
        )).sort_by(issue_order()).contains(gap_issue_view(GapKind::ImportOrphaned, x)),
{
    let links = link_issue_list(g.reqs(), g.link_list());
    let all = gap_issue_list(gaps) + links;
    lemma_issue_order_total();
    all.lemma_sort_by_ensures(issue_order());
    broadcast use vstd::seq_lib::group_to_multiset_ensures;

    let h = gap_issue_views(views(gaps.hlr_without_llr@), GapKind::HlrWithoutLlr)
        + gap_issue_views(views(gaps.llr_without_parent@), GapKind::LlrWithoutParent)
        + gap_issue_views(views(gaps.llr_missing_parent@), GapKind::LlrMissingParent)
        + gap_issue_views(views(gaps.llr_without_code@), GapKind::LlrWithoutCode)
        + gap_issue_views(views(gaps.undefined_ids@), GapKind::UndefinedId)
        + gap_issue_views(views(gaps.code_refs_undefined@), GapKind::CodeRefUndefined);
    let st = gap_issue_views(views(gaps.import_stale@), GapKind::ImportStale);
    let or = gap_issue_views(views(gaps.import_orphaned@), GapKind::ImportOrphaned);
    assert(gap_issue_list(gaps) == h + st + or);
    if views(gaps.import_stale@).contains(x) {
        let v = gap_issue_view(GapKind::ImportStale, x);
        lemma_gap_view_in(views(gaps.import_stale@), GapKind::ImportStale, x);
        lemma_contains_right(h, st, v);
        lemma_contains_left(h + st, or, v);
        lemma_contains_left(gap_issue_list(gaps), links, v);
        assert(all.to_multiset().count(v) > 0);
        assert(all.sort_by(issue_order()).to_multiset().count(v) > 0);
    }
    if views(gaps.import_orphaned@).contains(x) {
        let v = gap_issue_view(GapKind::ImportOrphaned, x);
        lemma_gap_view_in(views(gaps.import_orphaned@), GapKind::ImportOrphaned, x);
        lemma_contains_right(h + st, or, v);
        lemma_contains_left(gap_issue_list(gaps), links, v);
        assert(all.to_multiset().count(v) > 0);
        assert(all.sort_by(issue_order()).to_multiset().count(v) > 0);
    }
}

/// Every gap list is sorted in the order of `String`, and so are the
/// issues of a check in issue order.
pub proof fn law_outputs_sorted(g: TraceGraph, gaps: TraceGaps)
    requires
        g.wf(),
    ensures
        sorted_by(sorted_ids(hlr_gap_ids(g.reqs())), id_order()),
        sorted_by(sorted_ids(llr_orphan_ids(g.reqs())), id_order()),
        sorted_by(sorted_ids(llr_missing_parent_ids(g.reqs())), id_order()),
        sorted_by(sorted_ids(llr_uncoded_ids(g.reqs(), g.refs())), id_order()),
        sorted_by(sorted_ids(undefined_link_ids(g.reqs(), g.link_list())), id_order()),
        sorted_by(sorted_ids(undefined_ref_ids(g.reqs(), g.refs())), id_order()),
        sorted_by(
            (gap_issue_list(gaps) + link_issue_list(g.reqs(), g.link_list())).sort_by(issue_order()),
            issue_order(),
        ),
{
    lemma_sorted_ids_len(hlr_gap_ids(g.reqs()));
    lemma_sorted_ids_len(llr_orphan_ids(g.reqs()));
    lemma_sorted_ids_len(llr_missing_parent_ids(g.reqs()));
    lemma_sorted_ids_len(llr_uncoded_ids(g.reqs(), g.refs()));
    lemma_sorted_ids_len(undefined_link_ids(g.reqs(), g.link_list()));
    lemma_sorted_ids_len(undefined_ref_ids(g.reqs(), g.refs()));
    lemma_issue_order_total();
    (gap_issue_list(gaps) + link_issue_list(g.reqs(), g.link_list())).lemma_sort_by_ensures(
        issue_order(),
    );
}

/// Impact analysis starts from the changed requirement itself.
pub proof fn law_impact_includes_root(reqs: Seq<Requirement>, root: Seq<char>)
    ensures
        impact_ids(reqs, root).len() >= 1,
        impact_ids(reqs, root)[0] == root,
{
}

/// The affected requirements are closed under children: a child of an
/// affected requirement is affected.
pub proof fn law_impact_closed(reqs: Seq<Requirement>, root: Seq<char>, x: Seq<char>, i: int)
    requires
        impact_ids(reqs, root).contains(x),
        0 <= i < reqs.len(),
        is_child_of(reqs[i], x),
    ensures
        impact_ids(reqs, root).contains(reqs[i].id@),
{
    let ids = impact_ids(reqs, root);
    let pred = strict_descendant_pred(reqs, root);
    let f = reqs.filter(pred);
    broadcast use vstd::seq_lib::group_filter_ensures;

    let k = choose|k: int| 0 <= k < ids.len() && ids[k] == x;
    assert(descends(reqs, root, x)) by {
        if k == 0 {
            lemma_root_descends(reqs, root);
        } else {
            assert(ids[k] == f[k - 1].id@);
            assert(pred(f[k - 1]));
        }
    }
    lemma_descends_extend(reqs, root, x, i);
    let y = reqs[i].id@;
    if y == root {
        assert(ids[0] == y);
    } else {
        assert(pred(reqs[i]));
        assert(f.contains(reqs[i]));
        let m = choose|m: int| 0 <= m < f.len() && f[m] == reqs[i];
        assert(ids[m + 1] == y);
    }
}

proof fn lemma_push_no_dup(d: Seq<Seq<char>>, x: Seq<char>)
    requires
        d.no_duplicates(),
        !d.contains(x),
    ensures
        d.push(x).no_duplicates(),
{
    assert forall|i: int, j: int| 0 <= i < d.push(x).len() && 0 <= j < d.push(x).len() && i != j
        implies d.push(x)[i] != d.push(x)[j] by {
        if i == d.len() {
            assert(d[j] == d.push(x)[j]);
        } else if j == d.len() {
            assert(d[i] == d.push(x)[i]);
        }
    }
}

proof fn lemma_impact_files(reqs: Seq<Requirement>, root: Seq<char>, refs: Seq<CodeRef>)
    ensures
        impact_files(reqs, root, refs).no_duplicates(),
        forall|f: Seq<char>|
            impact_files(reqs, root, refs).contains(f) <==> exists|j: int|
                0 <= j < refs.len() && #[trigger] refs[j].file@ == f && descends(
                    reqs,
                    root,
                    refs[j].req_id@,
                ),
    decreases refs.len(),
{
    if refs.len() > 0 {
        let r = refs.drop_last();
        lemma_impact_files(reqs, root, r);
        let d = impact_files(reqs, root, r);
        let c = refs.last();
        if descends(reqs, root, c.req_id@) && !d.contains(c.file@) {
            lemma_push_no_dup(d, c.file@);
        }
        let cur = impact_files(reqs, root, refs);
        assert forall|f: Seq<char>|
            cur.contains(f) <==> exists|j: int|
                0 <= j < refs.len() && #[trigger] refs[j].file@ == f && descends(
                    reqs,
                    root,
                    refs[j].req_id@,
                ) by {
            if cur.contains(f) {
                if d.contains(f) {
                    let j = choose|j: int|
                        0 <= j < r.len() && #[trigger] r[j].file@ == f && descends(
                            reqs,
                            root,
                            r[j].req_id@,
                        );
                    assert(refs[j] == r[j]);
                } else {
                    let k = choose|k: int| 0 <= k < cur.len() && cur[k] == f;
                    assert(refs[refs.len() - 1] == c);
                }
            }
            if exists|j: int|
                0 <= j < refs.len() && #[trigger] refs[j].file@ == f && descends(
                    reqs,
                    root,
                    refs[j].req_id@,
                ) {
                let j = choose|j: int|
                    0 <= j < refs.len() && #[trigger] refs[j].file@ == f && descends(
                        reqs,
                        root,
                        refs[j].req_id@,
                    );
                if j < r.len() {
                    assert(r[j] == refs[j]);
                    assert(d.contains(f));
                    let k = choose|k: int| 0 <= k < d.len() && d[k] == f;
                    assert(cur[k] == f);
                } else {
                    if d.contains(f) {
                        let k = choose|k: int| 0 <= k < d.len() && d[k] == f;
                        assert(cur[k] == f);
                    } else {
                        assert(cur[d.len() as int] == f);
                    }
                }
            }
        }
    }
}

proof fn lemma_impact_tests(reqs: Seq<Requirement>, root: Seq<char>, links: Seq<Link>)
    ensures
        impact_tests(reqs, root, links).no_duplicates(),
        forall|t: Seq<char>|
            impact_tests(reqs, root, links).contains(t) <==> exists|j: int|
                0 <= j < links.len() && #[trigger] links[j].source@ == t && links[j].link_type
                    == LinkType::Verifies && descends(reqs, root, links[j].target@),
    decreases links.len(),
{
    if links.len() > 0 {
        let r = links.drop_last();
        lemma_impact_tests(reqs, root, r);
        let d = impact_tests(reqs, root, r);
        let c = links.last();
        if c.link_type == LinkType::Verifies && descends(reqs, root, c.target@) && !d.contains(
            c.source@,
        ) {
            lemma_push_no_dup(d, c.source@);
        }
        let cur = impact_tests(reqs, root, links);
        assert forall|t: Seq<char>|
            cur.contains(t) <==> exists|j: int|
                0 <= j < links.len() && #[trigger] links[j].source@ == t && links[j].link_type
                    == LinkType::Verifies && descends(reqs, root, links[j].target@) by {
            if cur.contains(t) {
                if d.contains(t) {
                    let j = choose|j: int|
                        0 <= j < r.len() && #[trigger] r[j].source@ == t && r[j].link_type
                            == LinkType::Verifies && descends(reqs, root, r[j].target@);
                    assert(links[j] == r[j]);
                } else {
                    assert(links[links.len() - 1] == c);
                }
            }
            if exists|j: int|
                0 <= j < links.len() && #[trigger] links[j].source@ == t && links[j].link_type
                    == LinkType::Verifies && descends(reqs, root, links[j].target@) {
                let j = choose|j: int|
                    0 <= j < links.len() && #[trigger] links[j].source@ == t && links[j].link_type
                        == LinkType::Verifies && descends(reqs, root, links[j].target@);
                if j < r.len() {
                    assert(r[j] == links[j]);
                    assert(d.contains(t));
                    let k = choose|k: int| 0 <= k < d.len() && d[k] == t;
                    assert(cur[k] == t);
                } else {
                    if d.contains(t) {
                        let k = choose|k: int| 0 <= k < d.len() && d[k] == t;
                        assert(cur[k] == t);
                    } else {
                        assert(cur[d.len() as int] == t);
                    }
                }
            }
        }
    }
}

proof fn lemma_filter_ids(s: Seq<Requirement>, p: spec_fn(Requirement) -> bool)
    requires
        ids_unique(s),
    ensures
        s.filter(p).map_values(id_of()).no_duplicates(),
        forall|x: Seq<char>|
            s.filter(p).map_values(id_of()).contains(x) ==> exists|i: int|
                0 <= i < s.len() && #[trigger] s[i].id@ == x && p(s[i]),
    decreases s.len(),
{
    if s.len() > 0 {
        let r = s.drop_last();
        let q = s.last();
        assert(ids_unique(r)) by {
            assert forall|i: int, j: int| 0 <= i < j < r.len() implies r[i].id@ != r[j].id@ by {
                assert(r[i] == s[i] && r[j] == s[j]);
            }
        }
        lemma_filter_ids(r, p);
        assert(r.push(q) =~= s);
        r.lemma_filter_push(q, p);
        let fr = r.filter(p).map_values(id_of());
        if p(q) {
            assert(s.filter(p).map_values(id_of()) =~= fr.push(q.id@));
            if fr.contains(q.id@) {
                let i = choose|i: int| 0 <= i < r.len() && #[trigger] r[i].id@ == q.id@ && p(r[i]);
                assert(s[i] == r[i]);
                assert(s[s.len() - 1] == q);
            }
            lemma_push_no_dup(fr, q.id@);
        }
        let fs = s.filter(p).map_values(id_of());
        assert forall|x: Seq<char>| fs.contains(x) implies exists|i: int|
            0 <= i < s.len() && #[trigger] s[i].id@ == x && p(s[i]) by {
            if fr.contains(x) {
                let i = choose|i: int| 0 <= i < r.len() && #[trigger] r[i].id@ == x && p(r[i]);
                assert(s[i] == r[i]);
            } else {
                assert(s[s.len() - 1] == q);
            }
        }
    }
}

/// In a graph with one requirement per id, an impact analysis lists each
/// affected requirement once.
pub proof fn law_impact_ids_once(reqs: Seq<Requirement>, root: Seq<char>)
    requires
        ids_unique(reqs),
    ensures
        impact_ids(reqs, root).no_duplicates(),
{
    let pr = strict_descendant_pred(reqs, root);
    lemma_filter_ids(reqs, pr);
    let f = reqs.filter(pr).map_values(id_of());
    let all = impact_ids(reqs, root);
    assert(all =~= seq![root] + f);
    assert forall|i: int, j: int| 0 <= i < all.len() && 0 <= j < all.len() && i != j implies all[i]
        != all[j] by {
        if i == 0 && j > 0 {
            assert(all[j] == f[j - 1]);
            assert(f.contains(all[j]));
        } else if j == 0 && i > 0 {
            assert(all[i] == f[i - 1]);
            assert(f.contains(all[i]));
        } else if i > 0 && j > 0 {
            assert(all[i] == f[i - 1] && all[j] == f[j - 1]);
        }
    }
}

/// The files and tests an impact analysis reports are each listed once:
/// the files of the code references naming an affected requirement, and
/// the sources of `Verifies` links whose target is affected.
pub proof fn law_impact_files_and_tests(
    reqs: Seq<Requirement>,
    root: Seq<char>,
    refs: Seq<CodeRef>,
    links: Seq<Link>,
)
    ensures
        impact_files(reqs, root, refs).no_duplicates(),
        impact_tests(reqs, root, links).no_duplicates(),
        forall|f: Seq<char>|
            impact_files(reqs, root, refs).contains(f) <==> exists|j: int|
                0 <= j < refs.len() && #[trigger] refs[j].file@ == f && descends(
                    reqs,
                    root,
                    refs[j].req_id@,
                ),
        forall|t: Seq<char>|
            impact_tests(reqs, root, links).contains(t) <==> exists|j: int|
                0 <= j < links.len() && #[trigger] links[j].source@ == t && links[j].link_type
                    == LinkType::Verifies && descends(reqs, root, links[j].target@),
{
    lemma_impact_files(reqs, root, refs);
    lemma_impact_tests(reqs, root, links);
}

/// A trace tree exists exactly for a defined requirement, and it starts
/// with the indentation, the id, `: ` and the requirement's title.
pub proof fn law_trace_tree_head(reqs: Seq<Requirement>, refs: Seq<CodeRef>, id: Seq<char>, depth: nat)
    ensures
        trace_tree_text(reqs, refs, id, depth) is Some <==> has_req(reqs, id),
        trace_tree_text(reqs, refs, id, depth) matches Some(t) ==> {
            let head = indent_of(depth) + id + ": "@ + reqs[id_index(reqs, id)].title@;
            &&& head.len() <= t.len()
            &&& t.subrange(0, head.len() as int) == head
        },
{
    if has_req(reqs, id) {
        let i = id_index(reqs, id);
        assert(reqs[i].id@ == id);
        let t = trace_tree_text(reqs, refs, id, depth)->0;
        let head = indent_of(depth) + id + ": "@ + reqs[i].title@;
        let rest = t.subrange(head.len() as int, t.len() as int);
        assert(t =~= head + rest);
        assert(t.subrange(0, head.len() as int) =~= head);
    }
}

/// Every affected requirement other than the root descends from it.
pub proof fn law_impact_only_descendants(reqs: Seq<Requirement>, root: Seq<char>, x: Seq<char>)
    requires
        impact_ids(reqs, root).contains(x),
    ensures
        descends(reqs, root, x),
{
    let ids = impact_ids(reqs, root);
    let pred = strict_descendant_pred(reqs, root);
    let f = reqs.filter(pred);
    broadcast use vstd::seq_lib::group_filter_ensures;

    let k = choose|k: int| 0 <= k < ids.len() && ids[k] == x;
    if k == 0 {
        lemma_root_descends(reqs, root);
    } else {
        assert(ids[k] == f[k - 1].id@);
        assert(pred(f[k - 1]));
    }
}

/// A requirement given to a graph is in it, and only those: the graph
/// keeps one requirement per id.
pub proof fn law_graph_keeps_ids(s: Seq<Requirement>, id: Seq<char>)
    ensures
        ids_unique(keep_last(s)),
        has_req(keep_last(s), id) <==> has_req(s, id),
{
    lemma_keep_last(s);
}

// ───────────────────────── identifiers ─────────────────────────

proof fn lemma_max_id_bound(ids: Seq<Seq<char>>, p: Seq<char>, n: int, i: int)
    requires
        0 <= i < n <= ids.len(),
        id_number(ids[i], p) is Some,
    ensures
        id_number(ids[i], p)->0 as nat <= max_id_number_in(ids, p, n),
    decreases n,
{
    if i < n - 1 {
        lemma_max_id_bound(ids, p, n - 1, i);
    }
}

proof fn lemma_no_dash_split(s: Seq<char>)
    requires
        !s.contains('-'),
    ensures
        split_dash(s) == seq![s],
{
    lemma_first_index(s, '-', s.len() as int);
}

/// The next id after a list of ids is none of them, and it is a
/// well-formed id of its type with the next number.
pub proof fn lemma_next_id_in_new(t: RequirementType, ids: Seq<Seq<char>>)
    requires
        next_id_fits_in(t, ids),
    ensures
        !ids.contains(next_id_in(t, ids)),
        parse_id_spec(next_id_in(t, ids)) == Some(
            (t, (max_id_number_in(ids, type_prefix(t), ids.len() as int) + 1) as u32),
        ),
{
    let p = type_prefix(t);
    let m = max_id_number_in(ids, p, ids.len() as int);
    let d = zero_padded(m + 1, 4);
    let s = next_id_in(t, ids);
    lemma_zero_padded_parse(m + 1, 4);
    reveal_strlit("HLR");
    reveal_strlit("LLR");
    reveal_strlit("TST");
    reveal_strlit("hlr");
    reveal_strlit("llr");
    reveal_strlit("tst");
    reveal_strlit("test");
    assert(p.len() == 3);
    assert(!p.contains('-'));
    assert(!d.contains('-')) by {
        if d.contains('-') {
            let k = choose|k: int| 0 <= k < d.len() && d[k] == '-';
            assert(is_ascii_digit(d[k]));
        }
    }
    assert(s =~= p + seq!['-'] + d);
    assert forall|j: int| 0 <= j < p.len() implies s[j] != '-' by {
        assert(s[j] == p[j]);
    }
    lemma_first_index(s, '-', p.len() as int);
    assert(s.take(p.len() as int) =~= p);
    assert(s.skip(p.len() as int + 1) =~= d);
    lemma_no_dash_split(d);
    assert(split_dash(s) =~= seq![p, d]);
    assert(has_prefix(s, p));
    assert(id_number(s, p) == Some((m + 1) as u32));
    if ids.contains(s) {
        let i = choose|i: int| 0 <= i < ids.len() && ids[i] == s;
        lemma_max_id_bound(ids, p, ids.len() as int, i);
    }
    match t {
        RequirementType::Hlr => {
            assert(eq_ignore_case_lower(p, "hlr"@));
        },
        RequirementType::Llr => {
            assert(eq_ignore_case_lower(p, "llr"@));
            assert(ascii_lower(p[0]) != "hlr"@[0]);
        },
        RequirementType::Tst => {
            assert(eq_ignore_case_lower(p, "tst"@));
            assert(ascii_lower(p[0]) != "hlr"@[0]);
            assert(ascii_lower(p[0]) != "llr"@[0]);
        },
    }
}


/// A generated id is new — it is none of the existing ids — and it is a
/// well-formed id of its type with the next number.
pub proof fn law_generated_id_is_new(t: RequirementType, ids: Seq<String>)
    requires
        next_id_fits(t, ids),
    ensures
        !views(ids).contains(next_id(t, ids)),
        parse_id_spec(next_id(t, ids)) == Some(
            (t, (max_id_number(ids, type_prefix(t), ids.len() as int) + 1) as u32),
        ),
{
    lemma_next_id_in_new(t, views(ids));
}

// ───────────────────────── AI import ─────────────────────────

/// Every suggestion of an import batch ends up in exactly one of the three
/// lists: imported, skipped or rejected with an error.
pub proof fn law_import_partitions(
    sugs: Seq<AiSuggestion>,
    existing: Seq<String>,
    provenance: Option<Seq<char>>,
)
    ensures
        imported_list(sugs, existing, provenance).len() + skipped_list(sugs, existing).len()
            + error_list(sugs, existing).len() == sugs.len(),
    decreases sugs.len(),
{
    if sugs.len() > 0 {
        law_import_partitions(sugs.drop_last(), existing, provenance);
    }
}

proof fn lemma_import_attributes_source(s: AiSuggestion, provenance: Option<Seq<char>>)
    ensures
        import_attributes(s, provenance).contains_key("source"@),
        import_attributes(s, provenance)["source"@] == "ai-suggestion"@,
{
    reveal_strlit("source");
    reveal_strlit("provenance");
    reveal_strlit("ai_rationale");
    assert("source"@.len() != "provenance"@.len());
    assert("source"@.len() != "ai_rationale"@.len());
}

proof fn lemma_import_attributes_provenance(s: AiSuggestion, p: Seq<char>)
    ensures
        import_attributes(s, Some(p)).contains_key("provenance"@),
        import_attributes(s, Some(p))["provenance"@] == p,
{
    reveal_strlit("provenance");
    reveal_strlit("ai_rationale");
    assert("provenance"@.len() != "ai_rationale"@.len());
}

/// Every imported requirement records the batch's provenance (the option's,
/// else the batch source) as its `provenance` attribute, when there is one.
pub proof fn law_imported_carry_provenance(
    sugs: Seq<AiSuggestion>,
    existing: Seq<String>,
    provenance: Option<Seq<char>>,
)
    ensures
        forall|k: int|
            0 <= k < imported_list(sugs, existing, provenance).len() ==> {
                let v = #[trigger] imported_list(sugs, existing, provenance)[k];
                provenance matches Some(p) ==> v.7.contains_key("provenance"@) && v.7["provenance"@]
                    == p
            },
    decreases sugs.len(),
{
    if sugs.len() > 0 {
        law_imported_carry_provenance(sugs.drop_last(), existing, provenance);
        match provenance {
            Some(p) => lemma_import_attributes_provenance(sugs.last(), p),
            None => {},
        }
        let prev = imported_list(sugs.drop_last(), existing, provenance);
        let cur = imported_list(sugs, existing, provenance);
        assert forall|k: int| 0 <= k < cur.len() implies (provenance matches Some(p) ==> (
        #[trigger] cur[k]).7.contains_key("provenance"@) && cur[k].7["provenance"@] == p) by {
            if k < prev.len() {
                assert(cur[k] == prev[k]);
            }
        }
    }
}

/// The ids taken after a batch include the existing ids.
proof fn lemma_taken_keeps_existing(sugs: Seq<AiSuggestion>, existing: Seq<String>, x: Seq<char>)
    requires
        views(existing).contains(x),
    ensures
        taken_after(sugs, existing).contains(x),
    decreases sugs.len(),
{
    if sugs.len() > 0 {
        lemma_taken_keeps_existing(sugs.drop_last(), existing, x);
        let prev = taken_after(sugs.drop_last(), existing);
        let k = choose|k: int| 0 <= k < prev.len() && prev[k] == x;
        match outcome_of(sugs.last(), existing, prev) {
            ImportOutcome::Imported { id, req_type } => {
                assert(prev.push(id)[k] == x);
            },
            _ => {},
        }
    }
}

/// Everything an import brings in is a draft marked `source: ai-suggestion`,
/// under an id that did not exist before, and an imported LLR names a parent
/// that exists.
pub proof fn law_imported_are_new_drafts(
    sugs: Seq<AiSuggestion>,
    existing: Seq<String>,
    provenance: Option<Seq<char>>,
)
    requires
        ids_available(sugs, existing),
    ensures
        forall|k: int|
            0 <= k < imported_list(sugs, existing, provenance).len() ==> {
                let v = #[trigger] imported_list(sugs, existing, provenance)[k];
                &&& v.4 == RequirementStatus::Draft
                &&& v.7.contains_key("source"@)
                &&& v.7["source"@] == "ai-suggestion"@
                &&& !views(existing).contains(v.0)
                &&& (v.1 == RequirementType::Llr ==> (v.5 matches Some(p) && views(
                    existing,
                ).contains(p)))
            },
    decreases sugs.len(),
{
    if sugs.len() > 0 {
        let rest = sugs.drop_last();
        assert forall|i: int|
            0 <= i < rest.len() && #[trigger] rest[i].id is None && parse_type(rest[i].req_type@)
                is Some implies next_id_fits_in(
                parse_type(rest[i].req_type@)->0,
                taken_after(rest.take(i), existing),
            ) by {
            assert(rest[i] == sugs[i]);
            assert(rest.take(i) =~= sugs.take(i));
        }
        law_imported_are_new_drafts(rest, existing, provenance);
        let s = sugs.last();
        let taken = taken_after(rest, existing);
        assert(sugs[sugs.len() - 1] == s);
        assert(sugs.take(sugs.len() - 1) =~= rest);
        match outcome_of(s, existing, taken) {
            ImportOutcome::Imported { id, req_type } => {
                lemma_import_attributes_source(s, provenance);
                let t = parse_type(s.req_type@)->0;
                assert(req_type == t);
                match s.id {
                    Some(p) => {},
                    None => {
                        lemma_next_id_in_new(t, taken);
                    },
                }
                if views(existing).contains(id) {
                    lemma_taken_keeps_existing(rest, existing, id);
                }
            },
            _ => {},
        }
    }
}


// ───────────────────────── triviality ─────────────────────────

proof fn lemma_tautology_findings(
    span: Seq<Seq<char>>,
    first_line: nat,
    req_id: Seq<char>,
    file: Seq<char>,
)
    ensures
        forall|k: int|
            0 <= k < tautology_findings(span, first_line, req_id, file).len() ==> {
                let f = #[trigger] tautology_findings(span, first_line, req_id, file)[k];
                &&& f.0 == req_id
                &&& f.1 == file
                &&& f.3 == TrivialityPattern::TautologicalAssertion
                &&& first_line <= f.2 < first_line + span.len()
            },
    decreases span.len(),
{
    if span.len() > 0 {
        lemma_tautology_findings(span.drop_last(), first_line, req_id, file);
    }
}

/// Files under build scripts, benchmarks and examples give no findings.
pub proof fn law_skipped_paths_have_no_findings(
    path: Seq<char>,
    content: Seq<char>,
    line: nat,
    line_end: Option<usize>,
    req_id: Seq<char>,
)
    requires
        skipped_path(path),
    ensures
        triviality_findings(path, content, line, line_end, req_id) == Seq::<
            crate::triviality::FindingView,
        >::empty(),
{
}

/// Every finding names the requirement and the file it was asked about and
/// a line at or after the span's first line; a zero-substantive-lines
/// finding stands alone, since no other check runs on an empty span.
pub proof fn law_findings_shape(
    path: Seq<char>,
    content: Seq<char>,
    line: nat,
    line_end: Option<usize>,
    req_id: Seq<char>,
)
    ensures
        forall|k: int|
            0 <= k < triviality_findings(path, content, line, line_end, req_id).len() ==> {
                let f = #[trigger] triviality_findings(path, content, line, line_end, req_id)[k];
                &&& f.0 == req_id
                &&& f.1 == path
                &&& f.2 >= line
                &&& (f.3 == TrivialityPattern::ZeroSubstantiveLines ==> triviality_findings(
                    path,
                    content,
                    line,
                    line_end,
                    req_id,
                ).len() == 1)
            },
{
    let all = crate::text::lines(content);
    let n = all.len();
    let start = crate::triviality::span_start(line);
    if !skipped_path(path) && start < n {
        let span = all.subrange(start as int, crate::triviality::span_end(line, line_end, n) as int);
        if span.filter(crate::triviality::substantive_pred()).len() != 0 {
            let pre = all.subrange(crate::triviality::sat_sub(start, 3) as int, start as int);
            let dead = crate::triviality::any_line(
                span,
                crate::triviality::kind_pred(crate::triviality::LineKind::AllowsDeadCode),
            ) || crate::triviality::any_line(
                pre,
                crate::triviality::kind_pred(crate::triviality::LineKind::AllowsDeadCode),
            );
            let test = crate::triviality::any_line(
                span,
                crate::triviality::kind_pred(crate::triviality::LineKind::MarksTest),
            ) || (start >= 3 && crate::triviality::any_line(
                pre,
                crate::triviality::kind_pred(crate::triviality::LineKind::MarksTest),
            ));
            let e = empty_test_findings(span, test, line, req_id, path);
            let t = tautology_findings(span, line, req_id, path);
            let b = if test {
                seq![]
            } else {
                body_findings(span, dead, line, req_id, path)
            };
            lemma_tautology_findings(span, line, req_id, path);
            let f = span_findings(all, start, span, line, req_id, path);
            assert(f == e + t + b);
            assert forall|k: int| 0 <= k < f.len() implies {
                &&& (#[trigger] f[k]).0 == req_id
                &&& f[k].1 == path
                &&& f[k].2 >= line
                &&& f[k].3 != TrivialityPattern::ZeroSubstantiveLines
            } by {
                if k < e.len() {
                    assert(f[k] == e[k]);
                } else if k < e.len() + t.len() {
                    assert(f[k] == t[k - e.len()]);
                } else {
                    assert(f[k] == b[k - e.len() - t.len()]);
                    if !test {
                        match crate::triviality::function_body(span) {
                            Some(body) => {
                                let sf = stub_findings(body, dead, line, req_id, path);
                                let lf = literal_findings(body, line, req_id, path);
                                let j = k - e.len() - t.len();
                                if j < sf.len() {
                                    assert(b[j] == sf[j]);
                                } else {
                                    assert(b[j] == lf[j - sf.len()]);
                                }
                            },
                            None => {},
                        }
                    }
                }
            }
        }
    }
}


// ───────────────────────── coverage and mutation scores ─────────────────────────

proof fn lemma_segment_hits_bound(files: Seq<CovFile>, key: Seq<char>, start: usize, end: nat)
    ensures
        segment_hits(files, key, start, end) <= if end > start {
            (end - start) as nat
        } else {
            0nat
        },
    decreases end,
{
    if end > start {
        lemma_segment_hits_bound(files, key, start, (end - 1) as nat);
    }
}

proof fn lemma_region_hits_bound(funcs: Seq<CovFunction>, key: Seq<char>, start: usize, end: nat)
    ensures
        region_hits(funcs, key, start, end) <= if end > start {
            (end - start) as nat
        } else {
            0nat
        },
    decreases end,
{
    if end > start {
        lemma_region_hits_bound(funcs, key, start, (end - 1) as nat);
    }
}

/// A reported line-coverage score covers at least one line and never has
/// more lines hit than lines in total, so its percentage lies in 0..=100;
/// there is at most one score per code reference.
pub proof fn law_coverage_hit_within_total(d: CovData, refs: Seq<CodeRef>)
    ensures
        coverage_scores(d, refs).len() <= refs.len(),
        forall|k: int|
            0 <= k < coverage_scores(d, refs).len() ==> {
                let v = #[trigger] coverage_scores(d, refs)[k];
                0 < v.2 && v.3 <= v.2
            },
    decreases refs.len(),
{
    if refs.len() > 0 {
        law_coverage_hit_within_total(d, refs.drop_last());
        let cr = refs.last();
        let key = norm_path(cr.file@);
        lemma_segment_hits_bound(data_files(d), key, cr.line, ref_end(cr));
        lemma_region_hits_bound(data_functions(d), key, cr.line, ref_end(cr));
        let prev = coverage_scores(d, refs.drop_last());
        let cur = coverage_scores(d, refs);
        assert forall|k: int| 0 <= k < cur.len() implies 0 < (#[trigger] cur[k]).2 && cur[k].3
            <= cur[k].2 by {
            if k < prev.len() {
                assert(cur[k] == prev[k]);
            }
        }
    }
}

/// Without an end line the triviality check looks at the window of 20
/// lines that starts at the tagged line, the same span as an end line 19
/// lines further.
pub proof fn law_default_window(path: Seq<char>, content: Seq<char>, line: usize, req_id: Seq<char>)
    requires
        line >= 1,
        line + 19 <= usize::MAX,
    ensures
        triviality_findings(path, content, line as nat, None, req_id) == triviality_findings(
            path,
            content,
            line as nat,
            Some((line + 19) as usize),
            req_id,
        ),
{
    let n = lines(content).len();
    assert(span_end(line as nat, None, n) == span_end(line as nat, Some((line + 19) as usize), n));
}

proof fn lemma_outcome_sums(
    recs: Seq<MutantRecord>,
    refs: Seq<CodeRef>,
    id: Seq<char>,
    a: Seq<char>,
    b: Seq<char>,
)
    requires
        a != b,
    ensures
        hit_sum(recs, refs, id, Some(a)) + hit_sum(recs, refs, id, Some(b)) <= hit_sum(
            recs,
            refs,
            id,
            None,
        ),
    decreases recs.len(),
{
    if recs.len() > 0 {
        lemma_outcome_sums(recs.drop_last(), refs, id, a, b);
    }
}

/// Of the mutants in a requirement's code, those caught and those missed
/// together are at most all of them, and a reported score has mutants.
pub proof fn law_mutation_outcomes_within_total(
    ids: Seq<Seq<char>>,
    recs: Seq<MutantRecord>,
    refs: Seq<CodeRef>,
)
    ensures
        forall|k: int|
            0 <= k < scores_for(ids, recs, refs).len() ==> {
                let v = #[trigger] scores_for(ids, recs, refs)[k];
                0 < v.1 && v.2 + v.3 <= v.1
            },
    decreases ids.len(),
{
    if ids.len() > 0 {
        law_mutation_outcomes_within_total(ids.drop_last(), recs, refs);
        reveal_strlit("Caught");
        reveal_strlit("Missed");
        assert("Caught"@[0] != "Missed"@[0]);
        lemma_outcome_sums(recs, refs, ids.last(), "Caught"@, "Missed"@);
        let prev = scores_for(ids.drop_last(), recs, refs);
        let cur = scores_for(ids, recs, refs);
        assert forall|k: int| 0 <= k < cur.len() implies 0 < (#[trigger] cur[k]).1 && cur[k].2
            + cur[k].3 <= cur[k].1 by {
            if k < prev.len() {
                assert(cur[k] == prev[k]);
            }
        }
    }
}


// ───────────────────────── Markdown files ─────────────────────────

proof fn lemma_clean_rendered_body(text: Seq<char>)
    requires
        forall|j: int| 0 <= j < text.len() ==> #[trigger] text[j] != '\r',
    ensures
        clean_body_spec(
            seq!['\n'] + if trim(text).len() > 0 {
                trim(text) + seq!['\n']
            } else {
                seq![]
            },
        ) == trim(text),
{
    let t = trim(text);
    let b = if t.len() > 0 {
        t + seq!['\n']
    } else {
        seq![]
    };
    reveal_strlit("# ");
    lemma_lines_after_newline(b);
    let ls = lines(seq!['\n'] + b);
    assert(ls[0] == Seq::<char>::empty());
    assert(trim(Seq::<char>::empty()) == Seq::<char>::empty());
    assert(ls.drop_first() =~= lines(b));
    if t.len() == 0 {
        assert(lines(b) == Seq::<Seq<char>>::empty());
        assert(drop_leading_blank(ls) == drop_leading_blank(ls.drop_first()));
        assert(drop_leading_blank(Seq::<Seq<char>>::empty()) == Seq::<Seq<char>>::empty());
        assert(drop_trailing_blank(Seq::<Seq<char>>::empty()) == Seq::<Seq<char>>::empty());
    } else {
        lemma_trim_ends(text);
        let d = lemma_trim_offset(text);
        assert forall|j: int| 0 <= j < t.len() implies #[trigger] t[j] != '\r' by {
            assert(t[j] == text[j + d]);
        }
        assert(is_ws('\n'));
        lemma_lines_of_text(t);
        let l = lines(t);
        lemma_not_blank(l[0], 0);
        lemma_not_blank(l.last(), l.last().len() - 1);
        assert(drop_leading_blank(ls) == drop_leading_blank(ls.drop_first()));
        assert(drop_leading_blank(l) == l);
        assert(drop_trailing_blank(l) == l);
    }
}

proof fn lemma_close_found(g: Seq<char>, tail: Seq<char>)
    requires
        crate::markdown::dash_free_lines(g),
        g.len() > 0,
        tail.len() >= 5,
        tail.take(5) == "---\n\n"@,
    ensures
        close_pos(g + tail) == g.len() - 1,
{
    reveal_strlit("---\n\n");
    reveal_strlit("\n---\n");
    let rest = g + tail;
    let p = "\n---\n"@;
    let e = g.len() - 1;
    assert forall|j: int| 0 <= j < e implies !occurs_at(rest, p, j) by {
        if occurs_at(rest, p, j) {
            assert(rest.subrange(j, j + 5)[0] == rest[j]);
            assert(rest.subrange(j, j + 5)[1] == rest[j + 1]);
            assert(rest[j] == g[j] && rest[j + 1] == g[j + 1]);
        }
    }
    assert(tail[0] == tail.take(5)[0] && tail[1] == tail.take(5)[1] && tail[2] == tail.take(5)[2]
        && tail[3] == tail.take(5)[3]);
    assert(tail[0] == '-' && tail[1] == '-' && tail[2] == '-' && tail[3] == '\n');
    assert(rest.subrange(e, e + 5) =~= p);
    lemma_first_occ(rest, p, 0, e);
}

proof fn lemma_split_rendered(g: Seq<char>, tail: Seq<char>)
    requires
        crate::markdown::dash_free_lines(g),
        g.len() > 0,
        tail.len() >= 5,
        tail.take(5) == "---\n\n"@,
    ensures
        split_frontmatter_spec("---\n"@ + g + tail) == Some((g.drop_last(), tail.skip(4))),
{
    reveal_strlit("---\n");
    reveal_strlit("---\r\n");
    reveal_strlit("---\n\n");
    reveal_strlit("\n---\r\n");
    reveal_strlit("\r\n---\r\n");
    let c = "---\n"@ + g + tail;
    assert(c.take(4) =~= "---\n"@);
    assert(c[3] == '\n');
    let rest = after_open(c);
    assert(rest =~= g + tail);
    lemma_close_found(g, tail);
    let e = g.len() - 1;
    let q = rest.skip(e);
    assert(q[0] == '\n');
    assert(q[4] == tail[3]);
    assert(tail[3] == tail.take(5)[3]);
    assert(tail[3] == '\n');
    assert(q.len() >= 6);
    assert(q.take(6)[4] != "\n---\r\n"@[4]);
    assert(q.take(6)[0] != "\r\n---\r\n"@[0]);
    assert(body_start(rest, e) == e + 5);
    assert(rest.take(e) =~= g.drop_last());
    assert(rest.skip(e + 5) =~= tail.skip(4));
}

/// Reading back a rendered requirement file: the file splits into the
/// frontmatter lines that were written and a body whose cleaned text is
/// the requirement's trimmed text — provided the fields written raw into
/// the frontmatter (id, parent, aliases, attribute keys) are single lines
/// and the text has no carriage returns.
pub proof fn law_markdown_text_roundtrip(r: Requirement)
    requires
        raw_fields_single_line(r),
        forall|j: int| 0 <= j < r.text@.len() ==> #[trigger] r.text@[j] != '\r',
    ensures
        split_frontmatter_spec(markdown_text(r)) matches Some((fm, body)) && fm
            == frontmatter_lines(r).drop_last() && clean_body_spec(body) == trim(r.text@),
{
    reveal_strlit("---\n");
    reveal_strlit("---\n\n");
    lemma_frontmatter_shape(r);
    let tail = tail_part(r);
    assert(tail.take(5) =~= "---\n\n"@);
    lemma_split_rendered(frontmatter_lines(r), tail);
    assert(tail.skip(4) =~= seq!['\n'] + if trim(r.text@).len() > 0 {
        trim(r.text@) + seq!['\n']
    } else {
        seq![]
    });
    lemma_clean_rendered_body(r.text@);
}


// ───────────────────────── listing order ─────────────────────────

proof fn lemma_id_insert_pos_bounds(t: Seq<Requirement>, x: Requirement)
    ensures
        0 <= id_insert_pos(t, x) <= t.len(),
        forall|j: int| 0 <= j < id_insert_pos(t, x) ==> !lex_lt(x.id@, #[trigger] t[j].id@),
        id_insert_pos(t, x) < t.len() ==> lex_lt(x.id@, t[id_insert_pos(t, x)].id@),
    decreases t.len(),
{
    if t.len() > 0 && !lex_lt(x.id@, t[0].id@) {
        let d = t.drop_first();
        lemma_id_insert_pos_bounds(d, x);
        assert forall|j: int| 0 <= j < id_insert_pos(t, x) implies !lex_lt(
            x.id@,
            #[trigger] t[j].id@,
        ) by {
            if j > 0 {
                assert(t[j] == d[j - 1]);
            }
        }
        if id_insert_pos(t, x) < t.len() {
            assert(t[id_insert_pos(t, x)] == d[id_insert_pos(d, x)]);
        }
    }
}

/// Listing requirements sorted by id gives the same requirements, with
/// ids in ascending order.
pub proof fn law_sorted_by_id(s: Seq<Requirement>)
    ensures
        sorted_by_id(s).to_multiset() == s.to_multiset(),
        forall|i: int, j: int|
            0 <= i < j < sorted_by_id(s).len() ==> !lex_lt(
                #[trigger] sorted_by_id(s)[j].id@,
                #[trigger] sorted_by_id(s)[i].id@,
            ),
    decreases s.len(),
{
    if s.len() > 0 {
        let t = sorted_by_id(s.drop_last());
        let x = s.last();
        law_sorted_by_id(s.drop_last());
        lemma_id_insert_pos_bounds(t, x);
        let k = id_insert_pos(t, x);
        let u = t.insert(k, x);
        lemma_insert_to_multiset(t, k, x);
        assert(s =~= s.drop_last().push(x));
        assert(s.drop_last().push(x) =~= s.drop_last() + seq![x]);
        assert(seq![x].to_multiset() =~= vstd::multiset::Multiset::<Requirement>::empty().insert(x)) by {
            broadcast use vstd::seq_lib::group_to_multiset_ensures;
            assert(seq![x] =~= Seq::<Requirement>::empty().push(x));
        }
        vstd::seq_lib::lemma_multiset_commutative(s.drop_last(), seq![x]);
        assert forall|i: int, j: int| 0 <= i < j < u.len() implies !lex_lt(
            #[trigger] u[j].id@,
            #[trigger] u[i].id@,
        ) by {
            if j < k {
                assert(u[i] == t[i] && u[j] == t[j]);
            } else if j == k {
                assert(u[i] == t[i]);
            } else if i > k {
                assert(u[i] == t[i - 1] && u[j] == t[j - 1]);
            } else if i == k {
                assert(u[j] == t[j - 1]);
                lemma_lex_trichotomy(t[k].id@, t[j - 1].id@);
                lemma_lex_trichotomy(x.id@, t[j - 1].id@);
                if lex_lt(t[j - 1].id@, x.id@) {
                    lemma_lex_transitive(t[j - 1].id@, x.id@, t[k].id@);
                }
            } else {
                assert(u[i] == t[i] && u[j] == t[j - 1]);
            }
        }
    }
}


// ───────────────────────── criteria and hooks ─────────────────────────

/// A criterion is linked exactly when some criterion link carries its
/// index, and then it names the first such link's file and line.
pub proof fn law_criterion_linked_iff_tagged(
    links: Seq<CriterionLink>,
    index: nat,
    text: Seq<char>,
)
    ensures
        status_of(links, index, text).2 <==> exists|j: int|
            0 <= j < links.len() && #[trigger] links[j].0 == index,
        status_of(links, index, text).2 ==> exists|j: int|
            0 <= j < links.len() && #[trigger] links[j].0 == index && (forall|i: int|
                0 <= i < j ==> links[i].0 != index) && status_of(links, index, text).3 == Some(
                links[j].1@,
            ) && status_of(links, index, text).4 == Some(links[j].2 as nat),
    decreases links.len(),
{
    if links.len() > 0 {
        let d = links.drop_first();
        law_criterion_linked_iff_tagged(d, index, text);
        if links[0].0 == index {
            assert(links[0].0 == index);
        } else {
            if exists|j: int| 0 <= j < links.len() && #[trigger] links[j].0 == index {
                let j = choose|j: int| 0 <= j < links.len() && #[trigger] links[j].0 == index;
                assert(d[j - 1].0 == index);
            }
            if status_of(links, index, text).2 {
                let j = choose|j: int|
                    0 <= j < d.len() && #[trigger] d[j].0 == index && (forall|i: int|
                        0 <= i < j ==> d[i].0 != index) && status_of(d, index, text).3 == Some(
                        d[j].1@,
                    ) && status_of(d, index, text).4 == Some(d[j].2 as nat);
                assert(links[j + 1] == d[j]);
                assert forall|i: int| 0 <= i < j + 1 implies links[i].0 != index by {
                    if i > 0 {
                        assert(links[i] == d[i - 1]);
                    }
                }
            }
        }
    }
}

/// A hook the tool installed, advisory or strict, is one it later
/// recognises as its own and removes: it runs `req check`.
pub proof fn law_installed_hook_is_managed(strict: bool)
    ensures
        crate::text::contains(
            if strict {
                PRE_COMMIT_HOOK_STRICT@
            } else {
                PRE_COMMIT_HOOK@
            },
            "req check"@,
        ),
{
    reveal_strlit("req check");
    reveal_strlit("#!/bin/sh\n# req pre-commit hook (advisory mode)\necho \"Checking traceability...\"\nreq check\nexit 0\n");
    reveal_strlit("#!/bin/sh\n# req pre-commit hook (strict mode)\necho \"Checking traceability (strict mode)...\"\nreq check --strict\nexit $?\n");
    if strict {
        assert(PRE_COMMIT_HOOK_STRICT@.subrange(92, 101) =~= "req check"@);
        assert(occurs_at(PRE_COMMIT_HOOK_STRICT@, "req check"@, 92));
    } else {
        assert(PRE_COMMIT_HOOK@.subrange(80, 89) =~= "req check"@);
        assert(occurs_at(PRE_COMMIT_HOOK@, "req check"@, 80));
    }
}


proof fn lemma_ref_before_order(a: CodeRef, b: CodeRef, c: CodeRef)
    ensures
        !(ref_before(a, b) && ref_before(b, a)),
        !ref_before(a, a),
        ref_before(a, b) && ref_before(b, c) ==> ref_before(a, c),
{
    lemma_lex_trichotomy(a.req_id@, b.req_id@);
    lemma_lex_trichotomy(b.req_id@, c.req_id@);
    lemma_lex_trichotomy(a.req_id@, c.req_id@);
    lemma_lex_trichotomy(a.file@, b.file@);
    lemma_lex_trichotomy(b.file@, c.file@);
    lemma_lex_trichotomy(a.file@, c.file@);
    if lex_lt(a.req_id@, b.req_id@) && lex_lt(b.req_id@, c.req_id@) {
        lemma_lex_transitive(a.req_id@, b.req_id@, c.req_id@);
    }
    if lex_lt(a.file@, b.file@) && lex_lt(b.file@, c.file@) {
        lemma_lex_transitive(a.file@, b.file@, c.file@);
    }
}

proof fn lemma_ref_insert_pos_bounds(t: Seq<CodeRef>, x: CodeRef)
    ensures
        0 <= ref_insert_pos(t, x) <= t.len(),
        forall|j: int| 0 <= j < ref_insert_pos(t, x) ==> !ref_before(x, #[trigger] t[j]),
        ref_insert_pos(t, x) < t.len() ==> ref_before(x, t[ref_insert_pos(t, x)]),
    decreases t.len(),
{
    if t.len() > 0 && !ref_before(x, t[0]) {
        let d = t.drop_first();
        lemma_ref_insert_pos_bounds(d, x);
        assert forall|j: int| 0 <= j < ref_insert_pos(t, x) implies !ref_before(
            x,
            #[trigger] t[j],
        ) by {
            if j > 0 {
                assert(t[j] == d[j - 1]);
            }
        }
        if ref_insert_pos(t, x) < t.len() {
            assert(t[ref_insert_pos(t, x)] == d[ref_insert_pos(d, x)]);
        }
    }
}

/// Exported code references come out in order of requirement id, file and
/// line, and they are the same references.
pub proof fn law_sorted_refs(s: Seq<CodeRef>)
    ensures
        sorted_refs(s).to_multiset() == s.to_multiset(),
        forall|i: int, j: int|
            0 <= i < j < sorted_refs(s).len() ==> !ref_before(
                #[trigger] sorted_refs(s)[j],
                #[trigger] sorted_refs(s)[i],
            ),
    decreases s.len(),
{
    if s.len() > 0 {
        let t = sorted_refs(s.drop_last());
        let x = s.last();
        law_sorted_refs(s.drop_last());
        lemma_ref_insert_pos_bounds(t, x);
        let k = ref_insert_pos(t, x);
        let u = t.insert(k, x);
        lemma_insert_to_multiset(t, k, x);
        assert(s =~= s.drop_last().push(x));
        assert(s.drop_last().push(x) =~= s.drop_last() + seq![x]);
        assert(seq![x].to_multiset() =~= vstd::multiset::Multiset::<CodeRef>::empty().insert(x)) by {
            broadcast use vstd::seq_lib::group_to_multiset_ensures;
            assert(seq![x] =~= Seq::<CodeRef>::empty().push(x));
        }
        vstd::seq_lib::lemma_multiset_commutative(s.drop_last(), seq![x]);
        assert forall|i: int, j: int| 0 <= i < j < u.len() implies !ref_before(
            #[trigger] u[j],
            #[trigger] u[i],
        ) by {
            if j < k {
                assert(u[i] == t[i] && u[j] == t[j]);
            } else if j == k {
                assert(u[i] == t[i]);
            } else if i > k {
                assert(u[i] == t[i - 1] && u[j] == t[j - 1]);
            } else if i == k {
                assert(u[j] == t[j - 1]);
                lemma_ref_before_order(t[j - 1], x, t[k]);
                lemma_ref_before_order(x, t[k], t[j - 1]);
            } else {
                assert(u[i] == t[i] && u[j] == t[j - 1]);
            }
        }
    }
}


// ───────────────────────── widest code references ─────────────────────────

/// The index of the widest reference in the slot of `x` among the first
/// `n` (the first such), or -1.
pub open spec fn best_in_slot(v: Seq<CodeRef>, x: CodeRef, n: int) -> int
    decreases n,
{
    if n <= 0 {
        -1
    } else {
        let b = best_in_slot(v, x, n - 1);
        if same_slot(v[n - 1], x) && (b < 0 || end_rank(v[n - 1]) > end_rank(v[b])) {
            n - 1
        } else {
            b
        }
    }
}

proof fn lemma_best_in_slot(v: Seq<CodeRef>, x: CodeRef, n: int)
    requires
        0 <= n <= v.len(),
    ensures
        -1 <= best_in_slot(v, x, n) < n,
        best_in_slot(v, x, n) >= 0 ==> same_slot(v[best_in_slot(v, x, n)], x),
        forall|k: int|
            0 <= k < n && #[trigger] same_slot(v[k], x) ==> best_in_slot(v, x, n) >= 0 && (
            end_rank(v[k]) < end_rank(v[best_in_slot(v, x, n)]) || (end_rank(v[k]) == end_rank(
                v[best_in_slot(v, x, n)],
            ) && k >= best_in_slot(v, x, n))),
    decreases n,
{
    if n > 0 {
        lemma_best_in_slot(v, x, n - 1);
    }
}

proof fn lemma_kept_in_prefix(v: Seq<CodeRef>, n: int, b: int)
    requires
        0 <= b < n <= v.len(),
        widest_at(v, b),
    ensures
        widest_prefix(v, n).contains(v[b]),
    decreases n,
{
    if b < n - 1 {
        lemma_kept_in_prefix(v, n - 1, b);
        let p = widest_prefix(v, n - 1);
        let k = choose|k: int| 0 <= k < p.len() && p[k] == v[b];
        if widest_at(v, n - 1) {
            assert(widest_prefix(v, n)[k] == v[b]);
        }
    } else {
        assert(widest_prefix(v, n).last() == v[b]);
    }
}

proof fn lemma_prefix_origin(v: Seq<CodeRef>, n: int, j: int) -> (b: int)
    requires
        0 <= n <= v.len(),
        0 <= j < widest_prefix(v, n).len(),
    ensures
        0 <= b < n,
        widest_at(v, b),
        widest_prefix(v, n)[j] == v[b],
    decreases n,
{
    if widest_at(v, n - 1) && j == widest_prefix(v, n - 1).len() {
        n - 1
    } else {
        lemma_prefix_origin(v, n - 1, j)
    }
}

proof fn lemma_prefix_distinct_slots(v: Seq<CodeRef>, n: int)
    requires
        0 <= n <= v.len(),
    ensures
        forall|i: int, j: int|
            0 <= i < j < widest_prefix(v, n).len() ==> !same_slot(
                #[trigger] widest_prefix(v, n)[i],
                #[trigger] widest_prefix(v, n)[j],
            ),
    decreases n,
{
    if n > 0 {
        lemma_prefix_distinct_slots(v, n - 1);
        let p = widest_prefix(v, n - 1);
        let q = widest_prefix(v, n);
        assert forall|i: int, j: int| 0 <= i < j < q.len() implies !same_slot(
            #[trigger] q[i],
            #[trigger] q[j],
        ) by {
            if j < p.len() {
                assert(q[i] == p[i] && q[j] == p[j]);
            } else {
                assert(q[j] == v[n - 1]);
                assert(q[i] == p[i]);
                let b = lemma_prefix_origin(v, n - 1, i);
                if same_slot(q[i], q[j]) {
                    assert(same_slot(v[b], v[n - 1]));
                    assert(same_slot(v[n - 1], v[b]));
                }
            }
        }
    }
}

/// Deduplicating code references keeps exactly one per requirement, file
/// and line: no two kept references share that slot, every reference's
/// slot keeps one, and the kept one has the widest span of its slot.
pub proof fn law_widest_one_per_slot(v: Seq<CodeRef>)
    ensures
        forall|i: int, j: int|
            0 <= i < j < widest_prefix(v, v.len() as int).len() ==> !same_slot(
                #[trigger] widest_prefix(v, v.len() as int)[i],
                #[trigger] widest_prefix(v, v.len() as int)[j],
            ),
        forall|i: int|
            #![trigger v[i]]
            0 <= i < v.len() ==> exists|j: int|
                0 <= j < widest_prefix(v, v.len() as int).len() && same_slot(
                    #[trigger] widest_prefix(v, v.len() as int)[j],
                    v[i],
                ) && end_rank(v[i]) <= end_rank(widest_prefix(v, v.len() as int)[j]),
{
    let n = v.len() as int;
    let r = widest_prefix(v, n);
    lemma_prefix_distinct_slots(v, n);
    assert forall|i: int| #![trigger v[i]] 0 <= i < v.len() implies exists|j: int|
        0 <= j < r.len() && same_slot(#[trigger] r[j], v[i]) && end_rank(v[i]) <= end_rank(r[j]) by {
        lemma_best_in_slot(v, v[i], n);
        let b = best_in_slot(v, v[i], n);
        assert(same_slot(v[i], v[i]));
        assert(b >= 0);
        assert forall|k: int| 0 <= k < v.len() && k != b && #[trigger] same_slot(v[k], v[b]) implies end_rank(
            v[k],
        ) < end_rank(v[b]) || (end_rank(v[k]) == end_rank(v[b]) && k > b) by {
            assert(same_slot(v[k], v[i]));
        }
        assert(widest_at(v, b));
        lemma_kept_in_prefix(v, n, b);
        let j = choose|j: int| 0 <= j < r.len() && r[j] == v[b];
        assert(same_slot(r[j], v[i]));
    }
}

} // verus!
