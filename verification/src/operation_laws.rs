//! Laws that say, over all inputs, what scanning, triviality checking, the
//! trace tree and AI import produce, in terms of the inputs themselves.

use vstd::prelude::*;
use crate::ai_import::{imported_list, AiSuggestion};
use crate::tag_grammar::{
    digit_run, id_matches, id_tok, ids_of_groups, is_digit, list_groups, list_len, list_tail,
    req_id_len, tag_ids, upper_run, ws_run,
};
use crate::text::is_ws;
use crate::scanner::{brace_line, brace_lines, fn_end};
use crate::models::{CodeRef, Requirement};
use crate::text::{contains, lines, occurs_at};
use crate::audit::{FindingSeverity, TrivialityPattern};
use crate::triviality::{
    allows_dead_code, core_text, function_body, marks_test, sat_sub, skipped_path, span_end,
    span_start, substantive, substantive_pred, triviality_findings,
};
use crate::trace::{has_req, ref_pred, refs_of};
use crate::tree::{indent_of, location_lines, location_suffix, trace_tree_text};

verus! {

// ───────────────────────── AI import ─────────────────────────

/// Every imported requirement comes from one suggestion of the batch: its
/// title, text and parent are that suggestion's title, text and parent.
pub proof fn law_imported_keep_suggestion_fields(
    sugs: Seq<AiSuggestion>,
    existing: Seq<String>,
    provenance: Option<Seq<char>>,
    k: int,
)
    requires
        0 <= k < imported_list(sugs, existing, provenance).len(),
    ensures
        exists|i: int|
            0 <= i < sugs.len() && {
                let v = imported_list(sugs, existing, provenance)[k];
                let s = #[trigger] sugs[i];
                &&& v.2 == s.title@
                &&& v.3 == s.text@
                &&& v.5 == match s.parent {
                    Some(p) => Some(p@),
                    None => None::<Seq<char>>,
                }
            },
    decreases sugs.len(),
{
    let prev = imported_list(sugs.drop_last(), existing, provenance);
    if k < prev.len() {
        law_imported_keep_suggestion_fields(sugs.drop_last(), existing, provenance, k);
        let i = choose|i: int|
            0 <= i < sugs.drop_last().len() && {
                let v = imported_list(sugs.drop_last(), existing, provenance)[k];
                let s = #[trigger] sugs.drop_last()[i];
                &&& v.2 == s.title@
                &&& v.3 == s.text@
                &&& v.5 == match s.parent {
                    Some(p) => Some(p@),
                    None => None::<Seq<char>>,
                }
            };
        assert(sugs.drop_last()[i] == sugs[i]);
        assert(imported_list(sugs, existing, provenance)[k] == prev[k]);
    } else {
        let i = sugs.len() - 1;
        assert(sugs[i] == sugs.last());
    }
}

// ───────────────────────── trace tree ─────────────────────────

/// The line of the trace tree that names the location of `c`.
pub open spec fn location_line(c: CodeRef, ind: Seq<char>) -> Seq<char> {
    "\n"@ + ind + "    - "@ + c.file@ + location_suffix(c)
}

proof fn lemma_contains_prefix(a: Seq<char>, b: Seq<char>, x: Seq<char>)
    requires
        contains(a, x),
    ensures
        contains(a + b, x),
{
    let i = choose|i: int| occurs_at(a, x, i);
    assert((a + b).subrange(i, i + x.len()) =~= a.subrange(i, i + x.len()));
    assert(occurs_at(a + b, x, i));
}

proof fn lemma_contains_suffix(a: Seq<char>, b: Seq<char>, x: Seq<char>)
    requires
        contains(b, x),
    ensures
        contains(a + b, x),
{
    let i = choose|i: int| occurs_at(b, x, i);
    assert((a + b).subrange(a.len() + i, a.len() + i + x.len()) =~= b.subrange(i, i + x.len()));
    assert(occurs_at(a + b, x, a.len() + i));
}

proof fn lemma_contains_self(x: Seq<char>)
    ensures
        contains(x, x),
{
    assert(x.subrange(0, x.len() as int) =~= x);
    assert(occurs_at(x, x, 0));
}

proof fn lemma_location_lines(refs: Seq<CodeRef>, ind: Seq<char>, k: int)
    requires
        0 <= k < refs.len(),
    ensures
        contains(location_lines(refs, ind), location_line(refs[k], ind)),
    decreases refs.len(),
{
    let prev = location_lines(refs.drop_last(), ind);
    let last = refs.len() - 1;
    let c = refs.last();
    let cur = location_lines(refs, ind);
    let line_c = "\n"@ + ind + "    - "@ + c.file@ + location_suffix(c);
    assert(line_c =~= location_line(c, ind));
    if k < last {
        lemma_location_lines(refs.drop_last(), ind, k);
        assert(refs.drop_last()[k] == refs[k]);
        if cur != prev {
            assert(cur =~= prev + location_line(c, ind));
            lemma_contains_prefix(prev, location_line(c, ind), location_line(refs[k], ind));
        }
    } else {
        if cur == prev {
            let j = choose|j: int|
                0 <= j < last && !!(refs[j].file@ == refs[last].file@ && refs[j].line
                    == refs[last].line && refs[j].line_end == refs[last].line_end);
            assert(location_line(refs[j], ind) =~= location_line(c, ind));
            lemma_location_lines(refs.drop_last(), ind, j);
            assert(refs.drop_last()[j] == refs[j]);
        } else {
            assert(cur =~= prev + location_line(c, ind));
            lemma_contains_self(location_line(c, ind));
            lemma_contains_suffix(prev, location_line(c, ind), location_line(c, ind));
        }
    }
}

/// The trace tree of a requirement lists the location of every code
/// reference to it, file and line (and end line) each on a line of its
/// own, under `implemented in:`.
pub proof fn law_tree_lists_every_location(
    reqs: Seq<Requirement>,
    refs: Seq<CodeRef>,
    id: Seq<char>,
    depth: nat,
    k: int,
)
    requires
        has_req(reqs, id),
        0 <= k < refs.len(),
        refs[k].req_id@ == id,
    ensures
        trace_tree_text(reqs, refs, id, depth) matches Some(t) && contains(
            t,
            location_line(refs[k], indent_of(depth)),
        ),
{
    let mine = refs_of(refs, id);
    let ind = indent_of(depth);
    refs.filter_lemma(ref_pred(id));
    assert(ref_pred(id)(refs[k]));
    assert(mine.contains(refs[k]));
    let k2 = choose|k2: int| 0 <= k2 < mine.len() && mine[k2] == refs[k];
    lemma_location_lines(mine, ind, k2);
    let code = "\n"@ + ind + "  implemented in:"@ + location_lines(mine, ind);
    lemma_contains_suffix("\n"@ + ind + "  implemented in:"@, location_lines(mine, ind), location_line(refs[k], ind));
    let t = trace_tree_text(reqs, refs, id, depth)->0;
    let r = reqs[crate::trace::id_index(reqs, id)];
    let head = ind + r.id@ + ": "@ + r.title@;
    let parent = match r.parent {
        Some(p) => "\n"@ + ind + "  parent: "@ + p@,
        None => seq![],
    };
    let kids = crate::trace::children_of(reqs, id);
    let children = if kids.len() > 0 {
        "\n"@ + ind + "  children:"@ + crate::tree::child_lines(kids, ind)
    } else {
        seq![]
    };
    assert(t == head + parent + code + children);
    lemma_contains_suffix(head + parent, code, location_line(refs[k], ind));
    lemma_contains_prefix(head + parent + code, children, location_line(refs[k], ind));
}

// ───────────────────────── triviality ─────────────────────────

proof fn lemma_last_line_with_bound(s: Seq<Seq<char>>, c: char)
    ensures
        crate::triviality::last_line_with(s, c) < s.len(),
    decreases s.len(),
{
    if s.len() > 0 {
        lemma_last_line_with_bound(s.drop_last(), c);
    }
}

/// The core text of a line is one of the stub forms: it contains
/// `todo!()`, `unimplemented!()`, `unreachable!()`, `panic!(` or `Ok(())`.
pub open spec fn stub_text(l: Seq<char>) -> bool {
    let t = core_text(l);
    ||| contains(t, "todo!()"@)
    ||| contains(t, "unimplemented!()"@)
    ||| contains(t, "unreachable!()"@)
    ||| contains(t, "panic!("@)
    ||| contains(t, "Ok(())"@)
}

/// When the span of a code reference in a file that is not skipped has
/// neither a test marker in it nor in the three lines before it, and its
/// function body has substantive lines that are all stubs (`todo!()`,
/// `unimplemented!()`, `unreachable!()`, `panic!(`, `Ok(())`), the
/// analysis reports a stub-body finding for the reference; it is a warning
/// when no `#[allow(dead_code)]` appears in or before the span.
pub proof fn law_stub_body_reported(
    path: Seq<char>,
    content: Seq<char>,
    line: nat,
    line_end: Option<usize>,
    req_id: Seq<char>,
)
    requires
        !skipped_path(path),
        span_start(line) < lines(content).len(),
        ({
            let all = lines(content);
            let start = span_start(line);
            let span = all.subrange(start as int, span_end(line, line_end, all.len()) as int);
            &&& forall|i: int| 0 <= i < span.len() ==> !marks_test(#[trigger] span[i])
            &&& forall|i: int| sat_sub(start, 3) <= i < start ==> !marks_test(#[trigger] all[i])
            &&& function_body(span) matches Some(body) && (exists|i: int|
                0 <= i < body.len() && #[trigger] substantive(body[i])) && forall|i: int|
                0 <= i < body.len() && #[trigger] substantive(body[i]) ==> stub_text(body[i])
        }),
    ensures
        exists|k: int|
            0 <= k < triviality_findings(path, content, line, line_end, req_id).len() && {
                let f = #[trigger] triviality_findings(path, content, line, line_end, req_id)[k];
                &&& f.0 == req_id
                &&& f.1 == path
                &&& f.2 == line
                &&& f.3 == TrivialityPattern::StubBody
                &&& ({
                    let all = lines(content);
                    let start = span_start(line);
                    let span = all.subrange(start as int, span_end(line, line_end, all.len()) as int);
                    (forall|i: int| 0 <= i < span.len() ==> !allows_dead_code(#[trigger] span[i]))
                        && (forall|i: int|
                        sat_sub(start, 3) <= i < start ==> !allows_dead_code(#[trigger] all[i]))
                        ==> f.4 == FindingSeverity::Warning
                })
            },
{
    let all = lines(content);
    let n = all.len();
    let start = span_start(line);
    let e = span_end(line, line_end, n);
    let span = all.subrange(start as int, e as int);
    let body = function_body(span)->0;
    let bi = choose|i: int| 0 <= i < body.len() && #[trigger] substantive(body[i]);
    let open = crate::triviality::first_line_with(span, '{');
    let close = crate::triviality::last_line_with(span, '}');
    lemma_last_line_with_bound(span, '}');
    assert(body == span.subrange(open + 1, close));
    assert(body[bi] == span[open + 1 + bi]);
    span.filter_lemma(substantive_pred());
    assert(substantive_pred()(span[open + 1 + bi]));
    assert(span.filter(substantive_pred()).contains(span[open + 1 + bi]));
    assert(span.filter(substantive_pred()).len() > 0);
    let pre = all.subrange(sat_sub(start, 3) as int, start as int);
    assert forall|i: int| 0 <= i < pre.len() implies !#[trigger] crate::triviality::line_is(
        crate::triviality::LineKind::MarksTest,
        pre[i],
    ) by {
        assert(pre[i] == all[sat_sub(start, 3) + i]);
    }
    assert(!crate::triviality::any_line(span, crate::triviality::kind_pred(crate::triviality::LineKind::MarksTest)));
    assert(!crate::triviality::any_line(pre, crate::triviality::kind_pred(crate::triviality::LineKind::MarksTest)));
    let dead = crate::triviality::any_line(span, crate::triviality::kind_pred(crate::triviality::LineKind::AllowsDeadCode)) || crate::triviality::any_line(
        pre,
        crate::triviality::kind_pred(crate::triviality::LineKind::AllowsDeadCode),
    );
    assert(crate::triviality::stub_body(body));
    let sf = crate::triviality::stub_findings(body, dead, line, req_id, path);
    let bf = crate::triviality::body_findings(span, dead, line, req_id, path);
    assert(bf == sf + crate::triviality::literal_findings(body, line, req_id, path));
    let et = crate::triviality::empty_test_findings(span, false, line, req_id, path);
    let tf = crate::triviality::tautology_findings(span, line, req_id, path);
    let all_f = crate::triviality::span_findings(all, start, span, line, req_id, path);
    assert(all_f == et + tf + bf);
    assert(triviality_findings(path, content, line, line_end, req_id) == all_f);
    let k: int = (et.len() + tf.len()) as int;
    assert(all_f[k] == sf[0]);
    if (forall|i: int| 0 <= i < span.len() ==> !allows_dead_code(#[trigger] span[i])) && (forall|
        i: int,
    | sat_sub(start, 3) <= i < start ==> !allows_dead_code(#[trigger] all[i])) {
        assert forall|i: int| 0 <= i < pre.len() implies !#[trigger] crate::triviality::line_is(
            crate::triviality::LineKind::AllowsDeadCode,
            pre[i],
        ) by {
            assert(pre[i] == all[sat_sub(start, 3) + i]);
        }
        assert(!dead);
    }
}

// ───────────────────────── tag lists ─────────────────────────

/// A requirement id: `HLR`, `LLR` or `TST`, `-`, and one or more digits.
pub open spec fn is_requirement_id(a: Seq<char>) -> bool {
    &&& a.len() >= 5
    &&& (a[0] == 'H' && a[1] == 'L' && a[2] == 'R') || (a[0] == 'L' && a[1] == 'L' && a[2] == 'R')
        || (a[0] == 'T' && a[1] == 'S' && a[2] == 'T')
    &&& a[3] == '-'
    &&& forall|j: int| 4 <= j < a.len() ==> is_digit(#[trigger] a[j])
}

/// Every character is whitespace.
pub open spec fn all_ws(w: Seq<char>) -> bool {
    forall|j: int| 0 <= j < w.len() ==> is_ws(#[trigger] w[j])
}

proof fn lemma_ws_exact(s: Seq<char>, i: int, k: int)
    requires
        0 <= i,
        0 <= k,
        i + k <= s.len(),
        forall|j: int| i <= j < i + k ==> is_ws(#[trigger] s[j]),
        i + k == s.len() || !is_ws(s[i + k]),
    ensures
        ws_run(s, i) == k,
    decreases k,
{
    if k > 0 {
        lemma_ws_exact(s, i + 1, k - 1);
    }
}

proof fn lemma_digit_exact(s: Seq<char>, i: int, k: int)
    requires
        0 <= i,
        0 <= k,
        i + k <= s.len(),
        forall|j: int| i <= j < i + k ==> is_digit(#[trigger] s[j]),
        i + k == s.len() || !is_digit(s[i + k]),
    ensures
        digit_run(s, i) == k,
    decreases k,
{
    if k > 0 {
        lemma_digit_exact(s, i + 1, k - 1);
    }
}

/// An id at `p` in `s`, followed by the end or by a character that is not
/// a digit, is an `ID` token of its length and a requirement-id match.
proof fn lemma_id_at(s: Seq<char>, p: int, a: Seq<char>)
    requires
        is_requirement_id(a),
        0 <= p,
        p + a.len() <= s.len(),
        s.subrange(p, p + a.len()) == a,
        p + a.len() == s.len() || !is_digit(s[p + a.len()]),
    ensures
        id_tok(s, p) == a.len(),
        req_id_len(s, p) == a.len(),
{
    assert forall|j: int| 0 <= j < a.len() implies s[p + j] == a[j] by {
        assert(s.subrange(p, p + a.len())[j] == s[p + j]);
    }
    assert(upper_run(s, p + 3) == 0);
    assert(upper_run(s, p + 2) == 1);
    assert(upper_run(s, p + 1) == 2);
    assert(upper_run(s, p) == 3);
    assert forall|j: int| p + 4 <= j < p + a.len() implies is_digit(#[trigger] s[j]) by {
        assert(s[j] == a[j - p]);
    }
    lemma_digit_exact(s, p + 4, a.len() - 4);
}

proof fn lemma_skip_no_ids(g: Seq<char>, i: int, j: int)
    requires
        0 <= i <= j <= g.len(),
        forall|x: int| i <= x < j ==> #[trigger] g[x] != 'H' && g[x] != 'L' && g[x] != 'T',
    ensures
        id_matches(g, i) == id_matches(g, j),
    decreases j - i,
{
    if i < j {
        assert(g[i] != 'H' && g[i] != 'L' && g[i] != 'T');
        assert(req_id_len(g, i) == 0);
        lemma_skip_no_ids(g, i + 1, j);
    }
}

/// The list text `A`, whitespace, `,`, whitespace, `B`.
pub open spec fn list_text(a: Seq<char>, w1: Seq<char>, w2: Seq<char>, b: Seq<char>) -> Seq<char> {
    a + w1 + seq![','] + w2 + b
}

proof fn lemma_list_text_at(
    s: Seq<char>,
    p: int,
    a: Seq<char>,
    w1: Seq<char>,
    w2: Seq<char>,
    b: Seq<char>,
)
    requires
        0 <= p,
        p + list_text(a, w1, w2, b).len() <= s.len(),
        s.subrange(p, p + list_text(a, w1, w2, b).len()) == list_text(a, w1, w2, b),
    ensures
        forall|j: int| 0 <= j < a.len() ==> #[trigger] s[p + j] == a[j],
        forall|j: int| 0 <= j < w1.len() ==> #[trigger] s[p + a.len() + j] == w1[j],
        s[p + a.len() + w1.len()] == ',',
        forall|j: int| 0 <= j < w2.len() ==> #[trigger] s[p + a.len() + w1.len() + 1 + j] == w2[j],
        forall|j: int|
            0 <= j < b.len() ==> #[trigger] s[p + a.len() + w1.len() + 1 + w2.len() + j] == b[j],
{
    let t = list_text(a, w1, w2, b);
    assert forall|j: int| 0 <= j < t.len() implies #[trigger] s[p + j] == t[j] by {
        assert(s.subrange(p, p + t.len())[j] == s[p + j]);
    }
    assert forall|j: int| 0 <= j < a.len() implies #[trigger] s[p + j] == a[j] by {
        assert(t[j] == a[j]);
    }
    assert forall|j: int| 0 <= j < w1.len() implies #[trigger] s[p + a.len() + j] == w1[j] by {
        assert(t[a.len() + j] == w1[j]);
    }
    assert(t[(a.len() + w1.len()) as int] == ',');
    assert forall|j: int| 0 <= j < w2.len() implies #[trigger] s[p + a.len() + w1.len() + 1 + j]
        == w2[j] by {
        assert(t[a.len() + w1.len() + 1 + j] == w2[j]);
    }
    assert forall|j: int| 0 <= j < b.len() implies #[trigger] s[p + a.len() + w1.len() + 1
        + w2.len() + j] == b[j] by {
        assert(t[a.len() + w1.len() + 1 + w2.len() + j] == b[j]);
    }
}

/// At a list text followed by the end or a non-digit, a tag list is at
/// least that long.
proof fn lemma_list_len_covers(
    s: Seq<char>,
    p: int,
    a: Seq<char>,
    w1: Seq<char>,
    w2: Seq<char>,
    b: Seq<char>,
)
    requires
        0 <= p,
        all_ws(w1),
        all_ws(w2),
        is_requirement_id(a),
        is_requirement_id(b),
        p + list_text(a, w1, w2, b).len() <= s.len(),
        s.subrange(p, p + list_text(a, w1, w2, b).len()) == list_text(a, w1, w2, b),
        p + list_text(a, w1, w2, b).len() == s.len() || !is_digit(
            s[p + list_text(a, w1, w2, b).len()],
        ),
    ensures
        list_len(s, p) == list_text(a, w1, w2, b).len() + list_tail(
            s,
            p + list_text(a, w1, w2, b).len(),
        ),
{
    let t = list_text(a, w1, w2, b);
    lemma_list_text_at(s, p, a, w1, w2, b);
    let q = p + a.len() + w1.len();
    let r = q + 1 + w2.len();
    assert(s.subrange(p, p + a.len()) =~= a);
    assert(p + a.len() == s.len() || !is_digit(s[p + a.len()])) by {
        if w1.len() > 0 {
            assert(s[p + a.len() + 0] == w1[0]);
        }
    }
    lemma_id_at(s, p, a);
    assert forall|j: int| p + a.len() <= j < p + a.len() + w1.len() implies is_ws(
        #[trigger] s[j],
    ) by {
        assert(s[p + a.len() + (j - p - a.len())] == w1[j - p - a.len()]);
    }
    lemma_ws_exact(s, p + a.len(), w1.len() as int);
    assert forall|j: int| q + 1 <= j < q + 1 + w2.len() implies is_ws(#[trigger] s[j]) by {
        assert(s[p + a.len() + w1.len() + 1 + (j - q - 1)] == w2[j - q - 1]);
    }
    assert(s[q + 1 + w2.len()] == b[0]) by {
        assert(s[p + a.len() + w1.len() + 1 + w2.len() + 0] == b[0]);
    }
    lemma_ws_exact(s, q + 1, w2.len() as int);
    assert forall|j: int| 0 <= j < b.len() implies s.subrange(r, r + b.len())[j] == b[j] by {
        assert(s[p + a.len() + w1.len() + 1 + w2.len() + j] == b[j]);
    }
    assert(s.subrange(r, r + b.len()) =~= b);
    lemma_id_at(s, r, b);
}

/// In a captured list that starts with a list text followed by the end or
/// a non-digit, the requirement ids found start with `A` and `B`.
proof fn lemma_group_ids(g: Seq<char>, a: Seq<char>, w1: Seq<char>, w2: Seq<char>, b: Seq<char>)
    requires
        all_ws(w1),
        all_ws(w2),
        is_requirement_id(a),
        is_requirement_id(b),
        list_text(a, w1, w2, b).len() <= g.len(),
        g.subrange(0, list_text(a, w1, w2, b).len() as int) == list_text(a, w1, w2, b),
        list_text(a, w1, w2, b).len() == g.len() || !is_digit(
            g[list_text(a, w1, w2, b).len() as int],
        ),
    ensures
        id_matches(g, 0).len() >= 2,
        id_matches(g, 0)[0] == a,
        id_matches(g, 0)[1] == b,
{
    lemma_list_text_at(g, 0, a, w1, w2, b);
    let r: int = (a.len() + w1.len() + 1 + w2.len()) as int;
    assert(g.subrange(0, a.len() as int) =~= a);
    assert(a.len() == g.len() || !is_digit(g[a.len() as int])) by {
        if w1.len() > 0 {
            assert(g[(0 + a.len() + 0) as int] == w1[0]);
        }
    }
    lemma_id_at(g, 0, a);
    assert forall|j: int| 0 <= j < b.len() implies g.subrange(r, r + b.len())[j] == b[j] by {
        assert(g[0 + a.len() + w1.len() + 1 + w2.len() + j] == b[j]);
    }
    assert(g.subrange(r, r + b.len()) =~= b);
    lemma_id_at(g, r, b);
    assert forall|x: int| a.len() <= x < r implies #[trigger] g[x] != 'H' && g[x] != 'L' && g[x]
        != 'T' by {
        if x < a.len() + w1.len() {
            assert(g[0 + a.len() + (x - a.len())] == w1[x - a.len()]);
            assert(is_ws(w1[x - a.len()]));
        } else if x > a.len() + w1.len() {
            assert(g[0 + a.len() + w1.len() + 1 + (x - a.len() - w1.len() - 1)] == w2[x - a.len()
                - w1.len() - 1]);
            assert(is_ws(w2[x - a.len() - w1.len() - 1]));
        }
    }
    lemma_skip_no_ids(g, a.len() as int, r);
    assert(id_matches(g, 0) == seq![a] + id_matches(g, a.len() as int));
    assert(id_matches(g, r) == seq![b] + id_matches(g, r + b.len()));
}

/// A tag list `kw A , B` — with whitespace before the list and around the
/// comma optional — names `A` and then `B`, whatever follows `B` (when it
/// is not a further digit).
pub proof fn law_id_list_takes_each_id(
    kw: Seq<char>,
    w0: Seq<char>,
    a: Seq<char>,
    w1: Seq<char>,
    w2: Seq<char>,
    b: Seq<char>,
    rest: Seq<char>,
)
    requires
        kw.len() > 0,
        all_ws(w0),
        all_ws(w1),
        all_ws(w2),
        is_requirement_id(a),
        is_requirement_id(b),
        rest.len() == 0 || !is_digit(rest[0]),
    ensures
        ({
            let ids = tag_ids(kw + w0 + list_text(a, w1, w2, b) + rest, kw);
            ids.len() >= 2 && ids[0] == a && ids[1] == b
        }),
{
    let t = list_text(a, w1, w2, b);
    let s = kw + w0 + t + rest;
    let p: int = (kw.len() + w0.len()) as int;
    let e: int = p + t.len();
    assert(s.subrange(0, kw.len() as int) =~= kw);
    assert(crate::text::occurs_at(s, kw, 0));
    assert forall|j: int| kw.len() <= j < p implies is_ws(#[trigger] s[j]) by {
        assert(s[j] == w0[j - kw.len()]);
    }
    assert(s[p] == a[0]);
    lemma_ws_exact(s, kw.len() as int, w0.len() as int);
    assert(s.subrange(p, e) =~= t);
    assert(e == s.len() || s[e] == rest[0]);
    lemma_list_len_covers(s, p, a, w1, w2, b);
    crate::tag_grammar::lemma_list_tail_bound(s, e);
    let n: int = list_len(s, p) as int;
    let g = s.subrange(p, p + n);
    assert(list_groups(s, kw, 0) == seq![g] + list_groups(s, kw, p + n));
    assert(g.subrange(0, t.len() as int) =~= t);
    assert(t.len() == g.len() || g[t.len() as int] == rest[0]);
    lemma_group_ids(g, a, w1, w2, b);
    let gs = list_groups(s, kw, 0);
    assert(gs[0] == g);
    assert(tag_ids(s, kw) == id_matches(g, 0) + ids_of_groups(gs.drop_first()));
}

// ───────────────────────── function ends ─────────────────────────

/// `+1` for `{`, `-1` for `}`, else 0.
pub open spec fn brace_delta(c: char) -> int {
    if c == '{' {
        1
    } else if c == '}' {
        -1
    } else {
        0
    }
}

/// Number of `{` minus number of `}` in `s`.
pub open spec fn balance(s: Seq<char>) -> int
    decreases s.len(),
{
    if s.len() == 0 {
        0
    } else {
        brace_delta(s[0]) + balance(s.drop_first())
    }
}

/// Number of `{` minus number of `}` in lines `a .. i`.
pub open spec fn lines_balance(ls: Seq<Seq<char>>, a: int, i: int) -> int
    decreases i - a,
{
    if i <= a {
        0
    } else {
        lines_balance(ls, a, i - 1) + balance(ls[i - 1])
    }
}

/// Character `k` of line `i` is a `}` after which the count of `{` minus
/// `}` since the start of line `a` is back to zero.
pub open spec fn closes_at(ls: Seq<Seq<char>>, a: int, i: int, k: int) -> bool {
    &&& 0 <= k < ls[i].len()
    &&& ls[i][k] == '}'
    &&& lines_balance(ls, a, i) + balance(ls[i].take(k + 1)) == 0
}

/// Line `i` has such a closing brace.
pub open spec fn line_closes(ls: Seq<Seq<char>>, a: int, i: int) -> bool {
    exists|k: int| #[trigger] closes_at(ls, a, i, k)
}

proof fn lemma_balance_step(line: Seq<char>, ci: int, k: int)
    requires
        0 <= ci <= k < line.len(),
    ensures
        balance(line.subrange(ci, k + 1)) == brace_delta(line[ci]) + balance(
            line.subrange(ci + 1, k + 1),
        ),
{
    assert(line.subrange(ci, k + 1).drop_first() =~= line.subrange(ci + 1, k + 1));
}

proof fn lemma_brace_line(line: Seq<char>, ci: int, d: int)
    requires
        0 <= ci <= line.len(),
    ensures
        brace_line(line, ci, d).0 <==> exists|k: int|
            ci <= k < line.len() && line[k] == '}' && d + balance(
                #[trigger] line.subrange(ci, k + 1),
            ) == 0,
        !brace_line(line, ci, d).0 ==> brace_line(line, ci, d).1 == d + balance(
            line.subrange(ci, line.len() as int),
        ),
    decreases line.len() - ci,
{
    if ci == line.len() {
        assert(line.subrange(ci, line.len() as int) =~= Seq::<char>::empty());
    } else {
        let c = line[ci];
        let d2 = d + brace_delta(c);
        lemma_brace_line(line, ci + 1, d2);
        lemma_balance_step(line, ci, line.len() - 1);
        assert(line.subrange(ci, line.len() as int) == line.subrange(ci, line.len() - 1 + 1));
        assert(line.subrange(ci + 1, line.len() as int) == line.subrange(ci + 1, line.len() - 1 + 1));
        assert forall|k: int| ci < k < line.len() implies d + balance(
            #[trigger] line.subrange(ci, k + 1),
        ) == d2 + balance(line.subrange(ci + 1, k + 1)) by {
            lemma_balance_step(line, ci, k);
        }
        lemma_balance_step(line, ci, ci);
        assert(line.subrange(ci + 1, ci + 1) =~= Seq::<char>::empty());
        if c == '}' && d - 1 == 0 {
            assert(line[ci] == '}' && d + balance(line.subrange(ci, ci + 1)) == 0);
        } else {
            if exists|k: int|
                ci <= k < line.len() && line[k] == '}' && d + balance(
                    #[trigger] line.subrange(ci, k + 1),
                ) == 0 {
                let k = choose|k: int|
                    ci <= k < line.len() && line[k] == '}' && d + balance(
                        #[trigger] line.subrange(ci, k + 1),
                    ) == 0;
                assert(k != ci);
                assert(line[k] == '}' && d2 + balance(line.subrange(ci + 1, k + 1)) == 0);
            }
            if exists|k: int|
                ci + 1 <= k < line.len() && line[k] == '}' && d2 + balance(
                    #[trigger] line.subrange(ci + 1, k + 1),
                ) == 0 {
                let k = choose|k: int|
                    ci + 1 <= k < line.len() && line[k] == '}' && d2 + balance(
                        #[trigger] line.subrange(ci + 1, k + 1),
                    ) == 0;
                assert(d + balance(line.subrange(ci, k + 1)) == 0);
            }
        }
    }
}

proof fn lemma_brace_lines(ls: Seq<Seq<char>>, a: int, idx: int, end: int)
    requires
        0 <= a <= idx <= end <= ls.len(),
    ensures
        brace_lines(ls, idx, end, lines_balance(ls, a, idx)) matches Some(c) ==> {
            &&& idx < c <= end
            &&& line_closes(ls, a, c - 1)
            &&& forall|i: int| idx <= i < c - 1 ==> !#[trigger] line_closes(ls, a, i)
        },
        brace_lines(ls, idx, end, lines_balance(ls, a, idx)) is None ==> forall|i: int|
            idx <= i < end ==> !#[trigger] line_closes(ls, a, i),
    decreases end - idx,
{
    if idx < end {
        let d = lines_balance(ls, a, idx);
        let line = ls[idx];
        lemma_brace_line(line, 0, d);
        assert(line.subrange(0, line.len() as int) =~= line);
        assert forall|k: int| 0 <= k < line.len() implies #[trigger] line.subrange(0, k + 1)
            == line.take(k + 1) by {}
        if brace_line(line, 0, d).0 {
            let k = choose|k: int|
                0 <= k < line.len() && line[k] == '}' && d + balance(
                    #[trigger] line.subrange(0, k + 1),
                ) == 0;
            assert(closes_at(ls, a, idx, k));
        } else {
            assert(!line_closes(ls, a, idx)) by {
                if line_closes(ls, a, idx) {
                    let k = choose|k: int| #[trigger] closes_at(ls, a, idx, k);
                    assert(line.subrange(0, k + 1) == line.take(k + 1));
                }
            }
            assert(lines_balance(ls, a, idx + 1) == d + balance(line));
            lemma_brace_lines(ls, a, idx + 1, end);
        }
    }
}

/// The end found for a function starting at line `fn_line` (1-based) is
/// the first line, within 300 lines after it, holding a `}` after which
/// the count of `{` minus `}` since the start of the function's line is
/// back to zero; a `}` that leaves the count positive never ends it.  When
/// there is no such line in that window, there is no end.
pub proof fn law_function_end(ls: Seq<Seq<char>>, fn_line: nat)
    requires
        1 <= fn_line <= ls.len() + 1,
    ensures
        ({
            let a = fn_line - 1;
            let end = if fn_line + 300 < ls.len() {
                (fn_line + 300) as int
            } else {
                ls.len() as int
            };
            &&& fn_end(ls, fn_line) matches Some(c) ==> {
                &&& a < c <= end
                &&& line_closes(ls, a, c - 1)
                &&& forall|i: int| a <= i < c - 1 ==> !#[trigger] line_closes(ls, a, i)
            }
            &&& fn_end(ls, fn_line) is None ==> forall|i: int|
                a <= i < end ==> !#[trigger] line_closes(ls, a, i)
        }),
{
    let a = fn_line - 1;
    let end = if fn_line + 300 < ls.len() {
        (fn_line + 300) as int
    } else {
        ls.len() as int
    };
    assert(lines_balance(ls, a, a) == 0);
    lemma_brace_lines(ls, a, a, end);
}

} // verus!
