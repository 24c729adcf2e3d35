//! The decisions of the engine's operations: criterion linkage reports,
//! source spans, import staleness, code reference deduplication, export
//! ordering and formatting, audit bundle assembly and the results of scan,
//! remove and migrate.  The engine itself (cache, files) runs around them.

use vstd::prelude::*;
use crate::audit::{
    AuditBundle, AuditCriterion, CriteriaReport, CriterionStatus, LineCoverageScore,
    MutationScore, SourceSpan, TrivialityFinding, TrivialityReport, AUDIT_PROMPT_HINT,
    AUDIT_SCHEMA_VERSION,
};
use crate::scanner::{tag_views, FoundTag, TagSpec, TagType};
use crate::trace::contains_string;
use crate::triviality::{finding_view, finding_views, FindingView};
use crate::coverage_map::{norm_path, norm_path_exec};
use crate::error::{concat_strs, Error};
use crate::models::{
    lex_lt, next_id, next_id_fits, string_less, CodeRef, Link, LinkType, Requirement,
    RequirementStatus, RequirementType, TOOL_VERSION,
};
use crate::outside::{is_lower_hex_digit, now_rfc3339, rfc3339_utc, path_strip_prefix, sha256_hex, sha256_hex_of, stripped_prefix};
use crate::triviality::{join, sat_sub};
use crate::sorting::views;
use crate::text::{chars_of, decimal, decimal_usize, has_prefix, lines, push_chars, push_str, slice_chars, split_lines, starts_with_str, string_of, trim, trim_chars};

verus! {

// ───────────────────────── acceptance criteria ─────────────────────────

/// The text of an acceptance-criterion bullet: a line that, trimmed,
/// starts with `- [ ]`, `- [x]` or `- [X]`; the rest of it, trimmed.
pub open spec fn criterion_of(line: Seq<char>) -> Option<Seq<char>> {
    let t = trim(line);
    if has_prefix(t, "- [ ]"@) {
        Some(trim(t.skip("- [ ]"@.len() as int)))
    } else if has_prefix(t, "- [x]"@) {
        Some(trim(t.skip("- [x]"@.len() as int)))
    } else if has_prefix(t, "- [X]"@) {
        Some(trim(t.skip("- [X]"@.len() as int)))
    } else {
        None
    }
}

/// The criterion texts of a list of lines, in order.
pub open spec fn criteria_of_lines(ls: Seq<Seq<char>>) -> Seq<Seq<char>>
    decreases ls.len(),
{
    if ls.len() == 0 {
        seq![]
    } else {
        let prev = criteria_of_lines(ls.drop_last());
        match criterion_of(ls.last()) {
            Some(c) => prev.push(c),
            None => prev,
        }
    }
}

/// The acceptance criteria of a requirement text.
pub open spec fn criteria_of(text: Seq<char>) -> Seq<Seq<char>> {
    criteria_of_lines(lines(text))
}

fn criterion_exec(line: &[char]) -> (r: Option<Vec<char>>)
    ensures
        match criterion_of(line@) {
            Some(c) => r matches Some(v) && v@ == c,
            None => r is None,
        },
{
    let t = trim_chars(line);
    let ts = t.as_slice();
    let p = if starts_with_str(ts, "- [ ]") {
        chars_of("- [ ]")
    } else if starts_with_str(ts, "- [x]") {
        chars_of("- [x]")
    } else if starts_with_str(ts, "- [X]") {
        chars_of("- [X]")
    } else {
        return None;
    };
    let rest = slice_chars(ts, p.len(), t.len());
    assert(rest@ =~= t@.skip(p@.len() as int));
    Some(trim_chars(rest.as_slice()))
}

/// Parse the acceptance-criterion bullets of a requirement text.
pub fn criteria_texts(text: &str) -> (r: Vec<String>)
    ensures
        views(r@) == criteria_of(text@),
{
    let cs = chars_of(text);
    let ls = split_lines(cs.as_slice());
    let ghost lv = ls.deep_view();
    let mut out: Vec<String> = Vec::new();
    let mut i: usize = 0;
    assert(views(out@) =~= criteria_of_lines(lv.take(0)));
    while i < ls.len()
        invariant
            i <= ls@.len(),
            lv == ls.deep_view(),
            views(out@) == criteria_of_lines(lv.take(i as int)),
        decreases ls.len() - i,
    {
        proof {
            let t = lv.take(i + 1);
            assert(t.drop_last() =~= lv.take(i as int));
            assert(t.last() == ls@[i as int]@);
        }
        let ghost before = views(out@);
        match criterion_exec(ls[i].as_slice()) {
            Some(c) => {
                let s = string_of(c.as_slice());
                out.push(s);
                assert(views(out@) =~= before.push(c@));
            },
            None => {},
        }
        i = i + 1;
    }
    assert(lv.take(i as int) =~= lv);
    out
}

/// A criterion link from the cache: criterion index, file, line.
pub type CriterionLink = (usize, String, usize);

/// The first link for criterion `index`, in order.
pub open spec fn first_link(links: Seq<CriterionLink>, index: nat) -> Option<CriterionLink>
    decreases links.len(),
{
    if links.len() == 0 {
        None
    } else if links[0].0 == index {
        Some(links[0])
    } else {
        first_link(links.drop_first(), index)
    }
}

/// A criterion status as plain values: index, text, linked, test file,
/// test line.
pub type CriterionView = (nat, Seq<char>, bool, Option<Seq<char>>, Option<nat>);

/// The plain values of a criterion status.
pub open spec fn criterion_view(c: CriterionStatus) -> CriterionView {
    (
        c.index as nat,
        c.text@,
        c.linked,
        match c.test_file {
            Some(f) => Some(f@),
            None => None,
        },
        match c.test_line {
            Some(l) => Some(l as nat),
            None => None,
        },
    )
}

/// The status of the criterion with 1-based `index` and text `text`:
/// linked to the first link with that index, if any.
pub open spec fn status_of(links: Seq<CriterionLink>, index: nat, text: Seq<char>) -> CriterionView {
    match first_link(links, index) {
        Some(l) => (index, text, true, Some(l.1@), Some(l.2 as nat)),
        None => (index, text, false, None, None),
    }
}

/// The warning for a link whose index is beyond the criterion count.
pub open spec fn beyond_warning(l: CriterionLink, count: nat) -> Seq<char> {
    "CRITERION tag #"@ + decimal(l.0 as nat) + "  at "@ + l.1@ + ":"@ + decimal(l.2 as nat)
        + " references index beyond criterion count ("@ + decimal(count) + ")"@
}

/// The warnings for the links beyond the criterion count, in order.
pub open spec fn beyond_warnings(links: Seq<CriterionLink>, count: nat) -> Seq<Seq<char>>
    decreases links.len(),
{
    if links.len() == 0 {
        seq![]
    } else {
        let prev = beyond_warnings(links.drop_last(), count);
        let l = links.last();
        if l.0 > count {
            prev.push(beyond_warning(l, count))
        } else {
            prev
        }
    }
}

fn first_link_exec(links: &[CriterionLink], index: usize) -> (r: Option<usize>)
    ensures
        match first_link(links@, index as nat) {
            Some(l) => r matches Some(k) && k < links@.len() && links@[k as int] == l,
            None => r is None,
        },
{
    let mut k: usize = 0;
    assert(links@.skip(0) =~= links@);
    while k < links.len()
        invariant
            k <= links@.len(),
            first_link(links@, index as nat) == first_link(links@.skip(k as int), index as nat),
        decreases links.len() - k,
    {
        assert(links@.skip(k as int)[0] == links@[k as int]);
        if links[k].0 == index {
            return Some(k);
        }
        assert(links@.skip(k as int).drop_first() =~= links@.skip(k + 1));
        k = k + 1;
    }
    None
}

/// Build the criterion linkage report of a requirement from its criterion
/// texts and its criterion links (index, file, line): criterion `i + 1` is
/// linked to its first link; links beyond the criterion count give
/// warnings.
pub fn criteria_report(req_id: &str, texts: &[String], links: &[CriterionLink]) -> (r:
    CriteriaReport)
    requires
        texts@.len() < usize::MAX,
    ensures
        r.req_id@ == req_id@,
        r.criteria@.map_values(|c: CriterionStatus| criterion_view(c)) == Seq::new(
            texts@.len(),
            |i: int| status_of(links@, (i + 1) as nat, texts@[i]@),
        ),
        views(r.warnings@) == beyond_warnings(links@, texts@.len()),
{
    let mut criteria: Vec<CriterionStatus> = Vec::new();
    let mut i: usize = 0;
    while i < texts.len()
        invariant
            i <= texts@.len(),
            texts@.len() < usize::MAX,
            criteria@.map_values(|c: CriterionStatus| criterion_view(c)) == Seq::new(
                i as nat,
                |j: int| status_of(links@, (j + 1) as nat, texts@[j]@),
            ),
        decreases texts.len() - i,
    {
        let index = i + 1;
        let (linked, test_file, test_line) = match first_link_exec(links, index) {
            Some(k) => (true, Some(links[k].1.clone()), Some(links[k].2)),
            None => (false, None, None),
        };
        let c = CriterionStatus { index, text: texts[i].clone(), linked, test_file, test_line };
        assert(criterion_view(c) == status_of(links@, (i + 1) as nat, texts@[i as int]@));
        let ghost before = criteria@.map_values(|c: CriterionStatus| criterion_view(c));
        criteria.push(c);
        assert(criteria@.map_values(|c: CriterionStatus| criterion_view(c)) =~= before.push(criterion_view(c)));
        assert(criteria@.map_values(|c: CriterionStatus| criterion_view(c)) =~= Seq::new(
            (i + 1) as nat,
            |j: int| status_of(links@, (j + 1) as nat, texts@[j]@),
        ));
        i = i + 1;
    }
    let count = texts.len();
    let mut warnings: Vec<String> = Vec::new();
    let mut k: usize = 0;
    assert(views(warnings@) =~= beyond_warnings(links@.take(0), count as nat));
    while k < links.len()
        invariant
            k <= links@.len(),
            count == texts@.len(),
            views(warnings@) == beyond_warnings(links@.take(k as int), count as nat),
        decreases links.len() - k,
    {
        proof {
            let t = links@.take(k + 1);
            assert(t.drop_last() =~= links@.take(k as int));
        }
        let l = &links[k];
        if l.0 > count {
            let mut w: Vec<char> = Vec::new();
            push_str(&mut w, "CRITERION tag #");
            let a = decimal_usize(l.0);
            push_chars(&mut w, a.as_slice());
            push_str(&mut w, "  at ");
            push_str(&mut w, l.1.as_str());
            push_str(&mut w, ":");
            let b = decimal_usize(l.2);
            push_chars(&mut w, b.as_slice());
            push_str(&mut w, " references index beyond criterion count (");
            let c = decimal_usize(count);
            push_chars(&mut w, c.as_slice());
            push_str(&mut w, ")");
            let ghost before = views(warnings@);
            warnings.push(string_of(w.as_slice()));
            assert(views(warnings@) =~= before.push(beyond_warning(*l, count as nat)));
        }
        k = k + 1;
    }
    assert(links@.take(k as int) =~= links@);
    CriteriaReport { req_id: req_id.to_owned(), criteria, warnings }
}

// ───────────────────────── source spans ─────────────────────────

/// The text of lines `line..=end` (1-based) of `content`, joined with
/// newlines, where `end` is the end line or `line`; the end is capped at
/// the number of lines, and a span starting after its end is empty.
pub open spec fn span_text(content: Seq<char>, line: nat, line_end: Option<usize>) -> Seq<char> {
    let ls = lines(content);
    let end = match line_end {
        Some(e) => e as nat,
        None => line,
    };
    let start = sat_sub(line, 1);
    let stop = if end < ls.len() {
        end
    } else {
        ls.len()
    };
    if start <= stop {
        join(ls.subrange(start as int, stop as int), "\n"@)
    } else {
        seq![]
    }
}

/// The source span of a code reference whose file holds `content`.
pub fn span_from_content(cr: &CodeRef, content: &str) -> (s: SourceSpan)
    ensures
        s.req_id@ == cr.req_id@,
        s.file@ == cr.file@,
        s.line == cr.line,
        s.line_end == cr.line_end,
        s.source_text@ == span_text(content@, cr.line as nat, cr.line_end),
        s.read_warning is None,
{
    let cs = chars_of(content);
    let ls = split_lines(cs.as_slice());
    let ghost lv = ls.deep_view();
    let end = match cr.line_end {
        Some(e) => e,
        None => cr.line,
    };
    let start = if cr.line >= 1 {
        cr.line - 1
    } else {
        0
    };
    let stop = if end < ls.len() {
        end
    } else {
        ls.len()
    };
    let mut text: Vec<char> = Vec::new();
    if start <= stop {
        let mut i: usize = start;
        assert(lv.subrange(start as int, start as int) =~= Seq::<Seq<char>>::empty());
        while i < stop
            invariant
                start <= i <= stop <= ls@.len(),
                lv == ls.deep_view(),
                text@ == join(lv.subrange(start as int, i as int), "\n"@),
            decreases stop - i,
        {
            proof {
                let t = lv.subrange(start as int, i + 1);
                assert(t.drop_last() =~= lv.subrange(start as int, i as int));
                assert(t.last() == ls@[i as int]@);
                lemma_join_push_nl(lv.subrange(start as int, i as int), ls@[i as int]@);
                assert(lv.subrange(start as int, i as int).push(ls@[i as int]@) =~= t);
            }
            if i > start {
                push_str(&mut text, "\n");
            }
            push_chars(&mut text, ls[i].as_slice());
            i = i + 1;
        }
    }
    SourceSpan {
        req_id: cr.req_id.clone(),
        file: cr.file.clone(),
        line: cr.line,
        line_end: cr.line_end,
        source_text: string_of(text.as_slice()),
        read_warning: None,
    }
}

proof fn lemma_join_push_nl(parts: Seq<Seq<char>>, x: Seq<char>)
    ensures
        join(parts.push(x), "\n"@) == if parts.len() == 0 {
            x
        } else {
            join(parts, "\n"@) + "\n"@ + x
        },
{
    assert(parts.push(x).drop_last() =~= parts);
    if parts.len() == 0 {
        assert(parts.push(x) =~= seq![x]);
    }
}

/// The source span of a code reference whose file could not be read: no
/// text, and the warning `could not read <file>: <error>`.
pub fn span_unreadable(cr: &CodeRef, error: &str) -> (s: SourceSpan)
    ensures
        s.req_id@ == cr.req_id@,
        s.file@ == cr.file@,
        s.line == cr.line,
        s.line_end == cr.line_end,
        s.source_text@.len() == 0,
        s.read_warning matches Some(w) && w@ == "could not read "@ + cr.file@ + ": "@ + error@,
{
    let mut w: Vec<char> = Vec::new();
    push_str(&mut w, "could not read ");
    push_str(&mut w, cr.file.as_str());
    push_str(&mut w, ": ");
    push_str(&mut w, error);
    SourceSpan {
        req_id: cr.req_id.clone(),
        file: cr.file.clone(),
        line: cr.line,
        line_end: cr.line_end,
        source_text: String::new(),
        read_warning: Some(string_of(w.as_slice())),
    }
}

// ───────────────────────── import staleness ─────────────────────────

/// The digest recorded for an import source: the SHA-256 digest of the
/// file's content as 64 lower-case hexadecimal digits.
pub fn import_digest(content: &[u8]) -> (h: String)
    ensures
        h@ == sha256_hex_of(content@),
        h@.len() == 64,
        forall|i: int| 0 <= i < 64 ==> is_lower_hex_digit(#[trigger] h@[i]),
{
    sha256_hex(content)
}

/// Staleness of an import source: `orphaned` when its file is gone, none
/// when the digest of the file's current content is the recorded one, else
/// `stale` (also when the file could not be read).
pub open spec fn import_status_spec(exists: bool, current: Option<Seq<u8>>, recorded: Seq<char>) -> Option<
    Seq<char>,
> {
    if !exists {
        Some("orphaned"@)
    } else if current matches Some(c) && sha256_hex_of(c) == recorded {
        None
    } else {
        Some("stale"@)
    }
}

/// Staleness of an import source from whether its file exists, the file's
/// current content if it could be read, and the recorded digest (see
/// `import_status_spec`).
pub fn import_status(exists: bool, current: Option<&[u8]>, recorded: &str) -> (r: Option<
    &'static str,
>)
    ensures
        match import_status_spec(
            exists,
            match current {
                Some(c) => Some(c@),
                None => None,
            },
            recorded@,
        ) {
            Some(x) => r matches Some(y) && y@ == x,
            None => r is None,
        },
{
    if !exists {
        return Some("orphaned");
    }
    match current {
        Some(c) => {
            let h = import_digest(c);
            let hc = chars_of(h.as_str());
            if crate::text::chars_eq_str(hc.as_slice(), recorded) {
                None
            } else {
                Some("stale")
            }
        },
        None => Some("stale"),
    }
}

// ───────────────────────── export ─────────────────────────

/// `path` relative to `base` (when `base` is a prefix of it), with
/// backslashes as forward slashes.
pub open spec fn normalized_path(path: Seq<char>, base: Seq<char>) -> Seq<char> {
    norm_path(
        match stripped_prefix(path, base) {
            Some(r) => r,
            None => path,
        },
    )
}

/// Return `path` as a forward-slash string relative to `base`.
pub fn normalize_path(path: &str, base: &str) -> (r: String)
    ensures
        r@ == normalized_path(path@, base@),
{
    let rel = match path_strip_prefix(path, base) {
        Some(r) => r,
        None => path.to_owned(),
    };
    let n = norm_path_exec(rel.as_str());
    string_of(n.as_slice())
}

/// Separator between requirements in a Markdown export.
pub open spec fn export_separator() -> Seq<char> {
    "\n\n---\n\n"@
}

/// Join Markdown renderings for a multi-requirement export.
pub fn join_exports(parts: &[String]) -> (r: String)
    ensures
        r@ == join(views(parts@), export_separator()),
{
    let mut w: Vec<char> = Vec::new();
    let mut i: usize = 0;
    assert(views(parts@).take(0) =~= Seq::<Seq<char>>::empty());
    while i < parts.len()
        invariant
            i <= parts@.len(),
            w@ == join(views(parts@).take(i as int), export_separator()),
        decreases parts.len() - i,
    {
        proof {
            let t = views(parts@).take(i + 1);
            assert(t.drop_last() =~= views(parts@).take(i as int));
            assert(t.last() == parts@[i as int]@);
            if i == 0 {
                assert(t =~= seq![parts@[0]@]);
            }
        }
        if i > 0 {
            push_str(&mut w, "\n\n---\n\n");
        }
        push_str(&mut w, parts[i].as_str());
        i = i + 1;
    }
    assert(views(parts@).take(i as int) =~= views(parts@));
    string_of(w.as_slice())
}

/// Export formats.
#[derive(Clone, Copy, Debug, PartialEq, Eq, Structural)]
pub enum ExportFormat {
    /// `json`: the requirements as a JSON array
    Json,
    /// `ai-context` or `ai`: an AI export snapshot
    AiContext,
    /// `markdown` or `md`: Markdown files joined by a separator
    Markdown,
}

/// The export format a name selects.
pub open spec fn export_format_of(name: Seq<char>) -> Option<ExportFormat> {
    if name == "json"@ {
        Some(ExportFormat::Json)
    } else if name == "ai-context"@ || name == "ai"@ {
        Some(ExportFormat::AiContext)
    } else if name == "markdown"@ || name == "md"@ {
        Some(ExportFormat::Markdown)
    } else {
        None
    }
}

impl ExportFormat {
    /// Select an export format by name; an unknown name is a configuration
    /// error `Unknown export format: <name>`.
    pub fn parse(name: &str) -> (r: Result<ExportFormat, Error>)
        ensures
            match export_format_of(name@) {
                Some(f) => r == Ok::<ExportFormat, Error>(f),
                None => r matches Err(Error::Config(m)) && m@ == "Unknown export format: "@ + name@,
            },
    {
        let c = chars_of(name);
        let cs = c.as_slice();
        if crate::text::chars_eq_str(cs, "json") {
            Ok(ExportFormat::Json)
        } else if crate::text::chars_eq_str(cs, "ai-context") || crate::text::chars_eq_str(cs, "ai") {
            Ok(ExportFormat::AiContext)
        } else if crate::text::chars_eq_str(cs, "markdown") || crate::text::chars_eq_str(cs, "md") {
            Ok(ExportFormat::Markdown)
        } else {
            Err(Error::Config(concat_strs("Unknown export format: ", name)))
        }
    }
}

/// Import formats.
#[derive(Clone, Copy, Debug, PartialEq, Eq, Structural)]
pub enum ImportFormat {
    /// `json`
    Json,
    /// `markdown` or `md`
    Markdown,
}

/// The import format a name selects.
pub open spec fn import_format_of(name: Seq<char>) -> Option<ImportFormat> {
    if name == "json"@ {
        Some(ImportFormat::Json)
    } else if name == "markdown"@ || name == "md"@ {
        Some(ImportFormat::Markdown)
    } else {
        None
    }
}

impl ImportFormat {
    /// Select an import format by name; an unknown name is a configuration
    /// error `Unknown import format: <name>`.
    pub fn parse(name: &str) -> (r: Result<ImportFormat, Error>)
        ensures
            match import_format_of(name@) {
                Some(f) => r == Ok::<ImportFormat, Error>(f),
                None => r matches Err(Error::Config(m)) && m@ == "Unknown import format: "@ + name@,
            },
    {
        let c = chars_of(name);
        let cs = c.as_slice();
        if crate::text::chars_eq_str(cs, "json") {
            Ok(ImportFormat::Json)
        } else if crate::text::chars_eq_str(cs, "markdown") || crate::text::chars_eq_str(cs, "md") {
            Ok(ImportFormat::Markdown)
        } else {
            Err(Error::Config(concat_strs("Unknown import format: ", name)))
        }
    }
}

// ───────────────────────── code reference deduplication ─────────────────────────

/// The end line a code reference is ranked by (0 when unknown).
pub open spec fn end_rank(c: CodeRef) -> nat {
    match c.line_end {
        Some(e) => e as nat,
        None => 0,
    }
}

/// Two code references are for the same requirement, file and line.
pub open spec fn same_slot(a: CodeRef, b: CodeRef) -> bool {
    a.req_id@ == b.req_id@ && a.file@ == b.file@ && a.line == b.line
}

/// `v[i]` is kept: no other reference in its slot has a greater end line,
/// and none before it has the same end line.
pub open spec fn widest_at(v: Seq<CodeRef>, i: int) -> bool {
    forall|j: int|
        0 <= j < v.len() && j != i && #[trigger] same_slot(v[j], v[i]) ==> end_rank(v[j]) < end_rank(
            v[i],
        ) || (end_rank(v[j]) == end_rank(v[i]) && j > i)
}

/// The kept references among the first `n`, in order.
pub open spec fn widest_prefix(v: Seq<CodeRef>, n: int) -> Seq<CodeRef>
    decreases n,
{
    if n <= 0 {
        seq![]
    } else if widest_at(v, n - 1) {
        widest_prefix(v, n - 1).push(v[n - 1])
    } else {
        widest_prefix(v, n - 1)
    }
}

fn widest_at_exec(v: &[CodeRef], i: usize) -> (b: bool)
    requires
        i < v@.len(),
    ensures
        b == widest_at(v@, i as int),
{
    let ri = match v[i].line_end {
        Some(e) => e,
        None => 0,
    };
    let mut j: usize = 0;
    while j < v.len()
        invariant
            i < v@.len(),
            j <= v@.len(),
            ri as nat == end_rank(v@[i as int]),
            forall|k: int|
                0 <= k < j && k != i && #[trigger] same_slot(v@[k], v@[i as int]) ==> end_rank(v@[k])
                    < end_rank(v@[i as int]) || (end_rank(v@[k]) == end_rank(v@[i as int]) && k > i),
        decreases v.len() - j,
    {
        if j != i && v[j].req_id == v[i].req_id && v[j].file == v[i].file && v[j].line == v[i].line {
            let rj = match v[j].line_end {
                Some(e) => e,
                None => 0,
            };
            if !(rj < ri || (rj == ri && j > i)) {
                assert(same_slot(v@[j as int], v@[i as int]));
                return false;
            }
        }
        j = j + 1;
    }
    true
}

/// Deduplicate code references: of the references for one requirement,
/// file and line (as repeated scans leave), keep the one with the greatest
/// end line (unknown counting as 0), the first such; order is kept.
pub fn widest_code_refs(refs: Vec<CodeRef>) -> (r: Vec<CodeRef>)
    ensures
        r@ == widest_prefix(refs@, refs@.len() as int),
{
    let mut keep: Vec<bool> = Vec::new();
    let mut i: usize = 0;
    while i < refs.len()
        invariant
            i <= refs@.len(),
            keep@.len() == i,
            forall|k: int| 0 <= k < i ==> #[trigger] keep@[k] == widest_at(refs@, k),
        decreases refs.len() - i,
    {
        keep.push(widest_at_exec(refs.as_slice(), i));
        i = i + 1;
    }
    let ghost input = refs@;
    let mut out: Vec<CodeRef> = Vec::new();
    let mut idx: usize = 0;
    for c in it: refs
        invariant
            it.seq() == input,
            idx == it.index(),
            keep@.len() == input.len(),
            forall|k: int| 0 <= k < input.len() ==> #[trigger] keep@[k] == widest_at(input, k),
            out@ == widest_prefix(input, it.index() as int),
    {
        proof {
            assert(input[idx as int] == c);
        }
        assert(idx < keep.len());
        if keep[idx] {
            out.push(c);
        }
        idx = idx + 1;
    }
    out
}

// ───────────────────────── ordering ─────────────────────────

/// Position at which insertion sort places `x` among `s`: before the first
/// element whose id is greater than `x`'s.
pub open spec fn id_insert_pos(s: Seq<Requirement>, x: Requirement) -> int
    decreases s.len(),
{
    if s.len() == 0 {
        0
    } else if lex_lt(x.id@, s[0].id@) {
        0
    } else {
        1 + id_insert_pos(s.drop_first(), x)
    }
}

/// Requirements stably sorted by id (as insertion sort leaves them).
pub open spec fn sorted_by_id(s: Seq<Requirement>) -> Seq<Requirement>
    decreases s.len(),
{
    if s.len() == 0 {
        s
    } else {
        let t = sorted_by_id(s.drop_last());
        t.insert(id_insert_pos(t, s.last()), s.last())
    }
}

proof fn lemma_id_insert_pos(s: Seq<Requirement>, x: Requirement, k: int)
    requires
        0 <= k <= s.len(),
        forall|j: int| 0 <= j < k ==> !lex_lt(x.id@, #[trigger] s[j].id@),
        k == s.len() || lex_lt(x.id@, s[k].id@),
    ensures
        id_insert_pos(s, x) == k,
    decreases k,
{
    if k > 0 {
        assert forall|j: int| 0 <= j < k - 1 implies !lex_lt(x.id@, #[trigger] s.drop_first()[j].id@) by {
            assert(s.drop_first()[j] == s[j + 1]);
        }
        lemma_id_insert_pos(s.drop_first(), x, k - 1);
    }
}

/// Sort requirements by id (stable).
pub fn sort_by_id(reqs: Vec<Requirement>) -> (r: Vec<Requirement>)
    ensures
        r@ == sorted_by_id(reqs@),
{
    let ghost input = reqs@;
    let mut out: Vec<Requirement> = Vec::new();
    assert(input.take(0) =~= Seq::<Requirement>::empty());
    for x in it: reqs
        invariant
            it.seq() == input,
            out@ == sorted_by_id(input.take(it.index() as int)),
    {
        let ghost i = it.index() as int;
        let mut k: usize = 0;
        while k < out.len() && !string_less(&x.id, &out[k].id)
            invariant
                k <= out@.len(),
                forall|j: int| 0 <= j < k ==> !lex_lt(x.id@, #[trigger] out@[j].id@),
            decreases out.len() - k,
        {
            k = k + 1;
        }
        proof {
            lemma_id_insert_pos(out@, x, k as int);
            let t = input.take(i + 1);
            assert(t.drop_last() =~= input.take(i));
            assert(t.last() == x);
        }
        out.insert(k, x);
    }
    proof {
        assert(input.take(input.len() as int) =~= input);
    }
    out
}

/// Code reference order for exports: by requirement id, then file, then
/// line (strictly before).
pub open spec fn ref_before(a: CodeRef, b: CodeRef) -> bool {
    ||| lex_lt(a.req_id@, b.req_id@)
    ||| a.req_id@ == b.req_id@ && lex_lt(a.file@, b.file@)
    ||| a.req_id@ == b.req_id@ && a.file@ == b.file@ && a.line < b.line
}

/// Position at which insertion sort places `x` among `s`.
pub open spec fn ref_insert_pos(s: Seq<CodeRef>, x: CodeRef) -> int
    decreases s.len(),
{
    if s.len() == 0 {
        0
    } else if ref_before(x, s[0]) {
        0
    } else {
        1 + ref_insert_pos(s.drop_first(), x)
    }
}

/// Code references stably sorted by requirement id, file and line.
pub open spec fn sorted_refs(s: Seq<CodeRef>) -> Seq<CodeRef>
    decreases s.len(),
{
    if s.len() == 0 {
        s
    } else {
        let t = sorted_refs(s.drop_last());
        t.insert(ref_insert_pos(t, s.last()), s.last())
    }
}

proof fn lemma_ref_insert_pos(s: Seq<CodeRef>, x: CodeRef, k: int)
    requires
        0 <= k <= s.len(),
        forall|j: int| 0 <= j < k ==> !ref_before(x, #[trigger] s[j]),
        k == s.len() || ref_before(x, s[k]),
    ensures
        ref_insert_pos(s, x) == k,
    decreases k,
{
    if k > 0 {
        assert forall|j: int| 0 <= j < k - 1 implies !ref_before(x, #[trigger] s.drop_first()[j]) by {
            assert(s.drop_first()[j] == s[j + 1]);
        }
        lemma_ref_insert_pos(s.drop_first(), x, k - 1);
    }
}

fn ref_before_exec(a: &CodeRef, b: &CodeRef) -> (r: bool)
    ensures
        r == ref_before(*a, *b),
{
    if string_less(&a.req_id, &b.req_id) {
        return true;
    }
    if !(a.req_id == b.req_id) {
        return false;
    }
    if string_less(&a.file, &b.file) {
        return true;
    }
    if !(a.file == b.file) {
        return false;
    }
    a.line < b.line
}

/// Sort code references by requirement id, file and line (stable).
pub fn sort_code_refs(refs: Vec<CodeRef>) -> (r: Vec<CodeRef>)
    ensures
        r@ == sorted_refs(refs@),
{
    let ghost input = refs@;
    let mut out: Vec<CodeRef> = Vec::new();
    assert(input.take(0) =~= Seq::<CodeRef>::empty());
    for x in it: refs
        invariant
            it.seq() == input,
            out@ == sorted_refs(input.take(it.index() as int)),
    {
        let ghost i = it.index() as int;
        let mut k: usize = 0;
        while k < out.len() && !ref_before_exec(&x, &out[k])
            invariant
                k <= out@.len(),
                forall|j: int| 0 <= j < k ==> !ref_before(x, #[trigger] out@[j]),
            decreases out.len() - k,
        {
            k = k + 1;
        }
        proof {
            lemma_ref_insert_pos(out@, x, k as int);
            let t = input.take(i + 1);
            assert(t.drop_last() =~= input.take(i));
            assert(t.last() == x);
        }
        out.insert(k, x);
    }
    proof {
        assert(input.take(input.len() as int) =~= input);
    }
    out
}

/// The code references of an AI export: sorted by requirement id, file
/// and line, each file made relative to `base` with forward slashes.
pub fn export_code_refs(refs: Vec<CodeRef>, base: &str) -> (r: Vec<CodeRef>)
    ensures
        r@.len() == refs@.len(),
        forall|i: int|
            0 <= i < r@.len() ==> {
                let c = #[trigger] sorted_refs(refs@)[i];
                let d = r@[i];
                &&& d.req_id == c.req_id
                &&& d.file@ == normalized_path(c.file@, base@)
                &&& d.line == c.line
                &&& d.line_end == c.line_end
                &&& d.hash == c.hash
                &&& d.symbol == c.symbol
            },
{
    let sorted = sort_code_refs(refs);
    proof {
        lemma_sorted_refs_len(refs@);
    }
    let ghost input = sorted@;
    let mut out: Vec<CodeRef> = Vec::new();
    for c in it: sorted
        invariant
            it.seq() == input,
            input == sorted_refs(refs@),
            out@.len() == it.index(),
            forall|i: int|
                0 <= i < out@.len() ==> {
                    let c = #[trigger] input[i];
                    let d = out@[i];
                    &&& d.req_id == c.req_id
                    &&& d.file@ == normalized_path(c.file@, base@)
                    &&& d.line == c.line
                    &&& d.line_end == c.line_end
                    &&& d.hash == c.hash
                    &&& d.symbol == c.symbol
                },
    {
        let ghost k = it.index() as int;
        proof {
            assert(input[k] == c);
        }
        let file = normalize_path(c.file.as_str(), base);
        let d = CodeRef {
            req_id: c.req_id,
            file,
            line: c.line,
            line_end: c.line_end,
            hash: c.hash,
            symbol: c.symbol,
        };
        out.push(d);
    }
    out
}

/// Sorting keeps the number of code references.
pub proof fn lemma_sorted_refs_len(s: Seq<CodeRef>)
    ensures
        sorted_refs(s).len() == s.len(),
    decreases s.len(),
{
    if s.len() > 0 {
        lemma_sorted_refs_len(s.drop_last());
        lemma_ref_insert_pos_bounds(sorted_refs(s.drop_last()), s.last());
    }
}

proof fn lemma_ref_insert_pos_bounds(s: Seq<CodeRef>, x: CodeRef)
    ensures
        0 <= ref_insert_pos(s, x) <= s.len(),
    decreases s.len(),
{
    if s.len() > 0 {
        lemma_ref_insert_pos_bounds(s.drop_first(), x);
    }
}

// ───────────────────────── audit bundle ─────────────────────────

/// The read warnings of spans, in order.
pub open spec fn span_warnings(s: Seq<SourceSpan>) -> Seq<Seq<char>>
    decreases s.len(),
{
    if s.len() == 0 {
        seq![]
    } else {
        let prev = span_warnings(s.drop_last());
        match s.last().read_warning {
            Some(w) => prev.push(w@),
            None => prev,
        }
    }
}

fn push_span_warnings(out: &mut Vec<String>, spans: &Vec<SourceSpan>)
    ensures
        views(final(out)@) == views(old(out)@) + span_warnings(spans@),
{
    let ghost start = views(out@);
    let mut i: usize = 0;
    assert(span_warnings(spans@.take(0)) =~= Seq::<Seq<char>>::empty());
    assert(views(out@) =~= start + span_warnings(spans@.take(0)));
    while i < spans.len()
        invariant
            i <= spans@.len(),
            views(out@) == start + span_warnings(spans@.take(i as int)),
        decreases spans.len() - i,
    {
        proof {
            let t = spans@.take(i + 1);
            assert(t.drop_last() =~= spans@.take(i as int));
        }
        let ghost before = views(out@);
        match &spans[i].read_warning {
            Some(w) => {
                out.push(w.clone());
                assert(views(out@) =~= before.push(w@));
            },
            None => {},
        }
        i = i + 1;
    }
    assert(spans@.take(i as int) =~= spans@);
}

/// The bundle entry of a criterion: its test location, when linked, is a
/// span of the requirement at the linking file and line, with no text.
pub open spec fn audit_criterion_ok(a: AuditCriterion, c: CriterionStatus, req_id: Seq<char>) -> bool {
    &&& a.index == c.index
    &&& a.text@ == c.text@
    &&& a.linked == c.linked
    &&& match c.test_file {
        Some(f) => a.test_locations@.len() == 1 && {
            let s = a.test_locations@[0];
            &&& s.req_id@ == req_id
            &&& s.file@ == f@
            &&& s.line == match c.test_line {
                Some(l) => l,
                None => 0,
            }
            &&& s.line_end is None
            &&& s.source_text@.len() == 0
            &&& s.read_warning is None
        },
        None => a.test_locations@.len() == 0,
    }
}

/// Assemble the audit bundle of an LLR from its parts: the criteria are
/// listed with their test locations, the warnings are the criteria
/// report's followed by the read warnings of the implementation and test
/// spans, and the schema version, tool version and prompt hint are fixed.
pub fn audit_bundle(
    req_id: &str,
    llr: Requirement,
    hlr: Option<Requirement>,
    implementation_spans: Vec<SourceSpan>,
    test_spans: Vec<SourceSpan>,
    triviality_findings: Vec<TrivialityFinding>,
    criteria: CriteriaReport,
    mutation_score: Option<MutationScore>,
    line_coverage_score: Option<LineCoverageScore>,
) -> (b: AuditBundle)
    ensures
        b.schema_version@ == AUDIT_SCHEMA_VERSION@,
        b.tool_version@ == TOOL_VERSION@,
        b.prompt_hint@ == AUDIT_PROMPT_HINT@,
        rfc3339_utc(b.generated_at@),
        b.llr == llr,
        b.hlr == hlr,
        b.acceptance_criteria@.len() == criteria.criteria@.len(),
        forall|i: int|
            0 <= i < b.acceptance_criteria@.len() ==> audit_criterion_ok(
                #[trigger] b.acceptance_criteria@[i],
                criteria.criteria@[i],
                req_id@,
            ),
        b.implementation_spans == implementation_spans,
        b.test_spans == test_spans,
        b.triviality_findings == triviality_findings,
        b.mutation_score == mutation_score,
        b.line_coverage_score == line_coverage_score,
        b.criterion_coverage == criteria.criteria,
        views(b.warnings@) == views(criteria.warnings@) + span_warnings(implementation_spans@)
            + span_warnings(test_spans@),
{
    let mut acceptance: Vec<AuditCriterion> = Vec::new();
    let mut i: usize = 0;
    while i < criteria.criteria.len()
        invariant
            i <= criteria.criteria@.len(),
            acceptance@.len() == i,
            forall|k: int|
                0 <= k < i ==> audit_criterion_ok(
                    #[trigger] acceptance@[k],
                    criteria.criteria@[k],
                    req_id@,
                ),
        decreases criteria.criteria.len() - i,
    {
        let c = &criteria.criteria[i];
        let mut locations: Vec<SourceSpan> = Vec::new();
        match &c.test_file {
            Some(f) => {
                let line = match c.test_line {
                    Some(l) => l,
                    None => 0,
                };
                locations.push(
                    SourceSpan {
                        req_id: req_id.to_owned(),
                        file: f.clone(),
                        line,
                        line_end: None,
                        source_text: String::new(),
                        read_warning: None,
                    },
                );
            },
            None => {},
        }
        let a = AuditCriterion {
            index: c.index,
            text: c.text.clone(),
            linked: c.linked,
            test_locations: locations,
        };
        assert(audit_criterion_ok(a, criteria.criteria@[i as int], req_id@));
        acceptance.push(a);
        i = i + 1;
    }
    let mut warnings: Vec<String> = Vec::new();
    let mut k: usize = 0;
    while k < criteria.warnings.len()
        invariant
            k <= criteria.warnings@.len(),
            views(warnings@) == views(criteria.warnings@.take(k as int)),
        decreases criteria.warnings.len() - k,
    {
        let ghost before = views(warnings@);
        let w = criteria.warnings[k].clone();
        warnings.push(w);
        assert(views(warnings@) =~= before.push(criteria.warnings@[k as int]@));
        assert(criteria.warnings@.take(k + 1) =~= criteria.warnings@.take(k as int).push(criteria.warnings@[k as int]));
        assert(views(warnings@) =~= views(criteria.warnings@.take(k + 1)));
        k = k + 1;
    }
    assert(criteria.warnings@.take(k as int) =~= criteria.warnings@);
    push_span_warnings(&mut warnings, &implementation_spans);
    push_span_warnings(&mut warnings, &test_spans);
    AuditBundle {
        schema_version: AUDIT_SCHEMA_VERSION.to_owned(),
        tool_version: TOOL_VERSION.to_owned(),
        generated_at: now_rfc3339(),
        llr,
        hlr,
        acceptance_criteria: acceptance,
        implementation_spans,
        test_spans,
        triviality_findings,
        mutation_score,
        line_coverage_score,
        criterion_coverage: criteria.criteria,
        prompt_hint: AUDIT_PROMPT_HINT.to_owned(),
        warnings,
    }
}

/// The first mutation score for `id`.
pub fn find_mutation_score(scores: Vec<MutationScore>, id: &str) -> (r: Option<MutationScore>)
    ensures
        match r {
            Some(s) => exists|k: int|
                0 <= k < scores@.len() && scores@[k] == s && s.req_id@ == id@ && forall|j: int|
                    0 <= j < k ==> #[trigger] scores@[j].req_id@ != id@,
            None => forall|j: int| 0 <= j < scores@.len() ==> #[trigger] scores@[j].req_id@ != id@,
        },
{
    let key = id.to_owned();
    let ghost input = scores@;
    for s in it: scores
        invariant
            it.seq() == input,
            key@ == id@,
            forall|j: int| 0 <= j < it.index() ==> #[trigger] input[j].req_id@ != id@,
    {
        let ghost k = it.index() as int;
        assert(input[k] == s);
        if s.req_id == key {
            return Some(s);
        }
    }
    None
}

/// The first line coverage score for `id`.
pub fn find_coverage_score(scores: Vec<LineCoverageScore>, id: &str) -> (r: Option<LineCoverageScore>)
    ensures
        match r {
            Some(s) => exists|k: int|
                0 <= k < scores@.len() && scores@[k] == s && s.req_id@ == id@ && forall|j: int|
                    0 <= j < k ==> #[trigger] scores@[j].req_id@ != id@,
            None => forall|j: int| 0 <= j < scores@.len() ==> #[trigger] scores@[j].req_id@ != id@,
        },
{
    let key = id.to_owned();
    let ghost input = scores@;
    for s in it: scores
        invariant
            it.seq() == input,
            key@ == id@,
            forall|j: int| 0 <= j < it.index() ==> #[trigger] input[j].req_id@ != id@,
    {
        let ghost k = it.index() as int;
        assert(input[k] == s);
        if s.req_id == key {
            return Some(s);
        }
    }
    None
}

// ───────────────────────── triviality reports ─────────────────────────

/// A copy of a finding.
pub fn duplicate_finding(f: &TrivialityFinding) -> (r: TrivialityFinding)
    ensures
        finding_view(r) == finding_view(*f),
{
    TrivialityFinding {
        req_id: f.req_id.clone(),
        file: f.file.clone(),
        line: f.line,
        pattern: f.pattern,
        severity: f.severity,
        matched_text: f.matched_text.clone(),
    }
}

/// The ids of per-reference results, each once, in order of first mention.
pub open spec fn result_ids(per_ref: Seq<(String, Vec<TrivialityFinding>)>) -> Seq<Seq<char>>
    decreases per_ref.len(),
{
    if per_ref.len() == 0 {
        seq![]
    } else {
        let d = result_ids(per_ref.drop_last());
        if d.contains(per_ref.last().0@) {
            d
        } else {
            d.push(per_ref.last().0@)
        }
    }
}

/// The findings of the per-reference results for `id`, in order.
pub open spec fn findings_for(per_ref: Seq<(String, Vec<TrivialityFinding>)>, id: Seq<char>) -> Seq<
    FindingView,
>
    decreases per_ref.len(),
{
    if per_ref.len() == 0 {
        seq![]
    } else {
        let prev = findings_for(per_ref.drop_last(), id);
        if per_ref.last().0@ == id {
            prev + finding_views(per_ref.last().1@)
        } else {
            prev
        }
    }
}

fn collect_findings(per_ref: &[(String, Vec<TrivialityFinding>)], id: &String) -> (r: Vec<
    TrivialityFinding,
>)
    ensures
        finding_views(r@) == findings_for(per_ref@, id@),
{
    let mut out: Vec<TrivialityFinding> = Vec::new();
    let mut i: usize = 0;
    assert(finding_views(out@) =~= findings_for(per_ref@.take(0), id@));
    while i < per_ref.len()
        invariant
            i <= per_ref@.len(),
            finding_views(out@) == findings_for(per_ref@.take(i as int), id@),
        decreases per_ref.len() - i,
    {
        proof {
            let t = per_ref@.take(i + 1);
            assert(t.drop_last() =~= per_ref@.take(i as int));
        }
        if per_ref[i].0 == *id {
            let fs = &per_ref[i].1;
            let ghost start = finding_views(out@);
            let mut j: usize = 0;
            while j < fs.len()
                invariant
                    j <= fs@.len(),
                    finding_views(out@) == start + finding_views(fs@.take(j as int)),
                decreases fs.len() - j,
            {
                let ghost before = finding_views(out@);
                let f = duplicate_finding(&fs[j]);
                out.push(f);
                assert(finding_views(out@) =~= before.push(finding_view(f)));
                assert(finding_views(fs@.take(j + 1)) =~= finding_views(fs@.take(j as int)).push(
                    finding_view(fs@[j as int]),
                ));
                j = j + 1;
            }
            assert(fs@.take(j as int) =~= fs@);
        }
        i = i + 1;
    }
    assert(per_ref@.take(i as int) =~= per_ref@);
    out
}

/// Group per-reference triviality findings by requirement: one report per
/// requirement id (in order of first mention, also when it has no
/// findings) with the findings of all its references, in order.
pub fn triviality_reports(per_ref: &[(String, Vec<TrivialityFinding>)]) -> (r: Vec<
    TrivialityReport,
>)
    ensures
        r@.map_values(|t: TrivialityReport| t.req_id@) == result_ids(per_ref@),
        forall|k: int|
            0 <= k < r@.len() ==> finding_views(#[trigger] r@[k].findings@) == findings_for(
                per_ref@,
                r@[k].req_id@,
            ),
{
    let mut ids: Vec<String> = Vec::new();
    let mut i: usize = 0;
    assert(views(ids@) =~= result_ids(per_ref@.take(0)));
    while i < per_ref.len()
        invariant
            i <= per_ref@.len(),
            views(ids@) == result_ids(per_ref@.take(i as int)),
        decreases per_ref.len() - i,
    {
        proof {
            let t = per_ref@.take(i + 1);
            assert(t.drop_last() =~= per_ref@.take(i as int));
        }
        if !contains_string(&ids, &per_ref[i].0) {
            let ghost before = views(ids@);
            ids.push(per_ref[i].0.clone());
            assert(views(ids@) =~= before.push(per_ref@[i as int].0@));
        }
        i = i + 1;
    }
    assert(per_ref@.take(i as int) =~= per_ref@);
    let mut out: Vec<TrivialityReport> = Vec::new();
    let mut k: usize = 0;
    while k < ids.len()
        invariant
            k <= ids@.len(),
            views(ids@) == result_ids(per_ref@),
            out@.len() == k,
            forall|x: int| 0 <= x < k ==> #[trigger] out@[x].req_id@ == ids@[x]@,
            forall|x: int|
                0 <= x < k ==> finding_views(#[trigger] out@[x].findings@) == findings_for(
                    per_ref@,
                    out@[x].req_id@,
                ),
        decreases ids.len() - k,
    {
        let findings = collect_findings(per_ref, &ids[k]);
        out.push(TrivialityReport { req_id: ids[k].clone(), findings });
        k = k + 1;
    }
    assert(out@.map_values(|t: TrivialityReport| t.req_id@) =~= views(ids@));
    out
}

// ───────────────────────── scanning ─────────────────────────

/// A link as plain values: source, target, type.
pub open spec fn link_view(l: Link) -> (Seq<char>, Seq<char>, LinkType) {
    (l.source@, l.target@, l.link_type)
}

/// "Is a `VERIFIES` tag", as a predicate.
pub open spec fn verifies_pred() -> spec_fn(TagSpec) -> bool {
    |t: TagSpec| t.tag_type == TagType::Verifies
}

/// The `Verifies` links of a file's tags: from the file to each
/// `VERIFIES` tag's requirement, in order.
pub fn verifies_links(file: &str, tags: &[FoundTag]) -> (r: Vec<Link>)
    ensures
        r@.map_values(|l: Link| link_view(l)) == tag_views(tags@).filter(verifies_pred()).map_values(
            |t: TagSpec| (file@, t.req_id, LinkType::Verifies),
        ),
{
    let ghost tv = tag_views(tags@);
    let mut out: Vec<Link> = Vec::new();
    let mut i: usize = 0;
    assert(out@.map_values(|l: Link| link_view(l)) =~= tv.take(0).filter(verifies_pred()).map_values(
        |t: TagSpec| (file@, t.req_id, LinkType::Verifies),
    ));
    while i < tags.len()
        invariant
            i <= tags@.len(),
            tv == tag_views(tags@),
            out@.map_values(|l: Link| link_view(l)) == tv.take(i as int).filter(
                verifies_pred(),
            ).map_values(|t: TagSpec| (file@, t.req_id, LinkType::Verifies)),
        decreases tags.len() - i,
    {
        let t = &tags[i];
        proof {
            let s = tv.take(i as int);
            assert(tv.take(i + 1) =~= s.push(t@));
            s.lemma_filter_push(t@, verifies_pred());
        }
        let ghost before = out@.map_values(|l: Link| link_view(l));
        if t.tag_type == TagType::Verifies {
            let l = Link { source: file.to_owned(), target: t.req_id.clone(), link_type: LinkType::Verifies };
            out.push(l);
            assert(out@.map_values(|l: Link| link_view(l)) =~= before.push(link_view(l)));
        }
        proof {
            assert(out@.map_values(|l: Link| link_view(l)) =~= tv.take(i + 1).filter(
                verifies_pred(),
            ).map_values(|t: TagSpec| (file@, t.req_id, LinkType::Verifies)));
        }
        i = i + 1;
    }
    assert(tv.take(i as int) =~= tv);
    out
}

/// The criterion links of a file's tags: (requirement id, criterion index,
/// line) of each `CRITERION` tag with an index, in order.
pub open spec fn criterion_links_of(tags: Seq<TagSpec>) -> Seq<(Seq<char>, nat, nat)>
    decreases tags.len(),
{
    if tags.len() == 0 {
        seq![]
    } else {
        let prev = criterion_links_of(tags.drop_last());
        let t = tags.last();
        match t.criterion_index {
            Some(n) => if t.tag_type == TagType::Criterion {
                prev.push((t.req_id, n, t.line))
            } else {
                prev
            },
            None => prev,
        }
    }
}

/// The criterion links of a file's tags (see `criterion_links_of`).
pub fn criterion_links(tags: &[FoundTag]) -> (r: Vec<(String, usize, usize)>)
    ensures
        r@.map_values(|x: (String, usize, usize)| (x.0@, x.1 as nat, x.2 as nat))
            == criterion_links_of(tag_views(tags@)),
{
    let ghost tv = tag_views(tags@);
    let mut out: Vec<(String, usize, usize)> = Vec::new();
    let mut i: usize = 0;
    assert(out@.map_values(|x: (String, usize, usize)| (x.0@, x.1 as nat, x.2 as nat)) =~= criterion_links_of(tv.take(0)));
    while i < tags.len()
        invariant
            i <= tags@.len(),
            tv == tag_views(tags@),
            out@.map_values(|x: (String, usize, usize)| (x.0@, x.1 as nat, x.2 as nat))
                == criterion_links_of(tv.take(i as int)),
        decreases tags.len() - i,
    {
        let t = &tags[i];
        proof {
            let s = tv.take(i + 1);
            assert(s.drop_last() =~= tv.take(i as int));
            assert(s.last() == t@);
        }
        let ghost before = out@.map_values(|x: (String, usize, usize)| (x.0@, x.1 as nat, x.2 as nat));
        if t.tag_type == TagType::Criterion {
            match t.criterion_index {
                Some(n) => {
                    let x = (t.req_id.clone(), n, t.line);
                    out.push(x);
                    assert(out@.map_values(|x: (String, usize, usize)| (x.0@, x.1 as nat, x.2 as nat)) =~= before.push((x.0@, x.1 as nat, x.2 as nat)));
                },
                None => {},
            }
        }
        i = i + 1;
    }
    assert(tv.take(i as int) =~= tv);
    out
}

/// "Names an id not in `existing`", as a predicate.
pub open spec fn undefined_pred(existing: Seq<String>) -> spec_fn(CodeRef) -> bool {
    |c: CodeRef| !views(existing).contains(c.req_id@)
}

/// The requirement ids of code references that are not defined, in order
/// (repeated as often as they occur).
pub fn undefined_refs(refs: &[CodeRef], existing: &[String]) -> (r: Vec<String>)
    ensures
        views(r@) == refs@.filter(undefined_pred(existing@)).map_values(|c: CodeRef| c.req_id@),
{
    let mut out: Vec<String> = Vec::new();
    let mut i: usize = 0;
    assert(views(out@) =~= refs@.take(0).filter(undefined_pred(existing@)).map_values(|c: CodeRef| c.req_id@));
    while i < refs.len()
        invariant
            i <= refs@.len(),
            views(out@) == refs@.take(i as int).filter(undefined_pred(existing@)).map_values(
                |c: CodeRef| c.req_id@,
            ),
        decreases refs.len() - i,
    {
        let c = &refs[i];
        proof {
            let s = refs@.take(i as int);
            assert(refs@.take(i + 1) =~= s.push(*c));
            s.lemma_filter_push(*c, undefined_pred(existing@));
        }
        let ghost before = views(out@);
        if !contains_string(existing, &c.req_id) {
            out.push(c.req_id.clone());
            assert(views(out@) =~= before.push(c.req_id@));
        }
        proof {
            assert(views(out@) =~= refs@.take(i + 1).filter(undefined_pred(existing@)).map_values(
                |c: CodeRef| c.req_id@,
            ));
        }
        i = i + 1;
    }
    assert(refs@.take(i as int) =~= refs@);
    out
}

// ───────────────────────── requirements ─────────────────────────

/// Record the origin of an imported requirement as its `provenance`
/// attribute.
pub fn set_provenance(req: &mut Requirement, provenance: &str)
    ensures
        final(req).attributes.map() == old(req).attributes.map().insert("provenance"@, provenance@),
        final(req).id == old(req).id,
        final(req).req_type == old(req).req_type,
        final(req).title == old(req).title,
        final(req).text == old(req).text,
        final(req).status == old(req).status,
        final(req).parent == old(req).parent,
        final(req).aliases == old(req).aliases,
        final(req).source_file == old(req).source_file,
{
    req.attributes.insert("provenance".to_owned(), provenance.to_owned());
}

/// A new requirement of type `req_type` with the next generated id, the
/// title, parent and status given; an error when the parent is not among
/// the existing ids.
pub fn new_requirement(
    req_type: RequirementType,
    title: &str,
    parent: Option<&str>,
    status: RequirementStatus,
    existing_ids: &[String],
) -> (r: Result<Requirement, Error>)
    requires
        next_id_fits(req_type, existing_ids@),
    ensures
        match parent {
            Some(p) if !views(existing_ids@).contains(p@) => r matches Err(Error::ParentNotFound(m))
                && m@ == p@,
            _ => r matches Ok(q) && {
                &&& q.id@ == next_id(req_type, existing_ids@)
                &&& q.req_type == req_type
                &&& q.title@ == title@
                &&& q.text@.len() == 0
                &&& q.status == status
                &&& match parent {
                    Some(p) => q.parent matches Some(x) && x@ == p@,
                    None => q.parent is None,
                }
                &&& q.aliases@.len() == 0
                &&& q.attributes.map() == Map::<Seq<char>, Seq<char>>::empty()
                &&& q.source_file is None
            },
        },
{
    let id = Requirement::generate_id(req_type, existing_ids);
    match parent {
        Some(p) => {
            let ps = p.to_owned();
            if !contains_string(existing_ids, &ps) {
                return Err(Error::ParentNotFound(ps));
            }
        },
        None => {},
    }
    let mut req = Requirement::new(id, req_type, title.to_owned());
    req.parent = match parent {
        Some(p) => Some(p.to_owned()),
        None => None,
    };
    req.status = status;
    Ok(req)
}

// ───────────────────────── operation results ─────────────────────────

/// Result of a migrate operation.
#[derive(Debug)]
pub struct MigrateResult {
    pub total: usize,
    pub migrated: Vec<String>,
    pub errors: Vec<String>,
    pub dry_run: bool,
}

/// Result of a `remove_requirement` operation.
#[derive(Debug)]
pub struct RemoveResult {
    /// The ID that was removed
    pub id: String,
    /// Whether the on-disk `.md` file was deleted
    pub file_deleted: bool,
    /// Dependents (child IDs or referencing files) that existed at removal
    /// time; empty when removal was forced.
    pub dependents_warned: Vec<String>,
}

/// Result of a scan operation.
#[derive(Debug)]
pub struct ScanResult {
    pub files_scanned: usize,
    pub refs_found: usize,
    pub undefined_refs: Vec<String>,
    pub missing_dirs: Vec<String>,
}

impl Default for ScanResult {
    fn default() -> (r: Self)
        ensures
            r.files_scanned == 0,
            r.refs_found == 0,
            r.undefined_refs@.len() == 0,
            r.missing_dirs@.len() == 0,
    {
        ScanResult { files_scanned: 0, refs_found: 0, undefined_refs: Vec::new(), missing_dirs: Vec::new() }
    }
}

} // verus!
