//! Static triviality detector for tagged source spans.
//!
//! Applies hollow-body heuristics to the lines of a tagged span: no
//! substantive lines, an empty test body, tautological assertions, a stub
//! body and a body that only returns a literal.  The caller reads the file;
//! detection is text analysis of its content.

use vstd::prelude::*;
use crate::audit::{FindingSeverity, TrivialityFinding, TrivialityPattern};
use crate::text::{
    contains, contains_char, contains_str, has_prefix, has_suffix, lines, push_chars, push_str,
    slice_chars, split_lines, starts_with_str, string_of, trim, trim_chars, chars_of, ends_with_str,
    chars_eq_str,
};

verus! {

// ───────────────────────── line predicates ─────────────────────────

/// Paths of build scripts, benchmarks and examples are not analysed.
pub open spec fn skipped_path(p: Seq<char>) -> bool {
    contains(p, "build.rs"@) || contains(p, "/benches/"@) || contains(p, "\\benches\\"@)
        || contains(p, "/examples/"@) || contains(p, "\\examples\\"@)
}

/// The line carries `#[allow(dead_code)]`.
pub open spec fn allows_dead_code(l: Seq<char>) -> bool {
    contains(l, "#[allow(dead_code)]"@)
}

/// The line carries `#[test]` or `#[cfg(test)]`.
pub open spec fn marks_test(l: Seq<char>) -> bool {
    contains(l, "#[test]"@) || contains(l, "#[cfg(test)]"@)
}

/// A line is substantive unless, trimmed, it is empty, a comment, or a
/// tag comment (`REQ:`, `VERIFIES:`, `CRITERION:`).
pub open spec fn substantive(l: Seq<char>) -> bool {
    let t = trim(l);
    &&& !(t.len() == 0 || has_prefix(t, "//"@) || has_prefix(t, "/*"@) || has_prefix(t, "*"@))
    &&& !(contains(t, "REQ:"@) || contains(t, "VERIFIES:"@) || contains(t, "CRITERION:"@))
}

/// `substantive` as a predicate.
pub open spec fn substantive_pred() -> spec_fn(Seq<char>) -> bool {
    |l: Seq<char>| substantive(l)
}

/// The line asserts something.
pub open spec fn asserts(l: Seq<char>) -> bool {
    contains(l, "assert!"@) || contains(l, "assert_eq!"@) || contains(l, "assert_ne!"@)
}

/// The line, trimmed, is not a comment or attribute and has a `(`.
pub open spec fn calls(l: Seq<char>) -> bool {
    let t = trim(l);
    !has_prefix(t, "//"@) && t.contains('(') && !has_prefix(t, "#"@)
}

/// The line checks used on spans.
#[derive(Clone, Copy, Debug, PartialEq, Eq, Structural)]
pub enum LineKind {
    AllowsDeadCode,
    MarksTest,
    Asserts,
    Calls,
}

/// The line check `k`.
pub open spec fn line_is(k: LineKind, l: Seq<char>) -> bool {
    match k {
        LineKind::AllowsDeadCode => allows_dead_code(l),
        LineKind::MarksTest => marks_test(l),
        LineKind::Asserts => asserts(l),
        LineKind::Calls => calls(l),
    }
}

/// The line check `k` as a predicate.
pub open spec fn kind_pred(k: LineKind) -> spec_fn(Seq<char>) -> bool {
    |l: Seq<char>| line_is(k, l)
}

/// "Is not blank", as a predicate.
pub open spec fn nonblank_pred() -> spec_fn(Seq<char>) -> bool {
    |l: Seq<char>| trim(l).len() > 0
}

/// Some line satisfies `p`.
pub open spec fn any_line(s: Seq<Seq<char>>, p: spec_fn(Seq<char>) -> bool) -> bool {
    exists|i: int| 0 <= i < s.len() && #[trigger] p(s[i])
}

/// `s` with every leading `c` removed.
pub open spec fn strip_start_char(s: Seq<char>, c: char) -> Seq<char>
    decreases s.len(),
{
    if s.len() > 0 && s[0] == c {
        strip_start_char(s.drop_first(), c)
    } else {
        s
    }
}

/// `s` with every trailing `c` removed.
pub open spec fn strip_end_char(s: Seq<char>, c: char) -> Seq<char>
    decreases s.len(),
{
    if s.len() > 0 && s.last() == c {
        strip_end_char(s.drop_last(), c)
    } else {
        s
    }
}

/// The line trimmed, without leading `{` and trailing `}`, trimmed again.
pub open spec fn core_text(l: Seq<char>) -> Seq<char> {
    trim(strip_end_char(strip_start_char(trim(l), '{'), '}'))
}

/// A body line that is only a stub (`Ok(())`, `unimplemented!()`,
/// `todo!()`, `panic!(`, `unreachable!()`) or a brace.
pub open spec fn stub_line(l: Seq<char>) -> bool {
    let t = core_text(l);
    contains(t, "Ok(())"@) || contains(t, "unimplemented!()"@) || contains(t, "todo!()"@)
        || contains(t, "panic!("@) || contains(t, "unreachable!()"@) || t == "{"@ || t == "}"@
        || t.len() == 0
}

/// Every substantive line of the body is a stub line.
pub open spec fn stub_body(body: Seq<Seq<char>>) -> bool {
    forall|i: int| 0 <= i < body.len() && #[trigger] substantive(body[i]) ==> stub_line(body[i])
}

/// A bare literal, optionally followed by `;`.
pub open spec fn bare_literal(t: Seq<char>) -> bool {
    ||| literal_or_statement(t, "true"@)
    ||| literal_or_statement(t, "false"@)
    ||| literal_or_statement(t, "0"@)
    ||| literal_or_statement(t, "1"@)
    ||| literal_or_statement(t, "\"\""@)
    ||| literal_or_statement(t, "None"@)
    ||| literal_or_statement(t, "vec![]"@)
}

/// `t` is `lit` or `lit;`.
pub open spec fn literal_or_statement(t: Seq<char>, lit: Seq<char>) -> bool {
    t == lit || t == lit + ";"@
}

/// The body's only substantive line, as core text, when that is a bare
/// literal.
pub open spec fn single_literal(body: Seq<Seq<char>>) -> Option<Seq<char>> {
    let sub = body.filter(substantive_pred());
    if sub.len() == 1 && bare_literal(core_text(sub[0])) {
        Some(core_text(sub[0]))
    } else {
        None
    }
}

/// The trimmed line, if it is a tautological assertion: it contains
/// `assert!(true)` or `assert!( true )`, or it is `assert_eq!(a, b)` (with
/// `)` or `);` at the end) where `a` and `b`, split at the first comma and
/// trimmed, are equal.
pub open spec fn tautology(l: Seq<char>) -> Option<Seq<char>> {
    let t = trim(l);
    if contains(t, "assert!(true)"@) || contains(t, "assert!( true )"@) {
        Some(t)
    } else if has_prefix(t, "assert_eq!("@) {
        let rest = t.skip("assert_eq!("@.len() as int);
        let inner = if has_suffix(rest, ");"@) {
            Some(rest.take(rest.len() - ");"@.len()))
        } else if has_suffix(rest, ")"@) {
            Some(rest.take(rest.len() - ")"@.len()))
        } else {
            None
        };
        match inner {
            Some(x) => {
                let k = crate::text::first_index(x, ',');
                if k >= 0 && trim(x.take(k)) == trim(x.skip(k + 1)) {
                    Some(t)
                } else {
                    None
                }
            },
            None => None,
        }
    } else {
        None
    }
}

/// Index of the first line containing `c`, or -1.
pub open spec fn first_line_with(s: Seq<Seq<char>>, c: char) -> int
    decreases s.len(),
{
    if s.len() == 0 {
        -1
    } else if s[0].contains(c) {
        0
    } else {
        let r = first_line_with(s.drop_first(), c);
        if r < 0 {
            -1
        } else {
            r + 1
        }
    }
}

/// Index of the last line containing `c`, or -1.
pub open spec fn last_line_with(s: Seq<Seq<char>>, c: char) -> int
    decreases s.len(),
{
    if s.len() == 0 {
        -1
    } else if s.last().contains(c) {
        s.len() - 1
    } else {
        last_line_with(s.drop_last(), c)
    }
}

/// The lines strictly between the first line with `{` and the last line
/// with `}`, when the latter comes after the former.
pub open spec fn function_body(span: Seq<Seq<char>>) -> Option<Seq<Seq<char>>> {
    let open = first_line_with(span, '{');
    let close = last_line_with(span, '}');
    if open >= 0 && close >= 0 && close > open {
        Some(span.subrange(open + 1, close))
    } else {
        None
    }
}

/// `parts` joined with `sep`.
pub open spec fn join(parts: Seq<Seq<char>>, sep: Seq<char>) -> Seq<char>
    decreases parts.len(),
{
    if parts.len() == 0 {
        seq![]
    } else if parts.len() == 1 {
        parts[0]
    } else {
        join(parts.drop_last(), sep) + sep + parts.last()
    }
}

/// The first three substantive lines, joined with `"; "`.
pub open spec fn body_excerpt(span: Seq<Seq<char>>) -> Seq<char> {
    let sub = span.filter(substantive_pred());
    join(if sub.len() > 3 { sub.take(3) } else { sub }, "; "@)
}

// ───────────────────────── findings ─────────────────────────

/// A finding as plain values: requirement id, file, line, pattern,
/// severity, matched text.
pub type FindingView = (Seq<char>, Seq<char>, nat, TrivialityPattern, FindingSeverity, Seq<char>);

/// The plain values of a finding.
pub open spec fn finding_view(f: TrivialityFinding) -> FindingView {
    (f.req_id@, f.file@, f.line as nat, f.pattern, f.severity, f.matched_text@)
}

/// The plain values of each finding.
pub open spec fn finding_views(s: Seq<TrivialityFinding>) -> Seq<FindingView> {
    s.map_values(|f: TrivialityFinding| finding_view(f))
}

/// Tautological-assertion findings for the span, at `first_line + i`.
pub open spec fn tautology_findings(
    span: Seq<Seq<char>>,
    first_line: nat,
    req_id: Seq<char>,
    file: Seq<char>,
) -> Seq<FindingView>
    decreases span.len(),
{
    if span.len() == 0 {
        seq![]
    } else {
        let prev = tautology_findings(span.drop_last(), first_line, req_id, file);
        match tautology(span.last()) {
            Some(t) => prev.push(
                (
                    req_id,
                    file,
                    (first_line + span.len() - 1) as nat,
                    TrivialityPattern::TautologicalAssertion,
                    FindingSeverity::Error,
                    t,
                ),
            ),
            None => prev,
        }
    }
}

/// `a - b`, or 0.
pub open spec fn sat_sub(a: nat, b: nat) -> nat {
    if a >= b {
        (a - b) as nat
    } else {
        0
    }
}

/// The 0-based first line of the span.
pub open spec fn span_start(line: nat) -> nat {
    sat_sub(line, 1)
}

/// The 0-based end (exclusive) of the span in a file of `n` lines: the
/// end line capped at `n`, or 20 lines when there is no end line.
pub open spec fn span_end(line: nat, line_end: Option<usize>, n: nat) -> nat {
    match line_end {
        Some(e) => if e < n {
            e as nat
        } else {
            n
        },
        None => if span_start(line) + 20 < n {
            span_start(line) + 20
        } else {
            n
        },
    }
}

/// The span is well-formed: it starts past the end of the file, or it
/// does not end before it starts.
pub open spec fn span_ok(content: Seq<char>, line: nat, line_end: Option<usize>) -> bool {
    let n = lines(content).len();
    span_start(line) >= n || span_start(line) <= span_end(line, line_end, n)
}

/// The empty-test-body finding: a test span with no assertion and no call.
pub open spec fn empty_test_findings(
    span: Seq<Seq<char>>,
    test: bool,
    line: nat,
    req_id: Seq<char>,
    file: Seq<char>,
) -> Seq<FindingView> {
    if test && !any_line(span, kind_pred(LineKind::Asserts)) && !any_line(
        span,
        kind_pred(LineKind::Calls),
    ) {
        seq![
            (
                req_id,
                file,
                line,
                TrivialityPattern::EmptyTestBody,
                FindingSeverity::Error,
                body_excerpt(span),
            ),
        ]
    } else {
        seq![]
    }
}

/// The stub-body finding: info when dead code is allowed, else warning;
/// the matched text is the first non-blank body line, trimmed.
pub open spec fn stub_findings(
    body: Seq<Seq<char>>,
    dead: bool,
    line: nat,
    req_id: Seq<char>,
    file: Seq<char>,
) -> Seq<FindingView> {
    if stub_body(body) {
        let sub = body.filter(nonblank_pred());
        seq![
            (
                req_id,
                file,
                line,
                TrivialityPattern::StubBody,
                if dead {
                    FindingSeverity::Info
                } else {
                    FindingSeverity::Warning
                },
                if sub.len() > 0 {
                    trim(sub[0])
                } else {
                    seq![]
                },
            ),
        ]
    } else {
        seq![]
    }
}

/// The single-literal-return finding.
pub open spec fn literal_findings(
    body: Seq<Seq<char>>,
    line: nat,
    req_id: Seq<char>,
    file: Seq<char>,
) -> Seq<FindingView> {
    match single_literal(body) {
        Some(t) => seq![
            (
                req_id,
                file,
                line,
                TrivialityPattern::SingleLiteralReturn,
                FindingSeverity::Warning,
                t,
            ),
        ],
        None => seq![],
    }
}

/// Stub and literal findings for the function body of a non-test span.
pub open spec fn body_findings(
    span: Seq<Seq<char>>,
    dead: bool,
    line: nat,
    req_id: Seq<char>,
    file: Seq<char>,
) -> Seq<FindingView> {
    match function_body(span) {
        Some(body) => stub_findings(body, dead, line, req_id, file) + literal_findings(
            body,
            line,
            req_id,
            file,
        ),
        None => seq![],
    }
}

/// The findings for a span once it has substantive lines.
pub open spec fn span_findings(
    all: Seq<Seq<char>>,
    start: nat,
    span: Seq<Seq<char>>,
    line: nat,
    req_id: Seq<char>,
    file: Seq<char>,
) -> Seq<FindingView> {
    let pre = all.subrange(sat_sub(start, 3) as int, start as int);
    let dead = any_line(span, kind_pred(LineKind::AllowsDeadCode)) || any_line(
        pre,
        kind_pred(LineKind::AllowsDeadCode),
    );
    let test = any_line(span, kind_pred(LineKind::MarksTest)) || (start >= 3 && any_line(
        pre,
        kind_pred(LineKind::MarksTest),
    ));
    empty_test_findings(span, test, line, req_id, file) + tautology_findings(
        span,
        line,
        req_id,
        file,
    ) + if test {
        seq![]
    } else {
        body_findings(span, dead, line, req_id, file)
    }
}

/// All triviality findings for the span of the code reference at `line`
/// (1-based) to `line_end` in `content`.
pub open spec fn triviality_findings(
    path: Seq<char>,
    content: Seq<char>,
    line: nat,
    line_end: Option<usize>,
    req_id: Seq<char>,
) -> Seq<FindingView> {
    let all = lines(content);
    let n = all.len();
    let start = span_start(line);
    if skipped_path(path) || start >= n {
        seq![]
    } else {
        let span = all.subrange(start as int, span_end(line, line_end, n) as int);
        if span.filter(substantive_pred()).len() == 0 {
            seq![
                (
                    req_id,
                    path,
                    line,
                    TrivialityPattern::ZeroSubstantiveLines,
                    FindingSeverity::Error,
                    if span.len() > 0 {
                        span[0]
                    } else {
                        seq![]
                    },
                ),
            ]
        } else {
            span_findings(all, start, span, line, req_id, path)
        }
    }
}

// ───────────────────────── executable checks ─────────────────────────

/// Paths of build scripts, benchmarks and examples are not analysed.
pub fn should_skip(path: &str) -> (b: bool)
    ensures
        b == skipped_path(path@),
{
    let p = chars_of(path);
    contains_str(p.as_slice(), "build.rs") || contains_str(p.as_slice(), "/benches/")
        || contains_str(p.as_slice(), "\\benches\\") || contains_str(p.as_slice(), "/examples/")
        || contains_str(p.as_slice(), "\\examples\\")
}

/// A line is substantive unless, trimmed, it is empty, a comment, or a
/// tag comment.
pub fn is_substantive(l: &[char]) -> (b: bool)
    ensures
        b == substantive(l@),
{
    let t = trim_chars(l);
    let ts = t.as_slice();
    if t.len() == 0 || starts_with_str(ts, "//") || starts_with_str(ts, "/*") || starts_with_str(
        ts,
        "*",
    ) {
        return false;
    }
    !(contains_str(ts, "REQ:") || contains_str(ts, "VERIFIES:") || contains_str(ts, "CRITERION:"))
}

fn line_allows_dead_code(l: &[char]) -> (b: bool)
    ensures
        b == allows_dead_code(l@),
{
    contains_str(l, "#[allow(dead_code)]")
}

fn line_marks_test(l: &[char]) -> (b: bool)
    ensures
        b == marks_test(l@),
{
    contains_str(l, "#[test]") || contains_str(l, "#[cfg(test)]")
}

fn line_asserts(l: &[char]) -> (b: bool)
    ensures
        b == asserts(l@),
{
    contains_str(l, "assert!") || contains_str(l, "assert_eq!") || contains_str(l, "assert_ne!")
}

fn line_calls(l: &[char]) -> (b: bool)
    ensures
        b == calls(l@),
{
    let t = trim_chars(l);
    let ts = t.as_slice();
    !starts_with_str(ts, "//") && contains_char(ts, '(') && !starts_with_str(ts, "#")
}

fn strip_start_char_exec(s: &[char], c: char) -> (r: Vec<char>)
    ensures
        r@ == strip_start_char(s@, c),
{
    let mut a: usize = 0;
    assert(s@.skip(0) =~= s@);
    while a < s.len() && s[a] == c
        invariant
            a <= s@.len(),
            strip_start_char(s@, c) == strip_start_char(s@.skip(a as int), c),
        decreases s.len() - a,
    {
        assert(s@.skip(a as int).drop_first() =~= s@.skip(a + 1));
        a = a + 1;
    }
    assert(strip_start_char(s@.skip(a as int), c) == s@.skip(a as int));
    assert(s@.skip(a as int) =~= s@.subrange(a as int, s@.len() as int));
    slice_chars(s, a, s.len())
}

fn strip_end_char_exec(s: &[char], c: char) -> (r: Vec<char>)
    ensures
        r@ == strip_end_char(s@, c),
{
    let mut b: usize = s.len();
    assert(s@.take(b as int) =~= s@);
    while b > 0 && s[b - 1] == c
        invariant
            b <= s@.len(),
            strip_end_char(s@, c) == strip_end_char(s@.take(b as int), c),
        decreases b,
    {
        assert(s@.take(b as int).drop_last() =~= s@.take(b - 1));
        b = b - 1;
    }
    assert(strip_end_char(s@.take(b as int), c) == s@.take(b as int));
    assert(s@.take(b as int) =~= s@.subrange(0, b as int));
    slice_chars(s, 0, b)
}

fn core_text_exec(l: &[char]) -> (r: Vec<char>)
    ensures
        r@ == core_text(l@),
{
    let t = trim_chars(l);
    let a = strip_start_char_exec(t.as_slice(), '{');
    let b = strip_end_char_exec(a.as_slice(), '}');
    trim_chars(b.as_slice())
}

fn stub_line_exec(l: &[char]) -> (b: bool)
    ensures
        b == stub_line(l@),
{
    let t = core_text_exec(l);
    let ts = t.as_slice();
    contains_str(ts, "Ok(())") || contains_str(ts, "unimplemented!()") || contains_str(
        ts,
        "todo!()",
    ) || contains_str(ts, "panic!(") || contains_str(ts, "unreachable!()") || chars_eq_str(
        ts,
        "{",
    ) || chars_eq_str(ts, "}") || t.len() == 0
}

fn literal_exec(t: &[char], lit: &str) -> (b: bool)
    ensures
        b == literal_or_statement(t@, lit@),
{
    let mut with_semi = chars_of(lit);
    push_str(&mut with_semi, ";");
    chars_eq_str(t, lit) || crate::text::chars_eq(t, with_semi.as_slice())
}

fn bare_literal_exec(t: &[char]) -> (b: bool)
    ensures
        b == bare_literal(t@),
{
    literal_exec(t, "true") || literal_exec(t, "false") || literal_exec(t, "0") || literal_exec(
        t,
        "1",
    ) || literal_exec(t, "\"\"") || literal_exec(t, "None") || literal_exec(t, "vec![]")
}

fn line_is_exec(k: LineKind, l: &[char]) -> (b: bool)
    ensures
        b == line_is(k, l@),
{
    match k {
        LineKind::AllowsDeadCode => line_allows_dead_code(l),
        LineKind::MarksTest => line_marks_test(l),
        LineKind::Asserts => line_asserts(l),
        LineKind::Calls => line_calls(l),
    }
}

/// Some line of `all[a..b]` passes check `k`.
fn range_any(all: &Vec<Vec<char>>, a: usize, b: usize, k: LineKind) -> (r: bool)
    requires
        a <= b <= all@.len(),
    ensures
        r == any_line(all.deep_view().subrange(a as int, b as int), kind_pred(k)),
{
    let ghost s = all.deep_view().subrange(a as int, b as int);
    let mut i: usize = a;
    while i < b
        invariant
            a <= i <= b <= all@.len(),
            s == all.deep_view().subrange(a as int, b as int),
            forall|j: int| 0 <= j < i - a ==> !#[trigger] kind_pred(k)(s[j]),
        decreases b - i,
    {
        assert(s[i - a] == all@[i as int]@);
        if line_is_exec(k, all[i].as_slice()) {
            assert(kind_pred(k)(s[i - a]));
            return true;
        }
        i = i + 1;
    }
    false
}

/// Number of substantive lines in `all[a..b]`.
fn count_substantive(all: &Vec<Vec<char>>, a: usize, b: usize) -> (r: usize)
    requires
        a <= b <= all@.len(),
    ensures
        r == all.deep_view().subrange(a as int, b as int).filter(substantive_pred()).len(),
{
    let ghost s = all.deep_view().subrange(a as int, b as int);
    let mut n: usize = 0;
    let mut i: usize = a;
    assert(s.take(0) =~= Seq::<Seq<char>>::empty());
    while i < b
        invariant
            a <= i <= b <= all@.len(),
            s == all.deep_view().subrange(a as int, b as int),
            n == s.take(i - a).filter(substantive_pred()).len(),
            n <= i - a,
        decreases b - i,
    {
        let ghost t = s.take(i - a);
        proof {
            assert(s.take(i - a + 1) =~= t.push(s[i - a]));
            t.lemma_filter_push(s[i - a], substantive_pred());
            assert(s[i - a] == all@[i as int]@);
        }
        if is_substantive(all[i].as_slice()) {
            n = n + 1;
        }
        i = i + 1;
    }
    assert(s.take(i - a) =~= s);
    n
}

proof fn lemma_join_push(parts: Seq<Seq<char>>, sep: Seq<char>, x: Seq<char>)
    ensures
        join(parts.push(x), sep) == if parts.len() == 0 {
            x
        } else {
            join(parts, sep) + sep + x
        },
{
    assert(parts.push(x).drop_last() =~= parts);
    if parts.len() == 0 {
        assert(parts.push(x) =~= seq![x]);
    }
}

/// The first three substantive lines of `all[a..b]`, joined with `"; "`.
fn excerpt(all: &Vec<Vec<char>>, a: usize, b: usize) -> (r: Vec<char>)
    requires
        a <= b <= all@.len(),
    ensures
        r@ == body_excerpt(all.deep_view().subrange(a as int, b as int)),
{
    let ghost s = all.deep_view().subrange(a as int, b as int);
    let ghost sub = s.filter(substantive_pred());
    let mut out: Vec<char> = Vec::new();
    let mut taken: usize = 0;
    let mut i: usize = a;
    assert(s.take(0) =~= Seq::<Seq<char>>::empty());
    while i < b && taken < 3
        invariant
            a <= i <= b <= all@.len(),
            s == all.deep_view().subrange(a as int, b as int),
            sub == s.filter(substantive_pred()),
            taken == s.take(i - a).filter(substantive_pred()).len(),
            taken <= 3,
            out@ == join(s.take(i - a).filter(substantive_pred()), "; "@),
        decreases b - i,
    {
        let ghost t = s.take(i - a);
        proof {
            assert(s.take(i - a + 1) =~= t.push(s[i - a]));
            t.lemma_filter_push(s[i - a], substantive_pred());
            assert(s[i - a] == all@[i as int]@);
            lemma_join_push(t.filter(substantive_pred()), "; "@, s[i - a]);
        }
        if is_substantive(all[i].as_slice()) {
            if taken > 0 {
                push_str(&mut out, "; ");
            }
            push_chars(&mut out, all[i].as_slice());
            taken = taken + 1;
        }
        i = i + 1;
    }
    proof {
        let t = s.take(i - a);
        let ft = t.filter(substantive_pred());
        assert(s =~= t + s.skip(i - a));
        Seq::filter_distributes_over_add(t, s.skip(i - a), substantive_pred());
        if i < b {
            assert(taken == 3);
            assert((ft + s.skip(i - a).filter(substantive_pred())).take(3) =~= ft);
        } else {
            assert(s.skip(i - a) =~= Seq::<Seq<char>>::empty());
            reveal(Seq::filter);
            assert(ft + s.skip(i - a).filter(substantive_pred()) =~= ft);
        }
    }
    out
}

/// Position of the first `c` in `s`, as `first_index`.
fn first_index_exec(s: &[char], c: char) -> (r: Option<usize>)
    ensures
        match r {
            Some(k) => crate::text::first_index(s@, c) == k as int && k < s@.len(),
            None => crate::text::first_index(s@, c) == -1,
        },
{
    let mut k: usize = 0;
    while k < s.len() && s[k] != c
        invariant
            k <= s@.len(),
            forall|j: int| 0 <= j < k ==> s@[j] != c,
        decreases s.len() - k,
    {
        k = k + 1;
    }
    proof {
        crate::text::lemma_first_index(s@, c, k as int);
    }
    if k < s.len() {
        Some(k)
    } else {
        None
    }
}

/// The trimmed line, if it is a tautological assertion.
fn tautology_exec(l: &[char]) -> (r: Option<Vec<char>>)
    ensures
        match tautology(l@) {
            Some(t) => r matches Some(v) && v@ == t,
            None => r is None,
        },
{
    let t = trim_chars(l);
    let ts = t.as_slice();
    if contains_str(ts, "assert!(true)") || contains_str(ts, "assert!( true )") {
        return Some(t);
    }
    if !starts_with_str(ts, "assert_eq!(") {
        return None;
    }
    let p = chars_of("assert_eq!(");
    let rest = slice_chars(ts, p.len(), t.len());
    assert(rest@ =~= t@.skip("assert_eq!("@.len() as int));
    let inner = if ends_with_str(rest.as_slice(), ");") {
        let q = chars_of(");");
        slice_chars(rest.as_slice(), 0, rest.len() - q.len())
    } else if ends_with_str(rest.as_slice(), ")") {
        let q = chars_of(")");
        slice_chars(rest.as_slice(), 0, rest.len() - q.len())
    } else {
        return None;
    };
    assert(inner@ =~= if has_suffix(rest@, ");"@) {
        rest@.take(rest@.len() - ");"@.len())
    } else {
        rest@.take(rest@.len() - ")"@.len())
    });
    match first_index_exec(inner.as_slice(), ',') {
        Some(k) => {
            let left = slice_chars(inner.as_slice(), 0, k);
            let right = slice_chars(inner.as_slice(), k + 1, inner.len());
            assert(left@ =~= inner@.take(k as int));
            assert(right@ =~= inner@.skip(k + 1));
            let lt = trim_chars(left.as_slice());
            let rt = trim_chars(right.as_slice());
            if crate::text::chars_eq(lt.as_slice(), rt.as_slice()) {
                Some(t)
            } else {
                None
            }
        },
        None => None,
    }
}

proof fn lemma_first_line_with(s: Seq<Seq<char>>, c: char, k: int)
    requires
        0 <= k <= s.len(),
        forall|j: int| 0 <= j < k ==> !(#[trigger] s[j]).contains(c),
        k == s.len() || s[k].contains(c),
    ensures
        first_line_with(s, c) == if k == s.len() {
            -1
        } else {
            k
        },
    decreases k,
{
    if k > 0 {
        assert forall|j: int| 0 <= j < k - 1 implies !(#[trigger] s.drop_first()[j]).contains(c) by {
            assert(s.drop_first()[j] == s[j + 1]);
        }
        lemma_first_line_with(s.drop_first(), c, k - 1);
    }
}

proof fn lemma_last_line_with(s: Seq<Seq<char>>, c: char, k: int)
    requires
        -1 <= k < s.len(),
        forall|j: int| k < j < s.len() ==> !(#[trigger] s[j]).contains(c),
        k == -1 || s[k].contains(c),
    ensures
        last_line_with(s, c) == k,
    decreases s.len(),
{
    if s.len() > 0 && k < s.len() - 1 {
        lemma_last_line_with(s.drop_last(), c, k);
    }
}

/// First position in `all[a..b]` holding a line with `c` (absolute index).
fn first_with(all: &Vec<Vec<char>>, a: usize, b: usize, c: char) -> (r: Option<usize>)
    requires
        a <= b <= all@.len(),
    ensures
        match r {
            Some(i) => a <= i < b && first_line_with(all.deep_view().subrange(a as int, b as int), c)
                == i - a,
            None => first_line_with(all.deep_view().subrange(a as int, b as int), c) == -1,
        },
{
    let ghost s = all.deep_view().subrange(a as int, b as int);
    let mut i: usize = a;
    while i < b && !contains_char(all[i].as_slice(), c)
        invariant
            a <= i <= b <= all@.len(),
            s == all.deep_view().subrange(a as int, b as int),
            forall|j: int| 0 <= j < i - a ==> !(#[trigger] s[j]).contains(c),
        decreases b - i,
    {
        assert(s[i - a] == all@[i as int]@);
        i = i + 1;
    }
    if i < b {
        assert(s[i - a] == all@[i as int]@);
        proof {
            lemma_first_line_with(s, c, i - a);
        }
        Some(i)
    } else {
        proof {
            lemma_first_line_with(s, c, i - a);
        }
        None
    }
}

/// Last position in `all[a..b]` holding a line with `c` (absolute index).
fn last_with(all: &Vec<Vec<char>>, a: usize, b: usize, c: char) -> (r: Option<usize>)
    requires
        a <= b <= all@.len(),
    ensures
        match r {
            Some(i) => a <= i < b && last_line_with(all.deep_view().subrange(a as int, b as int), c)
                == i - a,
            None => last_line_with(all.deep_view().subrange(a as int, b as int), c) == -1,
        },
{
    let ghost s = all.deep_view().subrange(a as int, b as int);
    let mut i: usize = b;
    while i > a && !contains_char(all[i - 1].as_slice(), c)
        invariant
            a <= i <= b <= all@.len(),
            s == all.deep_view().subrange(a as int, b as int),
            forall|j: int| i - a <= j < s.len() ==> !(#[trigger] s[j]).contains(c),
        decreases i,
    {
        assert(s[i - 1 - a] == all@[i - 1]@);
        i = i - 1;
    }
    if i > a {
        assert(s[i - 1 - a] == all@[i - 1]@);
        proof {
            lemma_last_line_with(s, c, i - 1 - a);
        }
        Some(i - 1)
    } else {
        proof {
            lemma_last_line_with(s, c, -1);
        }
        None
    }
}

/// Every substantive line of `all[a..b]` is a stub line.
fn stub_body_exec(all: &Vec<Vec<char>>, a: usize, b: usize) -> (r: bool)
    requires
        a <= b <= all@.len(),
    ensures
        r == stub_body(all.deep_view().subrange(a as int, b as int)),
{
    let ghost s = all.deep_view().subrange(a as int, b as int);
    let mut i: usize = a;
    while i < b
        invariant
            a <= i <= b <= all@.len(),
            s == all.deep_view().subrange(a as int, b as int),
            forall|j: int| 0 <= j < i - a && #[trigger] substantive(s[j]) ==> stub_line(s[j]),
        decreases b - i,
    {
        assert(s[i - a] == all@[i as int]@);
        if is_substantive(all[i].as_slice()) && !stub_line_exec(all[i].as_slice()) {
            return false;
        }
        i = i + 1;
    }
    true
}

/// Index of the only substantive line of `all[a..b]`, if there is exactly
/// one.
fn only_substantive(all: &Vec<Vec<char>>, a: usize, b: usize) -> (r: Option<usize>)
    requires
        a <= b <= all@.len(),
    ensures
        match r {
            Some(i) => a <= i < b && all.deep_view().subrange(a as int, b as int).filter(
                substantive_pred(),
            ).len() == 1 && all.deep_view().subrange(a as int, b as int).filter(
                substantive_pred(),
            )[0] == all@[i as int]@,
            None => all.deep_view().subrange(a as int, b as int).filter(substantive_pred()).len()
                != 1,
        },
{
    let ghost s = all.deep_view().subrange(a as int, b as int);
    let mut found: Option<usize> = None;
    let mut count: usize = 0;
    let mut i: usize = a;
    assert(s.take(0) =~= Seq::<Seq<char>>::empty());
    while i < b
        invariant
            a <= i <= b <= all@.len(),
            s == all.deep_view().subrange(a as int, b as int),
            count == s.take(i - a).filter(substantive_pred()).len(),
            count <= i - a,
            count > 0 ==> (found matches Some(f) && a <= f < i && s.take(i - a).filter(
                substantive_pred(),
            )[0] == all@[f as int]@),
        decreases b - i,
    {
        let ghost t = s.take(i - a);
        proof {
            assert(s.take(i - a + 1) =~= t.push(s[i - a]));
            t.lemma_filter_push(s[i - a], substantive_pred());
            assert(s[i - a] == all@[i as int]@);
        }
        if is_substantive(all[i].as_slice()) {
            if count == 0 {
                found = Some(i);
            }
            count = count + 1;
        }
        i = i + 1;
    }
    assert(s.take(i - a) =~= s);
    if count == 1 {
        found
    } else {
        None
    }
}

/// The first non-blank line of `all[a..b]`, trimmed, or empty.
fn first_nonblank_trimmed(all: &Vec<Vec<char>>, a: usize, b: usize) -> (r: Vec<char>)
    requires
        a <= b <= all@.len(),
    ensures
        ({
            let sub = all.deep_view().subrange(a as int, b as int).filter(nonblank_pred());
            r@ == if sub.len() > 0 {
                trim(sub[0])
            } else {
                seq![]
            }
        }),
{
    let ghost s = all.deep_view().subrange(a as int, b as int);
    let mut i: usize = a;
    assert(s.take(0) =~= Seq::<Seq<char>>::empty());
    while i < b && crate::text::blank(all[i].as_slice())
        invariant
            a <= i <= b <= all@.len(),
            s == all.deep_view().subrange(a as int, b as int),
            s.take(i - a).filter(nonblank_pred()).len() == 0,
        decreases b - i,
    {
        let ghost t = s.take(i - a);
        proof {
            assert(s.take(i - a + 1) =~= t.push(s[i - a]));
            t.lemma_filter_push(s[i - a], nonblank_pred());
            assert(s[i - a] == all@[i as int]@);
        }
        i = i + 1;
    }
    proof {
        let t = s.take(i - a);
        assert(s =~= t + s.skip(i - a));
        Seq::filter_distributes_over_add(t, s.skip(i - a), nonblank_pred());
        assert(t.filter(nonblank_pred()) =~= Seq::<Seq<char>>::empty());
        if i < b {
            let rest = s.skip(i - a);
            assert(rest[0] == all@[i as int]@);
            assert(rest =~= seq![rest[0]] + rest.drop_first());
            Seq::filter_distributes_over_add(seq![rest[0]], rest.drop_first(), nonblank_pred());
            assert(seq![rest[0]] =~= Seq::<Seq<char>>::empty().push(rest[0]));
            Seq::<Seq<char>>::empty().lemma_filter_push(rest[0], nonblank_pred());
            reveal(Seq::filter);
        } else {
            assert(s.skip(i - a) =~= Seq::<Seq<char>>::empty());
            reveal(Seq::filter);
        }
    }
    if i < b {
        trim_chars(all[i].as_slice())
    } else {
        Vec::new()
    }
}

fn make_finding(
    req_id: &String,
    file: &String,
    line: usize,
    pattern: TrivialityPattern,
    severity: FindingSeverity,
    matched: &[char],
) -> (f: TrivialityFinding)
    ensures
        finding_view(f) == (req_id@, file@, line as nat, pattern, severity, matched@),
{
    TrivialityFinding {
        req_id: req_id.clone(),
        file: file.clone(),
        line,
        pattern,
        severity,
        matched_text: string_of(matched),
    }
}

/// Findings for `all[start..end]` once it has substantive lines.
fn span_findings_exec(
    all: &Vec<Vec<char>>,
    start: usize,
    end: usize,
    line: usize,
    req_id: &String,
    file: &String,
) -> (r: Vec<TrivialityFinding>)
    requires
        start <= end <= all@.len(),
        line <= start + 1,
    ensures
        finding_views(r@) == span_findings(
            all.deep_view(),
            start as nat,
            all.deep_view().subrange(start as int, end as int),
            line as nat,
            req_id@,
            file@,
        ),
{
    let ghost dv = all.deep_view();
    let ghost span = dv.subrange(start as int, end as int);
    let pre_a = if start >= 3 {
        start - 3
    } else {
        0
    };
    let dead = range_any(all, start, end, LineKind::AllowsDeadCode) || range_any(
        all,
        pre_a,
        start,
        LineKind::AllowsDeadCode,
    );
    let test = range_any(all, start, end, LineKind::MarksTest) || (start >= 3 && range_any(
        all,
        pre_a,
        start,
        LineKind::MarksTest,
    ));
    let ghost pre = dv.subrange(sat_sub(start as nat, 3) as int, start as int);
    assert(pre == dv.subrange(pre_a as int, start as int));
    let mut out: Vec<TrivialityFinding> = Vec::new();
    if test && !range_any(all, start, end, LineKind::Asserts) && !range_any(
        all,
        start,
        end,
        LineKind::Calls,
    ) {
        let ex = excerpt(all, start, end);
        out.push(
            make_finding(
                req_id,
                file,
                line,
                TrivialityPattern::EmptyTestBody,
                FindingSeverity::Error,
                ex.as_slice(),
            ),
        );
    }
    let ghost first_part = finding_views(out@);
    assert(first_part =~= empty_test_findings(span, test, line as nat, req_id@, file@));
    let mut i: usize = start;
    assert(span.take(0) =~= Seq::<Seq<char>>::empty());
    while i < end
        invariant
            start <= i <= end <= all@.len(),
            line <= start + 1,
            dv == all.deep_view(),
            span == dv.subrange(start as int, end as int),
            finding_views(out@) == first_part + tautology_findings(
                span.take(i - start),
                line as nat,
                req_id@,
                file@,
            ),
        decreases end - i,
    {
        let ghost before = finding_views(out@);
        proof {
            let t = span.take(i - start + 1);
            assert(t.drop_last() =~= span.take(i - start));
            assert(t.last() == all@[i as int]@);
        }
        match tautology_exec(all[i].as_slice()) {
            Some(t) => {
                let f = make_finding(
                    req_id,
                    file,
                    line + (i - start),
                    TrivialityPattern::TautologicalAssertion,
                    FindingSeverity::Error,
                    t.as_slice(),
                );
                out.push(f);
                assert(finding_views(out@) =~= before.push(finding_view(f)));
            },
            None => {},
        }
        i = i + 1;
    }
    assert(span.take(i - start) =~= span);
    let ghost second_part = finding_views(out@);
    if !test {
        let open = first_with(all, start, end, '{');
        let close = last_with(all, start, end, '}');
        match (open, close) {
            (Some(o), Some(c)) => {
                if c > o {
                    proof {
                        assert(span.subrange((o - start) + 1, c - start) =~= dv.subrange(
                            o + 1,
                            c as int,
                        ));
                        assert(function_body(span) == Some(dv.subrange(o + 1, c as int)));
                    }
                    if stub_body_exec(all, o + 1, c) {
                        let m = first_nonblank_trimmed(all, o + 1, c);
                        let sev = if dead {
                            FindingSeverity::Info
                        } else {
                            FindingSeverity::Warning
                        };
                        let f = make_finding(
                            req_id,
                            file,
                            line,
                            TrivialityPattern::StubBody,
                            sev,
                            m.as_slice(),
                        );
                        out.push(f);
                    }
                    let ghost third_part = finding_views(out@);
                    assert(third_part =~= second_part + stub_findings(
                        dv.subrange(o + 1, c as int),
                        dead,
                        line as nat,
                        req_id@,
                        file@,
                    ));
                    match only_substantive(all, o + 1, c) {
                        Some(k) => {
                            let t = core_text_exec(all[k].as_slice());
                            if bare_literal_exec(t.as_slice()) {
                                let f = make_finding(
                                    req_id,
                                    file,
                                    line,
                                    TrivialityPattern::SingleLiteralReturn,
                                    FindingSeverity::Warning,
                                    t.as_slice(),
                                );
                                out.push(f);
                            }
                        },
                        None => {},
                    }
                    assert(finding_views(out@) =~= third_part + literal_findings(
                        dv.subrange(o + 1, c as int),
                        line as nat,
                        req_id@,
                        file@,
                    ));
                }
            },
            _ => {
                assert(function_body(span) is None);
            },
        }
        assert(finding_views(out@) =~= second_part + body_findings(span, dead, line as nat, req_id@, file@));
    } else {
        assert(finding_views(out@) =~= second_part + seq![]);
    }
    proof {
        assert(finding_views(out@) =~= span_findings(
            dv,
            start as nat,
            span,
            line as nat,
            req_id@,
            file@,
        ));
    }
    out
}

/// Analyse the span of a code reference for triviality patterns.
///
/// `content` is the text of the file at `path`; `line` and `line_end` are
/// 1-based.  Without an end line the span is up to 20 lines.  Build
/// scripts, benchmarks and examples are skipped, as are spans starting
/// past the end of the file.
pub fn analyse_code_ref(
    path: &str,
    content: &str,
    line: usize,
    line_end: Option<usize>,
    req_id: &str,
) -> (r: Vec<TrivialityFinding>)
    requires
        skipped_path(path@) || span_ok(content@, line as nat, line_end),
    ensures
        finding_views(r@) == triviality_findings(path@, content@, line as nat, line_end, req_id@),
{
    if should_skip(path) {
        return Vec::new();
    }
    let cs = chars_of(content);
    let all = split_lines(cs.as_slice());
    let n = all.len();
    let start = if line >= 1 {
        line - 1
    } else {
        0
    };
    if start >= n {
        return Vec::new();
    }
    let end = match line_end {
        Some(e) => if e < n {
            e
        } else {
            n
        },
        None => if n - start > 20 {
            start + 20
        } else {
            n
        },
    };
    let file = path.to_owned();
    let req = req_id.to_owned();
    assert(all.deep_view() == lines(content@));
    assert(start == span_start(line as nat));
    assert(end == span_end(line as nat, line_end, n as nat));
    if count_substantive(&all, start, end) == 0 {
        if end > start {
            assert(all.deep_view().subrange(start as int, end as int)[0] == all@[start as int]@);
        }
        let empty: Vec<char> = Vec::new();
        let m = if end > start {
            all[start].as_slice()
        } else {
            empty.as_slice()
        };
        let f = make_finding(
            &req,
            &file,
            line,
            TrivialityPattern::ZeroSubstantiveLines,
            FindingSeverity::Error,
            m,
        );
        let mut out: Vec<TrivialityFinding> = Vec::new();
        out.push(f);
        proof {
            assert(finding_views(out@) =~= triviality_findings(
                path@,
                content@,
                line as nat,
                line_end,
                req_id@,
            ));
        }
        return out;
    }
    span_findings_exec(&all, start, end, line, &req, &file)
}

} // verus!
