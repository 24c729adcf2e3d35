//! Code scanner for inline requirement tags.
//!
//! Scans the lines of a source file for tags like:
//! - `// REQ: LLR-0123` - single line tag
//! - `/* REQ: LLR-0123, LLR-0456 */` - multi-ID tag
//! - `// VERIFIES: LLR-0123` - test verification tag
//! - `// CRITERION: LLR-0123 #2` - acceptance-criterion linkage tag
//! - `// BEGIN-REQ: LLR-0123` ... `// END-REQ: LLR-0123` - block tag
//!
//! A single-line `REQ` tag on a comment-only line is anchored to the first
//! executable line that follows it; when that line defines a function the
//! tag also records the function's name and the extent of its body.

use vstd::prelude::*;

use crate::models::{parse_id_spec, CodeRef, CodeRefView, Requirement, RequirementType};
use crate::error::Error;
use crate::outside::{blake3_hex, blake3_hex_of, extension_of, file_name_of, path_extension, path_file_name};
use crate::text::lemma_lines_len;
use crate::outside::{alphanumeric, is_alphanumeric};
use crate::tag_grammar::{
    crit_matches, crit_matches_exec, first_capture, first_capture_exec, tag_ids, tag_ids_exec,
};
use crate::text::{chars_eq_str, chars_of, chars_of_string, has_prefix, lines, parse_usize, parse_usize_chars, split_lines, starts_with_str, string_of, trim, trim_chars};

verus! {

/// Tag types the scanner detects.
#[derive(Clone, Copy, Debug, PartialEq, Eq, Structural)]
pub enum TagType {
    /// Requirement implementation tag
    Req,
    /// Verification tag (for tests)
    Verifies,
    /// Acceptance criterion linkage tag (`CRITERION: LLR-XXXX #N`)
    Criterion,
}

/// A tag found in source code.
#[derive(Debug)]
pub struct FoundTag {
    /// The requirement ID
    pub req_id: String,
    /// Type of tag
    pub tag_type: TagType,
    /// Line number (1-based)
    pub line: usize,
    /// Optional end line for block tags
    pub line_end: Option<usize>,
    /// For `Criterion` tags: the 1-based criterion index (`#N`)
    pub criterion_index: Option<usize>,
    /// Symbol name (function name) extracted by lookahead, if the tag
    /// precedes a `fn` definition
    pub symbol: Option<String>,
}

/// Mathematical form of a [`FoundTag`].
pub struct TagSpec {
    pub req_id: Seq<char>,
    pub tag_type: TagType,
    pub line: nat,
    pub line_end: Option<nat>,
    pub criterion_index: Option<nat>,
    pub symbol: Option<Seq<char>>,
}

/// View of an optional `usize`.
pub open spec fn opt_nat(o: Option<usize>) -> Option<nat> {
    match o {
        Some(v) => Some(v as nat),
        None => None,
    }
}

/// View of an optional character vector.
pub open spec fn opt_chars(o: Option<Vec<char>>) -> Option<Seq<char>> {
    match o {
        Some(v) => Some(v@),
        None => None,
    }
}

/// View of an optional string.
pub open spec fn opt_str(o: Option<String>) -> Option<Seq<char>> {
    match o {
        Some(v) => Some(v@),
        None => None,
    }
}

impl View for FoundTag {
    type V = TagSpec;

    open spec fn view(&self) -> TagSpec {
        TagSpec {
            req_id: self.req_id@,
            tag_type: self.tag_type,
            line: self.line as nat,
            line_end: opt_nat(self.line_end),
            criterion_index: opt_nat(self.criterion_index),
            symbol: opt_str(self.symbol),
        }
    }
}

/// Character sequences of a sequence of lines.
pub open spec fn line_views(v: Seq<Vec<char>>) -> Seq<Seq<char>> {
    Seq::new(v.len(), |i: int| v[i]@)
}

/// Views of a sequence of tags.
pub open spec fn tag_views(v: Seq<FoundTag>) -> Seq<TagSpec> {
    Seq::new(v.len(), |i: int| v[i]@)
}

// ───────────────────────── per-line tag extraction ─────────────────────────

/// A single-line tag.
pub open spec fn simple_tag(id: Seq<char>, t: TagType, line: nat) -> TagSpec {
    TagSpec {
        req_id: id,
        tag_type: t,
        line,
        line_end: None,
        criterion_index: None,
        symbol: None,
    }
}

/// Tags of one kind for each ID, in order.
pub open spec fn ids_to_tags(ids: Seq<Seq<char>>, t: TagType, line: nat) -> Seq<TagSpec> {
    Seq::new(ids.len(), |i: int| simple_tag(ids[i], t, line))
}

/// `CRITERION` tags from `(ID, N)` captures; captures whose `N` does not
/// parse as a positive `usize` are dropped.
pub open spec fn crit_tags(ms: Seq<(Seq<char>, Seq<char>)>, line: nat) -> Seq<TagSpec>
    decreases ms.len(),
{
    if ms.len() == 0 {
        seq![]
    } else {
        let rest = crit_tags(ms.drop_first(), line);
        match parse_usize(ms[0].1) {
            Some(k) => if k > 0 {
                seq![
                    TagSpec {
                        req_id: ms[0].0,
                        tag_type: TagType::Criterion,
                        line,
                        line_end: None,
                        criterion_index: Some(k as nat),
                        symbol: None,
                    },
                ] + rest
            } else {
                rest
            },
            None => rest,
        }
    }
}

/// Position of `id` among the open block IDs, or `-1`.
pub open spec fn key_index(ids: Seq<Seq<char>>, id: Seq<char>) -> int
    decreases ids.len(),
{
    if ids.len() == 0 {
        -1
    } else if ids.last() == id {
        ids.len() - 1
    } else {
        key_index(ids.drop_last(), id)
    }
}

/// Blocks opened by `BEGIN-REQ` and not yet closed: IDs (each at most once)
/// and their start lines.
pub struct OpenBlocks {
    pub ids: Seq<Seq<char>>,
    pub starts: Seq<nat>,
}

/// Record that block `id` starts at `line` (replacing an earlier start).
pub open spec fn open_block(o: OpenBlocks, id: Seq<char>, line: nat) -> OpenBlocks {
    let k = key_index(o.ids, id);
    if k >= 0 {
        OpenBlocks { ids: o.ids, starts: o.starts.update(k, line) }
    } else {
        OpenBlocks { ids: o.ids.push(id), starts: o.starts.push(line) }
    }
}

/// The state after scanning some lines: open blocks and the tags found.
pub struct ScanState {
    pub open: OpenBlocks,
    pub tags: Seq<TagSpec>,
}

/// Process one line (1-based number `n`).
pub open spec fn scan_line(st: ScanState, s: Seq<char>, n: nat) -> ScanState {
    let b = first_capture(s, "BEGIN-REQ:"@, 0);
    let o1 = match b {
        Some(id) => open_block(st.open, id, n),
        None => st.open,
    };
    let e = first_capture(s, "END-REQ:"@, 0);
    let k = match e {
        Some(id) => key_index(o1.ids, id),
        None => -1,
    };
    let o2 = if k >= 0 {
        OpenBlocks { ids: o1.ids.remove(k), starts: o1.starts.remove(k) }
    } else {
        o1
    };
    let blk: Seq<TagSpec> = if k >= 0 {
        seq![
            TagSpec {
                req_id: e.unwrap(),
                tag_type: TagType::Req,
                line: o1.starts[k],
                line_end: Some(n),
                criterion_index: None,
                symbol: None,
            },
        ]
    } else {
        seq![]
    };
    let reqs = if b.is_none() && e.is_none() {
        ids_to_tags(tag_ids(s, "REQ:"@), TagType::Req, n)
    } else {
        seq![]
    };
    let ver = ids_to_tags(tag_ids(s, "VERIFIES:"@), TagType::Verifies, n);
    let crit = crit_tags(crit_matches(s, "CRITERION:"@, 0), n);
    ScanState { open: o2, tags: st.tags + blk + reqs + ver + crit }
}

/// State after the first `k` lines.
pub open spec fn scan_prefix(ls: Seq<Seq<char>>, k: nat) -> ScanState
    decreases k,
{
    if k == 0 {
        ScanState { open: OpenBlocks { ids: seq![], starts: seq![] }, tags: seq![] }
    } else {
        scan_line(scan_prefix(ls, (k - 1) as nat), ls[k - 1], k)
    }
}

/// Blocks never closed become single-line `REQ` tags at their start line.
pub open spec fn unclosed_tags(o: OpenBlocks) -> Seq<TagSpec> {
    Seq::new(o.ids.len(), |i: int| simple_tag(o.ids[i], TagType::Req, o.starts[i]))
}

/// All tags of a file before the lookahead pass.
pub open spec fn raw_tags(ls: Seq<Seq<char>>) -> Seq<TagSpec> {
    let st = scan_prefix(ls, ls.len());
    st.tags + unclosed_tags(st.open)
}

// ───────────────────────── lookahead ─────────────────────────

/// `str::trim_start_matches` with a string pattern: strip `p` repeatedly.
pub open spec fn strip_all(s: Seq<char>, p: Seq<char>) -> Seq<char>
    decreases s.len(),
{
    if p.len() > 0 && has_prefix(s, p) {
        strip_all(s.skip(p.len() as int), p)
    } else {
        s
    }
}

/// The line carries only whitespace, comment or attribute content.
pub open spec fn is_comment_only(line: Seq<char>) -> bool {
    let t = trim(line);
    t.len() == 0 || has_prefix(t, "//"@) || has_prefix(t, "/*"@) || has_prefix(t, "*"@)
        || has_prefix(t, "#["@) || has_prefix(t, "#!["@)
}

/// Declaration keywords that make a line non-executable on their own.
pub open spec fn starts_with_decl(t: Seq<char>) -> bool {
    has_prefix(t, "struct "@) || has_prefix(t, "enum "@) || has_prefix(t, "trait "@) || has_prefix(
        t,
        "mod "@,
    ) || has_prefix(t, "use "@) || has_prefix(t, "type "@) || has_prefix(t, "const "@)
        || has_prefix(t, "static "@) || has_prefix(t, "impl "@)
}

/// The line is skipped while looking for the executable line after a tag:
/// blank, comment, attribute, declaration-only, or a bare visibility modifier.
pub open spec fn is_skip_line(line: Seq<char>) -> bool {
    let t = trim(line);
    let no_vis = trim(strip_all(strip_all(strip_all(t, "pub(crate)"@), "pub(super)"@), "pub"@));
    is_comment_only(line) || starts_with_decl(t) || has_prefix(t, "extern crate"@) || no_vis.len()
        == 0 || starts_with_decl(no_vis) || has_prefix(no_vis, "extern "@)
}

/// Length of the run of identifier characters (alphanumeric or `_`) at the start.
pub open spec fn ident_run(s: Seq<char>) -> nat
    decreases s.len(),
{
    if s.len() > 0 && (alphanumeric(s[0]) || s[0] == '_') {
        1 + ident_run(s.drop_first())
    } else {
        0
    }
}

/// Line after stripping leading modifiers for function-name extraction.
pub open spec fn strip_modifiers(line: Seq<char>) -> Seq<char> {
    let r0 = trim(line);
    let r1 = trim(strip_all(r0, "pub(crate)"@));
    let r2 = trim(strip_all(r1, "pub(super)"@));
    let r3 = trim(strip_all(r2, "pub"@));
    let r4 = trim(strip_all(r3, "async"@));
    let r5 = trim(strip_all(r4, "unsafe"@));
    trim(strip_all(r5, "extern"@))
}

/// The name `f` when the line defines `fn f`.
pub open spec fn fn_name(line: Seq<char>) -> Option<Seq<char>> {
    let rest = strip_modifiers(line);
    if has_prefix(rest, "fn "@) {
        let after = rest.skip(3);
        let n = ident_run(after);
        if n > 0 {
            Some(after.take(n as int))
        } else {
            None
        }
    } else {
        None
    }
}

/// First executable line among indices `idx .. end` (0-based), returned as a
/// 1-based line number with the function name defined there, if any.
pub open spec fn exec_line_from(ls: Seq<Seq<char>>, idx: int, end: int) -> Option<
    (nat, Option<Seq<char>>),
>
    decreases end - idx,
{
    if idx >= end || idx < 0 {
        None
    } else if !is_skip_line(ls[idx]) {
        Some(((idx + 1) as nat, fn_name(ls[idx])))
    } else {
        exec_line_from(ls, idx + 1, end)
    }
}

/// Lookahead window of 60 lines after the tag at 1-based line `from`.
pub open spec fn find_exec_line(ls: Seq<Seq<char>>, from: nat) -> Option<(nat, Option<Seq<char>>)> {
    let end: int = if from + 60 < ls.len() {
        (from + 60) as int
    } else {
        ls.len() as int
    };
    exec_line_from(ls, from as int, end)
}

/// Brace depth scan of one line from character `ci` with running depth `d`:
/// `Ok(())` paired with the new depth when the line ends without a closing
/// brace bringing the depth back to zero, `Err(())` when one does.
pub open spec fn brace_line(line: Seq<char>, ci: int, d: int) -> (bool, int)
    decreases line.len() - ci,
{
    if ci < 0 || ci >= line.len() {
        (false, d)
    } else if line[ci] == '{' {
        brace_line(line, ci + 1, d + 1)
    } else if line[ci] == '}' {
        if d - 1 == 0 {
            (true, 0)
        } else {
            brace_line(line, ci + 1, d - 1)
        }
    } else {
        brace_line(line, ci + 1, d)
    }
}

/// Scan lines `idx .. end` (0-based) for the closing brace; 1-based result.
pub open spec fn brace_lines(ls: Seq<Seq<char>>, idx: int, end: int, d: int) -> Option<nat>
    decreases end - idx,
{
    if idx >= end || idx < 0 {
        None
    } else {
        let r = brace_line(ls[idx], 0, d);
        if r.0 {
            Some((idx + 1) as nat)
        } else {
            brace_lines(ls, idx + 1, end, r.1)
        }
    }
}

/// 1-based line of the brace that closes the function starting at 1-based
/// line `fn_line`, looking at most 300 lines further.
pub open spec fn fn_end(ls: Seq<Seq<char>>, fn_line: nat) -> Option<nat> {
    let end: int = if fn_line + 300 < ls.len() {
        (fn_line + 300) as int
    } else {
        ls.len() as int
    };
    brace_lines(ls, fn_line - 1, end, 0)
}

/// The lookahead adjustment of one tag.
pub open spec fn lookahead(ls: Seq<Seq<char>>, t: TagSpec) -> TagSpec {
    if t.tag_type == TagType::Req && t.line_end.is_none() && 1 <= t.line <= ls.len()
        && is_comment_only(ls[t.line - 1]) {
        match find_exec_line(ls, t.line) {
            Some((el, sym)) => TagSpec {
                req_id: t.req_id,
                tag_type: t.tag_type,
                line: el,
                line_end: if sym.is_some() {
                    match fn_end(ls, el) {
                        Some(c) => Some(c + 1),
                        None => None,
                    }
                } else {
                    t.line_end
                },
                criterion_index: t.criterion_index,
                symbol: sym,
            },
            None => t,
        }
    } else {
        t
    }
}

/// All tags of a file with the given text.
pub open spec fn scan_spec(content: Seq<char>) -> Seq<TagSpec> {
    let ls = lines(content);
    let raw = raw_tags(ls);
    Seq::new(raw.len(), |i: int| lookahead(ls, raw[i]))
}

// ───────────────────────── executable lookahead helpers ─────────────────────────

/// `trim_start_matches(p)`: strip `p` from the front as often as it occurs.
pub fn strip_all_exec(s: &[char], p: &str) -> (r: Vec<char>)
    ensures
        r@ == strip_all(s@, p@),
{
    let pc = chars_of(p);
    let mut i: usize = 0;
    assert(s@.skip(0) =~= s@);
    if pc.len() == 0 {
        return crate::text::slice_chars(s, 0, s.len());
    }
    while i < s.len() && crate::text::matches_at(s, pc.as_slice(), i)
        invariant
            pc@ == p@,
            pc@.len() > 0,
            i <= s@.len(),
            strip_all(s@, p@) == strip_all(s@.skip(i as int), p@),
        decreases s.len() - i,
    {
        proof {
            let t = s@.skip(i as int);
            assert(t.take(pc@.len() as int) =~= s@.subrange(i as int, i + pc@.len()));
            assert(t.skip(pc@.len() as int) =~= s@.skip(i + pc@.len()));
        }
        i = i + pc.len();
    }
    proof {
        let t = s@.skip(i as int);
        if i < s@.len() && has_prefix(t, p@) {
            assert(t.take(pc@.len() as int) =~= s@.subrange(i as int, i + pc@.len()));
        }
    }
    crate::text::slice_chars(s, i, s.len())
}

/// Whether the line holds only whitespace, comment or attribute content.
pub fn is_comment_only_line(line: &[char]) -> (b: bool)
    ensures
        b == is_comment_only(line@),
{
    let t = trim_chars(line);
    let t = t.as_slice();
    t.len() == 0 || starts_with_str(t, "//") || starts_with_str(t, "/*") || starts_with_str(t, "*")
        || starts_with_str(t, "#[") || starts_with_str(t, "#![")
}

fn starts_with_decl_exec(t: &[char]) -> (b: bool)
    ensures
        b == starts_with_decl(t@),
{
    starts_with_str(t, "struct ") || starts_with_str(t, "enum ") || starts_with_str(t, "trait ")
        || starts_with_str(t, "mod ") || starts_with_str(t, "use ") || starts_with_str(t, "type ")
        || starts_with_str(t, "const ") || starts_with_str(t, "static ") || starts_with_str(
        t,
        "impl ",
    )
}

/// Whether the line is skipped when looking for the executable line after a tag.
pub fn is_lookahead_skip_line(line: &[char]) -> (b: bool)
    ensures
        b == is_skip_line(line@),
{
    let t = trim_chars(line);
    let a = strip_all_exec(t.as_slice(), "pub(crate)");
    let b = strip_all_exec(a.as_slice(), "pub(super)");
    let c = strip_all_exec(b.as_slice(), "pub");
    let no_vis = trim_chars(c.as_slice());
    is_comment_only_line(line) || starts_with_decl_exec(t.as_slice()) || starts_with_str(
        t.as_slice(),
        "extern crate",
    ) || no_vis.len() == 0 || starts_with_decl_exec(no_vis.as_slice()) || starts_with_str(
        no_vis.as_slice(),
        "extern ",
    )
}

/// If the line defines `fn <name>`, the name (leading visibility, `async`,
/// `unsafe` and `extern` modifiers are skipped).
pub fn extract_fn_name(line: &[char]) -> (r: Option<Vec<char>>)
    ensures
        match r {
            Some(v) => fn_name(line@) == Some(v@),
            None => fn_name(line@).is_none(),
        },
{
    let r0 = trim_chars(line);
    let r1 = trim_chars(strip_all_exec(r0.as_slice(), "pub(crate)").as_slice());
    let r2 = trim_chars(strip_all_exec(r1.as_slice(), "pub(super)").as_slice());
    let r3 = trim_chars(strip_all_exec(r2.as_slice(), "pub").as_slice());
    let r4 = trim_chars(strip_all_exec(r3.as_slice(), "async").as_slice());
    let r5 = trim_chars(strip_all_exec(r4.as_slice(), "unsafe").as_slice());
    let rest = trim_chars(strip_all_exec(r5.as_slice(), "extern").as_slice());
    assert(rest@ == strip_modifiers(line@));
    if !starts_with_str(rest.as_slice(), "fn ") {
        return None;
    }
    proof {
        reveal_strlit("fn ");
    }
    let after = crate::text::slice_chars(rest.as_slice(), 3, rest.len());
    assert(after@ =~= rest@.skip(3));
    let mut n: usize = 0;
    assert(after@.skip(0) =~= after@);
    while n < after.len() && (is_alphanumeric(after[n]) || after[n] == '_')
        invariant
            n <= after@.len(),
            ident_run(after@) == n + ident_run(after@.skip(n as int)),
        decreases after.len() - n,
    {
        proof {
            assert(after@.skip(n as int).drop_first() =~= after@.skip(n + 1));
        }
        n = n + 1;
    }
    if n == 0 {
        return None;
    }
    let name = crate::text::slice_chars(after.as_slice(), 0, n);
    assert(name@ =~= after@.take(n as int));
    Some(name)
}

/// Starting after the 1-based line `from_line`, the first line within the
/// 60-line lookahead window that is not skipped: its 1-based number and the
/// function it defines, if any.
pub fn find_executable_line(lines: &[Vec<char>], from_line: usize) -> (r: Option<
    (usize, Option<Vec<char>>),
>)
    ensures
        match r {
            Some((l, sym)) => find_exec_line(line_views(lines@), from_line as nat) == Some(
                (l as nat, opt_chars(sym)),
            ) && 1 <= l <= lines@.len(),
            None => find_exec_line(line_views(lines@), from_line as nat).is_none(),
        },
{
    let ghost ls = line_views(lines@);
    let end: usize = if from_line < lines.len() && lines.len() - from_line > 60 {
        from_line + 60
    } else {
        lines.len()
    };
    assert(end as int == if from_line + 60 < ls.len() {
        from_line + 60
    } else {
        ls.len() as int
    });
    let mut idx = from_line;
    while idx < end
        invariant
            from_line <= idx,
            end <= lines@.len(),
            ls == line_views(lines@),
            end as int == if from_line + 60 < ls.len() {
                from_line + 60
            } else {
                ls.len() as int
            },
            exec_line_from(ls, idx as int, end as int) == exec_line_from(
                ls,
                from_line as int,
                end as int,
            ),
        decreases end - idx,
    {
        assert(ls[idx as int] == lines@[idx as int]@);
        if !is_lookahead_skip_line(lines[idx].as_slice()) {
            let sym = extract_fn_name(lines[idx].as_slice());
            assert(exec_line_from(ls, idx as int, end as int) == Some(
                ((idx + 1) as nat, fn_name(ls[idx as int])),
            ));
            assert(find_exec_line(ls, from_line as nat) == exec_line_from(
                ls,
                from_line as int,
                end as int,
            ));
            assert(opt_chars(sym) == fn_name(ls[idx as int]));
            return Some((idx + 1, sym));
        }
        idx = idx + 1;
    }
    None
}

fn brace_line_exec(line: &[char], d: i128) -> (r: (bool, i128))
    requires
        -0x1_0000_0000_0000_0000_0000 <= d <= 0x1_0000_0000_0000_0000_0000,
    ensures
        r.0 == brace_line(line@, 0, d as int).0,
        !r.0 ==> r.1 == brace_line(line@, 0, d as int).1,
        d - line.len() <= r.1 <= d + line.len(),
{
    let mut ci: usize = 0;
    let mut depth: i128 = d;
    while ci < line.len()
        invariant
            ci <= line.len(),
            -0x1_0000_0000_0000_0000_0000 <= d <= 0x1_0000_0000_0000_0000_0000,
            d - ci <= depth <= d + ci,
            brace_line(line@, ci as int, depth as int) == brace_line(line@, 0, d as int),
        decreases line.len() - ci,
    {
        let c = line[ci];
        if c == '{' {
            depth = depth + 1;
        } else if c == '}' {
            depth = depth - 1;
            if depth == 0 {
                return (true, 0);
            }
        }
        ci = ci + 1;
    }
    (false, depth)
}

/// 1-based line of the brace closing the function that starts at the
/// 1-based line `fn_line`, looking at most 300 lines further.
pub fn find_function_end(lines: &[Vec<char>], fn_line: usize) -> (r: Option<usize>)
    requires
        1 <= fn_line <= lines@.len() + 1,
    ensures
        opt_nat(r) == fn_end(line_views(lines@), fn_line as nat),
        match r {
            Some(c) => c <= lines@.len(),
            None => true,
        },
{
    let ghost ls = line_views(lines@);
    if fn_line > lines.len() {
        return None;
    }
    let end: usize = if lines.len() - fn_line > 300 {
        fn_line + 300
    } else {
        lines.len()
    };
    let mut idx = fn_line - 1;
    let mut depth: i128 = 0;
    while idx < end
        invariant
            fn_line - 1 <= idx,
            end <= lines@.len(),
            end <= fn_line + 300,
            ls == line_views(lines@),
            -(idx - (fn_line - 1)) * 0x1_0000_0000_0000_0000 <= depth <= (idx - (fn_line - 1))
                * 0x1_0000_0000_0000_0000,
            brace_lines(ls, idx as int, end as int, depth as int) == fn_end(ls, fn_line as nat),
        decreases end - idx,
    {
        assert(ls[idx as int] == lines@[idx as int]@);
        assert((idx - (fn_line - 1)) * 0x1_0000_0000_0000_0000 <= 300 * 0x1_0000_0000_0000_0000);
        let (closed, nd) = brace_line_exec(lines[idx].as_slice(), depth);
        if closed {
            return Some(idx + 1);
        }
        assert(lines[idx as int]@.len() <= 0x1_0000_0000_0000_0000);
        depth = nd;
        idx = idx + 1;
    }
    None
}

// ───────────────────────── executable scan ─────────────────────────

/// `usize` values as naturals.
pub open spec fn nat_views(v: Seq<usize>) -> Seq<nat> {
    Seq::new(v.len(), |i: int| v[i] as nat)
}

fn make_tag(id: Vec<char>, t: TagType, line: usize) -> (r: FoundTag)
    ensures
        r@ == simple_tag(id@, t, line as nat),
{
    FoundTag {
        req_id: string_of(id.as_slice()),
        tag_type: t,
        line,
        line_end: None,
        criterion_index: None,
        symbol: None,
    }
}

fn key_index_exec(ids: &Vec<Vec<char>>, id: &[char]) -> (r: Option<usize>)
    ensures
        match r {
            Some(k) => key_index(ids.deep_view(), id@) == k as int && k < ids@.len(),
            None => key_index(ids.deep_view(), id@) == -1,
        },
{
    let ghost dv = ids.deep_view();
    let mut j: usize = ids.len();
    assert(dv.take(j as int) =~= dv);
    while j > 0
        invariant
            j <= ids@.len(),
            dv == ids.deep_view(),
            key_index(dv, id@) == key_index(dv.take(j as int), id@),
        decreases j,
    {
        let ghost t = dv.take(j as int);
        assert(t.last() == ids@[j - 1].deep_view());
        assert(ids@[j - 1].deep_view() =~= ids@[j - 1]@);
        if crate::text::chars_eq(ids[j - 1].as_slice(), id) {
            return Some(j - 1);
        }
        assert(t.drop_last() =~= dv.take(j - 1));
        j = j - 1;
    }
    None
}

fn push_id_tags(tags: &mut Vec<FoundTag>, ids: Vec<Vec<char>>, t: TagType, line: usize)
    ensures
        tag_views(final(tags)@) == tag_views(old(tags)@) + ids_to_tags(ids.deep_view(), t, line as nat),
{
    let ghost base = tag_views(tags@);
    let mut i: usize = 0;
    while i < ids.len()
        invariant
            i <= ids@.len(),
            tag_views(tags@) == base + ids_to_tags(ids.deep_view().take(i as int), t, line as nat),
        decreases ids.len() - i,
    {
        let id = crate::text::slice_chars(ids[i].as_slice(), 0, ids[i].len());
        let ghost prev = tags@;
        tags.push(make_tag(id, t, line));
        proof {
            assert(ids@[i as int]@.subrange(0, ids@[i as int]@.len() as int) =~= ids@[i as int]@);
            assert(ids.deep_view()[i as int] =~= ids@[i as int]@);
            assert(tag_views(tags@) =~= tag_views(prev).push(simple_tag(id@, t, line as nat)));
            assert(ids_to_tags(ids.deep_view().take(i + 1), t, line as nat) =~= ids_to_tags(
                ids.deep_view().take(i as int),
                t,
                line as nat,
            ).push(simple_tag(id@, t, line as nat)));
            assert(tag_views(tags@) =~= base + ids_to_tags(ids.deep_view().take(i + 1), t, line as nat));
        }
        i = i + 1;
    }
    assert(ids.deep_view().take(i as int) =~= ids.deep_view());
}

fn push_crit_tags(
    tags: &mut Vec<FoundTag>,
    ms: Vec<(Vec<char>, Vec<char>)>,
    Ghost(spec_ms): Ghost<Seq<(Seq<char>, Seq<char>)>>,
    line: usize,
)
    requires
        ms@.len() == spec_ms.len(),
        forall|i: int|
            0 <= i < ms@.len() ==> (#[trigger] ms@[i]).0@ == spec_ms[i].0 && ms@[i].1@
                == spec_ms[i].1,
    ensures
        tag_views(final(tags)@) == tag_views(old(tags)@) + crit_tags(spec_ms, line as nat),
{
    let ghost base = tag_views(tags@);
    let mut i: usize = 0;
    assert(spec_ms.skip(0) =~= spec_ms);
    assert(base + crit_tags(spec_ms, line as nat) =~= tag_views(tags@) + crit_tags(spec_ms.skip(0), line as nat));
    while i < ms.len()
        invariant
            i <= ms@.len(),
            ms@.len() == spec_ms.len(),
            forall|k: int|
                0 <= k < ms@.len() ==> (#[trigger] ms@[k]).0@ == spec_ms[k].0 && ms@[k].1@
                    == spec_ms[k].1,
            tag_views(tags@) + crit_tags(spec_ms.skip(i as int), line as nat) == base + crit_tags(
                spec_ms,
                line as nat,
            ),
        decreases ms.len() - i,
    {
        let ghost rest = spec_ms.skip(i as int);
        assert(rest[0] == spec_ms[i as int]);
        assert(rest.drop_first() =~= spec_ms.skip(i + 1));
        let ghost prev = tag_views(tags@);
        match parse_usize_chars(ms[i].1.as_slice()) {
            Some(k) => {
                if k > 0 {
                    let id = crate::text::slice_chars(ms[i].0.as_slice(), 0, ms[i].0.len());
                    assert(id@ =~= ms@[i as int].0@);
                    tags.push(
                        FoundTag {
                            req_id: string_of(id.as_slice()),
                            tag_type: TagType::Criterion,
                            line,
                            line_end: None,
                            criterion_index: Some(k),
                            symbol: None,
                        },
                    );
                    assert(tag_views(tags@) =~= prev.push(tags@.last()@));
                }
            },
            None => {},
        }
        proof {
            assert(tag_views(tags@) + crit_tags(spec_ms.skip(i + 1), line as nat) =~= prev
                + crit_tags(rest, line as nat));
        }
        i = i + 1;
    }
    assert(spec_ms.skip(i as int) =~= Seq::<(Seq<char>, Seq<char>)>::empty());
    assert(tag_views(tags@) =~= tag_views(tags@) + crit_tags(spec_ms.skip(i as int), line as nat));
}

/// Process one source line: update the open blocks and append the tags it holds.
fn scan_line_exec(
    ids: &mut Vec<Vec<char>>,
    starts: &mut Vec<usize>,
    tags: &mut Vec<FoundTag>,
    s: &[char],
    n: usize,
)
    requires
        old(ids)@.len() == old(starts)@.len(),
    ensures
        final(ids)@.len() == final(starts)@.len(),
        ({
            let st = scan_line(
                ScanState {
                    open: OpenBlocks { ids: old(ids).deep_view(), starts: nat_views(old(starts)@) },
                    tags: tag_views(old(tags)@),
                },
                s@,
                n as nat,
            );
            &&& st.open.ids == final(ids).deep_view()
            &&& st.open.starts == nat_views(final(starts)@)
            &&& st.tags == tag_views(final(tags)@)
        }),
{
    let ghost st0 = ScanState {
        open: OpenBlocks { ids: ids.deep_view(), starts: nat_views(starts@) },
        tags: tag_views(tags@),
    };
    let kw_begin = chars_of("BEGIN-REQ:");
    let kw_end = chars_of("END-REQ:");
    let kw_req = chars_of("REQ:");
    let kw_ver = chars_of("VERIFIES:");
    let kw_crit = chars_of("CRITERION:");
    let b = first_capture_exec(s, kw_begin.as_slice());
    let has_begin = b.is_some();
    match b {
        Some(id) => {
            match key_index_exec(ids, id.as_slice()) {
                Some(k) => {
                    starts.set(k, n);
                    assert(nat_views(starts@) =~= st0.open.starts.update(k as int, n as nat));
                },
                None => {
                    let ghost old_ids = ids.deep_view();
                    assert(id.deep_view() =~= id@);
                    ids.push(id);
                    starts.push(n);
                    assert(ids.deep_view() =~~= old_ids.push(id@));
                    assert(nat_views(starts@) =~= st0.open.starts.push(n as nat));
                },
            }
        },
        None => {},
    }
    let ghost o1 = OpenBlocks { ids: ids.deep_view(), starts: nat_views(starts@) };
    let e = first_capture_exec(s, kw_end.as_slice());
    let has_end = e.is_some();
    match e {
        Some(id) => {
            match key_index_exec(ids, id.as_slice()) {
                Some(k) => {
                    let ghost old_ids = ids.deep_view();
                    let start = starts[k];
                    ids.remove(k);
                    starts.remove(k);
                    assert(ids.deep_view() =~~= old_ids.remove(k as int));
                    assert(nat_views(starts@) =~= o1.starts.remove(k as int));
                    tags.push(
                        FoundTag {
                            req_id: string_of(id.as_slice()),
                            tag_type: TagType::Req,
                            line: start,
                            line_end: Some(n),
                            criterion_index: None,
                            symbol: None,
                        },
                    );
                },
                None => {},
            }
        },
        None => {},
    }
    if !has_begin && !has_end {
        let req_ids = tag_ids_exec(s, kw_req.as_slice());
        push_id_tags(tags, req_ids, TagType::Req, n);
    }
    let ver_ids = tag_ids_exec(s, kw_ver.as_slice());
    push_id_tags(tags, ver_ids, TagType::Verifies, n);
    let crits = crit_matches_exec(s, kw_crit.as_slice());
    push_crit_tags(tags, crits, Ghost(crit_matches(s@, "CRITERION:"@, 0)), n);
    proof {
        let st = scan_line(st0, s@, n as nat);
        assert(st.open.ids =~= ids.deep_view());
        assert(st.open.starts =~= nat_views(starts@));
        assert(st.tags =~= tag_views(tags@));
    }
}

fn clone_opt_string(o: &Option<String>) -> (r: Option<String>)
    ensures
        opt_str(r) == opt_str(*o),
{
    match o {
        Some(v) => Some(v.clone()),
        None => None,
    }
}

/// Apply the lookahead adjustment to one tag.
fn lookahead_exec(lines: &Vec<Vec<char>>, t: &FoundTag) -> (r: FoundTag)
    requires
        lines@.len() < usize::MAX,
    ensures
        r@ == lookahead(line_views(lines@), t@),
{
    let ghost ls = line_views(lines@);
    let same = FoundTag {
        req_id: t.req_id.clone(),
        tag_type: t.tag_type,
        line: t.line,
        line_end: t.line_end,
        criterion_index: t.criterion_index,
        symbol: clone_opt_string(&t.symbol),
    };
    if t.tag_type == TagType::Req && t.line_end.is_none() && 1 <= t.line && t.line <= lines.len() {
        assert(ls[t.line - 1] == lines@[t.line - 1]@);
        if is_comment_only_line(lines[t.line - 1].as_slice()) {
            match find_executable_line(lines.as_slice(), t.line) {
                Some((el, sym)) => {
                    let line_end = match sym {
                        Some(_) => {
                            match find_function_end(lines.as_slice(), el) {
                                Some(c) => Some(c + 1),
                                None => None,
                            }
                        },
                        None => t.line_end,
                    };
                    let symbol = match sym {
                        Some(v) => Some(string_of(v.as_slice())),
                        None => None,
                    };
                    return FoundTag {
                        req_id: t.req_id.clone(),
                        tag_type: t.tag_type,
                        line: el,
                        line_end,
                        criterion_index: t.criterion_index,
                        symbol,
                    };
                },
                None => {},
            }
        }
    }
    same
}

/// Scan the lines of a source file for tags.
pub fn scan_lines(lines: &Vec<Vec<char>>) -> (tags: Vec<FoundTag>)
    requires
        lines@.len() < usize::MAX,
    ensures
        tag_views(tags@) == Seq::new(
            raw_tags(line_views(lines@)).len(),
            |i: int| lookahead(line_views(lines@), raw_tags(line_views(lines@))[i]),
        ),
{
    let ghost ls = line_views(lines@);
    let mut ids: Vec<Vec<char>> = Vec::new();
    let mut starts: Vec<usize> = Vec::new();
    let mut tags: Vec<FoundTag> = Vec::new();
    let mut k: usize = 0;
    proof {
        assert(ids.deep_view() =~= Seq::<Seq<char>>::empty());
        assert(nat_views(starts@) =~= Seq::<nat>::empty());
        assert(tag_views(tags@) =~= Seq::<TagSpec>::empty());
    }
    while k < lines.len()
        invariant
            k <= lines@.len(),
            lines@.len() < usize::MAX,
            ls == line_views(lines@),
            ids@.len() == starts@.len(),
            scan_prefix(ls, k as nat).open.ids == ids.deep_view(),
            scan_prefix(ls, k as nat).open.starts == nat_views(starts@),
            scan_prefix(ls, k as nat).tags == tag_views(tags@),
        decreases lines.len() - k,
    {
        assert(ls[k as int] == lines@[k as int]@);
        scan_line_exec(&mut ids, &mut starts, &mut tags, lines[k].as_slice(), k + 1);
        k = k + 1;
    }
    let ghost st = scan_prefix(ls, ls.len());
    let mut i: usize = 0;
    while i < ids.len()
        invariant
            i <= ids@.len(),
            ids@.len() == starts@.len(),
            st.open.ids == ids.deep_view(),
            st.open.starts == nat_views(starts@),
            tag_views(tags@) == st.tags + unclosed_tags(st.open).take(i as int),
        decreases ids.len() - i,
    {
        let id = crate::text::slice_chars(ids[i].as_slice(), 0, ids[i].len());
        let ghost prev = tag_views(tags@);
        tags.push(make_tag(id, TagType::Req, starts[i]));
        proof {
            assert(ids@[i as int]@.subrange(0, ids@[i as int]@.len() as int) =~= ids@[i as int]@);
            assert(ids.deep_view()[i as int] =~= ids@[i as int]@);
            assert(tag_views(tags@) =~= prev.push(simple_tag(id@, TagType::Req, starts@[i as int] as nat)));
            assert(unclosed_tags(st.open).take(i + 1) =~= unclosed_tags(st.open).take(i as int).push(
                simple_tag(id@, TagType::Req, starts@[i as int] as nat),
            ));
        }
        i = i + 1;
    }
    let ghost raw = raw_tags(ls);
    assert(unclosed_tags(st.open).take(i as int) =~= unclosed_tags(st.open));
    assert(tag_views(tags@) == raw);
    let mut out: Vec<FoundTag> = Vec::new();
    let mut j: usize = 0;
    while j < tags.len()
        invariant
            j <= tags@.len(),
            lines@.len() < usize::MAX,
            ls == line_views(lines@),
            tag_views(tags@) == raw,
            tag_views(out@) == Seq::new(j as nat, |x: int| lookahead(ls, raw[x])),
        decreases tags.len() - j,
    {
        let ghost prev = tag_views(out@);
        let adjusted = lookahead_exec(lines, &tags[j]);
        out.push(adjusted);
        proof {
            assert(raw[j as int] == tags@[j as int]@);
            assert(tag_views(out@) =~= prev.push(out@[j as int]@));
            assert(tag_views(out@) =~= Seq::new((j + 1) as nat, |x: int| lookahead(ls, raw[x])));
        }
        j = j + 1;
    }
    out
}

/// Supported source file extensions.
pub const SOURCE_EXTENSIONS: [&'static str; 18] = [
    "c", "h", "cpp", "hpp", "cc", "cxx", "rs", "py", "java", "js", "ts", "go", "sh", "lua", "rb",
    "php", "swift", "kt",
];

/// `e` is one of the supported source extensions.
pub open spec fn source_extension(e: Seq<char>) -> bool {
    exists|k: int| 0 <= k < SOURCE_EXTENSIONS@.len() && #[trigger] SOURCE_EXTENSIONS@[k]@ == e
}

/// "Is a REQ tag", as a predicate.
pub open spec fn req_tag_pred() -> spec_fn(TagSpec) -> bool {
    |t: TagSpec| t.tag_type == TagType::Req
}

/// The code reference for a REQ tag found in file `path`.
pub open spec fn ref_of_tag(path: Seq<char>, t: TagSpec) -> CodeRefView {
    (t.req_id, path, t.line, t.line_end, None, t.symbol)
}

/// Code scanner for finding inline requirement tags.
pub struct CodeScanner;

impl CodeScanner {
    /// Create a new scanner.
    pub fn new() -> (s: Self) {
        CodeScanner
    }

    /// Scan the text of a source file for requirement tags.
    pub fn scan_content(&self, content: &str) -> (tags: Vec<FoundTag>)
        requires
            content@.len() < usize::MAX,
        ensures
            tag_views(tags@) == scan_spec(content@),
    {
        let chars = chars_of(content);
        let ls = split_lines(chars.as_slice());
        proof {
            lemma_lines_len(content@);
            assert forall|i: int| 0 <= i < ls@.len() implies #[trigger] line_views(ls@)[i]
                == ls.deep_view()[i] by {
                assert(ls@[i].deep_view() =~= ls@[i]@);
            }
            assert(line_views(ls@) =~= lines(content@));
        }
        scan_lines(&ls)
    }

    /// Check if a path names a source file the scanner reads: its extension
    /// is one of `SOURCE_EXTENSIONS`.
    pub fn is_source_file(path: &str) -> (b: bool)
        ensures
            b == match extension_of(path@) {
                Some(e) => source_extension(e),
                None => false,
            },
    {
        match path_extension(path) {
            Some(e) => {
                let ec = chars_of_string(&e);
                let mut k: usize = 0;
                proof {
                    vstd::array::array_len_matches_n(&SOURCE_EXTENSIONS);
                }
                while k < SOURCE_EXTENSIONS.len()
                    invariant
                        k <= SOURCE_EXTENSIONS@.len(),
                        SOURCE_EXTENSIONS@.len() == 18,
                        extension_of(path@) == Some(e@),
                        ec@ == e@,
                        forall|j: int| 0 <= j < k ==> #[trigger] SOURCE_EXTENSIONS@[j]@ != e@,
                    decreases SOURCE_EXTENSIONS.len() - k,
                {
                    let x = SOURCE_EXTENSIONS[k];
                    if chars_eq_str(ec.as_slice(), x) {
                        assert(SOURCE_EXTENSIONS@[k as int]@ == e@);
                        return true;
                    }
                    k = k + 1;
                }
                false
            },
            None => false,
        }
    }

    /// Convert found tags to code references (REQ tags only), in order.
    pub fn tags_to_code_refs(path: &str, tags: &[FoundTag]) -> (r: Vec<CodeRef>)
        ensures
            r@.map_values(|c: CodeRef| c@) == tag_views(tags@).filter(req_tag_pred()).map_values(
                |t: TagSpec| ref_of_tag(path@, t),
            ),
    {
        let mut out: Vec<CodeRef> = Vec::new();
        let ghost tv = tag_views(tags@);
        let mut i: usize = 0;
        assert(out@.map_values(|c: CodeRef| c@) =~= tv.take(0).filter(req_tag_pred()).map_values(
            |t: TagSpec| ref_of_tag(path@, t),
        ));
        while i < tags.len()
            invariant
                i <= tags@.len(),
                tv == tag_views(tags@),
                out@.map_values(|c: CodeRef| c@) == tv.take(i as int).filter(req_tag_pred()).map_values(
                    |t: TagSpec| ref_of_tag(path@, t),
                ),
            decreases tags.len() - i,
        {
            let t = &tags[i];
            proof {
                let s = tv.take(i as int);
                assert(tv.take(i + 1) =~= s.push(t@));
                s.lemma_filter_push(t@, req_tag_pred());
            }
            let ghost before = out@.map_values(|c: CodeRef| c@);
            if t.tag_type == TagType::Req {
                let c = CodeRef {
                    req_id: t.req_id.clone(),
                    file: path.to_owned(),
                    line: t.line,
                    line_end: t.line_end,
                    hash: None,
                    symbol: match &t.symbol {
                        Some(s) => Some(s.clone()),
                        None => None,
                    },
                };
                out.push(c);
                assert(out@.map_values(|c: CodeRef| c@) =~= before.push(ref_of_tag(path@, t@)));
            }
            proof {
                assert(out@.map_values(|c: CodeRef| c@) =~= tv.take(i + 1).filter(req_tag_pred()).map_values(
                    |t: TagSpec| ref_of_tag(path@, t),
                ));
            }
            i = i + 1;
        }
        assert(tv.take(i as int) =~= tv);
        out
    }

    /// A directory entry the scan passes over: its file name starts with
    /// `.`, or it has no file name.
    pub fn is_hidden_entry(path: &str) -> (b: bool)
        ensures
            b == match file_name_of(path@) {
                Some(n) => n.len() > 0 && n[0] == '.',
                None => true,
            },
    {
        match path_file_name(path) {
            Some(n) => {
                let c = chars_of(n.as_str());
                c.len() > 0 && c[0] == '.'
            },
            None => true,
        }
    }

    /// BLAKE3 hash of file content, as lower-case hex, for change detection.
    pub fn hash_content(content: &[u8]) -> (h: String)
        ensures
            h@ == blake3_hex_of(content@),
    {
        blake3_hex(content)
    }
}

impl Default for CodeScanner {
    fn default() -> (s: Self) {
        CodeScanner
    }
}

/// Validate that a requirement ID is well-formed: two `-`-separated parts,
/// a known type name and a `u32` number.
pub fn validate_req_id(id: &str) -> (r: Result<(RequirementType, u32), Error>)
    ensures
        match parse_id_spec(id@) {
            Some(x) => r == Ok::<(RequirementType, u32), Error>(x),
            None => r matches Err(Error::InvalidIdFormat(m)) && m@ == id@,
        },
{
    match Requirement::parse_id(id) {
        Some(x) => Ok(x),
        None => Err(Error::InvalidIdFormat(id.to_owned())),
    }
}

} // verus!
