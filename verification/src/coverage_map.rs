//! Line coverage of tagged spans from a `cargo llvm-cov --json` report.
//!
//! The report is given as plain values: for `data[0]`, its `files` (name
//! and segments) and `functions` (name, call count, file names, regions).
//! Segment data uses cursor semantics (the last segment at or before a
//! line sets its count); region data, used for files without segments,
//! gives each line the largest count of the code regions covering it.  A
//! span with no hit falls back to the call count of a function in the
//! same file whose mangled name contains the span's symbol.

use vstd::prelude::*;
use crate::audit::LineCoverageScore;
use crate::models::CodeRef;
use crate::text::{chars_of, contains, contains_chars};

verus! {

/// A JSON array element, as far as the reader looks into it.
#[derive(Clone, Copy, Debug, PartialEq, Eq, Structural)]
pub enum JsonItem {
    /// A number representable as `u64`
    Unsigned(u64),
    /// A boolean
    Bool(bool),
    /// Anything else
    Other,
}

/// One entry of `data[0].files`.
pub struct CovFile {
    /// `filename`, if it is a string
    pub filename: Option<String>,
    /// `segments`, if it is an array; each segment's items if it is an array
    pub segments: Option<Vec<Option<Vec<JsonItem>>>>,
}

/// One entry of `data[0].functions`.
pub struct CovFunction {
    /// `name`, if it is a string
    pub name: Option<String>,
    /// `count`, if it is a `u64`
    pub count: Option<u64>,
    /// `filenames`, if it is an array; each element if it is a string
    pub filenames: Option<Vec<Option<String>>>,
    /// `regions`, if it is an array; each region's items if it is an array
    pub regions: Option<Vec<Option<Vec<JsonItem>>>>,
}

/// `data[0]` of an llvm-cov report.
pub struct CovData {
    /// `files`, if it is an array
    pub files: Option<Vec<CovFile>>,
    /// `functions`, if it is an array
    pub functions: Option<Vec<CovFunction>>,
}

// ───────────────────────── the model ─────────────────────────

/// Backslashes replaced by forward slashes.
pub open spec fn norm_path(s: Seq<char>) -> Seq<char> {
    s.map_values(|c: char| if c == '\\' { '/' } else { c })
}

/// The `u64` at position `i`, if there is one.
pub open spec fn item_u64(a: Seq<JsonItem>, i: int) -> Option<u64> {
    if 0 <= i < a.len() {
        match a[i] {
            JsonItem::Unsigned(v) => Some(v),
            _ => None,
        }
    } else {
        None
    }
}

/// The boolean at position `i`, if there is one.
pub open spec fn item_bool(a: Seq<JsonItem>, i: int) -> Option<bool> {
    if 0 <= i < a.len() {
        match a[i] {
            JsonItem::Bool(b) => Some(b),
            _ => None,
        }
    } else {
        None
    }
}

/// The (line, count) point of a segment `[line, col, count, has_count,
/// ...]`: none unless it is an array with a line, `has_count` is true and
/// there is a third item (whose count is 0 unless it is a `u64`).
pub open spec fn segment_point(seg: Option<Vec<JsonItem>>) -> Option<(usize, u64)> {
    match seg {
        None => None,
        Some(v) => {
            let a = v@;
            match item_u64(a, 0) {
                None => None,
                Some(l) => {
                    let counted = match item_bool(a, 3) {
                        Some(b) => b,
                        None => false,
                    };
                    if !counted || a.len() <= 2 {
                        None
                    } else {
                        Some(
                            (
                                l as usize,
                                match item_u64(a, 2) {
                                    Some(c) => c,
                                    None => 0,
                                },
                            ),
                        )
                    }
                },
            }
        },
    }
}

/// The points of a list of segments, in order.
pub open spec fn points_of(segs: Seq<Option<Vec<JsonItem>>>) -> Seq<(usize, u64)>
    decreases segs.len(),
{
    if segs.len() == 0 {
        seq![]
    } else {
        let p = points_of(segs.drop_last());
        match segment_point(segs.last()) {
            Some(x) => p.push(x),
            None => p,
        }
    }
}

/// The points of a file entry.
pub open spec fn file_points(f: CovFile) -> Seq<(usize, u64)> {
    match f.segments {
        Some(s) => points_of(s@),
        None => seq![],
    }
}

/// The normalised name of a file entry (empty when missing).
pub open spec fn file_key(f: CovFile) -> Seq<char> {
    match f.filename {
        Some(n) => norm_path(n@),
        None => seq![],
    }
}

/// The cursor point for line `q`: among points at or before `q`, one with
/// the greatest line, the last such in order.
pub open spec fn cursor(pts: Seq<(usize, u64)>, q: usize) -> Option<(usize, u64)>
    decreases pts.len(),
{
    if pts.len() == 0 {
        None
    } else {
        let b = cursor(pts.drop_last(), q);
        let p = pts.last();
        if p.0 <= q {
            match b {
                None => Some(p),
                Some(x) => if p.0 >= x.0 {
                    Some(p)
                } else {
                    b
                },
            }
        } else {
            b
        }
    }
}

/// The segment count of line `q` of file `key`: from the last file entry
/// with that name that has a point at or before `q`; 0 if none.
pub open spec fn segment_count(files: Seq<CovFile>, key: Seq<char>, q: usize) -> u64
    decreases files.len(),
{
    if files.len() == 0 {
        0
    } else {
        let f = files.last();
        match cursor(file_points(f), q) {
            Some(p) => if file_key(f) == key {
                p.1
            } else {
                segment_count(files.drop_last(), key, q)
            },
            None => segment_count(files.drop_last(), key, q),
        }
    }
}

/// Some file entry has this name.
pub open spec fn has_segments(files: Seq<CovFile>, key: Seq<char>) -> bool {
    exists|i: int| 0 <= i < files.len() && #[trigger] file_key(files[i]) == key
}

/// A code region `[start, col, end, col, count, file_id, _, kind]` of kind
/// 0 whose file id names a file: (file name, start line, end line, count).
pub open spec fn region_of(names: Seq<Option<String>>, reg: Option<Vec<JsonItem>>) -> Option<
    (Seq<char>, usize, usize, u64),
> {
    match reg {
        None => None,
        Some(v) => {
            let a = v@;
            let kind = match item_u64(a, 7) {
                Some(k) => k,
                None => 1,
            };
            let fid = match item_u64(a, 5) {
                Some(x) => x as usize,
                None => 0,
            };
            if kind != 0 || item_u64(a, 0) is None || item_u64(a, 2) is None {
                None
            } else if fid < names.len() && names[fid as int] is Some {
                Some(
                    (
                        norm_path(names[fid as int]->0@),
                        item_u64(a, 0)->0 as usize,
                        item_u64(a, 2)->0 as usize,
                        match item_u64(a, 4) {
                            Some(c) => c,
                            None => 0,
                        },
                    ),
                )
            } else {
                None
            }
        },
    }
}

/// The file names of a function entry.
pub open spec fn function_names(f: CovFunction) -> Seq<Option<String>> {
    match f.filenames {
        Some(v) => v@,
        None => seq![],
    }
}

/// The regions of a function entry.
pub open spec fn function_regions(f: CovFunction) -> Seq<Option<Vec<JsonItem>>> {
    match f.regions {
        Some(v) => v@,
        None => seq![],
    }
}

/// Largest count of a region of `regs` for file `key` covering line `q`;
/// whether some region names file `key` at all.
pub open spec fn regions_at(
    names: Seq<Option<String>>,
    regs: Seq<Option<Vec<JsonItem>>>,
    key: Seq<char>,
    q: usize,
) -> (bool, u64)
    decreases regs.len(),
{
    if regs.len() == 0 {
        (false, 0)
    } else {
        let prev = regions_at(names, regs.drop_last(), key, q);
        match region_of(names, regs.last()) {
            Some(r) => if r.0 == key {
                let c = if r.1 <= q && q <= r.2 && r.3 > prev.1 {
                    r.3
                } else {
                    prev.1
                };
                (true, c)
            } else {
                prev
            },
            None => prev,
        }
    }
}

/// Region data over all functions, for a file without segment data: whether
/// there is any, and the count of line `q` (0 when no region covers it).
pub open spec fn region_count(funcs: Seq<CovFunction>, key: Seq<char>, q: usize) -> (bool, u64)
    decreases funcs.len(),
{
    if funcs.len() == 0 {
        (false, 0)
    } else {
        let prev = region_count(funcs.drop_last(), key, q);
        let f = funcs.last();
        let here = regions_at(function_names(f), function_regions(f), key, q);
        (prev.0 || here.0, if here.1 > prev.1 {
            here.1
        } else {
            prev.1
        })
    }
}

/// Number of lines `q` in `start..end` with `count(q) > 0`, for segment
/// data.
pub open spec fn segment_hits(files: Seq<CovFile>, key: Seq<char>, start: usize, end: nat) -> nat
    decreases end,
{
    if end <= start {
        0
    } else {
        let q = (end - 1) as usize;
        segment_hits(files, key, start, (end - 1) as nat) + if segment_count(files, key, q) > 0 {
            1nat
        } else {
            0nat
        }
    }
}

/// Number of lines `q` in `start..end` with a positive region count.
pub open spec fn region_hits(funcs: Seq<CovFunction>, key: Seq<char>, start: usize, end: nat) -> nat
    decreases end,
{
    if end <= start {
        0
    } else {
        let q = (end - 1) as usize;
        region_hits(funcs, key, start, (end - 1) as nat) + if region_count(funcs, key, q).1 > 0 {
            1nat
        } else {
            0nat
        }
    }
}

/// The first function in file `key` whose name contains `sym`: whether it
/// was called.
pub open spec fn symbol_called(funcs: Seq<CovFunction>, sym: Seq<char>, key: Seq<char>) -> Option<
    bool,
>
    decreases funcs.len(),
{
    if funcs.len() == 0 {
        None
    } else {
        let f = funcs[0];
        let names = function_names(f);
        let in_file = exists|i: int|
            0 <= i < names.len() && #[trigger] names[i] is Some && norm_path(names[i]->0@) == key;
        let name = match f.name {
            Some(n) => n@,
            None => seq![],
        };
        if in_file && contains(name, sym) {
            Some(
                match f.count {
                    Some(c) => c > 0,
                    None => false,
                },
            )
        } else {
            symbol_called(funcs.drop_first(), sym, key)
        }
    }
}

/// The files of the report.
pub open spec fn data_files(d: CovData) -> Seq<CovFile> {
    match d.files {
        Some(v) => v@,
        None => seq![],
    }
}

/// The functions of the report.
pub open spec fn data_functions(d: CovData) -> Seq<CovFunction> {
    match d.functions {
        Some(v) => v@,
        None => seq![],
    }
}

/// The end line (exclusive) of a code reference's span.
pub open spec fn ref_end(cr: CodeRef) -> nat {
    match cr.line_end {
        Some(e) => e as nat,
        None => cr.line as nat + 1,
    }
}

/// Bytes of one character in UTF-8.
pub open spec fn utf8_width(c: char) -> nat {
    if (c as u32) < 0x80 {
        1
    } else if (c as u32) < 0x800 {
        2
    } else if (c as u32) < 0x10000 {
        3
    } else {
        4
    }
}

/// Length in bytes of the UTF-8 encoding (`str::len`).
pub open spec fn utf8_size(s: Seq<char>) -> nat
    decreases s.len(),
{
    if s.len() == 0 {
        0
    } else {
        utf8_size(s.drop_last()) + utf8_width(s.last())
    }
}

/// The score of one code reference: (lines total, lines hit), if it is
/// reported.
pub open spec fn ref_score(d: CovData, cr: CodeRef) -> Option<(nat, nat)> {
    let files = data_files(d);
    let funcs = data_functions(d);
    let key = norm_path(cr.file@);
    let start = cr.line;
    let end = ref_end(cr);
    let span = if end > start {
        (end - start) as nat
    } else {
        0nat
    };
    let seg = has_segments(files, key);
    let reg = !seg && region_count(funcs, key, start).0;
    let total = if seg || reg {
        span
    } else {
        0nat
    };
    let hit = if seg {
        segment_hits(files, key, start, end)
    } else if reg {
        region_hits(funcs, key, start, end)
    } else {
        0nat
    };
    let by_symbol = hit == 0 && match cr.symbol {
        Some(s) => utf8_size(s@) >= 4 && symbol_called(funcs, s@, key) == Some(true),
        None => false,
    };
    let (t, h) = if by_symbol {
        let m = if total > 1 {
            total
        } else {
            1nat
        };
        (m, m)
    } else {
        (total, hit)
    };
    if (!(seg || reg) && h == 0) || t == 0 {
        None
    } else {
        Some((t, h))
    }
}

/// A score as plain values: requirement id, file, lines total, lines hit.
pub type ScoreView = (Seq<char>, Seq<char>, nat, nat);

/// The plain values of a score.
pub open spec fn score_view(s: LineCoverageScore) -> ScoreView {
    (s.req_id@, s.file@, s.lines_total as nat, s.lines_hit as nat)
}

/// The reported scores, one per reported code reference, in order.
pub open spec fn coverage_scores(d: CovData, refs: Seq<CodeRef>) -> Seq<ScoreView>
    decreases refs.len(),
{
    if refs.len() == 0 {
        seq![]
    } else {
        let prev = coverage_scores(d, refs.drop_last());
        let cr = refs.last();
        match ref_score(d, cr) {
            Some((t, h)) => prev.push((cr.req_id@, cr.file@, t, h)),
            None => prev,
        }
    }
}

// ───────────────────────── executable ─────────────────────────

/// Backslashes replaced by forward slashes.
pub fn norm_path_exec(s: &str) -> (r: Vec<char>)
    ensures
        r@ == norm_path(s@),
{
    let cs = chars_of(s);
    let mut r: Vec<char> = Vec::new();
    let mut i: usize = 0;
    while i < cs.len()
        invariant
            i <= cs@.len(),
            cs@ == s@,
            r@ == norm_path(cs@.take(i as int)),
        decreases cs.len() - i,
    {
        let c = cs[i];
        r.push(if c == '\\' { '/' } else { c });
        assert(r@ =~= norm_path(cs@.take(i + 1)));
        i = i + 1;
    }
    assert(cs@.take(i as int) =~= cs@);
    r
}

fn item_u64_exec(a: &Vec<JsonItem>, i: usize) -> (r: Option<u64>)
    ensures
        r == item_u64(a@, i as int),
{
    if i < a.len() {
        match a[i] {
            JsonItem::Unsigned(v) => Some(v),
            _ => None,
        }
    } else {
        None
    }
}

fn item_bool_exec(a: &Vec<JsonItem>, i: usize) -> (r: Option<bool>)
    ensures
        r == item_bool(a@, i as int),
{
    if i < a.len() {
        match a[i] {
            JsonItem::Bool(b) => Some(b),
            _ => None,
        }
    } else {
        None
    }
}

fn segment_point_exec(seg: &Option<Vec<JsonItem>>) -> (r: Option<(usize, u64)>)
    ensures
        r == segment_point(*seg),
{
    match seg {
        None => None,
        Some(a) => match item_u64_exec(a, 0) {
            None => None,
            Some(l) => {
                let counted = match item_bool_exec(a, 3) {
                    Some(b) => b,
                    None => false,
                };
                if !counted || a.len() <= 2 {
                    None
                } else {
                    let c = match item_u64_exec(a, 2) {
                        Some(c) => c,
                        None => 0,
                    };
                    Some((l as usize, c))
                }
            },
        },
    }
}

/// The cursor point of line `q` in a file's segments.
fn cursor_exec(segs: &Vec<Option<Vec<JsonItem>>>, q: usize) -> (r: Option<(usize, u64)>)
    ensures
        r == cursor(points_of(segs@), q),
{
    let mut best: Option<(usize, u64)> = None;
    let mut i: usize = 0;
    assert(points_of(segs@.take(0)) =~= Seq::<(usize, u64)>::empty());
    while i < segs.len()
        invariant
            i <= segs@.len(),
            best == cursor(points_of(segs@.take(i as int)), q),
        decreases segs.len() - i,
    {
        proof {
            let t = segs@.take(i + 1);
            assert(t.drop_last() =~= segs@.take(i as int));
        }
        match segment_point_exec(&segs[i]) {
            Some(p) => {
                if p.0 <= q {
                    match best {
                        None => {
                            best = Some(p);
                        },
                        Some(x) => {
                            if p.0 >= x.0 {
                                best = Some(p);
                            }
                        },
                    }
                }
                proof {
                    let pts = points_of(segs@.take(i as int));
                    assert(points_of(segs@.take(i + 1)) == pts.push(p));
                    assert(pts.push(p).drop_last() =~= pts);
                }
            },
            None => {},
        }
        i = i + 1;
    }
    assert(segs@.take(i as int) =~= segs@);
    best
}

/// Normalised names of the file entries.
fn file_keys(files: &Vec<CovFile>) -> (r: Vec<Vec<char>>)
    ensures
        r@.len() == files@.len(),
        forall|i: int| 0 <= i < files@.len() ==> #[trigger] r@[i]@ == file_key(files@[i]),
{
    let mut r: Vec<Vec<char>> = Vec::new();
    let mut i: usize = 0;
    while i < files.len()
        invariant
            i <= files@.len(),
            r@.len() == i,
            forall|j: int| 0 <= j < i ==> #[trigger] r@[j]@ == file_key(files@[j]),
        decreases files.len() - i,
    {
        let k = match &files[i].filename {
            Some(n) => norm_path_exec(n.as_str()),
            None => Vec::new(),
        };
        r.push(k);
        i = i + 1;
    }
    r
}

fn has_segments_exec(files: &Vec<CovFile>, keys: &Vec<Vec<char>>, key: &[char]) -> (r: bool)
    requires
        keys@.len() == files@.len(),
        forall|i: int| 0 <= i < files@.len() ==> #[trigger] keys@[i]@ == file_key(files@[i]),
    ensures
        r == has_segments(files@, key@),
{
    let mut i: usize = 0;
    while i < keys.len()
        invariant
            i <= keys@.len(),
            keys@.len() == files@.len(),
            forall|j: int| 0 <= j < files@.len() ==> #[trigger] keys@[j]@ == file_key(files@[j]),
            forall|j: int| 0 <= j < i ==> #[trigger] file_key(files@[j]) != key@,
        decreases keys.len() - i,
    {
        if crate::text::chars_eq(keys[i].as_slice(), key) {
            assert(file_key(files@[i as int]) == key@);
            return true;
        }
        i = i + 1;
    }
    false
}

fn segment_count_exec(files: &Vec<CovFile>, keys: &Vec<Vec<char>>, key: &[char], q: usize) -> (r:
    u64)
    requires
        keys@.len() == files@.len(),
        forall|i: int| 0 <= i < files@.len() ==> #[trigger] keys@[i]@ == file_key(files@[i]),
    ensures
        r == segment_count(files@, key@, q),
{
    let mut r: u64 = 0;
    let mut i: usize = 0;
    assert(files@.take(0) =~= Seq::<CovFile>::empty());
    while i < files.len()
        invariant
            i <= files@.len(),
            keys@.len() == files@.len(),
            forall|j: int| 0 <= j < files@.len() ==> #[trigger] keys@[j]@ == file_key(files@[j]),
            r == segment_count(files@.take(i as int), key@, q),
        decreases files.len() - i,
    {
        proof {
            let t = files@.take(i + 1);
            assert(t.drop_last() =~= files@.take(i as int));
            assert(keys@[i as int]@ == file_key(files@[i as int]));
        }
        if crate::text::chars_eq(keys[i].as_slice(), key) {
            let pts = match &files[i].segments {
                Some(segs) => cursor_exec(segs, q),
                None => {
                    assert(points_of(Seq::<Option<Vec<JsonItem>>>::empty()) =~= Seq::<(usize, u64)>::empty());
                    None
                },
            };
            match pts {
                Some(p) => {
                    r = p.1;
                },
                None => {},
            }
        }
        i = i + 1;
    }
    assert(files@.take(i as int) =~= files@);
    r
}

fn region_of_exec(names: &Vec<Option<String>>, reg: &Option<Vec<JsonItem>>) -> (r: Option<
    (Vec<char>, usize, usize, u64),
>)
    ensures
        match region_of(names@, *reg) {
            Some(x) => r matches Some(y) && y.0@ == x.0 && y.1 == x.1 && y.2 == x.2 && y.3 == x.3,
            None => r is None,
        },
{
    match reg {
        None => None,
        Some(a) => {
            let kind = match item_u64_exec(a, 7) {
                Some(k) => k,
                None => 1,
            };
            let fid = match item_u64_exec(a, 5) {
                Some(x) => x as usize,
                None => 0,
            };
            let start = item_u64_exec(a, 0);
            let end = item_u64_exec(a, 2);
            if kind != 0 || start.is_none() || end.is_none() {
                return None;
            }
            if fid < names.len() {
                match &names[fid] {
                    Some(n) => {
                        let c = match item_u64_exec(a, 4) {
                            Some(c) => c,
                            None => 0,
                        };
                        Some((norm_path_exec(n.as_str()), start.unwrap() as usize, end.unwrap() as usize, c))
                    },
                    None => None,
                }
            } else {
                None
            }
        },
    }
}

fn regions_at_exec(
    names: &Vec<Option<String>>,
    regs: &Vec<Option<Vec<JsonItem>>>,
    key: &[char],
    q: usize,
) -> (r: (bool, u64))
    ensures
        r == regions_at(names@, regs@, key@, q),
{
    let mut present = false;
    let mut best: u64 = 0;
    let mut i: usize = 0;
    assert(regs@.take(0) =~= Seq::<Option<Vec<JsonItem>>>::empty());
    while i < regs.len()
        invariant
            i <= regs@.len(),
            (present, best) == regions_at(names@, regs@.take(i as int), key@, q),
        decreases regs.len() - i,
    {
        proof {
            let t = regs@.take(i + 1);
            assert(t.drop_last() =~= regs@.take(i as int));
        }
        match region_of_exec(names, &regs[i]) {
            Some(x) => {
                if crate::text::chars_eq(x.0.as_slice(), key) {
                    if x.1 <= q && q <= x.2 && x.3 > best {
                        best = x.3;
                    }
                    present = true;
                }
            },
            None => {},
        }
        i = i + 1;
    }
    assert(regs@.take(i as int) =~= regs@);
    (present, best)
}

fn region_count_exec(funcs: &Vec<CovFunction>, key: &[char], q: usize) -> (r: (bool, u64))
    ensures
        r == region_count(funcs@, key@, q),
{
    let mut present = false;
    let mut best: u64 = 0;
    let mut i: usize = 0;
    assert(funcs@.take(0) =~= Seq::<CovFunction>::empty());
    while i < funcs.len()
        invariant
            i <= funcs@.len(),
            (present, best) == region_count(funcs@.take(i as int), key@, q),
        decreases funcs.len() - i,
    {
        proof {
            let t = funcs@.take(i + 1);
            assert(t.drop_last() =~= funcs@.take(i as int));
        }
        let f = &funcs[i];
        let empty_names: Vec<Option<String>> = Vec::new();
        let empty_regs: Vec<Option<Vec<JsonItem>>> = Vec::new();
        let names = match &f.filenames {
            Some(v) => v,
            None => &empty_names,
        };
        let regs = match &f.regions {
            Some(v) => v,
            None => &empty_regs,
        };
        assert(names@ == function_names(*f));
        assert(regs@ == function_regions(*f));
        let here = regions_at_exec(names, regs, key, q);
        present = present || here.0;
        if here.1 > best {
            best = here.1;
        }
        i = i + 1;
    }
    assert(funcs@.take(i as int) =~= funcs@);
    (present, best)
}

fn symbol_called_exec(funcs: &Vec<CovFunction>, sym: &[char], key: &[char]) -> (r: Option<bool>)
    ensures
        r == symbol_called(funcs@, sym@, key@),
{
    let mut i: usize = 0;
    assert(funcs@.skip(0) =~= funcs@);
    while i < funcs.len()
        invariant
            i <= funcs@.len(),
            symbol_called(funcs@, sym@, key@) == symbol_called(funcs@.skip(i as int), sym@, key@),
        decreases funcs.len() - i,
    {
        let f = &funcs[i];
        proof {
            assert(funcs@.skip(i as int)[0] == *f);
            assert(funcs@.skip(i as int).drop_first() =~= funcs@.skip(i + 1));
        }
        let empty_names: Vec<Option<String>> = Vec::new();
        let names = match &f.filenames {
            Some(v) => v,
            None => &empty_names,
        };
        assert(names@ == function_names(*f));
        let mut in_file = false;
        let mut j: usize = 0;
        while j < names.len()
            invariant
                j <= names@.len(),
                in_file == (exists|k: int|
                    0 <= k < j && #[trigger] names@[k] is Some && norm_path(names@[k]->0@) == key@),
            decreases names.len() - j,
        {
            match &names[j] {
                Some(n) => {
                    let nk = norm_path_exec(n.as_str());
                    if crate::text::chars_eq(nk.as_slice(), key) {
                        in_file = true;
                    }
                },
                None => {},
            }
            proof {
                if in_file {
                    if !(exists|k: int|
                        0 <= k < j && #[trigger] names@[k] is Some && norm_path(names@[k]->0@) == key@) {
                        assert(names@[j as int] is Some && norm_path(names@[j as int]->0@) == key@);
                    }
                }
            }
            j = j + 1;
        }
        let name = match &f.name {
            Some(n) => chars_of(n.as_str()),
            None => Vec::new(),
        };
        if in_file && contains_chars(name.as_slice(), sym) {
            return Some(
                match f.count {
                    Some(c) => c > 0,
                    None => false,
                },
            );
        }
        i = i + 1;
    }
    None
}

fn segment_hits_exec(
    files: &Vec<CovFile>,
    keys: &Vec<Vec<char>>,
    key: &[char],
    start: usize,
    end: usize,
) -> (r: usize)
    requires
        keys@.len() == files@.len(),
        forall|i: int| 0 <= i < files@.len() ==> #[trigger] keys@[i]@ == file_key(files@[i]),
    ensures
        r == segment_hits(files@, key@, start, end as nat),
        r as int <= if end > start { end - start } else { 0 },
{
    let mut n: usize = 0;
    let mut q: usize = start;
    while q < end
        invariant
            start <= q <= end || (end < start && q == start),
            keys@.len() == files@.len(),
            forall|i: int| 0 <= i < files@.len() ==> #[trigger] keys@[i]@ == file_key(files@[i]),
            n == segment_hits(files@, key@, start, q as nat),
            n <= q - start,
        decreases end - q,
    {
        if segment_count_exec(files, keys, key, q) > 0 {
            n = n + 1;
        }
        q = q + 1;
    }
    n
}

fn region_hits_exec(funcs: &Vec<CovFunction>, key: &[char], start: usize, end: usize) -> (r: usize)
    ensures
        r == region_hits(funcs@, key@, start, end as nat),
        r as int <= if end > start { end - start } else { 0 },
{
    let mut n: usize = 0;
    let mut q: usize = start;
    while q < end
        invariant
            start <= q <= end || (end < start && q == start),
            n == region_hits(funcs@, key@, start, q as nat),
            n <= q - start,
        decreases end - q,
    {
        if region_count_exec(funcs, key, q).1 > 0 {
            n = n + 1;
        }
        q = q + 1;
    }
    n
}

/// `utf8_size(s@) >= n`.
fn utf8_at_least(s: &str, n: u64) -> (r: bool)
    requires
        n <= 4,
    ensures
        r == (utf8_size(s@) >= n),
{
    let cs = chars_of(s);
    let mut size: u64 = 0;
    let mut i: usize = 0;
    assert(cs@.take(0) =~= Seq::<char>::empty());
    while i < cs.len()
        invariant
            i <= cs@.len(),
            cs@ == s@,
            n <= 4,
            size == utf8_size(cs@.take(i as int)) || (size >= n && utf8_size(cs@.take(i as int)) >= n),
            size <= 8,
        decreases cs.len() - i,
    {
        if size >= n {
            proof {
                lemma_utf8_size_grows(cs@, i as int);
            }
            return true;
        }
        let c = cs[i];
        let v = c as u32;
        let w: u64 = if v < 0x80 {
            1
        } else if v < 0x800 {
            2
        } else if v < 0x10000 {
            3
        } else {
            4
        };
        assert(cs@.take(i + 1).drop_last() =~= cs@.take(i as int));
        size = size + w;
        i = i + 1;
    }
    assert(cs@.take(i as int) =~= cs@);
    size >= n
}

proof fn lemma_utf8_size_grows(s: Seq<char>, i: int)
    requires
        0 <= i <= s.len(),
    ensures
        utf8_size(s) >= utf8_size(s.take(i)),
    decreases s.len() - i,
{
    if i < s.len() {
        lemma_utf8_size_grows(s, i + 1);
        assert(s.take(i + 1).drop_last() =~= s.take(i));
    } else {
        assert(s.take(i) =~= s);
    }
}

/// The code references that a report can be scored against: a span end
/// can be formed for each.
pub open spec fn refs_scorable(refs: Seq<CodeRef>) -> bool {
    forall|i: int| 0 <= i < refs.len() ==> #[trigger] refs[i].line_end is Some || refs[i].line
        < usize::MAX
}

/// Per-code-reference line coverage from an llvm-cov report: for each code
/// reference with coverage data (or a covered symbol) and a non-empty span,
/// the lines of its span and the lines hit.
pub fn line_coverage_scores(data: &CovData, refs: &[CodeRef]) -> (r: Vec<LineCoverageScore>)
    requires
        refs_scorable(refs@),
    ensures
        r@.map_values(|s: LineCoverageScore| score_view(s)) == coverage_scores(*data, refs@),
{
    let empty_files: Vec<CovFile> = Vec::new();
    let empty_funcs: Vec<CovFunction> = Vec::new();
    let files = match &data.files {
        Some(v) => v,
        None => &empty_files,
    };
    let funcs = match &data.functions {
        Some(v) => v,
        None => &empty_funcs,
    };
    assert(files@ == data_files(*data));
    assert(funcs@ == data_functions(*data));
    let keys = file_keys(files);
    let mut out: Vec<LineCoverageScore> = Vec::new();
    let mut i: usize = 0;
    assert(out@.map_values(|s: LineCoverageScore| score_view(s)) =~= coverage_scores(*data, refs@.take(0)));
    while i < refs.len()
        invariant
            i <= refs@.len(),
            refs_scorable(refs@),
            files@ == data_files(*data),
            funcs@ == data_functions(*data),
            keys@.len() == files@.len(),
            forall|j: int| 0 <= j < files@.len() ==> #[trigger] keys@[j]@ == file_key(files@[j]),
            out@.map_values(|s: LineCoverageScore| score_view(s)) == coverage_scores(*data, refs@.take(i as int)),
        decreases refs.len() - i,
    {
        let cr = &refs[i];
        proof {
            let t = refs@.take(i + 1);
            assert(t.drop_last() =~= refs@.take(i as int));
            assert(refs_scorable(refs@) ==> (refs@[i as int].line_end is Some || refs@[i as int].line < usize::MAX));
        }
        let key = norm_path_exec(cr.file.as_str());
        let start = cr.line;
        let end = match cr.line_end {
            Some(e) => e,
            None => start + 1,
        };
        let span = if end > start {
            end - start
        } else {
            0
        };
        let seg = has_segments_exec(files, &keys, key.as_slice());
        let reg = !seg && region_count_exec(funcs, key.as_slice(), start).0;
        let total = if seg || reg {
            span
        } else {
            0
        };
        let hit = if seg {
            segment_hits_exec(files, &keys, key.as_slice(), start, end)
        } else if reg {
            region_hits_exec(funcs, key.as_slice(), start, end)
        } else {
            0
        };
        let by_symbol = hit == 0 && match &cr.symbol {
            Some(sym) => utf8_at_least(sym.as_str(), 4) && {
                let sc = chars_of(sym.as_str());
                match symbol_called_exec(funcs, sc.as_slice(), key.as_slice()) {
                    Some(b) => b,
                    None => false,
                }
            },
            None => false,
        };
        let (t, h) = if by_symbol {
            let m = if total > 1 {
                total
            } else {
                1
            };
            (m, m)
        } else {
            (total, hit)
        };
        let ghost before = out@.map_values(|s: LineCoverageScore| score_view(s));
        if !((!(seg || reg) && h == 0) || t == 0) {
            let sc = LineCoverageScore {
                req_id: cr.req_id.clone(),
                file: cr.file.clone(),
                lines_total: t,
                lines_hit: h,
            };
            out.push(sc);
            assert(out@.map_values(|s: LineCoverageScore| score_view(s)) =~= before.push(score_view(sc)));
        }
        proof {
            assert(out@.map_values(|s: LineCoverageScore| score_view(s)) =~= coverage_scores(
                *data,
                refs@.take(i + 1),
            ));
        }
        i = i + 1;
    }
    assert(refs@.take(i as int) =~= refs@);
    out
}

} // verus!
