//! The grammar of inline requirement tags on one source line.
//!
//! Tags have these forms (`\s` is Unicode whitespace, `\d` a decimal digit):
//!
//! * `REQ:\s*ID(\s*,\s*ID)*` and `VERIFIES:\s*ID(\s*,\s*ID)*`, where
//!   `ID` is `[A-Z]+-\d+`; the requirement IDs taken from such a list are
//!   the non-overlapping occurrences of `(HLR|LLR|TST)-\d+` in it, left to
//!   right;
//! * `CRITERION:\s*ID\s*#N` with `N` a run of digits;
//! * `BEGIN-REQ:\s*ID` and `END-REQ:\s*ID`.
//!
//! Matches are searched left to right, each search resuming after the
//! previous match; every repetition takes as much as it can.

use vstd::prelude::*;

use crate::text::{is_whitespace, is_ws, matches_at, occurs_at, slice_chars};

verus! {

// ───────────────────────── character classes ─────────────────────────

/// `[A-Z]`.
pub open spec fn is_upper(c: char) -> bool {
    'A' <= c && c <= 'Z'
}

/// The class `\d`: a decimal digit.
pub open spec fn is_digit(c: char) -> bool {
    '0' <= c && c <= '9'
}

fn upper(c: char) -> (b: bool)
    ensures
        b == is_upper(c),
{
    'A' <= c && c <= 'Z'
}

/// Executable [`is_digit`].
pub fn digit(c: char) -> (b: bool)
    ensures
        b == is_digit(c),
{
    '0' <= c && c <= '9'
}

// ───────────────────────── runs ─────────────────────────

/// Length of the run of `[A-Z]` starting at `i`.
pub open spec fn upper_run(s: Seq<char>, i: int) -> nat
    decreases s.len() - i,
{
    if 0 <= i < s.len() && is_upper(s[i]) {
        1 + upper_run(s, i + 1)
    } else {
        0
    }
}

/// Length of the run of digits starting at `i`.
pub open spec fn digit_run(s: Seq<char>, i: int) -> nat
    decreases s.len() - i,
{
    if 0 <= i < s.len() && is_digit(s[i]) {
        1 + digit_run(s, i + 1)
    } else {
        0
    }
}

/// Length of the run of whitespace starting at `i`.
pub open spec fn ws_run(s: Seq<char>, i: int) -> nat
    decreases s.len() - i,
{
    if 0 <= i < s.len() && is_ws(s[i]) {
        1 + ws_run(s, i + 1)
    } else {
        0
    }
}

pub proof fn lemma_upper_run_bound(s: Seq<char>, i: int)
    requires
        0 <= i,
    ensures
        i + upper_run(s, i) <= s.len() || upper_run(s, i) == 0,
    decreases s.len() - i,
{
    if 0 <= i < s.len() && is_upper(s[i]) {
        lemma_upper_run_bound(s, i + 1);
    }
}

pub proof fn lemma_digit_run_bound(s: Seq<char>, i: int)
    requires
        0 <= i,
    ensures
        i + digit_run(s, i) <= s.len() || digit_run(s, i) == 0,
    decreases s.len() - i,
{
    if 0 <= i < s.len() && is_digit(s[i]) {
        lemma_digit_run_bound(s, i + 1);
    }
}

pub proof fn lemma_ws_run_bound(s: Seq<char>, i: int)
    requires
        0 <= i,
    ensures
        i + ws_run(s, i) <= s.len() || ws_run(s, i) == 0,
    decreases s.len() - i,
{
    if 0 <= i < s.len() && is_ws(s[i]) {
        lemma_ws_run_bound(s, i + 1);
    }
}

fn upper_run_exec(s: &[char], i: usize) -> (n: usize)
    ensures
        n == upper_run(s@, i as int),
        n == 0 || i + n <= s.len(),
{
    let mut j = i;
    while j < s.len() && upper(s[j])
        invariant
            i <= j,
            j <= s@.len() || j == i,
            upper_run(s@, i as int) == (j - i) + upper_run(s@, j as int),
        decreases s.len() - j,
    {
        j = j + 1;
    }
    j - i
}

fn digit_run_exec(s: &[char], i: usize) -> (n: usize)
    ensures
        n == digit_run(s@, i as int),
        n == 0 || i + n <= s.len(),
{
    let mut j = i;
    while j < s.len() && digit(s[j])
        invariant
            i <= j,
            j <= s@.len() || j == i,
            digit_run(s@, i as int) == (j - i) + digit_run(s@, j as int),
        decreases s.len() - j,
    {
        j = j + 1;
    }
    j - i
}

fn ws_run_exec(s: &[char], i: usize) -> (n: usize)
    ensures
        n == ws_run(s@, i as int),
        n == 0 || i + n <= s.len(),
{
    let mut j = i;
    while j < s.len() && is_whitespace(s[j])
        invariant
            i <= j,
            j <= s@.len() || j == i,
            ws_run(s@, i as int) == (j - i) + ws_run(s@, j as int),
        decreases s.len() - j,
    {
        j = j + 1;
    }
    j - i
}

// ───────────────────────── IDs and ID lists ─────────────────────────

/// Length of a match of `[A-Z]+-\d+` at `i` (0 when there is none).
pub open spec fn id_tok(s: Seq<char>, i: int) -> nat {
    let u = upper_run(s, i);
    if u > 0 && i + u < s.len() && s[i + u] == '-' {
        let d = digit_run(s, i + u + 1);
        if d > 0 {
            u + 1 + d
        } else {
            0
        }
    } else {
        0
    }
}

pub proof fn lemma_id_tok_bound(s: Seq<char>, i: int)
    requires
        0 <= i,
    ensures
        id_tok(s, i) == 0 || i + id_tok(s, i) <= s.len(),
{
    lemma_upper_run_bound(s, i);
    lemma_digit_run_bound(s, i + upper_run(s, i) + 1);
}

fn id_tok_exec(s: &[char], i: usize) -> (n: usize)
    ensures
        n == id_tok(s@, i as int),
        n == 0 || i + n <= s.len(),
{
    proof {
        lemma_id_tok_bound(s@, i as int);
    }
    let u = upper_run_exec(s, i);
    if u > 0 && i + u < s.len() && s[i + u] == '-' {
        let d = digit_run_exec(s, i + u + 1);
        if d > 0 {
            u + 1 + d
        } else {
            0
        }
    } else {
        0
    }
}

/// Length of the `(\s*,\s*ID)*` continuation of an ID list at `p`.
pub open spec fn list_tail(s: Seq<char>, p: int) -> nat
    decreases s.len() - p,
{
    let w1 = ws_run(s, p);
    let c = p + w1;
    if 0 <= p && c < s.len() && s[c] == ',' {
        let w2 = ws_run(s, c + 1);
        let t = id_tok(s, c + 1 + w2);
        if t > 0 {
            proof {
                lemma_ws_run_bound(s, c + 1);
                lemma_id_tok_bound(s, c + 1 + w2);
            }
            (w1 + 1 + w2 + t) + list_tail(s, c + 1 + w2 + t)
        } else {
            0
        }
    } else {
        0
    }
}

pub proof fn lemma_list_tail_bound(s: Seq<char>, p: int)
    requires
        0 <= p <= s.len(),
    ensures
        p + list_tail(s, p) <= s.len(),
    decreases s.len() - p,
{
    let w1 = ws_run(s, p);
    let c = p + w1;
    lemma_ws_run_bound(s, p);
    if c < s.len() && s[c] == ',' {
        let w2 = ws_run(s, c + 1);
        lemma_ws_run_bound(s, c + 1);
        let t = id_tok(s, c + 1 + w2);
        lemma_id_tok_bound(s, c + 1 + w2);
        if t > 0 {
            lemma_list_tail_bound(s, c + 1 + w2 + t);
        }
    }
}

/// Length of a match of `ID(\s*,\s*ID)*` at `i` (0 when there is none).
pub open spec fn list_len(s: Seq<char>, i: int) -> nat {
    let t = id_tok(s, i);
    if t > 0 {
        t + list_tail(s, i + t)
    } else {
        0
    }
}

pub proof fn lemma_list_len_bound(s: Seq<char>, i: int)
    requires
        0 <= i,
    ensures
        list_len(s, i) == 0 || i + list_len(s, i) <= s.len(),
{
    lemma_id_tok_bound(s, i);
    if id_tok(s, i) > 0 {
        lemma_list_tail_bound(s, i + id_tok(s, i));
    }
}

fn tail_step(s: &[char], p: usize) -> (r: Option<usize>)
    requires
        p <= s.len(),
    ensures
        match r {
            Some(q) => p < q <= s.len() && list_tail(s@, p as int) == (q - p) + list_tail(
                s@,
                q as int,
            ),
            None => list_tail(s@, p as int) == 0,
        },
{
    proof {
        lemma_ws_run_bound(s@, p as int);
    }
    let w1 = ws_run_exec(s, p);
    let c = p + w1;
    if !(c < s.len() && s[c] == ',') {
        return None;
    }
    proof {
        lemma_ws_run_bound(s@, c + 1);
    }
    let w2 = ws_run_exec(s, c + 1);
    let tk = id_tok_exec(s, c + 1 + w2);
    if tk == 0 {
        return None;
    }
    Some(c + 1 + w2 + tk)
}

fn list_len_exec(s: &[char], i: usize) -> (n: usize)
    ensures
        n == list_len(s@, i as int),
        n == 0 || i + n <= s.len(),
{
    proof {
        lemma_list_len_bound(s@, i as int);
    }
    let t = id_tok_exec(s, i);
    if t == 0 {
        return 0;
    }
    let mut p = i + t;
    loop
        invariant
            i + t <= p <= s.len(),
            list_len(s@, i as int) == (p - i) + list_tail(s@, p as int),
        ensures
            list_tail(s@, p as int) == 0,
            i + t <= p <= s.len(),
            list_len(s@, i as int) == (p - i) + list_tail(s@, p as int),
        decreases s.len() - p,
    {
        match tail_step(s, p) {
            Some(q) => {
                p = q;
            },
            None => {
                break ;
            },
        }
    }
    p - i
}

// ───────────────────────── searches over a line ─────────────────────────

/// Start of the captured list after keyword `kw` at `from`.
pub open spec fn group_start(s: Seq<char>, kw: Seq<char>, from: int) -> int {
    from + kw.len() + ws_run(s, from + kw.len())
}

/// The captured lists of all matches of `kw\s*ID(\s*,\s*ID)*` in `s` at or
/// after `from`, left to right.
pub open spec fn list_groups(s: Seq<char>, kw: Seq<char>, from: int) -> Seq<Seq<char>>
    decreases s.len() + 1 - from,
{
    if from < 0 || from >= s.len() {
        seq![]
    } else {
        let g = group_start(s, kw, from);
        let n = list_len(s, g);
        if occurs_at(s, kw, from) && n > 0 {
            proof {
                lemma_list_len_bound(s, g);
            }
            seq![s.subrange(g, g + n)] + list_groups(s, kw, g + n)
        } else {
            list_groups(s, kw, from + 1)
        }
    }
}

/// `HLR`, `LLR` or `TST` at position `i`.
pub open spec fn is_id_head(g: Seq<char>, i: int) -> bool {
    0 <= i && i + 3 <= g.len() && ((g[i] == 'H' && g[i + 1] == 'L' && g[i + 2] == 'R') || (g[i]
        == 'L' && g[i + 1] == 'L' && g[i + 2] == 'R') || (g[i] == 'T' && g[i + 1] == 'S' && g[i
        + 2] == 'T'))
}

/// Length of a match of `(HLR|LLR|TST)-\d+` at `i` (0 when there is none).
pub open spec fn req_id_len(g: Seq<char>, i: int) -> nat {
    let d = digit_run(g, i + 4);
    if is_id_head(g, i) && i + 3 < g.len() && g[i + 3] == '-' && d > 0 {
        4 + d
    } else {
        0
    }
}

/// The matches of `(HLR|LLR|TST)-\d+` in `g` at or after `from`, left to right.
pub open spec fn id_matches(g: Seq<char>, from: int) -> Seq<Seq<char>>
    decreases g.len() + 1 - from,
{
    if from < 0 || from >= g.len() {
        seq![]
    } else {
        let n = req_id_len(g, from);
        if n > 0 {
            proof {
                lemma_digit_run_bound(g, from + 4);
            }
            seq![g.subrange(from, from + n)] + id_matches(g, from + n)
        } else {
            id_matches(g, from + 1)
        }
    }
}

/// Requirement IDs taken from a sequence of captured lists.
pub open spec fn ids_of_groups(gs: Seq<Seq<char>>) -> Seq<Seq<char>>
    decreases gs.len(),
{
    if gs.len() == 0 {
        seq![]
    } else {
        id_matches(gs[0], 0) + ids_of_groups(gs.drop_first())
    }
}

/// The requirement IDs a `kw` tag list names on line `s`.
pub open spec fn tag_ids(s: Seq<char>, kw: Seq<char>) -> Seq<Seq<char>> {
    ids_of_groups(list_groups(s, kw, 0))
}

/// Captured ID of the leftmost match of `kw\s*ID` at or after `from`.
pub open spec fn first_capture(s: Seq<char>, kw: Seq<char>, from: int) -> Option<Seq<char>>
    decreases s.len() + 1 - from,
{
    if from < 0 || from >= s.len() {
        None
    } else {
        let g = group_start(s, kw, from);
        let t = id_tok(s, g);
        if occurs_at(s, kw, from) && t > 0 {
            Some(s.subrange(g, g + t))
        } else {
            first_capture(s, kw, from + 1)
        }
    }
}

/// The `(ID, N)` captures of all matches of `kw\s*ID\s*#N` at or after `from`.
pub open spec fn crit_matches(s: Seq<char>, kw: Seq<char>, from: int) -> Seq<
    (Seq<char>, Seq<char>),
>
    decreases s.len() + 1 - from,
{
    if from < 0 || from >= s.len() {
        seq![]
    } else {
        let g = group_start(s, kw, from);
        let t = id_tok(s, g);
        let h = g + t + ws_run(s, g + t);
        let d = digit_run(s, h + 1);
        if occurs_at(s, kw, from) && t > 0 && h < s.len() && s[h] == '#' && d > 0 {
            proof {
                lemma_digit_run_bound(s, h + 1);
            }
            seq![(s.subrange(g, g + t), s.subrange(h + 1, h + 1 + d))] + crit_matches(
                s,
                kw,
                h + 1 + d,
            )
        } else {
            crit_matches(s, kw, from + 1)
        }
    }
}

fn group_start_exec(s: &[char], kw: &[char], from: usize) -> (g: Option<usize>)
    requires
        from < s.len(),
    ensures
        match g {
            Some(g) => g == group_start(s@, kw@, from as int) && occurs_at(s@, kw@, from as int)
                && g <= s.len(),
            None => !occurs_at(s@, kw@, from as int),
        },
{
    if !matches_at(s, kw, from) {
        return None;
    }
    let k = from + kw.len();
    proof {
        lemma_ws_run_bound(s@, k as int);
    }
    let w = ws_run_exec(s, k);
    Some(k + w)
}

/// Executable [`list_groups`] from position 0.
pub fn list_groups_exec(s: &[char], kw: &[char]) -> (r: Vec<Vec<char>>)
    ensures
        r.deep_view() == list_groups(s@, kw@, 0),
{
    let mut r: Vec<Vec<char>> = Vec::new();
    let mut p: usize = 0;
    assert(r.deep_view() + list_groups(s@, kw@, 0) =~= list_groups(s@, kw@, 0));
    while p < s.len()
        invariant
            p <= s.len(),
            r.deep_view() + list_groups(s@, kw@, p as int) == list_groups(s@, kw@, 0),
        decreases s.len() - p,
    {
        let ghost old_r = r.deep_view();
        match group_start_exec(s, kw, p) {
            Some(g) => {
                let n = list_len_exec(s, g);
                if n > 0 {
                    let grp = slice_chars(s, g, g + n);
                    assert(grp.deep_view() =~= grp@);
                    r.push(grp);
                    proof {
                        assert(r.deep_view() =~~= old_r.push(s@.subrange(g as int, g + n)));
                        assert(r.deep_view() + list_groups(s@, kw@, g + n) =~= old_r
                            + list_groups(s@, kw@, p as int));
                    }
                    p = g + n;
                } else {
                    p = p + 1;
                }
            },
            None => {
                p = p + 1;
            },
        }
    }
    assert(r.deep_view() =~= r.deep_view() + list_groups(s@, kw@, p as int));
    r
}

fn req_id_len_exec(g: &[char], i: usize) -> (n: usize)
    requires
        i < g.len(),
    ensures
        n == req_id_len(g@, i as int),
        n == 0 || i + n <= g.len(),
{
    if g.len() - i < 4 {
        return 0;
    }
    let head = (g[i] == 'H' && g[i + 1] == 'L' && g[i + 2] == 'R') || (g[i] == 'L' && g[i + 1]
        == 'L' && g[i + 2] == 'R') || (g[i] == 'T' && g[i + 1] == 'S' && g[i + 2] == 'T');
    if !head || g[i + 3] != '-' {
        return 0;
    }
    let d = digit_run_exec(g, i + 4);
    if d > 0 {
        4 + d
    } else {
        0
    }
}

/// Executable [`id_matches`] from position 0.
pub fn id_matches_exec(g: &[char]) -> (r: Vec<Vec<char>>)
    ensures
        r.deep_view() == id_matches(g@, 0),
{
    let mut r: Vec<Vec<char>> = Vec::new();
    let mut p: usize = 0;
    assert(r.deep_view() + id_matches(g@, 0) =~= id_matches(g@, 0));
    while p < g.len()
        invariant
            p <= g.len(),
            r.deep_view() + id_matches(g@, p as int) == id_matches(g@, 0),
        decreases g.len() - p,
    {
        let ghost old_r = r.deep_view();
        let n = req_id_len_exec(g, p);
        if n > 0 {
            let m = slice_chars(g, p, p + n);
            assert(m.deep_view() =~= m@);
            r.push(m);
            proof {
                assert(r.deep_view() =~~= old_r.push(g@.subrange(p as int, p + n)));
                assert(r.deep_view() + id_matches(g@, p + n) =~= old_r + id_matches(g@, p as int));
            }
            p = p + n;
        } else {
            p = p + 1;
        }
    }
    assert(r.deep_view() =~= r.deep_view() + id_matches(g@, p as int));
    r
}

/// Executable [`tag_ids`]: the requirement IDs of all `kw` tag lists on a line.
pub fn tag_ids_exec(s: &[char], kw: &[char]) -> (r: Vec<Vec<char>>)
    ensures
        r.deep_view() == tag_ids(s@, kw@),
{
    let groups = list_groups_exec(s, kw);
    let ghost gs = groups.deep_view();
    let mut r: Vec<Vec<char>> = Vec::new();
    let mut i: usize = 0;
    assert(gs.skip(0) =~= gs);
    assert(r.deep_view() + ids_of_groups(gs) =~= ids_of_groups(gs));
    while i < groups.len()
        invariant
            i <= groups@.len(),
            gs == groups.deep_view(),
            gs == list_groups(s@, kw@, 0),
            r.deep_view() + ids_of_groups(gs.skip(i as int)) == ids_of_groups(gs),
        decreases groups.len() - i,
    {
        let ids = id_matches_exec(groups[i].as_slice());
        let ghost old_r = r.deep_view();
        let ghost rest = gs.skip(i as int);
        proof {
            assert(rest[0] == groups@[i as int]@);
            assert(rest.drop_first() =~= gs.skip(i + 1));
        }
        let mut j: usize = 0;
        while j < ids.len()
            invariant
                j <= ids@.len(),
                r.deep_view() == old_r + ids.deep_view().take(j as int),
            decreases ids.len() - j,
        {
            let id = slice_chars(ids[j].as_slice(), 0, ids[j].len());
            assert(id.deep_view() =~= id@);
            let ghost prev = r.deep_view();
            r.push(id);
            proof {
                assert(ids[j as int]@.subrange(0, ids[j as int]@.len() as int) =~= ids[j as int]@);
                assert(ids.deep_view()[j as int] =~= id@);
                assert(r.deep_view() =~~= prev.push(id@));
                assert(ids.deep_view().take(j + 1) =~= ids.deep_view().take(j as int).push(id@));
                assert(r.deep_view() =~~= old_r + ids.deep_view().take(j + 1));
            }
            j = j + 1;
        }
        proof {
            assert(ids.deep_view().take(j as int) =~= ids.deep_view());
            assert(r.deep_view() + ids_of_groups(gs.skip(i + 1)) =~= old_r + ids_of_groups(rest));
        }
        i = i + 1;
    }
    proof {
        assert(gs.skip(i as int) =~= Seq::<Seq<char>>::empty());
        assert(r.deep_view() =~= r.deep_view() + ids_of_groups(gs.skip(i as int)));
    }
    r
}

/// Executable [`first_capture`] from position 0.
pub fn first_capture_exec(s: &[char], kw: &[char]) -> (r: Option<Vec<char>>)
    ensures
        match r {
            Some(v) => first_capture(s@, kw@, 0) == Some(v@),
            None => first_capture(s@, kw@, 0).is_none(),
        },
{
    let mut p: usize = 0;
    while p < s.len()
        invariant
            p <= s.len(),
            first_capture(s@, kw@, p as int) == first_capture(s@, kw@, 0),
        decreases s.len() - p,
    {
        match group_start_exec(s, kw, p) {
            Some(g) => {
                let t = id_tok_exec(s, g);
                if t > 0 {
                    return Some(slice_chars(s, g, g + t));
                }
            },
            None => {},
        }
        p = p + 1;
    }
    None
}

/// Executable [`crit_matches`] from position 0.
pub fn crit_matches_exec(s: &[char], kw: &[char]) -> (r: Vec<(Vec<char>, Vec<char>)>)
    ensures
        r@.len() == crit_matches(s@, kw@, 0).len(),
        forall|i: int|
            0 <= i < r@.len() ==> (#[trigger] r@[i]).0@ == crit_matches(s@, kw@, 0)[i].0
                && r@[i].1@ == crit_matches(s@, kw@, 0)[i].1,
{
    let ghost all = crit_matches(s@, kw@, 0);
    let mut r: Vec<(Vec<char>, Vec<char>)> = Vec::new();
    let mut p: usize = 0;
    while p < s.len()
        invariant
            p <= s.len(),
            all == crit_matches(s@, kw@, 0),
            r@.len() + crit_matches(s@, kw@, p as int).len() == all.len(),
            forall|i: int|
                0 <= i < r@.len() ==> (#[trigger] r@[i]).0@ == all[i].0 && r@[i].1@ == all[i].1,
            forall|i: int|
                0 <= i < crit_matches(s@, kw@, p as int).len() ==> #[trigger] crit_matches(
                    s@,
                    kw@,
                    p as int,
                )[i] == all[r@.len() + i],
        decreases s.len() - p,
    {
        let mut next = p + 1;
        match group_start_exec(s, kw, p) {
            Some(g) => {
                let t = id_tok_exec(s, g);
                if t > 0 {
                    let w = ws_run_exec(s, g + t);
                    let h = g + t + w;
                    if h < s.len() && s[h] == '#' {
                        let d = digit_run_exec(s, h + 1);
                        if d > 0 {
                            let id = slice_chars(s, g, g + t);
                            let num = slice_chars(s, h + 1, h + 1 + d);
                            let ghost rest = crit_matches(s@, kw@, p as int);
                            let ghost rest2 = crit_matches(s@, kw@, h + 1 + d);
                            proof {
                                assert(rest == seq![(id@, num@)] + rest2);
                                assert(rest[0] == (id@, num@));
                                assert forall|i: int| 0 <= i < rest2.len() implies #[trigger] rest2[i]
                                    == all[r@.len() + 1 + i] by {
                                    assert(rest[i + 1] == rest2[i]);
                                }
                            }
                            r.push((id, num));
                            next = h + 1 + d;
                        }
                    }
                }
            },
            None => {},
        }
        p = next;
    }
    r
}

} // verus!
