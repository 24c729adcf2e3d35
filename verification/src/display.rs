//! Arrangement of line coverage scores for display: one score per
//! requirement and file (the first with the most lines), ordered by the
//! requirement id's prefix and then its number, grouped into LLRs, tests
//! and others.

use vstd::prelude::*;
use crate::audit::LineCoverageScore;
use crate::models::lex_lt;
use crate::text::{chars_of_string, first_index, has_prefix, parse_u32, parse_u32_chars, slice_chars, starts_with_str};

verus! {

/// `v[i]` is shown: no other score for the same requirement and file has
/// more lines, and none before it has as many.
pub open spec fn best_at(v: Seq<LineCoverageScore>, i: int) -> bool {
    forall|j: int|
        0 <= j < v.len() && j != i && #[trigger] v[j].req_id@ == v[i].req_id@ && v[j].file@
            == v[i].file@ ==> v[j].lines_total < v[i].lines_total || (v[j].lines_total
            == v[i].lines_total && j > i)
}

/// The shown positions among the first `n`, in order.
pub open spec fn shown_positions(v: Seq<LineCoverageScore>, n: int) -> Seq<int>
    decreases n,
{
    if n <= 0 {
        seq![]
    } else if best_at(v, n - 1) {
        shown_positions(v, n - 1).push(n - 1)
    } else {
        shown_positions(v, n - 1)
    }
}

/// The part of an id before the first `-` (all of it without one).
pub open spec fn id_head(id: Seq<char>) -> Seq<char> {
    let k = first_index(id, '-');
    if k < 0 {
        id
    } else {
        id.take(k)
    }
}

/// The number after the first `-` of an id, or 0 when there is none.
pub open spec fn id_tail_number(id: Seq<char>) -> nat {
    let k = first_index(id, '-');
    if k < 0 {
        0
    } else {
        match parse_u32(id.skip(k + 1)) {
            Some(n) => n as nat,
            None => 0,
        }
    }
}

/// Display order: by id prefix, then id number (strictly before).
pub open spec fn shown_before(a: LineCoverageScore, b: LineCoverageScore) -> bool {
    ||| lex_lt(id_head(a.req_id@), id_head(b.req_id@))
    ||| id_head(a.req_id@) == id_head(b.req_id@) && id_tail_number(a.req_id@) < id_tail_number(
        b.req_id@,
    )
}

/// Where insertion sort places position `i` among the positions `s`.
pub open spec fn shown_insert_pos(v: Seq<LineCoverageScore>, s: Seq<int>, i: int) -> int
    decreases s.len(),
{
    if s.len() == 0 {
        0
    } else if shown_before(v[i], v[s[0]]) {
        0
    } else {
        1 + shown_insert_pos(v, s.drop_first(), i)
    }
}

/// Positions stably sorted into display order.
pub open spec fn shown_sorted(v: Seq<LineCoverageScore>, s: Seq<int>) -> Seq<int>
    decreases s.len(),
{
    if s.len() == 0 {
        s
    } else {
        let t = shown_sorted(v, s.drop_last());
        t.insert(shown_insert_pos(v, t, s.last()), s.last())
    }
}

/// The shown positions in display order.
pub open spec fn display_order(v: Seq<LineCoverageScore>) -> Seq<int> {
    shown_sorted(v, shown_positions(v, v.len() as int))
}

/// "The score's id starts with `p`", as a predicate on positions.
pub open spec fn starts_pred(v: Seq<LineCoverageScore>, p: Seq<char>) -> spec_fn(int) -> bool {
    |i: int| has_prefix(v[i].req_id@, p)
}

/// "Neither an LLR nor a test", as a predicate on positions.
pub open spec fn other_pred(v: Seq<LineCoverageScore>) -> spec_fn(int) -> bool {
    |i: int| !has_prefix(v[i].req_id@, "LLR-"@) && !has_prefix(v[i].req_id@, "TST-"@)
}

/// Positions of the scores to show, in display order, by group.
#[derive(Debug)]
pub struct CoverageDisplay {
    /// Scores of LLRs (`LLR-` ids)
    pub llr: Vec<usize>,
    /// Scores of tests (`TST-` ids)
    pub tst: Vec<usize>,
    /// The others
    pub other: Vec<usize>,
}

/// Positions as integers.
pub open spec fn ints(s: Seq<usize>) -> Seq<int> {
    s.map_values(|i: usize| i as int)
}

fn best_at_exec(v: &[LineCoverageScore], i: usize) -> (b: bool)
    requires
        i < v@.len(),
    ensures
        b == best_at(v@, i as int),
{
    let mut j: usize = 0;
    while j < v.len()
        invariant
            i < v@.len(),
            j <= v@.len(),
            forall|k: int|
                0 <= k < j && k != i && #[trigger] v@[k].req_id@ == v@[i as int].req_id@ && v@[k].file@
                    == v@[i as int].file@ ==> v@[k].lines_total < v@[i as int].lines_total || (
                v@[k].lines_total == v@[i as int].lines_total && k > i),
        decreases v.len() - j,
    {
        if j != i && v[j].req_id == v[i].req_id && v[j].file == v[i].file {
            if !(v[j].lines_total < v[i].lines_total || (v[j].lines_total == v[i].lines_total && j
                > i)) {
                return false;
            }
        }
        j = j + 1;
    }
    true
}

fn id_head_exec(id: &String) -> (r: Vec<char>)
    ensures
        r@ == id_head(id@),
{
    let c = chars_of_string(id);
    let mut k: usize = 0;
    while k < c.len() && c[k] != '-'
        invariant
            k <= c@.len(),
            c@ == id@,
            forall|j: int| 0 <= j < k ==> c@[j] != '-',
        decreases c.len() - k,
    {
        k = k + 1;
    }
    proof {
        crate::text::lemma_first_index(c@, '-', k as int);
    }
    if k < c.len() {
        assert(c@.take(k as int) =~= c@.subrange(0, k as int));
        slice_chars(c.as_slice(), 0, k)
    } else {
        c
    }
}

fn id_tail_number_exec(id: &String) -> (r: u32)
    ensures
        r as nat == id_tail_number(id@),
{
    let c = chars_of_string(id);
    let mut k: usize = 0;
    while k < c.len() && c[k] != '-'
        invariant
            k <= c@.len(),
            c@ == id@,
            forall|j: int| 0 <= j < k ==> c@[j] != '-',
        decreases c.len() - k,
    {
        k = k + 1;
    }
    proof {
        crate::text::lemma_first_index(c@, '-', k as int);
    }
    if k < c.len() {
        let rest = slice_chars(c.as_slice(), k + 1, c.len());
        assert(rest@ =~= c@.skip(k + 1));
        match parse_u32_chars(rest.as_slice()) {
            Some(n) => n,
            None => 0,
        }
    } else {
        0
    }
}

fn shown_before_exec(a: &LineCoverageScore, b: &LineCoverageScore) -> (r: bool)
    ensures
        r == shown_before(*a, *b),
{
    let pa = id_head_exec(&a.req_id);
    let pb = id_head_exec(&b.req_id);
    if crate::models::lex_less(pa.as_slice(), pb.as_slice()) {
        return true;
    }
    if !crate::text::chars_eq(pa.as_slice(), pb.as_slice()) {
        return false;
    }
    id_tail_number_exec(&a.req_id) < id_tail_number_exec(&b.req_id)
}

proof fn lemma_shown_insert_pos(v: Seq<LineCoverageScore>, s: Seq<int>, i: int, k: int)
    requires
        0 <= k <= s.len(),
        forall|j: int| 0 <= j < k ==> !shown_before(v[i], v[#[trigger] s[j]]),
        k == s.len() || shown_before(v[i], v[s[k]]),
    ensures
        shown_insert_pos(v, s, i) == k,
    decreases k,
{
    if k > 0 {
        assert forall|j: int| 0 <= j < k - 1 implies !shown_before(v[i], v[#[trigger] s.drop_first()[j]]) by {
            assert(s.drop_first()[j] == s[j + 1]);
        }
        lemma_shown_insert_pos(v, s.drop_first(), i, k - 1);
    }
}

/// Choose and order line coverage scores for display: of the scores for
/// one requirement and file, the first with the most lines; sorted stably
/// by id prefix and then id number; split into LLR scores, test scores and
/// the others (positions into `scores`).
pub fn coverage_display(scores: &[LineCoverageScore]) -> (d: CoverageDisplay)
    ensures
        ints(d.llr@) == display_order(scores@).filter(starts_pred(scores@, "LLR-"@)),
        ints(d.tst@) == display_order(scores@).filter(starts_pred(scores@, "TST-"@)),
        ints(d.other@) == display_order(scores@).filter(other_pred(scores@)),
{
    let ghost v = scores@;
    let mut order: Vec<usize> = Vec::new();
    let mut i: usize = 0;
    assert(ints(order@) =~= shown_sorted(v, shown_positions(v, 0)));
    while i < scores.len()
        invariant
            i <= v.len(),
            v == scores@,
            ints(order@) == shown_sorted(v, shown_positions(v, i as int)),
            forall|k: int| 0 <= k < order@.len() ==> #[trigger] order@[k] < v.len(),
        decreases scores.len() - i,
    {
        if best_at_exec(scores, i) {
            let mut k: usize = 0;
            while k < order.len() && !shown_before_exec(&scores[i], &scores[order[k]])
                invariant
                    i < v.len(),
                    v == scores@,
                    k <= order@.len(),
                    forall|x: int| 0 <= x < order@.len() ==> #[trigger] order@[x] < v.len(),
                    forall|j: int| 0 <= j < k ==> !shown_before(v[i as int], v[#[trigger] ints(order@)[j]]),
                decreases order.len() - k,
            {
                k = k + 1;
            }
            proof {
                lemma_shown_insert_pos(v, ints(order@), i as int, k as int);
                let s = shown_positions(v, i + 1);
                assert(s == shown_positions(v, i as int).push(i as int));
                assert(s.drop_last() =~= shown_positions(v, i as int));
            }
            let ghost before = ints(order@);
            order.insert(k, i);
            assert(ints(order@) =~= before.insert(k as int, i as int));
        }
        i = i + 1;
    }
    let mut llr: Vec<usize> = Vec::new();
    let mut tst: Vec<usize> = Vec::new();
    let mut other: Vec<usize> = Vec::new();
    let ghost o = ints(order@);
    let mut k: usize = 0;
    assert(o.take(0) =~= Seq::<int>::empty());
    while k < order.len()
        invariant
            k <= order@.len(),
            v == scores@,
            o == ints(order@),
            forall|x: int| 0 <= x < order@.len() ==> #[trigger] order@[x] < v.len(),
            ints(llr@) == o.take(k as int).filter(starts_pred(v, "LLR-"@)),
            ints(tst@) == o.take(k as int).filter(starts_pred(v, "TST-"@)),
            ints(other@) == o.take(k as int).filter(other_pred(v)),
        decreases order.len() - k,
    {
        let p = order[k];
        proof {
            let t = o.take(k as int);
            assert(o.take(k + 1) =~= t.push(p as int));
            t.lemma_filter_push(p as int, starts_pred(v, "LLR-"@));
            t.lemma_filter_push(p as int, starts_pred(v, "TST-"@));
            t.lemma_filter_push(p as int, other_pred(v));
        }
        let is_llr = starts_with_str(chars_of_string(&scores[p].req_id).as_slice(), "LLR-");
        let is_tst = starts_with_str(chars_of_string(&scores[p].req_id).as_slice(), "TST-");
        let ghost (l0, t0, x0) = (ints(llr@), ints(tst@), ints(other@));
        if is_llr {
            llr.push(p);
            assert(ints(llr@) =~= l0.push(p as int));
        }
        if is_tst {
            tst.push(p);
            assert(ints(tst@) =~= t0.push(p as int));
        }
        if !is_llr && !is_tst {
            other.push(p);
            assert(ints(other@) =~= x0.push(p as int));
        }
        k = k + 1;
    }
    assert(o.take(k as int) =~= o);
    CoverageDisplay { llr, tst, other }
}

} // verus!
