//! Mutation scores of tagged spans from a `cargo mutants --json` report.
//!
//! Each mutant (file, line, outcome) is counted for every code reference
//! whose span holds its line in the same file (paths compared with
//! backslashes as slashes); mutants no span holds are untagged.

use vstd::prelude::*;
use crate::audit::{MutationReport, MutationScore};
use crate::coverage_map::{norm_path, norm_path_exec, ref_end, refs_scorable};
use crate::models::CodeRef;
use crate::sorting::views;
use crate::trace::contains_string;

verus! {

/// One record of a `cargo mutants --json` report: `file` (empty when
/// missing), `line` (0 when missing) and `outcome` (`Unknown` when missing).
pub struct MutantRecord {
    pub file: String,
    pub line: usize,
    pub outcome: String,
}

/// The span of `cr` holds the mutant.
pub open spec fn holds(cr: CodeRef, m: MutantRecord) -> bool {
    norm_path(cr.file@) == norm_path(m.file@) && cr.line <= m.line && (m.line as nat) < ref_end(cr)
}

/// "Belongs to `id` and holds `m`", as a predicate.
pub open spec fn holder_pred(id: Seq<char>, m: MutantRecord) -> spec_fn(CodeRef) -> bool {
    |cr: CodeRef| cr.req_id@ == id && holds(cr, m)
}

/// Number of code references of `id` holding `m`.
pub open spec fn hits(refs: Seq<CodeRef>, id: Seq<char>, m: MutantRecord) -> nat {
    refs.filter(holder_pred(id, m)).len()
}

/// Sum of `hits` over the mutants whose outcome is `outcome` (any outcome
/// when `None`).
pub open spec fn hit_sum(
    recs: Seq<MutantRecord>,
    refs: Seq<CodeRef>,
    id: Seq<char>,
    outcome: Option<Seq<char>>,
) -> nat
    decreases recs.len(),
{
    if recs.len() == 0 {
        0
    } else {
        let m = recs.last();
        let here = match outcome {
            Some(o) => if m.outcome@ == o {
                hits(refs, id, m)
            } else {
                0
            },
            None => hits(refs, id, m),
        };
        hit_sum(recs.drop_last(), refs, id, outcome) + here
    }
}

/// Some code reference holds `m`.
pub open spec fn held(refs: Seq<CodeRef>, m: MutantRecord) -> bool {
    exists|j: int| 0 <= j < refs.len() && #[trigger] holds(refs[j], m)
}

/// "No code reference holds it", as a predicate on mutants.
pub open spec fn untagged_pred(refs: Seq<CodeRef>) -> spec_fn(MutantRecord) -> bool {
    |m: MutantRecord| !held(refs, m)
}

/// The requirement ids of the code references, each once, in order of
/// first mention.
pub open spec fn distinct_ids(refs: Seq<CodeRef>) -> Seq<Seq<char>>
    decreases refs.len(),
{
    if refs.len() == 0 {
        seq![]
    } else {
        let d = distinct_ids(refs.drop_last());
        if d.contains(refs.last().req_id@) {
            d
        } else {
            d.push(refs.last().req_id@)
        }
    }
}

/// A score as plain values: id, total, caught, missed.
pub type MutationView = (Seq<char>, nat, nat, nat);

/// The plain values of a score.
pub open spec fn mutation_view(s: MutationScore) -> MutationView {
    (s.req_id@, s.mutants_total as nat, s.caught as nat, s.missed as nat)
}

/// The score of each id among `ids` that some mutant hits, in order.
pub open spec fn scores_for(
    ids: Seq<Seq<char>>,
    recs: Seq<MutantRecord>,
    refs: Seq<CodeRef>,
) -> Seq<MutationView>
    decreases ids.len(),
{
    if ids.len() == 0 {
        seq![]
    } else {
        let prev = scores_for(ids.drop_last(), recs, refs);
        let id = ids.last();
        let total = hit_sum(recs, refs, id, None);
        if total > 0 {
            prev.push(
                (
                    id,
                    total,
                    hit_sum(recs, refs, id, Some("Caught"@)),
                    hit_sum(recs, refs, id, Some("Missed"@)),
                ),
            )
        } else {
            prev
        }
    }
}

/// Number of mutants times number of code references fits a `usize`.
pub open spec fn report_fits(recs: Seq<MutantRecord>, refs: Seq<CodeRef>) -> bool {
    recs.len() * refs.len() <= usize::MAX
}

proof fn lemma_hits_bound(refs: Seq<CodeRef>, id: Seq<char>, m: MutantRecord)
    ensures
        hits(refs, id, m) <= refs.len(),
{
    refs.lemma_filter_len(holder_pred(id, m));
}

proof fn lemma_hit_sum_bound(
    recs: Seq<MutantRecord>,
    refs: Seq<CodeRef>,
    id: Seq<char>,
    outcome: Option<Seq<char>>,
)
    ensures
        hit_sum(recs, refs, id, outcome) <= recs.len() * refs.len(),
    decreases recs.len(),
{
    if recs.len() > 0 {
        lemma_hit_sum_bound(recs.drop_last(), refs, id, outcome);
        lemma_hits_bound(refs, id, recs.last());
        assert(recs.len() * refs.len() == (recs.len() - 1) * refs.len() + refs.len()) by (
        nonlinear_arith);
    }
}

/// Number of code references of `id` holding `m`.
fn hits_exec(refs: &[CodeRef], keys: &Vec<Vec<char>>, id: &String, m: &MutantRecord, mkey: &[char]) -> (r:
    usize)
    requires
        refs_scorable(refs@),
        keys@.len() == refs@.len(),
        forall|j: int| 0 <= j < refs@.len() ==> #[trigger] keys@[j]@ == norm_path(refs@[j].file@),
        mkey@ == norm_path(m.file@),
    ensures
        r == hits(refs@, id@, *m),
{
    let mut n: usize = 0;
    let mut j: usize = 0;
    assert(refs@.take(0) =~= Seq::<CodeRef>::empty());
    while j < refs.len()
        invariant
            j <= refs@.len(),
            refs_scorable(refs@),
            keys@.len() == refs@.len(),
            forall|k: int| 0 <= k < refs@.len() ==> #[trigger] keys@[k]@ == norm_path(refs@[k].file@),
            mkey@ == norm_path(m.file@),
            n == refs@.take(j as int).filter(holder_pred(id@, *m)).len(),
            n <= j,
        decreases refs.len() - j,
    {
        let cr = &refs[j];
        proof {
            let t = refs@.take(j as int);
            assert(refs@.take(j + 1) =~= t.push(*cr));
            t.lemma_filter_push(*cr, holder_pred(id@, *m));
            assert(keys@[j as int]@ == norm_path(cr.file@));
            assert(cr.line_end is Some || cr.line < usize::MAX);
        }
        let end = match cr.line_end {
            Some(e) => e,
            None => cr.line + 1,
        };
        if cr.req_id == *id && crate::text::chars_eq(keys[j].as_slice(), mkey) && cr.line <= m.line
            && m.line < end {
            n = n + 1;
        }
        j = j + 1;
    }
    assert(refs@.take(j as int) =~= refs@);
    n
}

/// Some code reference holds `m`.
fn held_exec(refs: &[CodeRef], keys: &Vec<Vec<char>>, m: &MutantRecord, mkey: &[char]) -> (r: bool)
    requires
        refs_scorable(refs@),
        keys@.len() == refs@.len(),
        forall|j: int| 0 <= j < refs@.len() ==> #[trigger] keys@[j]@ == norm_path(refs@[j].file@),
        mkey@ == norm_path(m.file@),
    ensures
        r == held(refs@, *m),
{
    let mut j: usize = 0;
    while j < refs.len()
        invariant
            j <= refs@.len(),
            refs_scorable(refs@),
            keys@.len() == refs@.len(),
            forall|k: int| 0 <= k < refs@.len() ==> #[trigger] keys@[k]@ == norm_path(refs@[k].file@),
            mkey@ == norm_path(m.file@),
            forall|k: int| 0 <= k < j ==> !#[trigger] holds(refs@[k], *m),
        decreases refs.len() - j,
    {
        let cr = &refs[j];
        proof {
            assert(keys@[j as int]@ == norm_path(cr.file@));
            assert(cr.line_end is Some || cr.line < usize::MAX);
        }
        let end = match cr.line_end {
            Some(e) => e,
            None => cr.line + 1,
        };
        if crate::text::chars_eq(keys[j].as_slice(), mkey) && cr.line <= m.line && m.line < end {
            assert(holds(refs@[j as int], *m));
            return true;
        }
        j = j + 1;
    }
    false
}

/// Correlate mutants with code references: per requirement id (in order of
/// first mention among the code references) the mutants its spans hold —
/// all, caught and missed — for each id with at least one; and the number
/// of mutants no span holds.
pub fn mutation_report(recs: &[MutantRecord], refs: &[CodeRef]) -> (r: MutationReport)
    requires
        refs_scorable(refs@),
        report_fits(recs@, refs@),
    ensures
        r.scores@.map_values(|s: MutationScore| mutation_view(s)) == scores_for(
            distinct_ids(refs@),
            recs@,
            refs@,
        ),
        r.untagged_mutants == recs@.filter(untagged_pred(refs@)).len(),
{
    let mut keys: Vec<Vec<char>> = Vec::new();
    let mut j: usize = 0;
    while j < refs.len()
        invariant
            j <= refs@.len(),
            keys@.len() == j,
            forall|k: int| 0 <= k < j ==> #[trigger] keys@[k]@ == norm_path(refs@[k].file@),
        decreases refs.len() - j,
    {
        keys.push(norm_path_exec(refs[j].file.as_str()));
        j = j + 1;
    }
    let mut mkeys: Vec<Vec<char>> = Vec::new();
    let mut i: usize = 0;
    while i < recs.len()
        invariant
            i <= recs@.len(),
            mkeys@.len() == i,
            forall|k: int| 0 <= k < i ==> #[trigger] mkeys@[k]@ == norm_path(recs@[k].file@),
        decreases recs.len() - i,
    {
        mkeys.push(norm_path_exec(recs[i].file.as_str()));
        i = i + 1;
    }
    // untagged mutants
    let mut untagged: usize = 0;
    let mut i: usize = 0;
    assert(recs@.take(0) =~= Seq::<MutantRecord>::empty());
    while i < recs.len()
        invariant
            i <= recs@.len(),
            refs_scorable(refs@),
            keys@.len() == refs@.len(),
            forall|k: int| 0 <= k < refs@.len() ==> #[trigger] keys@[k]@ == norm_path(refs@[k].file@),
            mkeys@.len() == recs@.len(),
            forall|k: int| 0 <= k < recs@.len() ==> #[trigger] mkeys@[k]@ == norm_path(recs@[k].file@),
            untagged == recs@.take(i as int).filter(untagged_pred(refs@)).len(),
            untagged <= i,
        decreases recs.len() - i,
    {
        proof {
            let t = recs@.take(i as int);
            assert(recs@.take(i + 1) =~= t.push(recs@[i as int]));
            t.lemma_filter_push(recs@[i as int], untagged_pred(refs@));
            assert(mkeys@[i as int]@ == norm_path(recs@[i as int].file@));
        }
        if !held_exec(refs, &keys, &recs[i], mkeys[i].as_slice()) {
            untagged = untagged + 1;
        }
        i = i + 1;
    }
    assert(recs@.take(i as int) =~= recs@);
    // distinct ids
    let mut ids: Vec<String> = Vec::new();
    let mut j: usize = 0;
    assert(refs@.take(0) =~= Seq::<CodeRef>::empty());
    while j < refs.len()
        invariant
            j <= refs@.len(),
            views(ids@) == distinct_ids(refs@.take(j as int)),
        decreases refs.len() - j,
    {
        proof {
            assert(refs@.take(j + 1).drop_last() =~= refs@.take(j as int));
        }
        if !contains_string(&ids, &refs[j].req_id) {
            let ghost before = views(ids@);
            ids.push(refs[j].req_id.clone());
            assert(views(ids@) =~= before.push(refs@[j as int].req_id@));
        }
        j = j + 1;
    }
    assert(refs@.take(j as int) =~= refs@);
    // per-id sums
    proof {
        reveal_strlit("Caught");
        reveal_strlit("Missed");
    }
    let caught_word = "Caught".to_owned();
    let missed_word = "Missed".to_owned();
    let mut scores: Vec<MutationScore> = Vec::new();
    let mut k: usize = 0;
    assert(scores@.map_values(|s: MutationScore| mutation_view(s)) =~= scores_for(views(ids@).take(0), recs@, refs@));
    while k < ids.len()
        invariant
            k <= ids@.len(),
            refs_scorable(refs@),
            report_fits(recs@, refs@),
            keys@.len() == refs@.len(),
            forall|x: int| 0 <= x < refs@.len() ==> #[trigger] keys@[x]@ == norm_path(refs@[x].file@),
            mkeys@.len() == recs@.len(),
            forall|x: int| 0 <= x < recs@.len() ==> #[trigger] mkeys@[x]@ == norm_path(recs@[x].file@),
            caught_word@ == "Caught"@,
            missed_word@ == "Missed"@,
            scores@.map_values(|s: MutationScore| mutation_view(s)) == scores_for(
                views(ids@).take(k as int),
                recs@,
                refs@,
            ),
        decreases ids.len() - k,
    {
        let id = &ids[k];
        let mut total: usize = 0;
        let mut caught: usize = 0;
        let mut missed: usize = 0;
        let mut i: usize = 0;
        assert(recs@.take(0) =~= Seq::<MutantRecord>::empty());
        while i < recs.len()
            invariant
                i <= recs@.len(),
                refs_scorable(refs@),
                report_fits(recs@, refs@),
                keys@.len() == refs@.len(),
                forall|x: int| 0 <= x < refs@.len() ==> #[trigger] keys@[x]@ == norm_path(refs@[x].file@),
                mkeys@.len() == recs@.len(),
                forall|x: int| 0 <= x < recs@.len() ==> #[trigger] mkeys@[x]@ == norm_path(recs@[x].file@),
                caught_word@ == "Caught"@,
                missed_word@ == "Missed"@,
                total == hit_sum(recs@.take(i as int), refs@, id@, None),
                caught == hit_sum(recs@.take(i as int), refs@, id@, Some("Caught"@)),
                missed == hit_sum(recs@.take(i as int), refs@, id@, Some("Missed"@)),
            decreases recs.len() - i,
        {
            proof {
                reveal_strlit("Caught");
                reveal_strlit("Missed");
                assert("Caught"@.len() == 6);
                assert("Missed"@.len() == 6);
                assert("Caught"@[0] != "Missed"@[0]);
                let t = recs@.take(i + 1);
                assert(t.drop_last() =~= recs@.take(i as int));
                lemma_hit_sum_bound(t, refs@, id@, None);
                lemma_hit_sum_bound(t, refs@, id@, Some("Caught"@));
                lemma_hit_sum_bound(t, refs@, id@, Some("Missed"@));
                assert(t.len() * refs@.len() <= recs@.len() * refs@.len()) by (nonlinear_arith)
                    requires
                        t.len() <= recs@.len(),
                ;
                assert(mkeys@[i as int]@ == norm_path(recs@[i as int].file@));
            }
            let m = &recs[i];
            let h = hits_exec(refs, &keys, id, m, mkeys[i].as_slice());
            total = total + h;
            if m.outcome == caught_word {
                caught = caught + h;
            } else if m.outcome == missed_word {
                missed = missed + h;
            }
            i = i + 1;
        }
        assert(recs@.take(i as int) =~= recs@);
        proof {
            let t = views(ids@).take(k + 1);
            assert(t.drop_last() =~= views(ids@).take(k as int));
            assert(t.last() == id@);
        }
        if total > 0 {
            let ghost before = scores@.map_values(|s: MutationScore| mutation_view(s));
            let sc = MutationScore { req_id: id.clone(), mutants_total: total, caught, missed };
            scores.push(sc);
            assert(scores@.map_values(|s: MutationScore| mutation_view(s)) =~= before.push(mutation_view(sc)));
        }
        k = k + 1;
    }
    assert(views(ids@).take(k as int) =~= views(ids@));
    MutationReport { scores, untagged_mutants: untagged }
}

} // verus!
