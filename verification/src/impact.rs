//! Impact analysis: everything affected when a requirement changes — the
//! requirement and all its descendants, the files that implement them and
//! the tests that verify them.

use vstd::prelude::*;
use crate::models::{CodeRef, Link, LinkType, Requirement};
use crate::sorting::views;
use crate::trace::{has_req, id_index, id_of, ids_unique, is_child_of, TraceGraph};
use crate::trace::contains_string;

verus! {

/// `b` is a child of `a`: some requirement with id `b` has parent `a`.
pub open spec fn child_step(reqs: Seq<Requirement>, a: Seq<char>, b: Seq<char>) -> bool {
    exists|i: int| 0 <= i < reqs.len() && reqs[i].id@ == b && #[trigger] is_child_of(reqs[i], a)
}

/// Each id of `p` after the first is a child of the one before it.
pub open spec fn is_descent(reqs: Seq<Requirement>, p: Seq<Seq<char>>) -> bool {
    &&& p.len() > 0
    &&& forall|k: int| 0 <= k < p.len() - 1 ==> #[trigger] child_step(reqs, p[k], p[k + 1])
}

/// `x` is `root` or descends from it through parent links.
pub open spec fn descends(reqs: Seq<Requirement>, root: Seq<char>, x: Seq<char>) -> bool {
    exists|p: Seq<Seq<char>>| #[trigger] is_descent(reqs, p) && p[0] == root && p.last() == x
}

/// "Descends from `root` and is not `root`", on requirements.
pub open spec fn strict_descendant_pred(reqs: Seq<Requirement>, root: Seq<char>) -> spec_fn(
    Requirement,
) -> bool {
    |q: Requirement| descends(reqs, root, q.id@) && q.id@ != root
}

/// The affected requirement ids: `root`, then its descendants in graph
/// order.
pub open spec fn impact_ids(reqs: Seq<Requirement>, root: Seq<char>) -> Seq<Seq<char>> {
    seq![root] + reqs.filter(strict_descendant_pred(reqs, root)).map_values(id_of())
}

/// The files of code references naming an affected id, each once, in
/// order of first mention.
pub open spec fn impact_files(reqs: Seq<Requirement>, root: Seq<char>, refs: Seq<CodeRef>) -> Seq<
    Seq<char>,
>
    decreases refs.len(),
{
    if refs.len() == 0 {
        seq![]
    } else {
        let d = impact_files(reqs, root, refs.drop_last());
        let c = refs.last();
        if descends(reqs, root, c.req_id@) && !d.contains(c.file@) {
            d.push(c.file@)
        } else {
            d
        }
    }
}

/// The sources of `Verifies` links whose target is affected, each once, in
/// order of first mention.
pub open spec fn impact_tests(reqs: Seq<Requirement>, root: Seq<char>, links: Seq<Link>) -> Seq<
    Seq<char>,
>
    decreases links.len(),
{
    if links.len() == 0 {
        seq![]
    } else {
        let d = impact_tests(reqs, root, links.drop_last());
        let l = links.last();
        if l.link_type == LinkType::Verifies && descends(reqs, root, l.target@) && !d.contains(
            l.source@,
        ) {
            d.push(l.source@)
        } else {
            d
        }
    }
}

/// Result of an impact analysis.
#[derive(Debug)]
pub struct ImpactResult {
    pub requirement_id: String,
    pub affected_requirements: Vec<String>,
    pub affected_files: Vec<String>,
    pub affected_tests: Vec<String>,
}

/// "Is marked", as a predicate.
pub open spec fn is_true() -> spec_fn(bool) -> bool {
    |b: bool| b
}

/// Number of marked positions.
pub open spec fn count_marked(m: Seq<bool>) -> nat {
    m.filter(is_true()).len()
}

proof fn lemma_mark_count(m: Seq<bool>, i: int)
    requires
        0 <= i < m.len(),
        !m[i],
    ensures
        count_marked(m.update(i, true)) == count_marked(m) + 1,
    decreases m.len(),
{
    let u = m.update(i, true);
    if i == m.len() - 1 {
        assert(u =~= m.drop_last().push(true));
        assert(m =~= m.drop_last().push(false));
        m.drop_last().lemma_filter_push(true, is_true());
        m.drop_last().lemma_filter_push(false, is_true());
    } else {
        lemma_mark_count(m.drop_last(), i);
        assert(u.drop_last() =~= m.drop_last().update(i, true));
        assert(u =~= m.drop_last().update(i, true).push(m.last()));
        assert(m =~= m.drop_last().push(m.last()));
        m.drop_last().update(i, true).lemma_filter_push(m.last(), is_true());
        m.drop_last().lemma_filter_push(m.last(), is_true());
    }
}

/// Every requirement whose parent is `x` is marked.
pub open spec fn closed_at(reqs: Seq<Requirement>, m: Seq<bool>, x: Seq<char>) -> bool {
    forall|i: int| 0 <= i < reqs.len() && #[trigger] is_child_of(reqs[i], x) ==> m[i]
}

/// Marked requirements descend from `root`.
pub open spec fn marks_sound(reqs: Seq<Requirement>, root: Seq<char>, m: Seq<bool>) -> bool {
    forall|i: int| 0 <= i < reqs.len() && #[trigger] m[i] ==> descends(reqs, root, reqs[i].id@)
}

/// The work list holds distinct marked positions.
pub open spec fn queue_ok(m: Seq<bool>, q: Seq<usize>) -> bool {
    &&& forall|k: int| 0 <= k < q.len() ==> #[trigger] q[k] < m.len() && m[q[k] as int]
    &&& q.no_duplicates()
}

/// A one-step descent extends a descent.
pub proof fn lemma_descends_extend(reqs: Seq<Requirement>, root: Seq<char>, x: Seq<char>, i: int)
    requires
        descends(reqs, root, x),
        0 <= i < reqs.len(),
        is_child_of(reqs[i], x),
    ensures
        descends(reqs, root, reqs[i].id@),
{
    let p = choose|p: Seq<Seq<char>>| #[trigger] is_descent(reqs, p) && p[0] == root && p.last()
        == x;
    let p2 = p.push(reqs[i].id@);
    assert(child_step(reqs, x, reqs[i].id@));
    assert forall|k: int| 0 <= k < p2.len() - 1 implies #[trigger] child_step(
        reqs,
        p2[k],
        p2[k + 1],
    ) by {
        if k < p.len() - 1 {
            assert(child_step(reqs, p[k], p[k + 1]));
        }
    }
    assert(is_descent(reqs, p2));
}

/// `root` descends from itself.
pub proof fn lemma_root_descends(reqs: Seq<Requirement>, root: Seq<char>)
    ensures
        descends(reqs, root, root),
{
    let p = seq![root];
    assert(is_descent(reqs, p));
}

/// When every affected id is closed, every descendant of `root` is `root`
/// or marked.
proof fn lemma_complete(reqs: Seq<Requirement>, root: Seq<char>, m: Seq<bool>, x: Seq<char>)
    requires
        m.len() == reqs.len(),
        ids_unique(reqs),
        closed_at(reqs, m, root),
        forall|j: int| 0 <= j < reqs.len() && #[trigger] m[j] ==> closed_at(reqs, m, reqs[j].id@),
        descends(reqs, root, x),
    ensures
        x == root || (has_req(reqs, x) && m[id_index(reqs, x)]),
{
    let p = choose|p: Seq<Seq<char>>| #[trigger] is_descent(reqs, p) && p[0] == root && p.last()
        == x;
    lemma_complete_path(reqs, root, m, p, p.len() - 1);
}

proof fn lemma_complete_path(
    reqs: Seq<Requirement>,
    root: Seq<char>,
    m: Seq<bool>,
    p: Seq<Seq<char>>,
    k: int,
)
    requires
        m.len() == reqs.len(),
        ids_unique(reqs),
        closed_at(reqs, m, root),
        forall|j: int| 0 <= j < reqs.len() && #[trigger] m[j] ==> closed_at(reqs, m, reqs[j].id@),
        is_descent(reqs, p),
        p[0] == root,
        0 <= k < p.len(),
    ensures
        p[k] == root || (has_req(reqs, p[k]) && m[id_index(reqs, p[k])]),
    decreases k,
{
    if k > 0 {
        lemma_complete_path(reqs, root, m, p, k - 1);
        let k1 = k - 1;
        assert(child_step(reqs, p[k1], p[k1 + 1]));
        let i = choose|i: int|
            0 <= i < reqs.len() && reqs[i].id@ == p[k] && #[trigger] is_child_of(reqs[i], p[k - 1]);
        crate::trace::lemma_id_index_unique(reqs, i);
        if p[k - 1] == root {
            assert(m[i]);
        } else {
            let j = id_index(reqs, p[k - 1]);
            assert(m[j]);
            assert(closed_at(reqs, m, reqs[j].id@));
            assert(m[i]);
        }
    }
}

impl TraceGraph {
    /// Mark the unmarked children of `parent` and queue them.
    fn expand(
        &self,
        parent: &String,
        marked: &mut Vec<bool>,
        queue: &mut Vec<usize>,
        Ghost(root): Ghost<Seq<char>>,
    )
        requires
            self.wf(),
            old(marked)@.len() == self.reqs().len(),
            descends(self.reqs(), root, parent@),
            marks_sound(self.reqs(), root, old(marked)@),
            queue_ok(old(marked)@, old(queue)@),
        ensures
            final(marked)@.len() == self.reqs().len(),
            marks_sound(self.reqs(), root, final(marked)@),
            queue_ok(final(marked)@, final(queue)@),
            closed_at(self.reqs(), final(marked)@, parent@),
            forall|i: int| 0 <= i < old(marked)@.len() && old(marked)@[i] ==> #[trigger] final(marked)@[i],
            forall|i: int|
                0 <= i < final(marked)@.len() && #[trigger] final(marked)@[i] && !old(marked)@[i]
                    ==> final(queue)@.contains(i as usize),
            forall|k: int| 0 <= k < old(queue)@.len() ==> #[trigger] final(queue)@[k] == old(queue)@[k],
            final(queue)@.len() >= old(queue)@.len(),
            count_marked(final(marked)@) - count_marked(old(marked)@) == final(queue)@.len()
                - old(queue)@.len(),
    {
        let reqs = self.requirements();
        let ghost m0 = marked@;
        let ghost q0 = queue@;
        let mut i: usize = 0;
        while i < reqs.len()
            invariant
                reqs@ == self.reqs(),
                self.wf(),
                i <= reqs@.len(),
                marked@.len() == reqs@.len(),
                descends(reqs@, root, parent@),
                marks_sound(reqs@, root, marked@),
                queue_ok(marked@, queue@),
                forall|j: int| 0 <= j < i && #[trigger] is_child_of(reqs@[j], parent@) ==> marked@[j],
                forall|j: int| 0 <= j < m0.len() && m0[j] ==> #[trigger] marked@[j],
                forall|j: int|
                    0 <= j < marked@.len() && #[trigger] marked@[j] && !m0[j] ==> queue@.contains(
                        j as usize,
                    ),
                forall|k: int| 0 <= k < q0.len() ==> #[trigger] queue@[k] == q0[k],
                queue@.len() >= q0.len(),
                count_marked(marked@) - count_marked(m0) == queue@.len() - q0.len(),
                m0.len() == reqs@.len(),
            decreases reqs.len() - i,
        {
            let child = match &reqs[i].parent {
                Some(p) => *p == *parent,
                None => false,
            };
            if child && !marked[i] {
                proof {
                    lemma_descends_extend(reqs@, root, parent@, i as int);
                    lemma_mark_count(marked@, i as int);
                    assert(!queue@.contains(i));
                }
                let ghost mb = marked@;
                let ghost qb = queue@;
                marked.set(i, true);
                queue.push(i);
                proof {
                    assert(queue@[queue@.len() - 1] == i);
                    assert(queue@.contains(i));
                    assert forall|k: int| 0 <= k < queue@.len() implies #[trigger] queue@[k]
                        < marked@.len() && marked@[queue@[k] as int] by {
                        if k < qb.len() {
                            assert(qb[k] < mb.len() && mb[qb[k] as int]);
                        }
                    }
                    assert forall|j: int|
                        0 <= j < marked@.len() && #[trigger] marked@[j] && !m0[j] implies queue@.contains(
                        j as usize,
                    ) by {
                        if j != i {
                            assert(mb[j]);
                            assert(qb.contains(j as usize));
                            let k = choose|k: int| 0 <= k < qb.len() && qb[k] == j as usize;
                            assert(queue@[k] == j as usize);
                        }
                    }
                    assert(queue@.no_duplicates()) by {
                        assert forall|a: int, b: int|
                            0 <= a < b < queue@.len() implies queue@[a] != queue@[b] by {
                            if b == queue@.len() - 1 {
                                assert(qb[a] < mb.len() && mb[qb[a] as int]);
                            }
                        }
                    }
                }
            }
            i = i + 1;
        }
    }

    /// Impact analysis: the requirement, all its descendants (through parent
    /// links), the files implementing any of them and the sources of
    /// `Verifies` links targeting any of them.
    pub fn impact_analysis(&self, req_id: &str) -> (r: ImpactResult)
        requires
            self.wf(),
        ensures
            r.requirement_id@ == req_id@,
            views(r.affected_requirements@) == impact_ids(self.reqs(), req_id@),
            views(r.affected_files@) == impact_files(self.reqs(), req_id@, self.refs()),
            views(r.affected_tests@) == impact_tests(self.reqs(), req_id@, self.link_list()),
    {
        let root = req_id.to_owned();
        let ghost rv = root@;
        let reqs = self.requirements();
        let n = reqs.len();
        let mut marked: Vec<bool> = Vec::new();
        assert(marked@.filter(is_true()) =~= Seq::<bool>::empty()) by {
            reveal(Seq::filter);
        }
        while marked.len() < n
            invariant
                marked@.len() <= n,
                forall|j: int| 0 <= j < marked@.len() ==> !#[trigger] marked@[j],
                count_marked(marked@) == 0,
            decreases n - marked.len(),
        {
            proof {
                marked@.lemma_filter_push(false, is_true());
            }
            marked.push(false);
        }
        proof {
            lemma_root_descends(reqs@, rv);
        }
        let mut queue: Vec<usize> = Vec::new();
        self.expand(&root, &mut marked, &mut queue, Ghost(rv));
        while queue.len() > 0
            invariant
                reqs@ == self.reqs(),
                self.wf(),
                marked@.len() == reqs@.len(),
                n == reqs@.len(),
                marks_sound(reqs@, rv, marked@),
                queue_ok(marked@, queue@),
                closed_at(reqs@, marked@, rv),
                forall|j: int|
                    0 <= j < reqs@.len() && #[trigger] marked@[j] && !queue@.contains(j as usize)
                        ==> closed_at(reqs@, marked@, reqs@[j].id@),
                count_marked(marked@) <= n,
            decreases 2 * (n - count_marked(marked@)) + queue@.len(),
        {
            let ghost qb = queue@;
            let ghost mb = marked@;
            let j = queue.pop().unwrap();
            proof {
                assert(qb.last() == j);
                assert(mb[j as int]);
                assert(!queue@.contains(j)) by {
                    if queue@.contains(j) {
                        let k = choose|k: int| 0 <= k < queue@.len() && queue@[k] == j;
                        assert(qb[k] == qb[qb.len() - 1]);
                    }
                }
                assert(queue_ok(marked@, queue@));
                marked@.lemma_filter_len(is_true());
            }
            self.expand(&reqs[j].id, &mut marked, &mut queue, Ghost(rv));
            proof {
                marked@.lemma_filter_len(is_true());
                assert forall|i: int| 0 <= i < reqs@.len() && #[trigger] is_child_of(reqs@[i], rv) implies marked@[i] by {
                    assert(mb[i]);
                }
                assert forall|x: int|
                    0 <= x < reqs@.len() && #[trigger] marked@[x] && !queue@.contains(x as usize)
                        implies closed_at(reqs@, marked@, reqs@[x].id@) by {
                    if x != j {
                        assert(mb[x]);
                        if qb.contains(x as usize) {
                            let k = choose|k: int| 0 <= k < qb.len() && qb[k] == x as usize;
                            assert(k < qb.len() - 1);
                            assert(queue@[k] == x as usize);
                        }
                        assert forall|i: int|
                            0 <= i < reqs@.len() && #[trigger] is_child_of(reqs@[i], reqs@[x].id@) implies marked@[i] by {
                            assert(mb[i]);
                        }
                    }
                }
            }
        }
        self.impact_output(root, &marked)
    }

    /// `id` descends from the root, given the closed marking.
    fn is_affected(&self, root: &String, marked: &Vec<bool>, id: &String) -> (b: bool)
        requires
            self.wf(),
            marked@.len() == self.reqs().len(),
            marks_sound(self.reqs(), root@, marked@),
            closed_at(self.reqs(), marked@, root@),
            forall|j: int|
                0 <= j < self.reqs().len() && #[trigger] marked@[j] ==> closed_at(
                    self.reqs(),
                    marked@,
                    self.reqs()[j].id@,
                ),
        ensures
            b == descends(self.reqs(), root@, id@),
    {
        proof {
            lemma_root_descends(self.reqs(), root@);
            if descends(self.reqs(), root@, id@) {
                lemma_complete(self.reqs(), root@, marked@, id@);
            }
        }
        if *id == *root {
            true
        } else {
            match self.find_index(id) {
                Some(k) => marked[k],
                None => false,
            }
        }
    }

    fn impact_output(&self, root: String, marked: &Vec<bool>) -> (r: ImpactResult)
        requires
            self.wf(),
            marked@.len() == self.reqs().len(),
            marks_sound(self.reqs(), root@, marked@),
            closed_at(self.reqs(), marked@, root@),
            forall|j: int|
                0 <= j < self.reqs().len() && #[trigger] marked@[j] ==> closed_at(
                    self.reqs(),
                    marked@,
                    self.reqs()[j].id@,
                ),
        ensures
            r.requirement_id@ == root@,
            views(r.affected_requirements@) == impact_ids(self.reqs(), root@),
            views(r.affected_files@) == impact_files(self.reqs(), root@, self.refs()),
            views(r.affected_tests@) == impact_tests(self.reqs(), root@, self.link_list()),
    {
        let reqs = self.requirements();
        let ghost rv = root@;
        let mut ids: Vec<String> = Vec::new();
        ids.push(root.clone());
        let mut i: usize = 0;
        assert(views(ids@) =~= seq![rv] + reqs@.take(0).filter(strict_descendant_pred(reqs@, rv)).map_values(id_of()));
        while i < reqs.len()
            invariant
                rv == root@,
                reqs@ == self.reqs(),
                self.wf(),
                i <= reqs@.len(),
                marked@.len() == reqs@.len(),
                marks_sound(reqs@, rv, marked@),
                closed_at(reqs@, marked@, rv),
                forall|j: int|
                    0 <= j < reqs@.len() && #[trigger] marked@[j] ==> closed_at(
                        reqs@,
                        marked@,
                        reqs@[j].id@,
                    ),
                views(ids@) == seq![rv] + reqs@.take(i as int).filter(
                    strict_descendant_pred(reqs@, rv),
                ).map_values(id_of()),
            decreases reqs.len() - i,
        {
            let q = &reqs[i];
            let ghost t = reqs@.take(i as int);
            proof {
                assert(reqs@.take(i + 1) =~= t.push(*q));
                t.lemma_filter_push(*q, strict_descendant_pred(reqs@, rv));
                crate::trace::lemma_id_index_unique(reqs@, i as int);
                if descends(reqs@, rv, q.id@) {
                    lemma_complete(reqs@, rv, marked@, q.id@);
                }
            }
            let ghost before = views(ids@);
            assert(strict_descendant_pred(reqs@, rv)(*q) == (marked@[i as int] && q.id@ != rv));
            if marked[i] && !(q.id == root) {
                ids.push(q.id.clone());
                assert(views(ids@) =~= before.push(q.id@));
            }
            proof {
                assert(views(ids@) =~= seq![rv] + reqs@.take(i + 1).filter(
                    strict_descendant_pred(reqs@, rv),
                ).map_values(id_of()));
            }
            i = i + 1;
        }
        proof {
            assert(reqs@.take(i as int) =~= reqs@);
        }
        let refs = self.code_refs();
        let mut files: Vec<String> = Vec::new();
        let mut k: usize = 0;
        while k < refs.len()
            invariant
                rv == root@,
                reqs@ == self.reqs(),
                refs@ == self.refs(),
                self.wf(),
                k <= refs@.len(),
                marked@.len() == reqs@.len(),
                marks_sound(reqs@, rv, marked@),
                closed_at(reqs@, marked@, rv),
                forall|j: int|
                    0 <= j < reqs@.len() && #[trigger] marked@[j] ==> closed_at(
                        reqs@,
                        marked@,
                        reqs@[j].id@,
                    ),
                views(files@) == impact_files(reqs@, rv, refs@.take(k as int)),
            decreases refs.len() - k,
        {
            let c = &refs[k];
            proof {
                assert(refs@.take(k + 1).drop_last() =~= refs@.take(k as int));
            }
            if self.is_affected(&root, marked, &c.req_id) && !contains_string(&files, &c.file) {
                files.push(c.file.clone());
            }
            proof {
                assert(views(files@) =~= impact_files(reqs@, rv, refs@.take(k + 1)));
            }
            k = k + 1;
        }
        proof {
            assert(refs@.take(k as int) =~= refs@);
        }
        let links = self.links();
        let mut tests: Vec<String> = Vec::new();
        let mut l: usize = 0;
        while l < links.len()
            invariant
                rv == root@,
                reqs@ == self.reqs(),
                links@ == self.link_list(),
                self.wf(),
                l <= links@.len(),
                marked@.len() == reqs@.len(),
                marks_sound(reqs@, rv, marked@),
                closed_at(reqs@, marked@, rv),
                forall|j: int|
                    0 <= j < reqs@.len() && #[trigger] marked@[j] ==> closed_at(
                        reqs@,
                        marked@,
                        reqs@[j].id@,
                    ),
                views(tests@) == impact_tests(reqs@, rv, links@.take(l as int)),
            decreases links.len() - l,
        {
            let x = &links[l];
            proof {
                assert(links@.take(l + 1).drop_last() =~= links@.take(l as int));
            }
            if x.link_type == LinkType::Verifies && self.is_affected(&root, marked, &x.target)
                && !contains_string(&tests, &x.source) {
                tests.push(x.source.clone());
            }
            proof {
                assert(views(tests@) =~= impact_tests(reqs@, rv, links@.take(l + 1)));
            }
            l = l + 1;
        }
        proof {
            assert(links@.take(l as int) =~= links@);
        }
        ImpactResult {
            requirement_id: root,
            affected_requirements: ids,
            affected_files: files,
            affected_tests: tests,
        }
    }
}

} // verus!
