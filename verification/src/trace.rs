//! Traceability graph: requirements, the code that implements them and the
//! links between them, with coverage, gap detection, impact analysis and
//! validation.
//!
//! Requirements are kept in a vector with unique ids (a later requirement
//! with an id already present replaces the earlier one, as a map keyed by id
//! would).  The children of a requirement are the requirements whose parent
//! is its id.

use vstd::prelude::*;
use vstd::relations::*;
use crate::models::{
    CodeRef, Coverage, Link, LinkType, Requirement, RequirementType, string_eq,
};
use crate::sorting::{id_order, sort_strings, views};

verus! {

// ───────────────────────── the model ─────────────────────────

/// No two requirements share an id.
pub open spec fn ids_unique(reqs: Seq<Requirement>) -> bool {
    forall|i: int, j: int| 0 <= i < j < reqs.len() ==> reqs[i].id@ != reqs[j].id@
}

/// Some requirement has this id.
pub open spec fn has_req(reqs: Seq<Requirement>, id: Seq<char>) -> bool {
    exists|i: int| 0 <= i < reqs.len() && #[trigger] reqs[i].id@ == id
}

/// The requirement's parent is `id`.
pub open spec fn is_child_of(r: Requirement, id: Seq<char>) -> bool {
    match r.parent {
        Some(p) => p@ == id,
        None => false,
    }
}

/// Some requirement has `id` as its parent.
pub open spec fn has_child(reqs: Seq<Requirement>, id: Seq<char>) -> bool {
    exists|i: int| 0 <= i < reqs.len() && #[trigger] is_child_of(reqs[i], id)
}

/// Some code reference names `id`.
pub open spec fn has_code(refs: Seq<CodeRef>, id: Seq<char>) -> bool {
    exists|j: int| 0 <= j < refs.len() && #[trigger] refs[j].req_id@ == id
}

/// The position of the requirement with this id, or -1.
pub open spec fn id_index(s: Seq<Requirement>, id: Seq<char>) -> int {
    if has_req(s, id) {
        choose|i: int| 0 <= i < s.len() && #[trigger] s[i].id@ == id
    } else {
        -1
    }
}

/// The requirements keyed by id: each id once, at the place where it first
/// occurs, holding the last requirement given with that id.
pub open spec fn keep_last(s: Seq<Requirement>) -> Seq<Requirement>
    decreases s.len(),
{
    if s.len() == 0 {
        s
    } else {
        let d = keep_last(s.drop_last());
        let k = id_index(d, s.last().id@);
        if k >= 0 {
            d.update(k, s.last())
        } else {
            d.push(s.last())
        }
    }
}

/// `keep_last` has unique ids, and the ids of its input.
pub proof fn lemma_keep_last(s: Seq<Requirement>)
    ensures
        ids_unique(keep_last(s)),
        forall|id: Seq<char>| has_req(keep_last(s), id) <==> has_req(s, id),
    decreases s.len(),
{
    if s.len() > 0 {
        let p = s.drop_last();
        lemma_keep_last(p);
        let d = keep_last(p);
        let x = s.last();
        let k = id_index(d, x.id@);
        let e = keep_last(s);
        if k >= 0 {
            assert forall|id: Seq<char>| has_req(e, id) <==> has_req(s, id) by {
                if has_req(s, id) {
                    let i = choose|i: int| 0 <= i < s.len() && #[trigger] s[i].id@ == id;
                    if i == s.len() - 1 {
                        assert(e[k].id@ == id);
                    } else {
                        assert(p[i].id@ == id);
                        assert(has_req(p, id));
                        let m = choose|m: int| 0 <= m < d.len() && #[trigger] d[m].id@ == id;
                        if m == k {
                            assert(e[k].id@ == id);
                        } else {
                            assert(e[m].id@ == id);
                        }
                    }
                }
                if has_req(e, id) {
                    let m = choose|m: int| 0 <= m < e.len() && #[trigger] e[m].id@ == id;
                    if m == k {
                        assert(s[s.len() - 1].id@ == id);
                    } else {
                        assert(d[m].id@ == id);
                        assert(has_req(p, id));
                        let i = choose|i: int| 0 <= i < p.len() && #[trigger] p[i].id@ == id;
                        assert(s[i].id@ == id);
                    }
                }
            }
        } else {
            assert(!has_req(d, x.id@));
            assert forall|i: int, j: int| 0 <= i < j < e.len() implies e[i].id@ != e[j].id@ by {
                if j == e.len() - 1 {
                    assert(d[i].id@ != x.id@);
                }
            }
            assert forall|id: Seq<char>| has_req(e, id) <==> has_req(s, id) by {
                if has_req(s, id) {
                    let i = choose|i: int| 0 <= i < s.len() && #[trigger] s[i].id@ == id;
                    if i == s.len() - 1 {
                        assert(e[e.len() - 1].id@ == id);
                    } else {
                        assert(p[i].id@ == id);
                        assert(has_req(p, id));
                        let m = choose|m: int| 0 <= m < d.len() && #[trigger] d[m].id@ == id;
                        assert(e[m].id@ == id);
                    }
                }
                if has_req(e, id) {
                    let m = choose|m: int| 0 <= m < e.len() && #[trigger] e[m].id@ == id;
                    if m == e.len() - 1 {
                        assert(s[s.len() - 1].id@ == id);
                    } else {
                        assert(d[m].id@ == id);
                        assert(has_req(p, id));
                        let i = choose|i: int| 0 <= i < p.len() && #[trigger] p[i].id@ == id;
                        assert(s[i].id@ == id);
                    }
                }
            }
        }
    }
}

/// With unique ids, a position holding `id` is `id_index`.
pub proof fn lemma_id_index_unique(s: Seq<Requirement>, k: int)
    requires
        ids_unique(s),
        0 <= k < s.len(),
    ensures
        id_index(s, s[k].id@) == k,
{
    let id = s[k].id@;
    assert(has_req(s, id));
    let i = id_index(s, id);
    assert(s[i].id@ == id);
    if i < k {
        assert(s[i].id@ != s[k].id@);
    } else if i > k {
        assert(s[k].id@ != s[i].id@);
    }
}

/// The values behind a sequence of references.
pub open spec fn derefs<A>(s: Seq<&A>) -> Seq<A> {
    s.map_values(|x: &A| *x)
}

/// "Has `id` as parent", as a predicate.
pub open spec fn child_pred(id: Seq<char>) -> spec_fn(Requirement) -> bool {
    |q: Requirement| is_child_of(q, id)
}

/// The requirements whose parent is `id`, in order.
pub open spec fn children_of(reqs: Seq<Requirement>, id: Seq<char>) -> Seq<Requirement> {
    reqs.filter(child_pred(id))
}

/// "Names `id`", as a predicate on code references.
pub open spec fn ref_pred(id: Seq<char>) -> spec_fn(CodeRef) -> bool {
    |c: CodeRef| c.req_id@ == id
}

/// The code references naming `id`, in order.
pub open spec fn refs_of(refs: Seq<CodeRef>, id: Seq<char>) -> Seq<CodeRef> {
    refs.filter(ref_pred(id))
}

/// Position of the parent of the requirement `id`: the requirement `id`
/// exists, names a parent, and that parent exists.
pub open spec fn parent_of(reqs: Seq<Requirement>, id: Seq<char>) -> Option<int> {
    if has_req(reqs, id) {
        match reqs[id_index(reqs, id)].parent {
            Some(p) => if has_req(reqs, p@) {
                Some(id_index(reqs, p@))
            } else {
                None
            },
            None => None,
        }
    } else {
        None
    }
}

/// The requirement `id` exists and is an LLR.
pub open spec fn is_llr(reqs: Seq<Requirement>, id: Seq<char>) -> bool {
    has_req(reqs, id) && reqs[id_index(reqs, id)].req_type == RequirementType::Llr
}

/// "Is of type `t`", as a predicate.
pub open spec fn type_pred(t: RequirementType) -> spec_fn(Requirement) -> bool {
    |q: Requirement| q.req_type == t
}

/// "Is an HLR with at least one child", as a predicate.
pub open spec fn linked_hlr_pred(reqs: Seq<Requirement>) -> spec_fn(Requirement) -> bool {
    |q: Requirement| q.req_type == RequirementType::Hlr && has_child(reqs, q.id@)
}

/// "Is an LLR named by some code reference", as a predicate.
pub open spec fn implemented_llr_pred(refs: Seq<CodeRef>) -> spec_fn(Requirement) -> bool {
    |q: Requirement| q.req_type == RequirementType::Llr && has_code(refs, q.id@)
}

/// Some `Verifies` link targets the requirement `id`.
pub open spec fn is_verified(links: Seq<Link>, id: Seq<char>) -> bool {
    exists|j: int|
        0 <= j < links.len() && (#[trigger] links[j]).link_type == LinkType::Verifies
            && links[j].target@ == id
}

/// "Is an LLR that some `Verifies` link targets", as a predicate.
pub open spec fn tested_llr_pred(links: Seq<Link>) -> spec_fn(Requirement) -> bool {
    |q: Requirement| q.req_type == RequirementType::Llr && is_verified(links, q.id@)
}

/// The id of a requirement, as a function.
pub open spec fn id_of() -> spec_fn(Requirement) -> Seq<char> {
    |q: Requirement| q.id@
}

/// Identifier lists in the order of `String`.
pub open spec fn sorted_ids(s: Seq<Seq<char>>) -> Seq<Seq<char>> {
    s.sort_by(id_order())
}

/// An HLR without children.
pub open spec fn hlr_gap_pred(reqs: Seq<Requirement>) -> spec_fn(Requirement) -> bool {
    |q: Requirement| q.req_type == RequirementType::Hlr && !has_child(reqs, q.id@)
}

/// An LLR without a parent.
pub open spec fn llr_orphan_pred() -> spec_fn(Requirement) -> bool {
    |q: Requirement| q.req_type == RequirementType::Llr && q.parent is None
}

/// An LLR whose parent is not defined.
pub open spec fn llr_missing_parent_pred(reqs: Seq<Requirement>) -> spec_fn(Requirement) -> bool {
    |q: Requirement|
        q.req_type == RequirementType::Llr && match q.parent {
            Some(p) => !has_req(reqs, p@),
            None => false,
        }
}

/// An LLR that no code reference names.
pub open spec fn llr_uncoded_pred(refs: Seq<CodeRef>) -> spec_fn(Requirement) -> bool {
    |q: Requirement| q.req_type == RequirementType::Llr && !has_code(refs, q.id@)
}

/// Ids of HLRs without children, in graph order.
pub open spec fn hlr_gap_ids(reqs: Seq<Requirement>) -> Seq<Seq<char>> {
    reqs.filter(hlr_gap_pred(reqs)).map_values(id_of())
}

/// Ids of LLRs without a parent, in graph order.
pub open spec fn llr_orphan_ids(reqs: Seq<Requirement>) -> Seq<Seq<char>> {
    reqs.filter(llr_orphan_pred()).map_values(id_of())
}

/// Ids of LLRs whose parent is not defined, in graph order.
pub open spec fn llr_missing_parent_ids(reqs: Seq<Requirement>) -> Seq<Seq<char>> {
    reqs.filter(llr_missing_parent_pred(reqs)).map_values(id_of())
}

/// Ids of LLRs that no code reference names, in graph order.
pub open spec fn llr_uncoded_ids(reqs: Seq<Requirement>, refs: Seq<CodeRef>) -> Seq<Seq<char>> {
    reqs.filter(llr_uncoded_pred(refs)).map_values(id_of())
}

/// For each link in order: its source if the link is not `Verifies` and
/// the source is not defined, then its target if that is not defined.
pub open spec fn undefined_link_ids(reqs: Seq<Requirement>, links: Seq<Link>) -> Seq<Seq<char>>
    decreases links.len(),
{
    if links.len() == 0 {
        seq![]
    } else {
        let l = links.last();
        let a = undefined_link_ids(reqs, links.drop_last());
        let b = if l.link_type != LinkType::Verifies && !has_req(reqs, l.source@) {
            a.push(l.source@)
        } else {
            a
        };
        if !has_req(reqs, l.target@) {
            b.push(l.target@)
        } else {
            b
        }
    }
}

/// Each undefined id named by a code reference, once, in order of first
/// mention.
pub open spec fn undefined_ref_ids(reqs: Seq<Requirement>, refs: Seq<CodeRef>) -> Seq<Seq<char>>
    decreases refs.len(),
{
    if refs.len() == 0 {
        seq![]
    } else {
        let d = undefined_ref_ids(reqs, refs.drop_last());
        let x = refs.last().req_id@;
        if !has_req(reqs, x) && !d.contains(x) {
            d.push(x)
        } else {
            d
        }
    }
}

/// Executable `views(v@).contains(s@)`.
pub fn contains_string(v: &[String], s: &String) -> (b: bool)
    ensures
        b == views(v@).contains(s@),
{
    let mut k: usize = 0;
    while k < v.len()
        invariant
            k <= v@.len(),
            forall|j: int| 0 <= j < k ==> #[trigger] v@[j]@ != s@,
        decreases v.len() - k,
    {
        if v[k] == *s {
            assert(views(v@)[k as int] == s@);
            return true;
        }
        k = k + 1;
    }
    proof {
        if views(v@).contains(s@) {
            let j = choose|j: int| 0 <= j < views(v@).len() && views(v@)[j] == s@;
            assert(v@[j]@ == s@);
        }
    }
    false
}

/// Traceability graph representing all requirement relationships.
pub struct TraceGraph {
    requirements: Vec<Requirement>,
    code_refs: Vec<CodeRef>,
    links: Vec<Link>,
}

impl TraceGraph {
    /// The requirements, each id once.
    pub closed spec fn reqs(self) -> Seq<Requirement> {
        self.requirements@
    }

    /// All code references, in the order given.
    pub closed spec fn refs(self) -> Seq<CodeRef> {
        self.code_refs@
    }

    /// All links, in the order given.
    pub closed spec fn link_list(self) -> Seq<Link> {
        self.links@
    }

    /// Well-formedness: no two requirements share an id.
    pub open spec fn wf(self) -> bool {
        ids_unique(self.reqs())
    }

    /// Build a graph from requirements, code references and links.
    /// Requirements are keyed by id: a later requirement with the same id
    /// replaces an earlier one.
    pub fn new(requirements: Vec<Requirement>, code_refs: Vec<CodeRef>, links: Vec<Link>) -> (g:
        Self)
        ensures
            g.wf(),
            g.reqs() == keep_last(requirements@),
            g.refs() == code_refs@,
            g.link_list() == links@,
    {
        let ghost input = requirements@;
        let mut out: Vec<Requirement> = Vec::new();
        assert(input.take(0) =~= Seq::<Requirement>::empty());
        for r in it: requirements
            invariant
                it.seq() == input,
                out@ == keep_last(input.take(it.index() as int)),
                ids_unique(out@),
        {
            let ghost i = it.index() as int;
            proof {
                assert(input.take(i + 1).drop_last() =~= input.take(i));
                assert(input.take(i + 1).last() == r);
                lemma_keep_last(input.take(i + 1));
            }
            let mut k: usize = 0;
            while k < out.len() && !string_eq(&out[k].id, &r.id)
                invariant
                    k <= out@.len(),
                    forall|j: int| 0 <= j < k ==> out@[j].id@ != r.id@,
                decreases out.len() - k,
            {
                k = k + 1;
            }
            if k < out.len() {
                proof {
                    lemma_id_index_unique(out@, k as int);
                }
                out.set(k, r);
            } else {
                proof {
                    assert(!has_req(out@, r.id@));
                }
                out.push(r);
            }
        }
        proof {
            assert(input.take(input.len() as int) =~= input);
        }
        TraceGraph { requirements: out, code_refs, links }
    }

    /// The requirements of the graph.
    pub fn requirements(&self) -> (r: &[Requirement])
        ensures
            r@ == self.reqs(),
    {
        self.requirements.as_slice()
    }

    /// The code references of the graph.
    pub fn code_refs(&self) -> (r: &[CodeRef])
        ensures
            r@ == self.refs(),
    {
        self.code_refs.as_slice()
    }

    /// The links of the graph.
    pub fn links(&self) -> (r: &[Link])
        ensures
            r@ == self.link_list(),
    {
        self.links.as_slice()
    }

    /// Position of the requirement with this id.
    pub(crate) fn find_index(&self, id: &String) -> (r: Option<usize>)
        requires
            self.wf(),
        ensures
            match r {
                Some(k) => has_req(self.reqs(), id@) && k == id_index(self.reqs(), id@) && k
                    < self.reqs().len(),
                None => !has_req(self.reqs(), id@),
            },
    {
        let mut k: usize = 0;
        while k < self.requirements.len() && !(self.requirements[k].id == *id)
            invariant
                k <= self.reqs().len(),
                self.reqs() == self.requirements@,
                forall|j: int| 0 <= j < k ==> self.reqs()[j].id@ != id@,
            decreases self.requirements.len() - k,
        {
            k = k + 1;
        }
        if k < self.requirements.len() {
            proof {
                lemma_id_index_unique(self.reqs(), k as int);
            }
            Some(k)
        } else {
            None
        }
    }

    /// True if a requirement with this id is in the graph.
    pub fn contains(&self, id: &str) -> (b: bool)
        requires
            self.wf(),
        ensures
            b == has_req(self.reqs(), id@),
    {
        let key = id.to_owned();
        self.find_index(&key).is_some()
    }

    /// Get a requirement by ID.
    pub fn get_requirement(&self, id: &str) -> (r: Option<&Requirement>)
        requires
            self.wf(),
        ensures
            match r {
                Some(q) => has_req(self.reqs(), id@) && *q == self.reqs()[id_index(
                    self.reqs(),
                    id@,
                )],
                None => !has_req(self.reqs(), id@),
            },
    {
        let key = id.to_owned();
        match self.find_index(&key) {
            Some(k) => Some(&self.requirements[k]),
            None => None,
        }
    }

    /// Some requirement names `id` as its parent.
    fn has_child_exec(&self, id: &String) -> (b: bool)
        ensures
            b == has_child(self.reqs(), id@),
    {
        let mut k: usize = 0;
        while k < self.requirements.len()
            invariant
                k <= self.reqs().len(),
                self.reqs() == self.requirements@,
                forall|j: int| 0 <= j < k ==> !is_child_of(#[trigger] self.reqs()[j], id@),
            decreases self.requirements.len() - k,
        {
            match &self.requirements[k].parent {
                Some(p) => {
                    if *p == *id {
                        assert(is_child_of(self.reqs()[k as int], id@));
                        return true;
                    }
                },
                None => {},
            }
            k = k + 1;
        }
        false
    }

    /// Some code reference names `id`.
    fn has_code_exec(&self, id: &String) -> (b: bool)
        ensures
            b == has_code(self.refs(), id@),
    {
        let mut k: usize = 0;
        while k < self.code_refs.len()
            invariant
                k <= self.refs().len(),
                self.refs() == self.code_refs@,
                forall|j: int| 0 <= j < k ==> #[trigger] self.refs()[j].req_id@ != id@,
            decreases self.code_refs.len() - k,
        {
            if self.code_refs[k].req_id == *id {
                return true;
            }
            k = k + 1;
        }
        false
    }

    /// Some `Verifies` link targets `id`.
    fn is_verified_exec(&self, id: &String) -> (b: bool)
        ensures
            b == is_verified(self.link_list(), id@),
    {
        let mut k: usize = 0;
        while k < self.links.len()
            invariant
                k <= self.link_list().len(),
                self.link_list() == self.links@,
                forall|j: int|
                    0 <= j < k ==> !((#[trigger] self.link_list()[j]).link_type == LinkType::Verifies
                        && self.link_list()[j].target@ == id@),
            decreases self.links.len() - k,
        {
            let l = &self.links[k];
            if l.link_type == LinkType::Verifies && l.target == *id {
                return true;
            }
            k = k + 1;
        }
        false
    }

    /// Get the children of a requirement (the requirements whose parent is
    /// `id`), in graph order.
    pub fn get_children(&self, id: &str) -> (r: Vec<&Requirement>)
        ensures
            derefs(r@) == children_of(self.reqs(), id@),
    {
        let key = id.to_owned();
        let mut out: Vec<&Requirement> = Vec::new();
        let mut k: usize = 0;
        while k < self.requirements.len()
            invariant
                k <= self.reqs().len(),
                self.reqs() == self.requirements@,
                key@ == id@,
                derefs(out@) == children_of(self.reqs().take(k as int), id@),
            decreases self.requirements.len() - k,
        {
            let q = &self.requirements[k];
            proof {
                let t = self.reqs().take(k as int);
                assert(self.reqs().take(k + 1) =~= t.push(*q));
                t.lemma_filter_push(*q, child_pred(id@));
            }
            let is_child = match &q.parent {
                Some(p) => *p == key,
                None => false,
            };
            if is_child {
                out.push(q);
            }
            proof {
                assert(derefs(out@) =~= children_of(self.reqs().take(k + 1), id@));
            }
            k = k + 1;
        }
        proof {
            assert(self.reqs().take(k as int) =~= self.reqs());
        }
        out
    }

    /// Get the parent of a requirement.
    pub fn get_parent(&self, id: &str) -> (r: Option<&Requirement>)
        requires
            self.wf(),
        ensures
            match parent_of(self.reqs(), id@) {
                Some(k) => r matches Some(q) && *q == self.reqs()[k],
                None => r is None,
            },
    {
        let key = id.to_owned();
        match self.find_index(&key) {
            Some(k) => match &self.requirements[k].parent {
                Some(p) => match self.find_index(p) {
                    Some(j) => Some(&self.requirements[j]),
                    None => None,
                },
                None => None,
            },
            None => None,
        }
    }

    /// Get the code references for a requirement, in graph order.
    pub fn get_code_refs(&self, id: &str) -> (r: Vec<&CodeRef>)
        ensures
            derefs(r@) == refs_of(self.refs(), id@),
    {
        let key = id.to_owned();
        let mut out: Vec<&CodeRef> = Vec::new();
        let mut k: usize = 0;
        while k < self.code_refs.len()
            invariant
                k <= self.refs().len(),
                self.refs() == self.code_refs@,
                key@ == id@,
                derefs(out@) == refs_of(self.refs().take(k as int), id@),
            decreases self.code_refs.len() - k,
        {
            let c = &self.code_refs[k];
            proof {
                let t = self.refs().take(k as int);
                assert(self.refs().take(k + 1) =~= t.push(*c));
                t.lemma_filter_push(*c, ref_pred(id@));
            }
            if c.req_id == key {
                out.push(c);
            }
            proof {
                assert(derefs(out@) =~= refs_of(self.refs().take(k + 1), id@));
            }
            k = k + 1;
        }
        proof {
            assert(self.refs().take(k as int) =~= self.refs());
        }
        out
    }

    /// Check if a requirement has any code implementation.
    pub fn is_implemented(&self, id: &str) -> (b: bool)
        ensures
            b == has_code(self.refs(), id@),
    {
        let key = id.to_owned();
        self.has_code_exec(&key)
    }

    /// The requirement `id` exists and is an LLR.
    fn is_llr_exec(&self, id: &String) -> (b: bool)
        requires
            self.wf(),
        ensures
            b == is_llr(self.reqs(), id@),
    {
        match self.find_index(id) {
            Some(k) => self.requirements[k].req_type == RequirementType::Llr,
            None => false,
        }
    }

    /// Calculate coverage statistics from the graph: HLR and LLR totals,
    /// HLRs with at least one child, LLRs named by some code reference, and
    /// LLRs that some `Verifies` link targets (each LLR once, however many
    /// links verify it).  `orphan_code` is 0.
    pub fn calculate_coverage(&self) -> (c: Coverage)
        requires
            self.wf(),
        ensures
            c.hlr_total == self.reqs().filter(type_pred(RequirementType::Hlr)).len(),
            c.hlr_with_llr == self.reqs().filter(linked_hlr_pred(self.reqs())).len(),
            c.llr_total == self.reqs().filter(type_pred(RequirementType::Llr)).len(),
            c.llr_implemented == self.reqs().filter(implemented_llr_pred(self.refs())).len(),
            c.llr_tested == self.reqs().filter(tested_llr_pred(self.link_list())).len(),
            c.llr_tested <= c.llr_total,
            c.llr_implemented <= c.llr_total,
            c.hlr_with_llr <= c.hlr_total,
            c.orphan_code == 0,
    {
        let mut c = Coverage::zero();
        let ghost reqs = self.reqs();
        let ghost links = self.link_list();
        let mut k: usize = 0;
        while k < self.requirements.len()
            invariant
                k <= reqs.len(),
                reqs == self.requirements@,
                reqs == self.reqs(),
                links == self.link_list(),
                c.hlr_total == reqs.take(k as int).filter(type_pred(RequirementType::Hlr)).len(),
                c.hlr_with_llr == reqs.take(k as int).filter(linked_hlr_pred(reqs)).len(),
                c.llr_total == reqs.take(k as int).filter(type_pred(RequirementType::Llr)).len(),
                c.llr_implemented == reqs.take(k as int).filter(
                    implemented_llr_pred(self.refs()),
                ).len(),
                c.llr_tested == reqs.take(k as int).filter(tested_llr_pred(links)).len(),
                c.llr_tested <= c.llr_total,
                c.llr_implemented <= c.llr_total,
                c.hlr_with_llr <= c.hlr_total,
                c.orphan_code == 0,
            decreases self.requirements.len() - k,
        {
            let q = &self.requirements[k];
            proof {
                let t = reqs.take(k as int);
                assert(reqs.take(k + 1) =~= t.push(*q));
                t.lemma_filter_push(*q, type_pred(RequirementType::Hlr));
                t.lemma_filter_push(*q, linked_hlr_pred(reqs));
                t.lemma_filter_push(*q, type_pred(RequirementType::Llr));
                t.lemma_filter_push(*q, implemented_llr_pred(self.refs()));
                t.lemma_filter_push(*q, tested_llr_pred(links));
                t.lemma_filter_len(type_pred(RequirementType::Hlr));
                t.lemma_filter_len(linked_hlr_pred(reqs));
                t.lemma_filter_len(type_pred(RequirementType::Llr));
                t.lemma_filter_len(implemented_llr_pred(self.refs()));
                t.lemma_filter_len(tested_llr_pred(links));
            }
            match q.req_type {
                RequirementType::Hlr => {
                    c.hlr_total = c.hlr_total + 1;
                    if self.has_child_exec(&q.id) {
                        c.hlr_with_llr = c.hlr_with_llr + 1;
                    }
                },
                RequirementType::Llr => {
                    c.llr_total = c.llr_total + 1;
                    if self.has_code_exec(&q.id) {
                        c.llr_implemented = c.llr_implemented + 1;
                    }
                    if self.is_verified_exec(&q.id) {
                        c.llr_tested = c.llr_tested + 1;
                    }
                },
                RequirementType::Tst => {},
            }
            k = k + 1;
        }
        proof {
            assert(reqs.take(k as int) =~= reqs);
        }
        c
    }

    /// Find all traceability gaps.  Each list is sorted in the order of
    /// `String`; the import lists are empty.
    pub fn find_gaps(&self) -> (g: TraceGaps)
        requires
            self.wf(),
        ensures
            views(g.hlr_without_llr@) == sorted_ids(hlr_gap_ids(self.reqs())),
            views(g.llr_without_parent@) == sorted_ids(llr_orphan_ids(self.reqs())),
            views(g.llr_missing_parent@) == sorted_ids(llr_missing_parent_ids(self.reqs())),
            views(g.llr_without_code@) == sorted_ids(llr_uncoded_ids(self.reqs(), self.refs())),
            views(g.undefined_ids@) == sorted_ids(undefined_link_ids(self.reqs(), self.link_list())),
            views(g.code_refs_undefined@) == sorted_ids(undefined_ref_ids(self.reqs(), self.refs())),
            g.import_stale@.len() == 0,
            g.import_orphaned@.len() == 0,
    {
        let ghost reqs = self.reqs();
        let ghost refs = self.refs();
        let mut hlr: Vec<String> = Vec::new();
        let mut orphan: Vec<String> = Vec::new();
        let mut missing: Vec<String> = Vec::new();
        let mut uncoded: Vec<String> = Vec::new();
        let mut k: usize = 0;
        while k < self.requirements.len()
            invariant
                k <= reqs.len(),
                reqs == self.requirements@,
                reqs == self.reqs(),
                refs == self.refs(),
                self.wf(),
                views(hlr@) == reqs.take(k as int).filter(hlr_gap_pred(reqs)).map_values(id_of()),
                views(orphan@) == reqs.take(k as int).filter(llr_orphan_pred()).map_values(id_of()),
                views(missing@) == reqs.take(k as int).filter(llr_missing_parent_pred(reqs)).map_values(id_of()),
                views(uncoded@) == reqs.take(k as int).filter(llr_uncoded_pred(refs)).map_values(id_of()),
            decreases self.requirements.len() - k,
        {
            let q = &self.requirements[k];
            let ghost t = reqs.take(k as int);
            proof {
                assert(reqs.take(k + 1) =~= t.push(*q));
                t.lemma_filter_push(*q, hlr_gap_pred(reqs));
                t.lemma_filter_push(*q, llr_orphan_pred());
                t.lemma_filter_push(*q, llr_missing_parent_pred(reqs));
                t.lemma_filter_push(*q, llr_uncoded_pred(refs));
            }
            let ghost (h0, o0, m0, u0) = (hlr@, orphan@, missing@, uncoded@);
            let is_hlr_gap = q.req_type == RequirementType::Hlr && !self.has_child_exec(&q.id);
            if is_hlr_gap {
                hlr.push(q.id.clone());
                assert(views(hlr@) =~= views(h0).push(q.id@));
            }
            let is_orphan = q.req_type == RequirementType::Llr && q.parent.is_none();
            if is_orphan {
                orphan.push(q.id.clone());
                assert(views(orphan@) =~= views(o0).push(q.id@));
            }
            let is_missing = q.req_type == RequirementType::Llr && match &q.parent {
                Some(p) => self.find_index(p).is_none(),
                None => false,
            };
            if is_missing {
                missing.push(q.id.clone());
                assert(views(missing@) =~= views(m0).push(q.id@));
            }
            let is_uncoded = q.req_type == RequirementType::Llr && !self.has_code_exec(&q.id);
            if is_uncoded {
                uncoded.push(q.id.clone());
                assert(views(uncoded@) =~= views(u0).push(q.id@));
            }
            assert(is_hlr_gap == hlr_gap_pred(reqs)(*q));
            assert(is_orphan == llr_orphan_pred()(*q));
            assert(is_missing == llr_missing_parent_pred(reqs)(*q));
            assert(is_uncoded == llr_uncoded_pred(refs)(*q));
            proof {
                assert(views(hlr@) =~= reqs.take(k + 1).filter(hlr_gap_pred(reqs)).map_values(id_of()));
                assert(views(orphan@) =~= reqs.take(k + 1).filter(llr_orphan_pred()).map_values(id_of()));
                assert(views(missing@) =~= reqs.take(k + 1).filter(llr_missing_parent_pred(reqs)).map_values(id_of()));
                assert(views(uncoded@) =~= reqs.take(k + 1).filter(llr_uncoded_pred(refs)).map_values(id_of()));
            }
            k = k + 1;
        }
        proof {
            assert(reqs.take(k as int) =~= reqs);
        }
        let undefined = self.undefined_link_ids_exec();
        let refs_undefined = self.undefined_ref_ids_exec();
        TraceGaps {
            hlr_without_llr: sort_strings(&hlr),
            llr_without_parent: sort_strings(&orphan),
            llr_missing_parent: sort_strings(&missing),
            llr_without_code: sort_strings(&uncoded),
            undefined_ids: sort_strings(&undefined),
            code_refs_undefined: sort_strings(&refs_undefined),
            import_stale: Vec::new(),
            import_orphaned: Vec::new(),
        }
    }

    /// Ids named by links that are not defined, in link order.
    fn undefined_link_ids_exec(&self) -> (r: Vec<String>)
        requires
            self.wf(),
        ensures
            views(r@) == undefined_link_ids(self.reqs(), self.link_list()),
    {
        let ghost links = self.link_list();
        let mut out: Vec<String> = Vec::new();
        let mut j: usize = 0;
        while j < self.links.len()
            invariant
                j <= links.len(),
                links == self.links@,
                links == self.link_list(),
                self.wf(),
                views(out@) == undefined_link_ids(self.reqs(), links.take(j as int)),
            decreases self.links.len() - j,
        {
            let l = &self.links[j];
            proof {
                assert(links.take(j + 1).drop_last() =~= links.take(j as int));
            }
            let ghost before = views(out@);
            if l.link_type != LinkType::Verifies && self.find_index(&l.source).is_none() {
                out.push(l.source.clone());
            }
            let ghost mid = views(out@);
            if self.find_index(&l.target).is_none() {
                out.push(l.target.clone());
            }
            proof {
                assert(views(out@) =~= undefined_link_ids(self.reqs(), links.take(j + 1)));
            }
            j = j + 1;
        }
        proof {
            assert(links.take(j as int) =~= links);
        }
        out
    }

    /// Undefined ids named by code references, each once, in first-mention
    /// order.
    fn undefined_ref_ids_exec(&self) -> (r: Vec<String>)
        requires
            self.wf(),
        ensures
            views(r@) == undefined_ref_ids(self.reqs(), self.refs()),
    {
        let ghost refs = self.refs();
        let mut out: Vec<String> = Vec::new();
        let mut j: usize = 0;
        while j < self.code_refs.len()
            invariant
                j <= refs.len(),
                refs == self.code_refs@,
                refs == self.refs(),
                self.wf(),
                views(out@) == undefined_ref_ids(self.reqs(), refs.take(j as int)),
            decreases self.code_refs.len() - j,
        {
            let c = &self.code_refs[j];
            proof {
                assert(refs.take(j + 1).drop_last() =~= refs.take(j as int));
            }
            if self.find_index(&c.req_id).is_none() && !contains_string(&out, &c.req_id) {
                out.push(c.req_id.clone());
            }
            proof {
                assert(views(out@) =~= undefined_ref_ids(self.reqs(), refs.take(j + 1)));
            }
            j = j + 1;
        }
        proof {
            assert(refs.take(j as int) =~= refs);
        }
        out
    }
}

/// Gaps found in the traceability graph.
pub struct TraceGaps {
    pub hlr_without_llr: Vec<String>,
    pub llr_without_parent: Vec<String>,
    pub llr_missing_parent: Vec<String>,
    pub llr_without_code: Vec<String>,
    pub undefined_ids: Vec<String>,
    pub code_refs_undefined: Vec<String>,
    /// Requirements whose import source file has changed since import
    pub import_stale: Vec<String>,
    /// Requirements whose import source file no longer exists
    pub import_orphaned: Vec<String>,
}

impl TraceGaps {
    /// No gaps.
    pub fn new() -> (g: Self)
        ensures
            g.hlr_without_llr@.len() == 0,
            g.llr_without_parent@.len() == 0,
            g.llr_missing_parent@.len() == 0,
            g.llr_without_code@.len() == 0,
            g.undefined_ids@.len() == 0,
            g.code_refs_undefined@.len() == 0,
            g.import_stale@.len() == 0,
            g.import_orphaned@.len() == 0,
    {
        TraceGaps {
            hlr_without_llr: Vec::new(),
            llr_without_parent: Vec::new(),
            llr_missing_parent: Vec::new(),
            llr_without_code: Vec::new(),
            undefined_ids: Vec::new(),
            code_refs_undefined: Vec::new(),
            import_stale: Vec::new(),
            import_orphaned: Vec::new(),
        }
    }

    /// Every list is empty.
    pub open spec fn no_gaps(self) -> bool {
        &&& self.hlr_without_llr@.len() == 0
        &&& self.llr_without_parent@.len() == 0
        &&& self.llr_missing_parent@.len() == 0
        &&& self.llr_without_code@.len() == 0
        &&& self.undefined_ids@.len() == 0
        &&& self.code_refs_undefined@.len() == 0
        &&& self.import_stale@.len() == 0
        &&& self.import_orphaned@.len() == 0
    }

    /// True if no gaps were found.
    pub fn is_empty(&self) -> (b: bool)
        ensures
            b == self.no_gaps(),
    {
        self.hlr_without_llr.len() == 0 && self.llr_without_parent.len() == 0
            && self.llr_missing_parent.len() == 0 && self.llr_without_code.len() == 0
            && self.undefined_ids.len() == 0 && self.code_refs_undefined.len() == 0
            && self.import_stale.len() == 0 && self.import_orphaned.len() == 0
    }
}

/// "Has this import status", as a predicate on (id, status) pairs.
pub open spec fn status_pred(status: Seq<char>) -> spec_fn((String, String)) -> bool {
    |p: (String, String)| p.1@ == status
}

/// The ids flagged with `status`, in order.
pub open spec fn flagged_ids(flags: Seq<(String, String)>, status: Seq<char>) -> Seq<Seq<char>> {
    flags.filter(status_pred(status)).map_values(|p: (String, String)| p.0@)
}

impl TraceGaps {
    /// Add import staleness flags, given as (id, status) pairs: `stale`
    /// ids join `import_stale`, `orphaned` ids join `import_orphaned`,
    /// other statuses are ignored; both lists are then sorted.
    pub fn add_import_flags(&mut self, flags: &[(String, String)])
        ensures
            views(final(self).import_stale@) == sorted_ids(
                views(old(self).import_stale@) + flagged_ids(flags@, "stale"@),
            ),
            views(final(self).import_orphaned@) == sorted_ids(
                views(old(self).import_orphaned@) + flagged_ids(flags@, "orphaned"@),
            ),
            final(self).hlr_without_llr@ == old(self).hlr_without_llr@,
            final(self).llr_without_parent@ == old(self).llr_without_parent@,
            final(self).llr_missing_parent@ == old(self).llr_missing_parent@,
            final(self).llr_without_code@ == old(self).llr_without_code@,
            final(self).undefined_ids@ == old(self).undefined_ids@,
            final(self).code_refs_undefined@ == old(self).code_refs_undefined@,
    {
        proof {
            reveal_strlit("stale");
            reveal_strlit("orphaned");
        }
        let stale_word = "stale".to_owned();
        let orphaned_word = "orphaned".to_owned();
        let ghost s0 = views(self.import_stale@);
        let ghost o0 = views(self.import_orphaned@);
        let mut k: usize = 0;
        assert(flags@.take(0) =~= Seq::<(String, String)>::empty());
        while k < flags.len()
            invariant
                k <= flags@.len(),
                stale_word@ == "stale"@,
                orphaned_word@ == "orphaned"@,
                views(self.import_stale@) == s0 + flagged_ids(flags@.take(k as int), "stale"@),
                views(self.import_orphaned@) == o0 + flagged_ids(flags@.take(k as int), "orphaned"@),
                self.hlr_without_llr@ == old(self).hlr_without_llr@,
                self.llr_without_parent@ == old(self).llr_without_parent@,
                self.llr_missing_parent@ == old(self).llr_missing_parent@,
                self.llr_without_code@ == old(self).llr_without_code@,
                self.undefined_ids@ == old(self).undefined_ids@,
                self.code_refs_undefined@ == old(self).code_refs_undefined@,
                s0 == views(old(self).import_stale@),
                o0 == views(old(self).import_orphaned@),
            decreases flags.len() - k,
        {
            let ghost t = flags@.take(k as int);
            let f = &flags[k];
            proof {
                reveal_strlit("stale");
                reveal_strlit("orphaned");
                assert(flags@.take(k + 1) =~= t.push(*f));
                t.lemma_filter_push(*f, status_pred("stale"@));
                t.lemma_filter_push(*f, status_pred("orphaned"@));
            }
            let ghost sb = views(self.import_stale@);
            let ghost ob = views(self.import_orphaned@);
            if f.1 == stale_word {
                self.import_stale.push(f.0.clone());
                assert(views(self.import_stale@) =~= sb.push(f.0@));
                assert(f.1@ == "stale"@);
                assert("stale"@.len() == 5);
                assert("orphaned"@.len() == 8);
                assert(!status_pred("orphaned"@)(*f));
                assert(views(self.import_orphaned@) == ob);
            } else if f.1 == orphaned_word {
                self.import_orphaned.push(f.0.clone());
                assert(views(self.import_orphaned@) =~= ob.push(f.0@));
            }
            proof {
                assert(views(self.import_stale@) =~= s0 + flagged_ids(flags@.take(k + 1), "stale"@));
                assert(views(self.import_orphaned@) =~= o0 + flagged_ids(flags@.take(k + 1), "orphaned"@));
            }
            k = k + 1;
        }
        proof {
            assert(flags@.take(k as int) =~= flags@);
        }
        self.import_stale = sort_strings(&self.import_stale);
        self.import_orphaned = sort_strings(&self.import_orphaned);
    }
}

impl Default for TraceGaps {
    fn default() -> (g: Self)
        ensures
            g.no_gaps(),
    {
        TraceGaps::new()
    }
}

} // verus!

