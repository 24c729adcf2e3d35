//! Human-readable trace tree of one requirement: its id and title, its
//! parent, the code locations implementing it and its children.

use vstd::prelude::*;
use crate::models::{CodeRef, Requirement};
use crate::text::{decimal, decimal_usize, push_chars, push_str, string_of};
use crate::trace::{children_of, derefs, has_req, id_index, refs_of, TraceGraph};

verus! {

/// `depth` copies of two spaces.
pub open spec fn indent_of(depth: nat) -> Seq<char>
    decreases depth,
{
    if depth == 0 {
        seq![]
    } else {
        indent_of((depth - 1) as nat) + "  "@
    }
}

/// Two code references name the same location (file, line, end line).
pub open spec fn same_location(a: CodeRef, b: CodeRef) -> bool {
    a.file@ == b.file@ && a.line == b.line && a.line_end == b.line_end
}

/// No earlier reference names the same location as `refs[k]`.
pub open spec fn first_at_location(refs: Seq<CodeRef>, k: int) -> bool {
    forall|j: int| 0 <= j < k ==> !same_location(#[trigger] refs[j], refs[k])
}

/// `:line` or `:line-end`.
pub open spec fn location_suffix(c: CodeRef) -> Seq<char> {
    ":"@ + decimal(c.line as nat) + match c.line_end {
        Some(e) => "-"@ + decimal(e as nat),
        None => seq![],
    }
}

/// One line per distinct location, in order of first mention.
pub open spec fn location_lines(refs: Seq<CodeRef>, ind: Seq<char>) -> Seq<char>
    decreases refs.len(),
{
    if refs.len() == 0 {
        seq![]
    } else {
        let prev = location_lines(refs.drop_last(), ind);
        let c = refs.last();
        if first_at_location(refs, refs.len() - 1) {
            prev + "\n"@ + ind + "    - "@ + c.file@ + location_suffix(c)
        } else {
            prev
        }
    }
}

/// One line per child id.
pub open spec fn child_lines(children: Seq<Requirement>, ind: Seq<char>) -> Seq<char>
    decreases children.len(),
{
    if children.len() == 0 {
        seq![]
    } else {
        child_lines(children.drop_last(), ind) + "\n"@ + ind + "    - "@ + children.last().id@
    }
}

/// The trace tree text of the requirement `id`, if it exists.
pub open spec fn trace_tree_text(
    reqs: Seq<Requirement>,
    refs: Seq<CodeRef>,
    id: Seq<char>,
    depth: nat,
) -> Option<Seq<char>> {
    if !has_req(reqs, id) {
        None
    } else {
        let r = reqs[id_index(reqs, id)];
        let ind = indent_of(depth);
        let head = ind + r.id@ + ": "@ + r.title@;
        let parent = match r.parent {
            Some(p) => "\n"@ + ind + "  parent: "@ + p@,
            None => seq![],
        };
        let mine = refs_of(refs, id);
        let code = if mine.len() > 0 {
            "\n"@ + ind + "  implemented in:"@ + location_lines(mine, ind)
        } else {
            seq![]
        };
        let kids = children_of(reqs, id);
        let children = if kids.len() > 0 {
            "\n"@ + ind + "  children:"@ + child_lines(kids, ind)
        } else {
            seq![]
        };
        Some(head + parent + code + children)
    }
}

fn indent_chars(depth: usize) -> (r: Vec<char>)
    ensures
        r@ == indent_of(depth as nat),
{
    let mut r: Vec<char> = Vec::new();
    let mut k: usize = 0;
    while k < depth
        invariant
            k <= depth,
            r@ == indent_of(k as nat),
        decreases depth - k,
    {
        push_str(&mut r, "  ");
        k = k + 1;
    }
    r
}

fn same_location_exec(a: &CodeRef, b: &CodeRef) -> (r: bool)
    ensures
        r == same_location(*a, *b),
{
    let ends = match (a.line_end, b.line_end) {
        (Some(x), Some(y)) => x == y,
        (None, None) => true,
        _ => false,
    };
    a.file == b.file && a.line == b.line && ends
}

fn push_location_lines(w: &mut Vec<char>, refs: &Vec<&CodeRef>, ind: &Vec<char>)
    ensures
        final(w)@ == old(w)@ + location_lines(derefs(refs@), ind@),
{
    let ghost all = derefs(refs@);
    let ghost start = w@;
    let mut k: usize = 0;
    while k < refs.len()
        invariant
            k <= refs@.len(),
            all == derefs(refs@),
            w@ == start + location_lines(all.take(k as int), ind@),
        decreases refs.len() - k,
    {
        let c = refs[k];
        let mut first = true;
        let mut j: usize = 0;
        while j < k
            invariant
                j <= k,
                k < refs@.len(),
                all == derefs(refs@),
                *c == all[k as int],
                first ==> (forall|x: int| 0 <= x < j ==> !same_location(#[trigger] all[x], all[k as int])),
                !first ==> (exists|x: int| 0 <= x < j && same_location(#[trigger] all[x], all[k as int])),
            decreases k - j,
        {
            assert(all[j as int] == *refs@[j as int]);
            if same_location_exec(refs[j], c) {
                first = false;
            }
            j = j + 1;
        }
        let ghost before = w@;
        proof {
            let t = all.take(k + 1);
            assert(t.drop_last() =~= all.take(k as int));
            assert(first == first_at_location(t, k as int)) by {
                assert forall|x: int| 0 <= x < k implies t[x] == all[x] by {}
            }
        }
        if first {
            push_str(w, "\n");
            push_chars(w, ind.as_slice());
            push_str(w, "    - ");
            push_str(w, c.file.as_str());
            push_str(w, ":");
            let d = decimal_usize(c.line);
            push_chars(w, d.as_slice());
            match c.line_end {
                Some(e) => {
                    push_str(w, "-");
                    let de = decimal_usize(e);
                    push_chars(w, de.as_slice());
                },
                None => {},
            }
            assert(w@ =~= before + "\n"@ + ind@ + "    - "@ + c.file@ + location_suffix(*c));
        }
        proof {
            assert(w@ =~= start + location_lines(all.take(k + 1), ind@));
        }
        k = k + 1;
    }
    proof {
        assert(all.take(k as int) =~= all);
    }
}

fn push_child_lines(w: &mut Vec<char>, kids: &Vec<&Requirement>, ind: &Vec<char>)
    ensures
        final(w)@ == old(w)@ + child_lines(derefs(kids@), ind@),
{
    let ghost all = derefs(kids@);
    let ghost start = w@;
    let mut k: usize = 0;
    while k < kids.len()
        invariant
            k <= kids@.len(),
            all == derefs(kids@),
            w@ == start + child_lines(all.take(k as int), ind@),
        decreases kids.len() - k,
    {
        let ghost before = w@;
        push_str(w, "\n");
        push_chars(w, ind.as_slice());
        push_str(w, "    - ");
        push_str(w, kids[k].id.as_str());
        proof {
            let t = all.take(k + 1);
            assert(t.drop_last() =~= all.take(k as int));
            assert(w@ =~= start + child_lines(t, ind@));
        }
        k = k + 1;
    }
    proof {
        assert(all.take(k as int) =~= all);
    }
}

impl TraceGraph {
    /// Generate a human-readable trace tree for a requirement, indented by
    /// `depth` levels; `None` if the requirement does not exist.
    pub fn trace_tree(&self, req_id: &str, depth: usize) -> (r: Option<String>)
        requires
            self.wf(),
        ensures
            match trace_tree_text(self.reqs(), self.refs(), req_id@, depth as nat) {
                Some(t) => r matches Some(s) && s@ == t,
                None => r is None,
            },
    {
        let req = match self.get_requirement(req_id) {
            Some(q) => q,
            None => {
                return None;
            },
        };
        let ind = indent_chars(depth);
        let mut w: Vec<char> = Vec::new();
        push_chars(&mut w, ind.as_slice());
        push_str(&mut w, req.id.as_str());
        push_str(&mut w, ": ");
        push_str(&mut w, req.title.as_str());
        let ghost head = w@;
        match &req.parent {
            Some(p) => {
                push_str(&mut w, "\n");
                push_chars(&mut w, ind.as_slice());
                push_str(&mut w, "  parent: ");
                push_str(&mut w, p.as_str());
            },
            None => {},
        }
        let ghost after_parent = w@;
        let refs = self.get_code_refs(req_id);
        if refs.len() > 0 {
            push_str(&mut w, "\n");
            push_chars(&mut w, ind.as_slice());
            push_str(&mut w, "  implemented in:");
            push_location_lines(&mut w, &refs, &ind);
        }
        let ghost after_code = w@;
        let kids = self.get_children(req_id);
        if kids.len() > 0 {
            push_str(&mut w, "\n");
            push_chars(&mut w, ind.as_slice());
            push_str(&mut w, "  children:");
            push_child_lines(&mut w, &kids, &ind);
        }
        proof {
            let reqs = self.reqs();
            let t = trace_tree_text(reqs, self.refs(), req_id@, depth as nat);
            assert(t is Some);
            assert(w@ =~= t->0);
        }
        Some(string_of(w.as_slice()))
    }
}

} // verus!
