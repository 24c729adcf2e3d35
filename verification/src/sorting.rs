//! Sorting of identifier lists in the order of `String` (code point order).
//!
//! The sorted result is stated as `Seq::sort_by` of the input's character
//! sequences under `id_order()`, a total order, so it is unique.

use vstd::prelude::*;
use vstd::relations::*;
use crate::models::{lex_lt, lemma_lex_trichotomy, lemma_lex_transitive, string_less};

verus! {

/// `a` sorts at or before `b`.
pub open spec fn seq_leq(a: Seq<char>, b: Seq<char>) -> bool {
    a == b || lex_lt(a, b)
}

/// The order of `String`s, on their characters.
pub open spec fn id_order() -> spec_fn(Seq<char>, Seq<char>) -> bool {
    |a: Seq<char>, b: Seq<char>| seq_leq(a, b)
}

/// The characters of each string.
pub open spec fn views(s: Seq<String>) -> Seq<Seq<char>> {
    s.map_values(|x: String| x@)
}

/// `id_order()` is a total order.
pub proof fn lemma_id_order_total()
    ensures
        total_ordering(id_order()),
{
    let r = id_order();
    assert forall|a: Seq<char>| #[trigger] r(a, a) by {}
    assert forall|a: Seq<char>, b: Seq<char>| #![trigger r(a, b)] r(a, b) && r(b, a) implies a
        == b by {
        lemma_lex_trichotomy(a, b);
    }
    assert forall|a: Seq<char>, b: Seq<char>, c: Seq<char>|
        #[trigger] r(a, b) && #[trigger] r(b, c) implies r(a, c) by {
        if lex_lt(a, b) && lex_lt(b, c) {
            lemma_lex_transitive(a, b, c);
        }
    }
    assert forall|a: Seq<char>, b: Seq<char>| #[trigger] r(a, b) || #[trigger] r(b, a) by {
        lemma_lex_trichotomy(a, b);
    }
}

/// Inserting an element adds it to the multiset of a sequence.
pub proof fn lemma_insert_to_multiset<A>(s: Seq<A>, k: int, a: A)
    requires
        0 <= k <= s.len(),
    ensures
        s.insert(k, a).to_multiset() =~= s.to_multiset().insert(a),
{
    broadcast use vstd::seq_lib::group_to_multiset_ensures;
    broadcast use vstd::multiset::group_multiset_axioms;

    let t = s.insert(k, a);
    assert(t.remove(k) =~= s);
    assert(t[k] == a);
    assert(t.contains(a));
}

/// The views of a string vector after `insert`.
pub proof fn lemma_views_insert(s: Seq<String>, k: int, x: String)
    requires
        0 <= k <= s.len(),
    ensures
        views(s.insert(k, x)) =~= views(s).insert(k, x@),
{
}

/// Sort strings into the order of `String` (ascending, duplicates kept).
pub fn sort_strings(v: &Vec<String>) -> (r: Vec<String>)
    ensures
        views(r@) == views(v@).sort_by(id_order()),
{
    proof {
        lemma_id_order_total();
    }
    let mut out: Vec<String> = Vec::new();
    let mut i: usize = 0;
    assert(views(out@) =~= views(v@).take(0));
    while i < v.len()
        invariant
            i <= v@.len(),
            total_ordering(id_order()),
            sorted_by(views(out@), id_order()),
            views(out@).to_multiset() == views(v@).take(i as int).to_multiset(),
        decreases v.len() - i,
    {
        let x = v[i].clone();
        let mut k: usize = 0;
        while k < out.len() && !string_less(&x, &out[k])
            invariant
                k <= out@.len(),
                total_ordering(id_order()),
                forall|j: int| 0 <= j < k ==> seq_leq(#[trigger] out@[j]@, x@),
            decreases out.len() - k,
        {
            proof {
                lemma_lex_trichotomy(x@, out@[k as int]@);
            }
            k = k + 1;
        }
        proof {
            let s = views(out@);
            assert forall|j: int| k <= j < s.len() implies seq_leq(x@, #[trigger] s[j]) by {
                assert(lex_lt(x@, s[k as int]));
                if j > k {
                    assert(id_order()(s[k as int], s[j]));
                    if lex_lt(s[k as int], s[j]) {
                        lemma_lex_transitive(x@, s[k as int], s[j]);
                    }
                }
            }
        }
        let ghost before = out@;
        out.insert(k, x);
        proof {
            lemma_views_insert(before, k as int, x);
            lemma_insert_to_multiset(views(before), k as int, x@);
            let s = views(out@);
            let b = views(before);
            assert forall|p: int, q: int| 0 <= p < q < s.len() implies #[trigger] id_order()(
                s[p],
                s[q],
            ) by {
                if q < k {
                    assert(id_order()(b[p], b[q]));
                } else if p > k {
                    assert(id_order()(b[p - 1], b[q - 1]));
                } else if p == k {
                } else {
                    if q == k {
                    } else {
                        assert(seq_leq(b[p], x@));
                        assert(seq_leq(x@, b[q - 1]));
                    }
                }
            }
            assert(views(v@).take(i + 1) =~= views(v@).take(i as int).push(x@));
            broadcast use vstd::seq_lib::group_to_multiset_ensures;

        }
        i = i + 1;
    }
    proof {
        assert(views(v@).take(i as int) =~= views(v@));
        views(v@).lemma_sort_by_ensures(id_order());
        vstd::seq_lib::lemma_sorted_unique(views(out@), views(v@).sort_by(id_order()), id_order());
    }
    out
}

} // verus!
