//! Sorted, duplicate-free string lists: what a `BTreeSet<String>` yields.
use vstd::prelude::*;

use crate::text::{
    copy_string, lemma_lex_transitive, lemma_lex_trichotomy, lex_lt, str_eq, str_lex_lt,
    strings_view,
};

verus! {

/// Strictly increasing in `String` order, hence free of duplicates.
pub open spec fn strictly_sorted(s: Seq<Seq<char>>) -> bool {
    forall|i: int, j: int| 0 <= i < j < s.len() ==> lex_lt(#[trigger] s[i], #[trigger] s[j])
}

/// The two lists hold the same strings.
pub open spec fn same_members(a: Seq<Seq<char>>, b: Seq<Seq<char>>) -> bool {
    forall|x: Seq<char>| a.contains(x) <==> b.contains(x)
}

/// Adds `x` to a strictly sorted list unless it is already there.
pub fn insert_unique(out: &mut Vec<String>, x: String)
    requires
        strictly_sorted(strings_view(old(out)@)),
    ensures
        strictly_sorted(strings_view(final(out)@)),
        forall|y: Seq<char>|
            strings_view(final(out)@).contains(y) <==> (strings_view(old(out)@).contains(y) || y
                == x@),
{
    let ghost s = strings_view(out@);
    let mut k: usize = 0;
    while k < out.len() && str_lex_lt(out[k].as_str(), x.as_str())
        invariant
            k <= out.len(),
            s == strings_view(out@),
            forall|i: int| 0 <= i < k ==> lex_lt(#[trigger] s[i], x@),
        decreases out.len() - k,
    {
        k += 1;
    }
    if k < out.len() && str_eq(out[k].as_str(), x.as_str()) {
        assert(s[k as int] == x@);
        return;
    }
    proof {
        if k < out.len() {
            lemma_lex_trichotomy(s[k as int], x@);
        }
    }
    let ghost xv = x@;
    out.insert(k, x);
    let ghost t = strings_view(out@);
    assert(t =~= s.insert(k as int, xv));
    proof {
        s.insert_ensures(k as int, xv);
        assert forall|i: int, j: int| 0 <= i < j < t.len() implies lex_lt(
            #[trigger] t[i],
            #[trigger] t[j],
        ) by {
            if j < k {
            } else if j == k {
            } else if i < k {
                assert(t[j] == s[j - 1]);
                if j - 1 > k {
                    lemma_lex_transitive(xv, s[k as int], s[j - 1]);
                }
                lemma_lex_transitive(t[i], xv, t[j]);
            } else if i == k {
                assert(t[j] == s[j - 1]);
                if j - 1 > k {
                    lemma_lex_transitive(xv, s[k as int], s[j - 1]);
                }
            } else {
                assert(t[i] == s[i - 1]);
                assert(t[j] == s[j - 1]);
            }
        }
        assert forall|y: Seq<char>| t.contains(y) <==> (s.contains(y) || y == xv) by {
            if t.contains(y) {
                let i = choose|i: int| 0 <= i < t.len() && t[i] == y;
                if i < k {
                    assert(s[i] == y);
                } else if i > k {
                    assert(s[i - 1] == y);
                }
            }
            if s.contains(y) {
                let i = choose|i: int| 0 <= i < s.len() && s[i] == y;
                if i < k {
                    assert(t[i] == y);
                } else {
                    assert(t[i + 1] == y);
                }
            }
            if y == xv {
                assert(t[k as int] == y);
            }
        }
    }
}

/// `v.into_iter().collect::<BTreeSet<_>>().into_iter().collect()`: the
/// distinct strings of `v`, in increasing order.
pub fn sorted_unique(v: &Vec<String>) -> (out: Vec<String>)
    ensures
        strictly_sorted(strings_view(out@)),
        same_members(strings_view(out@), strings_view(v@)),
{
    let mut out: Vec<String> = Vec::new();
    let mut i: usize = 0;
    while i < v.len()
        invariant
            i <= v.len(),
            strictly_sorted(strings_view(out@)),
            same_members(strings_view(out@), strings_view(v@.subrange(0, i as int))),
        decreases v.len() - i,
    {
        let ghost before = strings_view(out@);
        insert_unique(&mut out, copy_string(v[i].as_str()));
        proof {
            let p = strings_view(v@.subrange(0, i as int));
            let q = strings_view(v@.subrange(0, i + 1));
            assert(q =~= p.push(v@[i as int]@));
            assert forall|y: Seq<char>| strings_view(out@).contains(y) <==> q.contains(y) by {
                if q.contains(y) {
                    let j = choose|j: int| 0 <= j < q.len() && q[j] == y;
                    if j < p.len() {
                        assert(p[j] == y);
                    }
                }
                if p.contains(y) {
                    let j = choose|j: int| 0 <= j < p.len() && p[j] == y;
                    assert(q[j] == y);
                }
                if y == v@[i as int]@ {
                    assert(q[i as int] == y);
                }
            }
        }
        i += 1;
    }
    assert(v@.subrange(0, v.len() as int) =~= v@);
    out
}

/// Adds every string of `items` to a strictly sorted list, keeping it
/// strictly sorted.
pub fn insert_all(out: &mut Vec<String>, items: &Vec<String>)
    requires
        strictly_sorted(strings_view(old(out)@)),
    ensures
        strictly_sorted(strings_view(final(out)@)),
        forall|y: Seq<char>|
            #![trigger strings_view(final(out)@).contains(y)]
            strings_view(final(out)@).contains(y) <==> (strings_view(old(out)@).contains(y)
                || strings_view(items@).contains(y)),
{
    let ghost start = strings_view(out@).to_set();
    let mut i: usize = 0;
    while i < items.len()
        invariant
            i <= items.len(),
            strictly_sorted(strings_view(out@)),
            strings_view(out@).to_set() == start.union(strings_view(items@.subrange(0, i as int)).to_set()),
        decreases items.len() - i,
    {
        let ghost before = strings_view(out@);
        let item = copy_string(items[i].as_str());
        assert(item@ == items@[i as int]@);
        insert_unique(out, item);
        proof {
            let after = strings_view(out@);
            let p = strings_view(items@.subrange(0, i as int));
            let q = strings_view(items@.subrange(0, i + 1));
            assert(q =~= p.push(items@[i as int]@));
            assert forall|y: Seq<char>| after.contains(y) <==> (start.contains(y) || q.contains(y)) by {
                assert(before.to_set().contains(y) == before.contains(y));
                assert(p.to_set().contains(y) == p.contains(y));
                if q.contains(y) && y != items@[i as int]@ {
                    let j = choose|j: int| 0 <= j < q.len() && q[j] == y;
                    assert(j < p.len());
                    assert(p[j] == y);
                }
                if p.contains(y) {
                    let j = choose|j: int| 0 <= j < p.len() && p[j] == y;
                    assert(q[j] == y);
                }
                if y == items@[i as int]@ {
                    assert(q[i as int] == y);
                }
            }
            assert(after.to_set() =~= start.union(q.to_set()));
        }
        i += 1;
    }
    assert(items@.subrange(0, items.len() as int) =~= items@);
    proof {
        let fin = strings_view(out@);
        assert forall|y: Seq<char>| fin.contains(y) <==> (start.contains(y) || strings_view(items@).contains(y)) by {
            assert(fin.to_set().contains(y) == fin.contains(y));
        }
    }
}

} // verus!
