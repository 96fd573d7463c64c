//! A stable sort on keyed items, and the facts about permutations it needs.

use vstd::prelude::*;
use vstd::multiset::Multiset;
use crate::text::{lemma_lex_total, lex_le, lex_le_exec};

verus! {

broadcast use vstd::seq_lib::group_to_multiset_ensures;

/// Keys never increase along the sequence.
pub open spec fn sorted_desc<T>(s: Seq<(i128, T)>) -> bool {
    forall|i: int, j: int| 0 <= i < j < s.len() ==> s[i].0 >= s[j].0
}

/// Two sequences with the same elements keep the same elements under a map.
pub proof fn lemma_map_multiset<A, B>(a: Seq<A>, b: Seq<A>, f: spec_fn(A) -> B)
    requires
        a.to_multiset() == b.to_multiset(),
    ensures
        a.map_values(f).to_multiset() == b.map_values(f).to_multiset(),
    decreases a.len(),
{
    if a.len() == 0 {
        assert(b.to_multiset().len() == 0);
        assert(b.len() == 0);
        assert(a.map_values(f) =~= Seq::<B>::empty());
        assert(b.map_values(f) =~= Seq::<B>::empty());
    } else {
        let x = a.last();
        assert(a.to_multiset().count(x) > 0) by {
            assert(a =~= a.drop_last().push(x));
        }
        assert(b.to_multiset().contains(x));
        let j = choose|j: int| 0 <= j < b.len() && b[j] == x;
        let a2 = a.drop_last();
        let b2 = b.remove(j);
        assert(a =~= a2.push(x));
        assert(a2.to_multiset() =~= b2.to_multiset());
        lemma_map_multiset(a2, b2, f);
        assert(a.map_values(f) =~= a2.map_values(f).push(f(x)));
        assert(b2.map_values(f) =~= b.map_values(f).remove(j));
        assert(b.map_values(f)[j] == f(x));
    }
}

/// The items ordered by key, largest first; items with equal keys keep their
/// relative order.
pub fn sort_by_key_desc<T>(items: Vec<(i128, T)>) -> (r: Vec<(i128, T)>)
    ensures
        sorted_desc(r@),
        r@.to_multiset() == items@.to_multiset(),
{
    let mut rest = items;
    let mut out: Vec<(i128, T)> = Vec::new();
    while rest.len() > 0
        invariant
            sorted_desc(out@),
            out@.to_multiset().add(rest@.to_multiset()) == items@.to_multiset(),
        decreases rest@.len(),
    {
        let ghost r0 = rest@;
        let item = rest.remove(0);
        assert(r0 =~= seq![item].add(rest@));
        assert(r0.to_multiset() =~= rest@.to_multiset().insert(item)) by {
            vstd::seq_lib::lemma_multiset_commutative(seq![item], rest@);
            assert(seq![item].to_multiset() =~= Multiset::<(i128, T)>::empty().insert(item)) by {
                assert(seq![item] =~= Seq::<(i128, T)>::empty().push(item));
            }
        }
        let key = item.0;
        let mut p: usize = 0;
        while p < out.len() && out[p].0 >= key
            invariant
                p <= out@.len(),
                forall|i: int| 0 <= i < p ==> out@[i].0 >= key,
            decreases out@.len() - p,
        {
            p = p + 1;
        }
        let ghost o = out@;
        out.insert(p, item);
        assert(out@ == o.insert(p as int, item));
        assert(sorted_desc(out@)) by {
            assert forall|i: int, j: int| 0 <= i < j < out@.len() implies out@[i].0 >= out@[j].0 by {
                if j < p {
                } else if j == p {
                } else if i < p {
                    assert(o[i].0 >= o[j - 1].0);
                } else if i == p {
                    if p < o.len() {
                        assert(o[p as int].0 < key);
                        assert(o[p as int].0 >= o[j - 1].0 || j - 1 == p);
                    }
                } else {
                }
            }
        }
    }
    assert(rest@.to_multiset() =~= Multiset::<(i128, T)>::empty()) by {
        assert(rest@ =~= Seq::<(i128, T)>::empty());
    }
    out
}

/// Neighbouring names are in dictionary order.
pub open spec fn sorted_by_name<T>(s: Seq<(String, T)>) -> bool {
    forall|i: int| 0 <= i < s.len() - 1 ==> lex_le((#[trigger] s[i]).0@, s[i + 1].0@)
}

/// The items ordered by name; items with equal names keep their relative order.
pub fn sort_by_name<T>(items: Vec<(String, T)>) -> (r: Vec<(String, T)>)
    ensures
        sorted_by_name(r@),
        r@.to_multiset() == items@.to_multiset(),
{
    let mut rest = items;
    let mut out: Vec<(String, T)> = Vec::new();
    while rest.len() > 0
        invariant
            sorted_by_name(out@),
            out@.to_multiset().add(rest@.to_multiset()) == items@.to_multiset(),
        decreases rest@.len(),
    {
        let ghost r0 = rest@;
        let item = rest.remove(0);
        assert(r0 =~= seq![item].add(rest@));
        assert(r0.to_multiset() =~= rest@.to_multiset().insert(item)) by {
            vstd::seq_lib::lemma_multiset_commutative(seq![item], rest@);
            assert(seq![item].to_multiset() =~= Multiset::<(String, T)>::empty().insert(item)) by {
                assert(seq![item] =~= Seq::<(String, T)>::empty().push(item));
            }
        }
        let mut p: usize = 0;
        while p < out.len() && lex_le_exec(out[p].0.as_str(), item.0.as_str())
            invariant
                p <= out@.len(),
                p > 0 ==> lex_le(out@[p - 1].0@, item.0@),
            decreases out@.len() - p,
        {
            p = p + 1;
        }
        let ghost o = out@;
        proof {
            if p < o.len() {
                lemma_lex_total(o[p as int].0@, item.0@);
            }
        }
        out.insert(p, item);
        assert(out@ == o.insert(p as int, item));
        assert(sorted_by_name(out@)) by {
            assert forall|i: int| 0 <= i < out@.len() - 1 implies lex_le(
                (#[trigger] out@[i]).0@,
                out@[i + 1].0@,
            ) by {
                if i + 1 < p {
                    assert(out@[i] == o[i] && out@[i + 1] == o[i + 1]);
                } else if i + 1 == p {
                } else if i == p {
                } else {
                    assert(out@[i] == o[i - 1] && out@[i + 1] == o[i]);
                }
            }
        }
    }
    assert(rest@.to_multiset() =~= Multiset::<(String, T)>::empty()) by {
        assert(rest@ =~= Seq::<(String, T)>::empty());
    }
    out
}

/// The first and the second components of each pair, in order.
pub fn split_pairs<A, B>(v: Vec<(A, B)>) -> (r: (Vec<A>, Vec<B>))
    ensures
        r.0@.len() == v@.len(),
        r.1@.len() == v@.len(),
        forall|i: int| 0 <= i < v@.len() ==> r.0@[i] == (#[trigger] v@[i]).0 && r.1@[i] == v@[i].1,
{
    let mut rest = v;
    let mut xs: Vec<A> = Vec::new();
    let mut ys: Vec<B> = Vec::new();
    let mut done: usize = 0;
    let total = rest.len();
    let ghost s = rest@;
    while rest.len() > 0
        invariant
            done + rest@.len() == total,
            total == s.len(),
            s == v@,
            rest@ == s.subrange(done as int, total as int),
            xs@.len() == done,
            ys@.len() == done,
            forall|i: int| 0 <= i < done ==> xs@[i] == (#[trigger] s[i]).0 && ys@[i] == s[i].1,
        decreases rest@.len(),
    {
        let (a, b) = rest.remove(0);
        xs.push(a);
        ys.push(b);
        done = done + 1;
        assert(rest@ =~= s.subrange(done as int, total as int));
    }
    (xs, ys)
}

} // verus!
