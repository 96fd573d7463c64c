//! An insertion-ordered table keyed by strings, with at most one entry per key.

use vstd::prelude::*;
use crate::text::str_eq;

verus! {

/// Entries in insertion order; a key is replaced in place when inserted again.
#[derive(Debug, Clone)]
pub struct Table<V> {
    pub entries: Vec<(String, V)>,
}

/// Every key occurs at most once.
pub open spec fn keys_unique<V>(s: Seq<(String, V)>) -> bool {
    forall|i: int, j: int| 0 <= i < j < s.len() ==> s[i].0@ != s[j].0@
}

/// Some entry of `s` has key `k`.
pub open spec fn has_key<V>(s: Seq<(String, V)>, k: Seq<char>) -> bool {
    exists|i: int| 0 <= i < s.len() && s[i].0@ == k
}

/// One of the first `n` entries of `s` has key `k`.
pub open spec fn in_prefix<V>(s: Seq<(String, V)>, n: int, k: Seq<char>) -> bool {
    exists|j: int| 0 <= j < n && j < s.len() && s[j].0@ == k
}

/// The position of an entry with key `k`.
pub open spec fn index_of<V>(s: Seq<(String, V)>, k: Seq<char>) -> int {
    choose|i: int| 0 <= i < s.len() && s[i].0@ == k
}

/// With unique keys, the entry found for a key is the one at `i`.
pub proof fn lemma_index_of<V>(s: Seq<(String, V)>, i: int)
    requires
        keys_unique(s),
        0 <= i < s.len(),
    ensures
        index_of(s, s[i].0@) == i,
{
    let j = index_of(s, s[i].0@);
    assert(0 <= j < s.len() && s[j].0@ == s[i].0@);
    if j < i {
        assert(s[j].0@ != s[i].0@);
    } else if i < j {
        assert(s[i].0@ != s[j].0@);
    }
}

impl<V: View> View for Table<V> {
    type V = Map<Seq<char>, V::V>;

    open spec fn view(&self) -> Map<Seq<char>, V::V> {
        Map::new(
            |k: Seq<char>| has_key(self.entries@, k),
            |k: Seq<char>| self.entries@[index_of(self.entries@, k)].1@,
        )
    }
}

impl<V: View> Table<V> {
    /// Keys are unique.
    pub open spec fn wf(&self) -> bool {
        keys_unique(self.entries@)
    }

    /// An empty table.
    pub fn new() -> (r: Self)
        ensures
            r.wf(),
            r.entries@.len() == 0,
            r@ == Map::<Seq<char>, V::V>::empty(),
    {
        let r = Table { entries: Vec::new() };
        assert(r@ =~= Map::<Seq<char>, V::V>::empty());
        r
    }

    /// Number of entries.
    pub fn len(&self) -> (r: usize)
        ensures
            r == self.entries@.len(),
    {
        self.entries.len()
    }

    /// The position of the entry with key `k`, if any.
    pub fn position(&self, k: &str) -> (r: Option<usize>)
        requires
            self.wf(),
        ensures
            match r {
                Some(i) => i < self.entries@.len() && self.entries@[i as int].0@ == k@,
                None => !has_key(self.entries@, k@),
            },
            r is Some <==> self@.contains_key(k@),
    {
        let mut i: usize = 0;
        while i < self.entries.len()
            invariant
                i <= self.entries@.len(),
                forall|j: int| 0 <= j < i ==> self.entries@[j].0@ != k@,
            decreases self.entries@.len() - i,
        {
            if str_eq(self.entries[i].0.as_str(), k) {
                return Some(i);
            }
            i = i + 1;
        }
        None
    }

    /// Whether an entry has key `k`.
    pub fn contains_key(&self, k: &str) -> (r: bool)
        requires
            self.wf(),
        ensures
            r == self@.contains_key(k@),
    {
        self.position(k).is_some()
    }

    /// The value stored under `k`.
    pub fn get(&self, k: &str) -> (r: Option<&V>)
        requires
            self.wf(),
        ensures
            r is Some <==> self@.contains_key(k@),
            r is Some ==> r.unwrap()@ == self@[k@],
    {
        match self.position(k) {
            Some(i) => {
                proof {
                    lemma_index_of(self.entries@, i as int);
                }
                Some(&self.entries[i].1)
            },
            None => None,
        }
    }

    /// Stores `v` under `k`: in place where `k` is present, else at the end.
    pub fn insert(&mut self, k: String, v: V)
        requires
            old(self).wf(),
        ensures
            final(self).wf(),
            final(self)@ == old(self)@.insert(k@, v@),
            old(self)@.contains_key(k@) ==> final(self).entries@ == old(self).entries@.update(
                index_of(old(self).entries@, k@),
                (k, v),
            ),
            !old(self)@.contains_key(k@) ==> final(self).entries@ == old(self).entries@.push(
                (k, v),
            ),
    {
        let ghost o = self.entries@;
        let ghost kv = k@;
        let ghost vv = v@;
        match self.position(k.as_str()) {
            Some(i) => {
                proof {
                    lemma_index_of(o, i as int);
                }
                self.entries.set(i, (k, v));
                let ghost n = self.entries@;
                assert(keys_unique(n)) by {
                    assert forall|a: int, b: int| 0 <= a < b < n.len() implies n[a].0@ != n[b].0@ by {
                        if a != i && b != i {
                            assert(o[a].0@ != o[b].0@);
                        } else if a == i {
                            assert(o[a].0@ != o[b].0@);
                        } else {
                            assert(o[a].0@ != o[b].0@);
                        }
                    }
                }
                assert forall|q: Seq<char>| has_key(n, q) implies n[index_of(n, q)].1@ == (
                if q == kv {
                    vv
                } else {
                    o[index_of(o, q)].1@
                }) by {
                    let j = choose|j: int| 0 <= j < n.len() && n[j].0@ == q;
                    lemma_index_of(n, j);
                    if j != i {
                        lemma_index_of(o, j);
                    }
                }
                assert forall|q: Seq<char>| has_key(n, q) == (has_key(o, q) || q == kv) by {
                    if has_key(o, q) {
                        let j = choose|j: int| 0 <= j < o.len() && o[j].0@ == q;
                        if j == i {
                            assert(n[j].0@ == q);
                        } else {
                            assert(n[j].0@ == q);
                        }
                    }
                    if q == kv {
                        assert(n[i as int].0@ == q);
                    }
                    if has_key(n, q) {
                        let j = choose|j: int| 0 <= j < n.len() && n[j].0@ == q;
                        if j != i {
                            assert(o[j].0@ == q);
                        }
                    }
                }
                assert(self@ =~= old(self)@.insert(kv, vv));
            },
            None => {
                self.entries.push((k, v));
                let ghost n = self.entries@;
                assert(keys_unique(n));
                assert(n[o.len() as int].0@ == kv);
                proof {
                    lemma_index_of(n, o.len() as int);
                }
                assert forall|q: Seq<char>| has_key(n, q) implies n[index_of(n, q)].1@ == (
                if q == kv {
                    vv
                } else {
                    o[index_of(o, q)].1@
                }) by {
                    let j = choose|j: int| 0 <= j < n.len() && n[j].0@ == q;
                    lemma_index_of(n, j);
                    if j != o.len() {
                        lemma_index_of(o, j);
                    }
                }
                assert forall|q: Seq<char>| has_key(n, q) == (has_key(o, q) || q == kv) by {
                    if has_key(o, q) {
                        let j = choose|j: int| 0 <= j < o.len() && o[j].0@ == q;
                        assert(n[j].0@ == q);
                    }
                    if has_key(n, q) {
                        let j = choose|j: int| 0 <= j < n.len() && n[j].0@ == q;
                        if j != o.len() {
                            assert(o[j].0@ == q);
                        }
                    }
                }
                assert(self@ =~= old(self)@.insert(kv, vv));
            },
        }
    }

    /// Removes the entry with key `k`; returns whether there was one.
    pub fn remove(&mut self, k: &str) -> (r: bool)
        requires
            old(self).wf(),
        ensures
            final(self).wf(),
            r == old(self)@.contains_key(k@),
            final(self)@ == old(self)@.remove(k@),
            forall|i: int|
                0 <= i < final(self).entries@.len() ==> old(self).entries@.contains(
                    #[trigger] final(self).entries@[i],
                ),
    {
        let ghost o = self.entries@;
        match self.position(k) {
            Some(i) => {
                self.entries.remove(i);
                let ghost n = self.entries@;
                assert(n =~= o.remove(i as int));
                assert forall|j: int| 0 <= j < n.len() implies o.contains(#[trigger] n[j]) by {
                    if j < i {
                        assert(o[j] == n[j]);
                    } else {
                        assert(o[j + 1] == n[j]);
                    }
                }
                assert(keys_unique(n)) by {
                    assert forall|a: int, b: int| 0 <= a < b < n.len() implies n[a].0@ != n[b].0@ by {
                        let a2 = if a < i { a } else { a + 1 };
                        let b2 = if b < i { b } else { b + 1 };
                        assert(o[a2].0@ != o[b2].0@);
                    }
                }
                assert forall|q: Seq<char>| has_key(n, q) == (has_key(o, q) && q != k@) by {
                    if has_key(o, q) && q != k@ {
                        let j = choose|j: int| 0 <= j < o.len() && o[j].0@ == q;
                        if j < i {
                            assert(n[j].0@ == q);
                        } else {
                            assert(n[j - 1].0@ == q);
                        }
                    }
                    if has_key(n, q) {
                        let j = choose|j: int| 0 <= j < n.len() && n[j].0@ == q;
                        let j2 = if j < i { j } else { j + 1 };
                        assert(o[j2].0@ == q);
                        assert(o[i as int].0@ != o[j2].0@ || j2 == i);
                    }
                }
                assert forall|q: Seq<char>| has_key(n, q) implies n[index_of(n, q)].1@ == o[index_of(
                    o,
                    q,
                )].1@ by {
                    let j = choose|j: int| 0 <= j < n.len() && n[j].0@ == q;
                    lemma_index_of(n, j);
                    let j2 = if j < i { j } else { j + 1 };
                    lemma_index_of(o, j2);
                }
                assert(self@ =~= old(self)@.remove(k@));
                true
            },
            None => {
                assert(self@ =~= old(self)@.remove(k@));
                false
            },
        }
    }

    /// Moves every entry of `other` in, in its order; `other` wins on equal keys.
    pub fn absorb(&mut self, other: Table<V>)
        requires
            old(self).wf(),
            other.wf(),
        ensures
            final(self).wf(),
            final(self)@ == old(self)@.union_prefer_right(other@),
            forall|i: int|
                0 <= i < final(self).entries@.len() ==> old(self).entries@.contains(
                    #[trigger] final(self).entries@[i],
                ) || other.entries@.contains(final(self).entries@[i]),
    {
        let ghost target = old(self)@.union_prefer_right(other@);
        let ghost os = other.entries@;
        let mut rest = other.entries;
        let mut done: usize = 0;
        let total = rest.len();
        while rest.len() > 0
            invariant
                self.wf(),
                done + rest@.len() == total,
                total == os.len(),
                keys_unique(os),
                rest@ == os.subrange(done as int, total as int),
                forall|i: int|
                    0 <= i < self.entries@.len() ==> old(self).entries@.contains(
                        #[trigger] self.entries@[i],
                    ) || os.contains(self.entries@[i]),
                forall|q: Seq<char>| #[trigger]
                    self@.contains_key(q) == (old(self)@.contains_key(q) || in_prefix(
                        os,
                        done as int,
                        q,
                    )),
                forall|q: Seq<char>| #[trigger]
                    self@.contains_key(q) ==> self@[q] == if in_prefix(os, done as int, q) {
                        os[index_of(os, q)].1@
                    } else {
                        old(self)@[q]
                    },
            decreases rest@.len(),
        {
            let (k, v) = rest.remove(0);
            proof {
                lemma_index_of(os, done as int);
            }
            let ghost kk = k@;
            let ghost pair = (k, v);
            assert(pair == os[done as int]);
            let ghost before = self.entries@;
            self.insert(k, v);
            proof {
                assert forall|i: int| 0 <= i < self.entries@.len() implies old(self).entries@.contains(
                    #[trigger] self.entries@[i],
                ) || os.contains(self.entries@[i]) by {
                    if i < before.len() && self.entries@[i] == before[i] {
                    } else {
                        assert(self.entries@[i] == pair);
                        assert(os[done as int] == pair);
                    }
                }
            }
            proof {
                assert forall|q: Seq<char>| #[trigger]
                    in_prefix(os, done + 1, q) == (in_prefix(os, done as int, q) || q == kk) by {
                    if in_prefix(os, done + 1, q) {
                        let j = choose|j: int| 0 <= j < done + 1 && j < os.len() && os[j].0@ == q;
                        if j < done {
                        }
                    }
                    if q == kk {
                        assert(os[done as int].0@ == q);
                    }
                }
            }
            done = done + 1;
            assert(rest@ =~= os.subrange(done as int, total as int));
        }
        proof {
            assert forall|q: Seq<char>| #[trigger] in_prefix(os, done as int, q) == has_key(os, q) by {
            }
            assert(self@ =~= target);
        }
    }
}

/// A value that can be copied with the same view.
pub trait Duplicate: View + Sized {
    /// The value is well formed enough to be copied.
    spec fn dup_ok(&self) -> bool;

    /// A copy with the same view.
    fn duplicate(&self) -> (r: Self)
        requires
            self.dup_ok(),
        ensures
            r.dup_ok(),
            r@ == self@;
}

impl Duplicate for String {
    open spec fn dup_ok(&self) -> bool {
        true
    }

    fn duplicate(&self) -> (r: Self) {
        self.clone()
    }
}

impl<V: Duplicate> Table<V> {
    /// Keys are unique and every value can be copied.
    pub open spec fn deep_ok(&self) -> bool {
        &&& self.wf()
        &&& forall|i: int| 0 <= i < self.entries@.len() ==> (#[trigger] self.entries@[i]).1.dup_ok()
    }
}

impl<V: Duplicate> Duplicate for Table<V> {
    open spec fn dup_ok(&self) -> bool {
        self.deep_ok()
    }

    fn duplicate(&self) -> (r: Self) {
        let mut out: Vec<(String, V)> = Vec::new();
        let mut i: usize = 0;
        while i < self.entries.len()
            invariant
                self.deep_ok(),
                i <= self.entries@.len(),
                out@.len() == i,
                forall|j: int|
                    0 <= j < i ==> (#[trigger] out@[j]).0@ == self.entries@[j].0@ && out@[j].1@
                        == self.entries@[j].1@ && out@[j].1.dup_ok(),
            decreases self.entries@.len() - i,
        {
            assert(self.entries@[i as int].1.dup_ok());
            let k = self.entries[i].0.clone();
            let v = self.entries[i].1.duplicate();
            out.push((k, v));
            i = i + 1;
        }
        let r = Table { entries: out };
        proof {
            let o = self.entries@;
            let n = r.entries@;
            assert(keys_unique(n)) by {
                assert forall|a: int, b: int| 0 <= a < b < n.len() implies n[a].0@ != n[b].0@ by {
                    assert(o[a].0@ != o[b].0@);
                }
            }
            assert forall|k: Seq<char>| has_key(n, k) == has_key(o, k) by {
                if has_key(n, k) {
                    let j = choose|j: int| 0 <= j < n.len() && n[j].0@ == k;
                    assert(o[j].0@ == k);
                }
                if has_key(o, k) {
                    let j = choose|j: int| 0 <= j < o.len() && o[j].0@ == k;
                    assert(n[j].0@ == k);
                }
            }
            assert forall|k: Seq<char>| has_key(n, k) implies n[index_of(n, k)].1@ == o[index_of(
                o,
                k,
            )].1@ by {
                let j = choose|j: int| 0 <= j < n.len() && n[j].0@ == k;
                lemma_index_of(n, j);
                lemma_index_of(o, j);
            }
            assert(r@ =~= self@);
        }
        r
    }
}

impl Table<String> {
    /// A copy of the table with the same entries in the same order.
    pub fn copy(&self) -> (r: Table<String>)
        ensures
            r.entries@ == self.entries@,
            r@ == self@,
    {
        let mut out: Vec<(String, String)> = Vec::new();
        let mut i: usize = 0;
        while i < self.entries.len()
            invariant
                i <= self.entries@.len(),
                out@ == self.entries@.subrange(0, i as int),
            decreases self.entries@.len() - i,
        {
            let k = self.entries[i].0.clone();
            let v = self.entries[i].1.clone();
            out.push((k, v));
            i = i + 1;
            assert(out@ =~= self.entries@.subrange(0, i as int));
        }
        assert(out@ =~= self.entries@);
        Table { entries: out }
    }
}

} // verus!
