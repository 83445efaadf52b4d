//! A map from strings to values that keeps its keys in ascending order, the
//! order in which the package and writer walk their entries.
use vstd::prelude::*;

use crate::text::{
    lemma_seq_lt_asymmetric, lemma_seq_lt_total, lemma_seq_lt_transitive, seq_lt, str_eq, str_lt,
};

verus! {

/// Keys strictly ascending, hence pairwise distinct.
pub open spec fn keys_sorted<V>(e: Seq<(Seq<char>, V)>) -> bool {
    forall|i: int, j: int| 0 <= i < j < e.len() ==> seq_lt(#[trigger] e[i].0, #[trigger] e[j].0)
}

pub open spec fn has_key<V>(e: Seq<(Seq<char>, V)>, k: Seq<char>) -> bool {
    exists|i: int| 0 <= i < e.len() && #[trigger] e[i].0 == k
}

/// The map that a listing of entries describes.
pub open spec fn map_of<V>(e: Seq<(Seq<char>, V)>) -> Map<Seq<char>, V> {
    Map::new(
        |k: Seq<char>| has_key(e, k),
        |k: Seq<char>| e[choose|i: int| 0 <= i < e.len() && #[trigger] e[i].0 == k].1,
    )
}

pub proof fn lemma_map_of_entry<V>(e: Seq<(Seq<char>, V)>, i: int)
    requires
        keys_sorted(e),
        0 <= i < e.len(),
    ensures
        map_of(e).contains_key(e[i].0),
        map_of(e)[e[i].0] == e[i].1,
{
    assert(has_key(e, e[i].0));
    let j = choose|j: int| 0 <= j < e.len() && #[trigger] e[j].0 == e[i].0;
    if j < i {
        lemma_seq_lt_asymmetric(e[j].0, e[i].0);
    } else if i < j {
        lemma_seq_lt_asymmetric(e[i].0, e[j].0);
    }
}

/// A string-keyed map whose entries are held in ascending key order.
#[derive(Debug)]
pub struct StrMap<V> {
    entries: Vec<(String, V)>,
}

impl<V> StrMap<V> {
    /// The entries, in ascending key order.
    pub closed spec fn spec_entries(&self) -> Seq<(Seq<char>, V)> {
        self.entries@.map_values(|e: (String, V)| (e.0@, e.1))
    }

    pub open spec fn keys_view(&self) -> Seq<Seq<char>> {
        self.spec_entries().map_values(|e: (Seq<char>, V)| e.0)
    }

    pub open spec fn values_view(&self) -> Seq<V> {
        self.spec_entries().map_values(|e: (Seq<char>, V)| e.1)
    }

    #[verifier::type_invariant]
    closed spec fn inv(self) -> bool {
        keys_sorted(self.spec_entries())
    }

    /// The entries are listed in ascending key order, each key once, and the
    /// map holds exactly the listed pairs.
    pub proof fn lemma_listing(&self)
        requires
            keys_sorted(self.spec_entries()),
        ensures
            keys_sorted(self.spec_entries()),
            self@ == map_of(self.spec_entries()),
            forall|i: int|
                0 <= i < self.spec_entries().len() ==> self@.contains_key(
                    #[trigger] self.spec_entries()[i].0,
                ) && self@[self.spec_entries()[i].0] == self.spec_entries()[i].1,
    {
        assert forall|i: int| 0 <= i < self.spec_entries().len() implies self@.contains_key(
            #[trigger] self.spec_entries()[i].0,
        ) && self@[self.spec_entries()[i].0] == self.spec_entries()[i].1 by {
            lemma_map_of_entry(self.spec_entries(), i);
        }
    }

    /// An empty map.
    pub fn new() -> (m: Self)
        ensures
            m.spec_entries().len() == 0,
            m@ == Map::<Seq<char>, V>::empty(),
    {
        let m = StrMap { entries: Vec::new() };
        assert(m@ =~= Map::<Seq<char>, V>::empty());
        m
    }

    /// The number of entries.
    pub fn len(&self) -> (n: usize)
        ensures
            n == self.spec_entries().len(),
            keys_sorted(self.spec_entries()),
    {
        proof {
            use_type_invariant(self);
        }
        self.entries.len()
    }

    /// The key of the `i`-th entry in ascending order.
    pub fn key_at(&self, i: usize) -> (k: &String)
        requires
            i < self.spec_entries().len(),
        ensures
            k@ == self.spec_entries()[i as int].0,
    {
        &self.entries[i].0
    }

    /// The value of the `i`-th entry in ascending order.
    pub fn value_at(&self, i: usize) -> (v: &V)
        requires
            i < self.spec_entries().len(),
        ensures
            *v == self.spec_entries()[i as int].1,
    {
        &self.entries[i].1
    }

    /// The value stored under `key`, if any.
    pub fn get(&self, key: &str) -> (res: Option<&V>)
        ensures
            res.is_some() == self@.contains_key(key@),
            res matches Some(v) ==> *v == self@[key@],
    {
        proof {
            use_type_invariant(self);
            self.lemma_listing();
        }
        let n = self.entries.len();
        let mut i: usize = 0;
        while i < n
            invariant
                n == self.spec_entries().len(),
                keys_sorted(self.spec_entries()),
                i <= n,
                forall|j: int| 0 <= j < i ==> self.spec_entries()[j].0 != key@,
            decreases n - i,
        {
            if str_eq(self.entries[i].0.as_str(), key) {
                proof {
                    lemma_map_of_entry(self.spec_entries(), i as int);
                }
                return Some(&self.entries[i].1);
            }
            i = i + 1;
        }
        None
    }

    /// Whether `key` is stored.
    pub fn contains_key(&self, key: &str) -> (res: bool)
        ensures
            res == self@.contains_key(key@),
    {
        self.get(key).is_some()
    }

    /// Stores `value` under `key`, replacing a value stored there before.
    pub fn insert(&mut self, key: String, value: V)
        ensures
            final(self)@ == old(self)@.insert(key@, value),
    {
        proof {
            use_type_invariant(&*self);
        }
        let ghost old_e = self.spec_entries();
        let mut entries: Vec<(String, V)> = Vec::new();
        std::mem::swap(&mut entries, &mut self.entries);
        assert(entries@.map_values(|e: (String, V)| (e.0@, e.1)) == old_e);
        let n = entries.len();
        let mut i: usize = 0;
        while i < n && str_lt(entries[i].0.as_str(), key.as_str())
            invariant
                n == entries@.len(),
                i <= n,
                entries@.map_values(|e: (String, V)| (e.0@, e.1)) == old_e,
                forall|j: int| 0 <= j < i ==> seq_lt(#[trigger] old_e[j].0, key@),
            decreases n - i,
        {
            i = i + 1;
        }
        let ghost pos = i as int;
        if i < n && str_eq(entries[i].0.as_str(), key.as_str()) {
            entries.set(i, (key, value));
            let ghost new_e = entries@.map_values(|e: (String, V)| (e.0@, e.1));
            proof {
                assert(new_e =~= old_e.update(pos, (key@, value)));
                assert forall|a: int, b: int| 0 <= a < b < new_e.len() implies seq_lt(
                    #[trigger] new_e[a].0,
                    #[trigger] new_e[b].0,
                ) by {
                    assert(seq_lt(old_e[a].0, old_e[b].0));
                }
                self.lemma_update_map(old_e, new_e, pos, key@, value);
            }
        } else {
            let ghost next = if i < n { old_e[pos].0 } else { key@ };
            proof {
                if i < n {
                    lemma_seq_lt_total(old_e[pos].0, key@);
                }
            }
            entries.insert(i, (key, value));
            let ghost new_e = entries@.map_values(|e: (String, V)| (e.0@, e.1));
            proof {
                assert(new_e =~= old_e.insert(pos, (key@, value)));
                assert forall|a: int, b: int| 0 <= a < b < new_e.len() implies seq_lt(
                    #[trigger] new_e[a].0,
                    #[trigger] new_e[b].0,
                ) by {
                    if b < pos {
                        assert(seq_lt(old_e[a].0, old_e[b].0));
                    } else if b == pos {
                        assert(seq_lt(old_e[a].0, key@));
                    } else if a == pos {
                        if b - 1 > pos {
                            assert(seq_lt(old_e[pos].0, old_e[b - 1].0));
                            lemma_seq_lt_transitive(key@, old_e[pos].0, old_e[b - 1].0);
                        }
                    } else if a < pos {
                        assert(seq_lt(old_e[a].0, old_e[b - 1].0));
                    } else {
                        assert(seq_lt(old_e[a - 1].0, old_e[b - 1].0));
                    }
                }
                self.lemma_insert_map(old_e, new_e, pos, key@, value);
            }
        }
        self.entries = entries;
    }

    proof fn lemma_update_map(
        &self,
        old_e: Seq<(Seq<char>, V)>,
        new_e: Seq<(Seq<char>, V)>,
        pos: int,
        k: Seq<char>,
        v: V,
    )
        requires
            keys_sorted(old_e),
            keys_sorted(new_e),
            0 <= pos < old_e.len(),
            old_e[pos].0 == k,
            new_e == old_e.update(pos, (k, v)),
        ensures
            map_of(new_e) == map_of(old_e).insert(k, v),
    {
        let m1 = map_of(new_e);
        let m2 = map_of(old_e).insert(k, v);
        assert(new_e[pos].0 == k);
        assert forall|x: Seq<char>| m1.contains_key(x) <==> m2.contains_key(x) by {
            if has_key(old_e, x) {
                let j = choose|j: int| 0 <= j < old_e.len() && #[trigger] old_e[j].0 == x;
                if j != pos {
                    assert(new_e[j].0 == x);
                }
            }
            if has_key(new_e, x) {
                let j = choose|j: int| 0 <= j < new_e.len() && #[trigger] new_e[j].0 == x;
                if j != pos {
                    assert(old_e[j].0 == x);
                }
            }
        }
        assert forall|x: Seq<char>| #[trigger] m1.contains_key(x) implies m1[x] == m2[x] by {
            let j = choose|j: int| 0 <= j < new_e.len() && #[trigger] new_e[j].0 == x;
            lemma_map_of_entry(new_e, j);
            if j < pos {
                lemma_seq_lt_asymmetric(new_e[j].0, new_e[pos].0);
            } else if j > pos {
                lemma_seq_lt_asymmetric(new_e[pos].0, new_e[j].0);
            }
            if j != pos {
                assert(old_e[j] == new_e[j]);
                lemma_map_of_entry(old_e, j);
            }
        }
        assert(m1 =~= m2);
    }

    proof fn lemma_insert_map(
        &self,
        old_e: Seq<(Seq<char>, V)>,
        new_e: Seq<(Seq<char>, V)>,
        pos: int,
        k: Seq<char>,
        v: V,
    )
        requires
            keys_sorted(old_e),
            keys_sorted(new_e),
            0 <= pos <= old_e.len(),
            new_e == old_e.insert(pos, (k, v)),
        ensures
            map_of(new_e) == map_of(old_e).insert(k, v),
    {
        let m1 = map_of(new_e);
        let m2 = map_of(old_e).insert(k, v);
        assert(new_e[pos].0 == k);
        assert forall|x: Seq<char>| m1.contains_key(x) <==> m2.contains_key(x) by {
            if has_key(old_e, x) {
                let j = choose|j: int| 0 <= j < old_e.len() && #[trigger] old_e[j].0 == x;
                if j < pos {
                    assert(new_e[j].0 == x);
                } else {
                    assert(new_e[j + 1].0 == x);
                }
            }
            if has_key(new_e, x) {
                let j = choose|j: int| 0 <= j < new_e.len() && #[trigger] new_e[j].0 == x;
                if j < pos {
                    assert(old_e[j].0 == x);
                } else if j > pos {
                    assert(old_e[j - 1].0 == x);
                }
            }
        }
        assert forall|x: Seq<char>| #[trigger] m1.contains_key(x) implies m1[x] == m2[x] by {
            let j = choose|j: int| 0 <= j < new_e.len() && #[trigger] new_e[j].0 == x;
            lemma_map_of_entry(new_e, j);
            if j < pos {
                lemma_seq_lt_asymmetric(new_e[j].0, new_e[pos].0);
            } else if j > pos {
                lemma_seq_lt_asymmetric(new_e[pos].0, new_e[j].0);
            }
            if j < pos {
                assert(old_e[j] == new_e[j]);
                lemma_map_of_entry(old_e, j);
            } else if j > pos {
                assert(old_e[j - 1] == new_e[j]);
                lemma_map_of_entry(old_e, j - 1);
            }
        }
        assert(m1 =~= m2);
    }
}

impl<V: Clone> Clone for StrMap<V> {
    /// A copy with the same keys in the same order; each value is cloned.
    fn clone(&self) -> (res: Self)
        ensures
            res.keys_view() == self.keys_view(),
    {
        proof {
            use_type_invariant(self);
        }
        let n = self.entries.len();
        let mut out: Vec<(String, V)> = Vec::new();
        let mut i: usize = 0;
        while i < n
            invariant
                n == self.spec_entries().len(),
                keys_sorted(self.spec_entries()),
                i <= n,
                out@.len() == i,
                forall|j: int| 0 <= j < i ==> (#[trigger] out@[j]).0@ == self.spec_entries()[j].0,
            decreases n - i,
        {
            let k = self.entries[i].0.clone();
            let v = self.entries[i].1.clone();
            out.push((k, v));
            i = i + 1;
        }
        let res = StrMap { entries: out };
        proof {
            assert(res.spec_entries().len() == n);
            assert forall|a: int, b: int| 0 <= a < b < res.spec_entries().len() implies seq_lt(
                #[trigger] res.spec_entries()[a].0,
                #[trigger] res.spec_entries()[b].0,
            ) by {
                assert(res.spec_entries()[a].0 == self.spec_entries()[a].0);
                assert(res.spec_entries()[b].0 == self.spec_entries()[b].0);
            }
            assert(res.keys_view() =~= self.keys_view());
        }
        res
    }
}

impl<V> View for StrMap<V> {
    type V = Map<Seq<char>, V>;

    open spec fn view(&self) -> Map<Seq<char>, V> {
        map_of(self.spec_entries())
    }
}

} // verus!
