//! A table of items kept in strictly increasing key order, seen as a map
//! from key to item.
use crate::text::{lemma_precedes_irreflexive, lemma_precedes_total, lemma_precedes_transitive, precedes, str_eq, str_precedes};
use vstd::prelude::*;

verus! {

/// An item that carries its own key.
pub trait Named {
    spec fn key(&self) -> Seq<char>;

    fn key_str(&self) -> (r: &str)
        ensures
            r@ == self.key(),
    ;
}

/// Strictly increasing keys: sorted, and no key twice.
pub open spec fn sorted_by_key<T: Named>(s: Seq<T>) -> bool {
    forall|i: int, j: int|
        0 <= i < j < s.len() ==> precedes(#[trigger] s[i].key(), #[trigger] s[j].key())
}

pub open spec fn has_key<T: Named>(s: Seq<T>, k: Seq<char>) -> bool {
    exists|i: int| 0 <= i < s.len() && #[trigger] s[i].key() == k
}

/// An index whose item has key `k`, where there is one.
pub open spec fn index_keyed<T: Named>(s: Seq<T>, k: Seq<char>) -> int {
    choose|i: int| 0 <= i < s.len() && #[trigger] s[i].key() == k
}

/// The items as a map from key to item.
pub open spec fn keyed_map<T: Named>(s: Seq<T>) -> Map<Seq<char>, T> {
    Map::new(|k: Seq<char>| has_key(s, k), |k: Seq<char>| s[index_keyed(s, k)])
}

/// In a key-sorted sequence, the map sends each item's key to that item.
pub proof fn lemma_item_at<T: Named>(s: Seq<T>, n: int)
    requires
        sorted_by_key(s),
        0 <= n < s.len(),
    ensures
        keyed_map(s).contains_key(s[n].key()),
        keyed_map(s)[s[n].key()] == s[n],
{
    let k = s[n].key();
    assert(has_key(s, k));
    let j = index_keyed(s, k);
    if j < n {
        assert(precedes(s[j].key(), s[n].key()));
        lemma_precedes_irreflexive(k);
    } else if n < j {
        assert(precedes(s[n].key(), s[j].key()));
        lemma_precedes_irreflexive(k);
    }
    assert(keyed_map(s)[k] == s[j]);
}

/// A key-sorted sequence holds one item per key of its map.
pub proof fn lemma_keyed_map_len<T: Named>(s: Seq<T>)
    requires
        sorted_by_key(s),
    ensures
        keyed_map(s).dom().finite(),
        keyed_map(s).dom().len() == s.len(),
{
    let ks = s.map_values(|x: T| x.key());
    assert forall|k: Seq<char>| keyed_map(s).dom().contains(k) <==> ks.to_set().contains(k) by {
        if has_key(s, k) {
            let i = choose|i: int| 0 <= i < s.len() && #[trigger] s[i].key() == k;
            assert(ks[i] == k);
        }
        if ks.to_set().contains(k) {
            let i = choose|i: int| 0 <= i < ks.len() && ks[i] == k;
            assert(s[i].key() == k);
        }
    }
    assert(keyed_map(s).dom() =~= ks.to_set());
    assert forall|i: int, j: int| 0 <= i < ks.len() && 0 <= j < ks.len() && i != j implies ks[i] != ks[j] by {
        if i < j {
            assert(precedes(s[i].key(), s[j].key()));
        } else {
            assert(precedes(s[j].key(), s[i].key()));
        }
        lemma_precedes_irreflexive(ks[i]);
    }
    ks.unique_seq_to_set();
    vstd::seq_lib::seq_to_set_is_finite(ks);
}

pub struct NamedTable<T: Named> {
    items: Vec<T>,
}

impl<T: Named> View for NamedTable<T> {
    type V = Map<Seq<char>, T>;

    closed spec fn view(&self) -> Map<Seq<char>, T> {
        keyed_map(self.items@)
    }
}

/// Where a key stands among sorted items.
enum Slot {
    /// The item at this index has the key.
    At(usize),
    /// No item has it; it belongs before this index.
    Before(usize),
}

impl<T: Named> NamedTable<T> {
    #[verifier::type_invariant]
    closed spec fn names_sorted(&self) -> bool {
        sorted_by_key(self.items@)
    }

    fn slot_of(&self, name: &str) -> (r: Slot)
        ensures
            match r {
                Slot::At(i) => i < self.items@.len() && self.items@[i as int].key() == name@,
                Slot::Before(p) => {
                    &&& p <= self.items@.len()
                    &&& forall|j: int| 0 <= j < p ==> precedes(#[trigger] self.items@[j].key(), name@)
                    &&& forall|j: int| p <= j < self.items@.len() ==> precedes(name@, #[trigger] self.items@[j].key())
                },
            },
    {
        proof {
            use_type_invariant(self);
        }
        let n = self.items.len();
        let mut i: usize = 0;
        while i < n
            invariant
                n == self.items@.len(),
                sorted_by_key(self.items@),
                i <= n,
                forall|j: int| 0 <= j < i ==> precedes(#[trigger] self.items@[j].key(), name@),
            decreases n - i,
        {
            let here = self.items[i].key_str();
            if str_eq(here, name) {
                return Slot::At(i);
            }
            if str_precedes(name, here) {
                proof {
                    assert forall|j: int| i <= j < n implies precedes(name@, #[trigger] self.items@[j].key()) by {
                        if j > i {
                            lemma_precedes_transitive(name@, self.items@[i as int].key(), self.items@[j].key());
                        }
                    }
                }
                return Slot::Before(i);
            }
            proof {
                lemma_precedes_total(here@, name@);
            }
            i = i + 1;
        }
        Slot::Before(n)
    }

    /// An empty table.
    pub fn new() -> (r: Self)
        ensures
            r@ == Map::<Seq<char>, T>::empty(),
    {
        let r = NamedTable { items: Vec::new() };
        proof {
            assert(r@ =~= Map::<Seq<char>, T>::empty());
        }
        r
    }

    /// The item under `name`.
    pub fn get(&self, name: &str) -> (r: Option<&T>)
        ensures
            match r {
                Some(e) => self@.contains_key(name@) && *e == self@[name@] && e.key() == name@,
                None => !self@.contains_key(name@),
            },
    {
        proof {
            use_type_invariant(self);
        }
        match self.slot_of(name) {
            Slot::At(i) => {
                proof {
                    lemma_item_at(self.items@, i as int);
                }
                Some(&self.items[i])
            },
            Slot::Before(p) => {
                proof {
                    assert forall|j: int| 0 <= j < self.items@.len() implies #[trigger] self.items@[j].key() != name@ by {
                        lemma_precedes_irreflexive(name@);
                    }
                }
                None
            },
        }
    }

    /// Every item, in key order.
    pub fn list(&self) -> (r: Vec<&T>)
        ensures
            self@.dom().finite(),
            r@.len() == self@.dom().len(),
            forall|i: int|
                0 <= i < r@.len() ==> self@.contains_key(#[trigger] r@[i].key()) && *r@[i]
                    == self@[r@[i].key()],
            forall|k: Seq<char>| #[trigger]
                self@.contains_key(k) ==> exists|i: int| 0 <= i < r@.len() && #[trigger] r@[i].key() == k,
            forall|i: int, j: int|
                0 <= i < j < r@.len() ==> precedes(#[trigger] r@[i].key(), #[trigger] r@[j].key()),
    {
        proof {
            use_type_invariant(self);
        }
        let mut out: Vec<&T> = Vec::new();
        let mut i: usize = 0;
        while i < self.items.len()
            invariant
                sorted_by_key(self.items@),
                i <= self.items@.len(),
                out@.len() == i,
                forall|j: int| 0 <= j < i ==> *out@[j] == self.items@[j],
            decreases self.items@.len() - i,
        {
            out.push(&self.items[i]);
            i = i + 1;
        }
        proof {
            lemma_keyed_map_len(self.items@);
            assert forall|j: int| 0 <= j < out@.len() implies self@.contains_key(#[trigger] out@[j].key())
                && *out@[j] == self@[out@[j].key()] by {
                lemma_item_at(self.items@, j);
            }
            assert forall|k: Seq<char>| #[trigger] self@.contains_key(k) implies exists|j: int|
                0 <= j < out@.len() && #[trigger] out@[j].key() == k by {
                let j = choose|j: int| 0 <= j < self.items@.len() && #[trigger] self.items@[j].key() == k;
                assert(out@[j].key() == k);
            }
            assert forall|a: int, b: int| 0 <= a < b < out@.len() implies precedes(
                #[trigger] out@[a].key(),
                #[trigger] out@[b].key(),
            ) by {
                assert(precedes(self.items@[a].key(), self.items@[b].key()));
            }
        }
        out
    }

    /// Puts `entry` in, replacing any item with the same key.
    pub fn insert(&mut self, entry: T)
        ensures
            final(self)@ == old(self)@.insert(entry.key(), entry),
    {
        proof {
            use_type_invariant(&*self);
        }
        let ghost before = self.items@;
        let slot = self.slot_of(entry.key_str());
        let mut tools: Vec<T> = Vec::new();
        std::mem::swap(&mut tools, &mut self.items);
        match slot {
            Slot::At(i) => {
                tools.set(i, entry);
                proof {
                    let after = tools@;
                    assert(sorted_by_key(after)) by {
                        assert forall|a: int, b: int| 0 <= a < b < after.len() implies precedes(
                            #[trigger] after[a].key(),
                            #[trigger] after[b].key(),
                        ) by {
                            assert(precedes(before[a].key(), before[b].key()));
                        }
                    }
                }
                self.items = tools;
                proof {
                    self.lemma_replaced(before, i as int);
                }
            },
            Slot::Before(p) => {
                tools.insert(p, entry);
                proof {
                    let after = tools@;
                    assert(sorted_by_key(after)) by {
                        assert forall|a: int, b: int| 0 <= a < b < after.len() implies precedes(
                            #[trigger] after[a].key(),
                            #[trigger] after[b].key(),
                        ) by {
                            if b < p {
                                assert(precedes(before[a].key(), before[b].key()));
                            } else if b == p {
                            } else if a == p {
                            } else if a < p {
                                assert(precedes(before[a].key(), before[b - 1].key()));
                            } else {
                                assert(precedes(before[a - 1].key(), before[b - 1].key()));
                            }
                        }
                    }
                }
                self.items = tools;
                proof {
                    self.lemma_inserted(before, p as int);
                }
            },
        }
    }

    /// Takes out the item under `name`, if there is one.
    pub fn remove(&mut self, name: &str) -> (r: Option<T>)
        ensures
            r == (if old(self)@.contains_key(name@) {
                Some(old(self)@[name@])
            } else {
                None::<T>
            }),
            r matches Some(e) ==> e.key() == name@,
            final(self)@ == old(self)@.remove(name@),
    {
        proof {
            use_type_invariant(&*self);
        }
        let ghost before = self.items@;
        match self.slot_of(name) {
            Slot::At(i) => {
                proof {
                    lemma_item_at(before, i as int);
                }
                let mut tools: Vec<T> = Vec::new();
                std::mem::swap(&mut tools, &mut self.items);
                let e = tools.remove(i);
                proof {
                    let after = tools@;
                    assert(sorted_by_key(after)) by {
                        assert forall|a: int, b: int| 0 <= a < b < after.len() implies precedes(
                            #[trigger] after[a].key(),
                            #[trigger] after[b].key(),
                        ) by {
                            if b < i {
                                assert(precedes(before[a].key(), before[b].key()));
                            } else if a < i {
                                assert(precedes(before[a].key(), before[b + 1].key()));
                            } else {
                                assert(precedes(before[a + 1].key(), before[b + 1].key()));
                            }
                        }
                    }
                }
                self.items = tools;
                proof {
                    self.lemma_removed(before, i as int);
                }
                Some(e)
            },
            Slot::Before(_) => {
                proof {
                    assert forall|j: int| 0 <= j < before.len() implies #[trigger] before[j].key() != name@ by {
                        lemma_precedes_irreflexive(name@);
                    }
                    assert(self@.remove(name@) =~= self@);
                }
                None
            },
        }
    }

    proof fn lemma_removed(&self, before: Seq<T>, i: int)
        requires
            sorted_by_key(before),
            sorted_by_key(self.items@),
            0 <= i < before.len(),
            self.items@ == before.remove(i),
        ensures
            self@ == keyed_map(before).remove(before[i].key()),
    {
        let after = self.items@;
        let k = before[i].key();
        let m = keyed_map(before).remove(k);
        lemma_item_at(before, i);
        assert forall|x: Seq<char>| #[trigger] self@.contains_key(x) <==> m.contains_key(x) by {
            if has_key(before, x) && x != k {
                let j = choose|j: int| 0 <= j < before.len() && #[trigger] before[j].key() == x;
                if j < i {
                    assert(after[j].key() == x);
                } else {
                    assert(after[j - 1].key() == x);
                }
            }
            if has_key(after, x) {
                let j = choose|j: int| 0 <= j < after.len() && #[trigger] after[j].key() == x;
                if j < i {
                    assert(before[j].key() == x);
                    assert(precedes(before[j].key(), before[i].key()));
                } else {
                    assert(before[j + 1].key() == x);
                    assert(precedes(before[i].key(), before[j + 1].key()));
                }
                lemma_precedes_irreflexive(x);
            }
        }
        assert forall|x: Seq<char>| #[trigger] self@.contains_key(x) implies self@[x] == m[x] by {
            let j = choose|j: int| 0 <= j < after.len() && #[trigger] after[j].key() == x;
            lemma_item_at(after, j);
            if j < i {
                lemma_item_at(before, j);
            } else {
                lemma_item_at(before, j + 1);
            }
        }
        assert(self@ =~= m);
    }

    proof fn lemma_replaced(&self, before: Seq<T>, i: int)
        requires
            sorted_by_key(before),
            sorted_by_key(self.items@),
            0 <= i < before.len(),
            self.items@ == before.update(i, self.items@[i]),
            self.items@[i].key() == before[i].key(),
        ensures
            self@ == keyed_map(before).insert(before[i].key(), self.items@[i]),
    {
        let after = self.items@;
        let k = before[i].key();
        let m = keyed_map(before).insert(k, after[i]);
        assert forall|x: Seq<char>| #[trigger] self@.contains_key(x) <==> m.contains_key(x) by {
            if has_key(before, x) {
                let j = choose|j: int| 0 <= j < before.len() && #[trigger] before[j].key() == x;
                assert(after[j].key() == x);
            }
            if has_key(after, x) {
                let j = choose|j: int| 0 <= j < after.len() && #[trigger] after[j].key() == x;
                assert(before[j].key() == x);
            }
        }
        assert forall|x: Seq<char>| #[trigger] self@.contains_key(x) implies self@[x] == m[x] by {
            let j = choose|j: int| 0 <= j < after.len() && #[trigger] after[j].key() == x;
            lemma_item_at(after, j);
            lemma_item_at(after, i);
            if j != i {
                lemma_item_at(before, j);
            }
        }
        assert(self@ =~= m);
    }

    proof fn lemma_inserted(&self, before: Seq<T>, p: int)
        requires
            sorted_by_key(before),
            sorted_by_key(self.items@),
            0 <= p <= before.len(),
            self.items@ == before.insert(p, self.items@[p]),
        ensures
            self@ == keyed_map(before).insert(self.items@[p].key(), self.items@[p]),
    {
        let after = self.items@;
        let k = after[p].key();
        let m = keyed_map(before).insert(k, after[p]);
        assert forall|x: Seq<char>| #[trigger] self@.contains_key(x) <==> m.contains_key(x) by {
            if has_key(before, x) {
                let j = choose|j: int| 0 <= j < before.len() && #[trigger] before[j].key() == x;
                if j < p {
                    assert(after[j].key() == x);
                } else {
                    assert(after[j + 1].key() == x);
                }
            }
            if has_key(after, x) && x != k {
                let j = choose|j: int| 0 <= j < after.len() && #[trigger] after[j].key() == x;
                if j < p {
                    assert(before[j].key() == x);
                } else {
                    assert(before[j - 1].key() == x);
                }
            }
            assert(after[p].key() == k);
        }
        assert forall|x: Seq<char>| #[trigger] self@.contains_key(x) implies self@[x] == m[x] by {
            let j = choose|j: int| 0 <= j < after.len() && #[trigger] after[j].key() == x;
            lemma_item_at(after, j);
            lemma_item_at(after, p);
            if j < p {
                lemma_item_at(before, j);
            } else if j > p {
                lemma_item_at(before, j - 1);
            }
        }
        assert(self@ =~= m);
    }
}

} // verus!
