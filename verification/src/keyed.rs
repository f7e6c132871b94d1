//! A map from texts to values.
use vstd::prelude::*;

use crate::text::same;

verus! {

/// A map from texts to values, held as a list in which no key occurs twice.
#[derive(Debug)]
pub struct Keyed<V> {
    entries: Vec<(String, V)>,
}

/// No key occurs twice.
pub open spec fn distinct<V>(list: Seq<(Seq<char>, V)>) -> bool {
    forall|i: int, j: int|
        0 <= i < j < list.len() ==> (#[trigger] list[i]).0 != (#[trigger] list[j]).0
}

/// The entry at `i` has the key `key`.
pub open spec fn key_at<V>(list: Seq<(Seq<char>, V)>, key: Seq<char>, i: int) -> bool {
    0 <= i < list.len() && list[i].0 == key
}

/// The map that a list without repeated keys stands for.
pub open spec fn as_map<V>(list: Seq<(Seq<char>, V)>) -> Map<Seq<char>, V> {
    Map::new(
        |k: Seq<char>| exists|i: int| key_at(list, k, i),
        |k: Seq<char>| list[choose|i: int| key_at(list, k, i)].1,
    )
}

/// In a list without repeated keys an entry's key leads to its value.
pub proof fn lemma_entry<V>(list: Seq<(Seq<char>, V)>, i: int)
    requires
        distinct(list),
        0 <= i < list.len(),
    ensures
        as_map(list).dom().contains(list[i].0),
        as_map(list)[list[i].0] == list[i].1,
{
    assert(key_at(list, list[i].0, i));
    let k = choose|k: int| key_at(list, list[i].0, k);
    assert(key_at(list, list[i].0, k));
    assert(k == i) by {
        if k < i {
            assert(list[k].0 != list[i].0);
        } else if i < k {
            assert(list[i].0 != list[k].0);
        }
    }
}

/// A list without entries stands for the empty map, and no other does.
pub proof fn lemma_empty<V>(list: Seq<(Seq<char>, V)>)
    requires
        distinct(list),
    ensures
        (list.len() == 0) == (as_map(list) == Map::<Seq<char>, V>::empty()),
{
    if list.len() > 0 {
        lemma_entry(list, 0);
    } else {
        assert(as_map(list) =~= Map::<Seq<char>, V>::empty());
    }
}

proof fn lemma_push<V>(list: Seq<(Seq<char>, V)>, key: Seq<char>, value: V)
    requires
        distinct(list),
        !as_map(list).dom().contains(key),
    ensures
        distinct(list.push((key, value))),
        as_map(list.push((key, value))) == as_map(list).insert(key, value),
{
    let out = list.push((key, value));
    assert forall|i: int, j: int| 0 <= i < j < out.len() implies (#[trigger] out[i]).0 != (
    #[trigger] out[j]).0 by {
        if j == list.len() {
            assert(!key_at(list, key, i));
        }
    }
    assert forall|k: Seq<char>|
        as_map(out).dom().contains(k) == as_map(list).insert(key, value).dom().contains(k) by {
        if as_map(list).dom().contains(k) {
            let i = choose|i: int| key_at(list, k, i);
            assert(key_at(out, k, i));
        }
        if k == key {
            assert(key_at(out, k, list.len() as int));
        }
        if as_map(out).dom().contains(k) && k != key {
            let i = choose|i: int| key_at(out, k, i);
            assert(key_at(list, k, i));
        }
    }
    assert forall|k: Seq<char>| as_map(out).dom().contains(k) implies as_map(out)[k] == as_map(
        list,
    ).insert(key, value)[k] by {
        let i = choose|i: int| key_at(out, k, i);
        lemma_entry(out, i);
        if i < list.len() {
            lemma_entry(list, i);
            assert(k != key) by {
                assert(out[i].0 != out[list.len() as int].0);
            }
        }
    }
    assert(as_map(out) =~= as_map(list).insert(key, value));
}

proof fn lemma_update<V>(list: Seq<(Seq<char>, V)>, i: int, value: V)
    requires
        distinct(list),
        0 <= i < list.len(),
    ensures
        distinct(list.update(i, (list[i].0, value))),
        as_map(list.update(i, (list[i].0, value))) == as_map(list).insert(list[i].0, value),
{
    let key = list[i].0;
    let out = list.update(i, (key, value));
    assert forall|a: int, b: int| 0 <= a < b < out.len() implies (#[trigger] out[a]).0 != (
    #[trigger] out[b]).0 by {
        assert(list[a].0 != list[b].0);
    }
    assert forall|k: Seq<char>|
        as_map(out).dom().contains(k) == as_map(list).insert(key, value).dom().contains(k) by {
        if as_map(list).dom().contains(k) {
            let j = choose|j: int| key_at(list, k, j);
            assert(key_at(out, k, j));
        }
        if k == key {
            assert(key_at(out, k, i));
        }
        if as_map(out).dom().contains(k) {
            let j = choose|j: int| key_at(out, k, j);
            assert(key_at(list, k, j));
        }
    }
    assert forall|k: Seq<char>| as_map(out).dom().contains(k) implies as_map(out)[k] == as_map(
        list,
    ).insert(key, value)[k] by {
        let j = choose|j: int| key_at(out, k, j);
        lemma_entry(out, j);
        lemma_entry(list, j);
        if j != i {
            assert(k != key) by {
                if j < i {
                    assert(list[j].0 != list[i].0);
                } else {
                    assert(list[i].0 != list[j].0);
                }
            }
        }
    }
    assert(as_map(out) =~= as_map(list).insert(key, value));
}

proof fn lemma_remove<V>(list: Seq<(Seq<char>, V)>, i: int)
    requires
        distinct(list),
        0 <= i < list.len(),
    ensures
        distinct(list.remove(i)),
        as_map(list.remove(i)) == as_map(list).remove(list[i].0),
{
    let key = list[i].0;
    let out = list.remove(i);
    assert forall|a: int, b: int| 0 <= a < b < out.len() implies (#[trigger] out[a]).0 != (
    #[trigger] out[b]).0 by {
        let x = if a < i {
            a
        } else {
            a + 1
        };
        let y = if b < i {
            b
        } else {
            b + 1
        };
        assert(list[x].0 != list[y].0);
    }
    assert forall|k: Seq<char>|
        as_map(out).dom().contains(k) == as_map(list).remove(key).dom().contains(k) by {
        if as_map(list).dom().contains(k) && k != key {
            let j = choose|j: int| key_at(list, k, j);
            assert(key_at(
                out,
                k,
                if j < i {
                    j
                } else {
                    j - 1
                },
            ));
        }
        if as_map(out).dom().contains(k) {
            let j = choose|j: int| key_at(out, k, j);
            let x = if j < i {
                j
            } else {
                j + 1
            };
            assert(key_at(list, k, x));
            assert(k != key) by {
                if x < i {
                    assert(list[x].0 != list[i].0);
                } else {
                    assert(list[i].0 != list[x].0);
                }
            }
        }
    }
    assert forall|k: Seq<char>| as_map(out).dom().contains(k) implies as_map(out)[k] == as_map(
        list,
    ).remove(key)[k] by {
        let j = choose|j: int| key_at(out, k, j);
        lemma_entry(out, j);
        lemma_entry(
            list,
            if j < i {
                j
            } else {
                j + 1
            },
        );
    }
    assert(as_map(out) =~= as_map(list).remove(key));
}

/// The entries of a vector, with the characters of their keys.
spec fn listed<V>(entries: Seq<(String, V)>) -> Seq<(Seq<char>, V)> {
    Seq::new(entries.len(), |i: int| (entries[i].0@, entries[i].1))
}

impl<V> View for Keyed<V> {
    type V = Map<Seq<char>, V>;

    open spec fn view(&self) -> Map<Seq<char>, V> {
        as_map(self.list())
    }
}

impl<V: Clone> Clone for Keyed<V> {
    fn clone(&self) -> (r: Keyed<V>)
        ensures
            r.list().len() == self.list().len(),
            forall|i: int|
                0 <= i < self.list().len() ==> (#[trigger] r.list()[i]).0 == self.list()[i].0
                    && cloned::<V>(self.list()[i].1, r.list()[i].1),
    {
        proof {
            use_type_invariant(self);
        }
        let mut entries: Vec<(String, V)> = Vec::new();
        let mut i: usize = 0;
        while i < self.entries.len()
            invariant
                i <= self.entries@.len(),
                entries@.len() == i,
                forall|j: int|
                    0 <= j < i ==> (#[trigger] entries@[j]).0@ == self.entries@[j].0@ && cloned::<V>(
                        self.entries@[j].1,
                        entries@[j].1,
                    ),
            decreases self.entries@.len() - i,
        {
            entries.push((self.entries[i].0.clone(), self.entries[i].1.clone()));
            i += 1;
        }
        assert(distinct(listed(entries@))) by {
            let list = listed(entries@);
            assert forall|a: int, b: int| 0 <= a < b < list.len() implies (#[trigger] list[a]).0 != (
            #[trigger] list[b]).0 by {
                assert(listed(self.entries@)[a].0 != listed(self.entries@)[b].0);
            }
        }
        Keyed { entries }
    }
}

impl<V> Keyed<V> {
    /// The entries, in the order in which they are held.
    pub closed spec fn list(self) -> Seq<(Seq<char>, V)> {
        listed(self.entries@)
    }

    #[verifier::type_invariant]
    spec fn keys_distinct(self) -> bool {
        distinct(listed(self.entries@))
    }

    /// The map without entries.
    pub fn new() -> (r: Keyed<V>)
        ensures
            r@ == Map::<Seq<char>, V>::empty(),
            r.list().len() == 0,
    {
        let r = Keyed { entries: Vec::new() };
        proof {
            lemma_empty(r.list());
        }
        r
    }

    /// The number of entries.
    pub fn len(&self) -> (r: usize)
        ensures
            r == self.list().len(),
            distinct(self.list()),
    {
        proof {
            use_type_invariant(self);
        }
        self.entries.len()
    }

    /// Whether there is no entry.
    pub fn is_empty(&self) -> (r: bool)
        ensures
            r == (self@ == Map::<Seq<char>, V>::empty()),
            r == (self.list().len() == 0),
    {
        proof {
            use_type_invariant(self);
            lemma_empty(self.list());
        }
        self.entries.len() == 0
    }

    /// The entry at position `i`.
    pub fn entry(&self, i: usize) -> (r: (&String, &V))
        requires
            i < self.list().len(),
        ensures
            r.0@ == self.list()[i as int].0,
            *r.1 == self.list()[i as int].1,
            self@.dom().contains(r.0@),
            self@[r.0@] == *r.1,
    {
        proof {
            use_type_invariant(self);
            lemma_entry(self.list(), i as int);
        }
        (&self.entries[i].0, &self.entries[i].1)
    }

    /// The position of the entry for `key`.
    pub fn position(&self, key: &str) -> (r: Option<usize>)
        ensures
            r is Some == self@.dom().contains(key@),
            r matches Some(i) ==> key_at(self.list(), key@, i as int) && self@[key@]
                == self.list()[i as int].1,
    {
        proof {
            use_type_invariant(self);
        }
        let mut i: usize = 0;
        while i < self.entries.len()
            invariant
                i <= self.entries@.len(),
                distinct(self.list()),
                forall|j: int| 0 <= j < i ==> !#[trigger] key_at(self.list(), key@, j),
            decreases self.entries@.len() - i,
        {
            if same(self.entries[i].0.as_str(), key) {
                proof {
                    lemma_entry(self.list(), i as int);
                }
                return Some(i);
            }
            i += 1;
        }
        None
    }

    /// The value for `key`.
    pub fn get(&self, key: &str) -> (r: Option<&V>)
        ensures
            r is Some == self@.dom().contains(key@),
            r matches Some(v) ==> *v == self@[key@],
    {
        match self.position(key) {
            Some(i) => Some(&self.entries[i].1),
            None => None,
        }
    }

    /// Sets the value for `key`.
    pub fn insert(&mut self, key: &str, value: V)
        ensures
            final(self)@ == old(self)@.insert(key@, value),
    {
        proof {
            use_type_invariant(&*self);
        }
        let found = self.position(key);
        let ghost before = self.list();
        let mut entries: Vec<(String, V)> = Vec::new();
        std::mem::swap(&mut entries, &mut self.entries);
        assert(listed(entries@) == before);
        match found {
            Some(i) => {
                entries[i].1 = value;
                proof {
                    lemma_update(before, i as int, value);
                    assert(listed(entries@) =~= before.update(
                        i as int,
                        (before[i as int].0, value),
                    ));
                }
            },
            None => {
                entries.push((key.to_owned(), value));
                proof {
                    lemma_push(before, key@, value);
                    assert(listed(entries@) =~= before.push((key@, value)));
                }
            },
        }
        self.entries = entries;
    }

    /// Takes the entry for `key` out, where there is one.
    pub fn remove(&mut self, key: &str)
        ensures
            final(self)@ == old(self)@.remove(key@),
    {
        proof {
            use_type_invariant(&*self);
        }
        match self.position(key) {
            Some(i) => {
                let ghost before = self.list();
                let mut entries: Vec<(String, V)> = Vec::new();
                std::mem::swap(&mut entries, &mut self.entries);
                assert(listed(entries@) == before);
                let _ = entries.remove(i);
                proof {
                    lemma_remove(before, i as int);
                    assert(listed(entries@) =~= before.remove(i as int));
                }
                self.entries = entries;
            },
            None => {
                assert(self@ =~= self@.remove(key@));
            },
        }
    }

    /// Lets `f` change the value for `key`, and hands on what it returns; does nothing where
    /// there is no entry for `key`.
    pub fn change<F, R>(&mut self, key: &str, f: F) -> (r: Option<R>) where
        F: FnOnce(&mut V) -> R,

        requires
            forall|v: &mut V|
                old(self)@.dom().contains(key@) && *v == old(self)@[key@] ==> f.requires((v,)),
        ensures
            r is Some == old(self)@.dom().contains(key@),
            r is None ==> *final(self) == *old(self),
            r is Some ==> final(self)@ == old(self)@.insert(key@, final(self)@[key@]),
            r is Some ==> exists|v: &mut V| #[trigger]
                f.ensures((v,), r->0) && *v == old(self)@[key@]
                && *final(v) == final(self)@[key@],
    {
        proof {
            use_type_invariant(&*self);
        }
        match self.position(key) {
            Some(i) => {
                let out = self.change_at(key, i, f);
                let r = Some(out);
                assert(r->0 == out);
                assert(exists|v: &mut V| #[trigger]
                    f.ensures((v,), r->0) && *v == old(self)@[key@] && *final(v) == self@[key@]);
                r
            },
            None => None,
        }
    }

    fn change_at<F, R>(&mut self, key: &str, i: usize, f: F) -> (r: R) where
        F: FnOnce(&mut V) -> R,

        requires
            key_at(old(self).list(), key@, i as int),
            old(self)@.dom().contains(key@),
            old(self)@[key@] == old(self).list()[i as int].1,
            forall|v: &mut V| *v == old(self)@[key@] ==> f.requires((v,)),
        ensures
            final(self)@ == old(self)@.insert(key@, final(self)@[key@]),
            exists|v: &mut V| #[trigger]
                f.ensures((v,), r) && *v == old(self)@[key@] && *final(v) == final(self)@[key@],
    {
        proof {
            use_type_invariant(&*self);
        }
        let ghost before = self.list();
        let mut entries: Vec<(String, V)> = Vec::new();
        std::mem::swap(&mut entries, &mut self.entries);
        assert(listed(entries@) == before);
        let out = f(&mut entries[i].1);
        let ghost after = entries@[i as int].1;
        proof {
            lemma_update(before, i as int, after);
            assert(listed(entries@) =~= before.update(i as int, (before[i as int].0, after)));
        }
        self.entries = entries;
        assert(self@ == as_map(before).insert(key@, after));
        out
    }
}

} // verus!
