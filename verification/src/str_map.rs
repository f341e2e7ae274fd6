//! A small map from text to plain values.

use vstd::prelude::*;

verus! {

/// Entries in the order they were added; a later entry of a key replaces an
/// earlier one.
#[derive(Debug, Clone)]
pub struct StrMap<T> {
    entries: Vec<(String, T)>,
}

/// The map that a list of entries stands for.
pub open spec fn folded<T>(entries: Seq<(String, T)>) -> Map<Seq<char>, T>
    decreases entries.len(),
{
    if entries.len() == 0 {
        Map::empty()
    } else {
        folded(entries.drop_last()).insert(entries.last().0@, entries.last().1)
    }
}

/// A key is in the map of a list of entries where an entry has it.
pub proof fn folded_keys<T>(entries: Seq<(String, T)>, key: Seq<char>)
    ensures
        folded(entries).contains_key(key) <==> exists|i: int|
            0 <= i < entries.len() && (#[trigger] entries[i]).0@ == key,
    decreases entries.len(),
{
    if entries.len() > 0 {
        let rest = entries.drop_last();
        folded_keys(rest, key);
        if folded(rest).contains_key(key) {
            let i = choose|i: int| 0 <= i < rest.len() && (#[trigger] rest[i]).0@ == key;
            assert(entries[i].0@ == key);
        }
        if entries.last().0@ == key {
            assert(entries[entries.len() - 1].0@ == key);
        }
        if folded(entries).contains_key(key) && !folded(rest).contains_key(key) {
            assert(entries.last().0@ == key);
        }
        if exists|i: int| 0 <= i < entries.len() && (#[trigger] entries[i]).0@ == key {
            let i = choose|i: int| 0 <= i < entries.len() && (#[trigger] entries[i]).0@ == key;
            if i < rest.len() {
                assert(rest[i].0@ == key);
            }
        }
    }
}

impl<T> View for StrMap<T> {
    type V = Map<Seq<char>, T>;

    closed spec fn view(&self) -> Map<Seq<char>, T> {
        folded(self.entries@)
    }
}

impl<T> StrMap<T> {
    /// The entries in the order they were added.
    pub closed spec fn entries(&self) -> Seq<(String, T)> {
        self.entries@
    }

    /// A map without entries.
    pub fn new() -> (r: Self)
        ensures
            r@ == Map::<Seq<char>, T>::empty(),
            r.entries() == Seq::<(String, T)>::empty(),
    {
        StrMap { entries: Vec::new() }
    }

    /// Gives `key` the value.
    pub fn insert(&mut self, key: String, value: T)
        ensures
            final(self)@ == old(self)@.insert(key@, value),
            final(self).entries() == old(self).entries().push((key, value)),
    {
        self.entries.push((key, value));
        proof {
            assert(self.entries@.drop_last() =~= old(self).entries@);
        }
    }

    /// The number of entries, also those that a later one replaced.
    pub fn len(&self) -> (r: usize)
        ensures
            r == self.entries().len(),
    {
        self.entries.len()
    }

    /// The key and the value of an entry.
    pub fn entry(&self, i: usize) -> (r: (&String, &T))
        requires
            i < self.entries().len(),
        ensures
            *r.0 == self.entries()[i as int].0,
            *r.1 == self.entries()[i as int].1,
    {
        let e = &self.entries[i];
        (&e.0, &e.1)
    }

    /// The map is what its entries fold to.
    pub proof fn entries_fold(&self)
        ensures
            self@ == folded(self.entries()),
    {
    }

    /// The value of a key, where the map has the key.
    pub fn find(&self, key: &str) -> (r: Option<&T>)
        ensures
            r is Some <==> self@.contains_key(key@),
            r is Some ==> *r->Some_0 == self@[key@],
    {
        let mut n: usize = self.entries.len();
        assert(self.entries@.subrange(0, n as int) =~= self.entries@);
        while n > 0
            invariant
                n <= self.entries@.len(),
                ({
                    let part = folded(self.entries@.subrange(0, n as int));
                    &&& self@.contains_key(key@) == part.contains_key(key@)
                    &&& self@.contains_key(key@) ==> self@[key@] == part[key@]
                }),
            decreases n,
        {
            proof {
                let part = self.entries@.subrange(0, n as int);
                assert(part.drop_last() =~= self.entries@.subrange(0, n - 1));
                assert(part.last() == self.entries@[n - 1]);
            }
            n = n - 1;
            if crate::bytes::same_text(self.entries[n].0.as_str(), key) {
                return Some(&self.entries[n].1);
            }
        }
        None
    }
}

impl<T: Copy> StrMap<T> {
    /// A copy of the value of a key, where the map has the key.
    pub fn get(&self, key: &str) -> (r: Option<T>)
        ensures
            r == if self@.contains_key(key@) { Some(self@[key@]) } else { None },
    {
        match self.find(key) {
            Some(v) => Some(*v),
            None => None,
        }
    }
}

} // verus!
