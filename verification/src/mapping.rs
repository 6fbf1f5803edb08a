//! A lookup table from node or edge ids to values of the caller's choice.

use vstd::prelude::*;
use std::collections::HashMap;
use vstd::std_specs::hash::{spec_hash_map_iter, spec_keys_iter, spec_values_iter};
use vstd::std_specs::iter::IteratorSpec;

verus! {

broadcast use vstd::std_specs::hash::group_hash_axioms;

/// What the keys of an [`AttributeMap`] identify.
#[derive(Clone, Copy, Debug, PartialEq, Eq, Structural)]
pub enum MapType {
    Node,
    Edge,
}

/// Values attached to the ids of nodes or of edges.
pub struct AttributeMap<T> {
    map: HashMap<usize, T>,
    map_type: MapType,
}

impl<T> View for AttributeMap<T> {
    type V = Map<usize, T>;

    closed spec fn view(&self) -> Map<usize, T> {
        self.map@
    }
}

impl<T> AttributeMap<T> {
    /// What the keys identify.
    pub closed spec fn kind(&self) -> MapType {
        self.map_type
    }

    /// An empty table for ids of the given kind.
    pub fn new(map_type: MapType) -> (m: Self)
        ensures
            m@ == Map::<usize, T>::empty(),
            m.kind() == map_type,
    {
        AttributeMap { map: HashMap::new(), map_type }
    }

    /// Stores `value` under `id`, in place of what was there.
    pub fn insert(&mut self, id: usize, value: T)
        ensures
            final(self)@ == old(self)@.insert(id, value),
            final(self).kind() == old(self).kind(),
    {
        self.map.insert(id, value);
    }

    /// The value stored under `id`, if there is one.
    pub fn get(&self, id: usize) -> (r: Option<&T>)
        ensures
            self@.contains_key(id) ==> r == Some(&self@[id]),
            !self@.contains_key(id) ==> r.is_none(),
    {
        self.map.get(&id)
    }

    /// Drops what is stored under `id`.
    pub fn remove(&mut self, id: usize)
        ensures
            final(self)@ == old(self)@.remove(id),
            final(self).kind() == old(self).kind(),
    {
        self.map.remove(&id);
    }

    /// The number of ids that have a value.
    pub fn len(&self) -> (n: usize)
        ensures
            n == self@.len(),
    {
        self.map.len()
    }

    /// Whether no id has a value.
    pub fn is_empty(&self) -> (r: bool)
        ensures
            r == self@.is_empty(),
            r <==> forall|id: usize| !self@.contains_key(id),
    {
        proof {
            if self@.is_empty() {
                assert forall|id: usize| !self@.contains_key(id) by {
                    assert(!self@.dom().contains(id));
                }
            } else {
                let id = choose|id: usize| self@.dom().contains(id);
                assert(self@.contains_key(id));
            }
        }
        self.map.is_empty()
    }

    /// Drops every value.
    pub fn clear(&mut self)
        ensures
            final(self)@ == Map::<usize, T>::empty(),
            final(self).kind() == old(self).kind(),
    {
        self.map.clear();
    }

    /// What the keys identify.
    pub fn get_map_type(&self) -> (t: &MapType)
        ensures
            *t == self.kind(),
    {
        &self.map_type
    }

    /// The ids that have a value, each once, in no particular order.
    pub fn keys(&self) -> (ids: Vec<usize>)
        ensures
            ids@.no_duplicates(),
            ids@.to_set() == self@.dom(),
            ids.len() == self@.len(),
    {
        let mut ids: Vec<usize> = Vec::new();
        let ghost all = spec_keys_iter(&self.map).remaining().unref();
        for id in it: self.map.keys()
            invariant
                it.seq().unref() == all,
                ids@ == all.take(it.index()),
        {
            ids.push(*id);
            assert(ids@ =~= all.take(it.index() + 1));
        }
        assert(ids@ =~= all);
        ids
    }

    /// Keeps the entries for which `f` answers `true` and drops the others.
    /// `f` is asked once for each entry, in no particular order.
    pub fn retain<F>(&mut self, f: F) where F: Fn(&usize, &T) -> bool
        requires
            forall|id: usize| #[trigger]
                old(self)@.contains_key(id) ==> call_requires(f, (&id, &old(self)@[id])),
        ensures
            final(self).kind() == old(self).kind(),
            forall|id: usize| #[trigger]
                final(self)@.contains_key(id) ==> old(self)@.contains_key(id) && final(self)@[id]
                    == old(self)@[id] && call_ensures(f, (&id, &old(self)@[id]), true),
            forall|id: usize|
                old(self)@.contains_key(id) && !(#[trigger] final(self)@.contains_key(id))
                    ==> call_ensures(f, (&id, &old(self)@[id]), false),
    {
        let ids = self.keys();
        let mut i: usize = 0;
        while i < ids.len()
            invariant
                i <= ids.len(),
                ids@.no_duplicates(),
                ids@.to_set() == old(self)@.dom(),
                self.kind() == old(self).kind(),
                forall|id: usize| #[trigger]
                    old(self)@.contains_key(id) ==> call_requires(f, (&id, &old(self)@[id])),
                forall|id: usize| #[trigger]
                    self@.contains_key(id) ==> old(self)@.contains_key(id)
                        && self@[id] == old(self)@[id],
                forall|j: int| i <= j < ids.len() ==> self@.contains_key(#[trigger] ids[j]),
                forall|j: int|
                    0 <= j < i ==> call_ensures(
                        f,
                        (&ids[j], &old(self)@[ids[j]]),
                        self@.contains_key(#[trigger] ids[j]),
                    ),
            decreases ids.len() - i,
        {
            let id = ids[i];
            let keep = match self.map.get(&id) {
                Some(value) => f(&id, value),
                None => true,
            };
            if !keep {
                self.map.remove(&id);
            }
            i += 1;
        }
        assert forall|id: usize|
            old(self)@.contains_key(id) && !(#[trigger] self@.contains_key(id)) implies call_ensures(
            f,
            (&id, &old(self)@[id]),
            false,
        ) by {
            assert(ids@.to_set().contains(id));
            let j = choose|j: int| 0 <= j < ids.len() && ids[j] == id;
            assert(!self@.contains_key(ids[j]));
        }
        assert forall|id: usize| #[trigger] self@.contains_key(id) implies call_ensures(
            f,
            (&id, &old(self)@[id]),
            true,
        ) by {
            assert(ids@.to_set().contains(id));
            let j = choose|j: int| 0 <= j < ids.len() && ids[j] == id;
            assert(self@.contains_key(ids[j]));
        }
    }

    /// The table itself, to read.
    pub fn get_map(&self) -> (m: &HashMap<usize, T>)
        ensures
            m@ == self@,
    {
        &self.map
    }

    /// The values, one for each id that has one, in no particular order.
    pub fn values(&self) -> (vals: Vec<&T>)
        ensures
            vals.len() == self@.len(),
            vals@.unref().to_set() == self@.values(),
    {
        let mut vals: Vec<&T> = Vec::new();
        let ghost all = spec_values_iter(&self.map).remaining();
        for value in it: self.map.values()
            invariant
                it.seq() == all,
                vals@ == all.take(it.index()),
        {
            vals.push(value);
            assert(vals@ =~= all.take(it.index() + 1));
        }
        assert(vals@ =~= all);
        vals
    }

    /// The entries, each id with its value, in no particular order. No id
    /// comes twice, and every id that has a value comes.
    pub fn iter(&self) -> (entries: Vec<(usize, &T)>)
        ensures
            entries.len() == self@.len(),
            forall|i: int|
                0 <= i < entries.len() ==> self@.contains_key((#[trigger] entries[i]).0)
                    && self@[entries[i].0] == *entries[i].1,
            forall|i: int, j: int|
                0 <= i < j < entries.len() ==> (#[trigger] entries[i]).0 != (#[trigger] entries[j]).0,
            forall|id: usize|  #[trigger]
                self@.contains_key(id) ==> exists|i: int|
                    0 <= i < entries.len() && (#[trigger] entries[i]).0 == id,
    {
        let mut entries: Vec<(usize, &T)> = Vec::new();
        let ghost all = spec_hash_map_iter(&self.map).remaining();
        for entry in it: self.map.iter()
            invariant
                it.seq() == all,
                entries.len() == it.index(),
                forall|i: int|
                    0 <= i < entries.len() ==> (#[trigger] entries[i]).0 == *all[i].0
                        && entries[i].1 == all[i].1,
        {
            entries.push((*entry.0, entry.1));
        }
        proof {
            assert forall|i: int, j: int| 0 <= i < j < entries.len() implies (#[trigger] entries[i]).0
                != (#[trigger] entries[j]).0 by {
                if entries[i].0 == entries[j].0 {
                    assert(self@.contains_key(*all[i].0) && self@[*all[i].0] == *all[i].1);
                    assert(self@.contains_key(*all[j].0) && self@[*all[j].0] == *all[j].1);
                    assert(all[i] == all[j]);
                }
            }
            assert forall|id: usize| #[trigger] self@.contains_key(id) implies exists|i: int|
                0 <= i < entries.len() && (#[trigger] entries[i]).0 == id by {
                assert(all.contains((&id, &self@[id])));
                let i = choose|i: int| 0 <= i < all.len() && all[i] == (&id, &self@[id]);
                assert(entries[i].0 == id);
            }
        }
        entries
    }

    /// The table itself, to change. What the caller leaves in it is what this
    /// map then holds.
    pub fn get_map_mut(&mut self) -> (m: &mut HashMap<usize, T>)
        ensures
            m@ == old(self)@,
            final(self)@ == final(m)@,
            final(self).kind() == old(self).kind(),
    {
        &mut self.map
    }
}

} // verus!
