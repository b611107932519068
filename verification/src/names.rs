//! A map keyed by name, kept as two parallel vectors.
//!
//! The scheduler looks jobs up by name and also walks every entry in a fixed
//! order, so the map keeps its entries in the order in which their names
//! first arrived and guarantees that no name occurs twice.

use vstd::prelude::*;

verus! {

/// The index of `name` in `names`, if it occurs there.
pub open spec fn position(names: Seq<Seq<char>>, name: Seq<char>) -> int {
    choose|i: int| 0 <= i < names.len() && names[i] == name
}

/// A finite map from names to values of type `V`.
pub struct NameMap<V> {
    keys: Vec<String>,
    values: Vec<V>,
}

impl<V> View for NameMap<V> {
    type V = Map<Seq<char>, V>;

    /// The map from each name to the value stored under it.
    open spec fn view(&self) -> Map<Seq<char>, V> {
        Map::new(
            |name: Seq<char>| self.names().contains(name),
            |name: Seq<char>| self.items()[position(self.names(), name)],
        )
    }
}

impl<V> NameMap<V> {
    /// The names, in storage order.
    pub closed spec fn names(&self) -> Seq<Seq<char>> {
        self.keys@.map_values(|key: String| key@)
    }

    /// The values, in storage order: `items()[i]` belongs to `names()[i]`.
    pub closed spec fn items(&self) -> Seq<V> {
        self.values@
    }

    /// Every name has one value and no name occurs twice.
    pub open spec fn wf(&self) -> bool {
        &&& self.names().len() == self.items().len()
        &&& self.names().no_duplicates()
    }

    /// Entry `i` is what the view holds under the `i`-th name.
    pub proof fn lemma_entry(&self, i: int)
        requires
            self.wf(),
            0 <= i < self.names().len(),
        ensures
            self@.contains_key(self.names()[i]),
            self@[self.names()[i]] == self.items()[i],
            position(self.names(), self.names()[i]) == i,
    {
        let name = self.names()[i];
        assert(self.names().contains(name));
    }

    /// The view has exactly as many keys as there are stored names.
    pub proof fn lemma_size(&self)
        requires
            self.wf(),
        ensures
            self@.dom().finite(),
            self@.dom().len() == self.names().len(),
            self@.dom() == self.names().to_set(),
    {
        self.names().unique_seq_to_set();
        assert(self@.dom() =~= self.names().to_set());
    }

    /// An empty map.
    pub fn new() -> (map: Self)
        ensures
            map.wf(),
            map.names() == Seq::<Seq<char>>::empty(),
            map.items() == Seq::<V>::empty(),
            map@ == Map::<Seq<char>, V>::empty(),
    {
        let map = NameMap { keys: Vec::new(), values: Vec::new() };
        assert(map.names() =~= Seq::<Seq<char>>::empty());
        assert(map@ =~= Map::<Seq<char>, V>::empty());
        map
    }

    /// The number of entries.
    pub fn len(&self) -> (count: usize)
        requires
            self.wf(),
        ensures
            count == self.names().len(),
            count == self.items().len(),
    {
        self.values.len()
    }

    /// Where `name` is stored, if it is.
    pub fn find(&self, name: &str) -> (at: Option<usize>)
        requires
            self.wf(),
        ensures
            match at {
                Some(i) => i < self.names().len() && self.names()[i as int] == name@
                    && position(self.names(), name@) == i,
                None => !self.names().contains(name@),
            },
            at.is_some() == self@.contains_key(name@),
    {
        let needle = name.to_owned();
        let mut i: usize = 0;
        while i < self.keys.len()
            invariant
                self.wf(),
                needle@ == name@,
                i <= self.keys.len(),
                self.keys.len() == self.names().len(),
                forall|j: int| 0 <= j < i ==> self.names()[j] != name@,
            decreases self.keys.len() - i,
        {
            if self.keys[i] == needle {
                proof {
                    self.lemma_entry(i as int);
                }
                return Some(i);
            }
            i += 1;
        }
        None
    }

    /// The name stored at index `i`.
    pub fn name_at(&self, i: usize) -> (name: &String)
        requires
            self.wf(),
            i < self.names().len(),
        ensures
            name@ == self.names()[i as int],
    {
        &self.keys[i]
    }

    /// The value stored at index `i`.
    pub fn item_at(&self, i: usize) -> (item: &V)
        requires
            self.wf(),
            i < self.items().len(),
        ensures
            *item == self.items()[i as int],
    {
        &self.values[i]
    }

    /// Whether `name` has an entry.
    pub fn contains_key(&self, name: &str) -> (found: bool)
        requires
            self.wf(),
        ensures
            found == self@.contains_key(name@),
    {
        self.find(name).is_some()
    }

    /// The value stored under `name`.
    pub fn get(&self, name: &str) -> (found: Option<&V>)
        requires
            self.wf(),
        ensures
            match found {
                Some(item) => self@.contains_key(name@) && *item == self@[name@],
                None => !self@.contains_key(name@),
            },
    {
        match self.find(name) {
            Some(i) => Some(&self.values[i]),
            None => None,
        }
    }

    /// Removes the entry of `name`, if there is one, and returns its value.
    pub fn remove(&mut self, name: &str) -> (removed: Option<V>)
        requires
            old(self).wf(),
        ensures
            final(self).wf(),
            final(self)@ == old(self)@.remove(name@),
            match removed {
                Some(item) => {
                    let i = position(old(self).names(), name@);
                    &&& old(self)@.contains_key(name@)
                    &&& item == old(self)@[name@]
                    &&& 0 <= i < old(self).names().len()
                    &&& old(self).names()[i] == name@
                    &&& old(self).items()[i] == item
                    &&& final(self).names() == old(self).names().remove(i)
                    &&& final(self).items() == old(self).items().remove(i)
                },
                None => {
                    &&& !old(self)@.contains_key(name@)
                    &&& final(self).names() == old(self).names()
                    &&& final(self).items() == old(self).items()
                },
            },
    {
        match self.find(name) {
            Some(i) => {
                let ghost before = *self;
                let _key = self.keys.remove(i);
                let item = self.values.remove(i);
                proof {
                    assert(self.names() =~= before.names().remove(i as int));
                    assert(self.names().no_duplicates()) by {
                        assert forall|a: int, b: int|
                            0 <= a < self.names().len() && 0 <= b < self.names().len() && a != b
                            implies self.names()[a] != self.names()[b] by {
                            let a0 = if a < i { a } else { a + 1 };
                            let b0 = if b < i { b } else { b + 1 };
                            assert(self.names()[a] == before.names()[a0]);
                            assert(self.names()[b] == before.names()[b0]);
                        }
                    }
                    assert(self@ =~= before@.remove(name@)) by {
                        assert forall|other: Seq<char>|
                            self@.contains_key(other) <==> before@.remove(name@).contains_key(
                                other,
                            ) by {
                            if self.names().contains(other) {
                                let a = position(self.names(), other);
                                let a0 = if a < i { a } else { a + 1 };
                                assert(before.names()[a0] == other);
                            }
                            if before.names().contains(other) && other != name@ {
                                let a0 = position(before.names(), other);
                                let a = if a0 < i { a0 } else { a0 - 1 };
                                assert(self.names()[a] == other);
                            }
                        }
                        assert forall|other: Seq<char>| self@.contains_key(other) implies self@[other]
                            == before@.remove(name@)[other] by {
                            let a = position(self.names(), other);
                            let a0 = if a < i { a } else { a + 1 };
                            assert(before.names()[a0] == other);
                            before.lemma_entry(a0);
                        }
                    }
                    before.lemma_entry(i as int);
                }
                Some(item)
            },
            None => {
                proof {
                    assert(self@ =~= self@.remove(name@));
                }
                None
            },
        }
    }

    /// Stores `item` under `name`, replacing what was stored there before.
    pub fn insert(&mut self, name: String, item: V)
        requires
            old(self).wf(),
        ensures
            final(self).wf(),
            final(self)@ == old(self)@.insert(name@, item),
            old(self)@.contains_key(name@) ==> {
                let i = position(old(self).names(), name@);
                &&& 0 <= i < old(self).names().len()
                &&& final(self).names() == old(self).names().remove(i).push(name@)
                &&& final(self).items() == old(self).items().remove(i).push(item)
            },
            !old(self)@.contains_key(name@) ==> {
                &&& final(self).names() == old(self).names().push(name@)
                &&& final(self).items() == old(self).items().push(item)
            },
    {
        let ghost before = *self;
        let _previous = self.remove(name.as_str());
        let ghost middle = *self;
        self.keys.push(name);
        self.values.push(item);
        proof {
            assert(self.names() =~= middle.names().push(name@));
            assert(!middle.names().contains(name@));
            assert(self.names().no_duplicates()) by {
                assert forall|a: int, b: int|
                    0 <= a < self.names().len() && 0 <= b < self.names().len() && a != b
                    implies self.names()[a] != self.names()[b] by {
                    if a < middle.names().len() {
                        assert(middle.names().contains(self.names()[a]));
                    }
                    if b < middle.names().len() {
                        assert(middle.names().contains(self.names()[b]));
                    }
                }
            }
            let last = middle.names().len() as int;
            self.lemma_entry(last);
            assert(self@ =~= before@.insert(name@, item)) by {
                assert forall|other: Seq<char>|
                    self@.contains_key(other) <==> before@.insert(name@, item).contains_key(
                        other,
                    ) by {
                    assert(middle@.contains_key(other) == middle.names().contains(other));
                    if other == name@ {
                        assert(self.names()[last] == other);
                    } else if middle.names().contains(other) {
                        let a = position(middle.names(), other);
                        assert(self.names()[a] == other);
                    } else if self.names().contains(other) {
                        let a = position(self.names(), other);
                        assert(middle.names()[a] == other);
                    }
                }
                assert forall|other: Seq<char>| self@.contains_key(other) implies self@[other]
                    == before@.insert(name@, item)[other] by {
                    if other != name@ {
                        let a = position(self.names(), other);
                        assert(middle.names()[a] == other);
                        middle.lemma_entry(a);
                        self.lemma_entry(a);
                    }
                }
            }
        }
    }

    /// Removes every entry.
    pub fn clear(&mut self)
        ensures
            final(self).wf(),
            final(self).names() == Seq::<Seq<char>>::empty(),
            final(self).items() == Seq::<V>::empty(),
            final(self)@ == Map::<Seq<char>, V>::empty(),
    {
        self.keys.clear();
        self.values.clear();
        assert(self.names() =~= Seq::<Seq<char>>::empty());
        assert(self@ =~= Map::<Seq<char>, V>::empty());
    }
}

} // verus!
