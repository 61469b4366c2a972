//! A table keyed by actor id that keeps its entries in ascending order of id,
//! so that it can be walked in a fixed order.

use vstd::prelude::*;

verus! {

/// Entries keyed by actor id, held in ascending order of id.
pub struct IdTable<V> {
    keys: Vec<i32>,
    values: Vec<V>,
}

impl<V> IdTable<V> {
    /// The ids of the table, in the order in which it is walked.
    pub closed spec fn ids(&self) -> Seq<i32> {
        self.keys@
    }

    /// The entries of the table, each at the place of its id.
    pub closed spec fn entries(&self) -> Seq<V> {
        self.values@
    }

    /// Every id has its entry, and the ids strictly ascend.
    pub open spec fn wf(&self) -> bool {
        &&& self.ids().len() == self.entries().len()
        &&& forall|i: int, j: int| 0 <= i < j < self.ids().len() ==> self.ids()[i] < self.ids()[j]
    }

    /// The place of `id` in the table.
    pub open spec fn place_of(&self, id: i32) -> int {
        choose|i: int| 0 <= i < self.ids().len() && self.ids()[i] == id
    }

    /// The table as a map from id to entry.
    pub open spec fn view(&self) -> Map<i32, V> {
        Map::new(
            |id: i32| exists|i: int| 0 <= i < self.ids().len() && self.ids()[i] == id,
            |id: i32| self.entries()[self.place_of(id)],
        )
    }

    /// The id at place `i` maps to the entry at place `i`.
    pub proof fn lemma_place(&self, i: int)
        requires
            self.wf(),
            0 <= i < self.ids().len(),
        ensures
            self@.contains_key(self.ids()[i]),
            self.place_of(self.ids()[i]) == i,
            self@[self.ids()[i]] == self.entries()[i],
    {
        let j = self.place_of(self.ids()[i]);
        assert(0 <= j < self.ids().len() && self.ids()[j] == self.ids()[i]);
        if j < i {
            assert(self.ids()[j] < self.ids()[i]);
        } else if i < j {
            assert(self.ids()[i] < self.ids()[j]);
        }
    }

    /// A table that differs from `before` in the entry at place `i` alone maps
    /// the id at that place to the new entry, and every other id as before.
    pub proof fn lemma_entry_changed(&self, before: &Self, i: int)
        requires
            before.wf(),
            0 <= i < before.ids().len(),
            self.ids() == before.ids(),
            self.entries() == before.entries().update(i, self.entries()[i]),
        ensures
            self.wf(),
            self@ == before@.insert(before.ids()[i], self.entries()[i]),
    {
        assert forall|k: i32| self@.contains_key(k) implies #[trigger] self@[k] == before@.insert(
            before.ids()[i],
            self.entries()[i],
        )[k] by {
            let j = self.place_of(k);
            self.lemma_place(j);
            before.lemma_place(j);
        }
        assert(self@ =~= before@.insert(before.ids()[i], self.entries()[i]));
    }

    /// An empty table.
    pub fn new() -> (table: Self)
        ensures
            table.wf(),
            table.ids().len() == 0,
            table@ == Map::<i32, V>::empty(),
    {
        let table = IdTable { keys: Vec::new(), values: Vec::new() };
        assert(table@ =~= Map::<i32, V>::empty());
        table
    }

    /// The table maps as many ids as it has places.
    pub proof fn lemma_len(&self)
        requires
            self.wf(),
        ensures
            self@.dom().finite(),
            self@.len() == self.ids().len(),
    {
        assert(self@.dom() =~= self.ids().to_set());
        self.ids().unique_seq_to_set();
    }

    /// The number of entries.
    pub fn len(&self) -> (n: usize)
        requires
            self.wf(),
        ensures
            n == self.ids().len(),
            n == self@.len(),
    {
        proof {
            self.lemma_len();
        }
        self.keys.len()
    }

    /// The id at place `i`.
    pub fn id_at(&self, i: usize) -> (id: i32)
        requires
            self.wf(),
            i < self.ids().len(),
        ensures
            id == self.ids()[i as int],
    {
        self.keys[i]
    }

    /// The entry at place `i`.
    pub fn entry_at(&self, i: usize) -> (entry: &V)
        requires
            self.wf(),
            i < self.ids().len(),
        ensures
            *entry == self.entries()[i as int],
    {
        &self.values[i]
    }

    /// The entry at place `i`, to be changed where it stands.
    pub fn entry_mut(&mut self, i: usize) -> (entry: &mut V)
        requires
            old(self).wf(),
            i < old(self).ids().len(),
        ensures
            *entry == old(self).entries()[i as int],
            final(self).ids() == old(self).ids(),
            final(self).entries() == old(self).entries().update(i as int, *final(entry)),
    {
        &mut self.values[i]
    }

    /// The first place whose id is not below `id`.
    fn lower_bound(&self, id: i32) -> (at: usize)
        requires
            self.wf(),
        ensures
            at <= self.ids().len(),
            forall|i: int| 0 <= i < at ==> self.ids()[i] < id,
            forall|i: int| at <= i < self.ids().len() ==> self.ids()[i] >= id,
    {
        let mut lo: usize = 0;
        let mut hi: usize = self.keys.len();
        while lo < hi
            invariant
                self.wf(),
                lo <= hi <= self.keys@.len(),
                forall|i: int| 0 <= i < lo ==> self.keys@[i] < id,
                forall|i: int| hi <= i < self.keys@.len() ==> self.keys@[i] >= id,
            decreases hi - lo,
        {
            let mid: usize = lo + (hi - lo) / 2;
            if self.keys[mid] < id {
                lo = mid + 1;
            } else {
                hi = mid;
            }
        }
        lo
    }

    /// The place of `id`, if the table holds it.
    pub fn position(&self, id: i32) -> (place: Option<usize>)
        requires
            self.wf(),
        ensures
            match place {
                Some(i) => i < self.ids().len() && self.ids()[i as int] == id
                    && self@.contains_key(id) && self@[id] == self.entries()[i as int],
                None => !self@.contains_key(id),
            },
    {
        let at = self.lower_bound(id);
        if at < self.keys.len() && self.keys[at] == id {
            proof {
                self.lemma_place(at as int);
            }
            Some(at)
        } else {
            None
        }
    }

    /// Whether the table holds `id`.
    pub fn contains(&self, id: i32) -> (held: bool)
        requires
            self.wf(),
        ensures
            held == self@.contains_key(id),
    {
        self.position(id).is_some()
    }

    /// The entry of `id`, if the table holds it.
    pub fn get(&self, id: i32) -> (entry: Option<&V>)
        requires
            self.wf(),
        ensures
            match entry {
                Some(v) => self@.contains_key(id) && *v == self@[id],
                None => !self@.contains_key(id),
            },
    {
        match self.position(id) {
            Some(i) => Some(&self.values[i]),
            None => None,
        }
    }

    /// Puts `entry` at `id`, in place of what the table held there.
    pub fn insert(&mut self, id: i32, entry: V)
        requires
            old(self).wf(),
        ensures
            final(self).wf(),
            final(self)@ == old(self)@.insert(id, entry),
            final(self).ids().len() == old(self).ids().len() + (if old(self)@.contains_key(id) {
                0int
            } else {
                1int
            }),
    {
        let at = self.lower_bound(id);
        if at < self.keys.len() && self.keys[at] == id {
            self.values.set(at, entry);
            proof {
                let goal = old(self)@.insert(id, entry);
                assert forall|k: i32| #[trigger]
                    self@.contains_key(k) <==> goal.contains_key(k) by {}
                assert forall|k: i32| self@.contains_key(k) implies #[trigger] self@[k]
                    == goal[k] by {
                    let i = self.place_of(k);
                    self.lemma_place(i);
                    old(self).lemma_place(i);
                }
                assert(self@ =~= goal);
            }
        } else {
            self.keys.insert(at, id);
            self.values.insert(at, entry);
            proof {
                let goal = old(self)@.insert(id, entry);
                assert forall|i: int, j: int| 0 <= i < j < self.ids().len() implies self.ids()[i]
                    < self.ids()[j] by {
                    if j < at {
                    } else if j == at {
                    } else if i < at {
                        assert(self.ids()[j] == old(self).ids()[j - 1]);
                    } else if i == at {
                        assert(self.ids()[j] == old(self).ids()[j - 1]);
                    } else {
                        assert(self.ids()[i] == old(self).ids()[i - 1]);
                        assert(self.ids()[j] == old(self).ids()[j - 1]);
                    }
                }
                assert(self.wf());
                assert forall|k: i32| #[trigger]
                    self@.contains_key(k) <==> goal.contains_key(k) by {
                    if old(self)@.contains_key(k) {
                        let i = old(self).place_of(k);
                        if i < at {
                            assert(self.ids()[i] == k);
                        } else {
                            assert(self.ids()[i + 1] == k);
                        }
                    }
                    if k == id {
                        assert(self.ids()[at as int] == k);
                    }
                    if self@.contains_key(k) && k != id {
                        let i = self.place_of(k);
                        if i < at {
                            assert(old(self).ids()[i] == k);
                        } else {
                            assert(old(self).ids()[i - 1] == k);
                        }
                    }
                }
                assert forall|k: i32| self@.contains_key(k) implies #[trigger] self@[k]
                    == goal[k] by {
                    let i = self.place_of(k);
                    self.lemma_place(i);
                    if i < at {
                        old(self).lemma_place(i);
                    } else if i > at {
                        old(self).lemma_place(i - 1);
                    }
                }
                assert(self@ =~= goal);
            }
        }
    }

    /// Takes `id` and its entry out of the table.
    pub fn remove(&mut self, id: i32) -> (entry: Option<V>)
        requires
            old(self).wf(),
        ensures
            final(self).wf(),
            final(self)@ == old(self)@.remove(id),
            match entry {
                Some(v) => old(self)@.contains_key(id) && v == old(self)@[id],
                None => !old(self)@.contains_key(id),
            },
    {
        match self.position(id) {
            Some(at) => {
                self.keys.remove(at);
                let entry = self.values.remove(at);
                proof {
                    let goal = old(self)@.remove(id);
                    assert(self.wf());
                    assert forall|k: i32| #[trigger]
                        self@.contains_key(k) <==> goal.contains_key(k) by {
                        if old(self)@.contains_key(k) && k != id {
                            let i = old(self).place_of(k);
                            if i < at {
                                assert(self.ids()[i] == k);
                            } else {
                                assert(self.ids()[i - 1] == k);
                            }
                        }
                        if self@.contains_key(k) {
                            let i = self.place_of(k);
                            if i < at {
                                assert(old(self).ids()[i] == k);
                            } else {
                                assert(old(self).ids()[i + 1] == k);
                            }
                        }
                    }
                    assert forall|k: i32| self@.contains_key(k) implies #[trigger] self@[k]
                        == goal[k] by {
                        let i = self.place_of(k);
                        self.lemma_place(i);
                        if i < at {
                            old(self).lemma_place(i);
                        } else {
                            old(self).lemma_place(i + 1);
                        }
                    }
                    assert(self@ =~= goal);
                }
                Some(entry)
            },
            None => {
                assert(self@ =~= old(self)@.remove(id));
                None
            },
        }
    }
}

} // verus!
