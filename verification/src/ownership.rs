//! Which actor each component actor is attached to, and the walk from a
//! component up to the actor that it belongs to.

use crate::id_table::IdTable;
use vstd::prelude::*;

verus! {

/// The number of links that the engine follows from the instigator of a pickup.
pub const PICKUP_HOP_LIMIT: u32 = 9;

/// The number of links that a diagnostic walk follows.
pub const DIAGNOSTIC_HOP_LIMIT: u32 = 12;

/// The links from component actors to their owners.
pub struct ComponentOwnership {
    links: IdTable<i32>,
}

/// The actor reached from `current` over at most `hops` links: the walk
/// stops at an actor without an owner and at one that owns itself.
pub open spec fn follow(owners: Map<i32, i32>, current: i32, hops: nat) -> i32
    decreases hops,
{
    if hops == 0 || !owners.contains_key(current) || owners[current] == current {
        current
    } else {
        follow(owners, owners[current], (hops - 1) as nat)
    }
}

/// The owners met on the walk from `current` over at most `hops` links, an
/// actor that owns itself included.
pub open spec fn chain(owners: Map<i32, i32>, current: i32, hops: nat) -> Seq<i32>
    decreases hops,
{
    if hops == 0 || !owners.contains_key(current) {
        Seq::empty()
    } else if owners[current] == current {
        seq![current]
    } else {
        seq![owners[current]] + chain(owners, owners[current], (hops - 1) as nat)
    }
}

/// The links that remain once `actor` is gone: none from it and none to it.
pub open spec fn purged(owners: Map<i32, i32>, actor: i32) -> Map<i32, i32> {
    Map::new(
        |c: i32| owners.contains_key(c) && c != actor && owners[c] != actor,
        |c: i32| owners[c],
    )
}

/// The walk ends at its start or at one of the owners met, and meets at
/// most `hops` owners.
pub proof fn lemma_follow_ends_in_chain(owners: Map<i32, i32>, current: i32, hops: nat)
    ensures
        chain(owners, current, hops).len() <= hops,
        follow(owners, current, hops) == if chain(owners, current, hops).len() == 0 {
            current
        } else {
            chain(owners, current, hops).last()
        },
    decreases hops,
{
    if hops == 0 || !owners.contains_key(current) || owners[current] == current {
    } else {
        lemma_follow_ends_in_chain(owners, owners[current], (hops - 1) as nat);
        let rest = chain(owners, owners[current], (hops - 1) as nat);
        let whole = seq![owners[current]] + rest;
        if rest.len() > 0 {
            assert(whole.last() == rest.last());
        }
    }
}

/// Once an actor is gone, no walk starts at it, passes it or ends at it,
/// unless it starts there.
pub proof fn lemma_purged_forgets(owners: Map<i32, i32>, actor: i32, start: i32, hops: nat)
    ensures
        !purged(owners, actor).contains_key(actor),
        !chain(purged(owners, actor), start, hops).contains(actor),
        start != actor ==> follow(purged(owners, actor), start, hops) != actor,
        follow(purged(owners, actor), actor, hops) == actor,
    decreases hops,
{
    let rest = purged(owners, actor);
    if hops == 0 || !rest.contains_key(start) {
    } else if rest[start] == start {
        assert(seq![start][0] == start);
    } else {
        lemma_purged_forgets(owners, actor, rest[start], (hops - 1) as nat);
        let tail = chain(rest, rest[start], (hops - 1) as nat);
        let whole = seq![rest[start]] + tail;
        if whole.contains(actor) {
            let i = choose|i: int| 0 <= i < whole.len() && whole[i] == actor;
            if i > 0 {
                assert(tail[i - 1] == actor);
            }
        }
    }
}

impl View for ComponentOwnership {
    type V = Map<i32, i32>;

    closed spec fn view(&self) -> Map<i32, i32> {
        self.links@
    }
}

impl ComponentOwnership {
    /// The links are held in order.
    pub closed spec fn wf(&self) -> bool {
        self.links.wf()
    }

    /// No links.
    pub fn new() -> (owners: Self)
        ensures
            owners.wf(),
            owners@ == Map::<i32, i32>::empty(),
    {
        ComponentOwnership { links: IdTable::new() }
    }

    /// The owner recorded for `component`, if any.
    pub fn owner_of(&self, component: i32) -> (owner: Option<i32>)
        requires
            self.wf(),
        ensures
            owner == if self@.contains_key(component) {
                Some(self@[component])
            } else {
                None
            },
    {
        match self.links.get(component) {
            Some(owner) => Some(*owner),
            None => None,
        }
    }

    /// Records that `component` is attached to `owner`.
    pub fn attach(&mut self, component: i32, owner: i32)
        requires
            old(self).wf(),
        ensures
            final(self).wf(),
            final(self)@ == old(self)@.insert(component, owner),
    {
        self.links.insert(component, owner);
    }

    /// Drops every link from `actor` and every link to it.
    pub fn purge(&mut self, actor: i32)
        requires
            old(self).wf(),
        ensures
            final(self).wf(),
            final(self)@ == purged(old(self)@, actor),
    {
        let mut kept: IdTable<i32> = IdTable::new();
        let count = self.links.len();
        let mut i: usize = 0;
        while i < count
            invariant
                i <= count,
                count == self.links.ids().len(),
                self.links.wf(),
                kept.wf(),
                forall|c: i32| #[trigger]
                    kept@.contains_key(c) <==> (purged(self.links@, actor).contains_key(c)
                        && exists|j: int| 0 <= j < i && self.links.ids()[j] == c),
                forall|c: i32| #[trigger] kept@.contains_key(c) ==> kept@[c] == self.links@[c],
            decreases count - i,
        {
            let component = self.links.id_at(i);
            let owner = *self.links.entry_at(i);
            proof {
                self.links.lemma_place(i as int);
            }
            let ghost kept_before = kept@;
            if component != actor && owner != actor {
                kept.insert(component, owner);
            }
            proof {
                assert forall|c: i32| #[trigger]
                    kept@.contains_key(c) <==> (purged(self.links@, actor).contains_key(c)
                        && exists|j: int| 0 <= j < i + 1 && self.links.ids()[j] == c) by {
                    if kept_before.contains_key(c) {
                        let j = choose|j: int| 0 <= j < i && self.links.ids()[j] == c;
                        assert(0 <= j < i + 1 && self.links.ids()[j] == c);
                    }
                    if purged(self.links@, actor).contains_key(c) && exists|j: int|
                        0 <= j < i + 1 && self.links.ids()[j] == c {
                        let j = choose|j: int| 0 <= j < i + 1 && self.links.ids()[j] == c;
                        if j < i {
                            assert(kept_before.contains_key(c));
                        }
                    }
                }
            }
            i += 1;
        }
        proof {
            assert forall|c: i32| #[trigger]
                kept@.contains_key(c) <==> purged(self.links@, actor).contains_key(c) by {
                if purged(self.links@, actor).contains_key(c) {
                    let j = self.links.place_of(c);
                    assert(0 <= j < count && self.links.ids()[j] == c);
                }
            }
            assert(kept@ =~= purged(self.links@, actor));
        }
        self.links = kept;
    }

    /// Walks from `start` up the links, at most `max_hops` of them, and
    /// returns the actor at which the walk ends.
    pub fn resolve_owner(&self, start: i32, max_hops: u32) -> (resolved: i32)
        requires
            self.wf(),
        ensures
            resolved == follow(self@, start, max_hops as nat),
    {
        let mut current = start;
        let mut left: u32 = max_hops;
        while left > 0
            invariant
                self.wf(),
                follow(self@, current, left as nat) == follow(self@, start, max_hops as nat),
            decreases left,
        {
            match self.owner_of(current) {
                Some(owner) => {
                    if owner == current {
                        return current;
                    }
                    current = owner;
                    left -= 1;
                },
                None => {
                    return current;
                },
            }
        }
        current
    }

    /// Walks from `start` up the links, at most `max_hops` of them, and
    /// returns the actor at which the walk ends with the owners met on the way.
    pub fn resolve_actor(&self, start: i32, max_hops: u32) -> (walk: (i32, Vec<i32>))
        requires
            self.wf(),
        ensures
            walk.0 == follow(self@, start, max_hops as nat),
            walk.1@ == chain(self@, start, max_hops as nat),
    {
        let mut current = start;
        let mut met: Vec<i32> = Vec::new();
        let mut left: u32 = max_hops;
        while left > 0
            invariant
                self.wf(),
                follow(self@, current, left as nat) == follow(self@, start, max_hops as nat),
                met@ + chain(self@, current, left as nat) == chain(self@, start, max_hops as nat),
            decreases left,
        {
            match self.owner_of(current) {
                Some(owner) => {
                    let ghost met_before = met@;
                    met.push(owner);
                    if owner == current {
                        proof {
                            assert(met@ =~= met_before + seq![current]);
                        }
                        return (current, met);
                    }
                    proof {
                        let rest = chain(self@, owner, (left - 1) as nat);
                        assert(met@ + rest =~= met_before + (seq![owner] + rest));
                    }
                    current = owner;
                    left -= 1;
                },
                None => {
                    proof {
                        assert(met@ + Seq::<i32>::empty() =~= met@);
                    }
                    return (current, met);
                },
            }
        }
        proof {
            assert(met@ + Seq::<i32>::empty() =~= met@);
        }
        (current, met)
    }
}

} // verus!
