//! Player slots: the stable identities that the roster declares, the cars
//! that hold them, and the queues of free slots of each team.

use vstd::prelude::*;

verus! {

/// One declared player: a name and the team as the header gives it.
#[derive(Clone, Debug)]
pub struct RosterEntry {
    pub name: String,
    pub team: i64,
}

/// The slots of a recording, the actor that holds each, and the free slots
/// of each team in the order in which they are handed out.
pub struct SlotTable {
    teams: Vec<u8>,
    holders: Vec<Option<i32>>,
    free_zero: Vec<usize>,
    free_one: Vec<usize>,
}

/// A `SlotTable` as plain values.
pub struct SlotsView {
    pub teams: Seq<u8>,
    pub holders: Seq<Option<i32>>,
    pub free_zero: Seq<usize>,
    pub free_one: Seq<usize>,
}

/// The team of a slot: 0 for a player declared on team 0, 1 for any other.
pub open spec fn slot_team(team: i64) -> u8 {
    if team == 0 {
        0
    } else {
        1
    }
}

/// The teams that a roster declares, in its order.
pub open spec fn roster_teams(roster: Seq<RosterEntry>) -> Seq<i64> {
    Seq::new(roster.len(), |i: int| roster[i].team)
}

/// The slots of `team` among the first `n` of a roster, in roster order.
pub open spec fn roster_slots(teams: Seq<i64>, team: u8, n: int) -> Seq<usize>
    decreases n,
{
    if n <= 0 {
        Seq::empty()
    } else {
        let before = roster_slots(teams, team, n - 1);
        if slot_team(teams[n - 1]) == team {
            before.push((n - 1) as usize)
        } else {
            before
        }
    }
}

/// The slots that a roster gives, all of them free.
pub open spec fn initial_slots(teams: Seq<i64>) -> SlotsView {
    SlotsView {
        teams: Seq::new(teams.len(), |i: int| slot_team(teams[i])),
        holders: Seq::new(teams.len(), |i: int| None),
        free_zero: roster_slots(teams, 0, teams.len() as int),
        free_one: roster_slots(teams, 1, teams.len() as int),
    }
}

/// The queue of free slots of `team`: that of team 0, or that of team 1 for any other.
pub open spec fn queue(v: SlotsView, team: u8) -> Seq<usize> {
    if team == 0 {
        v.free_zero
    } else {
        v.free_one
    }
}

/// The first slot from `from` on that `actor` holds.
pub open spec fn first_slot(holders: Seq<Option<i32>>, actor: i32, from: int) -> Option<int>
    decreases holders.len() - from,
{
    if from < 0 || from >= holders.len() {
        None
    } else if holders[from] == Some(actor) {
        Some(from)
    } else {
        first_slot(holders, actor, from + 1)
    }
}

/// The slot that `actor` holds, if any.
pub open spec fn slot_of(holders: Seq<Option<i32>>, actor: i32) -> Option<int> {
    first_slot(holders, actor, 0)
}

/// The slots after `actor` asked for one of `team`, where any team but 0
/// counts as team 1: it keeps the slot it holds; else it gets the first
/// free slot of the team; else nothing changes.
pub open spec fn bound(v: SlotsView, actor: i32, team: u8) -> SlotsView {
    if slot_of(v.holders, actor) is Some || queue(v, team).len() == 0 {
        v
    } else {
        let slot = queue(v, team)[0];
        SlotsView {
            holders: v.holders.update(slot as int, Some(actor)),
            free_zero: if team == 0 {
                v.free_zero.drop_first()
            } else {
                v.free_zero
            },
            free_one: if team == 0 {
                v.free_one
            } else {
                v.free_one.drop_first()
            },
            ..v
        }
    }
}

/// The slots after `actor` is gone: the slot it held is free again, last in
/// the queue of the slot's own team.
pub open spec fn released(v: SlotsView, actor: i32) -> SlotsView {
    match slot_of(v.holders, actor) {
        None => v,
        Some(slot) => SlotsView {
            holders: v.holders.update(slot, None),
            free_zero: if v.teams[slot] == 0 {
                v.free_zero.push(slot as usize)
            } else {
                v.free_zero
            },
            free_one: if v.teams[slot] == 0 {
                v.free_one
            } else {
                v.free_one.push(slot as usize)
            },
            ..v
        },
    }
}

/// The queue of `team` holds slots of that team that nobody holds, each once.
pub open spec fn queue_ok(v: SlotsView, team: u8) -> bool {
    let q = queue(v, team);
    &&& forall|k: int|
        0 <= k < q.len() ==> {
            &&& (#[trigger] q[k]) < v.holders.len()
            &&& v.teams[q[k] as int] == team
            &&& v.holders[q[k] as int] is None
        }
    &&& forall|k: int, l: int| 0 <= k < l < q.len() ==> q[k] != q[l]
}

/// What holds of the slots at all times: every slot has team 0 or 1; no
/// actor holds two slots; and the free queue of each team holds exactly
/// the slots of that team that nobody holds, each once.
pub open spec fn slots_inv(v: SlotsView) -> bool {
    &&& v.holders.len() == v.teams.len()
    &&& v.teams.len() <= usize::MAX
    &&& forall|i: int| 0 <= i < v.teams.len() ==> #[trigger] v.teams[i] <= 1
    &&& forall|i: int, j: int|
        0 <= i < v.holders.len() && 0 <= j < v.holders.len() && i != j && v.holders[i] is Some
            ==> v.holders[i] != v.holders[j]
    &&& queue_ok(v, 0)
    &&& queue_ok(v, 1)
    &&& forall|i: int|
        0 <= i < v.holders.len() && (#[trigger] v.holders[i]) is None ==> queue(
            v,
            v.teams[i],
        ).contains(i as usize)
}

/// What `first_slot` finds is the first slot that the actor holds, and it
/// finds none only if the actor holds none.
pub proof fn lemma_first_slot(holders: Seq<Option<i32>>, actor: i32, from: int)
    requires
        0 <= from,
    ensures
        match first_slot(holders, actor, from) {
            Some(i) => from <= i < holders.len() && holders[i] == Some(actor) && forall|j: int|
                from <= j < i ==> holders[j] != Some(actor),
            None => forall|j: int| from <= j < holders.len() ==> holders[j] != Some(actor),
        },
    decreases holders.len() - from,
{
    if from < holders.len() && holders[from] != Some(actor) {
        lemma_first_slot(holders, actor, from + 1);
    }
}

/// Where no actor holds two slots, the slot of an actor is the one that holds it.
pub proof fn lemma_slot_of_holder(v: SlotsView, i: int)
    requires
        slots_inv(v),
        0 <= i < v.holders.len(),
        v.holders[i] is Some,
    ensures
        slot_of(v.holders, v.holders[i].unwrap()) == Some(i),
{
    lemma_first_slot(v.holders, v.holders[i].unwrap(), 0);
}

/// No slot is held twice and no actor holds two slots.
pub proof fn lemma_bindings_distinct(v: SlotsView, i: int, j: int)
    requires
        slots_inv(v),
        0 <= i < v.holders.len(),
        0 <= j < v.holders.len(),
        i != j,
        v.holders[i] is Some,
    ensures
        v.holders[i] != v.holders[j],
{
}

/// The slots of a team among the first `n` of a roster are exactly the
/// indices below `n` with that team, in ascending order.
pub proof fn lemma_roster_slots(teams: Seq<i64>, team: u8, n: int)
    requires
        0 <= n <= teams.len() <= usize::MAX,
    ensures
        forall|k: int|
            0 <= k < roster_slots(teams, team, n).len() ==> {
                &&& (#[trigger] roster_slots(teams, team, n)[k]) < n
                &&& slot_team(teams[roster_slots(teams, team, n)[k] as int]) == team
            },
        forall|k: int, l: int|
            0 <= k < l < roster_slots(teams, team, n).len() ==> roster_slots(teams, team, n)[k]
                < roster_slots(teams, team, n)[l],
        forall|i: int|
            0 <= i < n && slot_team(#[trigger] teams[i]) == team ==> roster_slots(
                teams,
                team,
                n,
            ).contains(i as usize),
    decreases n,
{
    if n > 0 {
        lemma_roster_slots(teams, team, n - 1);
        let before = roster_slots(teams, team, n - 1);
        let now = roster_slots(teams, team, n);
        assert forall|i: int|
            0 <= i < n && slot_team(#[trigger] teams[i]) == team implies now.contains(
            i as usize,
        ) by {
            if i < n - 1 {
                let k = choose|k: int| 0 <= k < before.len() && before[k] == i as usize;
                assert(now[k] == i as usize);
            } else {
                assert(now[now.len() - 1] == i as usize);
            }
        }
    }
}

/// The slots that a roster gives satisfy what holds of the slots at all times.
pub proof fn lemma_initial_slots_inv(teams: Seq<i64>)
    requires
        teams.len() <= usize::MAX,
    ensures
        slots_inv(initial_slots(teams)),
{
    let v = initial_slots(teams);
    let n = teams.len() as int;
    lemma_roster_slots(teams, 0, n);
    lemma_roster_slots(teams, 1, n);
    assert(queue_ok(v, 0));
    assert(queue_ok(v, 1));
    assert forall|i: int|
        0 <= i < v.holders.len() && (#[trigger] v.holders[i]) is None implies queue(
        v,
        v.teams[i],
    ).contains(i as usize) by {
        assert(slot_team(teams[i]) == v.teams[i]);
    }
}

/// Handing out a slot keeps what holds of the slots at all times.
pub proof fn lemma_bound_keeps_inv(v: SlotsView, actor: i32, asked: u8)
    requires
        slots_inv(v),
    ensures
        slots_inv(bound(v, actor, asked)),
        bound(v, actor, asked).teams == v.teams,
{
    let w = bound(v, actor, asked);
    let team: u8 = if asked == 0 { 0 } else { 1 };
    assert(queue(v, asked) == queue(v, team));
    assert(w == bound(v, actor, team));
    if !(slot_of(v.holders, actor) is Some || queue(v, team).len() == 0) {
        lemma_first_slot(v.holders, actor, 0);
        let q = queue(v, team);
        let slot = q[0];
        assert(v.holders[slot as int] is None);
        let other: u8 = if team == 0 { 1 } else { 0 };
        assert(queue(w, team) == q.drop_first());
        assert(queue(w, other) == queue(v, other));
        assert forall|k: int| 0 <= k < queue(w, team).len() implies {
            &&& (#[trigger] queue(w, team)[k]) < w.holders.len()
            &&& w.teams[queue(w, team)[k] as int] == team
            &&& w.holders[queue(w, team)[k] as int] is None
        } by {
            assert(queue(w, team)[k] == q[k + 1]);
            assert(q[k + 1] != q[0]);
        }
        assert forall|k: int, l: int| 0 <= k < l < queue(w, team).len() implies queue(w, team)[k]
            != queue(w, team)[l] by {
            assert(queue(w, team)[k] == q[k + 1]);
            assert(queue(w, team)[l] == q[l + 1]);
        }
        assert(queue_ok(w, team));
        assert forall|k: int| 0 <= k < queue(w, other).len() implies {
            &&& (#[trigger] queue(w, other)[k]) < w.holders.len()
            &&& w.teams[queue(w, other)[k] as int] == other
            &&& w.holders[queue(w, other)[k] as int] is None
        } by {
            let s = queue(v, other)[k];
            assert(v.teams[s as int] == other);
            assert(v.teams[slot as int] == team);
        }
        assert(queue_ok(w, other));
        assert forall|i: int|
            0 <= i < w.holders.len() && (#[trigger] w.holders[i]) is None implies queue(
            w,
            w.teams[i],
        ).contains(i as usize) by {
            assert(i != slot);
            assert(v.holders[i] is None);
            let qi = queue(v, v.teams[i]);
            let k = choose|k: int| 0 <= k < qi.len() && qi[k] == i as usize;
            if v.teams[i] == team {
                assert(k > 0);
                assert(queue(w, team)[k - 1] == i as usize);
            } else {
                assert(v.teams[i] <= 1);
                assert(v.teams[i] == other);
                assert(queue(w, other)[k] == i as usize);
            }
        }
    }
}

/// Handing out a slot takes none from any actor and frees none; and the
/// actor that asked holds a slot afterwards unless its team has none free.
pub proof fn lemma_bound_is_monotone(v: SlotsView, actor: i32, team: u8, other: i32, any_team: u8)
    requires
        slots_inv(v),
    ensures
        slot_of(v.holders, other) is Some ==> slot_of(bound(v, actor, team).holders, other) is Some,
        queue(bound(v, actor, team), any_team).len() <= queue(v, any_team).len(),
        slot_of(bound(v, actor, team).holders, actor) is Some || queue(
            bound(v, actor, team),
            team,
        ).len() == 0,
{
    let w = bound(v, actor, team);
    lemma_first_slot(v.holders, other, 0);
    lemma_first_slot(w.holders, other, 0);
    lemma_first_slot(v.holders, actor, 0);
    lemma_first_slot(w.holders, actor, 0);
    if !(slot_of(v.holders, actor) is Some || queue(v, team).len() == 0) {
        let slot = queue(v, team)[0];
        assert(v.holders[slot as int] is None);
        assert(w.holders[slot as int] == Some(actor));
        if slot_of(v.holders, other) is Some {
            let i = slot_of(v.holders, other).unwrap();
            assert(w.holders[i] == Some(other));
        }
    }
}

/// Giving a slot back keeps what holds of the slots at all times.
pub proof fn lemma_released_keeps_inv(v: SlotsView, actor: i32)
    requires
        slots_inv(v),
    ensures
        slots_inv(released(v, actor)),
        released(v, actor).teams == v.teams,
        slot_of(released(v, actor).holders, actor) is None,
{
    let w = released(v, actor);
    lemma_first_slot(v.holders, actor, 0);
    lemma_first_slot(w.holders, actor, 0);
    match slot_of(v.holders, actor) {
        None => {},
        Some(slot) => {
            let team = v.teams[slot];
            assert(team <= 1);
            let other: u8 = if team == 0 { 1 } else { 0 };
            let q = queue(v, team);
            assert(queue(w, team) == q.push(slot as usize));
            assert(queue(w, other) == queue(v, other));
            assert forall|k: int| 0 <= k < q.len() implies q[k] != slot as usize by {
                assert(v.holders[q[k] as int] is None);
            }
            assert(queue_ok(w, team));
            assert forall|k: int| 0 <= k < queue(w, other).len() implies {
                &&& (#[trigger] queue(w, other)[k]) < w.holders.len()
                &&& w.teams[queue(w, other)[k] as int] == other
                &&& w.holders[queue(w, other)[k] as int] is None
            } by {
                let s = queue(v, other)[k];
                assert(v.holders[s as int] is None);
            }
            assert(queue_ok(w, other));
            assert forall|i: int|
                0 <= i < w.holders.len() && (#[trigger] w.holders[i]) is None implies queue(
                w,
                w.teams[i],
            ).contains(i as usize) by {
                if i == slot {
                    assert(queue(w, team)[q.len() as int] == slot as usize);
                } else {
                    assert(v.holders[i] is None);
                    let qi = queue(v, v.teams[i]);
                    let k = choose|k: int| 0 <= k < qi.len() && qi[k] == i as usize;
                    if v.teams[i] == team {
                        assert(queue(w, team)[k] == i as usize);
                    } else {
                        assert(v.teams[i] <= 1);
                        assert(queue(w, other)[k] == i as usize);
                    }
                }
            }
            assert forall|j: int| 0 <= j < w.holders.len() implies w.holders[j] != Some(actor) by {
                if j != slot {
                    assert(v.holders[slot] != v.holders[j]);
                }
            }
        },
    }
}

/// Takes the first slot off a queue, if it has one.
fn take_first(queue: &mut Vec<usize>) -> (first: Option<usize>)
    ensures
        match first {
            Some(slot) => old(queue)@.len() > 0 && slot == old(queue)@[0] && final(queue)@ == old(
                queue,
            )@.drop_first(),
            None => old(queue)@.len() == 0 && final(queue)@ == old(queue)@,
        },
{
    if queue.len() > 0 {
        let slot = queue.remove(0);
        assert(queue@ =~= old(queue)@.drop_first());
        Some(slot)
    } else {
        None
    }
}

impl View for SlotTable {
    type V = SlotsView;

    closed spec fn view(&self) -> SlotsView {
        SlotsView {
            teams: self.teams@,
            holders: self.holders@,
            free_zero: self.free_zero@,
            free_one: self.free_one@,
        }
    }
}

impl SlotTable {
    /// What holds of the slots at all times holds of this table.
    pub open spec fn wf(&self) -> bool {
        slots_inv(self@)
    }

    /// The slots that `roster` declares, all of them free, those of each
    /// team queued in roster order.
    pub fn new(roster: &Vec<RosterEntry>) -> (table: Self)
        ensures
            table.wf(),
            table@ == initial_slots(roster_teams(roster@)),
    {
        let ghost declared = roster_teams(roster@);
        let mut teams: Vec<u8> = Vec::new();
        let mut holders: Vec<Option<i32>> = Vec::new();
        let mut free_zero: Vec<usize> = Vec::new();
        let mut free_one: Vec<usize> = Vec::new();
        let mut i: usize = 0;
        while i < roster.len()
            invariant
                i <= roster.len(),
                declared == roster_teams(roster@),
                teams@ == Seq::new(i as nat, |k: int| slot_team(declared[k])),
                holders@ == Seq::new(i as nat, |k: int| None::<i32>),
                free_zero@ == roster_slots(declared, 0, i as int),
                free_one@ == roster_slots(declared, 1, i as int),
            decreases roster.len() - i,
        {
            let team: u8 = if roster[i].team == 0 {
                0
            } else {
                1
            };
            teams.push(team);
            holders.push(None);
            if team == 0 {
                free_zero.push(i);
            } else {
                free_one.push(i);
            }
            proof {
                assert(teams@ =~= Seq::new((i + 1) as nat, |k: int| slot_team(declared[k])));
                assert(holders@ =~= Seq::new((i + 1) as nat, |k: int| None::<i32>));
            }
            i += 1;
        }
        let table = SlotTable { teams, holders, free_zero, free_one };
        proof {
            lemma_initial_slots_inv(declared);
        }
        table
    }

    /// The number of slots.
    pub fn len(&self) -> (n: usize)
        ensures
            n == self@.holders.len(),
    {
        self.holders.len()
    }

    /// The actor that holds the slot `slot`, if any.
    pub fn holder_at(&self, slot: usize) -> (holder: Option<i32>)
        requires
            slot < self@.holders.len(),
        ensures
            holder == self@.holders[slot as int],
    {
        self.holders[slot]
    }

    /// The slot that `actor` holds, if any.
    pub fn slot_of(&self, actor: i32) -> (slot: Option<usize>)
        ensures
            match slot {
                Some(i) => i < self@.holders.len() && self@.holders[i as int] == Some(actor)
                    && slot_of(self@.holders, actor) == Some(i as int),
                None => slot_of(self@.holders, actor) is None,
            },
    {
        let mut i: usize = 0;
        while i < self.holders.len()
            invariant
                i <= self.holders@.len(),
                first_slot(self.holders@, actor, i as int) == slot_of(self.holders@, actor),
            decreases self.holders.len() - i,
        {
            match self.holders[i] {
                Some(holder) => {
                    if holder == actor {
                        return Some(i);
                    }
                },
                None => {},
            }
            i += 1;
        }
        None
    }

    /// Gives `actor` the first free slot of `team`, where any team but 0
    /// counts as team 1, unless it holds a slot already or the team has
    /// none free, and returns the slot it holds then.
    pub fn bind(&mut self, actor: i32, team: u8) -> (slot: Option<usize>)
        requires
            old(self).wf(),
        ensures
            final(self).wf(),
            final(self)@ == bound(old(self)@, actor, team),
            match slot {
                Some(i) => i < final(self)@.holders.len() && slot_of(final(self)@.holders, actor)
                    == Some(i as int),
                None => slot_of(final(self)@.holders, actor) is None,
            },
    {
        proof {
            lemma_bound_keeps_inv(self@, actor, team);
        }
        let held = self.slot_of(actor);
        if held.is_some() {
            return held;
        }
        let next = if team == 0 {
            take_first(&mut self.free_zero)
        } else {
            take_first(&mut self.free_one)
        };
        match next {
            Some(slot) => {
                assert(slot == queue(old(self)@, team)[0]);
                self.holders.set(slot, Some(actor));
                proof {
                    assert(self@.free_zero =~= bound(old(self)@, actor, team).free_zero);
                    assert(self@.free_one =~= bound(old(self)@, actor, team).free_one);
                    lemma_slot_of_holder(self@, slot as int);
                }
                Some(slot)
            },
            None => None,
        }
    }

    /// Frees the slot that `actor` holds, if it holds one.
    pub fn release(&mut self, actor: i32)
        requires
            old(self).wf(),
        ensures
            final(self).wf(),
            final(self)@ == released(old(self)@, actor),
    {
        proof {
            lemma_released_keeps_inv(self@, actor);
        }
        match self.slot_of(actor) {
            Some(slot) => {
                self.holders.set(slot, None);
                if self.teams[slot] == 0 {
                    self.free_zero.push(slot);
                } else {
                    self.free_one.push(slot);
                }
            },
            None => {},
        }
    }
}

} // verus!
