//! The boost-pad registry: which pad each pad actor stands for, and the
//! pickup and respawn events that its raw signals amount to.

use crate::arena_tables::{
    lookup_arena_slug, pad_dist_sq, pad_table_for_slug, snap_spec, snap_to_pad, soccar_slug,
    table_of_map, ArenaPadDef, PadSide, SnapResult,
};
use crate::geometry::Vec3;
use crate::id_table::IdTable;
use crate::text::{contains_seq, contains_text, to_chars};
use std::collections::VecDeque;
use vstd::prelude::*;

verus! {

/// Two signals of one state that lie less than this many microseconds apart are one event.
pub const DEBOUNCE_WINDOW_US: i64 = 1_000;

/// The pad definition that the registry resolves an actor to.
pub type BoostPadDef = ArenaPadDef;

/// What became of a pad: taken by a car, or available again.
#[derive(Clone, Copy, Debug, PartialEq, Eq, Structural)]
pub enum PadEventStatus {
    Collected,
    Respawned,
}

/// One pickup or respawn of a pad.
#[derive(Clone, Debug)]
pub struct PadEvent {
    pub pad_id: usize,
    pub is_big: bool,
    pub side: PadSide,
    pub arena: &'static str,
    pub arena_recognized: bool,
    pub object_name: String,
    pub position: Vec3,
    pub timestamp: i64,
    pub raw_state: u8,
    pub instigator_actor_id: Option<i32>,
    pub resolved_actor_id: Option<i32>,
    pub status: PadEventStatus,
    pub snap_distance_sq: Option<u128>,
}

/// A `PadEvent` with its texts as character sequences.
pub struct PadEventView {
    pub pad_id: usize,
    pub is_big: bool,
    pub side: PadSide,
    pub arena: Seq<char>,
    pub arena_recognized: bool,
    pub object_name: Seq<char>,
    pub position: Vec3,
    pub timestamp: i64,
    pub raw_state: u8,
    pub instigator_actor_id: Option<i32>,
    pub resolved_actor_id: Option<i32>,
    pub status: PadEventStatus,
    pub snap_distance_sq: Option<u128>,
}

/// A raw pickup signal that waits until its pad is known.
#[derive(Clone, Copy, Debug, PartialEq, Eq, Structural)]
pub struct PendingEvent {
    pub raw_state: u8,
    pub timestamp: i64,
    pub instigator_actor_id: Option<i32>,
    pub resolved_actor_id: Option<i32>,
}

/// What the registry knows of one pad actor.
pub struct PadInstance {
    object_name: String,
    pad_def: Option<ArenaPadDef>,
    position: Option<Vec3>,
    last_emitted: Option<(u8, i64)>,
    pending: VecDeque<PendingEvent>,
    snap_distance_sq: Option<u128>,
}

/// A `PadInstance` as plain values: its class name, the pad it was resolved
/// to, its last known position, the state and time of its last event, the
/// signals that wait, and the squared distance at which it was matched.
pub struct PadInstanceView {
    pub object_name: Seq<char>,
    pub pad_def: Option<ArenaPadDef>,
    pub position: Option<Vec3>,
    pub last_emitted: Option<(u8, i64)>,
    pub pending: Seq<PendingEvent>,
    pub snap_distance_sq: Option<u128>,
}

/// The class name that marks a boost-pad actor.
pub open spec fn pad_class_marker() -> Seq<char> {
    "VehiclePickup_Boost_TA"@
}

/// A class name that belongs to a boost-pad actor.
pub open spec fn is_pad_class(name: Seq<char>) -> bool {
    contains_seq(name, pad_class_marker())
}

/// The views of a sequence of events.
pub open spec fn event_views(events: Seq<PadEvent>) -> Seq<PadEventView> {
    Seq::new(events.len(), |i: int| events[i]@)
}

/// A freshly tracked instance: nothing known but its class name and, where
/// one was learned for that name, its pad.
pub open spec fn new_instance(name: Seq<char>, seed: Option<ArenaPadDef>) -> PadInstanceView {
    PadInstanceView {
        object_name: name,
        pad_def: seed,
        position: None,
        last_emitted: None,
        pending: Seq::empty(),
        snap_distance_sq: None,
    }
}

/// An instance may emit once both its pad and its position are known.
pub open spec fn can_emit(inst: PadInstanceView) -> bool {
    inst.pad_def is Some && inst.position is Some
}

/// A signal repeats the last event: the same raw state, less than the
/// debounce window away from it in time.
pub open spec fn is_duplicate(last: Option<(u8, i64)>, signal: PendingEvent) -> bool {
    match last {
        Some((state, time)) => state == signal.raw_state && -1_000 < signal.timestamp - time
            < 1_000,
        None => false,
    }
}

/// A signal with an instigator is a pickup, one without is a respawn.
pub open spec fn status_of(signal: PendingEvent) -> PadEventStatus {
    if signal.instigator_actor_id is Some {
        PadEventStatus::Collected
    } else {
        PadEventStatus::Respawned
    }
}

/// The event that `signal` amounts to at an instance that may emit.
pub open spec fn event_of(arena: Seq<char>, inst: PadInstanceView, signal: PendingEvent)
    -> PadEventView
    recommends
        can_emit(inst),
{
    PadEventView {
        pad_id: inst.pad_def.unwrap().id,
        is_big: inst.pad_def.unwrap().is_big,
        side: inst.pad_def.unwrap().side,
        arena,
        arena_recognized: true,
        object_name: inst.object_name,
        position: inst.position.unwrap(),
        timestamp: signal.timestamp,
        raw_state: signal.raw_state,
        instigator_actor_id: signal.instigator_actor_id,
        resolved_actor_id: signal.resolved_actor_id,
        status: status_of(signal),
        snap_distance_sq: inst.snap_distance_sq,
    }
}

/// The last event and the events emitted once the first `n` waiting signals
/// of `inst` went through the debounce, in order.
pub open spec fn drained(arena: Seq<char>, inst: PadInstanceView, n: int) -> (
    Option<(u8, i64)>,
    Seq<PadEventView>,
)
    decreases n,
{
    if n <= 0 {
        (inst.last_emitted, Seq::empty())
    } else {
        let (last, events) = drained(arena, inst, n - 1);
        let signal = inst.pending[n - 1];
        if is_duplicate(last, signal) {
            (last, events)
        } else {
            (Some((signal.raw_state, signal.timestamp)), events.push(event_of(arena, inst, signal)))
        }
    }
}

/// The instance after its queue was let through, and the events that came out:
/// nothing happens while its pad or its position is unknown.
pub open spec fn flushed(arena: Seq<char>, inst: PadInstanceView) -> (
    PadInstanceView,
    Seq<PadEventView>,
) {
    if can_emit(inst) {
        let (last, events) = drained(arena, inst, inst.pending.len() as int);
        (PadInstanceView { last_emitted: last, pending: Seq::empty(), ..inst }, events)
    } else {
        (inst, Seq::empty())
    }
}

/// The position that resolution goes by: the observed one, else the fallback.
pub open spec fn position_hint(inst: PadInstanceView, fallback: Option<Vec3>) -> Option<Vec3> {
    if inst.position is Some {
        inst.position
    } else {
        fallback
    }
}

/// The match that resolves `inst` now, if it is unresolved, the arena has a
/// table and the nearest pad of it has the hinted position within reach.
pub open spec fn newly_resolved(
    table: Option<Seq<ArenaPadDef>>,
    inst: PadInstanceView,
    fallback: Option<Vec3>,
) -> Option<SnapResult> {
    if inst.pad_def is Some {
        None
    } else {
        match (table, position_hint(inst, fallback)) {
            (Some(pads), Some(p)) => snap_spec(pads, p),
            _ => None,
        }
    }
}

/// The instance after an attempt to resolve it. One resolved by a fallback
/// takes the position of its pad, at distance zero.
pub open spec fn resolved(
    table: Option<Seq<ArenaPadDef>>,
    inst: PadInstanceView,
    fallback: Option<Vec3>,
) -> PadInstanceView {
    match newly_resolved(table, inst, fallback) {
        None => inst,
        Some(found) => if inst.position is None {
            PadInstanceView {
                pad_def: Some(found.pad_def),
                position: Some(found.pad_def.position_spec()),
                snap_distance_sq: Some(0u128),
                ..inst
            }
        } else {
            PadInstanceView {
                pad_def: Some(found.pad_def),
                snap_distance_sq: if inst.snap_distance_sq is None {
                    Some(found.snap_error_sq)
                } else {
                    inst.snap_distance_sq
                },
                ..inst
            }
        },
    }
}

/// The instance with the distance from `position` to its pad recorded, where
/// it has a pad and no distance yet.
pub open spec fn measured(inst: PadInstanceView, position: Vec3) -> PadInstanceView {
    if inst.pad_def is Some && inst.snap_distance_sq is None {
        PadInstanceView {
            snap_distance_sq: Some(pad_dist_sq(inst.pad_def.unwrap(), position) as u128),
            ..inst
        }
    } else {
        inst
    }
}

impl PadEventStatus {
    /// The status as it is written in reports.
    pub open spec fn label(self) -> Seq<char> {
        match self {
            PadEventStatus::Collected => "COLLECTED"@,
            PadEventStatus::Respawned => "RESPAWNED"@,
        }
    }

    /// The status as it is written in reports: `COLLECTED` or `RESPAWNED`.
    pub fn as_str(&self) -> (s: &'static str)
        ensures
            s@ == self.label(),
    {
        match self {
            PadEventStatus::Collected => "COLLECTED",
            PadEventStatus::Respawned => "RESPAWNED",
        }
    }
}

/// Tests whether `object_name` is the class name of a boost-pad actor.
pub fn is_boost_pad_class(object_name: &str) -> (r: bool)
    ensures
        r == is_pad_class(object_name@),
{
    let chars = to_chars(object_name);
    contains_text(&chars, "VehiclePickup_Boost_TA")
}

/// What a raw state byte of a pickup signal says, for diagnostics.
pub open spec fn state_label(raw_state: u8) -> Seq<char> {
    if raw_state == 0 || raw_state == 255 {
        "RESPAWNED"@
    } else if 1 <= raw_state <= 3 {
        "COLLECTED"@
    } else {
        "UNKNOWN"@
    }
}

/// What a raw state byte of a pickup signal says, for diagnostics: 0 and
/// 255 a respawn, 1 to 3 a pickup, anything else unknown.
pub fn pickup_state_label(raw_state: u8) -> (label: &'static str)
    ensures
        label@ == state_label(raw_state),
{
    if raw_state == 0 || raw_state == 255 {
        "RESPAWNED"
    } else if raw_state <= 3 {
        "COLLECTED"
    } else {
        "UNKNOWN"
    }
}

impl View for PadEvent {
    type V = PadEventView;

    open spec fn view(&self) -> PadEventView {
        PadEventView {
            pad_id: self.pad_id,
            is_big: self.is_big,
            side: self.side,
            arena: self.arena@,
            arena_recognized: self.arena_recognized,
            object_name: self.object_name@,
            position: self.position,
            timestamp: self.timestamp,
            raw_state: self.raw_state,
            instigator_actor_id: self.instigator_actor_id,
            resolved_actor_id: self.resolved_actor_id,
            status: self.status,
            snap_distance_sq: self.snap_distance_sq,
        }
    }
}

impl View for PadInstance {
    type V = PadInstanceView;

    closed spec fn view(&self) -> PadInstanceView {
        PadInstanceView {
            object_name: self.object_name@,
            pad_def: self.pad_def,
            position: self.position,
            last_emitted: self.last_emitted,
            pending: self.pending@,
            snap_distance_sq: self.snap_distance_sq,
        }
    }
}

/// Tests whether `signal` repeats the last event.
fn repeats(last: Option<(u8, i64)>, signal: &PendingEvent) -> (r: bool)
    ensures
        r == is_duplicate(last, *signal),
{
    match last {
        Some((state, time)) => {
            if state != signal.raw_state {
                false
            } else {
                let gap: i128 = signal.timestamp as i128 - time as i128;
                -(DEBOUNCE_WINDOW_US as i128) < gap && gap < DEBOUNCE_WINDOW_US as i128
            }
        },
        None => false,
    }
}

impl PadInstance {
    /// A freshly tracked instance of class `object_name`.
    fn new(object_name: &str, pad_def: Option<ArenaPadDef>) -> (inst: PadInstance)
        ensures
            inst@ == new_instance(object_name@, pad_def),
    {
        PadInstance {
            object_name: object_name.to_owned(),
            pad_def,
            position: None,
            last_emitted: None,
            pending: VecDeque::new(),
            snap_distance_sq: None,
        }
    }

    /// Records an observed position.
    fn set_position(&mut self, position: Vec3)
        ensures
            final(self)@ == (PadInstanceView { position: Some(position), ..old(self)@ }),
    {
        self.position = Some(position);
    }

    /// Queues a raw signal.
    fn enqueue(&mut self, signal: PendingEvent)
        ensures
            final(self)@ == (PadInstanceView {
                pending: old(self)@.pending.push(signal),
                ..old(self)@
            }),
    {
        self.pending.push_back(signal);
    }

    /// Tries to resolve the instance to a pad of `table`, by its position or
    /// else by `fallback`, and returns the match if it was resolved now.
    fn resolve(&mut self, table: &Option<Vec<ArenaPadDef>>, fallback: Option<Vec3>) -> (found:
        Option<SnapResult>)
        ensures
            found == newly_resolved(table_view(table), old(self)@, fallback),
            final(self)@ == resolved(table_view(table), old(self)@, fallback),
    {
        if self.pad_def.is_some() {
            return None;
        }
        let hint = if self.position.is_some() {
            self.position
        } else {
            fallback
        };
        match (table, hint) {
            (Some(pads), Some(p)) => {
                let found = snap_to_pad(pads.as_slice(), p.x, p.y, p.z);
                if let Some(hit) = found {
                    self.pad_def = Some(hit.pad_def);
                    if self.position.is_none() {
                        self.position = Some(hit.pad_def.position());
                        self.snap_distance_sq = Some(0);
                    } else if self.snap_distance_sq.is_none() {
                        self.snap_distance_sq = Some(hit.snap_error_sq);
                    }
                }
                found
            },
            _ => None,
        }
    }

    /// Records the distance from `position` to the pad, where the instance
    /// has a pad and no distance yet.
    fn measure(&mut self, position: Vec3)
        ensures
            final(self)@ == measured(old(self)@, position),
    {
        if let Some(def) = self.pad_def {
            if self.snap_distance_sq.is_none() {
                self.snap_distance_sq = Some(def.position().dist_sq(&position));
            }
        }
    }

    /// Lets the waiting signals through the debounce and returns the events
    /// that come out, oldest first.
    fn flush(&mut self, arena: &'static str) -> (events: Vec<PadEvent>)
        ensures
            final(self)@ == flushed(arena@, old(self)@).0,
            event_views(events@) == flushed(arena@, old(self)@).1,
    {
        let mut ready: Vec<PadEvent> = Vec::new();
        if self.pad_def.is_none() || self.position.is_none() {
            assert(event_views(ready@) =~= Seq::empty());
            return ready;
        }
        let pad_def = self.pad_def.unwrap();
        let position = self.position.unwrap();
        let ghost before = self@;
        let ghost total = self.pending@.len() as int;
        let ghost mut done: int = 0;
        assert(event_views(ready@) =~= Seq::empty());
        while self.pending.len() > 0
            invariant
                0 <= done <= total,
                total == before.pending.len(),
                can_emit(before),
                self.pad_def == Some(pad_def),
                self.position == Some(position),
                self@.object_name == before.object_name,
                self@.pad_def == before.pad_def,
                self@.position == before.position,
                self@.snap_distance_sq == before.snap_distance_sq,
                self@.pending == before.pending.subrange(done, total),
                drained(arena@, before, done) == (self@.last_emitted, event_views(ready@)),
            decreases total - done,
        {
            let signal = self.pending.pop_front().unwrap();
            proof {
                assert(signal == before.pending[done]);
                assert(self@.pending =~= before.pending.subrange(done + 1, total));
            }
            if !repeats(self.last_emitted, &signal) {
                let status = if signal.instigator_actor_id.is_some() {
                    PadEventStatus::Collected
                } else {
                    PadEventStatus::Respawned
                };
                let event = PadEvent {
                    pad_id: pad_def.id,
                    is_big: pad_def.is_big,
                    side: pad_def.side,
                    arena,
                    arena_recognized: true,
                    object_name: self.object_name.clone(),
                    position,
                    timestamp: signal.timestamp,
                    raw_state: signal.raw_state,
                    instigator_actor_id: signal.instigator_actor_id,
                    resolved_actor_id: signal.resolved_actor_id,
                    status,
                    snap_distance_sq: self.snap_distance_sq,
                };
                proof {
                    assert(event@ == event_of(arena@, before, signal));
                    assert(event_views(ready@.push(event)) =~= event_views(ready@).push(event@));
                }
                ready.push(event);
                self.last_emitted = Some((signal.raw_state, signal.timestamp));
            }
            proof {
                done = done + 1;
            }
        }
        proof {
            assert(self@.pending =~= Seq::empty());
        }
        ready
    }
}

/// The pads learned so far, by the class name of the actor that was resolved.
pub struct NameCache {
    names: Vec<String>,
    defs: Vec<ArenaPadDef>,
}

impl NameCache {
    /// The class names held, in the order in which they were learned.
    pub closed spec fn keys(&self) -> Seq<Seq<char>> {
        Seq::new(self.names@.len(), |i: int| self.names@[i]@)
    }

    /// The pads held, each at the place of its class name.
    pub closed spec fn vals(&self) -> Seq<ArenaPadDef> {
        self.defs@
    }

    /// Every name has its pad, and no name is held twice.
    pub open spec fn wf(&self) -> bool {
        &&& self.keys().len() == self.vals().len()
        &&& forall|i: int, j: int|
            0 <= i < j < self.keys().len() ==> self.keys()[i] != self.keys()[j]
    }

    /// The place of `name` in the cache.
    pub open spec fn place_of(&self, name: Seq<char>) -> int {
        choose|i: int| 0 <= i < self.keys().len() && self.keys()[i] == name
    }

    /// The cache as a map from class name to pad.
    pub open spec fn view(&self) -> Map<Seq<char>, ArenaPadDef> {
        Map::new(
            |name: Seq<char>| exists|i: int| 0 <= i < self.keys().len() && self.keys()[i] == name,
            |name: Seq<char>| self.vals()[self.place_of(name)],
        )
    }

    /// The name at place `i` maps to the pad at place `i`.
    pub proof fn lemma_place(&self, i: int)
        requires
            self.wf(),
            0 <= i < self.keys().len(),
        ensures
            self@.contains_key(self.keys()[i]),
            self.place_of(self.keys()[i]) == i,
            self@[self.keys()[i]] == self.vals()[i],
    {
        let j = self.place_of(self.keys()[i]);
        assert(0 <= j < self.keys().len() && self.keys()[j] == self.keys()[i]);
    }

    /// An empty cache.
    pub fn new() -> (cache: Self)
        ensures
            cache.wf(),
            cache@ == Map::<Seq<char>, ArenaPadDef>::empty(),
    {
        let cache = NameCache { names: Vec::new(), defs: Vec::new() };
        assert(cache@ =~= Map::<Seq<char>, ArenaPadDef>::empty());
        cache
    }

    /// The place of `name`, if the cache holds it.
    fn find(&self, name: &String) -> (place: Option<usize>)
        requires
            self.wf(),
        ensures
            match place {
                Some(i) => i < self.keys().len() && self.keys()[i as int] == name@,
                None => !self@.contains_key(name@),
            },
    {
        let mut i: usize = 0;
        while i < self.names.len()
            invariant
                self.wf(),
                i <= self.names@.len(),
                forall|k: int| 0 <= k < i ==> self.keys()[k] != name@,
            decreases self.names.len() - i,
        {
            if self.names[i] == *name {
                return Some(i);
            }
            i += 1;
        }
        None
    }

    /// The pad learned for `name`, if any.
    pub fn get(&self, name: &String) -> (def: Option<ArenaPadDef>)
        requires
            self.wf(),
        ensures
            def == seed_of(self@, name@),
    {
        match self.find(name) {
            Some(i) => {
                proof {
                    self.lemma_place(i as int);
                }
                Some(self.defs[i])
            },
            None => None,
        }
    }

    /// Records `def` as the pad of `name`, in place of what was held for it.
    pub fn insert(&mut self, name: &String, def: ArenaPadDef)
        requires
            old(self).wf(),
        ensures
            final(self).wf(),
            final(self)@ == old(self)@.insert(name@, def),
    {
        match self.find(name) {
            Some(at) => {
                self.defs.set(at, def);
                proof {
                    assert(self.keys() =~= old(self).keys());
                    assert forall|k: Seq<char>| self@.contains_key(k) implies #[trigger] self@[k]
                        == old(self)@.insert(name@, def)[k] by {
                        let i = self.place_of(k);
                        self.lemma_place(i);
                        old(self).lemma_place(i);
                    }
                    assert(self@ =~= old(self)@.insert(name@, def));
                }
            },
            None => {
                self.names.push(name.clone());
                self.defs.push(def);
                proof {
                    let n = old(self).keys().len() as int;
                    assert(self.keys() =~= old(self).keys().push(name@));
                    assert forall|i: int, j: int|
                        0 <= i < j < self.keys().len() implies self.keys()[i] != self.keys()[j] by {
                        if j == n {
                            assert(old(self).keys()[i] == self.keys()[i]);
                            if self.keys()[i] == name@ {
                                old(self).lemma_place(i);
                            }
                        }
                    }
                    assert forall|k: Seq<char>| #[trigger] self@.contains_key(k) <==> old(
                        self)@.insert(name@, def).contains_key(k) by {
                        if old(self)@.contains_key(k) {
                            let i = old(self).place_of(k);
                            assert(self.keys()[i] == k);
                        }
                        if k == name@ {
                            assert(self.keys()[n] == k);
                        }
                    }
                    assert forall|k: Seq<char>| self@.contains_key(k) implies #[trigger] self@[k]
                        == old(self)@.insert(name@, def)[k] by {
                        let i = self.place_of(k);
                        self.lemma_place(i);
                        if i < n {
                            old(self).lemma_place(i);
                        }
                    }
                    assert(self@ =~= old(self)@.insert(name@, def));
                }
            },
        }
    }
}

/// The pad learned for the class name `name`, if any.
pub open spec fn seed_of(learned: Map<Seq<char>, ArenaPadDef>, name: Seq<char>) -> Option<
    ArenaPadDef,
> {
    if learned.contains_key(name) {
        Some(learned[name])
    } else {
        None
    }
}

/// The table of an arena as a sequence, where it has one.
pub open spec fn table_view(table: &Option<Vec<ArenaPadDef>>) -> Option<Seq<ArenaPadDef>> {
    match table {
        Some(pads) => Some(pads@),
        None => None,
    }
}

/// Tracks the pad actors of one recording and turns their raw signals into events.
pub struct PadRegistry {
    table: Option<Vec<ArenaPadDef>>,
    arena: &'static str,
    instances: IdTable<PadInstance>,
    learned: NameCache,
    debug_enabled: bool,
}

/// A `PadRegistry` as plain values: the pad table of the arena (none where
/// the arena is not recognized), the name of its layout, the tracked
/// instances by actor id, the pads learned by class name, and whether the
/// caller asked for events to be logged.
pub struct RegistryView {
    pub table: Option<Seq<ArenaPadDef>>,
    pub arena: Seq<char>,
    pub instances: Map<i32, PadInstanceView>,
    pub learned: Map<Seq<char>, ArenaPadDef>,
    pub debug_enabled: bool,
}

/// The name under which an arena without a known layout goes.
pub open spec fn unknown_arena() -> Seq<char> {
    "unknown"@
}

/// The registry of a recording on the map `map_name`, before any actor was seen.
pub open spec fn initial_registry(map_name: Seq<char>, debug_enabled: bool) -> RegistryView {
    RegistryView {
        table: table_of_map(map_name),
        arena: if table_of_map(map_name) is Some {
            soccar_slug()
        } else {
            unknown_arena()
        },
        instances: Map::empty(),
        learned: Map::empty(),
        debug_enabled,
    }
}

/// An instance whose queue is empty if it may emit.
pub open spec fn settled(inst: PadInstanceView) -> bool {
    can_emit(inst) ==> inst.pending.len() == 0
}

/// What holds of a registry between any two operations: no instance that
/// may emit has signals waiting, and where the arena is not recognized
/// nothing was learned and no instance is resolved.
pub open spec fn registry_inv(r: RegistryView) -> bool {
    &&& forall|id: i32| r.instances.contains_key(id) ==> settled(#[trigger] r.instances[id])
    &&& r.table is None ==> forall|id: i32|
        r.instances.contains_key(id) ==> (#[trigger] r.instances[id]).pad_def is None
    &&& r.table is None ==> forall|name: Seq<char>| !#[trigger] r.learned.contains_key(name)
}

/// The registry after an actor of class `name` was created under `id`: a
/// pad actor is tracked afresh, seeded with the pad learned for its class
/// name; any other actor changes nothing.
pub open spec fn after_creation(r: RegistryView, id: i32, name: Seq<char>) -> RegistryView {
    if is_pad_class(name) {
        RegistryView {
            instances: r.instances.insert(id, new_instance(name, seed_of(r.learned, name))),
            ..r
        }
    } else {
        r
    }
}

/// The registry after the actor `id` was deleted.
pub open spec fn after_removal(r: RegistryView, id: i32) -> RegistryView {
    RegistryView { instances: r.instances.remove(id), ..r }
}

/// The pads learned once `inst` went through resolution.
pub open spec fn learned_after(
    r: RegistryView,
    inst: PadInstanceView,
    fallback: Option<Vec3>,
) -> Map<Seq<char>, ArenaPadDef> {
    match newly_resolved(r.table, inst, fallback) {
        Some(found) => r.learned.insert(inst.object_name, found.pad_def),
        None => r.learned,
    }
}

/// The registry after `position` was observed for the actor `id`, and the
/// events that this let out. An untracked actor changes nothing.
pub open spec fn position_updated(r: RegistryView, id: i32, position: Vec3) -> (
    RegistryView,
    Seq<PadEventView>,
) {
    if r.instances.contains_key(id) {
        let placed = PadInstanceView { position: Some(position), ..r.instances[id] };
        let sized = measured(resolved(r.table, placed, Some(position)), position);
        let (after, events) = flushed(r.arena, sized);
        (
            RegistryView {
                instances: r.instances.insert(id, after),
                learned: learned_after(r, placed, Some(position)),
                ..r
            },
            events,
        )
    } else {
        (r, Seq::empty())
    }
}

/// The instance that a signal for the actor `id` is queued at: the tracked
/// one, else a placeholder.
pub open spec fn instance_or_placeholder(r: RegistryView, id: i32) -> PadInstanceView {
    if r.instances.contains_key(id) {
        r.instances[id]
    } else {
        new_instance(pad_class_marker(), None)
    }
}

/// The registry after `signal` arrived for the actor `id`, and the events
/// that this let out.
pub open spec fn pickup_handled(
    r: RegistryView,
    id: i32,
    signal: PendingEvent,
    fallback: Option<Vec3>,
) -> (RegistryView, Seq<PadEventView>) {
    let start = instance_or_placeholder(r, id);
    let queued = PadInstanceView { pending: start.pending.push(signal), ..start };
    let (after, events) = flushed(r.arena, resolved(r.table, queued, fallback));
    (
        RegistryView {
            instances: r.instances.insert(id, after),
            learned: learned_after(r, queued, fallback),
            ..r
        },
        events,
    )
}

/// Letting the queue of a settled instance through changes nothing and emits nothing.
pub proof fn lemma_flush_settled(arena: Seq<char>, inst: PadInstanceView)
    requires
        settled(inst),
    ensures
        flushed(arena, inst) == (inst, Seq::<PadEventView>::empty()),
{
    if can_emit(inst) {
        assert(inst.pending =~= Seq::empty());
        assert(drained(arena, inst, 0) == (inst.last_emitted, Seq::<PadEventView>::empty()));
    }
}

/// Once its queue was let through, an instance is settled and stands for
/// the same pad as before; and one that cannot emit lets nothing out.
pub proof fn lemma_flushed_is_settled(arena: Seq<char>, inst: PadInstanceView)
    ensures
        settled(flushed(arena, inst).0),
        flushed(arena, inst).0.pad_def == inst.pad_def,
        !can_emit(inst) ==> flushed(arena, inst).1.len() == 0,
{
}

/// Putting a settled instance in the place of the actor `id` keeps what
/// holds of a registry between operations, provided that in an arena that
/// is not recognized the instance is unresolved and nothing is learned.
pub proof fn lemma_replacing_keeps_inv(
    r: RegistryView,
    id: i32,
    inst: PadInstanceView,
    learned: Map<Seq<char>, ArenaPadDef>,
)
    requires
        registry_inv(r),
        settled(inst),
        r.table is None ==> inst.pad_def is None && learned == r.learned,
    ensures
        registry_inv(RegistryView { instances: r.instances.insert(id, inst), learned, ..r }),
{
    let t = RegistryView { instances: r.instances.insert(id, inst), learned, ..r };
    assert forall|k: i32| t.instances.contains_key(k) implies settled(
        #[trigger] t.instances[k],
    ) by {
        if k != id {
            assert(r.instances.contains_key(k));
        }
    }
    if r.table is None {
        assert forall|k: i32| t.instances.contains_key(k) implies (
        #[trigger] t.instances[k]).pad_def is None by {
            if k != id {
                assert(r.instances.contains_key(k));
            }
        }
    }
}

/// Tracking a new actor keeps what holds of a registry between operations.
pub proof fn lemma_creation_keeps_inv(r: RegistryView, id: i32, name: Seq<char>)
    requires
        registry_inv(r),
    ensures
        registry_inv(after_creation(r, id, name)),
{
    if is_pad_class(name) {
        if r.table is None {
            assert(!r.learned.contains_key(name));
        }
        lemma_replacing_keeps_inv(r, id, new_instance(name, seed_of(r.learned, name)), r.learned);
    }
}

/// Dropping an actor keeps what holds of a registry between operations.
pub proof fn lemma_removal_keeps_inv(r: RegistryView, id: i32)
    requires
        registry_inv(r),
    ensures
        registry_inv(after_removal(r, id)),
{
    let t = after_removal(r, id);
    assert forall|k: i32| t.instances.contains_key(k) implies settled(
        #[trigger] t.instances[k],
    ) by {
        assert(r.instances.contains_key(k));
    }
    if r.table is None {
        assert forall|k: i32| t.instances.contains_key(k) implies (
        #[trigger] t.instances[k]).pad_def is None by {
            assert(r.instances.contains_key(k));
        }
    }
}

/// A position update keeps what holds of a registry between operations.
pub proof fn lemma_position_keeps_inv(r: RegistryView, id: i32, position: Vec3)
    requires
        registry_inv(r),
    ensures
        registry_inv(position_updated(r, id, position).0),
{
    if r.instances.contains_key(id) {
        let placed = PadInstanceView { position: Some(position), ..r.instances[id] };
        let sized = measured(resolved(r.table, placed, Some(position)), position);
        lemma_flushed_is_settled(r.arena, sized);
        lemma_replacing_keeps_inv(
            r,
            id,
            flushed(r.arena, sized).0,
            learned_after(r, placed, Some(position)),
        );
    }
}

/// A pickup signal keeps what holds of a registry between operations.
pub proof fn lemma_pickup_keeps_inv(
    r: RegistryView,
    id: i32,
    signal: PendingEvent,
    fallback: Option<Vec3>,
)
    requires
        registry_inv(r),
    ensures
        registry_inv(pickup_handled(r, id, signal, fallback).0),
{
    let start = instance_or_placeholder(r, id);
    let queued = PadInstanceView { pending: start.pending.push(signal), ..start };
    let tried = resolved(r.table, queued, fallback);
    lemma_flushed_is_settled(r.arena, tried);
    lemma_replacing_keeps_inv(r, id, flushed(r.arena, tried).0, learned_after(r, queued, fallback));
}

/// In an arena that is not recognized a position update lets no event out,
/// and the arena stays unrecognized.
pub proof fn lemma_unrecognized_position_is_silent(r: RegistryView, id: i32, position: Vec3)
    requires
        registry_inv(r),
        r.table is None,
    ensures
        position_updated(r, id, position).1.len() == 0,
        position_updated(r, id, position).0.table is None,
{
}

/// In an arena that is not recognized a pickup signal lets no event out,
/// and the arena stays unrecognized.
pub proof fn lemma_unrecognized_pickup_is_silent(
    r: RegistryView,
    id: i32,
    signal: PendingEvent,
    fallback: Option<Vec3>,
)
    requires
        registry_inv(r),
        r.table is None,
    ensures
        pickup_handled(r, id, signal, fallback).1.len() == 0,
        pickup_handled(r, id, signal, fallback).0.table is None,
{
}

/// Two signals of one raw state, less than the debounce window apart, that
/// reach an instance which may emit yield at most one event between them,
/// and exactly one, for the first of them, unless the first repeats the
/// event that the instance emitted last.
pub proof fn lemma_debounce(
    r: RegistryView,
    id: i32,
    first: PendingEvent,
    second: PendingEvent,
    fallback_first: Option<Vec3>,
    fallback_second: Option<Vec3>,
)
    requires
        registry_inv(r),
        r.instances.contains_key(id),
        can_emit(r.instances[id]),
        first.raw_state == second.raw_state,
        -1_000 < second.timestamp - first.timestamp < 1_000,
    ensures
        ({
            let (r1, events1) = pickup_handled(r, id, first, fallback_first);
            let (r2, events2) = pickup_handled(r1, id, second, fallback_second);
            &&& events1.len() + events2.len() <= 1
            &&& !is_duplicate(r.instances[id].last_emitted, first) ==> {
                &&& events1 == seq![event_of(r.arena, r.instances[id], first)]
                &&& events2.len() == 0
            }
        }),
{
    let inst = r.instances[id];
    assert(inst.pending =~= Seq::empty());
    let queued = PadInstanceView { pending: inst.pending.push(first), ..inst };
    assert(resolved(r.table, queued, fallback_first) == queued);
    assert(drained(r.arena, queued, 0) == (inst.last_emitted, Seq::<PadEventView>::empty()));
    assert(queued.pending[0] == first);
    let step1 = drained(r.arena, queued, 1);
    let (r1, events1) = pickup_handled(r, id, first, fallback_first);
    let inst1 = r1.instances[id];
    assert(events1 == step1.1);
    assert(inst1.pending =~= Seq::empty());
    let queued2 = PadInstanceView { pending: inst1.pending.push(second), ..inst1 };
    assert(resolved(r1.table, queued2, fallback_second) == queued2);
    assert(drained(r1.arena, queued2, 0) == (inst1.last_emitted, Seq::<PadEventView>::empty()));
    assert(queued2.pending[0] == second);
    let step2 = drained(r1.arena, queued2, 1);
    if !is_duplicate(inst.last_emitted, first) {
        assert(inst1.last_emitted == Some((first.raw_state, first.timestamp)));
        assert(is_duplicate(inst1.last_emitted, second));
        assert(event_of(r.arena, queued, first) == event_of(r.arena, inst, first));
        assert(events1 =~= seq![event_of(r.arena, inst, first)]);
    }
}

impl View for PadRegistry {
    type V = RegistryView;

    closed spec fn view(&self) -> RegistryView {
        RegistryView {
            table: table_view(&self.table),
            arena: self.arena@,
            instances: Map::new(
                |id: i32| self.instances@.contains_key(id),
                |id: i32| self.instances@[id]@,
            ),
            learned: self.learned@,
            debug_enabled: self.debug_enabled,
        }
    }
}

impl PadRegistry {
    /// The registry holds together, and what holds between operations holds of it.
    pub closed spec fn wf(&self) -> bool {
        &&& self.instances.wf()
        &&& self.learned.wf()
        &&& registry_inv(self@)
    }

    /// A well-formed registry satisfies what holds between operations.
    pub proof fn lemma_wf_inv(&self)
        requires
            self.wf(),
        ensures
            registry_inv(self@),
    {
    }

    /// A registry for a recording on the map `map_name`. `debug_enabled`
    /// records whether the caller wants the events logged.
    pub fn new(map_name: &str, debug_enabled: bool) -> (registry: Self)
        ensures
            registry.wf(),
            registry@ == initial_registry(map_name@, debug_enabled),
    {
        let slug = lookup_arena_slug(map_name);
        let (table, arena) = match slug {
            Some(name) => (pad_table_for_slug(name), name),
            None => (None, "unknown"),
        };
        let registry = PadRegistry {
            table,
            arena,
            instances: IdTable::new(),
            learned: NameCache::new(),
            debug_enabled,
        };
        assert(registry@.instances =~= Map::empty());
        registry
    }

    /// Whether the caller asked for events to be logged.
    pub fn debug_enabled(&self) -> (flag: bool)
        ensures
            flag == self@.debug_enabled,
    {
        self.debug_enabled
    }

    /// Whether the arena has a known pad layout.
    pub fn arena_recognized(&self) -> (known: bool)
        ensures
            known == self@.table is Some,
    {
        self.table.is_some()
    }

    /// The number of actors tracked.
    pub fn tracked_count(&self) -> (n: usize)
        requires
            self.wf(),
        ensures
            n == self@.instances.len(),
    {
        proof {
            self.instances.lemma_len();
            assert(self@.instances.dom() =~= self.instances@.dom());
        }
        self.instances.len()
    }

    /// Whether the actor `actor_id` is tracked.
    pub fn is_tracked(&self, actor_id: i32) -> (held: bool)
        requires
            self.wf(),
        ensures
            held == self@.instances.contains_key(actor_id),
    {
        self.instances.contains(actor_id)
    }

    /// Begins to track the actor `actor_id` if `object_name` is the class of
    /// a boost pad.
    pub fn track_new_actor(&mut self, actor_id: i32, object_name: &str)
        requires
            old(self).wf(),
        ensures
            final(self).wf(),
            final(self)@ == after_creation(old(self)@, actor_id, object_name@),
    {
        if !is_boost_pad_class(object_name) {
            return ;
        }
        let name = object_name.to_owned();
        let seed = self.learned.get(&name);
        let inst = PadInstance::new(object_name, seed);
        self.instances.insert(actor_id, inst);
        proof {
            let goal = after_creation(old(self)@, actor_id, object_name@);
            assert(self@.instances =~= goal.instances);
            lemma_creation_keeps_inv(old(self)@, actor_id, object_name@);
        }
    }

    /// Drops everything known of the actor `actor_id`, waiting signals included.
    pub fn remove_actor(&mut self, actor_id: i32)
        requires
            old(self).wf(),
        ensures
            final(self).wf(),
            final(self)@ == after_removal(old(self)@, actor_id),
    {
        self.instances.remove(actor_id);
        proof {
            assert(self@.instances =~= after_removal(old(self)@, actor_id).instances);
            lemma_removal_keeps_inv(old(self)@, actor_id);
        }
    }

    /// Records the latest position of the actor `actor_id`, tries to
    /// resolve it to a pad if that is still open, and returns the events
    /// that this lets out. An actor that is not tracked changes nothing.
    pub fn update_position(&mut self, actor_id: i32, position: Vec3) -> (events: Vec<PadEvent>)
        requires
            old(self).wf(),
        ensures
            final(self).wf(),
            final(self)@ == position_updated(old(self)@, actor_id, position).0,
            event_views(events@) == position_updated(old(self)@, actor_id, position).1,
            old(self)@.table is None ==> events@.len() == 0,
    {
        let place = self.instances.position(actor_id);
        match place {
            None => {
                let events: Vec<PadEvent> = Vec::new();
                assert(event_views(events@) =~= Seq::empty());
                events
            },
            Some(at) => {
                let ghost before = self.instances;
                let ghost placed = PadInstanceView {
                    position: Some(position),
                    ..old(self)@.instances[actor_id]
                };
                let inst = self.instances.entry_mut(at);
                inst.set_position(position);
                let found = inst.resolve(&self.table, Some(position));
                inst.measure(position);
                let events = inst.flush(self.arena);
                if let Some(hit) = found {
                    self.learned.insert(&inst.object_name, hit.pad_def);
                }
                proof {
                    self.instances.lemma_entry_changed(&before, at as int);
                    let goal = position_updated(old(self)@, actor_id, position);
                    assert(self@.instances =~= goal.0.instances);
                    assert(self@.learned == goal.0.learned);
                    lemma_position_keeps_inv(old(self)@, actor_id, position);
                    if old(self)@.table is None {
                        lemma_unrecognized_position_is_silent(old(self)@, actor_id, position);
                    }
                }
                events
            },
        }
    }

    /// Queues a raw pickup signal for the actor `actor_id`, which is tracked
    /// from now on if it was not; tries to resolve the actor to a pad, by
    /// its own position or else by `fallback_position`; and returns the
    /// events that this lets out.
    pub fn handle_pickup(
        &mut self,
        actor_id: i32,
        raw_state: u8,
        timestamp: i64,
        instigator_actor_id: Option<i32>,
        resolved_actor_id: Option<i32>,
        fallback_position: Option<Vec3>,
    ) -> (events: Vec<PadEvent>)
        requires
            old(self).wf(),
        ensures
            final(self).wf(),
            final(self)@ == pickup_handled(
                old(self)@,
                actor_id,
                PendingEvent { raw_state, timestamp, instigator_actor_id, resolved_actor_id },
                fallback_position,
            ).0,
            event_views(events@) == pickup_handled(
                old(self)@,
                actor_id,
                PendingEvent { raw_state, timestamp, instigator_actor_id, resolved_actor_id },
                fallback_position,
            ).1,
            old(self)@.table is None ==> events@.len() == 0,
    {
        let signal = PendingEvent { raw_state, timestamp, instigator_actor_id, resolved_actor_id };
        if !self.instances.contains(actor_id) {
            self.instances.insert(actor_id, PadInstance::new("VehiclePickup_Boost_TA", None));
        }
        let ghost start = instance_or_placeholder(old(self)@, actor_id);
        let ghost queued = PadInstanceView { pending: start.pending.push(signal), ..start };
        assert(self.instances@[actor_id]@ == start);
        let place = self.instances.position(actor_id);
        let at = place.unwrap();
        let ghost before = self.instances;
        let inst = self.instances.entry_mut(at);
        inst.enqueue(signal);
        let found = inst.resolve(&self.table, fallback_position);
        let events = inst.flush(self.arena);
        if let Some(hit) = found {
            self.learned.insert(&inst.object_name, hit.pad_def);
        }
        proof {
            self.instances.lemma_entry_changed(&before, at as int);
            let goal = pickup_handled(old(self)@, actor_id, signal, fallback_position);
            assert(self@.instances =~= goal.0.instances);
            assert(self@.learned == goal.0.learned);
            lemma_pickup_keeps_inv(old(self)@, actor_id, signal, fallback_position);
            if old(self)@.table is None {
                lemma_unrecognized_pickup_is_silent(
                    old(self)@,
                    actor_id,
                    signal,
                    fallback_position,
                );
            }
        }
        events
    }

    /// Goes through every tracked actor and lets out what its queue holds
    /// and can be emitted. Each operation already lets out what it makes
    /// ready, so between operations this finds nothing and changes nothing.
    pub fn flush_ready_events(&mut self) -> (events: Vec<PadEvent>)
        requires
            old(self).wf(),
        ensures
            final(self).wf(),
            final(self)@ == old(self)@,
            events@.len() == 0,
    {
        let mut out: Vec<PadEvent> = Vec::new();
        let count = self.instances.len();
        let mut i: usize = 0;
        while i < count
            invariant
                i <= count,
                count == self.instances.ids().len(),
                self.instances.wf(),
                self.learned.wf(),
                self.instances.ids() == old(self).instances.ids(),
                self@ == old(self)@,
                registry_inv(self@),
                out@.len() == 0,
            decreases count - i,
        {
            let ghost before = self.instances;
            let ghost view_before = self@;
            proof {
                before.lemma_place(i as int);
                let id = before.ids()[i as int];
                assert(view_before.instances.contains_key(id));
                assert(settled(view_before.instances[id]));
                lemma_flush_settled(self.arena@, before.entries()[i as int]@);
            }
            let inst = self.instances.entry_mut(i);
            let mut ready = inst.flush(self.arena);
            proof {
                assert(ready@.len() == event_views(ready@).len());
                self.instances.lemma_entry_changed(&before, i as int);
                assert(self@.instances =~= view_before.instances);
            }
            out.append(&mut ready);
            i += 1;
        }
        out
    }
}

} // verus!
