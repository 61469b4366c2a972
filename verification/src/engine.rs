//! The frame reconstruction engine: it takes the actor deltas of one frame
//! at a time and gives the state of the match after each.

use crate::actors::{
    actor_or_blank, boost_percent, boost_percent_spec, clamp_team, class_of, classify,
    display_position, display_team, spawn_ball, zero_vec, ActorKind, ActorState, BallState,
    QuatBits, DEFAULT_BOOST,
};
use crate::geometry::Vec3;
use crate::id_table::IdTable;
use crate::ownership::{follow, purged, ComponentOwnership, PICKUP_HOP_LIMIT};
use crate::pads::{
    after_creation, after_removal, event_views, initial_registry, lemma_creation_keeps_inv,
    lemma_pickup_keeps_inv, lemma_position_keeps_inv, lemma_removal_keeps_inv, pickup_handled,
    position_updated, registry_inv, PadEvent, PadEventView, PadRegistry, PendingEvent,
    RegistryView,
};
use crate::slots::{
    bound, initial_slots, lemma_bound_is_monotone, lemma_bound_keeps_inv,
    lemma_released_keeps_inv, queue, released, roster_teams, slot_of, slots_inv, RosterEntry,
    SlotTable, SlotsView,
};
use vstd::prelude::*;

verus! {

/// The squared speed, in squared hundredths of a unit per second, above which a car is supersonic.
pub const SUPERSONIC_SPEED_SQ: u128 = 52_900_000_000;

/// The height, in hundredths of a unit, up to which a car counts as on the ground.
pub const GROUND_HEIGHT: i32 = 1_800;

/// An actor that a frame creates: its id and the index of its class name in
/// the object table of the recording.
#[derive(Clone, Copy, Debug, PartialEq, Eq, Structural)]
pub struct NewActor {
    pub actor_id: i32,
    pub object_id: i32,
}

/// What an attribute update says, in one of the shapes that recordings use.
#[derive(Clone, Copy, Debug)]
pub enum AttributeUpdate {
    /// The actor is a component attached to `actor`.
    ActiveActor { actor: i32 },
    /// Position, rotation and, where the body moves, its velocities.
    RigidBody {
        location: Vec3,
        rotation: QuatBits,
        linear_velocity: Option<Vec3>,
        angular_velocity: Option<Vec3>,
    },
    /// A position alone.
    Location { location: Vec3 },
    /// A pickup signal with a flag for its state.
    Pickup { instigator: Option<i32>, picked_up: bool },
    /// A pickup signal with a raw state byte.
    PickupNew { instigator: Option<i32>, state: u8 },
    /// The team of a car.
    TeamPaint { team: u8 },
    /// The boost of a car, from 0 to 255.
    ReplicatedBoost { boost_amount: u8 },
    /// The car was demolished, in the first of three shapes.
    Demolish,
    /// The car was demolished, in the second of three shapes.
    DemolishExtended,
    /// The car was demolished, in the third of three shapes.
    DemolishFx,
    /// Anything else.
    Other,
}

/// An attribute update of one actor.
#[derive(Clone, Copy, Debug)]
pub struct UpdatedAttribute {
    pub actor_id: i32,
    pub attribute: AttributeUpdate,
}

/// The deltas of one frame: its time in microseconds, the actors deleted,
/// the actors created and the attributes updated, each in recorded order.
#[derive(Clone, Debug)]
pub struct FrameDelta {
    pub time: i64,
    pub deleted_actors: Vec<i32>,
    pub new_actors: Vec<NewActor>,
    pub updated_actors: Vec<UpdatedAttribute>,
}

/// One car as a frame shows it.
#[derive(Clone, Copy, Debug)]
pub struct PlayerRecord {
    pub player_index: usize,
    pub actor_id: i32,
    pub team: u8,
    pub position: Vec3,
    pub velocity: Vec3,
    pub rotation: Option<QuatBits>,
    pub boost_amount: u8,
    pub is_supersonic: bool,
    pub is_on_ground: bool,
    pub is_demolished: bool,
}

/// A pad event with the slot and the decoded team of the car that caused it.
#[derive(Clone, Debug)]
pub struct PadEventRecord {
    pub event: PadEvent,
    pub player_index: Option<usize>,
    pub player_team: Option<u8>,
}

/// A `PadEventRecord` with its event as plain values.
pub struct PadEventRecordView {
    pub event: PadEventView,
    pub player_index: Option<usize>,
    pub player_team: Option<u8>,
}

/// The state of the match after one frame.
#[derive(Clone, Debug)]
pub struct FrameSnapshot {
    pub timestamp: i64,
    pub ball: BallState,
    pub players: Vec<PlayerRecord>,
    pub pad_events: Vec<PadEventRecord>,
}

/// A `FrameSnapshot` as plain values.
pub struct SnapshotView {
    pub timestamp: i64,
    pub ball: BallState,
    pub players: Seq<PlayerRecord>,
    pub pad_events: Seq<PadEventRecordView>,
}

/// The state of the engine as plain values: the object table, the actors by
/// id, the links from components to owners, the player slots, the actor
/// that is the ball, the ball, and the pad registry.
pub struct EngineView {
    pub objects: Seq<Seq<char>>,
    pub actors: Map<i32, ActorState>,
    pub owners: Map<i32, i32>,
    pub slots: SlotsView,
    pub ball_actor: Option<i32>,
    pub ball: BallState,
    pub pads: RegistryView,
}

/// Every decoded team is 0 or 1.
pub open spec fn teams_clamped(actors: Map<i32, ActorState>) -> bool {
    forall|a: i32|
        actors.contains_key(a) ==> match (#[trigger] actors[a]).team {
            Some(team) => team <= 1,
            None => true,
        }
}

/// While no actor is the ball, the ball rests on its spot.
pub open spec fn ball_rests_without_actor(s: EngineView) -> bool {
    s.ball_actor is None ==> s.ball == spawn_ball()
}

/// What holds of the engine between any two steps.
pub open spec fn engine_inv(s: EngineView) -> bool {
    &&& slots_inv(s.slots)
    &&& registry_inv(s.pads)
    &&& teams_clamped(s.actors)
    &&& ball_rests_without_actor(s)
}

/// The engine before the first frame.
pub open spec fn initial_engine(
    roster: Seq<RosterEntry>,
    objects: Seq<Seq<char>>,
    map_name: Seq<char>,
    debug_enabled: bool,
) -> EngineView {
    EngineView {
        objects,
        actors: Map::empty(),
        owners: Map::empty(),
        slots: initial_slots(roster_teams(roster)),
        ball_actor: None,
        ball: spawn_ball(),
        pads: initial_registry(map_name, debug_enabled),
    }
}

/// The class name at `object_id` in the object table, empty where the table has none.
pub open spec fn object_name(objects: Seq<Seq<char>>, object_id: i32) -> Seq<char> {
    if 0 <= object_id < objects.len() {
        objects[object_id as int]
    } else {
        Seq::empty()
    }
}

/// The engine after the actor `actor` was deleted: nothing is known of it
/// any more, the ball is back on its spot if it was the ball, and its slot
/// is free.
pub open spec fn deleted(s: EngineView, actor: i32) -> EngineView {
    EngineView {
        ball_actor: if s.ball_actor == Some(actor) {
            None
        } else {
            s.ball_actor
        },
        ball: if s.ball_actor == Some(actor) {
            spawn_ball()
        } else {
            s.ball
        },
        slots: released(s.slots, actor),
        actors: s.actors.remove(actor),
        owners: purged(s.owners, actor),
        pads: after_removal(s.pads, actor),
        ..s
    }
}

/// The engine after an actor was created: its class is read off its class
/// name; a ball becomes the ball, at rest on its spot; a pad is tracked.
pub open spec fn created(s: EngineView, actor: NewActor) -> EngineView {
    let name = object_name(s.objects, actor.object_id);
    let class = class_of(name);
    EngineView {
        actors: s.actors.insert(
            actor.actor_id,
            ActorState { class, ..actor_or_blank(s.actors, actor.actor_id) },
        ),
        ball_actor: if class.kind is Ball {
            Some(actor.actor_id)
        } else {
            s.ball_actor
        },
        ball: if class.kind is Ball {
            spawn_ball()
        } else {
            s.ball
        },
        pads: after_creation(s.pads, actor.actor_id, name),
        ..s
    }
}

/// A velocity that an update carries, zero where it carries none.
pub open spec fn or_zero(v: Option<Vec3>) -> Vec3 {
    match v {
        Some(v) => v,
        None => zero_vec(),
    }
}

/// The engine after a position was observed for `actor`, with the events
/// that the pad registry let out.
pub open spec fn with_pad_position(s: EngineView, actor: i32, location: Vec3) -> (
    EngineView,
    Seq<PadEventView>,
) {
    let (pads, events) = position_updated(s.pads, actor, location);
    (EngineView { pads, ..s }, events)
}

/// The engine after a pickup signal of raw state `raw_state` arrived for the
/// pad actor `actor` at `time`: the instigator is followed up to its owner,
/// whose position serves as fallback for the pad.
pub open spec fn with_pickup(
    s: EngineView,
    actor: i32,
    raw_state: u8,
    time: i64,
    instigator: Option<i32>,
) -> (EngineView, Seq<PadEventView>) {
    let resolved = match instigator {
        Some(raw) => Some(follow(s.owners, raw, 9)),
        None => None,
    };
    let fallback = match resolved {
        Some(owner) => actor_or_blank(s.actors, owner).position,
        None => None,
    };
    let signal = PendingEvent {
        raw_state,
        timestamp: time,
        instigator_actor_id: instigator,
        resolved_actor_id: resolved,
    };
    let (pads, events) = pickup_handled(s.pads, actor, signal, fallback);
    (EngineView { pads, ..s }, events)
}

/// The raw state byte of a pickup signal that carries a flag.
pub open spec fn flag_state(picked_up: bool) -> u8 {
    if picked_up {
        1
    } else {
        0
    }
}

/// The engine after one attribute update at `time`, with the pad events
/// that it let out.
pub open spec fn updated(s: EngineView, update: UpdatedAttribute, time: i64) -> (
    EngineView,
    Seq<PadEventView>,
) {
    let actor = update.actor_id;
    let known = actor_or_blank(s.actors, actor);
    match update.attribute {
        AttributeUpdate::ActiveActor { actor: owner } => {
            if known.class.is_component {
                (EngineView { owners: s.owners.insert(actor, owner), ..s }, Seq::empty())
            } else {
                (s, Seq::empty())
            }
        },
        AttributeUpdate::RigidBody { location, rotation, linear_velocity, angular_velocity } => {
            let moved = if s.ball_actor == Some(actor) || known.class.ball_like {
                EngineView {
                    ball_actor: Some(actor),
                    ball: BallState {
                        position: location,
                        velocity: or_zero(linear_velocity),
                        angular_velocity: or_zero(angular_velocity),
                    },
                    ..s
                }
            } else {
                EngineView {
                    actors: s.actors.insert(
                        actor,
                        ActorState {
                            position: Some(location),
                            velocity: Some(or_zero(linear_velocity)),
                            rotation: Some(rotation),
                            ..known
                        },
                    ),
                    ..s
                }
            };
            with_pad_position(moved, actor, location)
        },
        AttributeUpdate::Location { location } => {
            let moved = if s.ball_actor == Some(actor) || known.class.ball_like {
                EngineView {
                    ball_actor: Some(actor),
                    ball: BallState { position: location, ..s.ball },
                    ..s
                }
            } else {
                EngineView {
                    actors: s.actors.insert(
                        actor,
                        ActorState { position: Some(location), ..known },
                    ),
                    ..s
                }
            };
            with_pad_position(moved, actor, location)
        },
        AttributeUpdate::Pickup { instigator, picked_up } => with_pickup(
            s,
            actor,
            flag_state(picked_up),
            time,
            instigator,
        ),
        AttributeUpdate::PickupNew { instigator, state } => with_pickup(
            s,
            actor,
            state,
            time,
            instigator,
        ),
        AttributeUpdate::TeamPaint { team } => {
            let team = clamp_team(team);
            (
                EngineView {
                    actors: s.actors.insert(actor, ActorState { team: Some(team), ..known }),
                    slots: if known.class.kind is Car {
                        bound(s.slots, actor, team)
                    } else {
                        s.slots
                    },
                    ..s
                },
                Seq::empty(),
            )
        },
        AttributeUpdate::ReplicatedBoost { boost_amount } => {
            let target = if s.owners.contains_key(actor) {
                s.owners[actor]
            } else {
                actor
            };
            (
                EngineView {
                    actors: s.actors.insert(
                        target,
                        ActorState {
                            boost: Some(boost_percent_spec(boost_amount)),
                            ..actor_or_blank(s.actors, target)
                        },
                    ),
                    ..s
                },
                Seq::empty(),
            )
        },
        AttributeUpdate::Demolish
        | AttributeUpdate::DemolishExtended
        | AttributeUpdate::DemolishFx => {
            (
                EngineView {
                    actors: s.actors.insert(actor, ActorState { demolished: true, ..known }),
                    ..s
                },
                Seq::empty(),
            )
        },
        AttributeUpdate::Other => (s, Seq::empty()),
    }
}

/// An actor that a frame shows: a car that is not the ball and of which a
/// position, a boost or a team is known.
pub open spec fn is_shown(s: EngineView, actor: i32) -> bool {
    &&& s.actors.contains_key(actor)
    &&& s.actors[actor].class.kind is Car
    &&& s.ball_actor != Some(actor)
    &&& (s.actors[actor].position is Some || s.actors[actor].boost is Some
        || s.actors[actor].team is Some)
}

/// The engine after `actor`, if it is shown and holds no slot, asked for
/// one of the team under which it is shown.
pub open spec fn seated(s: EngineView, actor: i32) -> EngineView {
    if is_shown(s, actor) {
        EngineView { slots: bound(s.slots, actor, display_team(s.actors[actor])), ..s }
    } else {
        s
    }
}

/// The engine after every actor with an id from `lo` up to, not including,
/// `hi` was seated, in ascending order of id.
pub open spec fn seated_range(s: EngineView, lo: int, hi: int) -> EngineView
    decreases hi - lo,
{
    if hi <= lo {
        s
    } else {
        seated(seated_range(s, lo, hi - 1), (hi - 1) as i32)
    }
}

/// The engine after every actor was seated, in ascending order of id.
pub open spec fn all_seated(s: EngineView) -> EngineView {
    seated_range(s, i32::MIN as int, i32::MAX as int + 1)
}

/// The record of the car `actor` in the slot `slot`.
pub open spec fn player_record(s: EngineView, slot: int, actor: i32) -> PlayerRecord {
    let state = s.actors[actor];
    let velocity = or_zero(state.velocity);
    PlayerRecord {
        player_index: slot as usize,
        actor_id: actor,
        team: display_team(state),
        position: display_position(state),
        velocity,
        rotation: state.rotation,
        boost_amount: match state.boost {
            Some(b) => b,
            None => 33,
        },
        is_supersonic: velocity.norm_sq_spec() > 52_900_000_000,
        is_on_ground: display_position(state).z <= 1_800,
        is_demolished: state.demolished,
    }
}

/// The records of the shown cars that hold one of the first `n` slots, in
/// the order of the slots.
pub open spec fn players_upto(s: EngineView, n: int) -> Seq<PlayerRecord>
    decreases n,
{
    if n <= 0 {
        Seq::empty()
    } else {
        let before = players_upto(s, n - 1);
        match s.slots.holders[n - 1] {
            Some(actor) => if is_shown(s, actor) {
                before.push(player_record(s, n - 1, actor))
            } else {
                before
            },
            None => before,
        }
    }
}

/// A pad event with the slot and the decoded team of the actor that it was resolved to.
pub open spec fn pad_record(s: EngineView, event: PadEventView) -> PadEventRecordView {
    PadEventRecordView {
        event,
        player_index: match event.resolved_actor_id {
            Some(actor) => match slot_of(s.slots.holders, actor) {
                Some(slot) => Some(slot as usize),
                None => None,
            },
            None => None,
        },
        player_team: match event.resolved_actor_id {
            Some(actor) => actor_or_blank(s.actors, actor).team,
            None => None,
        },
    }
}

/// The engine after the shown cars were seated, and the snapshot of the
/// frame at `time` with the pad events `events`.
pub open spec fn emitted(s: EngineView, time: i64, events: Seq<PadEventView>) -> (
    EngineView,
    SnapshotView,
) {
    let after = all_seated(s);
    (
        after,
        SnapshotView {
            timestamp: time,
            ball: after.ball,
            players: players_upto(after, after.slots.holders.len() as int),
            pad_events: Seq::new(events.len(), |i: int| pad_record(after, events[i])),
        },
    )
}

/// The engine after the first `n` of `actors` were deleted, in order.
pub open spec fn deleted_all(s: EngineView, actors: Seq<i32>, n: int) -> EngineView
    decreases n,
{
    if n <= 0 {
        s
    } else {
        deleted(deleted_all(s, actors, n - 1), actors[n - 1])
    }
}

/// The engine after the first `n` of `actors` were created, in order.
pub open spec fn created_all(s: EngineView, actors: Seq<NewActor>, n: int) -> EngineView
    decreases n,
{
    if n <= 0 {
        s
    } else {
        created(created_all(s, actors, n - 1), actors[n - 1])
    }
}

/// The engine after the first `n` of `updates` were applied at `time`, in
/// order, with the pad events that they let out.
pub open spec fn updated_all(s: EngineView, updates: Seq<UpdatedAttribute>, time: i64, n: int) -> (
    EngineView,
    Seq<PadEventView>,
)
    decreases n,
{
    if n <= 0 {
        (s, Seq::empty())
    } else {
        let (before, events) = updated_all(s, updates, time, n - 1);
        let (after, more) = updated(before, updates[n - 1], time);
        (after, events + more)
    }
}

/// The engine after one frame, and the snapshot of that frame: deletions
/// first, then creations, then updates, then the snapshot.
pub open spec fn frame_processed(
    s: EngineView,
    time: i64,
    deleted_actors: Seq<i32>,
    new_actors: Seq<NewActor>,
    updated_actors: Seq<UpdatedAttribute>,
) -> (EngineView, SnapshotView) {
    let pruned = deleted_all(s, deleted_actors, deleted_actors.len() as int);
    let grown = created_all(pruned, new_actors, new_actors.len() as int);
    let (moved, events) = updated_all(grown, updated_actors, time, updated_actors.len() as int);
    emitted(moved, time, events)
}

/// An attribute update takes no actor away and leaves the class of every
/// actor as it was read off at its creation; so does the seating of a frame.
pub proof fn lemma_class_is_kept(s: EngineView, update: UpdatedAttribute, time: i64, actor: i32)
    requires
        engine_inv(s),
        s.actors.contains_key(actor),
    ensures
        updated(s, update, time).0.actors.contains_key(actor),
        updated(s, update, time).0.actors[actor].class == s.actors[actor].class,
        all_seated(s).actors == s.actors,
{
    lemma_seated_range(s, i32::MIN as int, i32::MAX as int + 1);
}

/// Every actor is shown on team 0 or on team 1.
pub proof fn lemma_shown_team_is_binary(s: EngineView, actor: i32)
    requires
        engine_inv(s),
        s.actors.contains_key(actor),
    ensures
        display_team(s.actors[actor]) <= 1,
{
}

/// Two states of one recording: the same object table, the same slots with
/// the same teams, and the same arena with the same pad table.
pub open spec fn same_recording(a: EngineView, b: EngineView) -> bool {
    &&& a.objects == b.objects
    &&& a.slots.teams == b.slots.teams
    &&& a.slots.holders.len() == b.slots.holders.len()
    &&& a.pads.table == b.pads.table
    &&& a.pads.arena == b.pads.arena
    &&& a.pads.debug_enabled == b.pads.debug_enabled
}

/// Seating changes the slots and nothing else, and keeps what holds of them.
pub proof fn lemma_seated_range(s: EngineView, lo: int, hi: int)
    requires
        engine_inv(s),
        i32::MIN <= lo,
        hi <= i32::MAX + 1,
    ensures
        seated_range(s, lo, hi) == (EngineView { slots: seated_range(s, lo, hi).slots, ..s }),
        engine_inv(seated_range(s, lo, hi)),
        seated_range(s, lo, hi).slots.teams == s.slots.teams,
        seated_range(s, lo, hi).slots.holders.len() == s.slots.holders.len(),
    decreases hi - lo,
{
    if hi > lo {
        lemma_seated_range(s, lo, hi - 1);
        let before = seated_range(s, lo, hi - 1);
        let actor = (hi - 1) as i32;
        if is_shown(before, actor) {
            lemma_bound_keeps_inv(before.slots, actor, display_team(before.actors[actor]));
        }
    }
}

/// Ids that no actor has are passed over.
pub proof fn lemma_seated_range_skip(s: EngineView, lo: int, mid: int, hi: int)
    requires
        engine_inv(s),
        i32::MIN <= lo <= mid <= hi <= i32::MAX + 1,
        forall|a: i32| mid <= a < hi ==> !s.actors.contains_key(a),
    ensures
        seated_range(s, lo, hi) == seated_range(s, lo, mid),
    decreases hi - mid,
{
    if hi > mid {
        lemma_seated_range_skip(s, lo, mid, hi - 1);
        lemma_seated_range(s, lo, hi - 1);
    }
}

/// A deletion keeps what holds of the engine between steps.
pub proof fn lemma_deleted_keeps_inv(s: EngineView, actor: i32)
    requires
        engine_inv(s),
    ensures
        engine_inv(deleted(s, actor)),
        same_recording(deleted(s, actor), s),
{
    lemma_released_keeps_inv(s.slots, actor);
    lemma_removal_keeps_inv(s.pads, actor);
}

/// A creation keeps what holds of the engine between steps.
pub proof fn lemma_created_keeps_inv(s: EngineView, actor: NewActor)
    requires
        engine_inv(s),
    ensures
        engine_inv(created(s, actor)),
        same_recording(created(s, actor), s),
{
    lemma_creation_keeps_inv(s.pads, actor.actor_id, object_name(s.objects, actor.object_id));
}

/// A pickup signal keeps what holds of the engine between steps.
proof fn lemma_with_pickup_keeps_inv(
    s: EngineView,
    actor: i32,
    raw_state: u8,
    time: i64,
    instigator: Option<i32>,
)
    requires
        engine_inv(s),
    ensures
        engine_inv(with_pickup(s, actor, raw_state, time, instigator).0),
        same_recording(with_pickup(s, actor, raw_state, time, instigator).0, s),
{
    let resolved = match instigator {
        Some(raw) => Some(follow(s.owners, raw, 9)),
        None => None,
    };
    let fallback = match resolved {
        Some(owner) => actor_or_blank(s.actors, owner).position,
        None => None,
    };
    let signal = PendingEvent {
        raw_state,
        timestamp: time,
        instigator_actor_id: instigator,
        resolved_actor_id: resolved,
    };
    lemma_pickup_keeps_inv(s.pads, actor, signal, fallback);
}

/// An attribute update keeps what holds of the engine between steps.
pub proof fn lemma_updated_keeps_inv(s: EngineView, update: UpdatedAttribute, time: i64)
    requires
        engine_inv(s),
    ensures
        engine_inv(updated(s, update, time).0),
        same_recording(updated(s, update, time).0, s),
{
    let id = update.actor_id;
    match update.attribute {
        AttributeUpdate::RigidBody { location, .. } => {
            lemma_position_keeps_inv(s.pads, id, location);
        },
        AttributeUpdate::Location { location } => {
            lemma_position_keeps_inv(s.pads, id, location);
        },
        AttributeUpdate::Pickup { instigator, picked_up } => {
            lemma_with_pickup_keeps_inv(s, id, flag_state(picked_up), time, instigator);
        },
        AttributeUpdate::PickupNew { instigator, state } => {
            lemma_with_pickup_keeps_inv(s, id, state, time, instigator);
        },
        AttributeUpdate::TeamPaint { team } => {
            lemma_bound_keeps_inv(s.slots, id, clamp_team(team));
        },
        _ => {},
    }
}

/// Every frame keeps what holds of the engine between steps: in
/// particular no slot is ever held twice, no actor ever holds two slots,
/// and a free slot always waits in the queue of its own team.
pub proof fn lemma_frame_keeps_inv(
    s: EngineView,
    time: i64,
    deleted_actors: Seq<i32>,
    new_actors: Seq<NewActor>,
    updated_actors: Seq<UpdatedAttribute>,
)
    requires
        engine_inv(s),
    ensures
        engine_inv(frame_processed(s, time, deleted_actors, new_actors, updated_actors).0),
        same_recording(frame_processed(s, time, deleted_actors, new_actors, updated_actors).0, s),
{
    let pruned = deleted_all(s, deleted_actors, deleted_actors.len() as int);
    lemma_deleted_all_keeps_inv(s, deleted_actors, deleted_actors.len() as int);
    let grown = created_all(pruned, new_actors, new_actors.len() as int);
    lemma_created_all_keeps_inv(pruned, new_actors, new_actors.len() as int);
    let (moved, events) = updated_all(grown, updated_actors, time, updated_actors.len() as int);
    lemma_updated_all_keeps_inv(grown, updated_actors, time, updated_actors.len() as int);
    lemma_seated_range(moved, i32::MIN as int, i32::MAX as int + 1);
}

/// Deletions in a row keep what holds of the engine between steps, and the
/// recording.
pub proof fn lemma_deleted_all_keeps_inv(s: EngineView, actors: Seq<i32>, n: int)
    requires
        engine_inv(s),
    ensures
        engine_inv(deleted_all(s, actors, n)),
        same_recording(deleted_all(s, actors, n), s),
    decreases n,
{
    if n > 0 {
        lemma_deleted_all_keeps_inv(s, actors, n - 1);
        lemma_deleted_keeps_inv(deleted_all(s, actors, n - 1), actors[n - 1]);
    }
}

/// Creations in a row keep what holds of the engine between steps, and the
/// recording.
pub proof fn lemma_created_all_keeps_inv(s: EngineView, actors: Seq<NewActor>, n: int)
    requires
        engine_inv(s),
    ensures
        engine_inv(created_all(s, actors, n)),
        same_recording(created_all(s, actors, n), s),
    decreases n,
{
    if n > 0 {
        lemma_created_all_keeps_inv(s, actors, n - 1);
        lemma_created_keeps_inv(created_all(s, actors, n - 1), actors[n - 1]);
    }
}

/// Updates in a row keep what holds of the engine between steps, and the
/// recording; where the arena has no pad table, they let no event out.
pub proof fn lemma_updated_all_keeps_inv(
    s: EngineView,
    updates: Seq<UpdatedAttribute>,
    time: i64,
    n: int,
)
    requires
        engine_inv(s),
    ensures
        engine_inv(updated_all(s, updates, time, n).0),
        same_recording(updated_all(s, updates, time, n).0, s),
        s.pads.table is None ==> updated_all(s, updates, time, n).1.len() == 0,
    decreases n,
{
    if n > 0 {
        lemma_updated_all_keeps_inv(s, updates, time, n - 1);
        lemma_updated_keeps_inv(updated_all(s, updates, time, n - 1).0, updates[n - 1], time);
    }
}

/// In an arena that is not recognized no frame ever shows a pad event,
/// whatever the positions and the signals that it carries.
pub proof fn lemma_unrecognized_arena_shows_no_pad_event(
    s: EngineView,
    time: i64,
    deleted_actors: Seq<i32>,
    new_actors: Seq<NewActor>,
    updated_actors: Seq<UpdatedAttribute>,
)
    requires
        engine_inv(s),
        s.pads.table is None,
    ensures
        frame_processed(s, time, deleted_actors, new_actors, updated_actors).1.pad_events.len()
            == 0,
        frame_processed(s, time, deleted_actors, new_actors, updated_actors).0.pads.table is None,
{
    lemma_deleted_all_keeps_inv(s, deleted_actors, deleted_actors.len() as int);
    let pruned = deleted_all(s, deleted_actors, deleted_actors.len() as int);
    lemma_created_all_keeps_inv(pruned, new_actors, new_actors.len() as int);
    let grown = created_all(pruned, new_actors, new_actors.len() as int);
    lemma_updated_all_keeps_inv(grown, updated_actors, time, updated_actors.len() as int);
    let moved = updated_all(grown, updated_actors, time, updated_actors.len() as int).0;
    lemma_seated_range(moved, i32::MIN as int, i32::MAX as int + 1);
}

/// Once the actors below `hi` were seated, a shown car among them holds a
/// slot unless the team under which it is shown has none free.
proof fn lemma_seated_range_is_fair(s: EngineView, hi: int, actor: i32)
    requires
        engine_inv(s),
        is_shown(s, actor),
        actor < hi <= i32::MAX + 1,
    ensures
        ({
            let after = seated_range(s, i32::MIN as int, hi);
            slot_of(after.slots.holders, actor) is Some || queue(
                after.slots,
                display_team(s.actors[actor]),
            ).len() == 0
        }),
    decreases hi - actor,
{
    let before = seated_range(s, i32::MIN as int, hi - 1);
    lemma_seated_range(s, i32::MIN as int, hi - 1);
    let turn = (hi - 1) as i32;
    let team = display_team(s.actors[actor]);
    if turn == actor {
        lemma_bound_is_monotone(before.slots, actor, team, actor, team);
    } else {
        lemma_seated_range_is_fair(s, hi - 1, actor);
        if is_shown(before, turn) {
            lemma_bound_is_monotone(
                before.slots,
                turn,
                display_team(before.actors[turn]),
                actor,
                team,
            );
        }
    }
}

/// After the seating of a frame a shown car is without a slot only if the
/// team under which it is shown has no free slot left: no car is left out
/// while a slot of its team is free, and none is given a slot that the
/// roster does not declare.
pub proof fn lemma_left_out_only_when_full(s: EngineView, actor: i32)
    requires
        engine_inv(s),
        is_shown(s, actor),
    ensures
        slot_of(all_seated(s).slots.holders, actor) is Some || queue(
            all_seated(s).slots,
            display_team(s.actors[actor]),
        ).len() == 0,
        all_seated(s).slots.holders.len() == s.slots.holders.len(),
{
    lemma_seated_range_is_fair(s, i32::MAX as int + 1, actor);
    lemma_seated_range(s, i32::MIN as int, i32::MAX as int + 1);
}

/// The views of a sequence of pad event records.
pub open spec fn record_views(records: Seq<PadEventRecord>) -> Seq<PadEventRecordView> {
    Seq::new(records.len(), |i: int| records[i]@)
}

impl View for PadEventRecord {
    type V = PadEventRecordView;

    open spec fn view(&self) -> PadEventRecordView {
        PadEventRecordView {
            event: self.event@,
            player_index: self.player_index,
            player_team: self.player_team,
        }
    }
}

impl View for FrameSnapshot {
    type V = SnapshotView;

    open spec fn view(&self) -> SnapshotView {
        SnapshotView {
            timestamp: self.timestamp,
            ball: self.ball,
            players: self.players@,
            pad_events: record_views(self.pad_events@),
        }
    }
}

/// A copy of a pad event.
fn copy_event(event: &PadEvent) -> (copy: PadEvent)
    ensures
        copy@ == event@,
{
    PadEvent {
        pad_id: event.pad_id,
        is_big: event.is_big,
        side: event.side,
        arena: event.arena,
        arena_recognized: event.arena_recognized,
        object_name: event.object_name.clone(),
        position: event.position,
        timestamp: event.timestamp,
        raw_state: event.raw_state,
        instigator_actor_id: event.instigator_actor_id,
        resolved_actor_id: event.resolved_actor_id,
        status: event.status,
        snap_distance_sq: event.snap_distance_sq,
    }
}

/// The views of the class names of an object table.
pub open spec fn name_views(objects: Seq<String>) -> Seq<Seq<char>> {
    Seq::new(objects.len(), |i: int| objects[i]@)
}

/// The class name at `object_id` in the object table, empty where the table has none.
pub fn class_name_at(objects: &Vec<String>, object_id: i32) -> (name: &str)
    ensures
        name@ == object_name(name_views(objects@), object_id),
{
    if object_id >= 0 && (object_id as usize) < objects.len() {
        objects[object_id as usize].as_str()
    } else {
        proof {
            reveal_strlit("");
        }
        ""
    }
}

/// No pad events.
fn no_events() -> (events: Vec<PadEvent>)
    ensures
        events@.len() == 0,
        event_views(events@) == Seq::<PadEventView>::empty(),
{
    let events: Vec<PadEvent> = Vec::new();
    assert(event_views(events@) =~= Seq::<PadEventView>::empty());
    events
}

/// A velocity that an update carries, zero where it carries none.
fn velocity_or_zero(v: Option<Vec3>) -> (r: Vec3)
    ensures
        r == or_zero(v),
{
    match v {
        Some(v) => v,
        None => Vec3 { x: 0, y: 0, z: 0 },
    }
}

/// The frame reconstruction engine of one recording.
pub struct Engine {
    objects: Vec<String>,
    actors: IdTable<ActorState>,
    owners: ComponentOwnership,
    slots: SlotTable,
    ball_actor: Option<i32>,
    ball: BallState,
    pads: PadRegistry,
}

impl View for Engine {
    type V = EngineView;

    closed spec fn view(&self) -> EngineView {
        EngineView {
            objects: name_views(self.objects@),
            actors: self.actors@,
            owners: self.owners@,
            slots: self.slots@,
            ball_actor: self.ball_actor,
            ball: self.ball,
            pads: self.pads@,
        }
    }
}

impl Engine {
    /// The parts of the engine hold together.
    pub closed spec fn wf(&self) -> bool {
        &&& self.actors.wf()
        &&& self.owners.wf()
        &&& self.slots.wf()
        &&& self.pads.wf()
        &&& teams_clamped(self.actors@)
        &&& self.ball_actor is None ==> self.ball == spawn_ball()
    }

    /// What holds between steps holds of a well-formed engine.
    pub proof fn lemma_wf_inv(&self)
        requires
            self.wf(),
        ensures
            engine_inv(self@),
    {
        self.pads.lemma_wf_inv();
    }

    /// An engine for a recording with the declared players `roster`, the
    /// object table `objects` and the map `map_name`. `debug_enabled` is
    /// handed on to the pad registry.
    pub fn new(roster: &Vec<RosterEntry>, objects: Vec<String>, map_name: &str, debug_enabled: bool)
        -> (engine: Self)
        ensures
            engine.wf(),
            engine@ == initial_engine(roster@, name_views(objects@), map_name@, debug_enabled),
    {
        Engine {
            objects,
            actors: IdTable::new(),
            owners: ComponentOwnership::new(),
            slots: SlotTable::new(roster),
            ball_actor: None,
            ball: BallState::spawn(),
            pads: PadRegistry::new(map_name, debug_enabled),
        }
    }

    /// What is known of `actor`, blank if nothing is.
    pub fn known(&self, actor: i32) -> (state: ActorState)
        requires
            self.wf(),
        ensures
            state == actor_or_blank(self@.actors, actor),
    {
        match self.actors.get(actor) {
            Some(state) => *state,
            None => ActorState::blank(),
        }
    }

    /// Whether the caller asked for pad events to be logged.
    pub fn debug_enabled(&self) -> (flag: bool)
        ensures
            flag == self@.pads.debug_enabled,
    {
        self.pads.debug_enabled()
    }

    /// Where the ball is and how it moves.
    pub fn ball(&self) -> (ball: BallState)
        ensures
            ball == self@.ball,
    {
        self.ball
    }

    /// The actor that is the ball, if there is one.
    pub fn ball_actor(&self) -> (actor: Option<i32>)
        ensures
            actor == self@.ball_actor,
    {
        self.ball_actor
    }

    /// The slot that `actor` holds, if any.
    pub fn slot_of(&self, actor: i32) -> (slot: Option<usize>)
        requires
            self.wf(),
        ensures
            match slot {
                Some(i) => slot_of(self@.slots.holders, actor) == Some(i as int),
                None => slot_of(self@.slots.holders, actor) is None,
            },
    {
        self.slots.slot_of(actor)
    }

    /// The owner recorded for the component `component`, if any.
    pub fn owner_of(&self, component: i32) -> (owner: Option<i32>)
        requires
            self.wf(),
        ensures
            owner == if self@.owners.contains_key(component) {
                Some(self@.owners[component])
            } else {
                None
            },
    {
        self.owners.owner_of(component)
    }

    /// Forgets the actor `actor`: its class and telemetry, the links from
    /// it and to it, and its pad instance. If it was the ball, the ball is
    /// back on its spot; if it held a slot, the slot is free again.
    pub fn delete_actor(&mut self, actor: i32)
        requires
            old(self).wf(),
        ensures
            final(self).wf(),
            final(self)@ == deleted(old(self)@, actor),
    {
        if self.ball_actor == Some(actor) {
            self.ball_actor = None;
            self.ball = BallState::spawn();
        }
        self.slots.release(actor);
        self.actors.remove(actor);
        self.owners.purge(actor);
        self.pads.remove_actor(actor);
    }

    /// Takes note of a new actor: reads its class off its class name,
    /// makes it the ball if it is one, and hands it to the pad registry.
    pub fn create_actor(&mut self, actor: NewActor)
        requires
            old(self).wf(),
        ensures
            final(self).wf(),
            final(self)@ == created(old(self)@, actor),
    {
        let mut state = self.known(actor.actor_id);
        let name = class_name_at(&self.objects, actor.object_id);
        let class = classify(name);
        state.class = class;
        self.pads.track_new_actor(actor.actor_id, name);
        self.actors.insert(actor.actor_id, state);
        if let ActorKind::Ball = class.kind {
            self.ball_actor = Some(actor.actor_id);
            self.ball = BallState::spawn();
        }
    }

    /// Hands a pickup signal to the pad registry: follows the instigator up
    /// to its owner, and gives the position of the owner as fallback.
    fn pickup(&mut self, actor: i32, raw_state: u8, time: i64, instigator: Option<i32>) -> (events:
        Vec<PadEvent>)
        requires
            old(self).wf(),
        ensures
            final(self).wf(),
            final(self)@ == with_pickup(old(self)@, actor, raw_state, time, instigator).0,
            event_views(events@) == with_pickup(old(self)@, actor, raw_state, time, instigator).1,
    {
        let resolved = match instigator {
            Some(raw) => Some(self.owners.resolve_owner(raw, PICKUP_HOP_LIMIT)),
            None => None,
        };
        let fallback = match resolved {
            Some(owner) => self.known(owner).position,
            None => None,
        };
        self.pads.handle_pickup(actor, raw_state, time, instigator, resolved, fallback)
    }

    /// Applies one attribute update of the frame at `time` and returns the
    /// pad events that it lets out. An update of a kind that the engine
    /// does not know changes nothing.
    pub fn apply_update(&mut self, update: &UpdatedAttribute, time: i64) -> (events: Vec<PadEvent>)
        requires
            old(self).wf(),
        ensures
            final(self).wf(),
            final(self)@ == updated(old(self)@, *update, time).0,
            event_views(events@) == updated(old(self)@, *update, time).1,
    {
        let actor = update.actor_id;
        let mut state = self.known(actor);
        match update.attribute {
            AttributeUpdate::ActiveActor { actor: owner } => {
                if state.class.is_component {
                    self.owners.attach(actor, owner);
                }
                no_events()
            },
            AttributeUpdate::RigidBody {
                location,
                rotation,
                linear_velocity,
                angular_velocity,
            } => {
                if self.ball_actor == Some(actor) || state.class.ball_like {
                    self.ball_actor = Some(actor);
                    self.ball = BallState {
                        position: location,
                        velocity: velocity_or_zero(linear_velocity),
                        angular_velocity: velocity_or_zero(angular_velocity),
                    };
                } else {
                    state.position = Some(location);
                    state.velocity = Some(velocity_or_zero(linear_velocity));
                    state.rotation = Some(rotation);
                    self.actors.insert(actor, state);
                }
                self.pads.update_position(actor, location)
            },
            AttributeUpdate::Location { location } => {
                if self.ball_actor == Some(actor) || state.class.ball_like {
                    self.ball_actor = Some(actor);
                    self.ball.position = location;
                } else {
                    state.position = Some(location);
                    self.actors.insert(actor, state);
                }
                self.pads.update_position(actor, location)
            },
            AttributeUpdate::Pickup { instigator, picked_up } => {
                let raw_state: u8 = if picked_up {
                    1
                } else {
                    0
                };
                self.pickup(actor, raw_state, time, instigator)
            },
            AttributeUpdate::PickupNew { instigator, state: raw_state } => {
                self.pickup(actor, raw_state, time, instigator)
            },
            AttributeUpdate::TeamPaint { team } => {
                let team: u8 = if team >= 1 {
                    1
                } else {
                    0
                };
                state.team = Some(team);
                self.actors.insert(actor, state);
                if let ActorKind::Car = state.class.kind {
                    self.slots.bind(actor, team);
                }
                no_events()
            },
            AttributeUpdate::ReplicatedBoost { boost_amount } => {
                let target = match self.owners.owner_of(actor) {
                    Some(owner) => owner,
                    None => actor,
                };
                let mut car = self.known(target);
                car.boost = Some(boost_percent(boost_amount));
                self.actors.insert(target, car);
                no_events()
            },
            AttributeUpdate::Demolish
            | AttributeUpdate::DemolishExtended
            | AttributeUpdate::DemolishFx => {
                state.demolished = true;
                self.actors.insert(actor, state);
                no_events()
            },
            AttributeUpdate::Other => no_events(),
        }
    }

    /// Whether a frame shows `actor`, of which `state` is known.
    fn shows(&self, actor: i32, state: &ActorState) -> (shown: bool)
        requires
            self.wf(),
            self@.actors.contains_key(actor),
            self@.actors[actor] == *state,
        ensures
            shown == is_shown(self@, actor),
    {
        let is_car = match state.class.kind {
            ActorKind::Car => true,
            _ => false,
        };
        is_car && self.ball_actor != Some(actor) && (state.position.is_some()
            || state.boost.is_some() || state.team.is_some())
    }

    /// Gives every shown car that holds no slot the next free slot of the
    /// team under which it is shown, in ascending order of actor id.
    fn seat_all(&mut self)
        requires
            old(self).wf(),
        ensures
            final(self).wf(),
            final(self)@ == all_seated(old(self)@),
    {
        let count = self.actors.len();
        let ghost start = self@;
        let ghost mut done: int = i32::MIN as int;
        proof {
            self.lemma_wf_inv();
        }
        let mut i: usize = 0;
        while i < count
            invariant
                self.wf(),
                engine_inv(start),
                i <= count,
                count == self.actors.ids().len(),
                self.actors@ == start.actors,
                i32::MIN <= done <= i32::MAX + 1,
                forall|j: int| 0 <= j < i ==> self.actors.ids()[j] < done,
                forall|j: int| i <= j < count ==> self.actors.ids()[j] >= done,
                self@ == seated_range(start, i32::MIN as int, done),
            decreases count - i,
        {
            let actor = self.actors.id_at(i);
            let state = *self.actors.entry_at(i);
            proof {
                self.actors.lemma_place(i as int);
                lemma_seated_range_skip(start, i32::MIN as int, done, actor as int);
                lemma_seated_range(start, i32::MIN as int, actor as int);
            }
            if self.shows(actor, &state) {
                self.slots.bind(actor, state.shown_team());
            }
            proof {
                done = actor + 1;
            }
            i += 1;
        }
        proof {
            lemma_seated_range_skip(start, i32::MIN as int, done, i32::MAX as int + 1);
        }
    }

    /// The records of the shown cars that hold a slot, in the order of the slots.
    fn players(&self) -> (players: Vec<PlayerRecord>)
        requires
            self.wf(),
        ensures
            players@ == players_upto(self@, self@.slots.holders.len() as int),
    {
        let mut players: Vec<PlayerRecord> = Vec::new();
        let count = self.slots.len();
        let mut slot: usize = 0;
        while slot < count
            invariant
                self.wf(),
                slot <= count,
                count == self@.slots.holders.len(),
                players@ == players_upto(self@, slot as int),
            decreases count - slot,
        {
            if let Some(actor) = self.slots.holder_at(slot) {
                if let Some(state) = self.actors.get(actor) {
                    if self.shows(actor, state) {
                        let velocity = velocity_or_zero(state.velocity);
                        let position = state.shown_position();
                        players.push(
                            PlayerRecord {
                                player_index: slot,
                                actor_id: actor,
                                team: state.shown_team(),
                                position,
                                velocity,
                                rotation: state.rotation,
                                boost_amount: match state.boost {
                                    Some(b) => b,
                                    None => DEFAULT_BOOST,
                                },
                                is_supersonic: velocity.norm_sq() > SUPERSONIC_SPEED_SQ,
                                is_on_ground: position.z <= GROUND_HEIGHT,
                                is_demolished: state.demolished,
                            },
                        );
                    }
                }
            }
            slot += 1;
        }
        players
    }

    /// Each pad event with the slot and the decoded team of the actor that
    /// it was resolved to.
    fn pad_records(&self, events: &Vec<PadEvent>) -> (records: Vec<PadEventRecord>)
        requires
            self.wf(),
        ensures
            record_views(records@) == Seq::new(
                events@.len(),
                |i: int| pad_record(self@, event_views(events@)[i]),
            ),
    {
        let mut records: Vec<PadEventRecord> = Vec::new();
        let mut i: usize = 0;
        while i < events.len()
            invariant
                self.wf(),
                i <= events@.len(),
                record_views(records@) == Seq::new(
                    i as nat,
                    |k: int| pad_record(self@, event_views(events@)[k]),
                ),
            decreases events.len() - i,
        {
            let event = copy_event(&events[i]);
            let (player_index, player_team) = match event.resolved_actor_id {
                Some(actor) => (self.slots.slot_of(actor), self.known(actor).team),
                None => (None, None),
            };
            let record = PadEventRecord { event, player_index, player_team };
            proof {
                assert(record@ == pad_record(self@, event_views(events@)[i as int]));
                assert(record_views(records@.push(record)) =~= record_views(records@).push(
                    record@,
                ));
                assert(record_views(records@).push(record@) =~= Seq::new(
                    (i + 1) as nat,
                    |k: int| pad_record(self@, event_views(events@)[k]),
                ));
            }
            records.push(record);
            i += 1;
        }
        records
    }

    /// Seats the shown cars and gives the snapshot of the frame at `time`
    /// with the pad events `events`.
    pub fn emit_snapshot(&mut self, time: i64, events: &Vec<PadEvent>) -> (snapshot: FrameSnapshot)
        requires
            old(self).wf(),
        ensures
            final(self).wf(),
            final(self)@ == emitted(old(self)@, time, event_views(events@)).0,
            snapshot@ == emitted(old(self)@, time, event_views(events@)).1,
    {
        self.seat_all();
        let players = self.players();
        let pad_events = self.pad_records(events);
        FrameSnapshot { timestamp: time, ball: self.ball, players, pad_events }
    }

    /// Takes the deltas of one frame, in this order: deletions, creations,
    /// attribute updates; then lets the pad registry look for events that
    /// became ready, and gives the snapshot of the frame.
    pub fn process_frame(&mut self, frame: &FrameDelta) -> (snapshot: FrameSnapshot)
        requires
            old(self).wf(),
        ensures
            final(self).wf(),
            final(self)@ == frame_processed(
                old(self)@,
                frame.time,
                frame.deleted_actors@,
                frame.new_actors@,
                frame.updated_actors@,
            ).0,
            snapshot@ == frame_processed(
                old(self)@,
                frame.time,
                frame.deleted_actors@,
                frame.new_actors@,
                frame.updated_actors@,
            ).1,
    {
        let mut i: usize = 0;
        while i < frame.deleted_actors.len()
            invariant
                self.wf(),
                i <= frame.deleted_actors@.len(),
                self@ == deleted_all(old(self)@, frame.deleted_actors@, i as int),
            decreases frame.deleted_actors.len() - i,
        {
            self.delete_actor(frame.deleted_actors[i]);
            i += 1;
        }
        let ghost pruned = self@;
        let mut j: usize = 0;
        while j < frame.new_actors.len()
            invariant
                self.wf(),
                j <= frame.new_actors@.len(),
                self@ == created_all(pruned, frame.new_actors@, j as int),
            decreases frame.new_actors.len() - j,
        {
            self.create_actor(frame.new_actors[j]);
            j += 1;
        }
        let ghost grown = self@;
        let mut events: Vec<PadEvent> = no_events();
        let mut k: usize = 0;
        while k < frame.updated_actors.len()
            invariant
                self.wf(),
                k <= frame.updated_actors@.len(),
                (self@, event_views(events@)) == updated_all(
                    grown,
                    frame.updated_actors@,
                    frame.time,
                    k as int,
                ),
            decreases frame.updated_actors.len() - k,
        {
            let ghost before = events@;
            let mut more = self.apply_update(&frame.updated_actors[k], frame.time);
            let ghost added = more@;
            events.append(&mut more);
            proof {
                assert(event_views(before + added) =~= event_views(before) + event_views(added));
            }
            k += 1;
        }
        let ghost before = events@;
        let mut ready = self.pads.flush_ready_events();
        events.append(&mut ready);
        proof {
            assert(events@ =~= before);
        }
        self.emit_snapshot(frame.time, &events)
    }
}

/// The views of a sequence of snapshots.
pub open spec fn snapshot_views(snapshots: Seq<FrameSnapshot>) -> Seq<SnapshotView> {
    Seq::new(snapshots.len(), |i: int| snapshots[i]@)
}

/// The engine after the first `n` of `frames`, and the snapshots of those
/// frames in order.
pub open spec fn frames_processed(s: EngineView, frames: Seq<FrameDelta>, n: int) -> (
    EngineView,
    Seq<SnapshotView>,
)
    decreases n,
{
    if n <= 0 {
        (s, Seq::empty())
    } else {
        let (before, snapshots) = frames_processed(s, frames, n - 1);
        let frame = frames[n - 1];
        let (after, snapshot) = frame_processed(
            before,
            frame.time,
            frame.deleted_actors@,
            frame.new_actors@,
            frame.updated_actors@,
        );
        (after, snapshots.push(snapshot))
    }
}

/// Runs a fresh engine over the frames of a recording and returns one
/// snapshot for each frame, in frame order.
pub fn iter_frames(
    roster: &Vec<RosterEntry>,
    objects: Vec<String>,
    map_name: &str,
    debug_enabled: bool,
    frames: &Vec<FrameDelta>,
) -> (snapshots: Vec<FrameSnapshot>)
    ensures
        snapshot_views(snapshots@) == frames_processed(
            initial_engine(roster@, name_views(objects@), map_name@, debug_enabled),
            frames@,
            frames@.len() as int,
        ).1,
{
    let ghost start = initial_engine(roster@, name_views(objects@), map_name@, debug_enabled);
    let mut engine = Engine::new(roster, objects, map_name, debug_enabled);
    let mut snapshots: Vec<FrameSnapshot> = Vec::new();
    assert(snapshot_views(snapshots@) =~= Seq::empty());
    let mut i: usize = 0;
    while i < frames.len()
        invariant
            engine.wf(),
            i <= frames@.len(),
            (engine@, snapshot_views(snapshots@)) == frames_processed(start, frames@, i as int),
        decreases frames.len() - i,
    {
        let snapshot = engine.process_frame(&frames[i]);
        assert(snapshot_views(snapshots@.push(snapshot)) =~= snapshot_views(snapshots@).push(
            snapshot@,
        ));
        snapshots.push(snapshot);
        i += 1;
    }
    snapshots
}

} // verus!
