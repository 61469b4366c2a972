//! What holds of a whole recording: of every state that the engine reaches
//! and of every snapshot that it gives.

use crate::actors::{
    actor_or_blank, clamp_team, class_of, display_team, fresh_actor, spawn_ball,
};
use crate::arena_tables::table_of_map;
use crate::engine::{
    all_seated, created, created_all, deleted, deleted_all, engine_inv, frame_processed,
    frames_processed, initial_engine, is_shown, lemma_created_all_keeps_inv,
    lemma_deleted_all_keeps_inv, lemma_deleted_keeps_inv, lemma_frame_keeps_inv,
    lemma_left_out_only_when_full, lemma_seated_range,
    lemma_unrecognized_arena_shows_no_pad_event, lemma_updated_all_keeps_inv, object_name,
    player_record, players_upto, same_recording, seated_range, updated, updated_all,
    AttributeUpdate, EngineView, FrameDelta, NewActor, PlayerRecord, SnapshotView,
    UpdatedAttribute,
};
use crate::pads::{new_instance, seed_of};
use crate::slots::{
    bound, lemma_first_slot, lemma_initial_slots_inv, lemma_released_keeps_inv, queue,
    roster_teams, slot_of, slots_inv, RosterEntry, SlotsView,
};
use vstd::prelude::*;

verus! {

/// The state that the engine reaches from `s` after the first `n` of `frames`.
pub open spec fn reached(s: EngineView, frames: Seq<FrameDelta>, n: int) -> EngineView {
    frames_processed(s, frames, n).0
}

/// The state after frame `k` and the snapshot of that frame.
pub open spec fn step_of(s: EngineView, frames: Seq<FrameDelta>, k: int) -> (
    EngineView,
    SnapshotView,
) {
    frame_processed(
        reached(s, frames, k),
        frames[k].time,
        frames[k].deleted_actors@,
        frames[k].new_actors@,
        frames[k].updated_actors@,
    )
}

/// The snapshot of frame `k`.
pub open spec fn snapshot_of(s: EngineView, frames: Seq<FrameDelta>, k: int) -> SnapshotView {
    step_of(s, frames, k).1
}

/// The players of a snapshot are sound for the state `s`: each record is
/// that of a shown car that holds the slot which the record names, and the
/// records stand in strictly ascending order of slot.
pub open spec fn players_sound(s: EngineView, players: Seq<PlayerRecord>) -> bool {
    &&& forall|i: int|
        0 <= i < players.len() ==> {
            let r = #[trigger] players[i];
            &&& r.player_index < s.slots.holders.len()
            &&& s.slots.holders[r.player_index as int] == Some(r.actor_id)
            &&& is_shown(s, r.actor_id)
            &&& r == player_record(s, r.player_index as int, r.actor_id)
        }
    &&& forall|i: int, j: int|
        0 <= i < j < players.len() ==> (#[trigger] players[i]).player_index < (
        #[trigger] players[j]).player_index
}

/// The snapshots of the first `n` frames are those of the frames one by
/// one, each taken in the state that the frames before it gave.
pub proof fn lemma_snapshots(s: EngineView, frames: Seq<FrameDelta>, n: int, k: int)
    requires
        0 <= k < n,
    ensures
        frames_processed(s, frames, n).1.len() == n,
        frames_processed(s, frames, n).1[k] == snapshot_of(s, frames, k),
        reached(s, frames, k + 1) == step_of(s, frames, k).0,
    decreases n,
{
    if n - 1 > k {
        lemma_snapshots(s, frames, n - 1, k);
    } else if n - 1 > 0 {
        lemma_snapshots(s, frames, n - 1, 0);
    }
}

/// The engine before the first frame satisfies what holds between steps.
pub proof fn lemma_initial_engine_inv(
    roster: Seq<RosterEntry>,
    objects: Seq<Seq<char>>,
    map_name: Seq<char>,
    debug_enabled: bool,
)
    requires
        roster.len() <= usize::MAX,
    ensures
        engine_inv(initial_engine(roster, objects, map_name, debug_enabled)),
        initial_engine(roster, objects, map_name, debug_enabled).slots.holders.len()
            == roster.len(),
{
    lemma_initial_slots_inv(roster_teams(roster));
}

/// What holds of the engine between steps holds after any number of
/// frames, and the frames leave the recording as it is: its object table,
/// its slots and their teams, its arena.
pub proof fn lemma_reached_keeps_inv(s: EngineView, frames: Seq<FrameDelta>, n: int)
    requires
        engine_inv(s),
    ensures
        engine_inv(reached(s, frames, n)),
        same_recording(reached(s, frames, n), s),
    decreases n,
{
    if n > 0 {
        lemma_reached_keeps_inv(s, frames, n - 1);
        let f = frames[n - 1];
        lemma_frame_keeps_inv(
            reached(s, frames, n - 1),
            f.time,
            f.deleted_actors@,
            f.new_actors@,
            f.updated_actors@,
        );
    }
}

/// The records of the shown cars that hold one of the first `n` slots are
/// sound, and each names a slot below `n`.
pub proof fn lemma_players_upto(s: EngineView, n: int)
    requires
        engine_inv(s),
        0 <= n <= s.slots.holders.len(),
    ensures
        players_sound(s, players_upto(s, n)),
        forall|i: int|
            0 <= i < players_upto(s, n).len() ==> (#[trigger] players_upto(s, n)[i]).player_index
                < n,
    decreases n,
{
    if n > 0 {
        lemma_players_upto(s, n - 1);
    }
}

/// No actor stands in two records of sound players, and no slot does.
pub proof fn lemma_sound_players_are_distinct(
    s: EngineView,
    players: Seq<PlayerRecord>,
    i: int,
    j: int,
)
    requires
        engine_inv(s),
        players_sound(s, players),
        0 <= i < players.len(),
        0 <= j < players.len(),
        i != j,
    ensures
        players[i].player_index != players[j].player_index,
        players[i].actor_id != players[j].actor_id,
{
    if i < j {
        assert(players[i].player_index < players[j].player_index);
    } else {
        assert(players[j].player_index < players[i].player_index);
    }
}

/// The snapshot of a frame shows sound players, with the time of the frame.
pub proof fn lemma_frame_snapshot_is_sound(
    s: EngineView,
    time: i64,
    deleted_actors: Seq<i32>,
    new_actors: Seq<NewActor>,
    updated_actors: Seq<UpdatedAttribute>,
)
    requires
        engine_inv(s),
    ensures
        ({
            let (after, snapshot) = frame_processed(
                s,
                time,
                deleted_actors,
                new_actors,
                updated_actors,
            );
            &&& players_sound(after, snapshot.players)
            &&& snapshot.timestamp == time
            &&& snapshot.ball == after.ball
        }),
{
    lemma_deleted_all_keeps_inv(s, deleted_actors, deleted_actors.len() as int);
    let pruned = deleted_all(s, deleted_actors, deleted_actors.len() as int);
    lemma_created_all_keeps_inv(pruned, new_actors, new_actors.len() as int);
    let grown = created_all(pruned, new_actors, new_actors.len() as int);
    lemma_updated_all_keeps_inv(grown, updated_actors, time, updated_actors.len() as int);
    let moved = updated_all(grown, updated_actors, time, updated_actors.len() as int).0;
    lemma_seated_range(moved, i32::MIN as int, i32::MAX as int + 1);
    let after = all_seated(moved);
    lemma_players_upto(after, after.slots.holders.len() as int);
}

/// In every snapshot of a recording the players are sound: each record is
/// that of a shown car in the slot that it holds; the slots named ascend
/// strictly, so no slot and no actor is shown twice; and every slot named
/// is one of those that the roster declares.
pub proof fn lemma_every_snapshot_is_sound(
    roster: Seq<RosterEntry>,
    objects: Seq<Seq<char>>,
    map_name: Seq<char>,
    debug_enabled: bool,
    frames: Seq<FrameDelta>,
    k: int,
)
    requires
        roster.len() <= usize::MAX,
        0 <= k < frames.len(),
    ensures
        ({
            let start = initial_engine(roster, objects, map_name, debug_enabled);
            let players = frames_processed(start, frames, frames.len() as int).1[k].players;
            &&& players_sound(reached(start, frames, k + 1), players)
            &&& forall|i: int|
                0 <= i < players.len() ==> (#[trigger] players[i]).player_index < roster.len()
            &&& forall|i: int, j: int|
                0 <= i < j < players.len() ==> (#[trigger] players[i]).player_index < (
                #[trigger] players[j]).player_index
            &&& forall|i: int, j: int|
                0 <= i < j < players.len() ==> (#[trigger] players[i]).actor_id != (
                #[trigger] players[j]).actor_id
        }),
{
    let start = initial_engine(roster, objects, map_name, debug_enabled);
    lemma_initial_engine_inv(roster, objects, map_name, debug_enabled);
    lemma_snapshots(start, frames, frames.len() as int, k);
    lemma_reached_keeps_inv(start, frames, k);
    lemma_reached_keeps_inv(start, frames, k + 1);
    let before = reached(start, frames, k);
    let f = frames[k];
    lemma_frame_snapshot_is_sound(
        before,
        f.time,
        f.deleted_actors@,
        f.new_actors@,
        f.updated_actors@,
    );
    let after = reached(start, frames, k + 1);
    let players = snapshot_of(start, frames, k).players;
    assert forall|i: int, j: int| 0 <= i < j < players.len() implies (
    #[trigger] players[i]).actor_id != (#[trigger] players[j]).actor_id by {
        lemma_sound_players_are_distinct(after, players, i, j);
    }
}

/// Every shown car that holds one of the first `n` slots has its record
/// among the players.
pub proof fn lemma_players_complete(s: EngineView, n: int, slot: int)
    requires
        engine_inv(s),
        0 <= slot < n <= s.slots.holders.len(),
        s.slots.holders[slot] is Some,
        is_shown(s, s.slots.holders[slot].unwrap()),
    ensures
        players_upto(s, n).contains(player_record(s, slot, s.slots.holders[slot].unwrap())),
    decreases n,
{
    let record = player_record(s, slot, s.slots.holders[slot].unwrap());
    let now = players_upto(s, n);
    if slot < n - 1 {
        lemma_players_complete(s, n - 1, slot);
        let before = players_upto(s, n - 1);
        let i = choose|i: int| 0 <= i < before.len() && before[i] == record;
        assert(now[i] == record);
    } else {
        assert(now[now.len() - 1] == record);
    }
}

/// After a frame a shown car is missing from the snapshot only if the team
/// under which it is shown has no free slot: a car with a slot has its
/// record in the snapshot, and a car without one found its team full.
pub proof fn lemma_frame_shows_every_seated_car(
    s: EngineView,
    time: i64,
    deleted_actors: Seq<i32>,
    new_actors: Seq<NewActor>,
    updated_actors: Seq<UpdatedAttribute>,
    actor: i32,
)
    requires
        engine_inv(s),
        is_shown(
            frame_processed(s, time, deleted_actors, new_actors, updated_actors).0,
            actor,
        ),
    ensures
        ({
            let (after, snapshot) = frame_processed(
                s,
                time,
                deleted_actors,
                new_actors,
                updated_actors,
            );
            match slot_of(after.slots.holders, actor) {
                Some(slot) => snapshot.players.contains(player_record(after, slot, actor)),
                None => queue(after.slots, display_team(after.actors[actor])).len() == 0,
            }
        }),
{
    lemma_deleted_all_keeps_inv(s, deleted_actors, deleted_actors.len() as int);
    let pruned = deleted_all(s, deleted_actors, deleted_actors.len() as int);
    lemma_created_all_keeps_inv(pruned, new_actors, new_actors.len() as int);
    let grown = created_all(pruned, new_actors, new_actors.len() as int);
    lemma_updated_all_keeps_inv(grown, updated_actors, time, updated_actors.len() as int);
    let moved = updated_all(grown, updated_actors, time, updated_actors.len() as int).0;
    lemma_seated_range(moved, i32::MIN as int, i32::MAX as int + 1);
    lemma_left_out_only_when_full(moved, actor);
    let after = all_seated(moved);
    lemma_first_slot(after.slots.holders, actor, 0);
    match slot_of(after.slots.holders, actor) {
        Some(slot) => {
            lemma_players_complete(after, after.slots.holders.len() as int, slot);
        },
        None => {},
    }
}

/// Over a whole recording: in the snapshot of every frame, a car that the
/// state after the frame shows is missing only if the team under which it
/// is shown has no free slot.
pub proof fn lemma_every_seated_car_is_shown(
    roster: Seq<RosterEntry>,
    objects: Seq<Seq<char>>,
    map_name: Seq<char>,
    debug_enabled: bool,
    frames: Seq<FrameDelta>,
    k: int,
    actor: i32,
)
    requires
        roster.len() <= usize::MAX,
        0 <= k < frames.len(),
        is_shown(
            reached(initial_engine(roster, objects, map_name, debug_enabled), frames, k + 1),
            actor,
        ),
    ensures
        ({
            let start = initial_engine(roster, objects, map_name, debug_enabled);
            let snapshot = frames_processed(start, frames, frames.len() as int).1[k];
            let after = reached(start, frames, k + 1);
            match slot_of(after.slots.holders, actor) {
                Some(slot) => snapshot.players.contains(player_record(after, slot, actor)),
                None => queue(after.slots, display_team(after.actors[actor])).len() == 0,
            }
        }),
{
    let start = initial_engine(roster, objects, map_name, debug_enabled);
    lemma_initial_engine_inv(roster, objects, map_name, debug_enabled);
    lemma_snapshots(start, frames, frames.len() as int, k);
    lemma_reached_keeps_inv(start, frames, k);
    let f = frames[k];
    lemma_frame_shows_every_seated_car(
        reached(start, frames, k),
        f.time,
        f.deleted_actors@,
        f.new_actors@,
        f.updated_actors@,
        actor,
    );
}

/// Over a whole recording on a map without a known pad layout: no snapshot
/// shows a pad event.
pub proof fn lemma_unrecognized_arena_never_shows_a_pad_event(
    roster: Seq<RosterEntry>,
    objects: Seq<Seq<char>>,
    map_name: Seq<char>,
    debug_enabled: bool,
    frames: Seq<FrameDelta>,
    k: int,
)
    requires
        roster.len() <= usize::MAX,
        0 <= k < frames.len(),
        table_of_map(map_name) is None,
    ensures
        frames_processed(
            initial_engine(roster, objects, map_name, debug_enabled),
            frames,
            frames.len() as int,
        ).1[k].pad_events.len() == 0,
{
    let start = initial_engine(roster, objects, map_name, debug_enabled);
    lemma_initial_engine_inv(roster, objects, map_name, debug_enabled);
    lemma_snapshots(start, frames, frames.len() as int, k);
    lemma_reached_keeps_inv(start, frames, k);
    let f = frames[k];
    lemma_unrecognized_arena_shows_no_pad_event(
        reached(start, frames, k),
        f.time,
        f.deleted_actors@,
        f.new_actors@,
        f.updated_actors@,
    );
}

/// The slots of `team` among the first `n`, in ascending order.
pub open spec fn team_slots(teams: Seq<u8>, team: u8, n: int) -> Seq<int>
    decreases n,
{
    if n <= 0 {
        Seq::empty()
    } else {
        let before = team_slots(teams, team, n - 1);
        if teams[n - 1] == team {
            before.push(n - 1)
        } else {
            before
        }
    }
}

/// The slots of `team` are held by none but cars that `s` shows on that team.
pub open spec fn team_holds_its_slots(s: EngineView, team: u8) -> bool {
    forall|i: int|
        0 <= i < s.slots.holders.len() && s.slots.teams[i] == team && (
        #[trigger] s.slots.holders[i]) is Some ==> {
            let holder = s.slots.holders[i].unwrap();
            is_shown(s, holder) && display_team(s.actors[holder]) == team
        }
}

/// `cars` lists, each once, every car that `s` shows on `team`.
pub open spec fn lists_team(s: EngineView, team: u8, cars: Seq<i32>) -> bool {
    &&& cars.no_duplicates()
    &&& forall|a: i32|
        is_shown(s, a) && display_team(s.actors[a]) == team ==> #[trigger] cars.contains(a)
}

/// The slots of a team among the first `n` are exactly the indices below
/// `n` with that team, each once.
pub proof fn lemma_team_slots(teams: Seq<u8>, team: u8, n: int)
    requires
        0 <= n <= teams.len(),
    ensures
        team_slots(teams, team, n).no_duplicates(),
        forall|k: int|
            0 <= k < team_slots(teams, team, n).len() ==> {
                &&& 0 <= (#[trigger] team_slots(teams, team, n)[k]) < n
                &&& teams[team_slots(teams, team, n)[k]] == team
            },
        forall|i: int|
            0 <= i < n && #[trigger] teams[i] == team ==> team_slots(teams, team, n).contains(i),
    decreases n,
{
    if n > 0 {
        lemma_team_slots(teams, team, n - 1);
        let before = team_slots(teams, team, n - 1);
        let now = team_slots(teams, team, n);
        assert forall|i: int| 0 <= i < n && #[trigger] teams[i] == team implies now.contains(
            i,
        ) by {
            if i < n - 1 {
                let k = choose|k: int| 0 <= k < before.len() && before[k] == i;
                assert(now[k] == i);
            } else {
                assert(now[now.len() - 1] == i);
            }
        }
    }
}

/// Where a team has no more shown cars than the roster declares slots for
/// it, and its slots are held by none but its own shown cars, the seating
/// of a frame leaves none of its shown cars without a slot.
pub proof fn lemma_team_within_roster_is_seated(s: EngineView, team: u8, cars: Seq<i32>, car: i32)
    requires
        engine_inv(s),
        team_holds_its_slots(all_seated(s), team),
        lists_team(all_seated(s), team, cars),
        cars.len() <= team_slots(s.slots.teams, team, s.slots.teams.len() as int).len(),
        is_shown(all_seated(s), car),
        display_team(all_seated(s).actors[car]) == team,
    ensures
        slot_of(all_seated(s).slots.holders, car) is Some,
{
    let after = all_seated(s);
    lemma_seated_range(s, i32::MIN as int, i32::MAX as int + 1);
    lemma_left_out_only_when_full(s, car);
    lemma_first_slot(after.slots.holders, car, 0);
    if slot_of(after.slots.holders, car) is None {
        let teams = after.slots.teams;
        let holders = after.slots.holders;
        let n = teams.len() as int;
        let held = team_slots(teams, team, n);
        lemma_team_slots(teams, team, n);
        assert(queue(after.slots, team).len() == 0);
        assert forall|k: int| 0 <= k < held.len() implies (#[trigger] holders[held[k]]) is Some by {
            let i = held[k];
            if holders[i] is None {
                assert(queue(after.slots, teams[i]).contains(i as usize));
            }
        }
        let sitting = Seq::new(held.len(), |k: int| holders[held[k]].unwrap());
        assert forall|k: int, l: int| 0 <= k < sitting.len() && 0 <= l < sitting.len() && k
            != l implies sitting[k] != sitting[l] by {
            assert(held[k] != held[l]);
            assert(holders[held[k]] is Some);
            assert(holders[held[k]] != holders[held[l]]);
        }
        assert(sitting.no_duplicates());
        let others = cars.to_set().remove(car);
        assert forall|a: i32| sitting.to_set().contains(a) implies others.contains(a) by {
            let k = choose|k: int| 0 <= k < sitting.len() && sitting[k] == a;
            let i = held[k];
            assert(holders[i] is Some);
            assert(holders[i] == Some(a));
            assert(is_shown(after, a) && display_team(after.actors[a]) == team);
            assert(cars.contains(a));
        }
        assert(sitting.to_set().subset_of(others));
        vstd::seq_lib::seq_to_set_is_finite(cars);
        vstd::seq_lib::seq_to_set_is_finite(sitting);
        sitting.unique_seq_to_set();
        cars.unique_seq_to_set();
        assert(cars.contains(car));
        assert(cars.to_set().contains(car));
        vstd::set::axiom_set_remove_len(cars.to_set(), car);
        vstd::set::axiom_set_remove_finite(cars.to_set(), car);
        vstd::set_lib::lemma_len_subset(sitting.to_set(), others);
        assert(false);
    }
}

/// After a frame, where a team has no more shown cars than the roster
/// declares slots for it, and its slots are held by none but its own shown
/// cars, every shown car of the team holds a slot and has its record in the
/// snapshot, on that team.
pub proof fn lemma_frame_shows_a_team_within_roster(
    s: EngineView,
    time: i64,
    deleted_actors: Seq<i32>,
    new_actors: Seq<NewActor>,
    updated_actors: Seq<UpdatedAttribute>,
    team: u8,
    cars: Seq<i32>,
    car: i32,
)
    requires
        engine_inv(s),
        ({
            let after = frame_processed(s, time, deleted_actors, new_actors, updated_actors).0;
            &&& team_holds_its_slots(after, team)
            &&& lists_team(after, team, cars)
            &&& cars.len() <= team_slots(s.slots.teams, team, s.slots.teams.len() as int).len()
            &&& is_shown(after, car)
            &&& display_team(after.actors[car]) == team
        }),
    ensures
        ({
            let (after, snapshot) = frame_processed(
                s,
                time,
                deleted_actors,
                new_actors,
                updated_actors,
            );
            let slot = slot_of(after.slots.holders, car);
            &&& slot is Some
            &&& snapshot.players.contains(player_record(after, slot.unwrap(), car))
            &&& player_record(after, slot.unwrap(), car).team == team
        }),
{
    lemma_deleted_all_keeps_inv(s, deleted_actors, deleted_actors.len() as int);
    let pruned = deleted_all(s, deleted_actors, deleted_actors.len() as int);
    lemma_created_all_keeps_inv(pruned, new_actors, new_actors.len() as int);
    let grown = created_all(pruned, new_actors, new_actors.len() as int);
    lemma_updated_all_keeps_inv(grown, updated_actors, time, updated_actors.len() as int);
    let moved = updated_all(grown, updated_actors, time, updated_actors.len() as int).0;
    lemma_seated_range(moved, i32::MIN as int, i32::MAX as int + 1);
    lemma_team_within_roster_is_seated(moved, team, cars, car);
    let after = all_seated(moved);
    lemma_first_slot(after.slots.holders, car, 0);
    lemma_players_complete(
        after,
        after.slots.holders.len() as int,
        slot_of(after.slots.holders, car).unwrap(),
    );
}

/// Over a whole recording: in the snapshot of a frame after which a team
/// has no more shown cars than the roster declares players for it, and
/// after which its slots are held by none but its own shown cars, every
/// shown car of the team has its record, in a slot of its own.
pub proof fn lemma_team_within_roster_is_shown(
    roster: Seq<RosterEntry>,
    objects: Seq<Seq<char>>,
    map_name: Seq<char>,
    debug_enabled: bool,
    frames: Seq<FrameDelta>,
    k: int,
    team: u8,
    cars: Seq<i32>,
    car: i32,
)
    requires
        roster.len() <= usize::MAX,
        0 <= k < frames.len(),
        ({
            let start = initial_engine(roster, objects, map_name, debug_enabled);
            let after = reached(start, frames, k + 1);
            &&& team_holds_its_slots(after, team)
            &&& lists_team(after, team, cars)
            &&& cars.len() <= team_slots(
                start.slots.teams,
                team,
                start.slots.teams.len() as int,
            ).len()
            &&& is_shown(after, car)
            &&& display_team(after.actors[car]) == team
        }),
    ensures
        ({
            let start = initial_engine(roster, objects, map_name, debug_enabled);
            let snapshot = frames_processed(start, frames, frames.len() as int).1[k];
            let after = reached(start, frames, k + 1);
            let slot = slot_of(after.slots.holders, car);
            &&& slot is Some
            &&& snapshot.players.contains(player_record(after, slot.unwrap(), car))
            &&& player_record(after, slot.unwrap(), car).team == team
        }),
{
    let start = initial_engine(roster, objects, map_name, debug_enabled);
    lemma_initial_engine_inv(roster, objects, map_name, debug_enabled);
    lemma_snapshots(start, frames, frames.len() as int, k);
    lemma_reached_keeps_inv(start, frames, k);
    let f = frames[k];
    lemma_frame_shows_a_team_within_roster(
        reached(start, frames, k),
        f.time,
        f.deleted_actors@,
        f.new_actors@,
        f.updated_actors@,
        team,
        cars,
        car,
    );
}

/// The decoded team of `actor`; none where nothing is known of the actor.
pub open spec fn decoded_team(s: EngineView, actor: i32) -> Option<u8> {
    actor_or_blank(s.actors, actor).team
}

/// `update` is a team update for `actor`.
pub open spec fn sets_team(update: UpdatedAttribute, actor: i32) -> bool {
    update.actor_id == actor && update.attribute is TeamPaint
}

/// None of `updates` is a team update for `actor`.
pub open spec fn no_team_update(updates: Seq<UpdatedAttribute>, actor: i32) -> bool {
    forall|j: int| 0 <= j < updates.len() ==> !sets_team(#[trigger] updates[j], actor)
}

/// The pad events of a snapshot are sound for the state `s`: each carries
/// the slot and the decoded team of the actor that it was resolved to, and
/// no team where that actor has no decoded team.
pub open spec fn pad_events_sound(s: EngineView, snapshot: SnapshotView) -> bool {
    forall|i: int|
        0 <= i < snapshot.pad_events.len() ==> {
            let r = #[trigger] snapshot.pad_events[i];
            &&& r.player_team == match r.event.resolved_actor_id {
                Some(actor) => decoded_team(s, actor),
                None => None,
            }
            &&& r.player_index == match r.event.resolved_actor_id {
                Some(actor) => match slot_of(s.slots.holders, actor) {
                    Some(slot) => Some(slot as usize),
                    None => None,
                },
                None => None,
            }
        }
}

/// A record shows its car on the decoded team where there is one, and
/// else on team 1 for a car in the positive half of the field and on team
/// 0 for any other: an inferred team never stands in for a decoded one.
pub proof fn lemma_shown_team(s: EngineView, players: Seq<PlayerRecord>, i: int)
    requires
        players_sound(s, players),
        0 <= i < players.len(),
    ensures
        ({
            let r = players[i];
            let state = s.actors[r.actor_id];
            &&& s.actors.contains_key(r.actor_id)
            &&& r.team == match state.team {
                Some(team) => team,
                None => match state.position {
                    Some(p) => if p.y > 0 {
                        1u8
                    } else {
                        0u8
                    },
                    None => 0u8,
                },
            }
            &&& r.team == display_team(state)
        }),
{
}

/// The deletion of an actor unsets its decoded team and leaves that of
/// every other actor as it is.
pub proof fn lemma_deletion_keeps_team(s: EngineView, gone: i32, actor: i32)
    ensures
        gone != actor ==> decoded_team(deleted(s, gone), actor) == decoded_team(s, actor),
        decoded_team(deleted(s, actor), actor) is None,
{
}

/// A creation leaves every decoded team as it is.
pub proof fn lemma_creation_keeps_team(s: EngineView, creation: NewActor, actor: i32)
    ensures
        decoded_team(created(s, creation), actor) == decoded_team(s, actor),
{
}

/// No update but a team update for an actor changes its decoded team.
pub proof fn lemma_update_keeps_team(s: EngineView, update: UpdatedAttribute, time: i64, actor: i32)
    requires
        !sets_team(update, actor),
    ensures
        decoded_team(updated(s, update, time).0, actor) == decoded_team(s, actor),
{
}

/// The seating of a frame leaves every decoded team as it is: a team that
/// is inferred for the seating is not recorded.
pub proof fn lemma_seating_keeps_team(s: EngineView, actor: i32)
    requires
        engine_inv(s),
    ensures
        decoded_team(all_seated(s), actor) == decoded_team(s, actor),
{
    lemma_seated_range(s, i32::MIN as int, i32::MAX as int + 1);
}

/// A frame without a team update for an actor leaves an unset team unset.
pub proof fn lemma_frame_keeps_team_unset(
    s: EngineView,
    time: i64,
    deleted_actors: Seq<i32>,
    new_actors: Seq<NewActor>,
    updated_actors: Seq<UpdatedAttribute>,
    actor: i32,
)
    requires
        engine_inv(s),
        decoded_team(s, actor) is None,
        no_team_update(updated_actors, actor),
    ensures
        decoded_team(
            frame_processed(s, time, deleted_actors, new_actors, updated_actors).0,
            actor,
        ) is None,
{
    let d = deleted_actors.len() as int;
    let c = new_actors.len() as int;
    let u = updated_actors.len() as int;
    lemma_deletions_keep_team_unset(s, deleted_actors, d, actor);
    lemma_deleted_all_keeps_inv(s, deleted_actors, d);
    let pruned = deleted_all(s, deleted_actors, d);
    lemma_creations_keep_team_unset(pruned, new_actors, c, actor);
    lemma_created_all_keeps_inv(pruned, new_actors, c);
    let grown = created_all(pruned, new_actors, c);
    lemma_updates_keep_team_unset(grown, updated_actors, time, u, actor);
    lemma_updated_all_keeps_inv(grown, updated_actors, time, u);
    let moved = updated_all(grown, updated_actors, time, u).0;
    lemma_seated_range(moved, i32::MIN as int, i32::MAX as int + 1);
}

/// Deletions in a row leave an unset team unset.
proof fn lemma_deletions_keep_team_unset(s: EngineView, actors: Seq<i32>, n: int, actor: i32)
    requires
        engine_inv(s),
        decoded_team(s, actor) is None,
    ensures
        decoded_team(deleted_all(s, actors, n), actor) is None,
    decreases n,
{
    if n > 0 {
        lemma_deletions_keep_team_unset(s, actors, n - 1, actor);
    }
}

/// Creations in a row leave an unset team unset.
proof fn lemma_creations_keep_team_unset(s: EngineView, actors: Seq<NewActor>, n: int, actor: i32)
    requires
        engine_inv(s),
        decoded_team(s, actor) is None,
    ensures
        decoded_team(created_all(s, actors, n), actor) is None,
    decreases n,
{
    if n > 0 {
        lemma_creations_keep_team_unset(s, actors, n - 1, actor);
    }
}

/// Updates in a row, none of them a team update for the actor, leave an
/// unset team unset.
proof fn lemma_updates_keep_team_unset(
    s: EngineView,
    updates: Seq<UpdatedAttribute>,
    time: i64,
    n: int,
    actor: i32,
)
    requires
        engine_inv(s),
        decoded_team(s, actor) is None,
        no_team_update(updates, actor),
        n <= updates.len(),
    ensures
        decoded_team(updated_all(s, updates, time, n).0, actor) is None,
    decreases n,
{
    if n > 0 {
        lemma_updates_keep_team_unset(s, updates, time, n - 1, actor);
        assert(!sets_team(updates[n - 1], actor));
    }
}

/// Over a whole recording: as long as no frame carries a team update for
/// an actor, the decoded team of the actor stays unset, so every record
/// of it shows the team inferred from its side of the field, and every pad
/// event resolved to it carries no team.
pub proof fn lemma_team_stays_unset(
    roster: Seq<RosterEntry>,
    objects: Seq<Seq<char>>,
    map_name: Seq<char>,
    debug_enabled: bool,
    frames: Seq<FrameDelta>,
    n: int,
    actor: i32,
)
    requires
        roster.len() <= usize::MAX,
        0 <= n <= frames.len(),
        forall|k: int| 0 <= k < n ==> no_team_update((#[trigger] frames[k]).updated_actors@, actor),
    ensures
        decoded_team(
            reached(initial_engine(roster, objects, map_name, debug_enabled), frames, n),
            actor,
        ) is None,
    decreases n,
{
    let start = initial_engine(roster, objects, map_name, debug_enabled);
    lemma_initial_engine_inv(roster, objects, map_name, debug_enabled);
    if n > 0 {
        lemma_team_stays_unset(roster, objects, map_name, debug_enabled, frames, n - 1, actor);
        lemma_reached_keeps_inv(start, frames, n - 1);
        let f = frames[n - 1];
        lemma_frame_keeps_team_unset(
            reached(start, frames, n - 1),
            f.time,
            f.deleted_actors@,
            f.new_actors@,
            f.updated_actors@,
            actor,
        );
    }
}

/// The snapshot of every frame of a recording carries sound pad events and
/// sound players for the state after that frame.
pub proof fn lemma_every_snapshot_shows_the_state(
    roster: Seq<RosterEntry>,
    objects: Seq<Seq<char>>,
    map_name: Seq<char>,
    debug_enabled: bool,
    frames: Seq<FrameDelta>,
    k: int,
)
    requires
        roster.len() <= usize::MAX,
        0 <= k < frames.len(),
    ensures
        ({
            let start = initial_engine(roster, objects, map_name, debug_enabled);
            let snapshot = frames_processed(start, frames, frames.len() as int).1[k];
            let after = reached(start, frames, k + 1);
            &&& engine_inv(after)
            &&& players_sound(after, snapshot.players)
            &&& pad_events_sound(after, snapshot)
            &&& snapshot.timestamp == frames[k].time
            &&& snapshot.ball == after.ball
        }),
{
    let start = initial_engine(roster, objects, map_name, debug_enabled);
    lemma_initial_engine_inv(roster, objects, map_name, debug_enabled);
    lemma_snapshots(start, frames, frames.len() as int, k);
    lemma_reached_keeps_inv(start, frames, k);
    lemma_reached_keeps_inv(start, frames, k + 1);
    let f = frames[k];
    lemma_frame_snapshot_is_sound(
        reached(start, frames, k),
        f.time,
        f.deleted_actors@,
        f.new_actors@,
        f.updated_actors@,
    );
}

/// Nothing is known of `actor`: it has no class and no telemetry, it is
/// not the ball, no link leads from it or to it, it holds no slot, and the
/// pad registry does not track it.
pub open spec fn forgotten(s: EngineView, actor: i32) -> bool {
    &&& !s.actors.contains_key(actor)
    &&& s.ball_actor != Some(actor)
    &&& !s.owners.contains_key(actor)
    &&& forall|c: i32| s.owners.contains_key(c) ==> #[trigger] s.owners[c] != actor
    &&& forall|i: int|
        0 <= i < s.slots.holders.len() ==> #[trigger] s.slots.holders[i] != Some(actor)
    &&& !s.pads.instances.contains_key(actor)
}

/// `update` is an update of `actor`, or attaches a component to it.
pub open spec fn names(update: UpdatedAttribute, actor: i32) -> bool {
    update.actor_id == actor || match update.attribute {
        AttributeUpdate::ActiveActor { actor: owner } => owner == actor,
        _ => false,
    }
}

/// The frame creates no actor under the id `actor` and carries no update
/// that names it.
pub open spec fn leaves_alone(
    new_actors: Seq<NewActor>,
    updated_actors: Seq<UpdatedAttribute>,
    actor: i32,
) -> bool {
    &&& forall|i: int| 0 <= i < new_actors.len() ==> (#[trigger] new_actors[i]).actor_id != actor
    &&& forall|j: int| 0 <= j < updated_actors.len() ==> !names(#[trigger] updated_actors[j], actor)
}

/// Once an actor is deleted it is forgotten.
pub proof fn lemma_deletion_forgets(s: EngineView, actor: i32)
    requires
        engine_inv(s),
    ensures
        forgotten(deleted(s, actor), actor),
{
    lemma_released_keeps_inv(s.slots, actor);
    lemma_first_slot(deleted(s, actor).slots.holders, actor, 0);
}

/// The deletion of any actor leaves a forgotten actor forgotten.
pub proof fn lemma_deletion_keeps_forgotten(s: EngineView, gone: i32, actor: i32)
    requires
        engine_inv(s),
        forgotten(s, actor),
    ensures
        forgotten(deleted(s, gone), actor),
{
    lemma_first_slot(s.slots.holders, gone, 0);
}

/// A creation under another id leaves a forgotten actor forgotten.
pub proof fn lemma_creation_keeps_forgotten(s: EngineView, creation: NewActor, actor: i32)
    requires
        engine_inv(s),
        forgotten(s, actor),
        creation.actor_id != actor,
    ensures
        forgotten(created(s, creation), actor),
{
}

/// An update that does not name a forgotten actor leaves it forgotten.
pub proof fn lemma_update_keeps_forgotten(
    s: EngineView,
    update: UpdatedAttribute,
    time: i64,
    actor: i32,
)
    requires
        engine_inv(s),
        forgotten(s, actor),
        !names(update, actor),
    ensures
        forgotten(updated(s, update, time).0, actor),
{
    let after = updated(s, update, time).0;
    match update.attribute {
        AttributeUpdate::TeamPaint { team } => {
            lemma_binding_keeps_forgotten(s.slots, update.actor_id, clamp_team(team), actor);
        },
        _ => {},
    }
}

/// Handing out a slot to one actor gives none to another.
pub proof fn lemma_binding_keeps_forgotten(v: SlotsView, asker: i32, team: u8, actor: i32)
    requires
        slots_inv(v),
        asker != actor,
        forall|i: int| 0 <= i < v.holders.len() ==> #[trigger] v.holders[i] != Some(actor),
    ensures
        forall|i: int|
            0 <= i < bound(v, asker, team).holders.len() ==> #[trigger] bound(
                v,
                asker,
                team,
            ).holders[i] != Some(actor),
{
    if !(slot_of(v.holders, asker) is Some || queue(v, team).len() == 0) {
        let t: u8 = if team == 0 { 0 } else { 1 };
        assert(queue(v, team) == queue(v, t));
        assert(queue(v, t)[0] < v.holders.len());
    }
}

/// The seating of a frame leaves a forgotten actor forgotten.
pub proof fn lemma_seating_keeps_forgotten(s: EngineView, lo: int, hi: int, actor: i32)
    requires
        engine_inv(s),
        forgotten(s, actor),
        i32::MIN <= lo,
        hi <= i32::MAX + 1,
    ensures
        forgotten(seated_range(s, lo, hi), actor),
    decreases hi - lo,
{
    if hi > lo {
        lemma_seating_keeps_forgotten(s, lo, hi - 1, actor);
        lemma_seated_range(s, lo, hi - 1);
        let before = seated_range(s, lo, hi - 1);
        let turn = (hi - 1) as i32;
        if is_shown(before, turn) {
            lemma_binding_keeps_forgotten(
                before.slots,
                turn,
                display_team(before.actors[turn]),
                actor,
            );
        }
    }
}

/// Deletions in a row forget every actor among them and leave a forgotten
/// actor forgotten.
proof fn lemma_deletions_forget(s: EngineView, actors: Seq<i32>, n: int, actor: i32)
    requires
        engine_inv(s),
        0 <= n <= actors.len(),
        forgotten(s, actor) || exists|j: int| 0 <= j < n && actors[j] == actor,
    ensures
        forgotten(deleted_all(s, actors, n), actor),
    decreases n,
{
    if n > 0 {
        let before = deleted_all(s, actors, n - 1);
        lemma_deleted_all_keeps_inv(s, actors, n - 1);
        if actors[n - 1] != actor {
            if !forgotten(s, actor) {
                let j = choose|j: int| 0 <= j < n && actors[j] == actor;
                assert(0 <= j < n - 1 && actors[j] == actor);
            }
            lemma_deletions_forget(s, actors, n - 1, actor);
            lemma_deletion_keeps_forgotten(before, actors[n - 1], actor);
        } else {
            lemma_deletion_forgets(before, actor);
        }
    }
}

/// Creations in a row under other ids leave a forgotten actor forgotten.
proof fn lemma_creations_keep_forgotten(s: EngineView, actors: Seq<NewActor>, n: int, actor: i32)
    requires
        engine_inv(s),
        forgotten(s, actor),
        0 <= n <= actors.len(),
        forall|i: int| 0 <= i < actors.len() ==> (#[trigger] actors[i]).actor_id != actor,
    ensures
        forgotten(created_all(s, actors, n), actor),
    decreases n,
{
    if n > 0 {
        lemma_creations_keep_forgotten(s, actors, n - 1, actor);
        lemma_created_all_keeps_inv(s, actors, n - 1);
        lemma_creation_keeps_forgotten(created_all(s, actors, n - 1), actors[n - 1], actor);
    }
}

/// Updates in a row that do not name a forgotten actor leave it forgotten.
proof fn lemma_updates_keep_forgotten(
    s: EngineView,
    updates: Seq<UpdatedAttribute>,
    time: i64,
    n: int,
    actor: i32,
)
    requires
        engine_inv(s),
        forgotten(s, actor),
        0 <= n <= updates.len(),
        forall|j: int| 0 <= j < updates.len() ==> !names(#[trigger] updates[j], actor),
    ensures
        forgotten(updated_all(s, updates, time, n).0, actor),
    decreases n,
{
    if n > 0 {
        lemma_updates_keep_forgotten(s, updates, time, n - 1, actor);
        lemma_updated_all_keeps_inv(s, updates, time, n - 1);
        lemma_update_keeps_forgotten(
            updated_all(s, updates, time, n - 1).0,
            updates[n - 1],
            time,
            actor,
        );
    }
}

/// After a frame that deletes an actor and otherwise leaves it alone, the
/// actor is forgotten; and a frame that leaves a forgotten actor alone
/// leaves it forgotten.
pub proof fn lemma_frame_forgets(
    s: EngineView,
    time: i64,
    deleted_actors: Seq<i32>,
    new_actors: Seq<NewActor>,
    updated_actors: Seq<UpdatedAttribute>,
    actor: i32,
)
    requires
        engine_inv(s),
        forgotten(s, actor) || deleted_actors.contains(actor),
        leaves_alone(new_actors, updated_actors, actor),
    ensures
        forgotten(frame_processed(s, time, deleted_actors, new_actors, updated_actors).0, actor),
{
    let d = deleted_actors.len() as int;
    let c = new_actors.len() as int;
    let u = updated_actors.len() as int;
    lemma_deletions_forget(s, deleted_actors, d, actor);
    lemma_deleted_all_keeps_inv(s, deleted_actors, d);
    let pruned = deleted_all(s, deleted_actors, d);
    lemma_creations_keep_forgotten(pruned, new_actors, c, actor);
    lemma_created_all_keeps_inv(pruned, new_actors, c);
    let grown = created_all(pruned, new_actors, c);
    lemma_updates_keep_forgotten(grown, updated_actors, time, u, actor);
    lemma_updated_all_keeps_inv(grown, updated_actors, time, u);
    let moved = updated_all(grown, updated_actors, time, u).0;
    lemma_seating_keeps_forgotten(moved, i32::MIN as int, i32::MAX as int + 1, actor);
}

/// Over a whole recording: an actor that frame `k` deletes is forgotten
/// after every later frame `n`, as long as the frames from `k` on create
/// no actor under its id and carry no update that names it.
pub proof fn lemma_deleted_actor_stays_forgotten(
    s: EngineView,
    frames: Seq<FrameDelta>,
    k: int,
    n: int,
    actor: i32,
)
    requires
        engine_inv(s),
        0 <= k < n <= frames.len(),
        frames[k].deleted_actors@.contains(actor),
        forall|m: int|
            k <= m < n ==> leaves_alone(
                (#[trigger] frames[m]).new_actors@,
                frames[m].updated_actors@,
                actor,
            ),
    ensures
        forgotten(reached(s, frames, n), actor),
    decreases n,
{
    let before = reached(s, frames, n - 1);
    lemma_reached_keeps_inv(s, frames, n - 1);
    if n - 1 > k {
        lemma_deleted_actor_stays_forgotten(s, frames, k, n - 1, actor);
    }
    let f = frames[n - 1];
    lemma_frame_forgets(before, f.time, f.deleted_actors@, f.new_actors@, f.updated_actors@, actor);
}

/// An actor created under a forgotten id inherits nothing: it has the
/// class of its own name and no telemetry, no link leads from it or to it,
/// it holds no slot, its pad instance, if it is a pad, is new, and if it is
/// the ball, the ball rests on its spot.
pub proof fn lemma_created_on_forgotten_is_fresh(s: EngineView, actor: NewActor)
    requires
        engine_inv(s),
        forgotten(s, actor.actor_id),
    ensures
        ({
            let id = actor.actor_id;
            let name = object_name(s.objects, actor.object_id);
            let after = created(s, actor);
            &&& after.actors.contains_key(id)
            &&& after.actors[id] == fresh_actor(class_of(name))
            &&& !after.owners.contains_key(id)
            &&& forall|c: i32| after.owners.contains_key(c) ==> #[trigger] after.owners[c] != id
            &&& slot_of(after.slots.holders, id) is None
            &&& after.ball_actor == Some(id) ==> after.ball == spawn_ball()
            &&& after.pads.instances.contains_key(id) ==> after.pads.instances[id] == new_instance(
                name,
                seed_of(s.pads.learned, name),
            )
        }),
{
    lemma_first_slot(s.slots.holders, actor.actor_id, 0);
}

/// An actor created under the id of an actor that was just deleted
/// inherits nothing from it.
pub proof fn lemma_recreated_actor_is_fresh(s: EngineView, actor: NewActor)
    requires
        engine_inv(s),
    ensures
        ({
            let id = actor.actor_id;
            let name = object_name(s.objects, actor.object_id);
            let after = created(deleted(s, id), actor);
            &&& after.actors[id] == fresh_actor(class_of(name))
            &&& !after.owners.contains_key(id)
            &&& forall|c: i32| after.owners.contains_key(c) ==> #[trigger] after.owners[c] != id
            &&& slot_of(after.slots.holders, id) is None
            &&& after.ball_actor == Some(id) ==> after.ball == spawn_ball()
        }),
{
    lemma_deletion_forgets(s, actor.actor_id);
    lemma_deleted_keeps_inv(s, actor.actor_id);
    lemma_created_on_forgotten_is_fresh(deleted(s, actor.actor_id), actor);
}

/// `update` is a rigid body or a position that is routed to the ball.
pub open spec fn moves_ball(s: EngineView, update: UpdatedAttribute) -> bool {
    &&& update.attribute is RigidBody || update.attribute is Location
    &&& s.ball_actor == Some(update.actor_id) || actor_or_blank(
        s.actors,
        update.actor_id,
    ).class.ball_like
}

/// None of the first `n` of `updates`, applied in order from `s`, is
/// routed to the ball.
pub open spec fn ball_untouched(s: EngineView, updates: Seq<UpdatedAttribute>, time: i64, n: int)
    -> bool
    decreases n,
{
    if n <= 0 {
        true
    } else {
        &&& ball_untouched(s, updates, time, n - 1)
        &&& !moves_ball(updated_all(s, updates, time, n - 1).0, updates[n - 1])
    }
}

/// No update of the frame, applied after its deletions and creations, is
/// routed to the ball.
pub open spec fn frame_leaves_ball(
    s: EngineView,
    time: i64,
    deleted_actors: Seq<i32>,
    new_actors: Seq<NewActor>,
    updated_actors: Seq<UpdatedAttribute>,
) -> bool {
    ball_untouched(
        created_all(
            deleted_all(s, deleted_actors, deleted_actors.len() as int),
            new_actors,
            new_actors.len() as int,
        ),
        updated_actors,
        time,
        updated_actors.len() as int,
    )
}

/// The ball moves by no update but a rigid body or a position that is
/// routed to it, and no other update makes another actor the ball.
pub proof fn lemma_ball_moves_only_by_its_physics(
    s: EngineView,
    update: UpdatedAttribute,
    time: i64,
)
    requires
        !moves_ball(s, update),
    ensures
        updated(s, update, time).0.ball == s.ball,
        updated(s, update, time).0.ball_actor == s.ball_actor,
{
}

/// The deletion of the actor that is the ball puts the ball on its spot;
/// no other deletion moves it. The creation of a ball puts the ball on its
/// spot; no other creation moves it. The seating of a frame does not move it.
pub proof fn lemma_ball_rests_by_lifecycle(s: EngineView, gone: i32, creation: NewActor)
    requires
        engine_inv(s),
    ensures
        deleted(s, gone).ball == if s.ball_actor == Some(gone) {
            spawn_ball()
        } else {
            s.ball
        },
        created(s, creation).ball == if class_of(
            object_name(s.objects, creation.object_id),
        ).kind is Ball {
            spawn_ball()
        } else {
            s.ball
        },
        all_seated(s).ball == s.ball,
{
    lemma_seated_range(s, i32::MIN as int, i32::MAX as int + 1);
}

/// Deletions in a row put the ball on its spot if the actor that is the
/// ball is among them, and leave a ball on its spot there.
proof fn lemma_deletions_rest_ball(s: EngineView, actors: Seq<i32>, n: int)
    requires
        engine_inv(s),
        0 <= n <= actors.len(),
    ensures
        ({
            let after = deleted_all(s, actors, n);
            ||| after.ball == spawn_ball()
            ||| after.ball == s.ball && after.ball_actor == s.ball_actor && s.ball_actor is Some
                && forall|j: int| 0 <= j < n ==> actors[j] != s.ball_actor.unwrap()
        }),
    decreases n,
{
    if n > 0 {
        lemma_deletions_rest_ball(s, actors, n - 1);
        lemma_deleted_all_keeps_inv(s, actors, n - 1);
    }
}

/// Creations in a row leave a ball on its spot there.
proof fn lemma_creations_rest_ball(s: EngineView, actors: Seq<NewActor>, n: int)
    requires
        engine_inv(s),
        s.ball == spawn_ball(),
    ensures
        created_all(s, actors, n).ball == spawn_ball(),
    decreases n,
{
    if n > 0 {
        lemma_creations_rest_ball(s, actors, n - 1);
    }
}

/// Updates in a row of which none is routed to the ball leave the ball as it is.
proof fn lemma_updates_leave_ball(s: EngineView, updates: Seq<UpdatedAttribute>, time: i64, n: int)
    requires
        engine_inv(s),
        ball_untouched(s, updates, time, n),
    ensures
        updated_all(s, updates, time, n).0.ball == s.ball,
    decreases n,
{
    if n > 0 {
        lemma_updates_leave_ball(s, updates, time, n - 1);
        lemma_updated_all_keeps_inv(s, updates, time, n - 1);
    }
}

/// After a frame that deletes the actor that is the ball, or that finds
/// the ball on its spot, the ball rests on its spot, unless an update of
/// the frame is routed to the ball.
pub proof fn lemma_frame_rests_ball(
    s: EngineView,
    time: i64,
    deleted_actors: Seq<i32>,
    new_actors: Seq<NewActor>,
    updated_actors: Seq<UpdatedAttribute>,
)
    requires
        engine_inv(s),
        s.ball == spawn_ball() || (s.ball_actor is Some && deleted_actors.contains(
            s.ball_actor.unwrap(),
        )),
        frame_leaves_ball(s, time, deleted_actors, new_actors, updated_actors),
    ensures
        frame_processed(s, time, deleted_actors, new_actors, updated_actors).0.ball == spawn_ball(),
        frame_processed(s, time, deleted_actors, new_actors, updated_actors).1.ball == spawn_ball(),
{
    let d = deleted_actors.len() as int;
    let c = new_actors.len() as int;
    let u = updated_actors.len() as int;
    lemma_deletions_rest_ball(s, deleted_actors, d);
    lemma_deleted_all_keeps_inv(s, deleted_actors, d);
    let pruned = deleted_all(s, deleted_actors, d);
    lemma_creations_rest_ball(pruned, new_actors, c);
    lemma_created_all_keeps_inv(pruned, new_actors, c);
    let grown = created_all(pruned, new_actors, c);
    lemma_updates_leave_ball(grown, updated_actors, time, u);
    lemma_updated_all_keeps_inv(grown, updated_actors, time, u);
    let moved = updated_all(grown, updated_actors, time, u).0;
    lemma_seated_range(moved, i32::MIN as int, i32::MAX as int + 1);
}

/// Over a whole recording: once frame `k` has deleted the actor that is
/// the ball, every snapshot from that of frame `k` on shows the ball at
/// rest on its spot, whatever balls are created meanwhile, until an update
/// is routed to the ball.
pub proof fn lemma_ball_rests_until_moved(
    s: EngineView,
    frames: Seq<FrameDelta>,
    k: int,
    n: int,
)
    requires
        engine_inv(s),
        0 <= k <= n < frames.len(),
        reached(s, frames, k).ball_actor is Some,
        frames[k].deleted_actors@.contains(reached(s, frames, k).ball_actor.unwrap()),
        forall|m: int|
            k <= m <= n ==> frame_leaves_ball(
                reached(s, frames, m),
                (#[trigger] frames[m]).time,
                frames[m].deleted_actors@,
                frames[m].new_actors@,
                frames[m].updated_actors@,
            ),
    ensures
        snapshot_of(s, frames, n).ball == spawn_ball(),
        reached(s, frames, n + 1).ball == spawn_ball(),
    decreases n,
{
    let here = reached(s, frames, n);
    lemma_reached_keeps_inv(s, frames, n);
    lemma_snapshots(s, frames, n + 1, n);
    if n > k {
        lemma_ball_rests_until_moved(s, frames, k, n - 1);
        assert(here.ball == spawn_ball());
    }
    let f = frames[n];
    assert(frame_leaves_ball(here, f.time, f.deleted_actors@, f.new_actors@, f.updated_actors@));
    lemma_frame_rests_ball(here, f.time, f.deleted_actors@, f.new_actors@, f.updated_actors@);
}

} // verus!
