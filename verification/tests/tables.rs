use rlreplay::actors::{classify, classify_object_name, ActorKind, ActorState, BallState};
use rlreplay::geometry::Vec3;
use rlreplay::id_table::IdTable;
use rlreplay::ownership::{ComponentOwnership, DIAGNOSTIC_HOP_LIMIT, PICKUP_HOP_LIMIT};
use rlreplay::slots::{RosterEntry, SlotTable};

fn roster(teams: &[i64]) -> Vec<RosterEntry> {
    teams.iter().map(|t| RosterEntry { name: String::new(), team: *t }).collect()
}

#[test]
fn id_table_keeps_its_ids_in_ascending_order() {
    let mut t: IdTable<u32> = IdTable::new();
    assert_eq!(t.len(), 0);
    assert_eq!(t.get(5), None);
    for id in [5, -3, 9, i32::MIN, 0, i32::MAX, 7] {
        t.insert(id, (id as i64 - i32::MIN as i64) as u32);
    }
    assert_eq!(t.len(), 7);
    let ids: Vec<i32> = (0..t.len()).map(|i| t.id_at(i)).collect();
    assert_eq!(ids, vec![i32::MIN, -3, 0, 5, 7, 9, i32::MAX]);
    for i in 0..t.len() {
        assert_eq!(*t.entry_at(i) as i64, t.id_at(i) as i64 - i32::MIN as i64);
        assert_eq!(t.position(t.id_at(i)), Some(i));
    }
    assert!(t.contains(7));
    assert!(!t.contains(8));
    assert_eq!(t.position(8), None);
    // Inserting again replaces the entry and adds none.
    t.insert(5, 1);
    assert_eq!(t.len(), 7);
    assert_eq!(t.get(5), Some(&1));
    *t.entry_mut(0) = 42;
    assert_eq!(t.get(i32::MIN), Some(&42));
    assert_eq!(t.remove(5), Some(1));
    assert_eq!(t.remove(5), None);
    assert_eq!(t.remove(i32::MAX), Some(u32::MAX));
    let ids: Vec<i32> = (0..t.len()).map(|i| t.id_at(i)).collect();
    assert_eq!(ids, vec![i32::MIN, -3, 0, 7, 9]);
    assert_eq!(t.get(9), Some(&((9i64 - i32::MIN as i64) as u32)));
}

#[test]
fn owner_walk_stops_at_the_end_of_the_chain() {
    let mut o = ComponentOwnership::new();
    assert_eq!(o.owner_of(1), None);
    assert_eq!(o.resolve_owner(1, PICKUP_HOP_LIMIT), 1);
    assert_eq!(o.resolve_actor(1, DIAGNOSTIC_HOP_LIMIT), (1, vec![]));
    o.attach(1, 2);
    o.attach(2, 3);
    assert_eq!(o.owner_of(1), Some(2));
    assert_eq!(o.resolve_owner(1, PICKUP_HOP_LIMIT), 3);
    assert_eq!(o.resolve_actor(1, DIAGNOSTIC_HOP_LIMIT), (3, vec![2, 3]));
    assert_eq!(o.resolve_owner(1, 1), 2);
    assert_eq!(o.resolve_owner(1, 0), 1);
    assert_eq!(o.resolve_actor(1, 1), (2, vec![2]));
    // A later link replaces the earlier one.
    o.attach(1, 3);
    assert_eq!(o.resolve_actor(1, DIAGNOSTIC_HOP_LIMIT), (3, vec![3]));
}

#[test]
fn owner_walk_stops_at_an_actor_that_owns_itself() {
    let mut o = ComponentOwnership::new();
    o.attach(1, 2);
    o.attach(2, 2);
    assert_eq!(o.resolve_owner(1, PICKUP_HOP_LIMIT), 2);
    assert_eq!(o.resolve_actor(1, DIAGNOSTIC_HOP_LIMIT), (2, vec![2, 2]));
    assert_eq!(o.resolve_actor(2, DIAGNOSTIC_HOP_LIMIT), (2, vec![2]));
}

#[test]
fn owner_walk_is_cut_off_in_a_cycle_and_in_a_long_chain() {
    let mut o = ComponentOwnership::new();
    o.attach(1, 2);
    o.attach(2, 1);
    // Nine hops from 1 around a cycle of two end at 2.
    assert_eq!(PICKUP_HOP_LIMIT, 9);
    assert_eq!(o.resolve_owner(1, PICKUP_HOP_LIMIT), 2);
    // Twelve hops end where they began, with twelve owners met.
    assert_eq!(DIAGNOSTIC_HOP_LIMIT, 12);
    let (end, met) = o.resolve_actor(1, DIAGNOSTIC_HOP_LIMIT);
    assert_eq!(end, 1);
    assert_eq!(met, vec![2, 1, 2, 1, 2, 1, 2, 1, 2, 1, 2, 1]);
    assert_eq!(o.resolve_owner(1, DIAGNOSTIC_HOP_LIMIT), 1);
    let mut o = ComponentOwnership::new();
    o.attach(10, 11);
    o.attach(11, 10);
    let (end, met) = o.resolve_actor(10, DIAGNOSTIC_HOP_LIMIT);
    assert!(end == 10 || end == 11);
    assert!(met.len() <= 12);
    o.attach(10, 10);
    assert_eq!(o.resolve_actor(10, DIAGNOSTIC_HOP_LIMIT), (10, vec![10]));
    let mut o = ComponentOwnership::new();
    for i in 0..20 {
        o.attach(i, i + 1);
    }
    assert_eq!(o.resolve_owner(0, PICKUP_HOP_LIMIT), 9);
    assert_eq!(o.resolve_owner(15, PICKUP_HOP_LIMIT), 20);
    let (end, met) = o.resolve_actor(0, DIAGNOSTIC_HOP_LIMIT);
    assert_eq!(end, 12);
    assert_eq!(met, (1..=12).collect::<Vec<i32>>());
}

#[test]
fn purge_drops_the_links_from_and_to_an_actor() {
    let mut o = ComponentOwnership::new();
    o.attach(1, 5);
    o.attach(2, 5);
    o.attach(5, 9);
    o.attach(3, 4);
    o.attach(7, 7);
    o.purge(5);
    assert_eq!(o.owner_of(1), None);
    assert_eq!(o.owner_of(2), None);
    assert_eq!(o.owner_of(5), None);
    assert_eq!(o.owner_of(3), Some(4));
    assert_eq!(o.owner_of(7), Some(7));
    o.purge(7);
    assert_eq!(o.owner_of(7), None);
    o.purge(100);
    assert_eq!(o.owner_of(3), Some(4));
}

#[test]
fn slots_go_out_in_roster_order_and_come_back_last() {
    let mut s = SlotTable::new(&roster(&[0, 1, 0, 2, 0]));
    assert_eq!(s.len(), 5);
    for i in 0..5 {
        assert_eq!(s.holder_at(i), None);
    }
    assert_eq!(s.slot_of(10), None);
    assert_eq!(s.bind(10, 0), Some(0));
    assert_eq!(s.bind(11, 0), Some(2));
    assert_eq!(s.bind(12, 1), Some(1));
    // An actor keeps the slot it holds, whatever team it asks for.
    assert_eq!(s.bind(10, 1), Some(0));
    assert_eq!(s.bind(13, 1), Some(3));
    assert_eq!(s.bind(14, 1), None);
    assert_eq!(s.slot_of(14), None);
    assert_eq!(s.holder_at(0), Some(10));
    assert_eq!(s.holder_at(3), Some(13));
    assert_eq!(s.holder_at(4), None);
    s.release(10);
    s.release(99);
    assert_eq!(s.slot_of(10), None);
    assert_eq!(s.holder_at(0), None);
    // Slot 4 was free before slot 0 came back.
    assert_eq!(s.bind(20, 0), Some(4));
    assert_eq!(s.bind(21, 0), Some(0));
    assert_eq!(s.bind(22, 0), None);
    s.release(13);
    assert_eq!(s.bind(22, 0), None);
    // Any team but 0 counts as team 1.
    assert_eq!(s.bind(22, 200), Some(3));
    assert_eq!(s.bind(23, 1), None);
}

#[test]
fn class_names_are_classified() {
    assert_eq!(classify_object_name("Archetypes.Ball.Ball_Default"), ActorKind::Ball);
    assert_eq!(classify_object_name("TAGame.Ball_TA"), ActorKind::Ball);
    assert_eq!(classify_object_name("Archetypes.Ball.CubeBall"), ActorKind::Ball);
    assert_eq!(classify_object_name("Archetypes.Car.Car_Default"), ActorKind::Car);
    assert_eq!(classify_object_name("TAGame.Default__Car_TA"), ActorKind::Car);
    assert_eq!(classify_object_name("TAGame.Default__CarBody"), ActorKind::Car);
    assert_eq!(classify_object_name("ARCHETYPES.CAR.CAR_DEFAULT"), ActorKind::Car);
    assert_eq!(
        classify_object_name("Archetypes.CarComponents.CarComponent_Boost"),
        ActorKind::Other
    );
    assert_eq!(
        classify_object_name("Archetypes.Car.Car_Default.CarComponent_Jump"),
        ActorKind::Other
    );
    assert_eq!(
        classify_object_name("Stadium_P.TheWorld:PersistentLevel.VehiclePickup_Boost_TA_12"),
        ActorKind::BoostPadPickup
    );
    assert_eq!(classify_object_name("vehiclepickup_boost_ta"), ActorKind::Other);
    assert_eq!(classify_object_name("Balloon"), ActorKind::Other);
    assert_eq!(classify_object_name(""), ActorKind::Other);
    // A ball comes before a car.
    assert_eq!(classify_object_name("Archetypes.Car.Car_Ball_Default"), ActorKind::Ball);
    let c = classify("Archetypes.CarComponents.CarComponent_Boost");
    assert!(c.is_component);
    assert!(!c.ball_like);
    let c = classify("TAGame.Ball_TA");
    assert!(c.ball_like);
    assert!(!c.is_component);
    assert!(!classify("tagame.ball_ta").ball_like);
    assert_eq!(classify("tagame.ball_ta").kind, ActorKind::Ball);
}

#[test]
fn blank_actor_and_spawned_ball() {
    let a = ActorState::blank();
    assert_eq!(a.class.kind, ActorKind::Other);
    assert!(!a.class.is_component);
    assert!(!a.class.ball_like);
    assert_eq!(a.team, None);
    assert_eq!(a.boost, None);
    assert_eq!(a.position, None);
    assert_eq!(a.velocity, None);
    assert_eq!(a.rotation, None);
    assert!(!a.demolished);
    assert_eq!(a.shown_team(), 0);
    assert_eq!(a.shown_position(), Vec3::new(0, 0, 1_700));
    let b = BallState::spawn();
    assert_eq!(b.position, Vec3::new(0, 0, 9_315));
    assert_eq!(b.velocity, Vec3::new(0, 0, 0));
    assert_eq!(b.angular_velocity, Vec3::new(0, 0, 0));
    let mut a = ActorState::blank();
    a.position = Some(Vec3::new(0, 1, 0));
    assert_eq!(a.shown_team(), 1);
    a.team = Some(0);
    assert_eq!(a.shown_team(), 0);
}
