use rlreplay::arena_tables::PadSide;
use rlreplay::geometry::Vec3;
use rlreplay::pads::{
    is_boost_pad_class, pickup_state_label, NameCache, PadEvent, PadEventStatus, PadRegistry,
};

const PAD_CLASS: &str = "Stadium_P.TheWorld:PersistentLevel.VehiclePickup_Boost_TA_12";

fn pad0() -> Vec3 {
    Vec3::new(-358_400, -409_600, 7_300)
}

fn resolved_registry(actor: i32) -> PadRegistry {
    let mut registry = PadRegistry::new("DFHStadium", false);
    registry.track_new_actor(actor, PAD_CLASS);
    assert!(registry.update_position(actor, pad0()).is_empty());
    registry
}

fn only(events: Vec<PadEvent>) -> PadEvent {
    assert_eq!(events.len(), 1);
    events.into_iter().next().unwrap()
}

#[test]
fn status_labels() {
    assert_eq!(PadEventStatus::Collected.as_str(), "COLLECTED");
    assert_eq!(PadEventStatus::Respawned.as_str(), "RESPAWNED");
}

#[test]
fn raw_state_labels() {
    assert_eq!(pickup_state_label(0), "RESPAWNED");
    assert_eq!(pickup_state_label(255), "RESPAWNED");
    assert_eq!(pickup_state_label(1), "COLLECTED");
    assert_eq!(pickup_state_label(2), "COLLECTED");
    assert_eq!(pickup_state_label(3), "COLLECTED");
    assert_eq!(pickup_state_label(4), "UNKNOWN");
    assert_eq!(pickup_state_label(254), "UNKNOWN");
}

#[test]
fn new_registry_knows_its_arena_and_its_flag() {
    let registry = PadRegistry::new("DFHStadium", true);
    assert!(registry.arena_recognized());
    assert!(registry.debug_enabled());
    assert_eq!(registry.tracked_count(), 0);
    let registry = PadRegistry::new("HoopsStadium_P", false);
    assert!(!registry.arena_recognized());
    assert!(!registry.debug_enabled());
}

#[test]
fn only_pad_classes_are_tracked() {
    let mut registry = PadRegistry::new("DFHStadium", false);
    registry.track_new_actor(1, "Archetypes.Car.Car_Default");
    registry.track_new_actor(2, "vehiclepickup_boost_ta");
    assert_eq!(registry.tracked_count(), 0);
    assert!(!registry.is_tracked(1));
    registry.track_new_actor(3, PAD_CLASS);
    registry.track_new_actor(4, "VehiclePickup_Boost_TA");
    assert_eq!(registry.tracked_count(), 2);
    assert!(registry.is_tracked(3));
    assert!(registry.is_tracked(4));
}

#[test]
fn car_at_pad_zero_resolves_to_big_blue_pad_zero() {
    // A pickup whose pad has no position of its own is resolved by the position of the car.
    let mut registry = PadRegistry::new("DFHStadium", false);
    registry.track_new_actor(40, PAD_CLASS);
    let event = only(registry.handle_pickup(40, 1, 2_500_000, Some(7), Some(5), Some(pad0())));
    assert_eq!(event.pad_id, 0);
    assert!(event.is_big);
    assert_eq!(event.side, PadSide::Blue);
    assert_eq!(event.side.as_str(), "blue");
    assert_eq!(event.arena, "soccar");
    assert!(event.arena_recognized);
    assert_eq!(event.object_name, PAD_CLASS);
    assert_eq!(event.position, pad0());
    assert_eq!(event.timestamp, 2_500_000);
    assert_eq!(event.raw_state, 1);
    assert_eq!(event.instigator_actor_id, Some(7));
    assert_eq!(event.resolved_actor_id, Some(5));
    assert_eq!(event.status, PadEventStatus::Collected);
    assert_eq!(event.snap_distance_sq, Some(0));
}

#[test]
fn observed_position_is_preferred_over_the_fallback() {
    let mut registry = PadRegistry::new("DFHStadium", false);
    registry.track_new_actor(40, PAD_CLASS);
    // 30 units from small pad 17 at (0, -1024, 70).
    let observed = Vec3::new(3_000, -102_400, 7_000);
    assert!(registry.update_position(40, observed).is_empty());
    let event = only(registry.handle_pickup(40, 1, 1_000_000, Some(7), Some(7), Some(pad0())));
    assert_eq!(event.pad_id, 17);
    assert!(!event.is_big);
    assert_eq!(event.side, PadSide::Mid);
    assert_eq!(event.position, observed);
    assert_eq!(event.snap_distance_sq, Some(9_000_000));
}

#[test]
fn a_signal_without_instigator_is_a_respawn() {
    let mut registry = resolved_registry(40);
    let event = only(registry.handle_pickup(40, 0, 1_000_000, None, None, None));
    assert_eq!(event.status, PadEventStatus::Respawned);
    assert_eq!(event.instigator_actor_id, None);
    assert_eq!(event.resolved_actor_id, None);
    assert_eq!(event.raw_state, 0);
}

#[test]
fn duplicate_signals_within_a_millisecond_yield_one_event() {
    let mut registry = resolved_registry(40);
    let first = registry.handle_pickup(40, 1, 10_000_000, Some(7), Some(7), None);
    let second = registry.handle_pickup(40, 1, 10_000_999, Some(7), Some(7), None);
    assert_eq!(first.len(), 1);
    assert_eq!(second.len(), 0);
    assert_eq!(first[0].timestamp, 10_000_000);
    // Also when the second signal is the earlier of the two.
    let third = registry.handle_pickup(40, 1, 9_999_001, Some(7), Some(7), None);
    assert_eq!(third.len(), 0);
}

#[test]
fn debounce_window_is_exclusive_and_needs_the_same_state() {
    let mut registry = resolved_registry(40);
    assert_eq!(registry.handle_pickup(40, 1, 10_000_000, Some(7), Some(7), None).len(), 1);
    // Exactly one millisecond later is a new event.
    assert_eq!(registry.handle_pickup(40, 1, 10_001_000, Some(7), Some(7), None).len(), 1);
    // Another state at the same time is a new event.
    assert_eq!(registry.handle_pickup(40, 0, 10_001_000, None, None, None).len(), 1);
    // The debounce goes by the last event emitted, which is now state 0.
    assert_eq!(registry.handle_pickup(40, 1, 10_001_000, Some(7), Some(7), None).len(), 1);
    // Exactly one millisecond earlier is a new event too.
    assert_eq!(registry.handle_pickup(40, 1, 10_000_000, Some(7), Some(7), None).len(), 1);
}

#[test]
fn debounce_at_the_ends_of_the_time_range() {
    let mut registry = resolved_registry(40);
    assert_eq!(registry.handle_pickup(40, 1, i64::MIN, Some(7), Some(7), None).len(), 1);
    assert_eq!(registry.handle_pickup(40, 1, i64::MAX, Some(7), Some(7), None).len(), 1);
    assert_eq!(registry.handle_pickup(40, 1, i64::MAX - 999, Some(7), Some(7), None).len(), 0);
}

#[test]
fn signals_wait_until_the_pad_is_resolved_and_come_out_in_order() {
    let mut registry = PadRegistry::new("DFHStadium", false);
    registry.track_new_actor(40, PAD_CLASS);
    assert!(registry.handle_pickup(40, 1, 1_000_000, Some(7), Some(7), None).is_empty());
    assert!(registry.handle_pickup(40, 1, 1_000_500, Some(7), Some(7), None).is_empty());
    assert!(registry.handle_pickup(40, 0, 5_000_000, None, None, None).is_empty());
    assert!(registry.flush_ready_events().is_empty());
    // A position out of reach of every pad resolves nothing.
    assert!(registry.update_position(40, Vec3::new(0, 0, 50_000)).is_empty());
    let events = registry.update_position(40, pad0());
    assert_eq!(events.len(), 2);
    assert_eq!(events[0].timestamp, 1_000_000);
    assert_eq!(events[0].status, PadEventStatus::Collected);
    assert_eq!(events[1].timestamp, 5_000_000);
    assert_eq!(events[1].status, PadEventStatus::Respawned);
    assert_eq!(events[0].pad_id, 0);
    assert_eq!(events[0].snap_distance_sq, Some(0));
    assert!(registry.flush_ready_events().is_empty());
}

#[test]
fn a_signal_for_an_untracked_actor_creates_a_placeholder() {
    let mut registry = PadRegistry::new("DFHStadium", false);
    // 10 units beside big pad 5 at (0, 4608, 73).
    let near = Vec3::new(1_000, 460_800, 7_300);
    let event = only(registry.handle_pickup(77, 1, 1_000_000, Some(7), Some(9), Some(near)));
    assert!(registry.is_tracked(77));
    assert_eq!(event.object_name, "VehiclePickup_Boost_TA");
    assert_eq!(event.pad_id, 5);
    assert_eq!(event.side, PadSide::Orange);
    // Resolved by a fallback: the pad's own position, at distance zero.
    assert_eq!(event.position, Vec3::new(0, 460_800, 7_300));
    assert_eq!(event.snap_distance_sq, Some(0));
}

#[test]
fn a_learned_pad_seeds_the_next_actor_of_the_same_class() {
    let mut registry = resolved_registry(40);
    registry.remove_actor(40);
    registry.track_new_actor(41, PAD_CLASS);
    // Seeded with pad 0: no position yet, so the signal waits.
    assert!(registry.handle_pickup(41, 1, 1_000_000, Some(7), Some(7), None).is_empty());
    // The first position lets it out; the seed stands even far from the pad.
    let far = Vec3::new(0, 0, 7_300);
    let event = only(registry.update_position(41, far));
    assert_eq!(event.pad_id, 0);
    assert_eq!(event.position, far);
    assert_eq!(
        event.snap_distance_sq,
        Some(358_400u128 * 358_400 + 409_600u128 * 409_600)
    );
    // Another class name is not seeded.
    registry.track_new_actor(42, "VehiclePickup_Boost_TA_99");
    assert!(registry.handle_pickup(42, 1, 1_000_000, Some(7), Some(7), None).is_empty());
    assert!(registry.update_position(42, Vec3::new(0, 0, 50_000)).is_empty());
}

#[test]
fn removing_an_actor_discards_its_waiting_signals() {
    let mut registry = PadRegistry::new("DFHStadium", false);
    registry.track_new_actor(40, PAD_CLASS);
    assert!(registry.handle_pickup(40, 1, 1_000_000, Some(7), Some(7), None).is_empty());
    registry.remove_actor(40);
    assert!(!registry.is_tracked(40));
    assert_eq!(registry.tracked_count(), 0);
    registry.track_new_actor(40, PAD_CLASS);
    assert!(registry.update_position(40, pad0()).is_empty());
    assert!(registry.flush_ready_events().is_empty());
    // Removing an actor that is not tracked changes nothing.
    registry.remove_actor(12345);
    assert_eq!(registry.tracked_count(), 1);
}

#[test]
fn tracking_again_forgets_the_last_event() {
    let mut registry = resolved_registry(40);
    assert_eq!(registry.handle_pickup(40, 1, 1_000_000, Some(7), Some(7), None).len(), 1);
    registry.track_new_actor(40, PAD_CLASS);
    assert!(registry.update_position(40, pad0()).is_empty());
    assert_eq!(registry.handle_pickup(40, 1, 1_000_000, Some(7), Some(7), None).len(), 1);
}

#[test]
fn position_updates_of_untracked_actors_change_nothing() {
    let mut registry = PadRegistry::new("DFHStadium", false);
    assert!(registry.update_position(5, pad0()).is_empty());
    assert_eq!(registry.tracked_count(), 0);
}

#[test]
fn an_unsupported_arena_never_yields_an_event() {
    let mut registry = PadRegistry::new("HoopsStadium_P", false);
    registry.track_new_actor(40, PAD_CLASS);
    assert!(registry.update_position(40, pad0()).is_empty());
    assert!(registry.handle_pickup(40, 1, 1_000_000, Some(7), Some(7), Some(pad0())).is_empty());
    assert!(registry.handle_pickup(41, 1, 1_000_000, Some(7), Some(7), Some(pad0())).is_empty());
    assert!(registry.handle_pickup(40, 0, 9_000_000, None, None, None).is_empty());
    assert!(registry.update_position(41, Vec3::new(0, 460_800, 7_300)).is_empty());
    assert!(registry.flush_ready_events().is_empty());
    registry.track_new_actor(42, PAD_CLASS);
    assert!(registry.update_position(42, pad0()).is_empty());
    assert_eq!(registry.tracked_count(), 3);
}

#[test]
fn many_actors_are_kept_apart() {
    let mut registry = PadRegistry::new("DFHStadium", false);
    let pads = rlreplay::arena_tables::soccar_pads();
    // Track in ascending order of id, one actor and one class name per pad.
    for (i, pad) in pads.iter().enumerate().rev() {
        let actor = 1_000 - i as i32;
        registry.track_new_actor(actor, &format!("VehiclePickup_Boost_TA_{}", i));
        assert!(registry.update_position(actor, pad.position()).is_empty());
    }
    assert_eq!(registry.tracked_count(), 34);
    for (i, pad) in pads.iter().enumerate() {
        let actor = 1_000 - i as i32;
        let event = only(registry.handle_pickup(actor, 1, 1_000_000, Some(1), Some(1), None));
        assert_eq!(event.pad_id, pad.id);
        assert_eq!(event.is_big, pad.is_big);
        assert_eq!(event.side, pad.side);
        assert_eq!(event.snap_distance_sq, Some(0));
    }
}

#[test]
fn name_cache_holds_one_pad_for_each_name() {
    let pads = rlreplay::arena_tables::soccar_pads();
    let mut cache = NameCache::new();
    let a = "a".to_string();
    let b = "b".to_string();
    assert_eq!(cache.get(&a), None);
    cache.insert(&a, pads[3]);
    cache.insert(&b, pads[4]);
    assert_eq!(cache.get(&a), Some(pads[3]));
    assert_eq!(cache.get(&b), Some(pads[4]));
    cache.insert(&a, pads[5]);
    assert_eq!(cache.get(&a), Some(pads[5]));
    assert_eq!(cache.get(&b), Some(pads[4]));
    assert_eq!(cache.get(&"A".to_string()), None);
    assert_eq!(cache.get(&String::new()), None);
}

#[test]
fn pad_classes_are_told_by_their_marker() {
    assert!(is_boost_pad_class("VehiclePickup_Boost_TA"));
    assert!(is_boost_pad_class(PAD_CLASS));
    assert!(!is_boost_pad_class("VehiclePickup_Boost_T"));
    assert!(!is_boost_pad_class("vehiclepickup_boost_ta"));
    assert!(!is_boost_pad_class(""));
}
