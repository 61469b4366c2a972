use rlreplay::arena_tables::{
    lookup_arena_slug, pad_table_for_slug, side_of, snap_to_pad, soccar_pads, PadSide,
    SNAP_TOLERANCE_BIG, SNAP_TOLERANCE_SMALL,
};

#[test]
fn test_soccar_pad_count() {
    assert_eq!(soccar_pads().len(), 34);
}

#[test]
fn test_soccar_big_pad_count() {
    let big_count = soccar_pads().iter().filter(|p| p.is_big).count();
    assert_eq!(big_count, 6);
}

#[test]
fn test_soccar_small_pad_count() {
    let small_count = soccar_pads().iter().filter(|p| !p.is_big).count();
    assert_eq!(small_count, 28);
}

#[test]
fn test_side_classification_coverage() {
    let pads = soccar_pads();
    let blue_count = pads.iter().filter(|p| p.side.as_str() == "blue").count();
    let orange_count = pads.iter().filter(|p| p.side.as_str() == "orange").count();
    let mid_count = pads.iter().filter(|p| p.side.as_str() == "mid").count();
    assert!(blue_count > 0);
    assert!(orange_count > 0);
    assert!(mid_count > 0);
    assert_eq!(blue_count + orange_count + mid_count, 34);
}

#[test]
fn test_snap_exact_match() {
    let pads = soccar_pads();
    let pad = &pads[0];
    let result = snap_to_pad(&pads, pad.x, pad.y, pad.z);
    assert!(result.is_some());
    let r = result.unwrap();
    assert_eq!(r.pad_def.id, pad.id);
    assert_eq!(r.snap_error_sq, 0);
    assert!((r.snap_error_sq as f64).sqrt() / 100.0 < 1e-3);
}

#[test]
fn test_snap_within_tolerance() {
    // Slight offset from big pad 0, within 200 units.
    let pads = soccar_pads();
    let result = snap_to_pad(&pads, (-3584 + 50) * 100, (-4096 + 50) * 100, 73 * 100);
    assert!(result.is_some());
    let r = result.unwrap();
    assert_eq!(r.pad_def.id, 0);
    assert_eq!(r.snap_error_sq, 5_000 * 5_000 * 2);
    assert!(r.snap_error_sq < (SNAP_TOLERANCE_BIG as u128) * (SNAP_TOLERANCE_BIG as u128));
    assert!((r.snap_error_sq as f64).sqrt() / 100.0 < 200.0);
}

#[test]
fn test_snap_outside_tolerance() {
    // Far from any pad.
    let pads = soccar_pads();
    let result = snap_to_pad(&pads, 0, 0, 500 * 100);
    assert!(result.is_none());
}

#[test]
fn test_lookup_arena_slug_standard() {
    assert_eq!(lookup_arena_slug("DFHStadium"), Some("soccar"));
    assert_eq!(lookup_arena_slug("cs_day_p"), Some("soccar"));
    assert_eq!(lookup_arena_slug("Wasteland_GRS_P"), Some("soccar"));
    assert_eq!(lookup_arena_slug("CHN_Stadium_P"), Some("soccar"));
}

#[test]
fn test_lookup_arena_slug_unsupported() {
    assert_eq!(lookup_arena_slug("HoopsStadium_P"), None);
    assert_eq!(lookup_arena_slug("Dropshot_P"), None);
}

#[test]
fn lookup_arena_slug_ignores_case_and_knows_shattershot() {
    assert_eq!(lookup_arena_slug("hOOPSstadium"), None);
    assert_eq!(lookup_arena_slug("ShatterShot_P"), None);
    assert_eq!(lookup_arena_slug(""), Some("soccar"));
    assert_eq!(lookup_arena_slug("hoop"), Some("soccar"));
}

#[test]
fn pad_table_for_slug_knows_only_soccar() {
    assert_eq!(pad_table_for_slug("soccar").map(|t| t.len()), Some(34));
    assert!(pad_table_for_slug("Soccar").is_none());
    assert!(pad_table_for_slug("hoops").is_none());
    assert!(pad_table_for_slug("").is_none());
}

#[test]
fn every_pad_snaps_to_itself_at_distance_zero() {
    let pads = soccar_pads();
    for (i, pad) in pads.iter().enumerate() {
        let r = snap_to_pad(&pads, pad.x, pad.y, pad.z).unwrap();
        assert_eq!(r.pad_def.id, i);
        assert_eq!(r.pad_def, *pad);
        assert_eq!(r.snap_error_sq, 0);
    }
}

#[test]
fn pad_ids_sizes_and_sides_follow_the_table() {
    let pads = soccar_pads();
    for (i, pad) in pads.iter().enumerate() {
        assert_eq!(pad.id, i);
        assert_eq!(pad.is_big, i < 6);
        assert_eq!(pad.side, side_of(pad.y));
    }
    assert_eq!(pads[0].x, -358_400);
    assert_eq!(pads[0].y, -409_600);
    assert_eq!(pads[0].z, 7_300);
    assert_eq!(pads[0].side, PadSide::Blue);
    assert_eq!(pads[29].y, 331_000);
    assert_eq!(pads[33].side, PadSide::Orange);
    assert_eq!(pads.iter().filter(|p| p.side == PadSide::Blue).count(), 13);
    assert_eq!(pads.iter().filter(|p| p.side == PadSide::Mid).count(), 8);
    assert_eq!(pads.iter().filter(|p| p.side == PadSide::Orange).count(), 13);
}

#[test]
fn side_split_is_exclusive_at_the_threshold() {
    assert_eq!(side_of(-200_001), PadSide::Blue);
    assert_eq!(side_of(-200_000), PadSide::Mid);
    assert_eq!(side_of(0), PadSide::Mid);
    assert_eq!(side_of(200_000), PadSide::Mid);
    assert_eq!(side_of(200_001), PadSide::Orange);
}

#[test]
fn tolerance_is_inclusive_and_depends_on_size() {
    let pads = soccar_pads();
    // Big pad 4 at (0, -4608, 73): exactly 200 units above it is within reach.
    let r = snap_to_pad(&pads, 0, -460_800, 7_300 + SNAP_TOLERANCE_BIG as i32).unwrap();
    assert_eq!(r.pad_def.id, 4);
    assert_eq!(r.snap_error_sq, 400_000_000);
    assert!(snap_to_pad(&pads, 0, -460_800, 7_300 + 20_001).is_none());
    // Small pad 17 at (0, -1024, 70): 160 units is within reach, one hundredth more is not.
    let r = snap_to_pad(&pads, 0, -102_400, 7_000 + SNAP_TOLERANCE_SMALL as i32).unwrap();
    assert_eq!(r.pad_def.id, 17);
    assert_eq!(r.snap_error_sq, 256_000_000);
    assert!(snap_to_pad(&pads, 0, -102_400, 7_000 + 16_001).is_none());
}

#[test]
fn equal_distances_keep_the_first_pad_of_the_table() {
    let mut pads = soccar_pads();
    pads.truncate(2);
    // Pads 0 and 1 mirror each other in x; make the table hold two pads 100 units apart.
    pads[1].x = pads[0].x + 10_000;
    let mid = pads[0].x + 5_000;
    let r = snap_to_pad(&pads, mid, pads[0].y, pads[0].z).unwrap();
    assert_eq!(r.pad_def.id, 0);
    assert_eq!(r.snap_error_sq, 25_000_000);
    pads.swap(0, 1);
    let r = snap_to_pad(&pads, mid, pads[0].y, pads[0].z).unwrap();
    assert_eq!(r.pad_def.id, 1);
    // One hundredth nearer to the second wins.
    let r = snap_to_pad(&pads, mid - 1, pads[0].y, pads[0].z).unwrap();
    assert_eq!(r.pad_def.id, 0);
}

#[test]
fn snap_on_an_empty_table_and_at_extreme_coordinates() {
    assert!(snap_to_pad(&[], 0, 0, 0).is_none());
    let pads = soccar_pads();
    assert!(snap_to_pad(&pads, i32::MAX, i32::MIN, i32::MAX).is_none());
    assert!(snap_to_pad(&pads, i32::MIN, i32::MIN, i32::MIN).is_none());
}

#[test]
fn the_nearest_pad_decides_even_where_a_farther_pad_has_the_position_in_reach() {
    let pads = soccar_pads();
    // About 175 units from small pad 6 and about 193 from big pad 4: the
    // nearest pad is out of its 160 units, so nothing is matched.
    assert!(snap_to_pad(&pads, 0, -441_500, 7_150).is_none());
    // Nearer to the big pad, the big pad is matched.
    let r = snap_to_pad(&pads, 0, -442_500, 7_150).unwrap();
    assert_eq!(r.pad_def.id, 4);
    assert_eq!(r.snap_error_sq, 18_300 * 18_300 + 150 * 150);
    // Nearer to the small pad and within its reach, the small pad is matched.
    let r = snap_to_pad(&pads, 0, -440_000, 7_000).unwrap();
    assert_eq!(r.pad_def.id, 6);
    assert_eq!(r.snap_error_sq, 16_000 * 16_000);
}

#[test]
fn a_small_pad_out_of_reach_hides_a_big_pad_behind_it() {
    let mut pads = soccar_pads();
    pads.truncate(2);
    pads[0].is_big = false;
    pads[0].x = 0;
    pads[0].y = 0;
    pads[0].z = 0;
    pads[1].is_big = true;
    pads[1].x = 37_000;
    pads[1].y = 0;
    pads[1].z = 0;
    // 175 units from the small pad, 195 from the big one.
    assert!(snap_to_pad(&pads, 17_500, 0, 0).is_none());
    // 185 from both: the first of the table is the nearest, and it is out of reach.
    assert!(snap_to_pad(&pads, 18_500, 0, 0).is_none());
    // 186 from the small pad, 184 from the big one.
    let r = snap_to_pad(&pads, 18_600, 0, 0).unwrap();
    assert_eq!(r.pad_def.is_big, true);
    assert_eq!(r.snap_error_sq, 18_400 * 18_400);
    let r = snap_to_pad(&pads, 16_000, 0, 0).unwrap();
    assert_eq!(r.pad_def.is_big, false);
    assert_eq!(r.snap_error_sq, 16_000 * 16_000);
    // With the big pad first, the tie at 185 goes to it.
    pads.swap(0, 1);
    let r = snap_to_pad(&pads, 18_500, 0, 0).unwrap();
    assert_eq!(r.pad_def.is_big, true);
}
