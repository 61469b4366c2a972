use rlreplay::header::{
    check_length, degraded_summary, find_property, header_roster, looks_like_replay_header,
    parse_header, property_int, property_text, summarize_header, team_size_of, HeaderPair,
    HeaderProperty, HeaderScalar, HeaderValue, ReplayError,
};
use rlreplay::slots::RosterEntry;

fn words(key: &str, value: &str) -> HeaderProperty {
    HeaderProperty {
        key: key.to_string(),
        value: HeaderValue::Scalar(HeaderScalar::Text(value.to_string())),
    }
}

fn whole(key: &str, value: i32) -> HeaderProperty {
    HeaderProperty { key: key.to_string(), value: HeaderValue::Scalar(HeaderScalar::Int(value)) }
}

fn other(key: &str) -> HeaderProperty {
    HeaderProperty { key: key.to_string(), value: HeaderValue::Scalar(HeaderScalar::Other) }
}

fn array(key: &str, rows: Vec<Vec<HeaderPair>>) -> HeaderProperty {
    HeaderProperty { key: key.to_string(), value: HeaderValue::Array(rows) }
}

fn pt(key: &str, value: &str) -> HeaderPair {
    HeaderPair { key: key.to_string(), value: HeaderScalar::Text(value.to_string()) }
}

fn pi(key: &str, value: i32) -> HeaderPair {
    HeaderPair { key: key.to_string(), value: HeaderScalar::Int(value) }
}

fn po(key: &str) -> HeaderPair {
    HeaderPair { key: key.to_string(), value: HeaderScalar::Other }
}

fn names(players: &[RosterEntry]) -> Vec<(String, i64)> {
    players.iter().map(|p| (p.name.clone(), p.team)).collect()
}

fn full_table() -> Vec<HeaderProperty> {
    vec![
        whole("TeamSize", 3),
        whole("Team0Score", 4),
        whole("Team1Score", -2),
        array(
            "Goals",
            vec![
                vec![pi("frame", 441), pt("PlayerName", "ann"), pi("PlayerTeam", 1)],
                vec![pt("frame", "x"), pi("PlayerName", 3), po("PlayerTeam")],
                vec![],
            ],
        ),
        array(
            "HighLights",
            vec![
                vec![pi("frame", 100), pt("CarName", "c1"), pt("BallName", "b1")],
                vec![pt("Car", "c2"), pt("Ball", "b2"), pt("CarName", "c3")],
            ],
        ),
        array(
            "PlayerStats",
            vec![
                vec![pt("Name", "ann"), pi("Team", 1), pi("Score", 100)],
                vec![pi("PlayerTeam", 0), pt("PlayerName", "bob")],
                vec![pi("Team", 1), po("Name")],
                vec![pt("Name", "x"), pt("PlayerName", "cy"), pi("Team", 5), pi("PlayerTeam", 1)],
                vec![pt("Name", "dee"), pt("Team", "1")],
            ],
        ),
        words("MapName", "Stadium_P"),
        whole("NumFrames", 9000),
        words("BuildVersion", "221120.42953.406184"),
        words("MapName", "Other_P"),
        whole("PlaylistID", 11),
    ]
}

#[test]
fn summary_of_a_full_header() {
    let s = summarize_header(&full_table());
    assert_eq!(s.map_name, "Stadium_P");
    // The playlist is read as a text only.
    assert_eq!(s.playlist_id, "unknown");
    assert_eq!(s.team0_score, 4);
    assert_eq!(s.team1_score, -2);
    assert_eq!(s.num_frames, 9000);
    assert_eq!(s.engine_build.as_deref(), Some("221120.42953.406184"));
    assert_eq!(
        names(&s.players),
        vec![
            ("ann".to_string(), 1),
            ("bob".to_string(), 0),
            ("cy".to_string(), 1),
            ("dee".to_string(), 0)
        ]
    );
    assert_eq!(s.team_size, 2);
    assert_eq!(s.goals.len(), 3);
    assert_eq!(s.goals[0].frame, Some(441));
    assert_eq!(s.goals[0].player_name.as_deref(), Some("ann"));
    assert_eq!(s.goals[0].player_team, Some(1));
    assert_eq!(s.goals[1].frame, None);
    assert_eq!(s.goals[1].player_name, None);
    assert_eq!(s.goals[1].player_team, None);
    assert_eq!(s.goals[2].frame, None);
    assert_eq!(s.highlights.len(), 2);
    assert_eq!(s.highlights[0].frame, Some(100));
    assert_eq!(s.highlights[0].ball_name.as_deref(), Some("b1"));
    assert_eq!(s.highlights[0].car_name.as_deref(), Some("c1"));
    assert_eq!(s.highlights[1].frame, None);
    assert_eq!(s.highlights[1].ball_name.as_deref(), Some("b2"));
    assert_eq!(s.highlights[1].car_name.as_deref(), Some("c3"));
    assert_eq!(
        s.quality_warnings,
        vec!["parsed_with_rust_core", "build_version:221120.42953.406184"]
    );
}

#[test]
fn summary_of_an_empty_header() {
    let s = summarize_header(&vec![]);
    assert_eq!(s.map_name, "unknown");
    assert_eq!(s.playlist_id, "unknown");
    assert_eq!(s.team_size, 0);
    assert_eq!(s.team0_score, 0);
    assert_eq!(s.team1_score, 0);
    assert_eq!(s.num_frames, 0);
    assert!(s.players.is_empty());
    assert_eq!(s.engine_build, None);
    assert!(s.goals.is_empty());
    assert!(s.highlights.is_empty());
    assert_eq!(s.quality_warnings, vec!["parsed_with_rust_core", "boxcars_no_playerstats"]);
}

#[test]
fn properties_of_another_shape_are_passed_over() {
    let table = vec![
        whole("MapName", 3),
        words("MapName", "late"),
        words("Team0Score", "4"),
        other("NumFrames"),
        words("PlayerStats", "none"),
        array("BuildVersion", vec![]),
        words("PlaylistID", "ranked"),
        array("PlayerStats", vec![vec![pt("Name", "late")]]),
    ];
    let s = summarize_header(&table);
    // The first property of a name decides, whatever its shape.
    assert_eq!(s.map_name, "unknown");
    assert_eq!(s.playlist_id, "ranked");
    assert_eq!(s.team0_score, 0);
    assert_eq!(s.num_frames, 0);
    assert_eq!(s.engine_build, None);
    assert!(s.players.is_empty());
    assert_eq!(s.quality_warnings, vec!["parsed_with_rust_core", "boxcars_no_playerstats"]);
    assert_eq!(property_text(&table, "MapName"), None);
    assert_eq!(property_text(&table, "PlaylistID").as_deref(), Some("ranked"));
    assert_eq!(property_int(&table, "MapName"), Some(3));
    assert_eq!(property_int(&table, "mapname"), None);
    assert!(find_property(&table, "NumFrames").is_some());
    assert!(find_property(&table, "Missing").is_none());
}

#[test]
fn roster_and_team_size() {
    assert_eq!(names(&header_roster(&full_table())).len(), 4);
    assert!(header_roster(&vec![]).is_empty());
    let roster = |teams: &[i64]| -> Vec<RosterEntry> {
        teams.iter().map(|t| RosterEntry { name: "n".to_string(), team: *t }).collect()
    };
    assert_eq!(team_size_of(&roster(&[])), 0);
    assert_eq!(team_size_of(&roster(&[0])), 1);
    assert_eq!(team_size_of(&roster(&[0, 1, 0, 1, 1])), 3);
    assert_eq!(team_size_of(&roster(&[5, 5, 5, -1])), 3);
    assert_eq!(team_size_of(&roster(&[0, 1, 2, 3])), 1);
}

#[test]
fn degraded_summary_has_two_placeholder_players() {
    let s = degraded_summary("bad header", true);
    assert_eq!(s.playlist_id, "unknown");
    assert_eq!(s.map_name, "unknown");
    assert_eq!(s.team_size, 1);
    assert_eq!(s.team0_score, 0);
    assert_eq!(s.team1_score, 0);
    assert_eq!(s.num_frames, 0);
    assert_eq!(
        names(&s.players),
        vec![("Unknown Player 1".to_string(), 0), ("Unknown Player 2".to_string(), 1)]
    );
    assert_eq!(s.engine_build, None);
    assert!(s.goals.is_empty());
    assert!(s.highlights.is_empty());
    assert_eq!(
        s.quality_warnings,
        vec!["parsed_with_rust_core", "boxcars_parse_error: bad header"]
    );
    let s = degraded_summary("", false);
    assert_eq!(
        s.quality_warnings,
        vec!["parsed_with_rust_core", "boxcars_parse_error: ", "rust_core_suspect_format"]
    );
}

#[test]
fn marks_of_a_recording_are_found_in_the_first_bytes_only() {
    assert!(!looks_like_replay_header(b""));
    assert!(!looks_like_replay_header(b"TAGame.Replay"));
    assert!(looks_like_replay_header(b"TAGame.Replay_"));
    assert!(looks_like_replay_header(b"xxTAGame.Replay_Soccar_TAxx"));
    assert!(looks_like_replay_header(b"\x00\x00\x00\x00\x08\x00\x00\x00TAGame"));
    assert!(!looks_like_replay_header(b"\x00\x00\x00\x00\x07\x00\x00\x00TAGame"));
    assert!(!looks_like_replay_header(b"tagame.replay_"));
    let mark = b"TAGame.Replay_";
    let mut bytes = vec![0u8; 4096];
    bytes[2048 - mark.len()..2048].copy_from_slice(mark);
    assert!(looks_like_replay_header(&bytes));
    let mut bytes = vec![0u8; 4096];
    bytes[2049 - mark.len()..2049].copy_from_slice(mark);
    assert!(!looks_like_replay_header(&bytes));
    let mut bytes = vec![0u8; 2048];
    bytes[2048 - mark.len()..].copy_from_slice(mark);
    assert!(looks_like_replay_header(&bytes));
}

#[test]
fn a_short_file_is_refused() {
    assert!(matches!(check_length(&[0u8; 99]), Err(ReplayError::TooShort)));
    assert!(check_length(&[0u8; 100]).is_ok());
    assert!(matches!(check_length(&[]), Err(ReplayError::TooShort)));
    let decoded = Ok(full_table());
    assert!(matches!(parse_header(&[0u8; 99], &decoded), Err(ReplayError::TooShort)));
    let failed: Result<Vec<HeaderProperty>, String> = Err("boom".to_string());
    assert!(matches!(parse_header(&[0u8; 99], &failed), Err(ReplayError::TooShort)));
}

#[test]
fn parse_header_goes_by_what_the_decoder_made() {
    let decoded = Ok(full_table());
    let s = parse_header(&[0u8; 100], &decoded).unwrap();
    assert_eq!(s.map_name, "Stadium_P");
    assert_eq!(s.team_size, 2);
    let failed: Result<Vec<HeaderProperty>, String> = Err("boom".to_string());
    let s = parse_header(&[0u8; 100], &failed).unwrap();
    assert_eq!(
        s.quality_warnings,
        vec!["parsed_with_rust_core", "boxcars_parse_error: boom", "rust_core_suspect_format"]
    );
    assert_eq!(s.players.len(), 2);
    let mut bytes = vec![0u8; 200];
    bytes[50..64].copy_from_slice(b"TAGame.Replay_");
    let s = parse_header(&bytes, &failed).unwrap();
    assert_eq!(s.quality_warnings, vec!["parsed_with_rust_core", "boxcars_parse_error: boom"]);
}

#[test]
fn errors_in_words() {
    assert_eq!(ReplayError::TooShort.message(), "File too short to be a valid replay");
    assert_eq!(
        ReplayError::NetworkDecode("eof".to_string()).message(),
        "Failed to parse network frames: eof"
    );
}
