//! The summary of a recording's header: map, scores, roster, goals and
//! highlights, read off its decoded property table.

use crate::slots::RosterEntry;
use crate::text::same_text;
use vstd::prelude::*;
use vstd::string::StringExecFns;

verus! {

/// A file shorter than this many bytes cannot be a recording.
pub const MIN_REPLAY_LEN: usize = 100;

/// How many bytes at the start of a file are searched for the marks of a recording.
pub const HEADER_SCAN_LEN: usize = 2048;

/// A header value as far as the summary reads it: a text, a 32-bit
/// integer, or anything else.
#[derive(Clone, Debug)]
pub enum HeaderScalar {
    Text(String),
    Int(i32),
    Other,
}

/// One named value of a row of a header array.
#[derive(Clone, Debug)]
pub struct HeaderPair {
    pub key: String,
    pub value: HeaderScalar,
}

/// The value of a header property: a single value, or an array of rows.
#[derive(Clone, Debug)]
pub enum HeaderValue {
    Scalar(HeaderScalar),
    Array(Vec<Vec<HeaderPair>>),
}

/// One property of the header.
#[derive(Clone, Debug)]
pub struct HeaderProperty {
    pub key: String,
    pub value: HeaderValue,
}

/// One goal as the header lists it.
#[derive(Clone, Debug)]
pub struct GoalEvent {
    pub frame: Option<i64>,
    pub player_name: Option<String>,
    pub player_team: Option<i64>,
}

/// One highlight as the header lists it.
#[derive(Clone, Debug)]
pub struct Highlight {
    pub frame: Option<i64>,
    pub ball_name: Option<String>,
    pub car_name: Option<String>,
}

/// What the header says of a match.
#[derive(Clone, Debug)]
pub struct HeaderSummary {
    pub playlist_id: String,
    pub map_name: String,
    pub team_size: usize,
    pub team0_score: i64,
    pub team1_score: i64,
    pub num_frames: i32,
    pub players: Vec<RosterEntry>,
    pub engine_build: Option<String>,
    pub goals: Vec<GoalEvent>,
    pub highlights: Vec<Highlight>,
    pub quality_warnings: Vec<String>,
}

/// Why a recording could not be processed at all.
#[derive(Clone, Debug)]
pub enum ReplayError {
    /// The file is too short to be a recording.
    TooShort,
    /// The frames could not be decoded; the text says why.
    NetworkDecode(String),
}

/// A `HeaderScalar` with its text as characters.
pub enum ScalarView {
    Text(Seq<char>),
    Int(i32),
    Other,
}

/// A `HeaderPair` with its texts as characters.
pub struct PairView {
    pub key: Seq<char>,
    pub value: ScalarView,
}

/// A `HeaderValue` with its texts as characters.
pub enum ValueView {
    Scalar(ScalarView),
    Array(Seq<Seq<PairView>>),
}

/// A `HeaderProperty` with its texts as characters.
pub struct PropertyView {
    pub key: Seq<char>,
    pub value: ValueView,
}

/// A declared player with the name as characters.
pub struct PlayerView {
    pub name: Seq<char>,
    pub team: i64,
}

/// A `GoalEvent` with its texts as characters.
pub struct GoalView {
    pub frame: Option<i64>,
    pub player_name: Option<Seq<char>>,
    pub player_team: Option<i64>,
}

/// A `Highlight` with its texts as characters.
pub struct HighlightView {
    pub frame: Option<i64>,
    pub ball_name: Option<Seq<char>>,
    pub car_name: Option<Seq<char>>,
}

/// A `HeaderSummary` with its texts as characters.
pub struct SummaryView {
    pub playlist_id: Seq<char>,
    pub map_name: Seq<char>,
    pub team_size: usize,
    pub team0_score: i64,
    pub team1_score: i64,
    pub num_frames: i32,
    pub players: Seq<PlayerView>,
    pub engine_build: Option<Seq<char>>,
    pub goals: Seq<GoalView>,
    pub highlights: Seq<HighlightView>,
    pub quality_warnings: Seq<Seq<char>>,
}

impl View for HeaderScalar {
    type V = ScalarView;

    open spec fn view(&self) -> ScalarView {
        match self {
            HeaderScalar::Text(s) => ScalarView::Text(s@),
            HeaderScalar::Int(i) => ScalarView::Int(*i),
            HeaderScalar::Other => ScalarView::Other,
        }
    }
}

impl View for HeaderPair {
    type V = PairView;

    open spec fn view(&self) -> PairView {
        PairView { key: self.key@, value: self.value@ }
    }
}

/// The views of the pairs of a row.
pub open spec fn row_view(row: Seq<HeaderPair>) -> Seq<PairView> {
    Seq::new(row.len(), |i: int| row[i]@)
}

/// The views of the rows of an array.
pub open spec fn rows_view(rows: Seq<Vec<HeaderPair>>) -> Seq<Seq<PairView>> {
    Seq::new(rows.len(), |i: int| row_view(rows[i]@))
}

impl View for HeaderValue {
    type V = ValueView;

    open spec fn view(&self) -> ValueView {
        match self {
            HeaderValue::Scalar(s) => ValueView::Scalar(s@),
            HeaderValue::Array(rows) => ValueView::Array(rows_view(rows@)),
        }
    }
}

impl View for HeaderProperty {
    type V = PropertyView;

    open spec fn view(&self) -> PropertyView {
        PropertyView { key: self.key@, value: self.value@ }
    }
}

/// The views of a property table.
pub open spec fn table_view(props: Seq<HeaderProperty>) -> Seq<PropertyView> {
    Seq::new(props.len(), |i: int| props[i]@)
}

/// The view of an optional text.
pub open spec fn text_view(text: Option<String>) -> Option<Seq<char>> {
    match text {
        Some(s) => Some(s@),
        None => None,
    }
}

/// The views of a list of texts.
pub open spec fn texts_view(texts: Seq<String>) -> Seq<Seq<char>> {
    Seq::new(texts.len(), |i: int| texts[i]@)
}

/// The views of a list of players.
pub open spec fn players_view(players: Seq<RosterEntry>) -> Seq<PlayerView> {
    Seq::new(players.len(), |i: int| PlayerView { name: players[i].name@, team: players[i].team })
}

impl View for GoalEvent {
    type V = GoalView;

    open spec fn view(&self) -> GoalView {
        GoalView {
            frame: self.frame,
            player_name: text_view(self.player_name),
            player_team: self.player_team,
        }
    }
}

impl View for Highlight {
    type V = HighlightView;

    open spec fn view(&self) -> HighlightView {
        HighlightView {
            frame: self.frame,
            ball_name: text_view(self.ball_name),
            car_name: text_view(self.car_name),
        }
    }
}

/// The views of a list of goals.
pub open spec fn goals_view(goals: Seq<GoalEvent>) -> Seq<GoalView> {
    Seq::new(goals.len(), |i: int| goals[i]@)
}

/// The views of a list of highlights.
pub open spec fn highlights_view(highlights: Seq<Highlight>) -> Seq<HighlightView> {
    Seq::new(highlights.len(), |i: int| highlights[i]@)
}

impl View for HeaderSummary {
    type V = SummaryView;

    open spec fn view(&self) -> SummaryView {
        SummaryView {
            playlist_id: self.playlist_id@,
            map_name: self.map_name@,
            team_size: self.team_size,
            team0_score: self.team0_score,
            team1_score: self.team1_score,
            num_frames: self.num_frames,
            players: players_view(self.players@),
            engine_build: text_view(self.engine_build),
            goals: goals_view(self.goals@),
            highlights: highlights_view(self.highlights@),
            quality_warnings: texts_view(self.quality_warnings@),
        }
    }
}

/// `needle` stands in `hay` at position `at`.
pub open spec fn bytes_occur_at(hay: Seq<u8>, needle: Seq<u8>, at: int) -> bool {
    &&& 0 <= at
    &&& at + needle.len() <= hay.len()
    &&& forall|j: int| 0 <= j < needle.len() ==> hay[at + j] == #[trigger] needle[j]
}

/// `needle` stands somewhere in `hay`.
pub open spec fn contains_bytes(hay: Seq<u8>, needle: Seq<u8>) -> bool {
    exists|at: int| bytes_occur_at(hay, needle, at)
}

/// The bytes of `TAGame.Replay_Soccar_TA`.
pub open spec fn soccar_mark() -> Seq<u8> {
    seq![
        0x54u8, 0x41, 0x47, 0x61, 0x6d, 0x65, 0x2e, 0x52, 0x65, 0x70, 0x6c, 0x61, 0x79, 0x5f,
        0x53, 0x6f, 0x63, 0x63, 0x61, 0x72, 0x5f, 0x54, 0x41,
    ]
}

/// The bytes of `TAGame.Replay_`.
pub open spec fn replay_mark() -> Seq<u8> {
    seq![0x54u8, 0x41, 0x47, 0x61, 0x6d, 0x65, 0x2e, 0x52, 0x65, 0x70, 0x6c, 0x61, 0x79, 0x5f]
}

/// Four zero bytes, the length 8 as four bytes, and the bytes of `TAGame`.
pub open spec fn length_mark() -> Seq<u8> {
    seq![0x00u8, 0x00, 0x00, 0x00, 0x08, 0x00, 0x00, 0x00, 0x54, 0x41, 0x47, 0x61, 0x6d, 0x65]
}

/// The part of a file that is searched for the marks of a recording.
pub open spec fn scanned_head(bytes: Seq<u8>) -> Seq<u8> {
    if bytes.len() > 2048 {
        bytes.take(2048)
    } else {
        bytes
    }
}

/// The start of the file holds one of the marks of a recording.
pub open spec fn looks_like_header(bytes: Seq<u8>) -> bool {
    ||| contains_bytes(scanned_head(bytes), soccar_mark())
    ||| contains_bytes(scanned_head(bytes), replay_mark())
    ||| contains_bytes(scanned_head(bytes), length_mark())
}

/// Tests whether `needle` stands at position `at` in the first `limit` bytes of `hay`.
fn head_matches_at(hay: &[u8], limit: usize, needle: &Vec<u8>, at: usize) -> (r: bool)
    requires
        limit <= hay@.len(),
        at + needle@.len() <= limit,
    ensures
        r == bytes_occur_at(hay@.take(limit as int), needle@, at as int),
{
    let ghost head = hay@.take(limit as int);
    let mut j: usize = 0;
    while j < needle.len()
        invariant
            limit <= hay@.len(),
            head == hay@.take(limit as int),
            at + needle@.len() <= limit,
            j <= needle@.len(),
            forall|k: int| 0 <= k < j ==> head[at + k] == #[trigger] needle@[k],
        decreases needle.len() - j,
    {
        if hay[at + j] != needle[j] {
            assert(head[at + j] != needle@[j as int]);
            return false;
        }
        j += 1;
    }
    true
}

/// Tests whether `needle` stands somewhere in the first `limit` bytes of `hay`.
fn head_contains(hay: &[u8], limit: usize, needle: &Vec<u8>) -> (r: bool)
    requires
        limit <= hay@.len(),
    ensures
        r == contains_bytes(hay@.take(limit as int), needle@),
{
    if needle.len() > limit {
        return false;
    }
    let ghost head = hay@.take(limit as int);
    let last: usize = limit - needle.len();
    let mut at: usize = 0;
    while at <= last
        invariant
            limit <= hay@.len(),
            head == hay@.take(limit as int),
            last == limit - needle@.len(),
            at <= last + 1,
            forall|k: int| 0 <= k < at ==> !bytes_occur_at(head, needle@, k),
        decreases last + 1 - at,
    {
        if head_matches_at(hay, limit, needle, at) {
            return true;
        }
        at += 1;
    }
    false
}

/// Tests whether the first bytes of a file hold one of the marks of a recording.
pub fn looks_like_replay_header(bytes: &[u8]) -> (r: bool)
    ensures
        r == looks_like_header(bytes@),
{
    let limit: usize = if bytes.len() > HEADER_SCAN_LEN {
        HEADER_SCAN_LEN
    } else {
        bytes.len()
    };
    assert(bytes@.take(bytes@.len() as int) =~= bytes@);
    let soccar: Vec<u8> = vec![
        0x54u8, 0x41, 0x47, 0x61, 0x6d, 0x65, 0x2e, 0x52, 0x65, 0x70, 0x6c, 0x61, 0x79, 0x5f,
        0x53, 0x6f, 0x63, 0x63, 0x61, 0x72, 0x5f, 0x54, 0x41,
    ];
    let replay: Vec<u8> = vec![
        0x54u8, 0x41, 0x47, 0x61, 0x6d, 0x65, 0x2e, 0x52, 0x65, 0x70, 0x6c, 0x61, 0x79, 0x5f,
    ];
    let length: Vec<u8> = vec![
        0x00u8, 0x00, 0x00, 0x00, 0x08, 0x00, 0x00, 0x00, 0x54, 0x41, 0x47, 0x61, 0x6d, 0x65,
    ];
    assert(soccar@ =~= soccar_mark());
    assert(replay@ =~= replay_mark());
    assert(length@ =~= length_mark());
    head_contains(bytes, limit, &soccar) || head_contains(bytes, limit, &replay) || head_contains(
        bytes,
        limit,
        &length,
    )
}

/// Tests whether a file is long enough to be a recording.
pub fn check_length(bytes: &[u8]) -> (r: Result<(), ReplayError>)
    ensures
        bytes@.len() < 100 ==> r == Err::<(), ReplayError>(ReplayError::TooShort),
        bytes@.len() >= 100 ==> r is Ok,
{
    if bytes.len() < MIN_REPLAY_LEN {
        Err(ReplayError::TooShort)
    } else {
        Ok(())
    }
}

/// The value of the first property named `key` from place `from` on.
pub open spec fn find_value(props: Seq<PropertyView>, key: Seq<char>, from: int) -> Option<
    ValueView,
>
    decreases props.len() - from,
{
    if from < 0 || from >= props.len() {
        None
    } else if props[from].key == key {
        Some(props[from].value)
    } else {
        find_value(props, key, from + 1)
    }
}

/// The text of the first property named `key`, if that property is a text.
pub open spec fn top_text(props: Seq<PropertyView>, key: Seq<char>) -> Option<Seq<char>> {
    match find_value(props, key, 0) {
        Some(ValueView::Scalar(ScalarView::Text(s))) => Some(s),
        _ => None,
    }
}

/// The integer of the first property named `key`, if that property is an integer.
pub open spec fn top_int(props: Seq<PropertyView>, key: Seq<char>) -> Option<i32> {
    match find_value(props, key, 0) {
        Some(ValueView::Scalar(ScalarView::Int(i))) => Some(i),
        _ => None,
    }
}

/// The rows of the first property named `key`, none if that property is no array.
pub open spec fn top_rows(props: Seq<PropertyView>, key: Seq<char>) -> Seq<Seq<PairView>> {
    match find_value(props, key, 0) {
        Some(ValueView::Array(rows)) => rows,
        _ => Seq::empty(),
    }
}

/// The text of the last among the first `n` pairs of `row` that is named
/// `key` or `alias` and holds a text.
pub open spec fn row_text(row: Seq<PairView>, key: Seq<char>, alias: Seq<char>, n: int) -> Option<
    Seq<char>,
>
    decreases n,
{
    if n <= 0 {
        None
    } else {
        match row[n - 1].value {
            ScalarView::Text(s) => if row[n - 1].key == key || row[n - 1].key == alias {
                Some(s)
            } else {
                row_text(row, key, alias, n - 1)
            },
            _ => row_text(row, key, alias, n - 1),
        }
    }
}

/// The integer of the last among the first `n` pairs of `row` that is named
/// `key` or `alias` and holds an integer.
pub open spec fn row_int(row: Seq<PairView>, key: Seq<char>, alias: Seq<char>, n: int) -> Option<
    i64,
>
    decreases n,
{
    if n <= 0 {
        None
    } else {
        match row[n - 1].value {
            ScalarView::Int(i) => if row[n - 1].key == key || row[n - 1].key == alias {
                Some(i as i64)
            } else {
                row_int(row, key, alias, n - 1)
            },
            _ => row_int(row, key, alias, n - 1),
        }
    }
}

/// The name that a row of player statistics gives.
pub open spec fn player_name_of(row: Seq<PairView>) -> Option<Seq<char>> {
    row_text(row, "Name"@, "PlayerName"@, row.len() as int)
}

/// The team that a row of player statistics gives, 0 where it gives none.
pub open spec fn player_team_of(row: Seq<PairView>) -> i64 {
    match row_int(row, "Team"@, "PlayerTeam"@, row.len() as int) {
        Some(team) => team,
        None => 0,
    }
}

/// The players that the first `n` rows of player statistics declare: one
/// for each row that gives a name.
pub open spec fn players_of(rows: Seq<Seq<PairView>>, n: int) -> Seq<PlayerView>
    decreases n,
{
    if n <= 0 {
        Seq::empty()
    } else {
        let before = players_of(rows, n - 1);
        match player_name_of(rows[n - 1]) {
            Some(name) => before.push(PlayerView { name, team: player_team_of(rows[n - 1]) }),
            None => before,
        }
    }
}

/// The goal that a row of the goal list gives.
pub open spec fn goal_of(row: Seq<PairView>) -> GoalView {
    GoalView {
        frame: row_int(row, "frame"@, "frame"@, row.len() as int),
        player_name: row_text(row, "PlayerName"@, "PlayerName"@, row.len() as int),
        player_team: row_int(row, "PlayerTeam"@, "PlayerTeam"@, row.len() as int),
    }
}

/// The highlight that a row of the highlight list gives.
pub open spec fn highlight_of(row: Seq<PairView>) -> HighlightView {
    HighlightView {
        frame: row_int(row, "frame"@, "frame"@, row.len() as int),
        ball_name: row_text(row, "BallName"@, "Ball"@, row.len() as int),
        car_name: row_text(row, "CarName"@, "Car"@, row.len() as int),
    }
}

/// How many of the first `n` players are on `team`.
pub open spec fn count_team(players: Seq<PlayerView>, team: i64, n: int) -> int
    decreases n,
{
    if n <= 0 {
        0
    } else {
        count_team(players, team, n - 1) + if players[n - 1].team == team {
            1int
        } else {
            0int
        }
    }
}

/// The size of the largest among the teams of the first `n` players.
pub open spec fn largest_team(players: Seq<PlayerView>, n: int) -> int
    decreases n,
{
    if n <= 0 {
        0
    } else {
        let before = largest_team(players, n - 1);
        let here = count_team(players, players[n - 1].team, players.len() as int);
        if here > before {
            here
        } else {
            before
        }
    }
}

/// The warnings of a header that was decoded: the mark of the decoder, the
/// build where the header names one, and a note where it declares no player.
pub open spec fn warnings_of(build: Option<Seq<char>>, no_players: bool) -> Seq<Seq<char>> {
    seq!["parsed_with_rust_core"@] + match build {
        Some(b) => seq!["build_version:"@ + b],
        None => Seq::empty(),
    } + if no_players {
        seq!["boxcars_no_playerstats"@]
    } else {
        Seq::empty()
    }
}

/// What a decoded property table says of the match.
pub open spec fn summary_of(props: Seq<PropertyView>) -> SummaryView {
    let stats = top_rows(props, "PlayerStats"@);
    let players = players_of(stats, stats.len() as int);
    let goals = top_rows(props, "Goals"@);
    let highlights = top_rows(props, "HighLights"@);
    SummaryView {
        playlist_id: match top_text(props, "PlaylistID"@) {
            Some(s) => s,
            None => "unknown"@,
        },
        map_name: match top_text(props, "MapName"@) {
            Some(s) => s,
            None => "unknown"@,
        },
        team_size: largest_team(players, players.len() as int) as usize,
        team0_score: match top_int(props, "Team0Score"@) {
            Some(i) => i as i64,
            None => 0,
        },
        team1_score: match top_int(props, "Team1Score"@) {
            Some(i) => i as i64,
            None => 0,
        },
        num_frames: match top_int(props, "NumFrames"@) {
            Some(i) => i,
            None => 0,
        },
        players,
        engine_build: top_text(props, "BuildVersion"@),
        goals: Seq::new(goals.len(), |i: int| goal_of(goals[i])),
        highlights: Seq::new(highlights.len(), |i: int| highlight_of(highlights[i])),
        quality_warnings: warnings_of(top_text(props, "BuildVersion"@), players.len() == 0),
    }
}

/// The summary that stands in for a header that could not be decoded: two
/// placeholder players, one on each team, and warnings that say what
/// failed and whether the file looks like a recording at all.
pub open spec fn degraded_of(error_text: Seq<char>, looks_like: bool) -> SummaryView {
    SummaryView {
        playlist_id: "unknown"@,
        map_name: "unknown"@,
        team_size: 1,
        team0_score: 0,
        team1_score: 0,
        num_frames: 0,
        players: seq![
            PlayerView { name: "Unknown Player 1"@, team: 0 },
            PlayerView { name: "Unknown Player 2"@, team: 1 },
        ],
        engine_build: None,
        goals: Seq::empty(),
        highlights: Seq::empty(),
        quality_warnings: seq!["parsed_with_rust_core"@, "boxcars_parse_error: "@ + error_text]
            + if looks_like {
            Seq::empty()
        } else {
            seq!["rust_core_suspect_format"@]
        },
    }
}

/// The outcome of the decoder with its texts as characters.
pub open spec fn decoded_view(decoded: Result<Vec<HeaderProperty>, String>) -> Result<
    Seq<PropertyView>,
    Seq<char>,
> {
    match decoded {
        Ok(props) => Ok(table_view(props@)),
        Err(text) => Err(text@),
    }
}

/// The summary of a file of at least the least length, by the outcome of the decoder.
pub open spec fn header_of(bytes: Seq<u8>, decoded: Result<Seq<PropertyView>, Seq<char>>)
    -> SummaryView {
    match decoded {
        Ok(props) => summary_of(props),
        Err(text) => degraded_of(text, looks_like_header(bytes)),
    }
}

/// No team has more players than there are.
pub proof fn lemma_count_team_bounded(players: Seq<PlayerView>, team: i64, n: int)
    requires
        0 <= n <= players.len(),
    ensures
        0 <= count_team(players, team, n) <= n,
    decreases n,
{
    if n > 0 {
        lemma_count_team_bounded(players, team, n - 1);
    }
}

/// The largest team has at most as many players as there are, and at
/// least one where there is a player.
pub proof fn lemma_largest_team_bounded(players: Seq<PlayerView>, n: int)
    requires
        0 <= n <= players.len(),
    ensures
        0 <= largest_team(players, n) <= players.len(),
        n > 0 ==> largest_team(players, n) >= 1,
    decreases n,
{
    if n > 0 {
        lemma_largest_team_bounded(players, n - 1);
        lemma_count_team_bounded(players, players[n - 1].team, players.len() as int);
        lemma_count_team_counts(players, n - 1, players.len() as int);
    }
}

/// A player counts for the team it is on.
pub proof fn lemma_count_team_counts(players: Seq<PlayerView>, i: int, n: int)
    requires
        0 <= i < n <= players.len(),
    ensures
        count_team(players, players[i].team, n) >= 1,
    decreases n,
{
    if i < n - 1 {
        lemma_count_team_counts(players, i, n - 1);
    } else {
        lemma_count_team_bounded(players, players[i].team, n - 1);
    }
}

/// The first property named `key`, if there is one.
pub fn find_property<'a>(props: &'a Vec<HeaderProperty>, key: &str) -> (found: Option<
    &'a HeaderValue,
>)
    ensures
        match found {
            Some(value) => find_value(table_view(props@), key@, 0) == Some(value@),
            None => find_value(table_view(props@), key@, 0) is None,
        },
{
    let mut i: usize = 0;
    while i < props.len()
        invariant
            i <= props@.len(),
            find_value(table_view(props@), key@, i as int) == find_value(
                table_view(props@),
                key@,
                0,
            ),
        decreases props.len() - i,
    {
        if same_text(props[i].key.as_str(), key) {
            return Some(&props[i].value);
        }
        i += 1;
    }
    None
}

/// The text of the first property named `key`, if that property is a text.
pub fn property_text(props: &Vec<HeaderProperty>, key: &str) -> (text: Option<String>)
    ensures
        text_view(text) == top_text(table_view(props@), key@),
{
    match find_property(props, key) {
        Some(HeaderValue::Scalar(HeaderScalar::Text(s))) => Some(s.clone()),
        _ => None,
    }
}

/// The integer of the first property named `key`, if that property is an integer.
pub fn property_int(props: &Vec<HeaderProperty>, key: &str) -> (value: Option<i32>)
    ensures
        value == top_int(table_view(props@), key@),
{
    match find_property(props, key) {
        Some(HeaderValue::Scalar(HeaderScalar::Int(i))) => Some(*i),
        _ => None,
    }
}

/// The text of the last pair of `row` that is named `key` or `alias` and holds a text.
fn pair_text(row: &Vec<HeaderPair>, key: &str, alias: &str) -> (text: Option<String>)
    ensures
        text_view(text) == row_text(row_view(row@), key@, alias@, row@.len() as int),
{
    let mut found: Option<String> = None;
    let mut i: usize = 0;
    while i < row.len()
        invariant
            i <= row@.len(),
            text_view(found) == row_text(row_view(row@), key@, alias@, i as int),
        decreases row.len() - i,
    {
        if let HeaderScalar::Text(s) = &row[i].value {
            if same_text(row[i].key.as_str(), key) || same_text(row[i].key.as_str(), alias) {
                found = Some(s.clone());
            }
        }
        i += 1;
    }
    found
}

/// The integer of the last pair of `row` that is named `key` or `alias` and holds an integer.
fn pair_int(row: &Vec<HeaderPair>, key: &str, alias: &str) -> (value: Option<i64>)
    ensures
        value == row_int(row_view(row@), key@, alias@, row@.len() as int),
{
    let mut found: Option<i64> = None;
    let mut i: usize = 0;
    while i < row.len()
        invariant
            i <= row@.len(),
            found == row_int(row_view(row@), key@, alias@, i as int),
        decreases row.len() - i,
    {
        if let HeaderScalar::Int(value) = &row[i].value {
            if same_text(row[i].key.as_str(), key) || same_text(row[i].key.as_str(), alias) {
                found = Some(*value as i64);
            }
        }
        i += 1;
    }
    found
}

/// The players that the rows of player statistics declare.
fn collect_players(rows: &Vec<Vec<HeaderPair>>) -> (players: Vec<RosterEntry>)
    ensures
        players_view(players@) == players_of(rows_view(rows@), rows@.len() as int),
{
    let mut players: Vec<RosterEntry> = Vec::new();
    let mut i: usize = 0;
    assert(players_view(players@) =~= Seq::empty());
    while i < rows.len()
        invariant
            i <= rows@.len(),
            players_view(players@) == players_of(rows_view(rows@), i as int),
        decreases rows.len() - i,
    {
        let name = pair_text(&rows[i], "Name", "PlayerName");
        if let Some(name) = name {
            let team = match pair_int(&rows[i], "Team", "PlayerTeam") {
                Some(team) => team,
                None => 0,
            };
            let entry = RosterEntry { name, team };
            assert(players_view(players@.push(entry)) =~= players_view(players@).push(
                PlayerView { name: entry.name@, team: entry.team },
            ));
            players.push(entry);
        }
        i += 1;
    }
    players
}

/// The goals that the rows of the goal list give.
fn collect_goals(rows: &Vec<Vec<HeaderPair>>) -> (goals: Vec<GoalEvent>)
    ensures
        goals_view(goals@) == Seq::new(rows@.len(), |i: int| goal_of(rows_view(rows@)[i])),
{
    let mut goals: Vec<GoalEvent> = Vec::new();
    let mut i: usize = 0;
    while i < rows.len()
        invariant
            i <= rows@.len(),
            goals@.len() == i,
            forall|k: int| 0 <= k < i ==> (#[trigger] goals@[k])@ == goal_of(rows_view(rows@)[k]),
        decreases rows.len() - i,
    {
        let goal = GoalEvent {
            frame: pair_int(&rows[i], "frame", "frame"),
            player_name: pair_text(&rows[i], "PlayerName", "PlayerName"),
            player_team: pair_int(&rows[i], "PlayerTeam", "PlayerTeam"),
        };
        goals.push(goal);
        i += 1;
    }
    assert(goals_view(goals@) =~= Seq::new(rows@.len(), |i: int| goal_of(rows_view(rows@)[i])));
    goals
}

/// The highlights that the rows of the highlight list give.
fn collect_highlights(rows: &Vec<Vec<HeaderPair>>) -> (highlights: Vec<Highlight>)
    ensures
        highlights_view(highlights@) == Seq::new(
            rows@.len(),
            |i: int| highlight_of(rows_view(rows@)[i]),
        ),
{
    let mut highlights: Vec<Highlight> = Vec::new();
    let mut i: usize = 0;
    while i < rows.len()
        invariant
            i <= rows@.len(),
            highlights@.len() == i,
            forall|k: int|
                0 <= k < i ==> (#[trigger] highlights@[k])@ == highlight_of(rows_view(rows@)[k]),
        decreases rows.len() - i,
    {
        let highlight = Highlight {
            frame: pair_int(&rows[i], "frame", "frame"),
            ball_name: pair_text(&rows[i], "BallName", "Ball"),
            car_name: pair_text(&rows[i], "CarName", "Car"),
        };
        highlights.push(highlight);
        i += 1;
    }
    assert(highlights_view(highlights@) =~= Seq::new(
        rows@.len(),
        |i: int| highlight_of(rows_view(rows@)[i]),
    ));
    highlights
}

/// How many of `players` are on `team`.
fn team_count(players: &Vec<RosterEntry>, team: i64) -> (count: usize)
    ensures
        count == count_team(players_view(players@), team, players@.len() as int),
{
    let mut count: usize = 0;
    let mut i: usize = 0;
    while i < players.len()
        invariant
            i <= players@.len(),
            count <= i,
            count == count_team(players_view(players@), team, i as int),
        decreases players.len() - i,
    {
        if players[i].team == team {
            count += 1;
        }
        i += 1;
    }
    count
}

/// The size of the largest team among `players`, 0 where there is no player.
pub fn team_size_of(players: &Vec<RosterEntry>) -> (size: usize)
    ensures
        size == largest_team(players_view(players@), players@.len() as int),
        size <= players@.len(),
        players@.len() > 0 ==> size >= 1,
{
    proof {
        lemma_largest_team_bounded(players_view(players@), players@.len() as int);
    }
    let mut size: usize = 0;
    let mut i: usize = 0;
    while i < players.len()
        invariant
            i <= players@.len(),
            size == largest_team(players_view(players@), i as int),
        decreases players.len() - i,
    {
        let here = team_count(players, players[i].team);
        if here > size {
            size = here;
        }
        i += 1;
    }
    size
}

/// The rows of the first property named `key`, as the summary reads them.
fn rows_of<'a>(props: &'a Vec<HeaderProperty>, key: &str) -> (rows: Option<
    &'a Vec<Vec<HeaderPair>>,
>)
    ensures
        match rows {
            Some(r) => top_rows(table_view(props@), key@) == rows_view(r@),
            None => top_rows(table_view(props@), key@) == Seq::<Seq<PairView>>::empty(),
        },
{
    match find_property(props, key) {
        Some(HeaderValue::Array(rows)) => Some(rows),
        _ => None,
    }
}

/// The players that a decoded property table declares, in its order.
pub fn header_roster(props: &Vec<HeaderProperty>) -> (players: Vec<RosterEntry>)
    ensures
        players_view(players@) == summary_of(table_view(props@)).players,
{
    match rows_of(props, "PlayerStats") {
        Some(rows) => collect_players(rows),
        None => {
            let none: Vec<RosterEntry> = Vec::new();
            assert(players_view(none@) =~= Seq::empty());
            none
        },
    }
}

/// Reads the summary of the match off a decoded property table.
pub fn summarize_header(props: &Vec<HeaderProperty>) -> (summary: HeaderSummary)
    ensures
        summary@ == summary_of(table_view(props@)),
{
    let players = header_roster(props);
    let goals = match rows_of(props, "Goals") {
        Some(rows) => collect_goals(rows),
        None => {
            let none: Vec<GoalEvent> = Vec::new();
            assert(goals_view(none@) =~= Seq::new(0, |i: int| goal_of(Seq::empty())));
            none
        },
    };
    let highlights = match rows_of(props, "HighLights") {
        Some(rows) => collect_highlights(rows),
        None => {
            let none: Vec<Highlight> = Vec::new();
            assert(highlights_view(none@) =~= Seq::new(0, |i: int| highlight_of(Seq::empty())));
            none
        },
    };
    let engine_build = property_text(props, "BuildVersion");
    let mut quality_warnings: Vec<String> = Vec::new();
    quality_warnings.push("parsed_with_rust_core".to_owned());
    if let Some(build) = &engine_build {
        quality_warnings.push("build_version:".to_owned().concat(build.as_str()));
    }
    if players.len() == 0 {
        quality_warnings.push("boxcars_no_playerstats".to_owned());
    }
    proof {
        assert(texts_view(quality_warnings@) =~= warnings_of(
            text_view(engine_build),
            players@.len() == 0,
        ));
        assert(players_view(players@).len() == players@.len());
        let table = table_view(props@);
        let stats = top_rows(table, "PlayerStats"@);
        assert(goals_view(goals@) =~= summary_of(table).goals);
        assert(highlights_view(highlights@) =~= summary_of(table).highlights);
    }
    HeaderSummary {
        playlist_id: match property_text(props, "PlaylistID") {
            Some(s) => s,
            None => "unknown".to_owned(),
        },
        map_name: match property_text(props, "MapName") {
            Some(s) => s,
            None => "unknown".to_owned(),
        },
        team_size: team_size_of(&players),
        team0_score: match property_int(props, "Team0Score") {
            Some(i) => i as i64,
            None => 0,
        },
        team1_score: match property_int(props, "Team1Score") {
            Some(i) => i as i64,
            None => 0,
        },
        num_frames: match property_int(props, "NumFrames") {
            Some(i) => i,
            None => 0,
        },
        players,
        engine_build,
        goals,
        highlights,
        quality_warnings,
    }
}

/// The summary that stands in for a header that could not be decoded.
/// `error_text` says what the decoder reported, `looks_like` whether the
/// file holds one of the marks of a recording.
pub fn degraded_summary(error_text: &str, looks_like: bool) -> (summary: HeaderSummary)
    ensures
        summary@ == degraded_of(error_text@, looks_like),
{
    let mut quality_warnings: Vec<String> = Vec::new();
    quality_warnings.push("parsed_with_rust_core".to_owned());
    quality_warnings.push("boxcars_parse_error: ".to_owned().concat(error_text));
    if !looks_like {
        quality_warnings.push("rust_core_suspect_format".to_owned());
    }
    let mut players: Vec<RosterEntry> = Vec::new();
    players.push(RosterEntry { name: "Unknown Player 1".to_owned(), team: 0 });
    players.push(RosterEntry { name: "Unknown Player 2".to_owned(), team: 1 });
    let goals: Vec<GoalEvent> = Vec::new();
    let highlights: Vec<Highlight> = Vec::new();
    proof {
        assert(texts_view(quality_warnings@) =~= degraded_of(
            error_text@,
            looks_like,
        ).quality_warnings);
        assert(players_view(players@) =~= degraded_of(error_text@, looks_like).players);
        assert(goals_view(goals@) =~= Seq::empty());
        assert(highlights_view(highlights@) =~= Seq::empty());
    }
    HeaderSummary {
        playlist_id: "unknown".to_owned(),
        map_name: "unknown".to_owned(),
        team_size: 1,
        team0_score: 0,
        team1_score: 0,
        num_frames: 0,
        players,
        engine_build: None,
        goals,
        highlights,
        quality_warnings,
    }
}

/// The summary of the header of the file `bytes`, of which `decoded` is
/// what the decoder made: the property table, or the text of its error. A
/// file that is too short is refused; a header that could not be decoded
/// gives the degraded summary.
pub fn parse_header(bytes: &[u8], decoded: &Result<Vec<HeaderProperty>, String>) -> (r: Result<
    HeaderSummary,
    ReplayError,
>)
    ensures
        bytes@.len() < 100 ==> r == Err::<HeaderSummary, ReplayError>(ReplayError::TooShort),
        bytes@.len() >= 100 ==> r is Ok && r.unwrap()@ == header_of(bytes@, decoded_view(*decoded)),
{
    if bytes.len() < MIN_REPLAY_LEN {
        return Err(ReplayError::TooShort);
    }
    match decoded {
        Ok(props) => Ok(summarize_header(props)),
        Err(text) => Ok(degraded_summary(text.as_str(), looks_like_replay_header(bytes))),
    }
}

impl ReplayError {
    /// The error in words.
    pub open spec fn message_spec(self) -> Seq<char> {
        match self {
            ReplayError::TooShort => "File too short to be a valid replay"@,
            ReplayError::NetworkDecode(text) => "Failed to parse network frames: "@ + text@,
        }
    }

    /// The error in words.
    pub fn message(&self) -> (text: String)
        ensures
            text@ == self.message_spec(),
    {
        match self {
            ReplayError::TooShort => "File too short to be a valid replay".to_owned(),
            ReplayError::NetworkDecode(text) => {
                "Failed to parse network frames: ".to_owned().concat(text.as_str())
            },
        }
    }
}

} // verus!
