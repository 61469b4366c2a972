//! The canonical boost-pad layout of each supported arena, and the rule that
//! matches an observed position to the nearest pad, if that pad is within reach.

use crate::geometry::{lemma_square_bounds, Vec3};
use crate::text::{contains_lowered, contains_text, same_text, to_lower_chars};
use vstd::prelude::*;

verus! {

/// Hundredths of a unit in one unit.
pub const UNIT: i32 = 100;

/// How far, in hundredths of a unit, a position may lie from a big pad and still match it.
pub const SNAP_TOLERANCE_BIG: u64 = 20_000;

/// How far, in hundredths of a unit, a position may lie from a small pad and still match it.
pub const SNAP_TOLERANCE_SMALL: u64 = 16_000;

/// The `y` coordinate, in hundredths of a unit, beyond which a pad belongs to a team's half.
pub const SIDE_SPLIT: i32 = 200_000;

/// The half of the field in which a pad lies.
#[derive(Clone, Copy, Debug, PartialEq, Eq, Structural)]
pub enum PadSide {
    Blue,
    Orange,
    Mid,
}

/// One boost pad of an arena: its number in the table, its position in
/// hundredths of a unit, its size and its side.
#[derive(Clone, Copy, Debug, PartialEq, Eq, Structural)]
pub struct ArenaPadDef {
    pub id: usize,
    pub x: i32,
    pub y: i32,
    pub z: i32,
    pub is_big: bool,
    pub side: PadSide,
}

/// The pad that a position was matched to, and the squared distance between
/// the two in squared hundredths of a unit.
#[derive(Clone, Copy, Debug, PartialEq, Eq, Structural)]
pub struct SnapResult {
    pub pad_def: ArenaPadDef,
    pub snap_error_sq: u128,
}

/// The side of a pad whose `y` coordinate is `y`: blue below the negative
/// split, orange above the positive one, mid between them.
pub open spec fn side_of_y(y: int) -> PadSide {
    if y < -200_000 {
        PadSide::Blue
    } else if y > 200_000 {
        PadSide::Orange
    } else {
        PadSide::Mid
    }
}

/// The pad numbered `id` at `(x, y, z)` whole units.
pub open spec fn canonical_pad(id: int, x: int, y: int, z: int, is_big: bool) -> ArenaPadDef {
    ArenaPadDef {
        id: id as usize,
        x: (x * 100) as i32,
        y: (y * 100) as i32,
        z: (z * 100) as i32,
        is_big,
        side: side_of_y(y * 100),
    }
}

/// The 34 pads of the standard field, in table order.
pub open spec fn soccar_table() -> Seq<ArenaPadDef> {
    seq![
        canonical_pad(0, -3584, -4096, 73, true),
        canonical_pad(1, 3584, -4096, 73, true),
        canonical_pad(2, -3584, 4096, 73, true),
        canonical_pad(3, 3584, 4096, 73, true),
        canonical_pad(4, 0, -4608, 73, true),
        canonical_pad(5, 0, 4608, 73, true),
        canonical_pad(6, 0, -4240, 70, false),
        canonical_pad(7, -1792, -4184, 70, false),
        canonical_pad(8, 1792, -4184, 70, false),
        canonical_pad(9, -940, -3308, 70, false),
        canonical_pad(10, 940, -3308, 70, false),
        canonical_pad(11, 0, -2816, 70, false),
        canonical_pad(12, -3584, -2484, 70, false),
        canonical_pad(13, 3584, -2484, 70, false),
        canonical_pad(14, -1788, -2300, 70, false),
        canonical_pad(15, 1788, -2300, 70, false),
        canonical_pad(16, -2048, -1036, 70, false),
        canonical_pad(17, 0, -1024, 70, false),
        canonical_pad(18, 2048, -1036, 70, false),
        canonical_pad(19, -1024, 0, 70, false),
        canonical_pad(20, 1024, 0, 70, false),
        canonical_pad(21, -2048, 1036, 70, false),
        canonical_pad(22, 0, 1024, 70, false),
        canonical_pad(23, 2048, 1036, 70, false),
        canonical_pad(24, -1788, 2300, 70, false),
        canonical_pad(25, 1788, 2300, 70, false),
        canonical_pad(26, -3584, 2484, 70, false),
        canonical_pad(27, 3584, 2484, 70, false),
        canonical_pad(28, 0, 2816, 70, false),
        canonical_pad(29, -940, 3310, 70, false),
        canonical_pad(30, 940, 3308, 70, false),
        canonical_pad(31, -1792, 4184, 70, false),
        canonical_pad(32, 1792, 4184, 70, false),
        canonical_pad(33, 0, 4240, 70, false),
    ]
}

/// The name of the standard layout.
pub open spec fn soccar_slug() -> Seq<char> {
    "soccar"@
}

/// A map name that belongs to a mode with another pad layout.
pub open spec fn is_unsupported_map(map_name: Seq<char>) -> bool {
    ||| contains_lowered(map_name, "hoops"@)
    ||| contains_lowered(map_name, "dropshot"@)
    ||| contains_lowered(map_name, "shattershot"@)
}

/// The pad table of a map: the standard table unless the map is unsupported.
pub open spec fn table_of_map(map_name: Seq<char>) -> Option<Seq<ArenaPadDef>> {
    if is_unsupported_map(map_name) {
        None
    } else {
        Some(soccar_table())
    }
}

/// The greatest distance, in hundredths of a unit, at which `pad` is matched.
pub open spec fn tolerance(pad: ArenaPadDef) -> int {
    if pad.is_big {
        20_000
    } else {
        16_000
    }
}

/// The squared distance from `pad` to `p`.
pub open spec fn pad_dist_sq(pad: ArenaPadDef, p: Vec3) -> int {
    pad.position_spec().dist_sq_spec(p)
}

/// `p` lies within the tolerance of `pad`.
pub open spec fn in_reach(pad: ArenaPadDef, p: Vec3) -> bool {
    pad_dist_sq(pad, p) <= tolerance(pad) * tolerance(pad)
}

/// `i` is the nearest pad of the table to `p`: no pad is strictly nearer,
/// and among those equally near it comes first.
pub open spec fn is_nearest(pads: Seq<ArenaPadDef>, p: Vec3, i: int) -> bool {
    &&& 0 <= i < pads.len()
    &&& forall|j: int|
        0 <= j < pads.len() ==> {
            ||| pad_dist_sq(pads[i], p) < pad_dist_sq(#[trigger] pads[j], p)
            ||| pad_dist_sq(pads[i], p) == pad_dist_sq(pads[j], p) && i <= j
        }
}

/// The index of the nearest pad of the table to `p`; none in an empty table.
pub open spec fn nearest_index(pads: Seq<ArenaPadDef>, p: Vec3) -> Option<int> {
    if exists|i: int| is_nearest(pads, p, i) {
        Some(choose|i: int| is_nearest(pads, p, i))
    } else {
        None
    }
}

/// The index of the pad that `p` is matched to: the nearest pad of the
/// whole table, if it has `p` within its own tolerance; else none.
pub open spec fn snap_index(pads: Seq<ArenaPadDef>, p: Vec3) -> Option<int> {
    match nearest_index(pads, p) {
        Some(i) => if in_reach(pads[i], p) {
            Some(i)
        } else {
            None
        },
        None => None,
    }
}

/// The result of matching `p` against `pads`.
pub open spec fn snap_spec(pads: Seq<ArenaPadDef>, p: Vec3) -> Option<SnapResult> {
    match snap_index(pads, p) {
        Some(i) => Some(
            SnapResult { pad_def: pads[i], snap_error_sq: pad_dist_sq(pads[i], p) as u128 },
        ),
        None => None,
    }
}

/// At most one index is the nearest.
pub proof fn lemma_nearest_unique(pads: Seq<ArenaPadDef>, p: Vec3, i: int, j: int)
    requires
        is_nearest(pads, p, i),
        is_nearest(pads, p, j),
    ensures
        i == j,
{
    assert(pad_dist_sq(pads[i], p) <= pad_dist_sq(pads[j], p));
    assert(pad_dist_sq(pads[j], p) <= pad_dist_sq(pads[i], p));
}

/// If `i` is the nearest, it is the index that the table gives as nearest.
pub proof fn lemma_nearest_is(pads: Seq<ArenaPadDef>, p: Vec3, i: int)
    requires
        is_nearest(pads, p, i),
    ensures
        nearest_index(pads, p) == Some(i),
{
    let k = choose|k: int| is_nearest(pads, p, k);
    lemma_nearest_unique(pads, p, i, k);
}

/// A table that is not empty has a nearest pad to every position.
pub proof fn lemma_nearest_exists(pads: Seq<ArenaPadDef>, p: Vec3)
    requires
        pads.len() > 0,
    ensures
        nearest_index(pads, p) is Some,
        is_nearest(pads, p, nearest_index(pads, p).unwrap()),
{
    let n = pads.len() as int;
    lemma_scan_best(pads, p, n);
    assert(pads.take(n) =~= pads);
    lemma_nearest_is(pads, p, scan_best(pads, p, n).unwrap());
}

/// A position at the exact coordinates of a pad is matched to that pad at
/// distance zero, provided no earlier pad of the table has the same
/// coordinates.
pub proof fn lemma_snap_exact(pads: Seq<ArenaPadDef>, i: int)
    requires
        0 <= i < pads.len(),
        forall|j: int|
            0 <= j < i ==> (#[trigger] pads[j]).position_spec() != pads[i].position_spec(),
    ensures
        snap_spec(pads, pads[i].position_spec()) == Some(
            SnapResult { pad_def: pads[i], snap_error_sq: 0 },
        ),
{
    let p = pads[i].position_spec();
    lemma_square_bounds(p.x, p.x);
    lemma_square_bounds(p.y, p.y);
    lemma_square_bounds(p.z, p.z);
    assert(pad_dist_sq(pads[i], p) == 0);
    assert forall|j: int| 0 <= j < pads.len() implies {
        ||| pad_dist_sq(pads[i], p) < pad_dist_sq(#[trigger] pads[j], p)
        ||| pad_dist_sq(pads[i], p) == pad_dist_sq(pads[j], p) && i <= j
    } by {
        let q = pads[j].position_spec();
        lemma_square_bounds(q.x, p.x);
        lemma_square_bounds(q.y, p.y);
        lemma_square_bounds(q.z, p.z);
        if pad_dist_sq(pads[j], p) == 0 {
            assert(q == p);
        }
    }
    lemma_nearest_is(pads, p, i);
}

/// A position beyond the tolerance of every pad is matched to none.
pub proof fn lemma_snap_out_of_reach(pads: Seq<ArenaPadDef>, p: Vec3)
    requires
        forall|j: int| 0 <= j < pads.len() ==> !in_reach(#[trigger] pads[j], p),
    ensures
        snap_spec(pads, p) is None,
{
    if nearest_index(pads, p) is Some {
        assert(is_nearest(pads, p, nearest_index(pads, p).unwrap()));
    }
}

/// Whatever is matched is a pad of the table that has the position within
/// its tolerance, at most 200 units away, and no pad of the table is
/// nearer; and nothing is matched exactly where the table is empty or its
/// nearest pad has the position beyond its tolerance, whatever other pads
/// may have it within theirs.
pub proof fn lemma_snap_is_the_nearest(pads: Seq<ArenaPadDef>, p: Vec3)
    ensures
        match snap_spec(pads, p) {
            Some(r) => {
                &&& pads.contains(r.pad_def)
                &&& in_reach(r.pad_def, p)
                &&& r.snap_error_sq == pad_dist_sq(r.pad_def, p)
                &&& r.snap_error_sq <= 400_000_000
                &&& forall|j: int|
                    0 <= j < pads.len() ==> r.snap_error_sq <= pad_dist_sq(#[trigger] pads[j], p)
            },
            None => pads.len() == 0 || !in_reach(pads[nearest_index(pads, p).unwrap()], p),
        },
{
    if pads.len() > 0 {
        lemma_nearest_exists(pads, p);
        let i = nearest_index(pads, p).unwrap();
        let q = pads[i].position_spec();
        lemma_square_bounds(q.x, p.x);
        lemma_square_bounds(q.y, p.y);
        lemma_square_bounds(q.z, p.z);
    } else {
        if nearest_index(pads, p) is Some {
            assert(is_nearest(pads, p, nearest_index(pads, p).unwrap()));
        }
    }
}

/// The index that the scan of the first `n` pads settles on.
pub open spec fn scan_best(pads: Seq<ArenaPadDef>, p: Vec3, n: int) -> Option<int>
    decreases n,
{
    if n <= 0 {
        None
    } else {
        let prev = scan_best(pads, p, n - 1);
        if prev is None || pad_dist_sq(pads[n - 1], p) < pad_dist_sq(pads[prev.unwrap()], p) {
            Some(n - 1)
        } else {
            prev
        }
    }
}

/// What the scan of the first `n` pads settles on is the nearest among
/// them, the first of those equally near; it settles on none only for `n = 0`.
pub proof fn lemma_scan_best(pads: Seq<ArenaPadDef>, p: Vec3, n: int)
    requires
        0 <= n <= pads.len(),
    ensures
        match scan_best(pads, p, n) {
            Some(i) => is_nearest(pads.take(n), p, i),
            None => n == 0,
        },
    decreases n,
{
    if n > 0 {
        lemma_scan_best(pads, p, n - 1);
        let prev = scan_best(pads, p, n - 1);
        let cur = scan_best(pads, p, n);
        let now = pads.take(n);
        let before = pads.take(n - 1);
        assert forall|j: int| 0 <= j < n implies now[j] == pads[j] by {}
        assert forall|j: int| 0 <= j < n - 1 implies before[j] == pads[j] by {}
        let i = cur.unwrap();
        assert(now[i] == pads[i]);
        assert forall|j: int| 0 <= j < now.len() implies {
            ||| pad_dist_sq(now[i], p) < pad_dist_sq(#[trigger] now[j], p)
            ||| pad_dist_sq(now[i], p) == pad_dist_sq(now[j], p) && i <= j
        } by {
            if j < n - 1 {
                assert(before[j] == pads[j]);
                assert(before[prev.unwrap()] == pads[prev.unwrap()]);
            }
        }
    }
}

/// The standard table has 34 pads, numbered by their place; the first six
/// are the big ones; each lies on the side that its `y` coordinate gives;
/// and no two share a position.
pub proof fn lemma_soccar_table_facts()
    ensures
        soccar_table().len() == 34,
        forall|i: int|
            0 <= i < 34 ==> {
                let pad = #[trigger] soccar_table()[i];
                &&& pad.id == i
                &&& (pad.is_big <==> i < 6)
                &&& pad.side == side_of_y(pad.y as int)
            },
        forall|i: int, j: int|
            0 <= i < j < 34 ==> (#[trigger] soccar_table()[i]).position_spec() != (
            #[trigger] soccar_table()[j]).position_spec(),
{
}

/// On the standard table, the exact position of each pad is matched to that
/// pad at distance zero.
pub proof fn lemma_soccar_snap_exact(i: int)
    requires
        0 <= i < 34,
    ensures
        snap_spec(soccar_table(), soccar_table()[i].position_spec()) == Some(
            SnapResult { pad_def: soccar_table()[i], snap_error_sq: 0 },
        ),
{
    lemma_soccar_table_facts();
    lemma_snap_exact(soccar_table(), i);
}

impl PadSide {
    /// The side as it is written in reports.
    pub open spec fn name_spec(self) -> Seq<char> {
        match self {
            PadSide::Blue => "blue"@,
            PadSide::Orange => "orange"@,
            PadSide::Mid => "mid"@,
        }
    }

    /// The side as it is written in reports: `blue`, `orange` or `mid`.
    pub fn as_str(&self) -> (s: &'static str)
        ensures
            s@ == self.name_spec(),
    {
        match self {
            PadSide::Blue => "blue",
            PadSide::Orange => "orange",
            PadSide::Mid => "mid",
        }
    }
}

impl ArenaPadDef {
    /// The position of the pad.
    pub open spec fn position_spec(self) -> Vec3 {
        Vec3 { x: self.x, y: self.y, z: self.z }
    }

    /// The position of the pad.
    pub fn position(&self) -> (p: Vec3)
        ensures
            p == self.position_spec(),
    {
        Vec3 { x: self.x, y: self.y, z: self.z }
    }

    /// The squared tolerance of the pad, by its size.
    pub fn tolerance_sq(&self) -> (t: u128)
        ensures
            t == tolerance(*self) * tolerance(*self),
    {
        if self.is_big {
            assert(20_000 * 20_000 == 400_000_000int);
            400_000_000
        } else {
            assert(16_000 * 16_000 == 256_000_000int);
            256_000_000
        }
    }
}

/// The side of a pad by its `y` coordinate in hundredths of a unit.
pub fn side_of(y: i32) -> (side: PadSide)
    ensures
        side == side_of_y(y as int),
{
    if y < -SIDE_SPLIT {
        PadSide::Blue
    } else if y > SIDE_SPLIT {
        PadSide::Orange
    } else {
        PadSide::Mid
    }
}

/// Builds the pad numbered `id` at `(x, y, z)` whole units.
fn make_pad(id: usize, x: i32, y: i32, z: i32, is_big: bool) -> (pad: ArenaPadDef)
    requires
        -10_000 <= x <= 10_000,
        -10_000 <= y <= 10_000,
        -10_000 <= z <= 10_000,
    ensures
        pad == canonical_pad(id as int, x as int, y as int, z as int, is_big),
{
    ArenaPadDef {
        id,
        x: x * UNIT,
        y: y * UNIT,
        z: z * UNIT,
        is_big,
        side: side_of(y * UNIT),
    }
}

/// The pad table of the standard field.
pub fn soccar_pads() -> (pads: Vec<ArenaPadDef>)
    ensures
        pads@ == soccar_table(),
        pads@.len() == 34,
{
    let mut pads: Vec<ArenaPadDef> = Vec::new();
    pads.push(make_pad(0, -3584, -4096, 73, true));
    pads.push(make_pad(1, 3584, -4096, 73, true));
    pads.push(make_pad(2, -3584, 4096, 73, true));
    pads.push(make_pad(3, 3584, 4096, 73, true));
    pads.push(make_pad(4, 0, -4608, 73, true));
    pads.push(make_pad(5, 0, 4608, 73, true));
    pads.push(make_pad(6, 0, -4240, 70, false));
    pads.push(make_pad(7, -1792, -4184, 70, false));
    pads.push(make_pad(8, 1792, -4184, 70, false));
    pads.push(make_pad(9, -940, -3308, 70, false));
    pads.push(make_pad(10, 940, -3308, 70, false));
    pads.push(make_pad(11, 0, -2816, 70, false));
    pads.push(make_pad(12, -3584, -2484, 70, false));
    pads.push(make_pad(13, 3584, -2484, 70, false));
    pads.push(make_pad(14, -1788, -2300, 70, false));
    pads.push(make_pad(15, 1788, -2300, 70, false));
    pads.push(make_pad(16, -2048, -1036, 70, false));
    pads.push(make_pad(17, 0, -1024, 70, false));
    pads.push(make_pad(18, 2048, -1036, 70, false));
    pads.push(make_pad(19, -1024, 0, 70, false));
    pads.push(make_pad(20, 1024, 0, 70, false));
    pads.push(make_pad(21, -2048, 1036, 70, false));
    pads.push(make_pad(22, 0, 1024, 70, false));
    pads.push(make_pad(23, 2048, 1036, 70, false));
    pads.push(make_pad(24, -1788, 2300, 70, false));
    pads.push(make_pad(25, 1788, 2300, 70, false));
    pads.push(make_pad(26, -3584, 2484, 70, false));
    pads.push(make_pad(27, 3584, 2484, 70, false));
    pads.push(make_pad(28, 0, 2816, 70, false));
    pads.push(make_pad(29, -940, 3310, 70, false));
    pads.push(make_pad(30, 940, 3308, 70, false));
    pads.push(make_pad(31, -1792, 4184, 70, false));
    pads.push(make_pad(32, 1792, 4184, 70, false));
    pads.push(make_pad(33, 0, 4240, 70, false));
    assert(pads@ =~= soccar_table());
    pads
}

/// Matches an observed position to the nearest pad of `pads`, of several
/// equally near the first in table order, and returns it only if it has the
/// position within its tolerance.
pub fn snap_to_pad(pads: &[ArenaPadDef], x: i32, y: i32, z: i32) -> (result: Option<SnapResult>)
    ensures
        result == snap_spec(pads@, Vec3 { x, y, z }),
{
    let p = Vec3 { x, y, z };
    let mut best: Option<(u128, usize)> = None;
    let mut idx: usize = 0;
    while idx < pads.len()
        invariant
            idx <= pads.len(),
            p == (Vec3 { x, y, z }),
            match best {
                Some((d, i)) => scan_best(pads@, p, idx as int) == Some(i as int) && i < idx && d
                    == pad_dist_sq(pads@[i as int], p),
                None => scan_best(pads@, p, idx as int) is None,
            },
        decreases pads.len() - idx,
    {
        let dist = pads[idx].position().dist_sq(&p);
        match best {
            None => {
                best = Some((dist, idx));
            },
            Some((best_dist, _)) => {
                if dist < best_dist {
                    best = Some((dist, idx));
                }
            },
        }
        idx += 1;
    }
    proof {
        lemma_scan_best(pads@, p, pads@.len() as int);
        assert(pads@.take(pads@.len() as int) =~= pads@);
        match best {
            Some((_, i)) => {
                lemma_nearest_is(pads@, p, i as int);
            },
            None => {
                if nearest_index(pads@, p) is Some {
                    assert(is_nearest(pads@, p, nearest_index(pads@, p).unwrap()));
                }
            },
        }
    }
    match best {
        Some((dist, i)) => {
            if dist <= pads[i].tolerance_sq() {
                Some(SnapResult { pad_def: pads[i], snap_error_sq: dist })
            } else {
                None
            }
        },
        None => None,
    }
}

/// Resolves the map name of a recording to the name of its pad layout:
/// `soccar` for every map but those of modes with another layout, which give `None`.
pub fn lookup_arena_slug(map_name: &str) -> (slug: Option<&'static str>)
    ensures
        is_unsupported_map(map_name@) ==> slug is None,
        !is_unsupported_map(map_name@) ==> slug is Some && slug.unwrap()@ == soccar_slug(),
{
    let lower = to_lower_chars(map_name);
    if contains_text(&lower, "hoops") || contains_text(&lower, "dropshot") || contains_text(
        &lower,
        "shattershot",
    ) {
        return None;
    }
    Some("soccar")
}

/// The pad table of a layout: the standard table for `soccar`, none for any other name.
pub fn pad_table_for_slug(slug: &str) -> (table: Option<Vec<ArenaPadDef>>)
    ensures
        slug@ == soccar_slug() ==> table is Some && table.unwrap()@ == soccar_table(),
        slug@ != soccar_slug() ==> table is None,
{
    if same_text(slug, "soccar") {
        Some(soccar_pads())
    } else {
        None
    }
}

} // verus!
