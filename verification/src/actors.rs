//! What the engine knows of one actor: its class, and the telemetry that the
//! attribute updates carry.

use crate::geometry::Vec3;
use crate::text::{
    ascii_lowercase, contains_lowered, contains_seq, contains_text, ends_with_seq, ends_with_text,
    to_chars, to_lower_chars,
};
use vstd::prelude::*;

verus! {

/// The height, in hundredths of a unit, at which the ball rests at kick-off.
pub const BALL_SPAWN_HEIGHT: i32 = 9_315;

/// The height, in hundredths of a unit, of a car of which no position is known.
pub const DEFAULT_CAR_HEIGHT: i32 = 1_700;

/// The boost, in percent, of a car of which no boost is known.
pub const DEFAULT_BOOST: u8 = 33;

/// What kind of thing an actor is, by its class name.
#[derive(Clone, Copy, Debug, PartialEq, Eq, Structural)]
pub enum ActorKind {
    Ball,
    Car,
    BoostPadPickup,
    Other,
}

/// What the class name of an actor says of it.
#[derive(Clone, Copy, Debug, PartialEq, Eq, Structural)]
pub struct ActorClass {
    pub kind: ActorKind,
    pub is_component: bool,
    pub ball_like: bool,
}

/// A rotation as the four single-precision bit patterns of a quaternion,
/// carried through untouched.
#[derive(Clone, Copy, Debug, PartialEq, Eq, Structural)]
pub struct QuatBits {
    pub x: u32,
    pub y: u32,
    pub z: u32,
    pub w: u32,
}

/// The class and the telemetry of one actor.
#[derive(Clone, Copy, Debug)]
pub struct ActorState {
    pub class: ActorClass,
    pub team: Option<u8>,
    pub boost: Option<u8>,
    pub position: Option<Vec3>,
    pub velocity: Option<Vec3>,
    pub rotation: Option<QuatBits>,
    pub demolished: bool,
}

/// Where the ball is and how it moves.
#[derive(Clone, Copy, Debug, PartialEq, Eq, Structural)]
pub struct BallState {
    pub position: Vec3,
    pub velocity: Vec3,
    pub angular_velocity: Vec3,
}

/// The origin, and the velocity of what rests.
pub open spec fn zero_vec() -> Vec3 {
    Vec3 { x: 0, y: 0, z: 0 }
}

/// The ball at rest on its kick-off spot.
pub open spec fn spawn_ball() -> BallState {
    BallState {
        position: Vec3 { x: 0, y: 0, z: 9_315 },
        velocity: zero_vec(),
        angular_velocity: zero_vec(),
    }
}

/// A class name that belongs to a ball.
pub open spec fn is_ball_class(name: Seq<char>) -> bool {
    let lower = ascii_lowercase(name);
    ||| contains_seq(lower, "ball_ta"@)
    ||| ends_with_seq(lower, "ball"@)
    ||| contains_seq(lower, "ball_"@)
}

/// A class name that belongs to a car, and not to a component of one.
pub open spec fn is_car_class(name: Seq<char>) -> bool {
    let lower = ascii_lowercase(name);
    &&& {
        ||| contains_seq(lower, "archetypes.car.car_"@)
        ||| contains_seq(lower, "default__car_ta"@)
        ||| contains_seq(lower, "default__carbody"@)
    }
    &&& !contains_seq(lower, "carcomponent"@)
}

/// The kind of an actor of class `name`: a ball before a car, a car before a
/// boost pad, and anything else is `Other`.
pub open spec fn classify_spec(name: Seq<char>) -> ActorKind {
    if is_ball_class(name) {
        ActorKind::Ball
    } else if is_car_class(name) {
        ActorKind::Car
    } else if contains_seq(name, "VehiclePickup_Boost_TA"@) {
        ActorKind::BoostPadPickup
    } else {
        ActorKind::Other
    }
}

/// What the class name `name` says of an actor.
pub open spec fn class_of(name: Seq<char>) -> ActorClass {
    ActorClass {
        kind: classify_spec(name),
        is_component: contains_lowered(name, "carcomponent"@),
        ball_like: contains_seq(name, "Ball_TA"@),
    }
}

/// The class of an actor of which nothing is known.
pub open spec fn unknown_class() -> ActorClass {
    ActorClass { kind: ActorKind::Other, is_component: false, ball_like: false }
}

/// An actor of which nothing is known.
pub open spec fn blank_actor() -> ActorState {
    ActorState {
        class: unknown_class(),
        team: None,
        boost: None,
        position: None,
        velocity: None,
        rotation: None,
        demolished: false,
    }
}

/// A freshly created actor of class `class`.
pub open spec fn fresh_actor(class: ActorClass) -> ActorState {
    ActorState { class, ..blank_actor() }
}

/// The state of `actor`, blank if the table does not hold it.
pub open spec fn actor_or_blank(actors: Map<i32, ActorState>, actor: i32) -> ActorState {
    if actors.contains_key(actor) {
        actors[actor]
    } else {
        blank_actor()
    }
}

/// A replicated boost amount of 0 to 255 as a percentage, rounded to the nearest.
pub open spec fn boost_percent_spec(raw: u8) -> u8 {
    ((40 * raw + 51) / 102) as u8
}

/// A replicated team number held to 0 or 1.
pub open spec fn clamp_team(team: u8) -> u8 {
    if team >= 1 {
        1
    } else {
        0
    }
}

/// The team under which a car is shown: the decoded one, else team 1 for a
/// car in the positive half of the field and team 0 for any other.
pub open spec fn display_team(actor: ActorState) -> u8 {
    match actor.team {
        Some(team) => team,
        None => match actor.position {
            Some(p) => if p.y > 0 {
                1
            } else {
                0
            },
            None => 0,
        },
    }
}

/// The position under which a car is shown: the known one, else the origin
/// at the height of a car at rest.
pub open spec fn display_position(actor: ActorState) -> Vec3 {
    match actor.position {
        Some(p) => p,
        None => Vec3 { x: 0, y: 0, z: 1_700 },
    }
}

/// The percentage is the integer nearest to `raw * 100 / 255`, which is
/// never halfway between two integers, and it lies between 0 and 100.
pub proof fn lemma_boost_percent_nearest(raw: u8)
    ensures
        boost_percent_spec(raw) <= 100,
        -255 < 2 * (255 * boost_percent_spec(raw) - 100 * raw) < 255,
{
    let q = (40 * raw + 51) / 102;
    let r = (40 * raw + 51) % 102;
    assert(40 * raw + 51 == 102 * q + r);
    assert(0 <= q <= 100);
    assert(r != 0) by {
        if r == 0 {
            assert((40 * raw + 51) % 2 == 1);
            assert((102 * q) % 2 == 0) by (nonlinear_arith)
                requires
                    0 <= q,
            ;
        }
    }
}

/// Converts a replicated boost amount of 0 to 255 to a percentage.
pub fn boost_percent(raw: u8) -> (percent: u8)
    ensures
        percent == boost_percent_spec(raw),
        percent <= 100,
{
    proof {
        lemma_boost_percent_nearest(raw);
    }
    let scaled: u32 = 40 * (raw as u32) + 51;
    (scaled / 102) as u8
}

/// Classifies an actor by its class name.
pub fn classify_object_name(name: &str) -> (kind: ActorKind)
    ensures
        kind == classify_spec(name@),
{
    classify(name).kind
}

/// Reads off a class name what the engine needs to know of an actor.
pub fn classify(name: &str) -> (class: ActorClass)
    ensures
        class == class_of(name@),
{
    let exact = to_chars(name);
    let lower = to_lower_chars(name);
    let is_component = contains_text(&lower, "carcomponent");
    let ball_like = contains_text(&exact, "Ball_TA");
    let is_ball = contains_text(&lower, "ball_ta") || ends_with_text(&lower, "ball")
        || contains_text(&lower, "ball_");
    let kind = if is_ball {
        ActorKind::Ball
    } else if (contains_text(&lower, "archetypes.car.car_") || contains_text(
        &lower,
        "default__car_ta",
    ) || contains_text(&lower, "default__carbody")) && !is_component {
        ActorKind::Car
    } else if contains_text(&exact, "VehiclePickup_Boost_TA") {
        ActorKind::BoostPadPickup
    } else {
        ActorKind::Other
    };
    ActorClass { kind, is_component, ball_like }
}

impl BallState {
    /// The ball at rest on its kick-off spot.
    pub fn spawn() -> (ball: BallState)
        ensures
            ball == spawn_ball(),
    {
        BallState {
            position: Vec3 { x: 0, y: 0, z: BALL_SPAWN_HEIGHT },
            velocity: Vec3 { x: 0, y: 0, z: 0 },
            angular_velocity: Vec3 { x: 0, y: 0, z: 0 },
        }
    }
}

impl ActorState {
    /// An actor of which nothing is known.
    pub fn blank() -> (actor: ActorState)
        ensures
            actor == blank_actor(),
    {
        ActorState {
            class: ActorClass { kind: ActorKind::Other, is_component: false, ball_like: false },
            team: None,
            boost: None,
            position: None,
            velocity: None,
            rotation: None,
            demolished: false,
        }
    }

    /// The team under which the car is shown.
    pub fn shown_team(&self) -> (team: u8)
        ensures
            team == display_team(*self),
    {
        match self.team {
            Some(team) => team,
            None => match self.position {
                Some(p) => if p.y > 0 {
                    1
                } else {
                    0
                },
                None => 0,
            },
        }
    }

    /// The position under which the car is shown.
    pub fn shown_position(&self) -> (position: Vec3)
        ensures
            position == display_position(*self),
    {
        match self.position {
            Some(p) => p,
            None => Vec3 { x: 0, y: 0, z: DEFAULT_CAR_HEIGHT },
        }
    }
}

} // verus!
