//! Reconstruction of match state (ball, cars, boost-pad pickups) from the
//! per-tick actor deltas of a recorded match.
//!
//! The decoder of the recording is not part of this library: the caller has
//! the file decoded and hands over plain values, the header as a property
//! table and the body as one [`engine::FrameDelta`] per frame. All lengths
//! are integers in hundredths of a unit, velocities in hundredths of a unit
//! per second, and timestamps in microseconds, so that every decision the
//! library takes is exact; rotations are carried through as bit patterns.
//!
//! - [`arena_tables`]: the pad layout of each arena and the matching of a
//!   position to the nearest pad, if that pad is within reach.
//! - [`pads`]: the registry of pad actors, which resolves each to a pad,
//!   debounces its raw signals and emits pickup and respawn events.
//! - [`slots`]: the player slots that the roster declares and the cars that
//!   hold them.
//! - [`ownership`]: the links from component actors to their owners.
//! - [`actors`]: the class and the telemetry of one actor.
//! - [`engine`]: the state machine that takes one frame at a time and gives
//!   a snapshot of each.
//! - [`invariants`]: what holds of a whole recording, of every state that
//!   the engine reaches and every snapshot that it gives.
//! - [`header`]: the summary of the header.
//! - [`id_table`], [`geometry`], [`text`]: the table of actors by id,
//!   integer points, and searches in names.

pub mod actors;
pub mod arena_tables;
pub mod engine;
pub mod geometry;
pub mod header;
pub mod id_table;
pub mod invariants;
pub mod ownership;
pub mod pads;
pub mod slots;
pub mod text;
