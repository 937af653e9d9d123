//! A shared grid world: players move one cell at a time on a fixed map of
//! walkable and wall tiles, and every accepted change is fanned out to the
//! currently connected observers as a consistent snapshot.
//!
//! The crate is the authoritative core: map geometry, the movement rule,
//! the player registry, and the observer registry with its broadcast plan.
//! Transport concerns (HTTP, websockets, JSON) live outside and talk to this
//! core through plain values.

pub mod game;
pub mod map;
pub mod session;
