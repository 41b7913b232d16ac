//! Gameplay core of a timed parcel-sorting arcade game.
//!
//! Parcels drop into a play area, the player carries up to three of them in a
//! stack and throws them into delivery zones, and every delivery is scored by
//! whether the parcel's carrier matches the zone's carrier.
//!
//! The library holds the rules only. Positions and speeds are fixed-point
//! integers (see [`math`]), times are whole nanoseconds (see [`timer`]) and
//! entities are plain numbers (see [`entity`]), so any engine can drive it:
//! the engine moves the bodies, reports collisions and input, and shows what
//! the rules decide.
//!
//! - [`parcels`]: how parcels appear, fall out of the world and expire.
//! - [`player`]: the stack of carried parcels, the requests that change it,
//!   the closest parcel, the aim point and the throw.
//! - [`warehouse`]: delivery zones, their trucks and the score.
//! - [`session`]: the clock of a session.
//! - [`game`]: one tick, which runs the steps above in their fixed order.
//! - [`config`]: the tuning constants.

pub mod config;
pub mod entity;
pub mod game;
pub mod math;
pub mod parcels;
pub mod player;
pub mod session;
pub mod timer;
pub mod warehouse;
