//! Tuning constants of the game.
//!
//! Lengths are in thousandths of a world unit and velocities in thousandths
//! of a world unit per second. Times are in milliseconds unless the name says
//! otherwise.

use vstd::prelude::*;

verus! {

/// Edge length of the square play area.
pub const GROUND_SIZE: i32 = 12_000;

/// Thickness of the ground slab.
pub const GROUND_DEPTH: i32 = 1_000;

/// Speed of the player.
pub const PLAYER_SPEED: i32 = 1_000_000;

/// Speed of the player along each axis when walking on a diagonal.
pub const PLAYER_SPEED_DIAGONAL: i32 = 707_107;

/// How far the player may walk past the edge of the play area.
pub const PLAYER_BOUNDS_MARGIN: i32 = 2_000;

/// Distance within which the player notices a parcel.
pub const PLAYER_PICKUP_RADIUS: i32 = 3_000;

/// Numerator of the factor from aim distance to throw speed.
pub const PLAYER_THROW_FACTOR_NUM: u32 = 115;

/// Denominator of the factor from aim distance to throw speed.
pub const PLAYER_THROW_FACTOR_DEN: u32 = 100;

/// Largest speed of a throw.
pub const PLAYER_MAX_THROW_MAQ: i32 = 12_000;

/// Smallest speed of a throw.
pub const PLAYER_MIN_THROW_MAQ: i32 = 2_000;

/// Downward speed of a parcel that is let go without an aim point.
pub const PLAYER_DROP_SPEED: i32 = 50;

/// Height of the lowest slot of the carried stack above the player's feet.
pub const PLAYER_STACK_HEIGHT: i32 = 1_450;

/// Number of parcels the player can carry.
pub const PARCEL_STACK_CAPACITY: usize = 3;

/// Interval between two spawns at the start of a session, in milliseconds.
pub const PARCEL_SPAWN_RATE: u64 = 3000;

/// Height at which parcels appear.
pub const PARCEL_SPAWN_Y: i32 = 14_000;

/// Distance kept between a spawn point and the edge of the play area.
pub const PARCEL_SPAWN_PADDING: i32 = 1_250;

/// Largest sideways speed of a fresh parcel along x.
pub const PARCEL_MAX_LINVEL_X: i32 = 300;

/// Largest sideways speed of a fresh parcel along z.
pub const PARCEL_MAX_LINVEL_Z: i32 = 300;

/// Smallest sideways speed of a fresh parcel along x.
pub const PARCEL_MIN_LINVEL_X: i32 = 200;

/// Smallest sideways speed of a fresh parcel along z.
pub const PARCEL_MIN_LINVEL_Z: i32 = 200;

/// Spin of a fresh parcel about the x axis, in thousandths of a radian per
/// second.
pub const PARCEL_SPAWN_ANGVEL_X: i32 = 1_000;

/// Edge length of a parcel.
pub const PARCEL_SIZE: i32 = 1_000;

/// Vertical distance between two neighbouring slots of the carried stack.
pub const PARCEL_STACK_SPACING: i32 = 950;

/// Height at or below which a falling parcel stops colliding.
pub const PARCEL_DISABLE_COLLISION_HEIGHT: i32 = -5_000;

/// Height at or below which a falling parcel is removed.
pub const PARCEL_DESPAWN_HEIGHT: i32 = -30_000;

/// Number of spawns after which the spawn interval shrinks by one step.
pub const PARCEL_LEVEL_UP: u64 = 3;

/// Amount by which one step shortens the spawn interval, in milliseconds.
pub const PARCEL_LEVEL_UP_DECR: u64 = 350;

/// Largest total shortening of the spawn interval, in milliseconds.
pub const PARCEL_LEVEL_UP_MIN: u64 = 2300;

/// Time a delivered parcel takes to shrink away, in milliseconds.
pub const DELIVERY_DESPAWN_MILLIS: u64 = 600;

/// Time a truck stays away after a delivery, in seconds.
pub const TRUCK_TRIP_SECS: u64 = 3;

/// Speed of a departing truck.
pub const TRUCK_SPEED: i32 = 10_000;

/// Distance between a truck and the far edge of its delivery zone.
pub const TRUCK_PADDING: i32 = 3_000;

/// Length of a session, in seconds.
pub const GAME_TIME: u64 = 128;

} // verus!
