//! The tunables of the game, in millionths of a pixel.

use vstd::prelude::*;

verus! {

/// Units per pixel.
pub const SCALE: i64 = 1_000_000;

/// Largest magnitude of a layout coordinate, an aim target or a radius.
pub const FIELD_MAX: i64 = 1_000_000_000_000_000;

/// Largest magnitude of a coordinate that a rolling ball can get to.
pub const REACH_MAX: i64 = 100_000_000_000_000_000;

/// Side of the square playing surface.
pub const SCREEN_SIZE: i64 = 600_000_000;

/// Radius of the ball.
pub const BALL_RADIUS: i64 = 8_000_000;

/// Radius of the cup.
pub const CUP_RADIUS: i64 = 20_000_000;

/// Distance from a wall's centre line to its face.
pub const HALF_WALL_THICKNESS: i64 = 2_000_000;

/// Width of a wall's body.
pub const WALL_THICKNESS: i64 = 4_000_000;

/// What `distance_to_wall` reports where no contact is possible.
pub const NO_CONTACT: i64 = 0x7fff_ffff_ffff_ffff;

/// A putt starts at `CONTACT_NUM / CONTACT_DEN` of the aim vector per tick.
pub const CONTACT_NUM: i64 = 2;

pub const CONTACT_DEN: i64 = 25;

/// Each tick keeps `FRICTION_NUM / FRICTION_DEN` of the velocity.
pub const FRICTION_NUM: i64 = 19;

pub const FRICTION_DEN: i64 = 20;

/// A velocity component slower than this is set to rest.
pub const STOP_THRESHOLD: i64 = 250_000;

/// A ball at this speed or faster rolls over the cup.
pub const FALLING_SPEED: i64 = 3_000_000;

/// Height of surface that one sweep worker covers.
pub const BAND_UNIT: i64 = 100_000_000;

/// Outcome from which a heat map shows the last hue.
pub const FARTHEST_DISTANCE: i64 = 600_000_000;

/// The last hue of a heat map, in thousandths of a degree.
pub const MAX_HUE: i64 = 300_000;

/// Saturation of every colour of a heat map, in percent.
pub const SATURATION: u8 = 100;

/// Lightness of every colour of a heat map, in percent.
pub const LIGHTNESS: u8 = 50;

} // verus!
