//! A mini-golf hole in fixed-point arithmetic: walls, a ball, a cup, the
//! physics step that moves the ball, and the sweep that putts at every
//! point of a grid and records how far from the cup each putt comes to rest.
//!
//! Every length and speed is a whole number of millionths of a pixel, so
//! each step of the physics is exact integer arithmetic and its outcome is
//! the same on every machine.
//!
//! - [`constants`]: the tunables of the game.
//! - [`fixed`]: integer arithmetic, square roots, and the vector `Vec2`.
//! - [`wall`]: wall segments and the distance from a point to a wall.
//! - [`ball`]: the ball, the putt and the tick; [`ball_laws`]: what holds
//!   of every tick.
//! - [`hole`]: the layout of a hole and its file; [`layout_laws`]: what is
//!   saved can be read. [`text`] and [`decimal`] read and write the file's
//!   lines and numbers.
//! - [`sim`]: one putt played to its end.
//! - [`sweep`]: a putt at every point of a grid, band by band.
//! - [`heat`]: the colour of an outcome on a heat map.

pub mod ball;
pub mod ball_laws;
pub mod constants;
pub mod decimal;
pub mod fixed;
pub mod heat;
pub mod hole;
pub mod layout_laws;
pub mod sim;
pub mod sweep;
pub mod text;
pub mod wall;
