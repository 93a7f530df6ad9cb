//! Guidance core for a ground robot that follows a marked track with a
//! circular sensing spot and that can drive up to a target pose.
//!
//! Every quantity is a fixed-point integer. Lengths and speeds are counted
//! in millionths: `fixed::UNIT` counts make one unit of length, and stand for
//! full speed. Angles are counted so that a half turn is exactly
//! `angle::HALF_TURN` counts. The trigonometry that turns poses into these
//! counts, and crossings back into angles, is the caller's.
//!
//! - `geometry` holds vectors, poses and the crossing of a ray with the
//!   sensing circle.
//! - `track` finds the stretch of track under the spot and folds the angle
//!   between its two crossings into a steering correction.
//! - `approach` turns a target pose into a speed and a turn rate.

pub mod angle;
pub mod approach;
pub mod fixed;
pub mod geometry;
pub mod track;
