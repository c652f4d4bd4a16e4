//! Motion patterns for the ghosts of an arcade chase game, on a fixed-point
//! plane.
//!
//! Every quantity is a signed 16.16 fixed-point number held in an `i32`
//! (`fixed::ONE` stands for 1.0), and elapsed time is counted in whole
//! nanoseconds. Positions saturate at the ends of the `i32` range, so that a
//! frame can be played from every state and for every length of time.
//!
//! - `fixed`: saturating fixed-point arithmetic and the integer square root;
//! - `vector`: points, distances, and the step of a given length toward a
//!   target;
//! - `timer`: the repeating timer that paces the behaviours;
//! - `orbit`: the path of a ghost that circles the player;
//! - `ghost`: the behaviours and the update of all ghosts in a frame;
//! - `player`: the player's step from the keys held down;
//! - `laws`: what the behaviours keep to, frame after frame.

pub mod fixed;
pub mod ghost;
pub mod laws;
pub mod orbit;
pub mod player;
pub mod timer;
pub mod vector;
