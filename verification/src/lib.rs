//! Two-body transfer orbits between circular orbits, in exact fixed-point arithmetic.
//!
//! Every number the library takes or returns is a fixed-point number with eighteen
//! fractional digits: the integer `1_523_660_000_000_000_000` stands for `1.52366`.
//! Only the kilograms of a mass and its gravitational parameter, which are too large
//! for that, are held with six. Each result is stated as a rounding of an exact
//! quotient or square root, so that what the library computes can be reasoned about to
//! the last digit.
//!
//! - `fixed`: the rounded operations everything else is built from.
//! - `angle`: angles and their wrapping into one turn.
//! - `quantities`: masses, distances, speeds and spans of time, each in all its units.
//! - `orbit`: a parent body and the circular orbits around it.
//! - `transfer`: the transfer orbit between two circular orbits.
//! - `text`: numbers written out for display.
//! - `laws`: what holds of all of these.
//!
//! The library takes no inverse cosine and no hyperbolic function: it gives the cosines
//! of the anomalies, and takes the anomalies themselves from its caller.

pub mod angle;
pub mod fixed;
pub mod laws;
pub mod orbit;
pub mod quantities;
pub mod text;
pub mod transfer;
