//! An evolutionary game on a torus.
//!
//! Every patch of a wrap-around grid either helps or leeches. Each generation
//! a patch is paid for the helpers among its eight neighbours, and then takes
//! over the strategy of the best paid patch of its neighbourhood.
//!
//! Payoffs are whole numbers of millionths of a point, so nothing is ever
//! rounded and a generation is an exact function of the one before. Payoffs
//! within one millionth of each other count as tied, and of tied patches
//! the first wins, in the order: the patch itself, then its neighbours at
//! `(x-1, y-1)`, `(x-1, y)`, `(x-1, y+1)`, `(x, y-1)`, `(x, y+1)`,
//! `(x+1, y-1)`, `(x+1, y)`, `(x+1, y+1)`.
//!
//! - `patch`: strategies, patches and payoff units
//! - `torus`: wrap-around addressing and the eight neighbours
//! - `payoff`: what a patch is paid, and which of nine payoffs leads
//! - `generation`: a generation as a function on layouts
//! - `field`: the playing field and its two phases
//! - `laws`: what holds of every generation
//! - `picture`: a field as text

pub mod field;
pub mod generation;
pub mod laws;
pub mod patch;
pub mod payoff;
pub mod picture;
pub mod seed;
pub mod torus;

pub use field::{GridError, PlayingField};
pub use patch::{Alpha, Patch, Strategy, SCALE, TIE_TOLERANCE};
pub use payoff::calculate_score;
