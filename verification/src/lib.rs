//! Tournament brackets: seeding, match generation and bracket progression
//! for single and double elimination formats.

pub mod bracket;
pub mod double_elimination_bracket;
pub mod format;
pub mod ids;
pub mod join;
pub mod matches;
pub mod next_opponent;
pub mod opponent;
pub mod organiser;
pub mod player;
pub mod remove;
pub mod seeding;
pub mod single_elimination_bracket;
pub mod time;
pub mod validation;

use vstd::prelude::*;

verus! {

/// ID for bracket, players, matches...
pub type ID = u128;

} // verus!
