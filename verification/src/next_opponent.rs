//! Find the next opponent of a player

use vstd::prelude::*;

verus! {

/// Error while searching for the next opponent of a player
#[derive(Debug, PartialEq, Eq, Structural)]
pub enum Error {
    /// Player has won the bracket
    TournamentWon,
    /// Player is eliminated from the bracket
    Eliminated,
}

} // verus!
