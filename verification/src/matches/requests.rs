//! Requests about matches: next match, reported results, validation

use vstd::prelude::*;

verus! {

/// Request for the next match of a player
#[derive(Debug)]
pub struct NextMatchGETRequest {
    /// Player id using service
    pub player_internal_id: String,
    /// Identifier of the discussion channel from service (for instance: discord)
    pub channel_internal_id: String,
    /// Name of service
    pub service_type_id: String,
}

/// Player reports match result
#[derive(Debug)]
pub struct PlayerMatchResultPOST {
    /// Player id using service
    pub internal_player_id: String,
    /// Discussion channel id of service
    pub internal_channel_id: String,
    /// Service used to make call
    pub service: String,
    /// Result as reported by the player
    pub result: String,
}

/// Tournament organiser reports match result where player 1 scored result x-y
/// against player 2
#[derive(Debug)]
pub struct TournamentOrganiserMatchResultPOST {
    /// Discussion channel id of service
    pub internal_channel_id: String,
    /// Service used to make call
    pub service: String,
    /// Player 1
    pub player1: String,
    /// Result as reported by the player
    pub result: String,
    /// Player 2
    pub player2: String,
}

/// Validate match
#[derive(Debug)]
pub struct ValidateMatchPOST {
    /// Discussion channel id of service
    pub channel_internal_id: String,
    /// Service used to make call
    pub service_type_id: String,
    /// Match to validate
    pub match_id: String,
}

} // verus!
