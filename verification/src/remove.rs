//! As a tournament organiser, remove a player from a bracket before it starts

use vstd::prelude::*;

verus! {

/// Request to remove a player from a bracket
#[derive(Debug)]
pub struct POST {
    /// channel internal id of service
    pub internal_channel_id: String,
    /// Player internal id
    pub player_id: String,
    /// Service type identifier
    pub service: String,
}

} // verus!
