//! Players joining a bracket

use crate::bracket::Id as BracketId;
use crate::player::Id as PlayerId;
use vstd::prelude::*;

verus! {

/// Answer to a player joining a bracket
#[derive(Debug, Clone, Copy, PartialEq, Eq, Structural)]
pub struct POSTResponse {
    /// Player identifier
    pub player_id: PlayerId,
    /// bracket identifier
    pub bracket_id: BracketId,
}

/// Request of a player joining a bracket
#[derive(Debug)]
pub struct POST {
    /// Player internal id
    pub player_internal_id: String,
    /// Player name
    pub player_name: String,
    /// channel internal id of service
    pub channel_internal_id: String,
    /// Service type identifier
    pub service_type_id: String,
}

impl POST {
    /// Create new Join POST request body
    #[must_use]
    pub fn new(
        player_internal_id: String,
        player_name: String,
        channel_internal_id: String,
        service_type_id: String,
    ) -> (res: Self)
        ensures
            res.player_internal_id@ == player_internal_id@,
            res.player_name@ == player_name@,
            res.channel_internal_id@ == channel_internal_id@,
            res.service_type_id@ == service_type_id@,
    {
        Self { player_internal_id, player_name, channel_internal_id, service_type_id }
    }
}

} // verus!
