//! Disqualification of players in a double elimination bracket

pub mod disqualify_from_bracket;

use crate::bracket::matches::spec_is_disqualified;
use crate::double_elimination_bracket::DoubleEliminationBracket;
use crate::ID;
use vstd::prelude::*;

verus! {

impl DoubleEliminationBracket {
    /// Returns true if player is disqualified
    pub fn is_disqualified(&self, player_id: ID) -> (res: bool)
        ensures
            res == spec_is_disqualified(player_id, self.spec_matches()),
    {
        crate::bracket::matches::is_disqualified(player_id, self.matches.as_slice())
    }
}

} // verus!
