//! Query match

use crate::matches::Match;
use crate::opponent::Opponent;
use crate::ID;
use vstd::prelude::*;

verus! {

impl Match {
    /// A declared winner is one of both known players
    pub open spec fn winner_is_consistent(self) -> bool {
        self.winner is Player ==> (self.both_present() && (self.winner == self.players[0]
            || self.winner == self.players[1]))
    }

    /// Loser of a decided match
    pub open spec fn spec_loser(self) -> Option<ID> {
        match (self.winner, self.players[0], self.players[1]) {
            (Opponent::Player(w), Opponent::Player(p1), Opponent::Player(p2)) => if w == p1 {
                Some(p2)
            } else {
                Some(p1)
            },
            _ => None,
        }
    }

    /// Loser of the match if any
    pub fn get_loser(&self) -> (res: Option<ID>)
        requires
            self.winner_is_consistent(),
        ensures
            res == self.spec_loser(),
    {
        match (self.winner, self.players[0], self.players[1]) {
            (Opponent::Player(winner_id), Opponent::Player(p1), Opponent::Player(p2)) => {
                if winner_id == p1 {
                    Some(p2)
                } else {
                    Some(p1)
                }
            },
            _ => None,
        }
    }
}

} // verus!
