//! Inspect next opponent for a given player in single elimination bracket

use crate::bracket::matches::{
    first_pending, has_pending, opponent_of, position_of_first_pending, spec_bracket_is_over,
};
use crate::matches::MatchID;
use crate::next_opponent::Error;
use crate::opponent::Opponent;
use crate::player::PlayerID;
use crate::single_elimination_bracket::SingleEliminationBracket;
use vstd::prelude::*;

verus! {

impl SingleEliminationBracket {
    /// Next opponent of `player_id` and the match they play, in their first
    /// match without a winner. The opponent is unknown while the other match
    /// feeding this one is not decided.
    ///
    /// # Errors
    /// thrown when the bracket is over (the winner gets `TournamentWon`) or
    /// the player has no match left
    pub fn next_opponent_in_bracket(&self, player_id: PlayerID) -> (res: Result<
        (Opponent, MatchID),
        Error,
    >)
        requires
            spec_bracket_is_over(self.spec_matches()) ==> self.spec_matches().len() > 0
                && self.spec_matches().last().winner is Player,
        ensures
            ({
                let b = self.spec_matches();
                if spec_bracket_is_over(b) {
                    res == Err::<(Opponent, MatchID), Error>(
                        if b.last().winner == Opponent::Player(player_id) {
                            Error::TournamentWon
                        } else {
                            Error::Eliminated
                        },
                    )
                } else if !has_pending(b, player_id) {
                    res == Err::<(Opponent, MatchID), Error>(Error::Eliminated)
                } else {
                    let m = b[first_pending(b, player_id)];
                    res == Ok::<(Opponent, MatchID), Error>((opponent_of(m, player_id), m.id))
                }
            }),
    {
        if self.is_over() {
            let last = self.matches[self.matches.len() - 1];
            return match last.winner {
                Opponent::Player(winner) => {
                    if winner == player_id {
                        Err(Error::TournamentWon)
                    } else {
                        Err(Error::Eliminated)
                    }
                },
                Opponent::Unknown => Err(Error::Eliminated),
            };
        }
        let i = match position_of_first_pending(self.matches.as_slice(), player_id) {
            Some(i) => i,
            None => return Err(Error::Eliminated),
        };
        let m = self.matches[i];
        let opponent = match (m.players[0], m.players[1]) {
            (Opponent::Player(p1), Opponent::Player(p2)) => {
                if p1 == player_id {
                    Opponent::Player(p2)
                } else if p2 == player_id {
                    Opponent::Player(p1)
                } else {
                    Opponent::Unknown
                }
            },
            _ => Opponent::Unknown,
        };
        Ok((opponent, m.id))
    }
}

} // verus!
