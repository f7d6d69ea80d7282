//! Next opponent of a player in a double elimination bracket

use crate::bracket::matches::{first_pending, has_pending, opponent_of, position_of_first_pending};
use crate::double_elimination_bracket::progression::spec_de_is_over;
use crate::double_elimination_bracket::{de_grand_finals, DoubleEliminationBracket};
use crate::matches::spec_stronger_seed_wins;
use crate::matches::Match;
use crate::opponent::Opponent;
use crate::ID;
use vstd::prelude::*;

verus! {

/// Error while searching for the next opponent
#[derive(Debug, PartialEq, Eq, Structural)]
pub enum Error {
    /// Player has won bracket
    TournamentWon,
    /// Player is eliminated from bracket
    Eliminated,
}

/// Every declared winner is one of the two known players of their match
pub open spec fn winners_consistent(b: Seq<Match>) -> bool {
    forall|i: int| 0 <= i < b.len() ==> (#[trigger] b[i]).winner_is_consistent()
}

/// Number of matches of `b` that `p` lost
pub open spec fn losses_of(b: Seq<Match>, p: ID) -> nat {
    b.filter(|m: Match| m.spec_loser() == Some(p)).len()
}

/// Player `p` lost two matches of `b` or more: they are eliminated
pub open spec fn is_eliminated_in(b: Seq<Match>, p: ID) -> bool {
    losses_of(b, p) >= 2
}

/// Player `p` won the bracket of `n` players with matches `b`: they won the
/// last match (the reset), or the bracket is over and they won grand finals
/// as the stronger seed, so that no reset was needed
pub open spec fn de_won_by(b: Seq<Match>, n: int, p: ID) -> bool {
    ||| b.last().winner == Opponent::Player(p)
    ||| {
        &&& n >= 3
        &&& spec_de_is_over(b, n)
        &&& spec_stronger_seed_wins(de_grand_finals(b, n)) == Some(true)
        &&& de_grand_finals(b, n).winner == Opponent::Player(p)
    }
}

impl DoubleEliminationBracket {
    /// Next opponent of `player_id` and the match they play, in their first
    /// match without a winner. Nothing is known of the opponent while the
    /// match feeding that place is not decided.
    ///
    /// # Errors
    /// thrown when the player lost twice (`Eliminated`), or has no match
    /// left: `TournamentWon` when they won the bracket, `Eliminated`
    /// otherwise
    pub fn next_opponent(&self, player_id: ID) -> (res: Result<Option<(Opponent, ID)>, Error>)
        requires
            self.spec_seeding().contains(player_id),
            self.spec_matches().len() > 0,
            winners_consistent(self.spec_matches()),
        ensures
            ({
                let b = self.spec_matches();
                if is_eliminated_in(b, player_id) {
                    res == Err::<Option<(Opponent, ID)>, Error>(Error::Eliminated)
                } else if !has_pending(b, player_id) {
                    res == Err::<Option<(Opponent, ID)>, Error>(
                        if de_won_by(b, self.spec_n(), player_id) {
                            Error::TournamentWon
                        } else {
                            Error::Eliminated
                        },
                    )
                } else {
                    let m = b[first_pending(b, player_id)];
                    res == Ok::<Option<(Opponent, ID)>, Error>(
                        Some((opponent_of(m, player_id), m.id)),
                    )
                }
            }),
    {
        if self.is_eliminated(player_id) {
            return Err(Error::Eliminated);
        }
        let i = match position_of_first_pending(self.matches.as_slice(), player_id) {
            Some(i) => i,
            None => {
                let last_match = self.matches[self.matches.len() - 1];
                if let Opponent::Player(p) = last_match.winner {
                    if p == player_id {
                        return Err(Error::TournamentWon);
                    }
                }
                let n = self.seeding.len();
                if n >= 3 {
                    proof {
                        use_type_invariant(self);
                    }
                    if self.is_over() {
                        assert(self.matches@.len() == 2 * n - 1);
                        let gf = self.matches[self.matches.len() - 2];
                        if let Some(true) = gf.stronger_seed_wins() {
                            if let Opponent::Player(p) = gf.winner {
                                if p == player_id {
                                    return Err(Error::TournamentWon);
                                }
                            }
                        }
                    }
                }
                return Err(Error::Eliminated);
            },
        };
        let m = self.matches[i];
        let opponent = match (m.players[0], m.players[1]) {
            (Opponent::Player(p1), Opponent::Player(p2)) => {
                if p1 == player_id {
                    Opponent::Player(p2)
                } else if p2 == player_id {
                    Opponent::Player(p1)
                } else {
                    Opponent::Unknown
                }
            },
            _ => Opponent::Unknown,
        };
        Ok(Some((opponent, m.id)))
    }

    /// Player `player_id` lost two matches: they are eliminated from the
    /// bracket
    pub(crate) fn is_eliminated(&self, player_id: ID) -> (res: bool)
        requires
            winners_consistent(self.spec_matches()),
        ensures
            res == is_eliminated_in(self.spec_matches(), player_id),
    {
        let ghost b = self.spec_matches();
        let ghost lost = |m: Match| m.spec_loser() == Some(player_id);
        let mut losses: usize = 0;
        let mut i: usize = 0;
        while i < self.matches.len()
            invariant
                i <= b.len(),
                winners_consistent(b),
                self.matches@ == b,
                lost == (|m: Match| m.spec_loser() == Some(player_id)),
                losses == b.take(i as int).filter(lost).len(),
                losses <= i,
            decreases b.len() - i,
        {
            proof {
                reveal_with_fuel(Seq::filter, 1);
                assert(b.take(i + 1).drop_last() =~= b.take(i as int));
                assert(b.take(i + 1).last() == b[i as int]);
            }
            if self.matches[i].get_loser() == Some(player_id) {
                losses += 1;
            }
            i += 1;
        }
        assert(b.take(b.len() as int) =~= b);
        losses >= 2
    }
}

} // verus!
