//! Disqualify a player from a double elimination bracket

use crate::bracket::matches::{first_pending, has_id, has_pending, position_of_first_pending};
use crate::double_elimination_bracket::next_opponent::{is_eliminated_in, winners_consistent};
use crate::double_elimination_bracket::progression::{spec_de_is_over, spec_validate_de};
use crate::double_elimination_bracket::{lemma_well_formed_after_update, DoubleEliminationBracket};
use crate::matches::Match;
use crate::opponent::Opponent;
use crate::ID;
use vstd::prelude::*;

verus! {

/// Error while disqualifying a player
#[derive(Debug, PartialEq, Eq, Structural)]
pub enum Error {
    /// Player won tournament
    WonTournament,
    /// Player was eliminated from tournament
    Eliminated,
}

/// Match `i` of `b` is a match of `p` with neither winner nor disqualified
/// player
pub open spec fn is_open_match_of(b: Seq<Match>, p: ID, i: int) -> bool {
    0 <= i < b.len() && b[i].has_player(p) && b[i].winner is Unknown && b[i].automatic_loser is Unknown
}

/// Match `i` is the last open match of `p`
pub open spec fn is_last_open_match_of(b: Seq<Match>, p: ID, i: int) -> bool {
    is_open_match_of(b, p, i) && forall|k: int| i < k < b.len() ==> !is_open_match_of(b, p, k)
}

/// Last open match of `p`
pub open spec fn last_open_match_of(b: Seq<Match>, p: ID) -> int {
    choose|i: int| is_last_open_match_of(b, p, i)
}

/// `m` where `p` is declared loser
pub open spec fn with_automatic_loser(m: Match, p: ID) -> Match {
    Match { automatic_loser: Opponent::Player(p), ..m }
}

/// Matches after disqualifying `p` from the bracket of `n` players with
/// matches `b`: `p` loses their last open match, which is validated when both
/// players are known; if `p` then still has a match to play (in the loser
/// bracket), they lose it too and it is validated when both players are
/// known
pub open spec fn spec_disqualify_de(b: Seq<Match>, n: int, p: ID) -> Seq<Match> {
    let i = last_open_match_of(b, p);
    let m = with_automatic_loser(b[i], p);
    let b1 = b.update(i, m);
    if !m.both_present() {
        b1
    } else {
        let b2 = spec_validate_de(b1, n, m.id);
        if !has_pending(b2, p) {
            b2
        } else {
            let k = first_pending(b2, p);
            let b3 = b2.update(k, with_automatic_loser(b2[k], p));
            if b3[k].both_present() {
                spec_validate_de(b3, n, b3[k].id)
            } else {
                b3
            }
        }
    }
}

/// Position of the last open match of `p`
fn position_of_last_open_match(b: &[Match], p: ID) -> (res: Option<usize>)
    ensures
        res is Some <==> exists|i: int| is_open_match_of(b@, p, i),
        res matches Some(i) ==> is_last_open_match_of(b@, p, i as int) && last_open_match_of(
            b@,
            p,
        ) == i,
{
    let mut i: usize = b.len();
    while i > 0
        invariant
            i <= b@.len(),
            forall|k: int| i <= k < b@.len() ==> !is_open_match_of(b@, p, k),
        decreases i,
    {
        let k = i - 1;
        if b[k].contains(p) && b[k].winner.is_unknown() && b[k].automatic_loser.is_unknown() {
            proof {
                assert(is_last_open_match_of(b@, p, k as int));
                let f = last_open_match_of(b@, p);
                assert(is_last_open_match_of(b@, p, f));
                if f < k {
                    assert(!is_open_match_of(b@, p, k as int));
                }
                if k < f {
                    assert(!is_open_match_of(b@, p, f));
                }
            }
            return Some(k);
        }
        i = k;
    }
    None
}

impl DoubleEliminationBracket {
    /// Disqualify participant from bracket completely
    ///
    /// # Errors
    /// thrown when the player lost twice or has no match left to lose (they
    /// were eliminated), or when the bracket is over
    pub fn disqualify_participant_from_bracket(&self, player_id: ID) -> (res: Result<Self, Error>)
        requires
            self.spec_seeding().contains(player_id),
            self.spec_n() >= 3,
            winners_consistent(self.spec_matches()),
        ensures
            is_eliminated_in(self.spec_matches(), player_id) ==> res == Err::<Self, Error>(
                Error::Eliminated,
            ),
            !is_eliminated_in(self.spec_matches(), player_id) && spec_de_is_over(
                self.spec_matches(),
                self.spec_n(),
            ) ==> res == Err::<Self, Error>(Error::WonTournament),
            !is_eliminated_in(self.spec_matches(), player_id) && !spec_de_is_over(
                self.spec_matches(),
                self.spec_n(),
            ) && !(exists|i: int| is_open_match_of(self.spec_matches(), player_id, i)) ==> res
                == Err::<Self, Error>(Error::Eliminated),
            !is_eliminated_in(self.spec_matches(), player_id) && !spec_de_is_over(
                self.spec_matches(),
                self.spec_n(),
            ) && (exists|i: int|
                is_open_match_of(self.spec_matches(), player_id, i)) ==> (res matches Ok(b) && {
                &&& b.spec_matches() == spec_disqualify_de(
                    self.spec_matches(),
                    self.spec_n(),
                    player_id,
                )
                &&& b.spec_seeding() == self.spec_seeding()
                &&& b.spec_mode() == self.spec_mode()
            }),
    {
        proof {
            use_type_invariant(self);
        }
        if self.is_eliminated(player_id) {
            return Err(Error::Eliminated);
        } else if self.is_over() {
            return Err(Error::WonTournament);
        }
        let i = match position_of_last_open_match(self.matches.as_slice(), player_id) {
            Some(i) => i,
            None => return Err(Error::Eliminated),
        };
        let n = self.seeding.len();
        let m = Match { automatic_loser: Opponent::Player(player_id), ..self.matches[i] };
        let initial_match_for_disqualification_can_be_validated = m.both_opponents_are_present();
        let initial_match_for_disqualification_id = m.id;
        let mut matches_to_update = crate::bracket::matches::copy_matches(self.matches.as_slice());
        matches_to_update.set(i, m);
        proof {
            lemma_well_formed_after_update(self.matches@, n as int, i as int, m);
        }
        let bracket = DoubleEliminationBracket::new(
            matches_to_update,
            self.seeding.clone(),
            self.automatic_match_validation_mode,
        );
        if initial_match_for_disqualification_can_be_validated {
            proof {
                assert(bracket.spec_matches()[i as int].id == initial_match_for_disqualification_id);
            }
            let (bracket, _) = bracket.validate_match_result(initial_match_for_disqualification_id);
            proof {
                use_type_invariant(&bracket);
            }
            let k = match position_of_first_pending(bracket.matches.as_slice(), player_id) {
                Some(k) => k,
                None => return Ok(bracket),
            };
            let match_in_losers = Match {
                automatic_loser: Opponent::Player(player_id),
                ..bracket.matches[k]
            };
            let match_in_loser_id = match_in_losers.id;
            let match_in_loser_can_be_validated = match_in_losers.both_opponents_are_present();
            let mut matches_to_update = crate::bracket::matches::copy_matches(
                bracket.matches.as_slice(),
            );
            matches_to_update.set(k, match_in_losers);
            proof {
                lemma_well_formed_after_update(bracket.matches@, n as int, k as int, match_in_losers);
            }
            let bracket = DoubleEliminationBracket::new(
                matches_to_update,
                bracket.seeding.clone(),
                self.automatic_match_validation_mode,
            );
            if match_in_loser_can_be_validated {
                proof {
                    assert(bracket.spec_matches()[k as int].id == match_in_loser_id);
                }
                let (bracket, _) = bracket.validate_match_result(match_in_loser_id);
                Ok(bracket)
            } else {
                Ok(bracket)
            }
        } else {
            Ok(bracket)
        }
    }
}

} // verus!
