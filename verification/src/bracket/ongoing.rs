//! Bracket under way: reported results, validated matches, next opponents

use crate::bracket::matches::{
    first_pending, first_with_id, has_id, has_pending, next_match, position_of_first_pending,
    position_of_match,
};
use crate::bracket::{Bracket, BracketView, Error};
use crate::matches::{Id as MatchId, Match, ReportedResult};
use crate::opponent::Opponent;
use crate::player::{ids_of, Id as PlayerId, Player};
use vstd::prelude::*;

verus! {

/// The winner of the match to validate is not already in the match where
/// they play next
pub open spec fn validation_places_newcomer(b: Seq<Match>, id: MatchId) -> bool {
    has_id(b, id) ==> {
        let i = first_with_id(b, id);
        match crate::matches::spec_update_outcome(b[i]) {
            Ok((um, w, _)) => {
                let b1 = b.update(i, um);
                b1.last().id != id ==> !b1[next_match(b1, i)].has_player(w)
            },
            Err(_) => true,
        }
    }
}

/// Matches after validating the first match with `id`: its winner is
/// declared and takes the place of its seed in their next match
pub open spec fn spec_validated_matches(b: Seq<Match>, id: MatchId) -> Seq<Match> {
    let i = first_with_id(b, id);
    let (um, w, _) = crate::matches::spec_update_outcome(b[i])->Ok_0;
    let b1 = b.update(i, um);
    if b1.last().id == id {
        b1
    } else {
        let j = next_match(b1, i);
        let s = um.seeds[0];
        b1.update(
            j,
            b1[j].with_players(
                if b1[j].seeds[0] == s {
                    [Opponent::Player(w), b1[j].players[1]]
                } else {
                    [b1[j].players[0], Opponent::Player(w)]
                },
            ),
        )
    }
}

/// Name of participant `o` of `ps`, `?` when unknown
pub open spec fn name_of(ps: Seq<Player>, o: PlayerId) -> Seq<char> {
    if ids_of(ps).contains(o) {
        ps[choose|k: int| 0 <= k < ps.len() && ids_of(ps)[k] == o].spec_name()
    } else {
        seq!['?']
    }
}

/// Opponent of `p` in `m`: the other slot of the match
pub open spec fn other_slot(m: Match, p: PlayerId) -> Opponent {
    if m.players[0] == Opponent::Player(p) {
        m.players[1]
    } else {
        m.players[0]
    }
}

impl Bracket {
    /// Report result for a match in this bracket. Returns updated bracket and
    /// affected match id
    ///
    /// # Errors
    /// Thrown when the bracket does not accept results, the player has no
    /// match to play or the result cannot be recorded
    pub fn report_result(self, player_id: PlayerId, result: ReportedResult) -> (res: Result<
        (Bracket, MatchId),
        Error,
    >)
        ensures
            !self@.accept_match_results ==> (res matches Err(Error::AcceptResults(p, b)) && p
                == player_id && b == self@.id),
            self@.accept_match_results && !has_pending(self@.matches, player_id) ==> (
            res matches Err(Error::NoMatchToPlay(p, b)) && p == player_id && b == self@.id),
            self@.accept_match_results && has_pending(self@.matches, player_id) ==> {
                let b = self@.matches;
                let id = b[first_pending(b, player_id)].id;
                let i = first_with_id(b, id);
                match crate::matches::spec_update_reported_result(b[i], player_id, result) {
                    Err(e) => res matches Err(Error::Match(e2)) && e2 == e,
                    Ok(um) => res matches Ok((nb, mid)) && mid == id && nb@ == (BracketView {
                        matches: b.update(i, um),
                        ..self@
                    }),
                }
            },
    {
        if !self.accept_match_results {
            return Err(Error::AcceptResults(player_id, self.bracket_id));
        }
        let bracket_id = self.bracket_id;
        match position_of_first_pending(self.matches.as_slice(), player_id) {
            Some(i) => {
                let affected_match_id = self.matches[i].id;
                proof {
                    crate::bracket::matches::lemma_first_with_id(
                        self@.matches,
                        affected_match_id,
                        i as int,
                    );
                }
                let updated_bracket = self.update_match_result(
                    affected_match_id,
                    result,
                    player_id,
                )?;
                Ok((updated_bracket, affected_match_id))
            },
            None => Err(Error::NoMatchToPlay(player_id, bracket_id)),
        }
    }

    /// Report match result and returns updated bracket
    ///
    /// # Errors
    /// Thrown when given match id does not correspond to any match in the
    /// bracket or the result cannot be recorded
    fn update_match_result(self, match_id: MatchId, result: ReportedResult, player_id: PlayerId) -> (res:
        Result<Bracket, Error>)
        ensures
            !has_id(self@.matches, match_id) ==> (res matches Err(Error::UnknownMatch(m)) && m
                == match_id),
            has_id(self@.matches, match_id) ==> {
                let b = self@.matches;
                let i = first_with_id(b, match_id);
                match crate::matches::spec_update_reported_result(b[i], player_id, result) {
                    Err(e) => res matches Err(Error::Match(e2)) && e2 == e,
                    Ok(um) => res matches Ok(nb) && nb@ == (BracketView {
                        matches: b.update(i, um),
                        ..self@
                    }),
                }
            },
    {
        proof {
            use_type_invariant(&self);
        }
        let i = match position_of_match(self.matches.as_slice(), match_id) {
            Some(i) => i,
            None => return Err(Error::UnknownMatch(match_id)),
        };
        proof {
            crate::bracket::matches::lemma_first_with_id_unique(self@.matches, match_id, i as int);
        }
        let updated_match = match self.matches[i].update_reported_result(player_id, result) {
            Ok(m) => m,
            Err(e) => return Err(Error::Match(e)),
        };
        let ghost b = self.matches@;
        let mut matches = crate::bracket::matches::copy_matches(self.matches.as_slice());
        matches.set(i, updated_match);
        proof {
            crate::bracket::matches::lemma_update_same_structure(b, i as int, updated_match);
        }
        Ok(Self { matches, ..self })
    }

    /// Validate match result and return updated bracket. Winner moves forward
    /// in bracket. If final match is validated, then bracket will stop
    /// accepting match result.
    ///
    /// # Errors
    /// Thrown when given match id is unknown or when reported results differ
    pub fn validate_match_result(self, match_id: MatchId) -> (res: Result<Self, Error>)
        requires
            validation_places_newcomer(self@.matches, match_id),
        ensures
            !has_id(self@.matches, match_id) ==> (res matches Err(Error::UnknownMatch(m)) && m
                == match_id),
            has_id(self@.matches, match_id) ==> {
                let b = self@.matches;
                let i = first_with_id(b, match_id);
                match crate::matches::spec_update_outcome(b[i]) {
                    Err(e) => res matches Err(Error::Match(e2)) && e2 == e,
                    Ok(_) => res matches Ok(nb) && nb@ == (BracketView {
                        matches: spec_validated_matches(b, match_id),
                        accept_match_results: self@.accept_match_results && b.last().id
                            != match_id,
                        ..self@
                    }),
                }
            },
    {
        proof {
            use_type_invariant(&self);
        }
        let ghost b = self.matches@;
        let i = match position_of_match(self.matches.as_slice(), match_id) {
            Some(i) => i,
            None => return Err(Error::UnknownMatch(match_id)),
        };
        proof {
            crate::bracket::matches::lemma_first_with_id_unique(b, match_id, i as int);
        }
        let (updated_match, winner_id, _) = match self.matches[i].update_outcome() {
            Ok(t) => t,
            Err(e) => return Err(Error::Match(e)),
        };
        let seed_of_expected_winner = updated_match.seeds[0];
        let mut updated_matches = crate::bracket::matches::copy_matches(self.matches.as_slice());
        updated_matches.set(i, updated_match);
        proof {
            crate::bracket::matches::lemma_update_same_structure(b, i as int, updated_match);
        }
        let last = updated_matches.len() - 1;
        if updated_matches[last].id == match_id {
            return Ok(Self { accept_match_results: false, matches: updated_matches, ..self });
        }
        let j = crate::bracket::matches::position_of_next_match(&updated_matches, i);
        let m = updated_matches[j];
        let updated = m.set_player(winner_id, m.seeds[0] == seed_of_expected_winner);
        let ghost b1 = updated_matches@;
        updated_matches.set(j, updated);
        proof {
            crate::bracket::matches::lemma_update_same_structure(b1, j as int, updated);
        }
        Ok(Self { matches: updated_matches, ..self })
    }

    /// Return next opponent for `player_id`, relevant match and opponent name
    ///
    /// # Errors
    /// Thrown when matches have yet to be generated or player has won/been
    /// eliminated
    pub fn next_opponent(&self, player_id: PlayerId) -> (res: Result<
        (Opponent, MatchId, String),
        Error,
    >)
        ensures
            !ids_of(self@.participants).contains(player_id) ==> (res matches Err(
                Error::PlayerIsNotParticipant(p, b),
            ) && p == player_id && b == self@.id),
            ids_of(self@.participants).contains(player_id) && self@.matches.len() == 0 ==> (
            res matches Err(Error::NoGeneratedMatches(b)) && b == self@.id),
            ids_of(self@.participants).contains(player_id) && self@.matches.len() > 0
                && !has_pending(self@.matches, player_id) ==> (if self@.matches.last().winner
                == Opponent::Player(player_id) {
                res matches Err(Error::NoNextMatch(p, b)) && p == player_id && b == self@.id
            } else {
                res matches Err(Error::EliminatedFromBracket(p, b)) && p == player_id && b
                    == self@.id
            }),
            ids_of(self@.participants).contains(player_id) && has_pending(
                self@.matches,
                player_id,
            ) ==> {
                let m = self@.matches[first_pending(self@.matches, player_id)];
                let o = other_slot(m, player_id);
                res matches Ok((opponent, id, name)) && opponent == o && id == m.id && name@
                    == match o {
                    Opponent::Player(x) => name_of(self@.participants, x),
                    Opponent::Unknown => seq!['?'],
                }
            },
    {
        proof {
            use_type_invariant(self);
        }
        if self.participants.get(player_id).is_none() {
            return Err(Error::PlayerIsNotParticipant(player_id, self.bracket_id));
        }
        if self.matches.len() == 0 {
            return Err(Error::NoGeneratedMatches(self.bracket_id));
        }
        let i = match position_of_first_pending(self.matches.as_slice(), player_id) {
            Some(i) => i,
            None => {
                let last_match = self.matches[self.matches.len() - 1];
                if let Opponent::Player(id) = last_match.winner {
                    if id == player_id {
                        return Err(Error::NoNextMatch(player_id, self.bracket_id));
                    }
                }
                return Err(Error::EliminatedFromBracket(player_id, self.bracket_id));
            },
        };
        let relevant_match = self.matches[i];
        let opponent = if relevant_match.players[0].is_player(player_id) {
            relevant_match.players[1]
        } else {
            relevant_match.players[0]
        };
        let player_name = match opponent {
            Opponent::Player(opponent_id) => match self.participants.get(opponent_id) {
                Some(p) => {
                    proof {
                        let ps = self@.participants;
                        let x = choose|x: int| 0 <= x < ps.len() && ps[x] == p;
                        assert(ids_of(ps)[x] == opponent_id);
                        let k = choose|k: int| 0 <= k < ps.len() && ids_of(ps)[k] == opponent_id;
                        if x < k {
                            assert(ids_of(ps)[x] != ids_of(ps)[k]);
                        }
                        if k < x {
                            assert(ids_of(ps)[k] != ids_of(ps)[x]);
                        }
                    }
                    p.get_name()
                },
                None => Opponent::Unknown.to_string(),
            },
            Opponent::Unknown => Opponent::Unknown.to_string(),
        };
        Ok((opponent, relevant_match.id, player_name))
    }
}

} // verus!
