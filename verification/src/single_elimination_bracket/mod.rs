//! Single elimination bracket: every player is out after their first loss

mod disqualify_from_bracket;
mod next_opponent_in_bracket;
pub mod progression;

use crate::bracket::matches::{
    advancement_closed, all_placed, copy_matches, first_pending, has_pending,
    position_of_first_pending, spec_bracket_is_over, spec_is_disqualified, spec_matches_to_play,
    spec_validated,
};
use crate::bracket::progression::spec_new_matches;
use crate::bracket::seeding::Seeding;
use crate::matches::{Id as MatchId, Match, ReportedResult};
use crate::player::Id as PlayerId;
use crate::seeding::single_elimination_seeded_bracket::{
    get_balanced_round_matches_top_seed_favored2, lemma_fresh_matches_closed,
    lemma_fresh_matches_place, lemma_single_elimination_closed,
    lemma_single_elimination_places_everyone, next_power_of_two,
};
use crate::ID;
use crate::ids::RandomIdError;
use vstd::prelude::*;

verus! {

/// Single elimination bracket
#[derive(Debug)]
pub struct SingleEliminationBracket {
    /// Matches of the bracket, round after round, the final last
    matches: Vec<Match>,
    /// Players, strongest first
    seeding: Seeding,
    /// Validate a match as soon as both players agree on its result
    automatic_match_progression: bool,
}

/// Error while reporting result in single elimination bracket
#[derive(Debug)]
pub enum SingleEliminationReportResultError {
    /// Player is unknown
    UnknownPlayer(ID),
    /// Match is unknown
    UnknownMatch(ID),
    /// Tournament is over
    TournamentIsOver,
    /// Player is disqualified
    ForbiddenDisqualified(ID),
    /// There is no match to play for player
    NoMatchToPlay(ID),
    /// Missing opponent
    MissingOpponent(),
}

/// Outcome of `p` reporting `result` in a bracket with matches `b`: the
/// matches afterwards, the match where the result was reported and the
/// matches that became playable. The result goes in the first match of `p`
/// without a winner, which is validated right away when `auto` is set.
pub open spec fn spec_report_result(b: Seq<Match>, auto: bool, p: PlayerId, result: (i8, i8)) -> Result<
    (Seq<Match>, MatchId, Seq<Match>),
    SingleEliminationReportResultError,
> {
    if spec_bracket_is_over(b) {
        Err(SingleEliminationReportResultError::TournamentIsOver)
    } else if spec_is_disqualified(p, b) {
        Err(SingleEliminationReportResultError::ForbiddenDisqualified(p))
    } else if !has_pending(b, p) {
        Err(SingleEliminationReportResultError::NoMatchToPlay(p))
    } else {
        let i = first_pending(b, p);
        match crate::matches::spec_update_reported_result(b[i], p, ReportedResult(result)) {
            Err(_) => Err(SingleEliminationReportResultError::MissingOpponent()),
            Ok(um) => {
                let b1 = b.update(i, um);
                let b2 = if auto {
                    spec_validated(b1, um.id)
                } else {
                    b1
                };
                Ok((b2, um.id, spec_new_matches(spec_matches_to_play(b), spec_matches_to_play(b2))))
            },
        }
    }
}

/// Matches after clearing the report of `p` in their first match without a
/// winner
pub open spec fn spec_cleared(b: Seq<Match>, p: PlayerId) -> Seq<Match> {
    if has_pending(b, p) {
        let i = first_pending(b, p);
        b.update(i, crate::matches::spec_clear_reported_result(b[i], p))
    } else {
        b
    }
}

impl Clone for SingleEliminationBracket {
    fn clone(&self) -> (res: Self)
        ensures
            res.spec_matches() == self.spec_matches(),
            res.spec_seeding() == self.spec_seeding(),
            res.spec_auto() == self.spec_auto(),
    {
        proof {
            use_type_invariant(self);
        }
        Self {
            matches: copy_matches(self.matches.as_slice()),
            seeding: self.seeding.clone(),
            automatic_match_progression: self.automatic_match_progression,
        }
    }
}

impl SingleEliminationBracket {
    /// The winner of every match but the last has a next match, and when
    /// matches exist every seeded player stands in one of them
    #[verifier::type_invariant]
    spec fn inv(self) -> bool {
        &&& advancement_closed(self.matches@)
        &&& crate::bracket::matches::distinct_ids(self.matches@)
        &&& self.matches@.len() > 0 ==> all_placed(self.matches@, self.seeding@)
    }

    /// Matches of the bracket
    pub closed spec fn spec_matches(self) -> Seq<Match> {
        self.matches@
    }

    /// Players of the bracket, strongest first
    pub closed spec fn spec_seeding(self) -> Seq<PlayerId> {
        self.seeding@
    }

    /// Matches are validated as soon as both players agree on the result
    pub closed spec fn spec_auto(self) -> bool {
        self.automatic_match_progression
    }

    /// Get matches of bracket
    #[must_use]
    pub fn get_matches(&self) -> (res: Vec<Match>)
        ensures
            res@ == self.spec_matches(),
            advancement_closed(res@),
            res@.len() > 0 ==> all_placed(res@, self.spec_seeding()),
    {
        proof {
            use_type_invariant(self);
        }
        copy_matches(self.matches.as_slice())
    }

    /// Create a new bracket for `seeding` and generate its matches
    ///
    /// # Errors
    /// thrown when no random identifier can be drawn for a match
    pub fn create(seeding: Seeding, automatic_match_progression: bool) -> (res: Result<
        Self,
        RandomIdError,
    >)
        requires
            seeding@.len() >= 1,
            next_power_of_two(seeding@.len()) <= usize::MAX,
        ensures
            seeding@.len() == 1 ==> res is Ok,
            res matches Ok(b) ==> {
                &&& crate::seeding::single_elimination_seeded_bracket::fresh_matches_with_shapes(
                    b.spec_matches(),
                    crate::seeding::single_elimination_seeded_bracket::single_elimination_shapes(
                        seeding@,
                    ),
                )
                &&& b.spec_seeding() == seeding@
                &&& b.spec_auto() == automatic_match_progression
            },
    {
        let matches = match get_balanced_round_matches_top_seed_favored2(&seeding) {
            Ok(m) => m,
            Err(_) => return Err(RandomIdError),
        };
        proof {
            let sh = crate::seeding::single_elimination_seeded_bracket::single_elimination_shapes(
                seeding@,
            );
            lemma_single_elimination_closed(seeding@);
            lemma_fresh_matches_closed(matches@, sh);
            if seeding@.len() >= 2 {
                lemma_single_elimination_places_everyone(seeding@);
                lemma_fresh_matches_place(matches@, sh, seeding@);
            } else {
                crate::seeding::single_elimination_seeded_bracket::lemma_single_elimination_match_count(
                    seeding@,
                );
            }
        }
        Ok(Self { seeding, matches, automatic_match_progression })
    }

    /// Create bracket from existing matches, whose identifiers are distinct
    pub fn new(seeding: Seeding, matches: Vec<Match>, automatic_match_progression: bool) -> (res:
        Self)
        requires
            all_placed(matches@, seeding@),
            advancement_closed(matches@),
            crate::bracket::matches::distinct_ids(matches@),
        ensures
            res.spec_matches() == matches@,
            res.spec_seeding() == seeding@,
            res.spec_auto() == automatic_match_progression,
    {
        Self { seeding, matches, automatic_match_progression }
    }

    /// Get seeding of bracket
    #[must_use]
    pub fn get_seeding(&self) -> (res: Seeding)
        ensures
            res@ == self.spec_seeding(),
    {
        self.seeding.clone()
    }

    /// Report result of `player_id` in their current match. Returns updated
    /// bracket, the match where the result was reported and new matches to
    /// play.
    ///
    /// # Errors
    /// thrown when the tournament is over, the player is disqualified, has
    /// no match to play or their opponent is not known yet
    pub fn report_result(self, player_id: ID, result: (i8, i8)) -> (res: Result<
        (SingleEliminationBracket, ID, Vec<Match>),
        SingleEliminationReportResultError,
    >)
        requires
            self.spec_seeding().contains(player_id),
        ensures
            res is Ok == spec_report_result(
                self.spec_matches(),
                self.spec_auto(),
                player_id,
                result,
            ) is Ok,
            res matches Err(e) ==> spec_report_result(
                self.spec_matches(),
                self.spec_auto(),
                player_id,
                result,
            ) == Err::<(Seq<Match>, MatchId, Seq<Match>), SingleEliminationReportResultError>(e),
            res matches Ok((b, id, new_matches)) ==> {
                &&& spec_report_result(self.spec_matches(), self.spec_auto(), player_id, result)
                    == Ok::<(Seq<Match>, MatchId, Seq<Match>), SingleEliminationReportResultError>(
                    (b.spec_matches(), id, new_matches@),
                )
                &&& b.spec_seeding() == self.spec_seeding()
                &&& b.spec_auto() == self.spec_auto()
            },
    {
        proof {
            use_type_invariant(&self);
        }
        if self.is_over() {
            return Err(SingleEliminationReportResultError::TournamentIsOver);
        }
        if self.is_disqualified(player_id) {
            return Err(SingleEliminationReportResultError::ForbiddenDisqualified(player_id));
        }
        let old_matches = self.matches_to_play();
        let i = match position_of_first_pending(self.matches.as_slice(), player_id) {
            Some(i) => i,
            None => return Err(SingleEliminationReportResultError::NoMatchToPlay(player_id)),
        };
        let updated = match self.matches[i].update_reported_result(
            player_id,
            ReportedResult(result),
        ) {
            Ok(m) => m,
            Err(_) => return Err(SingleEliminationReportResultError::MissingOpponent()),
        };
        let affected_match_id = updated.id;
        let ghost b = self.matches@;
        let Self { matches, seeding, automatic_match_progression } = self;
        let mut matches = matches;
        matches.set(i, updated);
        proof {
            crate::bracket::matches::lemma_update_same_structure(b, i as int, updated);
            crate::bracket::matches::lemma_placed_after_update(b, seeding@, i as int, updated);
        }
        let bracket = SingleEliminationBracket::new(seeding, matches, automatic_match_progression);
        let bracket = if automatic_match_progression {
            bracket.validate_match_result(affected_match_id).0
        } else {
            bracket
        };
        let new_matches = crate::bracket::progression::new_matches_to_play_for_bracket(
            old_matches.as_slice(),
            bracket.matches_to_play().as_slice(),
        );
        Ok((bracket, affected_match_id, new_matches))
    }

    /// Clear the report of `player_id` in their first match without a winner
    pub(crate) fn clear_reported_result(self, player_id: ID) -> (res: Self)
        ensures
            res.spec_matches() == spec_cleared(self.spec_matches(), player_id),
            res.spec_seeding() == self.spec_seeding(),
            res.spec_auto() == self.spec_auto(),
    {
        proof {
            use_type_invariant(&self);
        }
        match position_of_first_pending(self.matches.as_slice(), player_id) {
            Some(i) => {
                let cleared = self.matches[i].clear_reported_result(player_id);
                let ghost b = self.matches@;
                let Self { matches, seeding, automatic_match_progression } = self;
                let mut matches = matches;
                matches.set(i, cleared);
                proof {
                    crate::bracket::matches::lemma_update_same_structure(b, i as int, cleared);
                    if b.len() > 0 {
                        crate::bracket::matches::lemma_placed_after_update(
                            b,
                            seeding@,
                            i as int,
                            cleared,
                        );
                    }
                }
                Self { matches, seeding, automatic_match_progression }
            },
            None => self,
        }
    }
}

} // verus!
