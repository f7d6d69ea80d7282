//! Progression of a single elimination bracket

use crate::bracket::matches::{
    advancement_closed, first_pending, has_pending, is_first_pending, is_pending_for,
    first_with_id, has_id, is_disqualified, matches_to_play_in, position_of_first_pending,
    position_of_match, spec_bracket_is_over, spec_is_disqualified, spec_matches_to_play,
    spec_validated, update,
};
use crate::bracket::progression::{new_matches_to_play_for_bracket, spec_new_matches};
use crate::matches::{Id, Match, ReportedResult};
use crate::opponent::Opponent;
use crate::single_elimination_bracket::{
    spec_cleared, spec_report_result, SingleEliminationBracket,
    SingleEliminationReportResultError,
};
use crate::ID;
use vstd::prelude::*;

verus! {

/// Outcome of the tournament organiser reporting `result` of `p1` against
/// `p2`: both reports are cleared, then `p1` reports `result` and `p2` the
/// reverse
pub open spec fn spec_organiser_report(
    b: Seq<Match>,
    auto: bool,
    p1: ID,
    result: (i8, i8),
    p2: ID,
) -> Result<(Seq<Match>, Id, Seq<Match>), SingleEliminationReportResultError> {
    let b0 = spec_cleared(spec_cleared(b, p1), p2);
    match spec_report_result(b0, auto, p1, result) {
        Err(e) => Err(e),
        Ok((b1, _, _)) => spec_report_result(b1, auto, p2, (result.1, result.0)),
    }
}

/// When the report of `p1` goes through, `p2` is a player of the bracket
/// and their report lands in the same match
pub open spec fn organiser_report_is_consistent(
    b: Seq<Match>,
    seeding: Seq<ID>,
    auto: bool,
    p1: ID,
    result: (i8, i8),
    p2: ID,
) -> bool {
    let b0 = spec_cleared(spec_cleared(b, p1), p2);
    spec_report_result(b0, auto, p1, result) matches Ok((b1, a1, _)) ==> {
        &&& seeding.contains(p2)
        &&& spec_report_result(b1, auto, p2, (result.1, result.0)) matches Ok((_, a2, _)) ==> a1
            == a2
    }
}

/// Brackets whose matches have the same players and winners have the same
/// pending matches
pub(crate) proof fn lemma_same_pending(b: Seq<Match>, c: Seq<Match>, p: ID, i: int)
    requires
        b.len() == c.len(),
        forall|k: int| 0 <= k < b.len() ==> (#[trigger] c[k]).players == b[k].players && c[k].winner
            == b[k].winner,
        is_first_pending(b, p, i),
    ensures
        is_first_pending(c, p, i),
        first_pending(c, p) == i,
        has_pending(c, p),
{
    assert forall|k: int| 0 <= k < i implies !is_pending_for(c, p, k) by {
        assert(!is_pending_for(b, p, k));
        assert(c[k].players == b[k].players);
    }
    assert(c[i].players == b[i].players);
    crate::bracket::matches::lemma_first_pending(c, p, i);
}

/// Clearing the reports of two players of the same first match without a
/// winner clears both reports of that match only
proof fn lemma_cleared_pair(b: Seq<Match>, p1: ID, p2: ID, i: int)
    requires
        p1 != p2,
        is_first_pending(b, p1, i),
        is_first_pending(b, p2, i),
        crate::bracket::matches::is_first_with_id(b, b[i].id, i),
    ensures
        ({
            let b0 = spec_cleared(spec_cleared(b, p1), p2);
            &&& b0 == b.update(i, Match { reported_results: [(0, 0), (0, 0)], ..b[i] })
            &&& is_first_pending(b0, p1, i)
            &&& is_first_pending(b0, p2, i)
            &&& crate::bracket::matches::is_first_with_id(b0, b[i].id, i)
        }),
{
    let m = b[i];
    crate::bracket::matches::lemma_first_pending(b, p1, i);
    let c1 = spec_cleared(b, p1);
    lemma_same_pending(b, c1, p2, i);
    let b0 = spec_cleared(c1, p2);
    assert(b0 =~= b.update(i, Match { reported_results: [(0, 0), (0, 0)], ..m }));
    lemma_same_pending(b, b0, p1, i);
    lemma_same_pending(b, b0, p2, i);
}

/// Validating a match where one report is missing decides it only when `p2`
/// is disqualified from it
proof fn lemma_validation_with_one_report(b1: Seq<Match>, i: int, p1: ID, p2: ID)
    requires
        advancement_closed(b1),
        crate::bracket::matches::is_first_with_id(b1, b1[i].id, i),
        b1[i].has_player(p1),
        b1[i].has_player(p2),
        p1 != p2,
        b1[i].automatic_loser != Opponent::Player(p1),
        (crate::matches::is_player(b1[i].players[0], p1) && b1[i].reported_results[1] == (0i8, 0i8))
            || (crate::matches::is_player(b1[i].players[1], p1) && b1[i].reported_results[0] == (
        0i8, 0i8)),
    ensures
        spec_validated(b1, b1[i].id) == b1 || spec_is_disqualified(
            p2,
            spec_validated(b1, b1[i].id),
        ),
{
    let id = b1[i].id;
    crate::bracket::matches::lemma_first_with_id_unique(b1, id, i);
    crate::bracket::matches::lemma_update_keeps_structure_and_progress(b1, id);
    if let Ok((b2, _)) = crate::bracket::matches::spec_update(b1, id) {
        let (_, w, _) = crate::matches::spec_update_outcome(b1[i])->Ok_0;
        assert(b1[i].automatic_loser == Opponent::Player(p2));
        assert(b1.update(i, b1[i].with_winner(w))[i].automatic_loser == Opponent::Player(p2));
        assert(b2[i].automatic_loser == Opponent::Player(p2));
    }
}

/// When two players face each other in the first match without a winner of
/// each of them, the report of the tournament organiser is consistent:
/// whenever both reports go through, they land in the same match
pub proof fn lemma_organiser_report_consistent(
    b: Seq<Match>,
    seeding: Seq<ID>,
    auto: bool,
    p1: ID,
    result: (i8, i8),
    p2: ID,
    i: int,
)
    requires
        seeding.contains(p1),
        seeding.contains(p2),
        p1 != p2,
        advancement_closed(b),
        is_first_pending(b, p1, i),
        is_first_pending(b, p2, i),
        crate::bracket::matches::is_first_with_id(b, b[i].id, i),
    ensures
        organiser_report_is_consistent(b, seeding, auto, p1, result, p2),
{
    let m = b[i];
    lemma_cleared_pair(b, p1, p2, i);
    let b0 = spec_cleared(spec_cleared(b, p1), p2);
    crate::bracket::matches::lemma_first_pending(b0, p1, i);
    if spec_report_result(b0, auto, p1, result) is Ok {
        let m0 = b0[i];
        let um1 = crate::matches::spec_update_reported_result(m0, p1, ReportedResult(result))->Ok_0;
        let b1 = b0.update(i, um1);
        assert(um1.id == m.id);
        crate::bracket::matches::lemma_update_same_structure(b0, i, um1);
        crate::bracket::matches::lemma_update_same_structure(b, i, m0);
        assert(crate::bracket::matches::is_first_with_id(b1, m.id, i));
        lemma_same_pending(b, b1, p2, i);
        if auto {
            assert(!spec_is_disqualified(p1, b0));
            assert(b0[i].automatic_loser != Opponent::Player(p1));
            lemma_validation_with_one_report(b1, i, p1, p2);
        }
        if spec_report_result(b1, auto, p2, (result.1, result.0)) is Ok {
            assert(spec_report_result(b1, auto, p2, (result.1, result.0))->Ok_0.1 == m.id);
        }
    }
}

impl SingleEliminationBracket {
    /// Returns true if bracket is over (all matches are played)
    #[must_use]
    pub fn is_over(&self) -> (res: bool)
        ensures
            res == spec_bracket_is_over(self.spec_matches()),
    {
        crate::bracket::matches::bracket_is_over(self.matches.as_slice())
    }

    /// Returns true if player is disqualified
    pub fn is_disqualified(&self, player_id: Id) -> (res: bool)
        ensures
            res == spec_is_disqualified(player_id, self.spec_matches()),
    {
        is_disqualified(player_id, self.matches.as_slice())
    }

    /// List all matches that can be played out
    pub fn matches_to_play(&self) -> (res: Vec<Match>)
        ensures
            res@ == spec_matches_to_play(self.spec_matches()),
    {
        matches_to_play_in(self.matches.as_slice())
    }

    /// Update `match_id` with reported `result` of `player_id`: the first
    /// match with that identifier gets the report
    ///
    /// # Errors
    /// thrown when the opponent of the player is not known yet
    pub fn update_player_reported_match_result(self, match_id: ID, result: (i8, i8), player_id: ID) -> (res:
        Result<Vec<Match>, SingleEliminationReportResultError>)
        requires
            has_id(self.spec_matches(), match_id),
            self.spec_matches()[first_with_id(self.spec_matches(), match_id)].has_player(
                player_id,
            ),
        ensures
            ({
                let b = self.spec_matches();
                let i = first_with_id(b, match_id);
                match crate::matches::spec_update_reported_result(
                    b[i],
                    player_id,
                    ReportedResult(result),
                ) {
                    Ok(um) => res matches Ok(v) && v@ == b.update(i, um),
                    Err(_) => res matches Err(e) && e is MissingOpponent,
                }
            }),
    {
        let i = match position_of_match(self.matches.as_slice(), match_id) {
            Some(i) => i,
            None => {
                proof {
                    assert(false);
                }
                return Err(SingleEliminationReportResultError::UnknownMatch(match_id));
            },
        };
        proof {
            crate::bracket::matches::lemma_first_with_id_unique(
                self.spec_matches(),
                match_id,
                i as int,
            );
        }
        let updated = match self.matches[i].update_reported_result(
            player_id,
            ReportedResult(result),
        ) {
            Ok(m) => m,
            Err(_) => return Err(SingleEliminationReportResultError::MissingOpponent()),
        };
        let mut matches = crate::bracket::matches::copy_matches(self.matches.as_slice());
        matches.set(i, updated);
        Ok(matches)
    }

    /// Returns updated bracket and new matches to play after validating
    /// `match_id`. The bracket is unchanged when the match cannot be
    /// validated yet (a missing opponent, reports that do not agree).
    pub fn validate_match_result(self, match_id: Id) -> (res: (SingleEliminationBracket, Vec<Match>))
        requires
            has_id(self.spec_matches(), match_id),
        ensures
            res.0.spec_matches() == spec_validated(self.spec_matches(), match_id),
            res.0.spec_seeding() == self.spec_seeding(),
            res.0.spec_auto() == self.spec_auto(),
            res.1@ == spec_new_matches(
                spec_matches_to_play(self.spec_matches()),
                spec_matches_to_play(res.0.spec_matches()),
            ),
    {
        proof {
            use_type_invariant(&self);
            crate::bracket::matches::lemma_validated(self.matches@, match_id, self.seeding@);
        }
        let old_matches_to_play = self.matches_to_play();
        match update(self.matches.as_slice(), match_id) {
            Ok((matches, _)) => {
                proof {
                    crate::bracket::matches::lemma_update_keeps_structure_and_progress(
                        self.matches@,
                        match_id,
                    );
                    crate::bracket::matches::lemma_same_structure_closed(self.matches@, matches@);
                }
                let Self { matches: _, seeding, automatic_match_progression } = self;
                let bracket = SingleEliminationBracket { matches, seeding, automatic_match_progression };
                let new = new_matches_to_play_for_bracket(
                    old_matches_to_play.as_slice(),
                    bracket.matches_to_play().as_slice(),
                );
                (bracket, new)
            },
            Err(_) => {
                let new = new_matches_to_play_for_bracket(
                    old_matches_to_play.as_slice(),
                    old_matches_to_play.as_slice(),
                );
                (self, new)
            },
        }
    }

    /// Return next opponent for `player_id` and relevant match ID. Nothing
    /// when the player is disqualified or has no match left to play.
    pub fn next_opponent(&self, player_id: ID) -> (res: Option<(Opponent, Id)>)
        requires
            self.spec_seeding().contains(player_id),
            self.spec_matches().len() > 0,
        ensures
            ({
                let b = self.spec_matches();
                if spec_is_disqualified(player_id, b) || !crate::bracket::matches::has_pending(
                    b,
                    player_id,
                ) {
                    res is None
                } else {
                    let m = b[crate::bracket::matches::first_pending(b, player_id)];
                    res == Some((crate::bracket::matches::opponent_of(m, player_id), m.id))
                }
            }),
    {
        if is_disqualified(player_id, self.matches.as_slice()) {
            return None;
        }
        let i = match position_of_first_pending(self.matches.as_slice(), player_id) {
            Some(i) => i,
            None => return None,
        };
        let m = self.matches[i];
        let opponent = match (m.players[0], m.players[1]) {
            (Opponent::Player(p1), Opponent::Player(p2)) => {
                if p1 == player_id {
                    Opponent::Player(p2)
                } else if p2 == player_id {
                    Opponent::Player(p1)
                } else {
                    Opponent::Unknown
                }
            },
            _ => Opponent::Unknown,
        };
        Some((opponent, m.id))
    }

    /// Tournament organiser reports result
    ///
    /// NOTE: both players are needed, so it is less ambiguous when reading code:
    /// * p1 2-0 is more ambiguous to read than
    /// * p1 2-0 p2
    ///
    /// Technically, it's unnecessary.
    ///
    /// # Errors
    /// thrown when either report is refused
    pub fn tournament_organiser_reports_result(self, player1: ID, result: (i8, i8), player2: ID) -> (res:
        Result<(SingleEliminationBracket, Id, Vec<Match>), SingleEliminationReportResultError>)
        requires
            self.spec_seeding().contains(player1),
            organiser_report_is_consistent(
                self.spec_matches(),
                self.spec_seeding(),
                self.spec_auto(),
                player1,
                result,
                player2,
            ),
        ensures
            res is Ok == spec_organiser_report(
                self.spec_matches(),
                self.spec_auto(),
                player1,
                result,
                player2,
            ) is Ok,
            res matches Err(e) ==> spec_organiser_report(
                self.spec_matches(),
                self.spec_auto(),
                player1,
                result,
                player2,
            ) == Err::<(Seq<Match>, Id, Seq<Match>), SingleEliminationReportResultError>(e),
            res matches Ok((b, id, new_matches)) ==> {
                &&& spec_organiser_report(
                    self.spec_matches(),
                    self.spec_auto(),
                    player1,
                    result,
                    player2,
                ) == Ok::<(Seq<Match>, Id, Seq<Match>), SingleEliminationReportResultError>(
                    (b.spec_matches(), id, new_matches@),
                )
                &&& b.spec_seeding() == self.spec_seeding()
                &&& b.spec_auto() == self.spec_auto()
            },
    {
        let result_player_1 = ReportedResult(result);
        let bracket = self.clear_reported_result(player1);
        let bracket = bracket.clear_reported_result(player2);
        let (bracket, first_affected_match, _new_matches) = bracket.report_result(
            player1,
            result,
        )?;
        let (bracket, second_affected_match, new_matches_2) = bracket.report_result(
            player2,
            result_player_1.reverse().0,
        )?;
        assert(first_affected_match == second_affected_match);
        Ok((bracket, first_affected_match, new_matches_2))
    }
}

} // verus!
