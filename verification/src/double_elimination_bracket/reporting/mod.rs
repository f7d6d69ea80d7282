//! The tournament organiser reports the result of a given match

use crate::bracket::matches::{first_with_id, has_id, position_of_match, spec_matches_to_play};
use crate::bracket::progression::id_among;
use crate::bracket::matches::{
    is_first_pending, is_first_with_id, lemma_first_with_id_unique, spec_is_disqualified,
};
use crate::double_elimination_bracket::progression::{
    de_report_validates, spec_cleared_match, spec_report_de, spec_reported,
};
use crate::opponent::Opponent;
use crate::double_elimination_bracket::DoubleEliminationBracket;
use crate::matches::{Match, MatchID, ReportedResult};
use crate::player::PlayerID;
use crate::validation::AutomaticMatchValidationMode;
use vstd::prelude::*;

verus! {

/// Error while reporting the result of a match
#[derive(Debug, PartialEq, Eq, Structural)]
pub enum MatchReportError {
    /// Match has already been reported
    AlreadyReported,
}

/// Matches after the tournament organiser reports `score` of `p1` against
/// `p2` in match `match_id` (reports of that match cleared first), with the
/// match where each report landed
pub open spec fn spec_organiser_reports_match(
    b: Seq<Match>,
    n: int,
    mode: AutomaticMatchValidationMode,
    match_id: MatchID,
    p1: PlayerID,
    score: (i8, i8),
    p2: PlayerID,
) -> (Seq<Match>, MatchID, MatchID) {
    let b0 = spec_cleared_match(b, match_id);
    let (b1, a1, _) = spec_report_de(b0, n, mode, p1, score)->Ok_0;
    let (b2, a2, _) = spec_report_de(b1, n, mode, p2, (score.1, score.0))->Ok_0;
    (b2, a1, a2)
}

/// Both reports of the tournament organiser go through and land in the
/// same match
pub open spec fn organiser_reports_match_is_consistent(
    b: Seq<Match>,
    seeding: Seq<PlayerID>,
    mode: AutomaticMatchValidationMode,
    match_id: MatchID,
    p1: PlayerID,
    score: (i8, i8),
    p2: PlayerID,
) -> bool {
    let n = seeding.len() as int;
    let b0 = spec_cleared_match(b, match_id);
    &&& seeding.contains(p1)
    &&& seeding.contains(p2)
    &&& has_id(b, match_id)
    &&& b.len() == 2 * n - 1
    &&& !b[first_with_id(b, match_id)].spec_is_over() ==> {
        &&& de_report_validates(b0, mode, p1, score) ==> n >= 3
        &&& spec_report_de(b0, n, mode, p1, score) matches Ok((b1, a1, _)) && {
            &&& de_report_validates(b1, mode, p2, (score.1, score.0)) ==> n >= 3
            &&& spec_report_de(b1, n, mode, p2, (score.1, score.0)) matches Ok((_, a2, _)) && a1
                == a2
        }
    }
}

/// Matches `a` and `b` declare the same disqualified players
proof fn lemma_same_disqualified(a: Seq<Match>, b: Seq<Match>, p: PlayerID)
    requires
        a.len() == b.len(),
        forall|k: int| 0 <= k < a.len() ==> (#[trigger] b[k]).automatic_loser == a[k].automatic_loser,
    ensures
        spec_is_disqualified(p, a) == spec_is_disqualified(p, b),
{
    if spec_is_disqualified(p, a) {
        let k = choose|k: int| 0 <= k < a.len() && (#[trigger] a[k]).automatic_loser == Opponent::Player(p);
        assert(b[k].automatic_loser == Opponent::Player(p));
    }
    if spec_is_disqualified(p, b) {
        let k = choose|k: int| 0 <= k < b.len() && (#[trigger] b[k]).automatic_loser == Opponent::Player(p);
        assert(a[k].automatic_loser == Opponent::Player(p));
    }
}

/// When the match `match_id` is the first match without a winner of both of
/// its players, neither of them disqualified, the tournament organiser
/// report of that match is consistent: both reports go through and land in
/// that match
pub proof fn lemma_organiser_reports_match_consistent(
    b: Seq<Match>,
    seeding: Seq<PlayerID>,
    mode: AutomaticMatchValidationMode,
    match_id: MatchID,
    p1: PlayerID,
    score: (i8, i8),
    p2: PlayerID,
    i: int,
)
    requires
        seeding.len() >= 3,
        b.len() == 2 * seeding.len() - 1,
        seeding.contains(p1),
        seeding.contains(p2),
        p1 != p2,
        is_first_with_id(b, match_id, i),
        is_first_pending(b, p1, i),
        is_first_pending(b, p2, i),
        !spec_is_disqualified(p1, b),
        !spec_is_disqualified(p2, b),
    ensures
        organiser_reports_match_is_consistent(b, seeding, mode, match_id, p1, score, p2),
{
    let n = seeding.len() as int;
    lemma_first_with_id_unique(b, match_id, i);
    let b0 = spec_cleared_match(b, match_id);
    assert(b0 == b.update(i, Match { reported_results: [(0, 0), (0, 0)], ..b[i] }));
    crate::single_elimination_bracket::progression::lemma_same_pending(b, b0, p1, i);
    crate::single_elimination_bracket::progression::lemma_same_pending(b, b0, p2, i);
    lemma_same_disqualified(b, b0, p1);
    assert(is_first_with_id(b0, match_id, i));
    lemma_first_with_id_unique(b0, match_id, i);
    let um1 = crate::matches::spec_update_reported_result(b0[i], p1, ReportedResult(score))->Ok_0;
    let b1 = b0.update(i, um1);
    assert(spec_reported(b0, match_id, p1, score) == b1);
    assert(is_first_with_id(b1, match_id, i));
    lemma_first_with_id_unique(b1, match_id, i);
    assert(!de_report_validates(b0, mode, p1, score));
    crate::single_elimination_bracket::progression::lemma_same_pending(b, b1, p2, i);
    lemma_same_disqualified(b, b1, p2);
    assert(spec_report_de(b0, n, mode, p1, score) matches Ok((x, a1, _)) && x == b1 && a1 == match_id);
    assert(spec_report_de(b1, n, mode, p2, (score.1, score.0)) matches Ok((_, a2, _)) && a2 == match_id);
}

impl DoubleEliminationBracket {
    /// The tournament organiser reports `score` of `player1` against
    /// `player2` in match `match_id`. Returns updated bracket and newly
    /// playable matches.
    ///
    /// # Errors
    /// thrown when the match is already over
    pub fn tournament_organiser_reports_result(
        self,
        match_id: MatchID,
        player1: PlayerID,
        score: (i8, i8),
        player2: PlayerID,
    ) -> (res: Result<(DoubleEliminationBracket, Vec<Match>), MatchReportError>)
        requires
            organiser_reports_match_is_consistent(
                self.spec_matches(),
                self.spec_seeding(),
                self.spec_mode(),
                match_id,
                player1,
                score,
                player2,
            ),
        ensures
            res is Err <==> self.spec_matches()[first_with_id(
                self.spec_matches(),
                match_id,
            )].spec_is_over(),
            res matches Err(e) ==> e == MatchReportError::AlreadyReported,
            res matches Ok((bracket, matches)) ==> {
                let (b2, _, _) = spec_organiser_reports_match(
                    self.spec_matches(),
                    self.spec_n(),
                    self.spec_mode(),
                    match_id,
                    player1,
                    score,
                    player2,
                );
                &&& bracket.spec_matches() == b2
                &&& bracket.spec_seeding() == self.spec_seeding()
                &&& bracket.spec_mode() == self.spec_mode()
                &&& matches@ == spec_matches_to_play(b2).filter(
                    |m: Match| !id_among(m, spec_matches_to_play(self.spec_matches())),
                )
            },
    {
        let old_playable_matches = self.matches_to_play();
        let i = match position_of_match(self.matches.as_slice(), match_id) {
            Some(i) => i,
            None => {
                proof {
                    assert(false);
                }
                return Err(MatchReportError::AlreadyReported);
            },
        };
        proof {
            crate::bracket::matches::lemma_first_with_id_unique(self.spec_matches(), match_id, i as int);
        }
        if self.matches[i].is_over() {
            return Err(MatchReportError::AlreadyReported);
        }
        let seeding = self.seeding.clone();
        let mode = self.automatic_match_validation_mode;
        let bracket = self.clear_reported_result(match_id);
        let (matches, first_affected_match, _) = match bracket.report_result_dangerous(
            player1,
            score,
        ) {
            Ok(t) => t,
            Err(_) => {
                proof {
                    assert(false);
                }
                return Err(MatchReportError::AlreadyReported);
            },
        };
        let bracket = DoubleEliminationBracket::new(matches, seeding, mode);
        let seeding = bracket.seeding.clone();
        let (matches, second_affected_match, _) = match bracket.report_result_dangerous(
            player2,
            ReportedResult(score).reverse().0,
        ) {
            Ok(t) => t,
            Err(_) => {
                proof {
                    assert(false);
                }
                return Err(MatchReportError::AlreadyReported);
            },
        };
        let bracket = DoubleEliminationBracket::new(matches, seeding, mode);
        assert(first_affected_match == second_affected_match);
        let ghost old = old_playable_matches@;
        let ghost pred = |m: Match| !id_among(m, old);
        let playable = bracket.matches_to_play();
        let mut new_playable_matches: Vec<Match> = Vec::new();
        for k in 0..playable.len()
            invariant
                new_playable_matches@ == playable@.take(k as int).filter(pred),
                pred == (|m: Match| !id_among(m, old)),
                old == old_playable_matches@,
        {
            proof {
                reveal_with_fuel(Seq::filter, 1);
                assert(playable@.take(k + 1).drop_last() =~= playable@.take(k as int));
            }
            let m = playable[k];
            let mut known = false;
            let mut x: usize = 0;
            while x < old_playable_matches.len()
                invariant
                    x <= old_playable_matches@.len(),
                    old == old_playable_matches@,
                    known == exists|y: int| 0 <= y < x && old[y].id == m.id,
                decreases old_playable_matches@.len() - x,
            {
                if old_playable_matches[x].id == m.id {
                    known = true;
                }
                x += 1;
            }
            if !known {
                new_playable_matches.push(m);
            }
        }
        assert(playable@.take(playable.len() as int) =~= playable@);
        Ok((bracket, new_playable_matches))
    }
}

} // verus!
