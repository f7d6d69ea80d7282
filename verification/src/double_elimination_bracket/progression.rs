//! Progression of a double elimination bracket: reports, validation, and
//! losers of the winner bracket dropping to the loser bracket

use crate::bracket::matches::{
    advancement_closed, appears, first_pending, first_with_id, has_id, has_pending, is_disqualified,
    lemma_first_with_id, lemma_first_with_id_unique, lemma_update_same_structure, lemma_validated,
    matches_to_play_in, position_of_first_pending, position_of_match, same_structure,
    seeds_contain, spec_bracket_is_over, spec_is_disqualified, spec_matches_to_play,
    spec_validated, update,
};
use crate::bracket::progression::{new_matches_to_play_for_bracket, spec_new_matches, spec_winner_of_bracket};
use crate::double_elimination_bracket::{
    de_assemble, de_grand_finals, de_grand_finals_reset, de_loser_bracket, de_well_formed,
    de_winner_bracket, has_loser_match, lemma_well_formed_after_update,
    lemma_well_formed_same_structure, DoubleEliminationBracket,
};
use crate::matches::{Match, MatchID, ReportedResult};
use crate::opponent::Opponent;
use crate::player::PlayerID;
use crate::validation::AutomaticMatchValidationMode;
use vstd::prelude::*;

verus! {

/// Error while reporting a result in a double elimination bracket
#[derive(Debug)]
pub enum DoubleEliminationReportResultError {
    /// Player was disqualified
    ForbiddenDisqualified(PlayerID),
    /// Player has no match to play yet
    NoMatchToPlay(PlayerID),
}

/// `m` with `p` placed as player 1 (or 2) when that place is free or already
/// theirs; `m` otherwise
pub open spec fn place_player(m: Match, p: PlayerID, is_player_1: bool) -> Match {
    match crate::matches::spec_insert_player(m, p, is_player_1) {
        Ok(m2) => m2,
        Err(_) => m,
    }
}

/// `j` is the first match of `lb` expecting seed `s`
pub open spec fn is_first_expecting(lb: Seq<Match>, s: usize, j: int) -> bool {
    0 <= j < lb.len() && seeds_contain(lb[j], s) && forall|k: int|
        0 <= k < j ==> !seeds_contain(#[trigger] lb[k], s)
}

/// First match of `lb` expecting seed `s`
pub open spec fn first_expecting(lb: Seq<Match>, s: usize) -> int {
    choose|j: int| is_first_expecting(lb, s, j)
}

/// `k` is the first match of `b` where `p` plays
pub open spec fn is_first_appearance(b: Seq<Match>, p: PlayerID, k: int) -> bool {
    0 <= k < b.len() && b[k].has_player(p) && forall|x: int|
        0 <= x < k ==> !(#[trigger] b[x]).has_player(p)
}

/// First match of `b` where `p` plays
pub open spec fn first_appearance(b: Seq<Match>, p: PlayerID) -> int {
    choose|k: int| is_first_appearance(b, p, k)
}

/// Loser bracket after `loser` drops in with seed `seed`: they take the
/// place of that seed in the first loser bracket match expecting it
pub open spec fn spec_send_to_losers(lb: Seq<Match>, loser: PlayerID, seed: usize) -> Seq<Match> {
    let j = first_expecting(lb, seed);
    lb.update(j, place_player(lb[j], loser, lb[j].seeds[0] == seed))
}

/// Loser bracket after `loser` drops from the winner bracket with seed
/// `seed`. Their loser bracket match is validated right away when possible;
/// when they were disqualified, they are also declared loser of their next
/// match in the loser bracket.
pub open spec fn spec_losers_after(lb: Seq<Match>, loser: PlayerID, disqualified: bool, seed: usize) -> Seq<
    Match,
> {
    let l1 = spec_send_to_losers(lb, loser, seed);
    if !appears(l1, loser) {
        l1
    } else {
        let id = l1[first_appearance(l1, loser)].id;
        if disqualified {
            let l2 = spec_validated(l1, id);
            if !has_pending(l2, loser) {
                l2
            } else {
                let k = first_pending(l2, loser);
                spec_validated(
                    l2.update(k, Match { automatic_loser: Opponent::Player(loser), ..l2[k] }),
                    id,
                )
            }
        } else {
            spec_validated(l1, id)
        }
    }
}

/// Grand finals reset once the player from the loser bracket won grand
/// finals `gf`: both players meet again; a player disqualified in grand
/// finals loses the reset too
pub open spec fn reset_after(gf: Match, gfr: Match) -> Match {
    let r = Match { players: gf.players, automatic_loser: gf.automatic_loser, ..gfr };
    if gf.automatic_loser is Player {
        match crate::matches::spec_update_outcome(r) {
            Ok((r2, _, _)) => r2,
            Err(_) => r,
        }
    } else {
        r
    }
}

/// Grand finals with both players known, one of them disqualified and no
/// winner yet
pub open spec fn awaits_disqualification_outcome(gf: Match) -> bool {
    gf.winner is Unknown && gf.automatic_loser is Player && gf.both_present()
}

/// Grand finals and reset once a player reached grand finals: when a
/// disqualified player is in grand finals, their opponent wins it (and the
/// reset, when needed)
pub open spec fn spec_settle_finals(gf: Match, gfr: Match) -> (Match, Match) {
    if awaits_disqualification_outcome(gf) {
        match crate::matches::spec_update_outcome(gf) {
            Err(_) => (gf, gfr),
            Ok((gf2, w, _)) => if gf.players[0] == Opponent::Player(w) {
                (gf2, gfr)
            } else {
                (gf2, reset_after(gf, gfr))
            },
        }
    } else {
        (gf, gfr)
    }
}

/// Grand finals once the winners of both brackets, when decided, took their
/// place: the winner of the winner bracket as player 1, the winner of the
/// loser bracket as player 2
pub open spec fn finalists_placed(gf: Match, wb: Seq<Match>, lb: Seq<Match>) -> Match {
    let gf1 = match spec_winner_of_bracket(wb) {
        Some(w) => place_player(gf, w, true),
        None => gf,
    };
    match spec_winner_of_bracket(lb) {
        Some(w) => place_player(gf1, w, false),
        None => gf1,
    }
}

/// Matches after validating match `id` of the winner bracket: its loser
/// drops to the loser bracket, and the winners of both brackets, when
/// decided, go to grand finals
pub open spec fn spec_validate_from_winner(b: Seq<Match>, n: int, id: MatchID) -> Seq<Match> {
    let wb = de_winner_bracket(b, n);
    let lb = de_loser_bracket(b, n);
    let gf = de_grand_finals(b, n);
    let gfr = de_grand_finals_reset(b, n);
    match crate::bracket::matches::spec_update(wb, id) {
        Err(_) => b,
        Ok((wb2, info)) => {
            let lb2 = match info {
                Some((loser, seed, disqualified)) => spec_losers_after(lb, loser, disqualified, seed),
                None => lb,
            };
            let (gf2, gfr2) = spec_settle_finals(finalists_placed(gf, wb2, lb2), gfr);
            de_assemble(wb2, lb2, gf2, gfr2)
        },
    }
}

/// Matches after validating match `id` of the loser bracket: the winner of
/// the loser bracket goes to grand finals as player 2
pub open spec fn spec_validate_from_loser(b: Seq<Match>, n: int, id: MatchID) -> Seq<Match> {
    let wb = de_winner_bracket(b, n);
    let lb = de_loser_bracket(b, n);
    let gf = de_grand_finals(b, n);
    let gfr = de_grand_finals_reset(b, n);
    match crate::bracket::matches::spec_update(lb, id) {
        Err(_) => b,
        Ok((lb2, _)) => {
            let gf2 = match spec_winner_of_bracket(lb2) {
                Some(w) => place_player(gf, w, false),
                None => gf,
            };
            let (gf3, gfr2) = spec_settle_finals(gf2, gfr);
            de_assemble(wb, lb2, gf3, gfr2)
        },
    }
}

/// Matches after validating grand finals (or its reset when `id` is not the
/// grand finals): when the player from the loser bracket wins grand finals,
/// both players meet again in the reset
pub open spec fn spec_validate_from_finals(b: Seq<Match>, n: int, id: MatchID) -> Seq<Match> {
    let wb = de_winner_bracket(b, n);
    let lb = de_loser_bracket(b, n);
    let gf = de_grand_finals(b, n);
    let gfr = de_grand_finals_reset(b, n);
    if gf.id == id {
        match crate::matches::spec_update_outcome(gf) {
            Err(_) => b,
            Ok((gf2, w, _)) => if gf.players[0] == Opponent::Player(w) {
                de_assemble(wb, lb, gf2, gfr)
            } else {
                de_assemble(wb, lb, gf2, reset_after(gf, gfr))
            },
        }
    } else {
        match crate::matches::spec_update_outcome(gfr) {
            Err(_) => b,
            Ok((gfr2, _, _)) => de_assemble(wb, lb, gf, gfr2),
        }
    }
}

/// Matches after validating match `id`, wherever it stands
pub open spec fn spec_validate_de(b: Seq<Match>, n: int, id: MatchID) -> Seq<Match> {
    if has_id(de_winner_bracket(b, n), id) {
        spec_validate_from_winner(b, n, id)
    } else if has_id(de_loser_bracket(b, n), id) {
        spec_validate_from_loser(b, n, id)
    } else {
        spec_validate_from_finals(b, n, id)
    }
}

/// Matches after `p` reports `result` in the first match with identifier
/// `id`; unchanged when their opponent is not known yet
pub open spec fn spec_reported(b: Seq<Match>, id: MatchID, p: PlayerID, result: (i8, i8)) -> Seq<
    Match,
> {
    let i = first_with_id(b, id);
    match crate::matches::spec_update_reported_result(b[i], p, ReportedResult(result)) {
        Ok(um) => b.update(i, um),
        Err(_) => b,
    }
}

/// The report of `p` leads to validating their match
pub open spec fn de_report_validates(
    b: Seq<Match>,
    mode: AutomaticMatchValidationMode,
    p: PlayerID,
    result: (i8, i8),
) -> bool {
    &&& !spec_is_disqualified(p, b)
    &&& has_pending(b, p)
    &&& mode != AutomaticMatchValidationMode::Strict
    &&& ({
        let id = b[first_pending(b, p)].id;
        let b1 = spec_reported(b, id, p, result);
        b1[first_with_id(b1, id)].spec_has_all_player_reports()
    })
}

/// Outcome of `p` reporting `result` in a double elimination bracket of `n`
/// players with matches `b`: the matches afterwards, the match concerned and
/// the matches that became playable
pub open spec fn spec_report_de(
    b: Seq<Match>,
    n: int,
    mode: AutomaticMatchValidationMode,
    p: PlayerID,
    result: (i8, i8),
) -> Result<(Seq<Match>, MatchID, Seq<Match>), DoubleEliminationReportResultError> {
    if spec_is_disqualified(p, b) {
        Err(DoubleEliminationReportResultError::ForbiddenDisqualified(p))
    } else if !has_pending(b, p) {
        Err(DoubleEliminationReportResultError::NoMatchToPlay(p))
    } else {
        let id = b[first_pending(b, p)].id;
        let b1 = spec_reported(b, id, p, result);
        let b2 = if de_report_validates(b, mode, p, result) {
            spec_validate_de(b1, n, id)
        } else {
            b1
        };
        Ok((b2, id, spec_new_matches(spec_matches_to_play(b), spec_matches_to_play(b2))))
    }
}

/// Double elimination bracket is over: both brackets are over, grand finals
/// are over and, when the player from the loser bracket won them, the reset
/// is over too
pub open spec fn spec_de_is_over(b: Seq<Match>, n: int) -> bool {
    let gf = de_grand_finals(b, n);
    match crate::matches::spec_stronger_seed_wins(gf) {
        None => false,
        Some(stronger_seed_wins) => spec_bracket_is_over(de_winner_bracket(b, n))
            && spec_bracket_is_over(de_loser_bracket(b, n)) && gf.spec_is_over() && (
        stronger_seed_wins || de_grand_finals_reset(b, n).spec_is_over()),
    }
}

proof fn lemma_first_expecting(lb: Seq<Match>, s: usize, j: int)
    requires
        is_first_expecting(lb, s, j),
    ensures
        first_expecting(lb, s) == j,
{
    let f = first_expecting(lb, s);
    assert(is_first_expecting(lb, s, f));
    if f < j {
        assert(seeds_contain(lb[f], s));
    }
    if j < f {
        assert(seeds_contain(lb[j], s));
    }
}

proof fn lemma_first_appearance(b: Seq<Match>, p: PlayerID, k: int)
    requires
        is_first_appearance(b, p, k),
    ensures
        first_appearance(b, p) == k,
{
    let f = first_appearance(b, p);
    assert(is_first_appearance(b, p, f));
    if f < k {
        assert(b[f].has_player(p));
    }
    if k < f {
        assert(b[k].has_player(p));
    }
}

/// Placing a player keeps identifier and seeds
proof fn lemma_place_player(m: Match, p: PlayerID, is_player_1: bool)
    ensures
        place_player(m, p, is_player_1).id == m.id,
        place_player(m, p, is_player_1).seeds == m.seeds,
{
}

/// Position of the first match of `lb` expecting seed `s`
fn position_of_first_expecting(lb: &[Match], s: usize) -> (res: Option<usize>)
    ensures
        res is Some <==> has_loser_match(lb@, s),
        res matches Some(j) ==> is_first_expecting(lb@, s, j as int) && first_expecting(lb@, s)
            == j,
{
    let mut j: usize = 0;
    while j < lb.len()
        invariant
            j <= lb@.len(),
            forall|k: int| 0 <= k < j ==> !seeds_contain(#[trigger] lb@[k], s),
        decreases lb@.len() - j,
    {
        if lb[j].seeds[0] == s || lb[j].seeds[1] == s {
            proof {
                lemma_first_expecting(lb@, s, j as int);
            }
            return Some(j);
        }
        j += 1;
    }
    None
}

/// Position of the first match of `b` where `p` plays
fn position_of_first_appearance(b: &[Match], p: PlayerID) -> (res: Option<usize>)
    ensures
        res is Some <==> appears(b@, p),
        res matches Some(k) ==> is_first_appearance(b@, p, k as int) && first_appearance(b@, p)
            == k,
{
    let mut k: usize = 0;
    while k < b.len()
        invariant
            k <= b@.len(),
            forall|x: int| 0 <= x < k ==> !(#[trigger] b@[x]).has_player(p),
        decreases b@.len() - k,
    {
        if b[k].contains(p) {
            proof {
                lemma_first_appearance(b@, p, k as int);
            }
            return Some(k);
        }
        k += 1;
    }
    None
}

/// Matches after validating match `id`; unchanged when it cannot be
/// validated
fn validated(b: Vec<Match>, id: MatchID) -> (res: Vec<Match>)
    requires
        has_id(b@, id),
        advancement_closed(b@),
        crate::bracket::matches::distinct_ids(b@),
    ensures
        res@ == spec_validated(b@, id),
        same_structure(b@, res@),
        advancement_closed(res@),
{
    proof {
        lemma_validated(b@, id, Seq::empty());
    }
    match update(b.as_slice(), id) {
        Ok((v, _)) => v,
        Err(_) => b,
    }
}

/// Loser bracket after `loser` drops in with seed `expected_loser_seed`
fn send_to_losers(loser_bracket: Vec<Match>, loser: PlayerID, expected_loser_seed: usize) -> (res:
    Vec<Match>)
    requires
        has_loser_match(loser_bracket@, expected_loser_seed),
    ensures
        res@ == spec_send_to_losers(loser_bracket@, loser, expected_loser_seed),
        same_structure(loser_bracket@, res@),
        advancement_closed(loser_bracket@) ==> advancement_closed(res@),
{
    let j = match position_of_first_expecting(loser_bracket.as_slice(), expected_loser_seed) {
        Some(j) => j,
        None => {
            proof {
                assert(false);
            }
            return loser_bracket;
        },
    };
    let loser_match = loser_bracket[j];
    let is_player_1 = expected_loser_seed == loser_match.seeds[0];
    let placed = match loser_match.insert_player(loser, is_player_1) {
        Ok(m) => m,
        Err(_) => loser_match,
    };
    proof {
        lemma_place_player(loser_match, loser, is_player_1);
        lemma_update_same_structure(loser_bracket@, j as int, placed);
    }
    let mut lb = loser_bracket;
    lb.set(j, placed);
    lb
}

/// Loser bracket after `loser` drops from the winner bracket with seed
/// `expected_loser_seed`
pub fn update_loser_bracket_after_updating_winners_bracket(
    l_bracket: &[Match],
    loser: PlayerID,
    is_disqualified_from_winners: bool,
    expected_loser_seed: usize,
) -> (res: Vec<Match>)
    requires
        has_loser_match(l_bracket@, expected_loser_seed),
        advancement_closed(l_bracket@),
        crate::bracket::matches::distinct_ids(l_bracket@),
    ensures
        res@ == spec_losers_after(
            l_bracket@,
            loser,
            is_disqualified_from_winners,
            expected_loser_seed,
        ),
        same_structure(l_bracket@, res@),
        advancement_closed(res@),
{
    let l1 = send_to_losers(
        crate::bracket::matches::copy_matches(l_bracket),
        loser,
        expected_loser_seed,
    );
    let k = match position_of_first_appearance(l1.as_slice(), loser) {
        Some(k) => k,
        None => return l1,
    };
    let id = l1[k].id;
    let ghost g1 = l1@;
    proof {
        crate::bracket::matches::lemma_same_structure_distinct(l_bracket@, g1);
    }
    if is_disqualified_from_winners {
        let l2 = validated(l1, id);
        let ghost g2 = l2@;
        let k2 = match position_of_first_pending(l2.as_slice(), loser) {
            Some(k2) => k2,
            None => {
                proof {
                    crate::bracket::matches::lemma_same_structure_transitive(l_bracket@, g1, g2);
                }
                return l2;
            },
        };
        let dq = Match { automatic_loser: Opponent::Player(loser), ..l2[k2] };
        let mut l3 = l2;
        l3.set(k2, dq);
        proof {
            lemma_update_same_structure(g2, k2 as int, dq);
            crate::bracket::matches::lemma_same_structure_distinct(g1, g2);
            crate::bracket::matches::lemma_same_structure_distinct(g2, l3@);
            assert(g1[k as int].id == id);
            assert(has_id(l3@, id)) by {
                assert(same_structure(g1, g2));
                assert(l3@[k as int].id == id);
            }
        }
        let ghost g3 = l3@;
        let l4 = validated(l3, id);
        proof {
            crate::bracket::matches::lemma_same_structure_transitive(l_bracket@, g1, g2);
            crate::bracket::matches::lemma_same_structure_transitive(l_bracket@, g2, g3);
            crate::bracket::matches::lemma_same_structure_transitive(l_bracket@, g3, l4@);
        }
        l4
    } else {
        let l2 = validated(l1, id);
        proof {
            crate::bracket::matches::lemma_same_structure_transitive(l_bracket@, g1, l2@);
        }
        l2
    }
}

/// `m` with `p` placed as player 1 (or 2) when possible
fn place(m: Match, p: PlayerID, is_player_1: bool) -> (res: Match)
    ensures
        res == place_player(m, p, is_player_1),
        res.id == m.id,
        res.seeds == m.seeds,
{
    match m.insert_player(p, is_player_1) {
        Ok(m2) => m2,
        Err(_) => m,
    }
}

/// Grand finals reset once the player from the loser bracket won grand
/// finals `gf`
fn reset_of(gf: Match, gfr: Match) -> (res: Match)
    ensures
        res == reset_after(gf, gfr),
{
    let r = Match { players: gf.players, automatic_loser: gf.automatic_loser, ..gfr };
    if gf.automatic_loser.is_unknown() {
        r
    } else {
        match r.update_outcome() {
            Ok((r2, _, _)) => r2,
            Err(_) => r,
        }
    }
}

/// Grand finals and reset once a player reached grand finals, settled when a
/// disqualified player is there
fn settle_finals(gf: Match, gfr: Match) -> (res: (Match, Match))
    ensures
        res == spec_settle_finals(gf, gfr),
        res.0.seeds == gf.seeds,
{
    let awaits = gf.winner.is_unknown() && !gf.automatic_loser.is_unknown() && !gf.players[0].is_unknown()
        && !gf.players[1].is_unknown();
    if !awaits {
        return (gf, gfr);
    }
    match gf.update_outcome() {
        Err(_) => (gf, gfr),
        Ok((gf2, w, _)) => {
            if gf.players[0].is_player(w) {
                (gf2, gfr)
            } else {
                (gf2, reset_of(gf, gfr))
            }
        },
    }
}

/// Validate match `id` of the winner bracket of matches `b`
fn validate_from_winner(b: &[Match], n: usize, id: MatchID) -> (res: Vec<Match>)
    requires
        n >= 3,
        de_well_formed(b@, n as int),
        has_id(de_winner_bracket(b@, n as int), id),
    ensures
        res@ == spec_validate_from_winner(b@, n as int, id),
        de_well_formed(res@, n as int),
{
    let (wb, lb, gf, gfr) = crate::double_elimination_bracket::partition::partition_double_elimination_matches(b, n);
    proof {
        crate::bracket::matches::lemma_update_keeps_structure_and_progress(wb@, id);
        let x = choose|x: int| 0 <= x < wb@.len() && wb@[x].id == id;
        lemma_first_with_id(wb@, id, x);
    }
    match update(wb.as_slice(), id) {
        Err(_) => crate::bracket::matches::copy_matches(b),
        Ok((wb2, info)) => {
            let lb2 = match info {
                Some((loser, seed, disqualified)) => {
                    proof {
                        let i = first_with_id(wb@, id);
                        assert(has_loser_match(lb@, wb@[i].seeds[1]));
                    }
                    update_loser_bracket_after_updating_winners_bracket(
                        lb.as_slice(),
                        loser,
                        disqualified,
                        seed,
                    )
                },
                None => lb,
            };
            let gf1 = match crate::bracket::progression::winner_of_bracket(wb2.as_slice()) {
                Some(w) => place(gf, w, true),
                None => gf,
            };
            let gf2 = match crate::bracket::progression::winner_of_bracket(lb2.as_slice()) {
                Some(w) => place(gf1, w, false),
                None => gf1,
            };
            let (gf3, gfr2) = settle_finals(gf2, gfr);
            proof {
                lemma_well_formed_same_structure(b@, n as int, wb2@, lb2@, gf3, gfr2);
            }
            crate::double_elimination_bracket::partition::double_elimination_matches_from_partition(wb2, lb2, gf3, gfr2)
        },
    }
}

/// Validate match `id` of the loser bracket of matches `b`
fn validate_from_loser(b: &[Match], n: usize, id: MatchID) -> (res: Vec<Match>)
    requires
        n >= 3,
        de_well_formed(b@, n as int),
        has_id(de_loser_bracket(b@, n as int), id),
    ensures
        res@ == spec_validate_from_loser(b@, n as int, id),
        de_well_formed(res@, n as int),
{
    let (wb, lb, gf, gfr) = crate::double_elimination_bracket::partition::partition_double_elimination_matches(b, n);
    proof {
        crate::bracket::matches::lemma_update_keeps_structure_and_progress(lb@, id);
    }
    match update(lb.as_slice(), id) {
        Err(_) => crate::bracket::matches::copy_matches(b),
        Ok((lb2, _)) => {
            let gf2 = match crate::bracket::progression::winner_of_bracket(lb2.as_slice()) {
                Some(w) => place(gf, w, false),
                None => gf,
            };
            let (gf3, gfr2) = settle_finals(gf2, gfr);
            proof {
                lemma_well_formed_same_structure(b@, n as int, wb@, lb2@, gf3, gfr2);
            }
            crate::double_elimination_bracket::partition::double_elimination_matches_from_partition(wb, lb2, gf3, gfr2)
        },
    }
}

/// Validate grand finals (or its reset) of matches `b`
fn validate_from_finals(b: &[Match], n: usize, id: MatchID) -> (res: Vec<Match>)
    requires
        n >= 3,
        de_well_formed(b@, n as int),
    ensures
        res@ == spec_validate_from_finals(b@, n as int, id),
        de_well_formed(res@, n as int),
{
    let (wb, lb, gf, gfr) = crate::double_elimination_bracket::partition::partition_double_elimination_matches(b, n);
    if gf.id == id {
        match gf.update_outcome() {
            Err(_) => crate::bracket::matches::copy_matches(b),
            Ok((gf2, w, _)) => {
                if gf.players[0].is_player(w) {
                    proof {
                        lemma_well_formed_same_structure(b@, n as int, wb@, lb@, gf2, gfr);
                    }
                    crate::double_elimination_bracket::partition::double_elimination_matches_from_partition(wb, lb, gf2, gfr)
                } else {
                    let reset = reset_of(gf, gfr);
                    proof {
                        lemma_well_formed_same_structure(b@, n as int, wb@, lb@, gf2, reset);
                    }
                    crate::double_elimination_bracket::partition::double_elimination_matches_from_partition(wb, lb, gf2, reset)
                }
            },
        }
    } else {
        match gfr.update_outcome() {
            Err(_) => crate::bracket::matches::copy_matches(b),
            Ok((gfr2, _, _)) => {
                proof {
                    lemma_well_formed_same_structure(b@, n as int, wb@, lb@, gf, gfr2);
                }
                crate::double_elimination_bracket::partition::double_elimination_matches_from_partition(wb, lb, gf, gfr2)
            },
        }
    }
}

impl DoubleEliminationBracket {
    /// List all matches that can be played out
    pub fn matches_to_play(&self) -> (res: Vec<Match>)
        ensures
            res@ == spec_matches_to_play(self.spec_matches()),
    {
        matches_to_play_in(self.matches.as_slice())
    }

    /// Returns true if bracket is over: both brackets and grand finals are
    /// over, and the reset too when the player from the loser bracket won
    /// grand finals
    #[must_use]
    pub fn is_over(&self) -> (res: bool)
        requires
            self.spec_n() >= 3,
        ensures
            res == spec_de_is_over(self.spec_matches(), self.spec_n()),
    {
        let (winner_bracket, loser_bracket, gf, gfr) = match self.partition_matches() {
            Ok(t) => t,
            Err(_) => return false,
        };
        let stronger_seed_wins = match gf.stronger_seed_wins() {
            Some(s) => s,
            None => return false,
        };
        crate::bracket::matches::bracket_is_over(winner_bracket.as_slice())
            && crate::bracket::matches::bracket_is_over(loser_bracket.as_slice()) && gf.is_over() && (
        stronger_seed_wins || gfr.is_over())
    }

    /// Update the first match with `match_id` with reported `result` of
    /// `player_id`. Nothing changes while their opponent is not known.
    #[must_use]
    pub fn update_player_reported_match_result(
        self,
        match_id: MatchID,
        result: (i8, i8),
        player_id: PlayerID,
    ) -> (res: Self)
        requires
            has_id(self.spec_matches(), match_id),
            self.spec_seeding().contains(player_id),
        ensures
            res.spec_matches() == spec_reported(self.spec_matches(), match_id, player_id, result),
            res.spec_seeding() == self.spec_seeding(),
            res.spec_mode() == self.spec_mode(),
    {
        proof {
            use_type_invariant(&self);
        }
        let i = match position_of_match(self.matches.as_slice(), match_id) {
            Some(i) => i,
            None => {
                proof {
                    assert(false);
                }
                return self;
            },
        };
        proof {
            lemma_first_with_id_unique(self.matches@, match_id, i as int);
        }
        match self.matches[i].update_reported_result(player_id, ReportedResult(result)) {
            Ok(updated) => {
                let ghost b = self.matches@;
                let ghost n = self.seeding@.len() as int;
                let Self { matches, seeding, automatic_match_validation_mode } = self;
                let mut matches = matches;
                matches.set(i, updated);
                proof {
                    if n >= 3 {
                        lemma_well_formed_after_update(b, n, i as int, updated);
                    }
                }
                Self { matches, seeding, automatic_match_validation_mode }
            },
            Err(_) => self,
        }
    }

    /// Returns updated bracket and new matches to play after validating the
    /// first match with `match_id`. Nothing changes when that match cannot be
    /// validated yet.
    pub fn validate_match_result(self, match_id: MatchID) -> (res: (DoubleEliminationBracket, Vec<Match>))
        requires
            self.spec_n() >= 3,
            has_id(self.spec_matches(), match_id),
        ensures
            res.0.spec_matches() == spec_validate_de(self.spec_matches(), self.spec_n(), match_id),
            res.0.spec_seeding() == self.spec_seeding(),
            res.0.spec_mode() == self.spec_mode(),
            res.1@ == spec_new_matches(
                spec_matches_to_play(self.spec_matches()),
                spec_matches_to_play(res.0.spec_matches()),
            ),
    {
        proof {
            use_type_invariant(&self);
        }
        let n = self.seeding.len();
        let old_matches_to_play = self.matches_to_play();
        let (wb, lb, _, _) = crate::double_elimination_bracket::partition::partition_double_elimination_matches(
            self.matches.as_slice(),
            n,
        );
        let matches = if position_of_match(wb.as_slice(), match_id).is_some() {
            validate_from_winner(self.matches.as_slice(), n, match_id)
        } else if position_of_match(lb.as_slice(), match_id).is_some() {
            validate_from_loser(self.matches.as_slice(), n, match_id)
        } else {
            validate_from_finals(self.matches.as_slice(), n, match_id)
        };
        let Self { matches: _, seeding, automatic_match_validation_mode } = self;
        let bracket = DoubleEliminationBracket { matches, seeding, automatic_match_validation_mode };
        let new = new_matches_to_play_for_bracket(old_matches_to_play.as_slice(), bracket.matches_to_play().as_slice());
        (bracket, new)
    }

    /// Report result of `player_id` in their current match. Returns matches,
    /// affected match and new matches to play. Unless validation is strict,
    /// the match is validated once both players have reported.
    ///
    /// # Errors
    /// thrown when the player is disqualified or has no match to play
    pub fn report_result_dangerous(self, player_id: PlayerID, result: (i8, i8)) -> (res: Result<
        (Vec<Match>, MatchID, Vec<Match>),
        DoubleEliminationReportResultError,
    >)
        requires
            self.spec_seeding().contains(player_id),
            de_report_validates(self.spec_matches(), self.spec_mode(), player_id, result)
                ==> self.spec_n() >= 3,
        ensures
            res is Ok == spec_report_de(
                self.spec_matches(),
                self.spec_n(),
                self.spec_mode(),
                player_id,
                result,
            ) is Ok,
            res matches Err(e) ==> spec_report_de(
                self.spec_matches(),
                self.spec_n(),
                self.spec_mode(),
                player_id,
                result,
            ) == Err::<(Seq<Match>, MatchID, Seq<Match>), DoubleEliminationReportResultError>(e),
            res matches Ok((matches, id, new_matches)) ==> spec_report_de(
                self.spec_matches(),
                self.spec_n(),
                self.spec_mode(),
                player_id,
                result,
            ) == Ok::<(Seq<Match>, MatchID, Seq<Match>), DoubleEliminationReportResultError>(
                (matches@, id, new_matches@),
            ) && matches@.len() == self.spec_matches().len() && (self.spec_n() >= 3
                ==> de_well_formed(matches@, self.spec_n())),
    {
        proof {
            use_type_invariant(&self);
        }
        if is_disqualified(player_id, self.matches.as_slice()) {
            return Err(DoubleEliminationReportResultError::ForbiddenDisqualified(player_id));
        }
        let old_matches_to_play = self.matches_to_play();
        let i = match position_of_first_pending(self.matches.as_slice(), player_id) {
            Some(i) => i,
            None => return Err(DoubleEliminationReportResultError::NoMatchToPlay(player_id)),
        };
        let affected_match_id = self.matches[i].id;
        proof {
            lemma_first_with_id(self.matches@, affected_match_id, i as int);
        }
        let ghost b = self.matches@;
        let bracket = self.update_player_reported_match_result(
            affected_match_id,
            result,
            player_id,
        );
        let ghost b1 = bracket.spec_matches();
        proof {
            let f = first_with_id(b, affected_match_id);
            assert(b1.len() == b.len());
            assert(b1[f].id == affected_match_id);
            lemma_first_with_id(b1, affected_match_id, f);
        }
        let bracket = if bracket.automatic_match_validation_mode
            == AutomaticMatchValidationMode::Strict {
            bracket
        } else {
            let k = match position_of_match(bracket.matches.as_slice(), affected_match_id) {
                Some(k) => k,
                None => {
                    proof {
                        assert(false);
                    }
                    return Err(DoubleEliminationReportResultError::NoMatchToPlay(player_id));
                },
            };
            proof {
                lemma_first_with_id_unique(b1, affected_match_id, k as int);
            }
            if bracket.matches[k].has_all_player_reports() {
                bracket.validate_match_result(affected_match_id).0
            } else {
                bracket
            }
        };
        let new = new_matches_to_play_for_bracket(old_matches_to_play.as_slice(), bracket.matches_to_play().as_slice());
        proof {
            use_type_invariant(&bracket);
        }
        assert(bracket.spec_matches().len() == b.len()) by {
            if de_report_validates(b, bracket.spec_mode(), player_id, result) {
            }
        }
        Ok((bracket.matches, affected_match_id, new))
    }
}

/// Match `i` of `b` is a match of `p` that is not over
pub open spec fn is_unfinished_for(b: Seq<Match>, p: PlayerID, i: int) -> bool {
    0 <= i < b.len() && b[i].has_player(p) && !b[i].spec_is_over()
}

/// `p` plays at most one match that is not over
pub open spec fn at_most_one_unfinished(b: Seq<Match>, p: PlayerID) -> bool {
    forall|i: int, j: int| is_unfinished_for(b, p, i) && is_unfinished_for(b, p, j) ==> i == j
}

/// The match of `p` that is not over
pub open spec fn unfinished_match(b: Seq<Match>, p: PlayerID) -> int {
    choose|i: int| is_unfinished_for(b, p, i)
}

/// Matches after clearing both reports of the first match with `id`
pub open spec fn spec_cleared_match(b: Seq<Match>, id: MatchID) -> Seq<Match> {
    let i = first_with_id(b, id);
    b.update(i, Match { reported_results: [(0, 0), (0, 0)], ..b[i] })
}

/// Outcome of the tournament organiser reporting `result` of `p1` against
/// `p2`: reports of the match of `p1` are cleared, `p1` reports `result`,
/// then `p2` reports the reverse
pub open spec fn spec_organiser_report_de(
    b: Seq<Match>,
    n: int,
    mode: AutomaticMatchValidationMode,
    p1: PlayerID,
    result: (i8, i8),
    p2: PlayerID,
) -> Result<(Seq<Match>, MatchID, Seq<Match>), DoubleEliminationReportResultError> {
    let b0 = spec_cleared_match(b, b[unfinished_match(b, p1)].id);
    match spec_report_de(b0, n, mode, p1, result) {
        Err(e) => Err(e),
        Ok((b1, _, _)) => spec_report_de(b1, n, mode, p2, (result.1, result.0)),
    }
}

/// The tournament organiser report goes through: both players belong to the
/// bracket, `p1` plays exactly one unfinished match and `p2` at most one, the
/// report of `p1` is accepted and both reports land in the same match
pub open spec fn organiser_report_de_is_consistent(
    b: Seq<Match>,
    seeding: Seq<PlayerID>,
    mode: AutomaticMatchValidationMode,
    p1: PlayerID,
    result: (i8, i8),
    p2: PlayerID,
) -> bool {
    let n = seeding.len() as int;
    let b0 = spec_cleared_match(b, b[unfinished_match(b, p1)].id);
    &&& seeding.contains(p1)
    &&& seeding.contains(p2)
    &&& b.len() == 2 * n - 1
    &&& exists|i: int| is_unfinished_for(b, p1, i)
    &&& at_most_one_unfinished(b, p1)
    &&& at_most_one_unfinished(b, p2)
    &&& de_report_validates(b0, mode, p1, result) ==> n >= 3
    &&& spec_report_de(b0, n, mode, p1, result) matches Ok((b1, a1, _)) && {
        &&& de_report_validates(b1, mode, p2, (result.1, result.0)) ==> n >= 3
        &&& spec_report_de(b1, n, mode, p2, (result.1, result.0)) matches Ok((_, a2, _)) ==> a1
            == a2
    }
}

/// When two players face each other in their only match that is not over,
/// which is the first match without a winner of each of them, and the first
/// player is not disqualified, the report of the tournament organiser goes
/// through consistently: the report of the first player is accepted and,
/// whenever the report of the second player is accepted too, both land in
/// the same match
pub proof fn lemma_organiser_report_de_consistent(
    b: Seq<Match>,
    seeding: Seq<PlayerID>,
    mode: AutomaticMatchValidationMode,
    p1: PlayerID,
    result: (i8, i8),
    p2: PlayerID,
    i: int,
)
    requires
        seeding.len() >= 3,
        b.len() == 2 * seeding.len() - 1,
        seeding.contains(p1),
        seeding.contains(p2),
        p1 != p2,
        is_unfinished_for(b, p1, i),
        is_unfinished_for(b, p2, i),
        at_most_one_unfinished(b, p1),
        at_most_one_unfinished(b, p2),
        crate::bracket::matches::is_first_pending(b, p1, i),
        crate::bracket::matches::is_first_pending(b, p2, i),
        crate::bracket::matches::is_first_with_id(b, b[i].id, i),
        !spec_is_disqualified(p1, b),
    ensures
        organiser_report_de_is_consistent(b, seeding, mode, p1, result, p2),
{
    let n = seeding.len() as int;
    let id = b[i].id;
    let u = unfinished_match(b, p1);
    assert(is_unfinished_for(b, p1, u));
    assert(u == i);
    lemma_first_with_id_unique(b, id, i);
    let cleared = Match { reported_results: [(0, 0), (0, 0)], ..b[i] };
    let b0 = spec_cleared_match(b, id);
    assert(b0 == b.update(i, cleared));
    crate::single_elimination_bracket::progression::lemma_same_pending(b, b0, p1, i);
    crate::single_elimination_bracket::progression::lemma_same_pending(b, b0, p2, i);
    assert(crate::bracket::matches::is_first_with_id(b0, id, i));
    lemma_first_with_id_unique(b0, id, i);
    assert(!spec_is_disqualified(p1, b0)) by {
        if spec_is_disqualified(p1, b0) {
            let k = choose|k: int| 0 <= k < b0.len() && (#[trigger] b0[k]).automatic_loser
                == Opponent::Player(p1);
            assert(b[k].automatic_loser == Opponent::Player(p1));
        }
    }
    let um = crate::matches::spec_update_reported_result(b0[i], p1, ReportedResult(result))->Ok_0;
    assert(crate::matches::spec_update_reported_result(b0[i], p1, ReportedResult(result)) is Ok);
    let b1 = b0.update(i, um);
    assert(spec_reported(b0, id, p1, result) == b1);
    assert(crate::bracket::matches::is_first_with_id(b1, id, i));
    lemma_first_with_id_unique(b1, id, i);
    assert(!b1[i].spec_has_all_player_reports());
    assert(!de_report_validates(b0, mode, p1, result));
    crate::single_elimination_bracket::progression::lemma_same_pending(b, b1, p2, i);
    assert(spec_report_de(b0, n, mode, p1, result) matches Ok((b1x, a1, _)) && b1x == b1 && a1 == id);
}

impl DoubleEliminationBracket {
    /// Tournament organiser reports result. Returns bracket, affected match ID and new matches
    ///
    /// NOTE: both players are needed, so it is less ambiguous when reading code:
    /// * p1 2-0 is more ambiguous to read than
    /// * p1 2-0 p2
    ///
    /// This method is dangerous because in a double-elimination bracket, it's
    /// possible that a player plays against the same opponent twice, like grand
    /// finals into grand final reset. If a request to update grand finals is
    /// sent twice by accident, then grand finals AND grand final reset match
    /// may get updated. While this is a niche corner case, you may want to use
    /// the safer method `tournament_organiser_reports_result`
    ///
    /// # Errors
    /// thrown when the report of `player2` is refused
    pub fn tournament_organiser_reports_result_dangerous(
        self,
        player1: PlayerID,
        result: (i8, i8),
        player2: PlayerID,
    ) -> (res: Result<
        (DoubleEliminationBracket, MatchID, Vec<Match>),
        DoubleEliminationReportResultError,
    >)
        requires
            organiser_report_de_is_consistent(
                self.spec_matches(),
                self.spec_seeding(),
                self.spec_mode(),
                player1,
                result,
                player2,
            ),
        ensures
            res is Ok == spec_organiser_report_de(
                self.spec_matches(),
                self.spec_n(),
                self.spec_mode(),
                player1,
                result,
                player2,
            ) is Ok,
            res matches Err(e) ==> spec_organiser_report_de(
                self.spec_matches(),
                self.spec_n(),
                self.spec_mode(),
                player1,
                result,
                player2,
            ) == Err::<(Seq<Match>, MatchID, Seq<Match>), DoubleEliminationReportResultError>(e),
            res matches Ok((b, id, new_matches)) ==> {
                &&& spec_organiser_report_de(
                    self.spec_matches(),
                    self.spec_n(),
                    self.spec_mode(),
                    player1,
                    result,
                    player2,
                ) == Ok::<(Seq<Match>, MatchID, Seq<Match>), DoubleEliminationReportResultError>(
                    (b.spec_matches(), id, new_matches@),
                )
                &&& b.spec_seeding() == self.spec_seeding()
                &&& b.spec_mode() == self.spec_mode()
            },
    {
        proof {
            use_type_invariant(&self);
        }
        let ghost b = self.matches@;
        let i = match position_of_first_unfinished(self.matches.as_slice(), player1) {
            Some(i) => i,
            None => {
                proof {
                    assert(false);
                }
                return Err(DoubleEliminationReportResultError::NoMatchToPlay(player1));
            },
        };
        proof {
            let u = unfinished_match(b, player1);
            assert(is_unfinished_for(b, player1, u));
            assert(u == i);
            lemma_first_with_id(b, b[i as int].id, i as int);
        }
        let match_id = self.matches[i].id;
        let seeding = self.seeding.clone();
        let mode = self.automatic_match_validation_mode;
        let bracket = self.clear_reported_result(match_id);
        let (matches, first_affected_match, _new_matches) = match bracket.report_result_dangerous(
            player1,
            result,
        ) {
            Ok(t) => t,
            Err(_) => {
                proof {
                    assert(false);
                }
                return Err(DoubleEliminationReportResultError::NoMatchToPlay(player1));
            },
        };
        let bracket = DoubleEliminationBracket::new(matches, seeding, mode);
        let seeding = bracket.seeding.clone();
        let (matches, second_affected_match, new_matches) = bracket.report_result_dangerous(
            player2,
            ReportedResult(result).reverse().0,
        )?;
        assert(first_affected_match == second_affected_match);
        Ok((DoubleEliminationBracket::new(matches, seeding, mode), first_affected_match, new_matches))
    }
}

/// Position of the first match of `p` that is not over
fn position_of_first_unfinished(b: &[Match], p: PlayerID) -> (res: Option<usize>)
    ensures
        res is Some <==> exists|i: int| is_unfinished_for(b@, p, i),
        res matches Some(i) ==> is_unfinished_for(b@, p, i as int),
{
    let mut i: usize = 0;
    while i < b.len()
        invariant
            i <= b@.len(),
            forall|k: int| 0 <= k < i ==> !is_unfinished_for(b@, p, k),
        decreases b@.len() - i,
    {
        if b[i].contains(p) && !b[i].is_over() {
            assert(is_unfinished_for(b@, p, i as int));
            return Some(i);
        }
        i += 1;
    }
    None
}

} // verus!
