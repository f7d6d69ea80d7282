//! Upon match validation, bracket progress by moving winners forward and
//! handling losers

use crate::matches::Match;
use crate::opponent::Opponent;
use crate::player::Id as PlayerId;
use vstd::prelude::*;

verus! {

/// `m` has the identifier of some match in `ms`
pub open spec fn id_among(m: Match, ms: Seq<Match>) -> bool {
    exists|k: int| 0 <= k < ms.len() && ms[k].id == m.id
}

/// Matches of `now` whose identifier is not among `before`
pub open spec fn spec_new_matches(before: Seq<Match>, now: Seq<Match>) -> Seq<Match> {
    now.filter(|m: Match| !id_among(m, before))
}

/// Matches of `matches_to_play` that were not in `old_matches_to_play`;
/// both lists only hold matches that can be played. Every new match is
/// returned: after the validation of one match only its winner and its
/// loser move on, so at most two come in a bracket that follows the rules
/// of progression, but this is not checked here.
pub fn new_matches_to_play_for_bracket(old_matches_to_play: &[Match], matches_to_play: &[Match]) -> (res: Vec<Match>)
    requires
        crate::bracket::matches::all_need_playing(old_matches_to_play@),
        crate::bracket::matches::all_need_playing(matches_to_play@),
    ensures
        res@ == spec_new_matches(old_matches_to_play@, matches_to_play@),
{
    let ghost pred = |m: Match| !id_among(m, old_matches_to_play@);
    let mut res: Vec<Match> = Vec::new();
    for i in 0..matches_to_play.len()
        invariant
            res@ == matches_to_play@.take(i as int).filter(pred),
            pred == (|m: Match| !id_among(m, old_matches_to_play@)),
    {
        proof {
            reveal_with_fuel(Seq::filter, 1);
            assert(matches_to_play@.take(i + 1).drop_last() =~= matches_to_play@.take(i as int));
        }
        let m = matches_to_play[i];
        let mut known = false;
        let mut k: usize = 0;
        while k < old_matches_to_play.len()
            invariant
                k <= old_matches_to_play@.len(),
                known == exists|x: int| 0 <= x < k && old_matches_to_play@[x].id == m.id,
            decreases old_matches_to_play@.len() - k,
        {
            if old_matches_to_play[k].id == m.id {
                known = true;
            }
            k += 1;
        }
        if !known {
            res.push(m);
        }
    }
    assert(matches_to_play@.take(matches_to_play.len() as int) =~= matches_to_play@);
    res
}

/// Winner of the last match of `bracket`, if declared
pub open spec fn spec_winner_of_bracket(bracket: Seq<Match>) -> Option<PlayerId> {
    if bracket.len() == 0 {
        None
    } else {
        match bracket.last().winner {
            Opponent::Player(p) => Some(p),
            Opponent::Unknown => None,
        }
    }
}

/// Returns winner of bracket
pub fn winner_of_bracket(bracket: &[Match]) -> (res: Option<PlayerId>)
    ensures
        res == spec_winner_of_bracket(bracket@),
{
    if bracket.len() == 0 {
        return None;
    }
    match bracket[bracket.len() - 1].winner {
        Opponent::Player(p) => Some(p),
        Opponent::Unknown => None,
    }
}

} // verus!
