//! Disqualify a player from a single elimination bracket

use crate::bracket::matches::{
    advancement_closed, first_with_id, has_id, has_pending, is_last_pending, is_pending_for,
    last_pending, lemma_last_pending, lemma_same_structure_closed, lemma_update_keeps_structure_and_progress,
    lemma_update_same_structure, position_of_last_pending, spec_is_disqualified, spec_update,
    spec_validated,
};
use crate::matches::Match;
use crate::opponent::Opponent;
use crate::single_elimination_bracket::SingleEliminationBracket;
use crate::ID;
use vstd::prelude::*;

verus! {

/// Matches after disqualifying `p`: they lose their last match without a
/// winner, which is then validated; unchanged when they have none
pub open spec fn spec_disqualified(b: Seq<Match>, p: ID) -> Seq<Match> {
    if has_pending(b, p) {
        let i = last_pending(b, p);
        let m = Match { automatic_loser: Opponent::Player(p), ..b[i] };
        spec_validated(b.update(i, m), m.id)
    } else {
        b
    }
}

proof fn lemma_last_pending_exists(b: Seq<Match>, p: ID, k: int)
    requires
        is_pending_for(b, p, k),
    ensures
        exists|i: int| is_last_pending(b, p, i),
    decreases b.len() - k,
{
    if exists|j: int| k < j < b.len() && is_pending_for(b, p, j) {
        let j = choose|j: int| k < j < b.len() && is_pending_for(b, p, j);
        lemma_last_pending_exists(b, p, j);
    } else {
        assert(is_last_pending(b, p, k));
    }
}

/// A player disqualified while they still have a match to play is declared
/// loser of a match of the bracket afterwards
pub proof fn lemma_disqualified_player_is_disqualified(b: Seq<Match>, p: ID)
    requires
        advancement_closed(b),
        has_pending(b, p),
    ensures
        spec_is_disqualified(p, spec_disqualified(b, p)),
{
    let k = choose|k: int| is_pending_for(b, p, k);
    lemma_last_pending_exists(b, p, k);
    let i = choose|i: int| is_last_pending(b, p, i);
    lemma_last_pending(b, p, i);
    let m = Match { automatic_loser: Opponent::Player(p), ..b[i] };
    let b1 = b.update(i, m);
    lemma_update_same_structure(b, i, m);
    lemma_same_structure_closed(b, b1);
    assert(has_id(b1, m.id)) by {
        assert(b1[i].id == m.id);
    }
    crate::bracket::matches::lemma_first_with_id(b1, m.id, i);
    lemma_update_keeps_structure_and_progress(b1, m.id);
    match spec_update(b1, m.id) {
        Ok((b2, _)) => {
            let j = first_with_id(b1, m.id);
            let (_, w, _) = crate::matches::spec_update_outcome(b1[j])->Ok_0;
            let b1w = b1.update(j, b1[j].with_winner(w));
            assert(b1w[i].automatic_loser == Opponent::Player(p));
            assert(b2[i].automatic_loser == Opponent::Player(p));
        },
        Err(_) => {
            assert(b1[i].automatic_loser == Opponent::Player(p));
        },
    }
}

impl SingleEliminationBracket {
    /// Disqualify participant from bracket completely
    ///
    /// Usually done when the player is unable to attend the bracket at all (missed flight, money
    /// problem...) and warned TO's about it
    pub fn disqualify_participant_from_bracket(self, player_id: ID) -> (res: Self)
        ensures
            res.spec_matches() == spec_disqualified(self.spec_matches(), player_id),
            res.spec_seeding() == self.spec_seeding(),
            res.spec_auto() == self.spec_auto(),
    {
        proof {
            use_type_invariant(&self);
        }
        let pos = match position_of_last_pending(self.matches.as_slice(), player_id) {
            Some(pos) => pos,
            None => return self,
        };
        let updated_match = match self.matches[pos].set_automatic_loser(player_id) {
            Ok(m) => m,
            Err(_) => {
                proof {
                    assert(false);
                }
                return self;
            },
        };
        let ghost b = self.matches@;
        let Self { matches, seeding, automatic_match_progression } = self;
        let mut updated_matches = matches;
        updated_matches.set(pos, updated_match);
        proof {
            crate::bracket::matches::lemma_update_same_structure(b, pos as int, updated_match);
            crate::bracket::matches::lemma_placed_after_update(b, seeding@, pos as int, updated_match);
            assert(updated_matches@[pos as int].id == updated_match.id);
        }
        let b = Self { matches: updated_matches, seeding, automatic_match_progression };
        let (b, _) = b.validate_match_result(updated_match.id);
        b
    }
}

} // verus!
