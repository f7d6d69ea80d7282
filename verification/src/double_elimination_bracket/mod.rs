//! Double elimination bracket: a player is out after their second loss

pub mod disqualification;
pub mod next_opponent;
mod partition;
pub mod progression;
pub mod reporting;

use crate::bracket::matches::{
    advancement_closed, copy_matches, has_id, same_structure, seeds_contain,
};
use crate::bracket::seeding::Seeding;
use crate::matches::{Match, MatchID};
use crate::validation::AutomaticMatchValidationMode;
use crate::ids::RandomIdError;
use vstd::prelude::*;

verus! {

/// Double elimination bracket
#[derive(Debug)]
pub struct DoubleEliminationBracket {
    /// Matches: winner bracket, loser bracket, grand finals and its reset
    matches: Vec<Match>,
    /// Players, strongest first
    seeding: Seeding,
    /// Condition for automatic match validation when reports come in
    automatic_match_validation_mode: AutomaticMatchValidationMode,
}

/// Winner bracket of the matches `b` of `n` players
pub open spec fn de_winner_bracket(b: Seq<Match>, n: int) -> Seq<Match> {
    b.subrange(0, n - 1)
}

/// Loser bracket of the matches `b` of `n` players
pub open spec fn de_loser_bracket(b: Seq<Match>, n: int) -> Seq<Match> {
    b.subrange(n - 1, 2 * n - 3)
}

/// Grand finals of the matches `b` of `n` players
pub open spec fn de_grand_finals(b: Seq<Match>, n: int) -> Match {
    b[2 * n - 3]
}

/// Grand finals reset of the matches `b` of `n` players
pub open spec fn de_grand_finals_reset(b: Seq<Match>, n: int) -> Match {
    b[2 * n - 2]
}

/// Matches of a double elimination bracket from its parts
pub open spec fn de_assemble(wb: Seq<Match>, lb: Seq<Match>, gf: Match, gfr: Match) -> Seq<
    Match,
> {
    wb + lb + seq![gf, gfr]
}

/// Some loser bracket match expects seed `s`
pub open spec fn has_loser_match(lb: Seq<Match>, s: usize) -> bool {
    exists|j: int| 0 <= j < lb.len() && seeds_contain(#[trigger] lb[j], s)
}

/// Whoever loses a winner bracket match has a place in the loser bracket
pub open spec fn losers_have_a_place(wb: Seq<Match>, lb: Seq<Match>) -> bool {
    forall|i: int| 0 <= i < wb.len() ==> #[trigger] has_loser_match(lb, wb[i].seeds[1])
}

/// Matches `b` of a bracket of `n` players (at least 3) are laid out as a
/// double elimination bracket: `n - 1` winner bracket matches, `n - 2` loser
/// bracket matches, grand finals and reset; winners always have a next match
/// and losers of the winner bracket a place in the loser bracket
pub open spec fn de_well_formed(b: Seq<Match>, n: int) -> bool {
    &&& b.len() == 2 * n - 1
    &&& advancement_closed(de_winner_bracket(b, n))
    &&& advancement_closed(de_loser_bracket(b, n))
    &&& losers_have_a_place(de_winner_bracket(b, n), de_loser_bracket(b, n))
    &&& de_grand_finals(b, n).seeds[0] != de_grand_finals(b, n).seeds[1]
    &&& crate::bracket::matches::distinct_ids(b)
}

/// Winner and loser brackets with the same identifiers and seeds, and
/// finals with the same seeds, keep a bracket well formed
pub proof fn lemma_well_formed_same_structure(
    b: Seq<Match>,
    n: int,
    wb: Seq<Match>,
    lb: Seq<Match>,
    gf: Match,
    gfr: Match,
)
    requires
        n >= 3,
        de_well_formed(b, n),
        same_structure(de_winner_bracket(b, n), wb),
        same_structure(de_loser_bracket(b, n), lb),
        gf.seeds == de_grand_finals(b, n).seeds,
        gf.id == de_grand_finals(b, n).id,
        gfr.id == de_grand_finals_reset(b, n).id,
    ensures
        de_well_formed(de_assemble(wb, lb, gf, gfr), n),
{
    let b2 = de_assemble(wb, lb, gf, gfr);
    assert(de_winner_bracket(b2, n) =~= wb);
    assert(de_loser_bracket(b2, n) =~= lb);
    crate::bracket::matches::lemma_same_structure_closed(de_winner_bracket(b, n), wb);
    crate::bracket::matches::lemma_same_structure_closed(de_loser_bracket(b, n), lb);
    let wb0 = de_winner_bracket(b, n);
    let lb0 = de_loser_bracket(b, n);
    assert forall|i: int| 0 <= i < wb.len() implies #[trigger] has_loser_match(lb, wb[i].seeds[1]) by {
        assert(wb0[i] == wb0[i]);
        assert(has_loser_match(lb0, wb0[i].seeds[1]));
        let j = choose|j: int| 0 <= j < lb0.len() && seeds_contain(#[trigger] lb0[j], wb0[i].seeds[1]);
        assert(lb0[j].seeds == lb[j].seeds);
        assert(seeds_contain(lb[j], wb[i].seeds[1]));
    }
    assert(de_grand_finals(b2, n) == gf);
    assert forall|k: int| 0 <= k < b2.len() implies (#[trigger] b2[k]).id == b[k].id by {
        if k < n - 1 {
            assert(b2[k] == wb[k]);
            assert(wb0[k] == b[k]);
        } else if k < 2 * n - 3 {
            assert(b2[k] == lb[k - (n - 1)]);
            assert(lb0[k - (n - 1)] == b[k]);
        }
    }
    assert forall|i: int, j: int| 0 <= i < j < b2.len() implies (#[trigger] b2[i]).id != (
    #[trigger] b2[j]).id by {
        assert(b2[i].id == b[i].id);
        assert(b2[j].id == b[j].id);
    }
}

impl Clone for DoubleEliminationBracket {
    fn clone(&self) -> (res: Self)
        ensures
            res.spec_matches() == self.spec_matches(),
            res.spec_seeding() == self.spec_seeding(),
            res.spec_mode() == self.spec_mode(),
    {
        proof {
            use_type_invariant(self);
        }
        Self {
            matches: copy_matches(self.matches.as_slice()),
            seeding: self.seeding.clone(),
            automatic_match_validation_mode: self.automatic_match_validation_mode,
        }
    }
}

impl DoubleEliminationBracket {
    /// With at least 3 players, matches are laid out as a double elimination
    /// bracket
    #[verifier::type_invariant]
    spec fn inv(self) -> bool {
        self.seeding@.len() >= 3 ==> de_well_formed(self.matches@, self.seeding@.len() as int)
    }

    /// Matches of the bracket
    pub closed spec fn spec_matches(self) -> Seq<Match> {
        self.matches@
    }

    /// Players of the bracket, strongest first
    pub closed spec fn spec_seeding(self) -> Seq<crate::player::PlayerID> {
        self.seeding@
    }

    /// Condition for automatic match validation
    pub closed spec fn spec_mode(self) -> AutomaticMatchValidationMode {
        self.automatic_match_validation_mode
    }

    /// Number of players
    pub open spec fn spec_n(self) -> int {
        self.spec_seeding().len() as int
    }

    /// Generate matches for a new bracket using `seeding`. With less than 3
    /// players, there are no matches.
    ///
    /// # Errors
    /// thrown when no random identifier can be drawn for a match
    pub fn create(
        seeding: Seeding,
        automatic_match_validation_mode: AutomaticMatchValidationMode,
    ) -> (res: Result<Self, RandomIdError>)
        requires
            crate::seeding::single_elimination_seeded_bracket::next_power_of_two(seeding@.len())
                <= usize::MAX,
        ensures
            seeding@.len() < 3 ==> res is Ok,
            res matches Ok(b) ==> {
                &&& b.spec_seeding() == seeding@
                &&& b.spec_mode() == automatic_match_validation_mode
                &&& seeding@.len() < 3 ==> b.spec_matches().len() == 0
                &&& seeding@.len() >= 3
                    ==> crate::seeding::single_elimination_seeded_bracket::fresh_matches_with_shapes(
                    b.spec_matches(),
                    crate::format::double_elimination_shapes(seeding@),
                )
            },
    {
        if seeding.len() < 3 {
            return Ok(Self { matches: Vec::new(), seeding, automatic_match_validation_mode });
        }
        let matches = match crate::format::Format::DoubleEliminationBracket.generate_matches(
            seeding.as_slice(),
        ) {
            Ok(m) => m,
            Err(_) => return Err(RandomIdError),
        };
        proof {
            lemma_generated_well_formed(seeding@, matches@);
        }
        Ok(Self { matches, seeding, automatic_match_validation_mode })
    }

    /// Construct double elimination bracket from given data. Typically used
    /// when retrieving from a database.
    #[must_use]
    pub fn new(
        matches: Vec<Match>,
        seeding: Seeding,
        automatic_match_validation_mode: AutomaticMatchValidationMode,
    ) -> (res: Self)
        requires
            (seeding@.len() == 0 && matches@.len() == 0) || (seeding@.len() != 0
                && matches@.len() != 0),
            seeding@.len() == 0 || matches@.len() == 2 * seeding@.len() - 1,
            seeding@.len() >= 3 ==> de_well_formed(matches@, seeding@.len() as int),
        ensures
            res.spec_matches() == matches@,
            res.spec_seeding() == seeding@,
            res.spec_mode() == automatic_match_validation_mode,
    {
        Self { matches, seeding, automatic_match_validation_mode }
    }

    /// Get matches
    #[must_use]
    pub fn get_matches(&self) -> (res: Vec<Match>)
        ensures
            res@ == self.spec_matches(),
            self.spec_n() >= 3 ==> de_well_formed(res@, self.spec_n()),
    {
        proof {
            use_type_invariant(self);
        }
        copy_matches(self.matches.as_slice())
    }

    /// Get seeding
    #[must_use]
    pub fn get_seeding(&self) -> (res: Seeding)
        ensures
            res@ == self.spec_seeding(),
    {
        self.seeding.clone()
    }

    /// Clear all reported results of the first match with `match_id`
    #[must_use]
    fn clear_reported_result(self, match_id: MatchID) -> (res: Self)
        requires
            has_id(self.spec_matches(), match_id),
        ensures
            ({
                let b = self.spec_matches();
                let i = crate::bracket::matches::first_with_id(b, match_id);
                res.spec_matches() == b.update(
                    i,
                    Match { reported_results: [(0, 0), (0, 0)], ..b[i] },
                )
            }),
            res.spec_seeding() == self.spec_seeding(),
            res.spec_mode() == self.spec_mode(),
    {
        proof {
            use_type_invariant(&self);
        }
        let i = match crate::bracket::matches::position_of_match(
            self.matches.as_slice(),
            match_id,
        ) {
            Some(i) => i,
            None => {
                proof {
                    assert(false);
                }
                return self;
            },
        };
        proof {
            crate::bracket::matches::lemma_first_with_id_unique(self.matches@, match_id, i as int);
        }
        let cleared = Match { reported_results: [(0, 0), (0, 0)], ..self.matches[i] };
        let ghost b = self.matches@;
        let ghost n = self.seeding@.len() as int;
        let Self { matches, seeding, automatic_match_validation_mode } = self;
        let mut matches = matches;
        matches.set(i, cleared);
        proof {
            if n >= 3 {
                lemma_well_formed_after_update(b, n, i as int, cleared);
            }
        }
        Self { matches, seeding, automatic_match_validation_mode }
    }
}

/// Changing one match without touching its identifier or seeds keeps a
/// bracket well formed
pub proof fn lemma_well_formed_after_update(b: Seq<Match>, n: int, i: int, m: Match)
    requires
        n >= 3,
        de_well_formed(b, n),
        0 <= i < b.len(),
        m.id == b[i].id,
        m.seeds == b[i].seeds,
    ensures
        de_well_formed(b.update(i, m), n),
{
    let u = b.update(i, m);
    let wb = de_winner_bracket(u, n);
    let lb = de_loser_bracket(u, n);
    assert(same_structure(de_winner_bracket(b, n), wb));
    assert(same_structure(de_loser_bracket(b, n), lb));
    lemma_well_formed_same_structure(b, n, wb, lb, de_grand_finals(u, n), de_grand_finals_reset(u, n));
    assert(de_assemble(wb, lb, de_grand_finals(u, n), de_grand_finals_reset(u, n)) =~= u);
}

/// Generated matches are laid out as a double elimination bracket
proof fn lemma_generated_well_formed(seeding: Seq<crate::player::PlayerID>, ms: Seq<Match>)
    requires
        seeding.len() >= 3,
        crate::seeding::single_elimination_seeded_bracket::next_power_of_two(seeding.len())
            <= usize::MAX,
        crate::seeding::single_elimination_seeded_bracket::fresh_matches_with_shapes(
            ms,
            crate::format::double_elimination_shapes(seeding),
        ),
        crate::bracket::matches::distinct_ids(ms),
    ensures
        de_well_formed(ms, seeding.len() as int),
{
    let n = seeding.len() as int;
    let se = crate::seeding::single_elimination_seeded_bracket::single_elimination_shapes(seeding);
    let lbs = crate::seeding::double_elimination_seeded_bracket::loser_bracket_shapes(n);
    crate::format::lemma_double_elimination_match_count(seeding);
    crate::seeding::single_elimination_seeded_bracket::lemma_single_elimination_match_count(
        seeding,
    );
    crate::seeding::double_elimination_seeded_bracket::lemma_loser_bracket_match_count(n);
    let wb = de_winner_bracket(ms, n);
    let lb = de_loser_bracket(ms, n);
    let all = crate::format::double_elimination_shapes(seeding);
    assert(crate::seeding::single_elimination_seeded_bracket::fresh_matches_with_shapes(wb, se))
        by {
        assert forall|i: int| 0 <= i < wb.len() implies #[trigger] wb[i]
            == crate::matches::fresh_match(wb[i].id, se[i].0, se[i].1) by {
            assert(wb[i] == ms[i]);
            assert(all[i] == se[i]);
        }
    }
    assert(crate::seeding::single_elimination_seeded_bracket::fresh_matches_with_shapes(lb, lbs))
        by {
        assert forall|i: int| 0 <= i < lb.len() implies #[trigger] lb[i]
            == crate::matches::fresh_match(lb[i].id, lbs[i].0, lbs[i].1) by {
            assert(lb[i] == ms[n - 1 + i]);
            assert(all[n - 1 + i] == lbs[i]);
        }
    }
    crate::seeding::single_elimination_seeded_bracket::lemma_single_elimination_closed(seeding);
    crate::seeding::single_elimination_seeded_bracket::lemma_fresh_matches_closed(wb, se);
    crate::seeding::double_elimination_seeded_bracket::lemma_loser_bracket_closed(n);
    crate::seeding::single_elimination_seeded_bracket::lemma_fresh_matches_closed(lb, lbs);
    assert forall|i: int| 0 <= i < wb.len() implies #[trigger] has_loser_match(lb, wb[i].seeds[1]) by {
        crate::seeding::single_elimination_seeded_bracket::lemma_single_elimination_bottom_seeds(
            seeding,
            i,
        );
        assert(wb[i] == crate::matches::fresh_match(wb[i].id, se[i].0, se[i].1));
        let s = se[i].1[1] as int;
        crate::seeding::double_elimination_seeded_bracket::lemma_loser_bracket_expects(n, s);
        let j = choose|j: int|
            0 <= j < lbs.len() && crate::seeding::single_elimination_seeded_bracket::expects(
                #[trigger] lbs[j],
                s as usize,
            );
        assert(lb[j] == crate::matches::fresh_match(lb[j].id, lbs[j].0, lbs[j].1));
        assert(seeds_contain(lb[j], wb[i].seeds[1]));
    }
    assert(ms[2 * n - 3] == crate::matches::fresh_match(ms[2 * n - 3].id, all[2 * n - 3].0, all[2 * n - 3].1));
}

} // verus!
