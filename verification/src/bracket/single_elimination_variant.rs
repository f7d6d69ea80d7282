//! Single elimination bracket seen through a bracket

use crate::bracket::winner_bracket::{rounds_view, winner_bracket, winner_bracket_rounds};
use crate::bracket::{Bracket, BracketView, PartitionError};
use crate::format::Format;
use crate::matches::Match;
use vstd::prelude::*;

verus! {

/// Single elimination bracket variant
#[derive(Debug)]
pub struct Variant {
    /// Some bracket
    bracket: Bracket,
}

/// Error with single elimination brackets
#[derive(Debug, PartialEq, Eq, Structural)]
pub enum TryIntoError {
    /// Expected format to be single-elimination
    ExpectedSingleEliminationFormat,
}

impl Variant {
    /// Bracket of this variant
    pub closed spec fn spec_bracket(self) -> BracketView {
        self.bracket@
    }

    /// Single elimination variant of `bracket`
    ///
    /// # Errors
    /// thrown when the bracket has another format
    pub fn try_from(bracket: Bracket) -> (res: Result<Self, TryIntoError>)
        ensures
            res is Ok <==> bracket@.format == Format::SingleEliminationBracket,
            res matches Err(e) ==> e == TryIntoError::ExpectedSingleEliminationFormat,
            res matches Ok(v) ==> v.spec_bracket() == bracket@,
    {
        if bracket.get_format() != Format::SingleEliminationBracket {
            return Err(TryIntoError::ExpectedSingleEliminationFormat);
        }
        Ok(Variant { bracket })
    }

    /// Returns bracket partitionned by round
    ///
    /// # Errors
    /// never: every bracket can be partitioned
    pub fn partition_by_round(&self) -> (res: Result<Vec<Vec<Match>>, PartitionError>)
        ensures
            res matches Ok(rounds) && rounds_view(rounds@) == winner_bracket_rounds(
                self.spec_bracket().matches,
                self.spec_bracket().participants.len() as int,
            ),
    {
        let matches = self.bracket.get_matches();
        let n = self.bracket.get_participants().len();
        proof {
            use_type_invariant(&self.bracket);
        }
        Ok(winner_bracket(matches.as_slice(), n))
    }
}

} // verus!
