//! Double elimination bracket seen through a bracket

use crate::bracket::{Bracket, BracketView};
use crate::format::Format;
use vstd::prelude::*;

verus! {

/// Double elimination bracket variant
#[derive(Debug)]
pub struct Variant {
    /// Some bracket
    bracket: Bracket,
}

/// Error with double elimination brackets
#[derive(Debug, PartialEq, Eq, Structural)]
pub enum TryIntoError {
    /// Expected format to be double-elimination
    ExpectedDoubleEliminationFormat,
}

impl Variant {
    /// Bracket of this variant
    pub closed spec fn spec_bracket(self) -> BracketView {
        self.bracket@
    }

    /// Double elimination variant of `bracket`
    ///
    /// # Errors
    /// thrown when the bracket has another format
    pub fn try_from(bracket: Bracket) -> (res: Result<Self, TryIntoError>)
        ensures
            res is Ok <==> bracket@.format == Format::DoubleEliminationBracket,
            res matches Err(e) ==> e == TryIntoError::ExpectedDoubleEliminationFormat,
            res matches Ok(v) ==> v.spec_bracket() == bracket@,
    {
        if bracket.get_format() != Format::DoubleEliminationBracket {
            return Err(TryIntoError::ExpectedDoubleEliminationFormat);
        }
        Ok(Variant { bracket })
    }
}

} // verus!
