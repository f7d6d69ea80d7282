//! How match results are validated when players report them

use vstd::prelude::*;

verus! {

/// Condition for a match to be validated automatically once reports come in
#[derive(Copy, Clone, Debug, PartialEq, Eq, Structural)]
pub enum AutomaticMatchValidationMode {
    /// Only the tournament organiser validates matches
    Strict,
    /// A match is validated as soon as both players agree on its result
    Flexible,
    /// A match is validated as soon as one player reports its result
    Lax,
}

impl Default for AutomaticMatchValidationMode {
    fn default() -> (res: Self)
        ensures
            res == AutomaticMatchValidationMode::Strict,
    {
        AutomaticMatchValidationMode::Strict
    }
}

} // verus!
