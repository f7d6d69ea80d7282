//! Bracket result

use vstd::prelude::*;

verus! {

/// Bracket result
#[derive(Debug)]
pub struct BracketResult(pub (u8, u8));

/// Creating result
#[derive(Debug)]
pub enum Error {
    /// Match result is invalid
    Invalid(u8, u8),
}

impl BracketResult {
    /// New bracket result
    ///
    /// # Errors
    /// thrown when both scores are 0
    pub fn new(r1: u8, r2: u8) -> (res: Result<Self, Error>)
        ensures
            res is Err <==> (r1 == 0 && r2 == 0),
            res matches Err(e) ==> e == Error::Invalid(r1, r2),
            res matches Ok(r) ==> r.0 == (r1, r2),
    {
        if r1 == 0 && r2 == 0 {
            Err(Error::Invalid(r1, r2))
        } else {
            Ok(Self((r1, r2)))
        }
    }
}

} // verus!
