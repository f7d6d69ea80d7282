//! Parts gathered to build a bracket: its format and participants, before
//! matches are generated

use crate::format::Format;
use crate::player::Participants;
use vstd::prelude::*;

verus! {

/// Format and participants of a bracket to build, when known
#[derive(Debug, Default)]
pub struct Builder {
    /// Format of bracket
    format: Option<Format>,
    /// Participants of bracket
    participants: Option<Participants>,
}

/// Error while building bracket
#[derive(Debug)]
pub enum Error {
    /// Missing format
    MissingFormat,
    /// Missing players
    MissingPlayers,
}

} // verus!
