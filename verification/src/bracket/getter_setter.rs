//! Getters and setters of a bracket

use crate::bracket::{Bracket, BracketView, Id};
use crate::format::Format;
use crate::matches::Match;
use crate::player::Participants;
use crate::seeding::Method as SeedingMethod;
use vstd::prelude::*;

verus! {

impl Bracket {
    /// Bar new participants from entering bracket
    #[must_use]
    pub fn close(self) -> (res: Self)
        ensures
            res@ == (BracketView { is_closed: true, ..self@ }),
    {
        proof {
            use_type_invariant(&self);
        }
        Self { is_closed: true, ..self }
    }

    /// Start bracket: bar people from entering and accept match results
    #[must_use]
    pub fn start(self) -> (res: Self)
        ensures
            res@ == (BracketView { is_closed: true, accept_match_results: true, ..self@ }),
    {
        proof {
            use_type_invariant(&self);
        }
        Self { is_closed: true, accept_match_results: true, ..self }
    }

    /// Return bracket format
    #[must_use]
    pub fn get_format(&self) -> (res: Format)
        ensures
            res == self@.format,
    {
        self.format
    }

    /// Get id of bracket
    #[must_use]
    pub fn get_id(&self) -> (res: Id)
        ensures
            res == self@.id,
    {
        self.bracket_id
    }

    /// Returns matches
    #[must_use]
    pub fn get_matches(&self) -> (res: Vec<Match>)
        ensures
            res@ == self@.matches,
    {
        crate::bracket::matches::copy_matches(self.matches.as_slice())
    }

    /// Get name of bracket
    #[must_use]
    pub fn get_name(&self) -> (res: String)
        ensures
            res@ == self@.name,
    {
        self.bracket_name.clone()
    }

    /// Get participants of bracket
    #[must_use]
    pub fn get_participants(&self) -> (res: Participants)
        ensures
            res@ == self@.participants,
    {
        self.participants.clone()
    }

    /// Returns seeding method
    #[must_use]
    pub fn get_seeding_method(&self) -> (res: SeedingMethod)
        ensures
            res == self@.seeding_method,
    {
        self.seeding_method
    }

    /// Returns advertised start time, in seconds since the Unix epoch
    #[must_use]
    pub fn get_start_time(&self) -> (res: i64)
        ensures
            res == self@.start_time,
    {
        self.start_time
    }

    /// Returns true if bracket is barring new participants from entering
    #[must_use]
    pub fn is_closed(&self) -> (res: bool)
        ensures
            res == self@.is_closed,
    {
        self.is_closed
    }

    /// Returns true if bracket accepts match results
    #[must_use]
    pub fn is_accepting_match_results(&self) -> (res: bool)
        ensures
            res == self@.accept_match_results,
    {
        self.accept_match_results
    }

    /// Returns true if matches are validated automatically
    #[must_use]
    pub fn is_validating_matches_automatically(&self) -> (res: bool)
        ensures
            res == self@.automatic_match_validation,
    {
        self.automatic_match_validation
    }
}

} // verus!
