//! Bracket domain: players join a bracket, its matches are generated from
//! the seeding, then results are reported and validated

pub mod builder;
pub mod double_elimination_bracket;
pub mod http_responses;
mod getter_setter;
pub mod matches;
mod ongoing;
mod participants;
pub mod progression;
pub mod raw;
pub mod seeding;
pub mod single_elimination_variant;
pub mod winner_bracket;

use crate::format::Format;
use crate::matches::{Error as MatchError, Id as MatchId, Match};
use crate::player::{ids_of, no_duplicates, Error as PlayerError, Id as PlayerId, Participants, Player};
use crate::seeding::{Error as SeedingError, Method as SeedingMethod};
use vstd::prelude::*;

verus! {

/// Bracket identifier
pub type Id = crate::ID;

/// Errors while manipulating bracket
#[derive(Debug)]
pub enum PartitionError {
    /// You need at least 3 players to perform this operation
    NotEnoughPlayersInBracket,
}

/// Error while manipulating a bracket
#[derive(Debug)]
pub enum Error {
    /// Seeding could not be done
    Seeding(SeedingError),
    /// Participants could not be updated
    PlayerUpdate(PlayerError),
    /// Match does not exist in bracket
    UnknownMatch(MatchId),
    /// Match could not be updated
    Match(MatchError),
    /// Unknown player cannot be used for seeding
    UnknownPlayer(PlayerId, Participants, Id),
    /// Bracket does not accept new participants
    BarredFromEntering(PlayerId, Id),
    /// Bracket does not accept reported results at the moment
    AcceptResults(PlayerId, Id),
    /// There is no match to update for player
    NoMatchToPlay(PlayerId, Id),
    /// No matches were generated yet
    NoGeneratedMatches(Id),
    /// There is no match for player because they won the bracket
    NoNextMatch(PlayerId, Id),
    /// There is no match for player because they were eliminated
    EliminatedFromBracket(PlayerId, Id),
    /// Player is not a participant of this bracket
    PlayerIsNotParticipant(PlayerId, Id),
    /// Bracket has started
    Started(Id, String),
}

/// Add/remove players to the bracket. Then use methods to make the bracket
/// progress.
#[derive(Debug)]
pub struct Bracket {
    /// Identifier of this bracket
    bracket_id: Id,
    /// Name of this bracket
    bracket_name: String,
    /// Players of this bracket, strongest first
    participants: Participants,
    /// Matches from this bracket, sorted by rounds
    matches: Vec<Match>,
    /// Bracket format
    format: Format,
    /// Seeding method used for this bracket
    seeding_method: SeedingMethod,
    /// Advertised start time, in seconds since the Unix epoch
    start_time: i64,
    /// When set to `true`, accept match results
    accept_match_results: bool,
    /// Matches are automatically validated if both players agree on result
    automatic_match_validation: bool,
    /// When set to `true`, bars new participants from entering bracket
    is_closed: bool,
}

/// Mathematical model of a bracket
pub struct BracketView {
    /// Identifier
    pub id: Id,
    /// Name
    pub name: Seq<char>,
    /// Players, strongest first
    pub participants: Seq<Player>,
    /// Matches, round after round
    pub matches: Seq<Match>,
    /// Format
    pub format: Format,
    /// Seeding method
    pub seeding_method: SeedingMethod,
    /// Advertised start time, in seconds since the Unix epoch
    pub start_time: i64,
    /// Match results are accepted
    pub accept_match_results: bool,
    /// Matches are validated automatically
    pub automatic_match_validation: bool,
    /// New participants are barred from entering
    pub is_closed: bool,
}

impl View for Bracket {
    type V = BracketView;

    closed spec fn view(&self) -> BracketView {
        BracketView {
            id: self.bracket_id,
            name: self.bracket_name@,
            participants: self.participants@,
            matches: self.matches@,
            format: self.format,
            seeding_method: self.seeding_method,
            start_time: self.start_time,
            accept_match_results: self.accept_match_results,
            automatic_match_validation: self.automatic_match_validation,
            is_closed: self.is_closed,
        }
    }
}

impl Bracket {
    /// Participants are distinct and every winner has a next match
    #[verifier::type_invariant]
    spec fn inv(self) -> bool {
        &&& no_duplicates(ids_of(self.participants@))
        &&& crate::bracket::matches::advancement_closed(self.matches@)
        &&& crate::bracket::matches::distinct_ids(self.matches@)
        &&& self.matches@.len() > 0 ==> self.matches@.len() + 1 == self.participants@.len()
            && crate::seeding::single_elimination_seeded_bracket::next_power_of_two(
            self.participants@.len(),
        ) <= usize::MAX
    }

    /// Create new bracket, without participants nor matches
    ///
    /// # Errors
    /// thrown when no random identifier can be drawn
    pub fn new(
        name: &str,
        format: Format,
        seeding_method: SeedingMethod,
        start_time: i64,
        automatic_match_validation: bool,
    ) -> (res: Result<Self, crate::ids::RandomIdError>)
        ensures
            res matches Ok(b) ==> {
                &&& b@.name == name@
                &&& b@.participants.len() == 0
                &&& b@.matches.len() == 0
                &&& b@.format == format
                &&& b@.seeding_method == seeding_method
                &&& b@.start_time == start_time
                &&& !b@.accept_match_results
                &&& b@.automatic_match_validation == automatic_match_validation
                &&& !b@.is_closed
            },
    {
        let bracket_id = crate::ids::new_random_id()?;
        let participants = Participants::new();
        assert(ids_of(participants@) =~= Seq::<PlayerId>::empty());
        Ok(Self {
            bracket_id,
            bracket_name: name.to_string(),
            participants,
            matches: Vec::new(),
            format,
            seeding_method,
            start_time,
            accept_match_results: false,
            automatic_match_validation,
            is_closed: false,
        })
    }
}

} // verus!
