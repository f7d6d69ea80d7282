//! Bracket as exchanged with clients of the service: requests and answers in
//! text form

use crate::bracket::raw::{pairs_ids_with_names, ParsingError, Raw};
use crate::bracket::{Bracket, Id};
use crate::format::{format_text, Format};
use crate::matches::get::{is_text_of, match_from_text, MatchGET};
use crate::matches::Match;
use crate::organiser::{DiscussionChannelId, Id as OrganiserId};
use crate::player::{ids_of, Id as PlayerId, Player};
use crate::seeding::{method_text, Method as SeedingMethod};
use crate::time::{is_start_time, parse_time, parsed_time, time_text, time_to_string};
use vstd::prelude::*;

verus! {

/// POST request to /bracket endpoint
#[derive(Debug)]
pub struct POST {
    /// name of the bracket
    pub bracket_name: String,
    /// used to create missing organiser
    pub organiser_name: String,
    /// Identifier of the organiser from the service (for instance: discord)
    pub organiser_internal_id: String,
    /// Identifier of the discussion channel from service (for instance: discord)
    pub channel_internal_id: String,
    /// Name of service. See totsugeki_api for a list of supported service
    pub service_type_id: String,
    /// bracket format
    pub format: String,
    /// seeding method for bracket
    pub seeding_method: String,
    /// Advertised start time
    pub start_time: String,
    /// Automatically validate match if both players agree
    pub automatic_match_validation: bool,
}

/// Bracket GET response
#[derive(Debug)]
pub struct GET {
    /// Identifier of bracket
    pub bracket_id: Id,
    /// Name of this bracket
    pub bracket_name: String,
    /// Players in this bracket
    pub players: Vec<Player>,
    /// Matches for this bracket
    pub matches: Vec<MatchGET>,
    /// Bracket format
    pub format: String,
    /// Seeding method used for this bracket
    pub seeding_method: String,
    /// Advertised start time
    pub start_time: String,
    /// Accept match results
    pub accept_match_results: bool,
    /// Automatically validate match results if both players agree
    pub automatic_match_validation: bool,
    /// Bar new participants from entering
    pub barred_from_entering: bool,
}

/// POST response to /bracket endpoint
#[derive(Debug)]
pub struct POSTResult {
    /// id of created bracket
    pub bracket_id: Id,
    /// id of organiser
    pub organiser_id: OrganiserId,
    /// id of discussion channel
    pub discussion_channel_id: DiscussionChannelId,
}

/// POST request body for interacting with a bracket, like closing or starting
/// the bracket
#[derive(Debug)]
pub struct CommandPOST {
    /// Discussion channel id of service
    pub channel_internal_id: String,
    /// Service used to make call
    pub service_type_id: String,
}

/// POST response to /bracket/start endpoint
#[derive(Debug)]
pub struct StartPOSTResult {
    /// id of created bracket
    pub bracket_id: Id,
    /// Matches to play
    pub matches: Vec<MatchGET>,
}

/// Parameters to create a bracket
pub struct CreateRequest<'b> {
    /// Automatically validate match if both players agree
    pub automatic_match_validation: bool,
    /// requested bracket format
    pub bracket_format: &'b str,
    /// requested bracket name
    pub bracket_name: &'b str,
    /// Id of internal channel
    pub internal_channel_id: &'b str,
    /// Organiser id of requested bracket while using service
    pub organiser_internal_id: &'b str,
    /// Organiser name of requested bracket
    pub organiser_name: &'b str,
    /// seeding method of requested bracket
    pub seeding_method: &'b str,
    /// Type of service used to make request
    pub service_type_id: &'b str,
    /// Advertised start time
    pub start_time: &'b str,
}

/// Format read from its text
pub open spec fn format_from_text(s: Seq<char>) -> Option<Format> {
    if s == format_text(Format::SingleEliminationBracket) {
        Some(Format::SingleEliminationBracket)
    } else if s == format_text(Format::DoubleEliminationBracket) {
        Some(Format::DoubleEliminationBracket)
    } else {
        None
    }
}

/// Seeding method read from its text
pub open spec fn method_from_text(s: Seq<char>) -> Option<SeedingMethod> {
    if s == method_text(SeedingMethod::Random) {
        Some(SeedingMethod::Random)
    } else if s == method_text(SeedingMethod::Strict) {
        Some(SeedingMethod::Strict)
    } else {
        None
    }
}

/// Every match text of `texts` can be read
pub open spec fn all_matches_read(texts: Seq<MatchGET>) -> bool {
    forall|i: int| 0 <= i < texts.len() ==> (#[trigger] match_from_text(texts[i])) is Some
}

/// Copy of match text `m`
fn copy_match_text(m: &MatchGET) -> (res: MatchGET)
    ensures
        res.id == m.id,
        res.players[0]@ == m.players[0]@,
        res.players[1]@ == m.players[1]@,
        res.seeds == m.seeds,
        res.winner@ == m.winner@,
        res.looser@ == m.looser@,
        res.reported_results[0]@ == m.reported_results[0]@,
        res.reported_results[1]@ == m.reported_results[1]@,
        match_from_text(res) == match_from_text(*m),
{
    MatchGET {
        id: m.id,
        players: [m.players[0].clone(), m.players[1].clone()],
        seeds: m.seeds,
        winner: m.winner.clone(),
        looser: m.looser.clone(),
        reported_results: [m.reported_results[0].clone(), m.reported_results[1].clone()],
    }
}

impl GET {
    /// Form values to be sent to the API to create a bracket
    #[must_use]
    pub fn new(bracket: &Raw) -> (res: Self)
        requires
            is_start_time(bracket.start_time),
        ensures
            res.bracket_id == bracket.bracket_id,
            res.bracket_name@ == bracket.bracket_name@,
            pairs_ids_with_names(res.players@, bracket.players@, bracket.player_names@),
            res.matches@.len() == bracket.matches@.len(),
            forall|i: int|
                0 <= i < res.matches@.len() ==> is_text_of(#[trigger] res.matches@[i], bracket.matches@[i]),
            res.format@ == format_text(bracket.format),
            res.seeding_method@ == method_text(bracket.seeding_method),
            res.start_time@ == time_text(bracket.start_time),
            res.accept_match_results == bracket.accept_match_results,
            res.automatic_match_validation == bracket.automatic_match_validation,
            res.barred_from_entering == bracket.barred_from_entering,
    {
        let start_time = match time_to_string(bracket.start_time) {
            Some(s) => s,
            None => {
                proof {
                    assert(false);
                }
                String::new()
            },
        };
        let mut matches: Vec<MatchGET> = Vec::new();
        for i in 0..bracket.matches.len()
            invariant
                matches@.len() == i,
                forall|k: int| 0 <= k < i ==> is_text_of(#[trigger] matches@[k], bracket.matches@[k]),
        {
            matches.push(MatchGET::from(bracket.matches[i]));
        }
        GET {
            bracket_id: bracket.bracket_id,
            bracket_name: bracket.bracket_name.clone(),
            players: bracket.get_players_list(),
            matches,
            format: bracket.format.to_string(),
            seeding_method: bracket.seeding_method.to_string(),
            start_time,
            accept_match_results: bracket.accept_match_results,
            automatic_match_validation: bracket.automatic_match_validation,
            barred_from_entering: bracket.barred_from_entering,
        }
    }
}

impl Raw {
    /// Raw data of a bracket read from its text form. Matches are read
    /// first, then the format, the seeding method and the start time.
    ///
    /// # Errors
    /// thrown when a match, the format, the seeding method or the start time
    /// cannot be read
    pub fn try_from(b: GET) -> (res: Result<Raw, ParsingError>)
        ensures
            !all_matches_read(b.matches@) ==> (res matches Err(e) && e is Match),
            all_matches_read(b.matches@) && format_from_text(b.format@) is None ==> (res matches Err(
                e,
            ) && e is Format),
            all_matches_read(b.matches@) && format_from_text(b.format@) is Some && method_from_text(
                b.seeding_method@,
            ) is None ==> (res matches Err(e) && e is Seeding),
            all_matches_read(b.matches@) && format_from_text(b.format@) is Some && method_from_text(
                b.seeding_method@,
            ) is Some && parsed_time(b.start_time@) is None ==> (res matches Err(e) && e is Time),
            res is Ok <==> all_matches_read(b.matches@) && format_from_text(b.format@) is Some
                && method_from_text(b.seeding_method@) is Some && parsed_time(b.start_time@) is Some,
            res matches Ok(r) ==> {
                &&& r.bracket_id == b.bracket_id
                &&& r.bracket_name@ == b.bracket_name@
                &&& r.players@ == ids_of(b.players@)
                &&& r.player_names@.len() == b.players@.len()
                &&& forall|i: int|
                    0 <= i < b.players@.len() ==> (#[trigger] r.player_names@[i])@
                        == b.players@[i].spec_name()
                &&& r.matches@.len() == b.matches@.len()
                &&& forall|i: int|
                    0 <= i < b.matches@.len() ==> Some(#[trigger] r.matches@[i]) == match_from_text(
                        b.matches@[i],
                    )
                &&& Some(r.format) == format_from_text(b.format@)
                &&& Some(r.seeding_method) == method_from_text(b.seeding_method@)
                &&& Some(r.start_time) == parsed_time(b.start_time@)
                &&& r.accept_match_results == b.accept_match_results
                &&& r.automatic_match_validation == b.automatic_match_validation
                &&& r.barred_from_entering == b.barred_from_entering
            },
    {
        let mut ids: Vec<PlayerId> = Vec::new();
        let mut names: Vec<String> = Vec::new();
        for i in 0..b.players.len()
            invariant
                ids@ == ids_of(b.players@).take(i as int),
                names@.len() == i,
                forall|k: int| 0 <= k < i ==> (#[trigger] names@[k])@ == b.players@[k].spec_name(),
        {
            ids.push(b.players[i].get_id());
            names.push(b.players[i].get_name());
            assert(ids@ =~= ids_of(b.players@).take(i + 1));
        }
        assert(ids@ =~= ids_of(b.players@));
        let mut matches: Vec<Match> = Vec::new();
        for i in 0..b.matches.len()
            invariant
                matches@.len() == i,
                forall|k: int|
                    0 <= k < i ==> Some(#[trigger] matches@[k]) == match_from_text(b.matches@[k]),
        {
            match Match::try_from(copy_match_text(&b.matches[i])) {
                Ok(m) => matches.push(m),
                Err(e) => {
                    assert(match_from_text(b.matches@[i as int]) is None);
                    return Err(ParsingError::Match(e));
                },
            }
        }
        assert(all_matches_read(b.matches@)) by {
            assert forall|i: int| 0 <= i < b.matches@.len() implies (#[trigger] match_from_text(
                b.matches@[i],
            )) is Some by {
                assert(Some(matches@[i]) == match_from_text(b.matches@[i]));
            }
        }
        let format = match Format::parse(b.format.as_str()) {
            Ok(f) => f,
            Err(e) => return Err(ParsingError::Format(e)),
        };
        let seeding_method = match SeedingMethod::parse(b.seeding_method.as_str()) {
            Ok(m) => m,
            Err(e) => return Err(ParsingError::Seeding(e)),
        };
        let start_time = match parse_time(b.start_time.as_str()) {
            Ok(t) => t,
            Err(e) => return Err(ParsingError::Time(e)),
        };
        Ok(
            Raw {
                bracket_id: b.bracket_id,
                bracket_name: b.bracket_name,
                players: ids,
                player_names: names,
                matches,
                format,
                seeding_method,
                start_time,
                accept_match_results: b.accept_match_results,
                automatic_match_validation: b.automatic_match_validation,
                barred_from_entering: b.barred_from_entering,
            },
        )
    }
}

impl Bracket {
    /// New bracket, without participants nor matches, as requested
    ///
    /// # Errors
    /// thrown when the format, the seeding method or the start time cannot
    /// be read, or when no random identifier can be drawn
    pub fn try_from_request(br: CreateRequest) -> (res: Result<Bracket, ParsingError>)
        ensures
            format_from_text(br.bracket_format@) is None ==> (res matches Err(e) && e is Format),
            format_from_text(br.bracket_format@) is Some && method_from_text(br.seeding_method@) is None
                ==> (res matches Err(e) && e is Seeding),
            format_from_text(br.bracket_format@) is Some && method_from_text(br.seeding_method@) is Some
                && parsed_time(br.start_time@) is None ==> (res matches Err(e) && e is Time),
            res is Ok ==> format_from_text(br.bracket_format@) is Some && method_from_text(
                br.seeding_method@,
            ) is Some && parsed_time(br.start_time@) is Some,
            format_from_text(br.bracket_format@) is Some && method_from_text(br.seeding_method@)
                is Some && parsed_time(br.start_time@) is Some ==> (res is Ok || (res matches Err(
                e) && e is NoRandomId)),
            res matches Ok(b) ==> {
                &&& b@.name == br.bracket_name@
                &&& b@.participants.len() == 0
                &&& b@.matches.len() == 0
                &&& Some(b@.format) == format_from_text(br.bracket_format@)
                &&& Some(b@.seeding_method) == method_from_text(br.seeding_method@)
                &&& Some(b@.start_time) == parsed_time(br.start_time@)
                &&& !b@.accept_match_results
                &&& b@.automatic_match_validation == br.automatic_match_validation
                &&& !b@.is_closed
            },
    {
        let format = match Format::parse(br.bracket_format) {
            Ok(f) => f,
            Err(e) => return Err(ParsingError::Format(e)),
        };
        let seeding_method = match SeedingMethod::parse(br.seeding_method) {
            Ok(m) => m,
            Err(e) => return Err(ParsingError::Seeding(e)),
        };
        let start_time = match parse_time(br.start_time) {
            Ok(t) => t,
            Err(e) => return Err(ParsingError::Time(e)),
        };
        match Bracket::new(
            br.bracket_name,
            format,
            seeding_method,
            start_time,
            br.automatic_match_validation,
        ) {
            Ok(b) => Ok(b),
            Err(_) => Err(ParsingError::NoRandomId),
        }
    }
}

} // verus!
