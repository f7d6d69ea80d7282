//! Bracket as plain data, as stored or exchanged: potentially malformed.
//! `Bracket` is its well-formed counterpart.

use crate::bracket::matches::{advancement_closed, copy_matches, is_advancement_closed};
use crate::bracket::{Bracket, Id as BracketId};
use crate::format::Format;
use crate::matches::Match;
use crate::player::{
    ids_of, no_duplicates, Error as PlayerError, Id as PlayerId, Participants, Player,
};
use crate::seeding::single_elimination_seeded_bracket::{next_power_of_two, power_of_two_fits};
use crate::seeding::Method as SeedingMethod;
use vstd::prelude::*;

verus! {

/// Raw data of bracket, potentially malformed. Use `Bracket` for well-formed bracket
#[derive(Debug)]
pub struct Raw {
    /// Identifier of this bracket
    pub bracket_id: BracketId,
    /// Name of this bracket
    pub bracket_name: String,
    /// Players in this bracket
    pub players: Vec<PlayerId>,
    /// Names of players in this bracket
    pub player_names: Vec<String>,
    /// Matches from this bracket, sorted by rounds
    pub matches: Vec<Match>,
    /// Bracket format
    pub format: Format,
    /// Seeding method used for this bracket
    pub seeding_method: SeedingMethod,
    /// Advertised start time, in seconds since the Unix epoch
    pub start_time: i64,
    /// Accept match results
    pub accept_match_results: bool,
    /// Matches are automatically validated if both players agree on result
    pub automatic_match_validation: bool,
    /// Bar new participants from entering bracket
    pub barred_from_entering: bool,
}

/// Error while reading a bracket from raw data or text
#[derive(Debug)]
pub enum ParsingError {
    /// Could not parse bracket format
    Format(crate::format::ParsingError),
    /// Could not parse seeding method
    Seeding(crate::seeding::ParsingError),
    /// Could not parse match
    Match(crate::matches::get::MatchParsingError),
    /// Could not parse time
    Time(chrono::ParseError),
    /// Players are not distinct
    Players(PlayerError),
    /// Matches are not those of a single elimination bracket of its players:
    /// a winner would have no next match, two matches share an identifier,
    /// or there is not one match less than players
    MalformedMatches,
    /// No random identifier could be drawn for the bracket
    NoRandomId,
}

/// `ps` pairs identifiers `ids` with names `names`, as far as both lists go
pub open spec fn pairs_ids_with_names(ps: Seq<Player>, ids: Seq<PlayerId>, names: Seq<String>) -> bool {
    &&& ps.len() == (if ids.len() <= names.len() {
        ids.len()
    } else {
        names.len()
    })
    &&& forall|i: int|
        0 <= i < ps.len() ==> (#[trigger] ps[i]).spec_id() == ids[i] && ps[i].spec_name()
            == names[i]@
}

/// Matches `ms` can be those of a bracket of `n` players: none, or one match
/// less than players, a bracket size that fits in memory, a next match for
/// every winner and distinct match identifiers
pub open spec fn matches_fit(ms: Seq<Match>, n: int) -> bool {
    ms.len() == 0 || (ms.len() + 1 == n && next_power_of_two(n as nat) <= usize::MAX
        && advancement_closed(ms) && crate::bracket::matches::distinct_ids(ms))
}

/// Players made of identifiers `ids` and names `names`, as far as both
/// lists go
fn pair_players(ids: &Vec<PlayerId>, names: &Vec<String>) -> (res: Vec<Player>)
    ensures
        pairs_ids_with_names(res@, ids@, names@),
{
    let n = if ids.len() <= names.len() {
        ids.len()
    } else {
        names.len()
    };
    let mut res: Vec<Player> = Vec::new();
    for i in 0..n
        invariant
            n <= ids@.len(),
            n <= names@.len(),
            n == (if ids@.len() <= names@.len() {
                ids@.len()
            } else {
                names@.len()
            }),
            res@.len() == i,
            forall|k: int|
                0 <= k < i ==> (#[trigger] res@[k]).spec_id() == ids@[k] && res@[k].spec_name()
                    == names@[k]@,
    {
        res.push(Player::from_id_and_name(ids[i], names[i].clone()));
    }
    res
}

impl Raw {
    /// Create new bracket, without players nor matches, with a fresh random
    /// identifier
    ///
    /// # Errors
    /// thrown when no random identifier can be drawn
    pub fn new(
        bracket_name: String,
        format: Format,
        seeding_method: SeedingMethod,
        start_time: i64,
        automatic_match_validation: bool,
    ) -> (res: Result<Self, crate::ids::RandomIdError>)
        ensures
            res matches Ok(r) ==> {
                &&& r.bracket_name@ == bracket_name@
                &&& r.players@.len() == 0
                &&& r.player_names@.len() == 0
                &&& r.matches@.len() == 0
                &&& r.format == format
                &&& r.seeding_method == seeding_method
                &&& r.start_time == start_time
                &&& !r.accept_match_results
                &&& r.automatic_match_validation == automatic_match_validation
                &&& !r.barred_from_entering
            },
    {
        let bracket_id = crate::ids::new_random_id()?;
        Ok(Raw {
            bracket_id,
            bracket_name,
            players: Vec::new(),
            player_names: Vec::new(),
            matches: Vec::new(),
            format,
            seeding_method,
            start_time,
            accept_match_results: false,
            automatic_match_validation,
            barred_from_entering: false,
        })
    }

    /// Get participants of this bracket as a list of players
    #[must_use]
    pub fn get_players_list(&self) -> (res: Vec<Player>)
        ensures
            pairs_ids_with_names(res@, self.players@, self.player_names@),
    {
        pair_players(&self.players, &self.player_names)
    }

    /// Raw data of bracket `b`
    #[must_use]
    pub fn from(b: Bracket) -> (res: Self)
        ensures
            res.bracket_id == b@.id,
            res.bracket_name@ == b@.name,
            res.players@ == ids_of(b@.participants),
            res.player_names@.len() == b@.participants.len(),
            forall|i: int|
                0 <= i < b@.participants.len() ==> (#[trigger] res.player_names@[i])@
                    == b@.participants[i].spec_name(),
            res.matches@ == b@.matches,
            res.format == b@.format,
            res.seeding_method == b@.seeding_method,
            res.start_time == b@.start_time,
            res.accept_match_results == b@.accept_match_results,
            res.automatic_match_validation == b@.automatic_match_validation,
            res.barred_from_entering == b@.is_closed,
    {
        let players = b.get_participants().get_players_list();
        let mut ids: Vec<PlayerId> = Vec::new();
        let mut names: Vec<String> = Vec::new();
        for i in 0..players.len()
            invariant
                players@ == b@.participants,
                ids@ == ids_of(players@).take(i as int),
                names@.len() == i,
                forall|k: int| 0 <= k < i ==> (#[trigger] names@[k])@ == players@[k].spec_name(),
        {
            ids.push(players[i].get_id());
            names.push(players[i].get_name());
            assert(ids@ =~= ids_of(players@).take(i + 1));
        }
        assert(ids@ =~= ids_of(players@));
        Raw {
            bracket_id: b.get_id(),
            bracket_name: b.get_name(),
            players: ids,
            player_names: names,
            matches: b.get_matches(),
            format: b.get_format(),
            seeding_method: b.get_seeding_method(),
            start_time: b.get_start_time(),
            accept_match_results: b.is_accepting_match_results(),
            automatic_match_validation: b.is_validating_matches_automatically(),
            barred_from_entering: b.is_closed(),
        }
    }
}

impl Bracket {
    /// Well-formed bracket from raw data
    ///
    /// # Errors
    /// thrown when players are not distinct, or matches cannot be those of a
    /// single elimination bracket of these players
    pub fn try_from(br: Raw) -> (res: Result<Bracket, ParsingError>)
        ensures
            ({
                let n = if br.players@.len() <= br.player_names@.len() {
                    br.players@.len()
                } else {
                    br.player_names@.len()
                };
                &&& (res is Err && res->Err_0 is Players) <==> !no_duplicates(
                    br.players@.take(n as int),
                )
                &&& (res is Err && res->Err_0 is MalformedMatches) <==> no_duplicates(
                    br.players@.take(n as int),
                ) && !matches_fit(br.matches@, n as int)
                &&& res matches Ok(b) ==> {
                    &&& b@.id == br.bracket_id
                    &&& b@.name == br.bracket_name@
                    &&& pairs_ids_with_names(b@.participants, br.players@, br.player_names@)
                    &&& b@.matches == br.matches@
                    &&& b@.format == br.format
                    &&& b@.seeding_method == br.seeding_method
                    &&& b@.start_time == br.start_time
                    &&& b@.accept_match_results == br.accept_match_results
                    &&& b@.automatic_match_validation == br.automatic_match_validation
                    &&& b@.is_closed == br.barred_from_entering
                }
            }),
    {
        let players = pair_players(&br.players, &br.player_names);
        let ghost n = players@.len();
        proof {
            assert(ids_of(players@) =~= br.players@.take(n as int));
        }
        let participants = match Participants::try_from_players(players) {
            Ok(p) => p,
            Err(e) => return Err(ParsingError::Players(e)),
        };
        let count = participants.len();
        let fits = br.matches.len() == 0 || (count >= 1 && br.matches.len() == count - 1
            && power_of_two_fits(count) && is_advancement_closed(br.matches.as_slice())
            && crate::bracket::matches::has_distinct_ids(br.matches.as_slice()));
        if !fits {
            return Err(ParsingError::MalformedMatches);
        }
        Ok(
            Bracket {
                bracket_id: br.bracket_id,
                bracket_name: br.bracket_name,
                participants,
                matches: br.matches,
                format: br.format,
                seeding_method: br.seeding_method,
                start_time: br.start_time,
                accept_match_results: br.accept_match_results,
                automatic_match_validation: br.automatic_match_validation,
                is_closed: br.barred_from_entering,
            },
        )
    }
}

/// Collection of brackets from raw data
#[derive(Debug)]
pub struct Brackets {
    /// A collection of brackets
    brackets: Vec<Raw>,
}

/// Collection of brackets from raw data
pub type RawBrackets = Brackets;

/// Copy of raw bracket `r`
pub fn copy_raw(r: &Raw) -> (res: Raw)
    ensures
        res.bracket_id == r.bracket_id,
        res.bracket_name@ == r.bracket_name@,
        res.players@ == r.players@,
        res.player_names@.len() == r.player_names@.len(),
        forall|i: int|
            0 <= i < r.player_names@.len() ==> (#[trigger] res.player_names@[i])@
                == r.player_names@[i]@,
        res.matches@ == r.matches@,
        res.format == r.format,
        res.seeding_method == r.seeding_method,
        res.start_time == r.start_time,
        res.accept_match_results == r.accept_match_results,
        res.automatic_match_validation == r.automatic_match_validation,
        res.barred_from_entering == r.barred_from_entering,
{
    let mut players: Vec<PlayerId> = Vec::new();
    for i in 0..r.players.len()
        invariant
            players@ == r.players@.take(i as int),
    {
        players.push(r.players[i]);
        assert(players@ =~= r.players@.take(i + 1));
    }
    assert(players@ =~= r.players@);
    let mut names: Vec<String> = Vec::new();
    for i in 0..r.player_names.len()
        invariant
            names@.len() == i,
            forall|k: int| 0 <= k < i ==> (#[trigger] names@[k])@ == r.player_names@[k]@,
    {
        names.push(r.player_names[i].clone());
    }
    Raw {
        bracket_id: r.bracket_id,
        bracket_name: r.bracket_name.clone(),
        players,
        player_names: names,
        matches: copy_matches(r.matches.as_slice()),
        format: r.format,
        seeding_method: r.seeding_method,
        start_time: r.start_time,
        accept_match_results: r.accept_match_results,
        automatic_match_validation: r.automatic_match_validation,
        barred_from_entering: r.barred_from_entering,
    }
}

/// `a` and `b` hold the same raw bracket
pub open spec fn same_raw(a: Raw, b: Raw) -> bool {
    &&& a.bracket_id == b.bracket_id
    &&& a.bracket_name@ == b.bracket_name@
    &&& a.players@ == b.players@
    &&& a.player_names@.len() == b.player_names@.len()
    &&& forall|i: int| 0 <= i < a.player_names@.len() ==> (#[trigger] a.player_names@[i])@ == b.player_names@[i]@
    &&& a.matches@ == b.matches@
    &&& a.format == b.format
    &&& a.seeding_method == b.seeding_method
    &&& a.start_time == b.start_time
    &&& a.accept_match_results == b.accept_match_results
    &&& a.automatic_match_validation == b.automatic_match_validation
    &&& a.barred_from_entering == b.barred_from_entering
}

impl Brackets {
    /// Brackets of the collection
    pub closed spec fn spec_brackets(self) -> Seq<Raw> {
        self.brackets@
    }

    /// Collection of brackets `brackets`
    #[must_use]
    pub fn new(brackets: Vec<Raw>) -> (res: Self)
        ensures
            res.spec_brackets() == brackets@,
    {
        Brackets { brackets }
    }

    /// Get brackets
    #[must_use]
    pub fn get_brackets(&self) -> (res: Vec<Raw>)
        ensures
            res@.len() == self.spec_brackets().len(),
            forall|i: int|
                0 <= i < res@.len() ==> same_raw(#[trigger] res@[i], self.spec_brackets()[i]),
    {
        let mut res: Vec<Raw> = Vec::new();
        for i in 0..self.brackets.len()
            invariant
                res@.len() == i,
                forall|k: int|
                    0 <= k < i ==> same_raw(#[trigger] res@[k], self.brackets@[k]),
        {
            res.push(copy_raw(&self.brackets[i]));
        }
        res
    }
}

} // verus!
