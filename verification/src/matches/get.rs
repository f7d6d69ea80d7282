//! Text form of matches and next matches, as exchanged over the network

use crate::bracket::Id as BracketId;
use crate::matches::text::{result_text, spec_parse_result, MatchResultParsingError};
use crate::matches::{Id, Match, MatchReportedResult, ReportedResult, Seeds};
use crate::opponent::{opponent_text, spec_parse_opponent, Opponent, ParsingOpponentError};
use crate::player::Player;
use vstd::prelude::*;

verus! {

/// Match in text form
#[derive(Debug)]
pub struct MatchGET {
    /// Match id
    pub id: Id,
    /// Participants
    pub players: [String; 2],
    /// seeds\[0\]: top seed
    /// seeds\[1\]: bottom seed
    pub seeds: Seeds,
    /// The winner of this match, "?" if unknown
    pub winner: String,
    /// The looser of this match, "?" if unknown
    pub looser: String,
    /// Results reported by players
    pub reported_results: [String; 2],
}

/// Error while converting a match from its text form
#[derive(Debug)]
pub enum MatchParsingError {
    /// Error while parsing opponent
    ParsingOpponentError(ParsingOpponentError),
    /// Could not gather opponents for a match
    GatherOpponents(Vec<Opponent>),
    /// Reported result could not be parsed
    ReportedResult(MatchResultParsingError),
    /// Winner is not one of the players in the match
    UnknownWinner,
    /// Looser is not one of the players in the match
    UnknownLooser,
}

/// `o` is unknown or one of `players`
pub open spec fn among_players(o: Opponent, players: [Opponent; 2]) -> bool {
    o == Opponent::Unknown || o == players[0] || o == players[1]
}

/// Match read from its text form `m`, if it can be read: players, winner
/// and looser are opponents, winner and looser are unknown or players of the
/// match, and both reported results can be read
pub open spec fn match_from_text(m: MatchGET) -> Option<Match> {
    let p0 = spec_parse_opponent(m.players[0]@);
    let p1 = spec_parse_opponent(m.players[1]@);
    let w = spec_parse_opponent(m.winner@);
    let l = spec_parse_opponent(m.looser@);
    let r = spec_parse_result(m.reported_results[0]@);
    let r1 = spec_parse_result(m.reported_results[1]@);
    if p0 is None || p1 is None || w is None || l is None || r is None || r1 is None {
        None
    } else if !among_players(w->Some_0, [p0->Some_0, p1->Some_0]) || !among_players(
        l->Some_0,
        [p0->Some_0, p1->Some_0],
    ) {
        None
    } else {
        Some(
            Match {
                id: m.id,
                players: [p0->Some_0, p1->Some_0],
                seeds: m.seeds,
                winner: w->Some_0,
                automatic_loser: l->Some_0,
                reported_results: [r->Some_0.0, r1->Some_0.0],
            },
        )
    }
}

/// `g` is the text form of match `q`
pub open spec fn is_text_of(g: MatchGET, q: Match) -> bool {
    &&& g.id == q.id
    &&& g.players[0]@ == opponent_text(q.players[0])
    &&& g.players[1]@ == opponent_text(q.players[1])
    &&& g.seeds == q.seeds
    &&& g.winner@ == opponent_text(q.winner)
    &&& g.looser@ == opponent_text(q.automatic_loser)
    &&& g.reported_results[0]@ == result_text(ReportedResult(q.reported_results[0]))
    &&& g.reported_results[1]@ == result_text(ReportedResult(q.reported_results[1]))
}

impl MatchGET {
    /// Text form of the parts of a match
    #[must_use]
    pub fn new(
        id: Id,
        players: &[Opponent; 2],
        seeds: Seeds,
        winner: &Opponent,
        looser: &Opponent,
        rr: MatchReportedResult,
    ) -> (res: Self)
        ensures
            res.id == id,
            res.players[0]@ == opponent_text(players[0]),
            res.players[1]@ == opponent_text(players[1]),
            res.seeds == seeds,
            res.winner@ == opponent_text(*winner),
            res.looser@ == opponent_text(*looser),
            res.reported_results[0]@ == result_text(ReportedResult(rr[0])),
            res.reported_results[1]@ == result_text(ReportedResult(rr[1])),
    {
        Self {
            id,
            players: [players[0].to_string(), players[1].to_string()],
            seeds,
            winner: winner.to_string(),
            looser: looser.to_string(),
            reported_results: [ReportedResult(rr[0]).to_string(), ReportedResult(rr[1]).to_string()],
        }
    }

    /// Text form of match `m`
    #[must_use]
    pub fn from(m: Match) -> (res: Self)
        ensures
            res.id == m.id,
            res.players[0]@ == opponent_text(m.players[0]),
            res.players[1]@ == opponent_text(m.players[1]),
            res.seeds == m.seeds,
            res.winner@ == opponent_text(m.winner),
            res.looser@ == opponent_text(m.automatic_loser),
            res.reported_results[0]@ == result_text(ReportedResult(m.reported_results[0])),
            res.reported_results[1]@ == result_text(ReportedResult(m.reported_results[1])),
            is_text_of(res, m),
    {
        Self::new(m.id, &m.players, m.seeds, &m.winner, &m.automatic_loser, m.reported_results)
    }
}

impl Match {
    /// Match read from its text form
    ///
    /// # Errors
    /// thrown when an opponent or a reported result cannot be read,
    /// or when winner or looser are not players of the match
    pub fn try_from(m: MatchGET) -> (res: Result<Match, MatchParsingError>)
        ensures
            ({
                let p0 = spec_parse_opponent(m.players[0]@);
                let p1 = spec_parse_opponent(m.players[1]@);
                let w = spec_parse_opponent(m.winner@);
                let l = spec_parse_opponent(m.looser@);
                let r = spec_parse_result(m.reported_results[0]@);
                let r1 = spec_parse_result(m.reported_results[1]@);
                if p0 is None || p1 is None || w is None {
                    res matches Err(e) && e is ParsingOpponentError
                } else if !among_players(w->Some_0, [p0->Some_0, p1->Some_0]) {
                    res matches Err(e) && e is UnknownWinner
                } else if l is None {
                    res matches Err(e) && e is ParsingOpponentError
                } else if !among_players(l->Some_0, [p0->Some_0, p1->Some_0]) {
                    res matches Err(e) && e is UnknownLooser
                } else if r is None || r1 is None {
                    res matches Err(e) && e is ReportedResult
                } else {
                    res matches Ok(x) && x == (Match {
                        id: m.id,
                        players: [p0->Some_0, p1->Some_0],
                        seeds: m.seeds,
                        winner: w->Some_0,
                        automatic_loser: l->Some_0,
                        reported_results: [r->Some_0.0, r1->Some_0.0],
                    })
                }
            }),
            res is Ok <==> match_from_text(m) is Some,
            res matches Ok(x) ==> match_from_text(m) == Some(x),
            // reading back the text of a match whose winner and looser are
            // among its players gives that match
            forall|q: Match|
                #![trigger is_text_of(m, q)]
                is_text_of(m, q) && among_players(q.winner, q.players) && among_players(
                    q.automatic_loser,
                    q.players,
                ) && q.reported_results[0].0 >= 0 && q.reported_results[1].0 >= 0 ==> res
                    == Ok::<Match, MatchParsingError>(q),
    {
        let p0r = Opponent::parse(m.players[0].as_str());
        let p1r = Opponent::parse(m.players[1].as_str());
        let wr = Opponent::parse(m.winner.as_str());
        let lr = Opponent::parse(m.looser.as_str());
        let rr = ReportedResult::parse(m.reported_results[0].as_str());
        let rr1 = ReportedResult::parse(m.reported_results[1].as_str());
        proof {
            assert forall|q: Match| #[trigger] is_text_of(m, q) implies {
                &&& p0r matches Ok(o) && o == q.players[0]
                &&& p1r matches Ok(o) && o == q.players[1]
                &&& wr matches Ok(o) && o == q.winner
                &&& lr matches Ok(o) && o == q.automatic_loser
                &&& q.reported_results[0].0 >= 0 ==> (rr matches Ok(r) && r == ReportedResult(
                    q.reported_results[0],
                ))
                &&& q.reported_results[1].0 >= 0 ==> (rr1 matches Ok(r) && r == ReportedResult(
                    q.reported_results[1],
                ))
            } by {
                if q.reported_results[0].0 >= 0 {
                    crate::matches::text::lemma_result_text_round_trip(
                        ReportedResult(q.reported_results[0]),
                    );
                }
                if q.reported_results[1].0 >= 0 {
                    crate::matches::text::lemma_result_text_round_trip(
                        ReportedResult(q.reported_results[1]),
                    );
                }
            }
        }
        let p0 = match p0r {
            Ok(o) => o,
            Err(e) => return Err(MatchParsingError::ParsingOpponentError(e)),
        };
        let p1 = match p1r {
            Ok(o) => o,
            Err(e) => return Err(MatchParsingError::ParsingOpponentError(e)),
        };
        let players = [p0, p1];
        let winner = match wr {
            Ok(o) => o,
            Err(e) => return Err(MatchParsingError::ParsingOpponentError(e)),
        };
        if !winner.is_unknown() && !(winner == players[0] || winner == players[1]) {
            return Err(MatchParsingError::UnknownWinner);
        }
        let looser = match lr {
            Ok(o) => o,
            Err(e) => return Err(MatchParsingError::ParsingOpponentError(e)),
        };
        if !looser.is_unknown() && !(looser == players[0] || looser == players[1]) {
            return Err(MatchParsingError::UnknownLooser);
        }
        let first = match rr {
            Ok(r) => r,
            Err(e) => return Err(MatchParsingError::ReportedResult(e)),
        };
        let second = match rr1 {
            Ok(r) => r,
            Err(e) => return Err(MatchParsingError::ReportedResult(e)),
        };
        let read = Self {
            id: m.id,
            players,
            seeds: m.seeds,
            winner,
            automatic_loser: looser,
            reported_results: [first.0, second.0],
        };
        proof {
            assert forall|q: Match|
                #![trigger is_text_of(m, q)]
                is_text_of(m, q) && q.reported_results[0].0 >= 0 && q.reported_results[1].0 >= 0
                implies read == q by {
                assert(read.players =~= q.players);
                assert(read.reported_results =~= q.reported_results);
            }
        }
        Ok(read)
    }
}

/// Name of the player for opponent `o`: `?` when unknown, nothing when the
/// player is not among `players`
#[must_use]
pub fn print_player_name(o: &Opponent, players: &[Player]) -> (res: Option<String>)
    ensures
        *o == Opponent::Unknown ==> (res matches Some(s) && s@ == seq!['?']),
        o matches Opponent::Player(p) ==> {
            &&& res is Some <==> exists|k: int| 0 <= k < players@.len() && players@[k].spec_id() == p
            &&& res matches Some(s) ==> exists|k: int|
                0 <= k < players@.len() && players@[k].spec_id() == p && s@
                    == players@[k].spec_name() && forall|j: int|
                    0 <= j < k ==> players@[j].spec_id() != p
        },
{
    match o {
        Opponent::Player(p) => {
            let mut i: usize = 0;
            while i < players.len()
                invariant
                    i <= players@.len(),
                    *o == Opponent::Player(*p),
                    forall|j: int| 0 <= j < i ==> players@[j].spec_id() != *p,
                decreases players@.len() - i,
            {
                if players[i].get_id() == *p {
                    let name = players[i].get_name();
                    assert(players@[i as int].spec_id() == *p);
                    return Some(name);
                }
                i += 1;
            }
            None
        },
        Opponent::Unknown => Some(Opponent::Unknown.to_string()),
    }
}

/// Response to query: "who is my next opponent"
#[derive(Debug)]
pub struct NextMatchGET {
    /// Next opponent
    pub opponent: Opponent,
    /// Id of next match
    pub match_id: Id,
    /// Bracket where next match happens
    pub bracket_id: BracketId,
    /// Name of next opponent
    pub player_name: String,
}

/// Raw response to query: "who is my next opponent"
#[derive(Debug)]
pub struct NextMatchGETResponse {
    /// Next opponent
    pub opponent: String,
    /// Id of next match
    pub match_id: Id,
    /// Bracket where next match happens
    pub bracket_id: BracketId,
    /// Name of next opponent
    pub player_name: String,
}

/// Raw answer to the next match query: the opponent is not read yet
#[derive(Debug)]
pub struct NextMatchGETResponseRaw {
    /// Next opponent
    pub opponent: String,
    /// Id of next match
    pub match_id: Id,
    /// Bracket where next match happens
    pub bracket_id: BracketId,
    /// Opponent name
    pub player_name: String,
}

/// Answer to reporting a result: the match concerned, a message and the
/// matches that can now be played
#[derive(Debug)]
pub struct ReportResultPOST {
    /// Id of match where result is reported
    pub affected_match_id: Id,
    /// Additionnal message which may contain a warning
    pub message: String,
    /// List of new matches to play after updating the bracket
    pub matches: Vec<MatchGET>,
}

/// Error while parsing next match
#[derive(Debug)]
pub enum NextMatchGETParsingError {
    /// Could not parse opponent
    Opponent(ParsingOpponentError),
}

impl NextMatchGET {
    /// Next match read from its raw form
    ///
    /// # Errors
    /// thrown when the opponent cannot be read
    pub fn try_from(r: NextMatchGETResponse) -> (res: Result<Self, NextMatchGETParsingError>)
        ensures
            res is Ok <==> spec_parse_opponent(r.opponent@) is Some,
            res matches Ok(n) ==> Some(n.opponent) == spec_parse_opponent(r.opponent@)
                && n.match_id == r.match_id && n.bracket_id == r.bracket_id && n.player_name@
                == r.player_name@,
    {
        let opponent = match Opponent::parse(r.opponent.as_str()) {
            Ok(o) => o,
            Err(e) => return Err(NextMatchGETParsingError::Opponent(e)),
        };
        Ok(
            Self {
                opponent,
                match_id: r.match_id,
                bracket_id: r.bracket_id,
                player_name: r.player_name,
            },
        )
    }
}

} // verus!
