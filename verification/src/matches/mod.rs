//! Two players play a match, resulting in a winner and a loser

pub mod bracket_result;
pub mod get;
pub mod query;
pub mod requests;
pub mod result;
pub mod summary;
pub mod text;

use crate::ids::new_random_id;
use crate::opponent::Opponent;
use crate::player::Id as PlayerId;
use crate::ID;
pub use requests::{
    NextMatchGETRequest, PlayerMatchResultPOST, TournamentOrganiserMatchResultPOST,
    ValidateMatchPOST,
};
use vstd::prelude::*;

verus! {

/// Id of match
pub type Id = ID;

/// Id of match
pub type MatchID = ID;

/// Seeds of players
pub type Seeds = [usize; 2];

/// A match result is a score. For example, I win 2-0
pub type MatchReportedResult = [(i8, i8); 2];

/// Players in match
pub type MatchPlayers = [Opponent; 2];

/// Reported result
#[derive(Debug, Clone, Copy, PartialEq, Eq)]
pub struct ReportedResult(pub (i8, i8));

/// Error while interacting with match
#[derive(Debug, Clone, Copy)]
pub enum Error {
    /// Players reported different match outcome
    PlayersReportedDifferentMatchOutcome(Id, [ReportedResult; 2]),
    /// Mathematical overflow happened, cannot proceed
    MathOverflow,
    /// Cannot update match because player is Unknown
    UnknownPlayer(PlayerId, MatchPlayers),
    /// Cannot update match result because an opponent is missing
    MissingOpponent(MatchPlayers),
    /// Match got into a really bad state where an unknown player has result
    UnknownPlayerWithReportedResults,
    /// Cannot instantiate match with two same player
    SamePlayer,
    /// Cannot set opponent without a player id
    OpponentIsNotAPlayer,
    /// No opponent to player was found
    NoOpponent(MatchPlayers),
    /// Cannot insert player because another player is already present
    AlreadyPresent(PlayerId, PlayerId),
    /// No random identifier could be drawn for a new match
    NoRandomId,
}

/// Score `r` seen from the other player
pub open spec fn reversed(r: ReportedResult) -> ReportedResult {
    ReportedResult((r.0.1, r.0.0))
}

impl ReportedResult {
    /// Reverse score
    #[must_use]
    pub fn reverse(self) -> (res: Self)
        ensures
            res == reversed(self),
    {
        Self((self.0.1, self.0.0))
    }
}

/// Reversing a score twice gives back that score
pub proof fn lemma_reverse_reverse(r: ReportedResult)
    ensures
        reversed(reversed(r)) == r,
{
}

/// A match between two players, resulting in a winner and a loser
#[derive(Debug, Default, PartialEq, Eq, Clone, Copy)]
pub struct Match {
    /// Identifier of match
    pub id: Id,
    /// Participants
    pub players: MatchPlayers,
    /// seeds\[0\]: top seed
    /// seeds\[1\]: bottom seed
    pub seeds: Seeds,
    /// The winner of this match
    pub winner: Opponent,
    /// The loser of this match by disqualification
    pub automatic_loser: Opponent,
    /// Result reported by players
    pub reported_results: MatchReportedResult,
}

/// `o` is player `p`
pub open spec fn is_player(o: Opponent, p: PlayerId) -> bool {
    o == Opponent::Player(p)
}

impl Match {
    /// One of the players of this match is `p`
    pub open spec fn has_player(self, p: PlayerId) -> bool {
        is_player(self.players[0], p) || is_player(self.players[1], p)
    }

    /// Both opponents are known players
    pub open spec fn both_present(self) -> bool {
        self.players[0] is Player && self.players[1] is Player
    }

    /// Winner is declared
    pub open spec fn decided(self) -> bool {
        self.winner is Player
    }

    /// Match is over: both players are known and either a winner or a
    /// disqualified player is declared
    pub open spec fn spec_is_over(self) -> bool {
        self.both_present() && (self.winner is Player || self.automatic_loser is Player)
    }

    /// Both players are known, no winner and no disqualified player
    pub open spec fn spec_needs_playing(self) -> bool {
        self.winner is Unknown && self.automatic_loser is Unknown && self.players[0] !is Unknown
            && self.players[1] !is Unknown
    }

    /// Both players are known, one is disqualified but no winner is declared
    pub open spec fn spec_needs_update_for_disqualification(self) -> bool {
        self.winner is Unknown && self.automatic_loser !is Unknown && self.players[0] !is Unknown
            && self.players[1] !is Unknown
    }

    /// Both players have reported a result
    pub open spec fn spec_has_all_player_reports(self) -> bool {
        self.reported_results[0] != (0i8, 0i8) && self.reported_results[1] != (0i8, 0i8)
    }

    /// Match whose winner is `w`, all else unchanged
    pub open spec fn with_winner(self, w: PlayerId) -> Match {
        Match { winner: Opponent::Player(w), ..self }
    }

    /// Match whose players are `players`, all else unchanged
    pub open spec fn with_players(self, players: MatchPlayers) -> Match {
        Match { players, ..self }
    }
}

/// Outcome of a match from its state: the disqualified player loses, otherwise
/// both reports must agree on a winner. Returns updated match, winner and
/// loser
pub open spec fn spec_update_outcome(m: Match) -> Result<(Match, PlayerId, PlayerId), Error> {
    match m.automatic_loser {
        Opponent::Player(dq) => {
            match (m.players[0], m.players[1]) {
                (Opponent::Player(p1), Opponent::Player(p2)) => {
                    if p1 == dq {
                        Ok((m.with_winner(p2), p2, dq))
                    } else if p2 == dq {
                        Ok((m.with_winner(p1), p1, dq))
                    } else {
                        Err(Error::MissingOpponent(m.players))
                    }
                },
                _ => Err(Error::MissingOpponent(m.players)),
            }
        },
        Opponent::Unknown => {
            let r1 = m.reported_results[0];
            let r2 = m.reported_results[1];
            let disagreement = Error::PlayersReportedDifferentMatchOutcome(
                m.id,
                [ReportedResult(r1), ReportedResult(r2)],
            );
            if r1.1 != r2.0 || r1.0 != r2.1 || r1.0 == r1.1 {
                Err(disagreement)
            } else {
                let (w, l) = if r1.0 > r1.1 {
                    (m.players[0], m.players[1])
                } else {
                    (m.players[1], m.players[0])
                };
                match (w, l) {
                    (Opponent::Player(w), Opponent::Player(l)) => Ok((m.with_winner(w), w, l)),
                    _ => Err(Error::UnknownPlayerWithReportedResults),
                }
            }
        },
    }
}

/// Match `m` where the report of `p` is cleared
pub open spec fn spec_clear_reported_result(m: Match, p: PlayerId) -> Match {
    if is_player(m.players[0], p) {
        Match { reported_results: [(0, 0), m.reported_results[1]], ..m }
    } else {
        Match { reported_results: [m.reported_results[0], (0, 0)], ..m }
    }
}

/// Fresh match with no winner, no disqualified player and no report
pub open spec fn fresh_match(id: Id, players: MatchPlayers, seeds: Seeds) -> Match {
    Match {
        id,
        players,
        seeds,
        winner: Opponent::Unknown,
        automatic_loser: Opponent::Unknown,
        reported_results: [(0, 0), (0, 0)],
    }
}

impl Match {
    /// Returns true if one of the player has id `player_id`
    #[must_use]
    pub fn contains(&self, player_id: PlayerId) -> (res: bool)
        ensures
            res == self.has_player(player_id),
    {
        self.players[0].is_player(player_id) || self.players[1].is_player(player_id)
    }

    /// Returns true if both opponents are known players
    #[must_use]
    pub fn both_opponents_are_present(&self) -> (res: bool)
        ensures
            res == self.both_present(),
    {
        !self.players[0].is_unknown() && !self.players[1].is_unknown()
    }

    /// Returns true if both players have reported a result (a cleared report
    /// reads 0-0)
    #[must_use]
    pub fn has_all_player_reports(&self) -> (res: bool)
        ensures
            res == self.spec_has_all_player_reports(),
    {
        !(self.reported_results[0].0 == 0 && self.reported_results[0].1 == 0) && !(
        self.reported_results[1].0 == 0 && self.reported_results[1].1 == 0)
    }

    /// Get id of match
    #[must_use]
    pub fn get_id(&self) -> (res: Id)
        ensures
            res == self.id,
    {
        self.id
    }

    /// Get automatic loser of match. Losers are always players
    #[must_use]
    pub fn get_automatic_loser(&self) -> (res: Opponent)
        ensures
            res == self.automatic_loser,
    {
        self.automatic_loser
    }

    /// Get players for this match
    #[must_use]
    pub fn get_players(&self) -> (res: MatchPlayers)
        ensures
            res == self.players,
    {
        self.players
    }

    /// Get seeds of (predicted) player
    #[must_use]
    pub fn get_seeds(&self) -> (res: Seeds)
        ensures
            res == self.seeds,
    {
        self.seeds
    }

    /// Get winner of match. Winners are players
    #[must_use]
    pub fn get_winner(&self) -> (res: Opponent)
        ensures
            res == self.winner,
    {
        self.winner
    }

    /// Returns true if the automatic loser of this match is given player
    #[must_use]
    pub fn is_automatic_loser_by_disqualification(&self, player_id: PlayerId) -> (res: bool)
        ensures
            res == is_player(self.automatic_loser, player_id),
    {
        self.automatic_loser.is_player(player_id)
    }

    /// Returns true if this match is where loser arrives
    #[must_use]
    pub fn is_first_loser_match(&self, expected_seed: usize) -> (res: bool)
        ensures
            res == (self.seeds[0] == expected_seed || self.seeds[1] == expected_seed),
    {
        self.seeds[0] == expected_seed || self.seeds[1] == expected_seed
    }

    /// Returns true if match is over
    #[must_use]
    pub fn is_over(&self) -> (res: bool)
        ensures
            res == self.spec_is_over(),
    {
        !self.players[0].is_unknown() && !self.players[1].is_unknown() && (
        !self.winner.is_unknown() || !self.automatic_loser.is_unknown())
    }

    /// Returns true if both opponents are present but a winner has yet to be
    /// declared. Returns false if it can be resolved automatically (because of
    /// a disqualification)
    #[must_use]
    pub fn needs_playing(&self) -> (res: bool)
        ensures
            res == self.spec_needs_playing(),
    {
        self.winner.is_unknown() && self.automatic_loser.is_unknown()
            && !self.players[0].is_unknown() && !self.players[1].is_unknown()
    }

    /// Returns true if participant of match is disqualified but winner is not
    /// declared
    #[must_use]
    pub fn needs_update_because_of_disqualified_participant(&self) -> (res: bool)
        ensures
            res == self.spec_needs_update_for_disqualification(),
    {
        self.winner.is_unknown() && !self.automatic_loser.is_unknown()
            && !self.players[0].is_unknown() && !self.players[1].is_unknown()
    }

    /// Create new match with two opponents
    ///
    /// # Errors
    /// Returns an error if both players are the same, or when no random
    /// identifier can be drawn
    pub fn new(players: [Opponent; 2], seeds: [usize; 2]) -> (res: Result<Match, Error>)
        ensures
            (players[0] is Player && players[0] == players[1]) <==> (res matches Err(e)
                && e is SamePlayer),
            res matches Err(e) ==> e is SamePlayer || e is NoRandomId,
            res matches Ok(m) ==> m == fresh_match(m.id, players, seeds),
    {
        match (players[0], players[1]) {
            (Opponent::Player(p1), Opponent::Player(p2)) => {
                if p1 == p2 {
                    return Err(Error::SamePlayer);
                }
            },
            _ => {},
        }
        let id = match new_random_id() {
            Ok(id) => id,
            Err(_) => return Err(Error::NoRandomId),
        };
        Ok(
            Self {
                id,
                players,
                winner: Opponent::Unknown,
                automatic_loser: Opponent::Unknown,
                seeds,
                reported_results: [(0, 0), (0, 0)],
            },
        )
    }

    /// Create new looser bracket match where opponents are unknown yet
    ///
    /// # Errors
    /// thrown when no random identifier can be drawn
    pub fn new_looser_bracket_match(seeds: [usize; 2]) -> (res: Result<Self, Error>)
        ensures
            res matches Err(e) ==> e is NoRandomId,
            res matches Ok(m) ==> m == fresh_match(m.id, [Opponent::Unknown, Opponent::Unknown], seeds),
    {
        let id = match new_random_id() {
            Ok(id) => id,
            Err(_) => return Err(Error::NoRandomId),
        };
        Ok(Match {
            id,
            players: [Opponent::Unknown, Opponent::Unknown],
            seeds,
            winner: Opponent::Unknown,
            automatic_loser: Opponent::Unknown,
            reported_results: [(0, 0), (0, 0)],
        })
    }

    /// Set looser of this match (when disqualified)
    ///
    /// # Errors
    /// thrown when looser is not a participant of the match
    pub fn set_automatic_loser(self, player_id: PlayerId) -> (res: Result<Self, Error>)
        ensures
            res is Ok <==> self.has_player(player_id),
            res matches Err(e) ==> e == Error::UnknownPlayer(player_id, self.players),
            res matches Ok(m) ==> m == (Match { automatic_loser: Opponent::Player(player_id), ..self }),
    {
        if !self.contains(player_id) {
            return Err(Error::UnknownPlayer(player_id, self.players));
        }
        Ok(Self { automatic_loser: Opponent::Player(player_id), ..self })
    }

    /// Set player of match
    ///
    /// Motivation for this function is to assert and fail rather than error
    /// out like in `insert_player`
    pub fn set_player(self, player_id: PlayerId, is_player_1: bool) -> (res: Self)
        requires
            !self.has_player(player_id),
        ensures
            res == self.with_players(
                if is_player_1 {
                    [Opponent::Player(player_id), self.players[1]]
                } else {
                    [self.players[0], Opponent::Player(player_id)]
                },
            ),
    {
        let player = Opponent::Player(player_id);
        let players = if is_player_1 {
            [player, self.players[1]]
        } else {
            [self.players[0], player]
        };
        Self { players, ..self }
    }

    /// Insert player in match and return updated match
    ///
    /// # Errors
    /// if another player already stands where `player_id` goes
    pub fn insert_player(self, player_id: PlayerId, is_player_1: bool) -> (res: Result<
        Match,
        Error,
    >)
        ensures
            res == spec_insert_player(self, player_id, is_player_1),
    {
        let slot = if is_player_1 {
            self.players[0]
        } else {
            self.players[1]
        };
        match slot {
            Opponent::Player(other_player) => {
                if other_player != player_id {
                    return Err(Error::AlreadyPresent(player_id, other_player));
                }
            },
            Opponent::Unknown => {},
        }
        let player = Opponent::Player(player_id);
        let players = if is_player_1 {
            [player, self.players[1]]
        } else {
            [self.players[0], player]
        };
        Ok(Match { players, ..self })
    }

    /// Returns true if the stronger seed won. Returns None if winner cannot be
    /// determined.
    #[must_use]
    pub fn stronger_seed_wins(&self) -> (res: Option<bool>)
        requires
            self.seeds[0] != self.seeds[1],
        ensures
            res == spec_stronger_seed_wins(*self),
    {
        let winner = match self.winner {
            Opponent::Player(w) => w,
            Opponent::Unknown => return None,
        };
        match (self.players[0], self.players[1]) {
            (Opponent::Player(p1), Opponent::Player(p2)) => {
                let top_seed_is_player_1 = self.seeds[0] < self.seeds[1];
                if p1 == winner {
                    Some(top_seed_is_player_1)
                } else if p2 == winner {
                    Some(!top_seed_is_player_1)
                } else {
                    None
                }
            },
            _ => None,
        }
    }

    /// Set match outcome using reported results. Returns updated match, winner
    /// id and looser id
    ///
    /// # Errors
    /// Returns an error if reported scores don't not agree on the winner
    pub fn update_outcome(self) -> (res: Result<(Match, PlayerId, PlayerId), Error>)
        ensures
            res == spec_update_outcome(self),
    {
        // if there is a disqualified player, try to set the winner
        if let Opponent::Player(dq_player) = self.automatic_loser {
            return match (self.players[0], self.players[1]) {
                (Opponent::Player(p1), Opponent::Player(p2)) => {
                    if p1 == dq_player {
                        Ok((Self { winner: Opponent::Player(p2), ..self }, p2, dq_player))
                    } else if p2 == dq_player {
                        Ok((Self { winner: Opponent::Player(p1), ..self }, p1, dq_player))
                    } else {
                        Err(Error::MissingOpponent(self.players))
                    }
                },
                _ => Err(Error::MissingOpponent(self.players)),
            };
        }
        let r1 = self.reported_results[0];
        let r2 = self.reported_results[1];
        if r1.1 != r2.0 || r1.0 != r2.1 || r1.0 == r1.1 {
            return Err(
                Error::PlayersReportedDifferentMatchOutcome(
                    self.id,
                    [ReportedResult(r1), ReportedResult(r2)],
                ),
            );
        }
        let (winner, loser) = if r1.0 > r1.1 {
            (self.players[0], self.players[1])
        } else {
            (self.players[1], self.players[0])
        };
        match (winner, loser) {
            (Opponent::Player(winner), Opponent::Player(loser)) => Ok(
                (Match { winner: Opponent::Player(winner), ..self }, winner, loser),
            ),
            _ => Err(Error::UnknownPlayerWithReportedResults),
        }
    }

    /// Update match result and return updated match
    ///
    /// # Errors
    /// Thrown when an opponent is missing or referred player is not in the
    /// match
    pub fn update_reported_result(self, player_id: PlayerId, result: ReportedResult) -> (res:
        Result<Match, Error>)
        ensures
            res == spec_update_reported_result(self, player_id, result),
    {
        match (self.players[0], self.players[1]) {
            (Opponent::Player(player1), Opponent::Player(player2)) => {
                if player1 == player_id {
                    Ok(Match { reported_results: [result.0, self.reported_results[1]], ..self })
                } else if player2 == player_id {
                    Ok(Match { reported_results: [self.reported_results[0], result.0], ..self })
                } else {
                    Err(Error::UnknownPlayer(player_id, self.players))
                }
            },
            _ => Err(Error::MissingOpponent(self.players)),
        }
    }

    /// Clear result from match and returns updated match
    #[must_use]
    pub fn clear_reported_result(self, player_id: PlayerId) -> (res: Self)
        requires
            self.has_player(player_id),
        ensures
            res == spec_clear_reported_result(self, player_id),
    {
        if self.players[0].is_player(player_id) {
            Self { reported_results: [(0, 0), self.reported_results[1]], ..self }
        } else {
            Self { reported_results: [self.reported_results[0], (0, 0)], ..self }
        }
    }

    /// Returns other player of this match
    ///
    /// # Errors
    /// thrown when there is no other player or player is not in the match
    pub fn get_other_player(&self, player_id: PlayerId) -> (res: Result<PlayerId, Error>)
        ensures
            res == (match (self.players[0], self.players[1]) {
                (Opponent::Player(p1), Opponent::Player(p2)) => if p1 == player_id {
                    Ok::<PlayerId, Error>(p2)
                } else if p2 == player_id {
                    Ok(p1)
                } else {
                    Err(Error::NoOpponent(self.players))
                },
                _ => Err(Error::NoOpponent(self.players)),
            }),
    {
        match (self.players[0], self.players[1]) {
            (Opponent::Player(p1), Opponent::Player(p2)) => {
                if p1 == player_id {
                    Ok(p2)
                } else if p2 == player_id {
                    Ok(p1)
                } else {
                    Err(Error::NoOpponent(self.players))
                }
            },
            _ => Err(Error::NoOpponent(self.players)),
        }
    }

    /// Get score of match. Defaults to 0-0 if winner is not declared (or if
    /// the reports of the players do not agree)
    #[must_use]
    pub fn get_score(&self) -> (res: (i8, i8))
        ensures
            res == (if self.winner is Player && self.reported_results[0].0
                == self.reported_results[1].1 && self.reported_results[0].1
                == self.reported_results[1].0 {
                self.reported_results[0]
            } else {
                (0i8, 0i8)
            }),
    {
        if let Opponent::Unknown = self.winner {
            return (0, 0);
        }
        let r1 = self.reported_results[0];
        let r2 = self.reported_results[1];
        if r1.0 == r2.1 && r1.1 == r2.0 {
            r1
        } else {
            (0, 0)
        }
    }
}

/// Result of inserting `p` as player 1 (or 2) of `m`: refused when another
/// player already stands there
pub open spec fn spec_insert_player(m: Match, p: PlayerId, is_player_1: bool) -> Result<
    Match,
    Error,
> {
    let slot = if is_player_1 {
        m.players[0]
    } else {
        m.players[1]
    };
    match slot {
        Opponent::Player(other) if other != p => Err(Error::AlreadyPresent(p, other)),
        _ => Ok(
            m.with_players(
                if is_player_1 {
                    [Opponent::Player(p), m.players[1]]
                } else {
                    [m.players[0], Opponent::Player(p)]
                },
            ),
        ),
    }
}

/// Whether the stronger seed (smaller number) won; `None` when there is no
/// winner among two known players
pub open spec fn spec_stronger_seed_wins(m: Match) -> Option<bool> {
    match (m.winner, m.players[0], m.players[1]) {
        (Opponent::Player(w), Opponent::Player(p1), Opponent::Player(p2)) => if p1 == w {
            Some(m.seeds[0] < m.seeds[1])
        } else if p2 == w {
            Some(!(m.seeds[0] < m.seeds[1]))
        } else {
            None
        },
        _ => None,
    }
}

/// Result of player `p` reporting `result` in match `m`
pub open spec fn spec_update_reported_result(m: Match, p: PlayerId, result: ReportedResult) -> Result<
    Match,
    Error,
> {
    match (m.players[0], m.players[1]) {
        (Opponent::Player(p1), Opponent::Player(p2)) => if p1 == p {
            Ok(Match { reported_results: [result.0, m.reported_results[1]], ..m })
        } else if p2 == p {
            Ok(Match { reported_results: [m.reported_results[0], result.0], ..m })
        } else {
            Err(Error::UnknownPlayer(p, m.players))
        },
        _ => Err(Error::MissingOpponent(m.players)),
    }
}

} // verus!
