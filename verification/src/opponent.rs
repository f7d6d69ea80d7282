//! Opponent

use crate::ids::{id_to_string, parse_id};
use crate::player::Id as PlayerId;
use vstd::prelude::*;
use vstd::string::*;

verus! {

/// Opponent in a match
#[derive(Debug, PartialEq, Eq, Structural, Clone, Copy, Default)]
pub enum Opponent {
    /// Any player is uniquely referred by its ID
    Player(PlayerId),
    /// Opponent has not been decided yet
    #[default]
    Unknown,
}

/// Error while parsing Opponent
#[derive(Debug)]
pub enum ParsingOpponentError {
    /// Could not parse opponent player ID
    Id(crate::ids::UuidError),
}

/// Text form of an opponent: `?` when unknown, the identifier otherwise
pub open spec fn opponent_text(o: Opponent) -> Seq<char> {
    match o {
        Opponent::Player(p) => crate::ids::id_text(p),
        Opponent::Unknown => seq!['?'],
    }
}

/// Opponent read from text `s`: `?` is unknown, anything else must be an
/// identifier
pub open spec fn spec_parse_opponent(s: Seq<char>) -> Option<Opponent> {
    if s == seq!['?'] {
        Some(Opponent::Unknown)
    } else {
        match crate::ids::parsed_id(s) {
            Some(p) => Some(Opponent::Player(p)),
            None => None,
        }
    }
}

impl Opponent {
    /// Returns true when opponent is not known yet
    pub fn is_unknown(&self) -> (res: bool)
        ensures
            res == (*self == Opponent::Unknown),
    {
        match self {
            Opponent::Unknown => true,
            Opponent::Player(_) => false,
        }
    }

    /// Returns true when opponent is player `player_id`
    pub fn is_player(&self, player_id: PlayerId) -> (res: bool)
        ensures
            res == (*self == Opponent::Player(player_id)),
    {
        match self {
            Opponent::Player(p) => *p == player_id,
            Opponent::Unknown => false,
        }
    }

    /// Text form of opponent: `?` when unknown, the player identifier
    /// otherwise
    pub fn to_string(&self) -> (s: String)
        ensures
            s@ == opponent_text(*self),
    {
        match self {
            Opponent::Player(p) => id_to_string(*p),
            Opponent::Unknown => {
                let s = String::from_str("?");
                proof {
                    reveal_strlit("?");
                }
                s
            },
        }
    }

    /// Parse opponent from its text form
    ///
    /// # Errors
    /// thrown when text is neither `?` nor a player identifier
    pub fn parse(s: &str) -> (res: Result<Opponent, ParsingOpponentError>)
        ensures
            res is Ok <==> spec_parse_opponent(s@) is Some,
            res matches Ok(o) ==> spec_parse_opponent(s@) == Some(o),
            forall|o: Opponent| s@ == opponent_text(o) ==> (res is Ok && res->Ok_0 == o),
    {
        if s.unicode_len() == 1 && s.get_char(0) == '?' {
            assert(s@ =~= seq!['?']);
            return Ok(Opponent::Unknown);
        }
        assert(s@ != seq!['?']);
        assert forall|o: Opponent| s@ == opponent_text(o) implies o is Player by {
            if o is Unknown {
                assert(opponent_text(o) =~= seq!['?']);
            }
        }
        match parse_id(s) {
            Ok(p) => Ok(Opponent::Player(p)),
            Err(e) => Err(ParsingOpponentError::Id(e)),
        }
    }
}

impl std::str::FromStr for Opponent {
    type Err = ParsingOpponentError;

    fn from_str(s: &str) -> (res: Result<Self, Self::Err>)
        ensures
            res is Ok <==> spec_parse_opponent(s@) is Some,
            res matches Ok(o) ==> spec_parse_opponent(s@) == Some(o),
            forall|o: Opponent| s@ == opponent_text(o) ==> (res is Ok && res->Ok_0 == o),
    {
        Opponent::parse(s)
    }
}

} // verus!
