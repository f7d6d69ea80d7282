//! Match result

use crate::matches::text::{digit_text, nat_text};
use vstd::prelude::*;
use vstd::string::*;

verus! {

/// Score of match. Might be intermediate result (like 0-0, or 0-1 in first to 2
/// match format)
#[derive(Debug, Copy, Clone, Eq, PartialEq, Structural)]
pub struct Score(pub u8, pub u8);

/// Match formats: first to `n` wins
#[derive(Debug, Clone, Copy, Eq, PartialEq, Structural)]
pub struct MatchFormat(pub(crate) u8);

/// Match result
#[derive(Debug)]
pub struct MatchResult(pub(crate) Score, pub(crate) MatchFormat);

/// Match format creation error
#[derive(Debug)]
pub enum MatchFormatError {
    /// Invalid match format
    Invalid(u8),
}

/// Creating result
#[derive(Debug)]
pub enum Error {
    /// Match result is invalid
    Invalid(Score),
}

impl Default for MatchFormat {
    fn default() -> (res: Self)
        ensures
            res.first_to() == 2,
    {
        Self(2)
    }
}

impl MatchFormat {
    /// Number of rounds a player needs to win the match
    pub closed spec fn first_to(self) -> u8 {
        self.0
    }

    /// A match format is fixed by the number of rounds a player needs to win
    pub proof fn lemma_first_to_fixes_format(a: MatchFormat, b: MatchFormat)
        ensures
            a.first_to() == b.first_to() <==> a == b,
    {
    }

    /// First to two
    ///
    /// Commonly seen in large double-elimination bracket because of bracket schedule
    pub fn ft2() -> (res: Self)
        ensures
            res.first_to() == 2,
    {
        Self(2)
    }

    /// First to three
    ///
    /// Commonly seen in large in double-elimination bracket for
    /// * top8/top6 in large tournament
    /// * top3/4 in small online brackets (10-20 players)
    /// * default format for kusoges and extremely fast-pace game (example: DBFZ, BBTAG, GGST)
    pub fn ft3() -> (res: Self)
        ensures
            res.first_to() == 3,
    {
        Self(3)
    }

    /// New match format (you should use `ft2()` and `ft3()`)
    ///
    /// # Errors
    /// thrown when `first_to_n` is 0
    pub fn new(first_to_n: u8) -> (res: Result<Self, MatchFormatError>)
        ensures
            res is Err <==> first_to_n == 0,
            res matches Err(e) ==> e == MatchFormatError::Invalid(first_to_n),
            res matches Ok(f) ==> f.first_to() == first_to_n,
    {
        if first_to_n == 0 {
            Err(MatchFormatError::Invalid(first_to_n))
        } else {
            Ok(Self(first_to_n))
        }
    }

    /// Text form of format: `FT` followed by the number of rounds a player
    /// needs to win (`FT2`, `FT3`...)
    pub fn to_string(&self) -> (res: String)
        ensures
            res@ == seq!['F', 'T'] + nat_text(self.first_to() as nat),
    {
        let n = self.0;
        let ft = "FT";
        proof {
            reveal_strlit("FT");
            reveal_with_fuel(nat_text, 3);
        }
        let mut s = String::from_str(ft);
        if n >= 100 {
            s = s.concat(digit_text(n / 100));
        }
        if n >= 10 {
            s = s.concat(digit_text((n / 10) % 10));
        }
        s = s.concat(digit_text(n % 10));
        proof {
            let d0 = ((n % 10 + 48) as u8) as char;
            let d1 = (((n / 10) % 10 + 48) as u8) as char;
            let d2 = ((n / 100 + 48) as u8) as char;
            if n < 10 {
                assert(nat_text(n as nat) =~= seq![d0]);
            } else if n < 100 {
                assert(nat_text((n / 10) as nat) =~= seq![d1]);
                assert(nat_text(n as nat) =~= seq![d1, d0]);
            } else {
                assert(nat_text((n / 100) as nat) =~= seq![d2]);
                assert(nat_text((n / 10) as nat) =~= seq![d2, d1]);
                assert(nat_text(n as nat) =~= seq![d2, d1, d0]);
            }
        }
        s
    }

    /// Number of rounds a player needs to win the match
    pub fn get_first_to(&self) -> (res: u8)
        ensures
            res == self.first_to(),
    {
        self.0
    }
}

/// A score is possible in a first-to-`n` match: no score goes beyond `n`
/// and both players cannot reach `n`
pub open spec fn valid_score(score: Score, n: u8) -> bool {
    score.0 <= n && score.1 <= n && !(score.0 == n && score.1 == n)
}

impl MatchResult {
    /// Scores never exceed the format and both players cannot win
    #[verifier::type_invariant]
    spec fn inv(self) -> bool {
        valid_score(self.0, self.1.0)
    }

    /// Score of result
    pub closed spec fn score(self) -> Score {
        self.0
    }

    /// Format of result
    pub closed spec fn format(self) -> MatchFormat {
        self.1
    }

    /// New match result
    ///
    /// # Errors
    /// thrown when score is impossible in this format
    pub fn new(score: Score, format: MatchFormat) -> (res: Result<Self, Error>)
        ensures
            res is Ok <==> valid_score(score, format.first_to()),
            res matches Err(e) ==> e == Error::Invalid(score),
            res matches Ok(r) ==> r.score() == score && r.format() == format,
    {
        if format.0 < score.0 || format.0 < score.1 || (format.0 == score.0 && score.0
            == score.1) {
            Err(Error::Invalid(score))
        } else {
            Ok(Self(score, format))
        }
    }

    /// Returns true if match is finished
    pub fn finished(&self) -> (res: bool)
        ensures
            valid_score(self.score(), self.format().first_to()),
            res == (self.score().0 == self.format().first_to() || self.score().1
                == self.format().first_to()),
    {
        proof {
            use_type_invariant(self);
        }
        let first_to_n = self.1.0;
        let player_with_expected_high_seed_score = self.0.0;
        let player_with_expected_low_seed_score = self.0.1;
        player_with_expected_high_seed_score == first_to_n || player_with_expected_low_seed_score
            == first_to_n
    }
}

} // verus!
