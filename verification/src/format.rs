//! Bracket format

use crate::matches::{Id as MatchId, Match};
use crate::opponent::Opponent;
use crate::player::PlayerID;
use crate::seeding::double_elimination_seeded_bracket::{
    lemma_loser_bracket_match_count, loser_bracket_layout, loser_bracket_shapes,
};
use crate::seeding::single_elimination_seeded_bracket::{
    fresh_matches_with_shapes, layout_match, lemma_fresh_matches_concat,
    lemma_single_elimination_match_count, next_power_of_two, single_elimination_layout,
    single_elimination_shapes, MatchShape,
};
use crate::seeding::Error as SeedingError;
use vstd::prelude::*;
use vstd::string::*;

verus! {

/// All supported formats
#[derive(PartialEq, Eq, Structural, Copy, Clone, Debug)]
pub enum Format {
    /// Single elimination tournament
    SingleEliminationBracket,
    /// Double elimination tournament
    DoubleEliminationBracket,
}

/// Error while parsing Format
#[derive(Debug)]
pub enum ParsingError {
    /// Unknown format was found
    Unknown(String),
}

/// Text form of a format
pub open spec fn format_text(f: Format) -> Seq<char> {
    match f {
        Format::SingleEliminationBracket => seq![
            's', 'i', 'n', 'g', 'l', 'e', '-', 'e', 'l', 'i', 'm', 'i', 'n', 'a', 't', 'i', 'o', 'n',
        ],
        Format::DoubleEliminationBracket => seq![
            'd', 'o', 'u', 'b', 'l', 'e', '-', 'e', 'l', 'i', 'm', 'i', 'n', 'a', 't', 'i', 'o', 'n',
        ],
    }
}

/// Matches of a double elimination bracket: winner bracket, loser bracket,
/// grand finals and grand finals reset
pub open spec fn double_elimination_shapes(seeding: Seq<PlayerID>) -> Seq<MatchShape> {
    single_elimination_shapes(seeding) + loser_bracket_shapes(seeding.len() as int) + seq![
        ([Opponent::Unknown, Opponent::Unknown], [1usize, 2usize]),
        ([Opponent::Unknown, Opponent::Unknown], [1usize, 2usize]),
    ]
}

/// Matches of a bracket of format `f` for `seeding`
pub open spec fn format_shapes(f: Format, seeding: Seq<PlayerID>) -> Seq<MatchShape> {
    match f {
        Format::SingleEliminationBracket => single_elimination_shapes(seeding),
        Format::DoubleEliminationBracket => double_elimination_shapes(seeding),
    }
}

/// A double elimination bracket of `n` players has `2n - 1` matches: `n - 1`
/// in the winner bracket, `n - 2` in the loser bracket, grand finals and its
/// reset
pub proof fn lemma_double_elimination_match_count(seeding: Seq<PlayerID>)
    requires
        seeding.len() >= 3,
    ensures
        double_elimination_shapes(seeding).len() == 2 * seeding.len() - 1,
{
    lemma_single_elimination_match_count(seeding);
    lemma_loser_bracket_match_count(seeding.len() as int);
}

/// `a` and `b` hold the same text
pub(crate) fn same_text(a: &str, b: &str) -> (res: bool)
    ensures
        res == (a@ == b@),
{
    let n = a.unicode_len();
    if n != b.unicode_len() {
        return false;
    }
    let mut i: usize = 0;
    while i < n
        invariant
            n == a@.len(),
            n == b@.len(),
            i <= n,
            forall|k: int| 0 <= k < i ==> a@[k] == b@[k],
        decreases n - i,
    {
        if a.get_char(i) != b.get_char(i) {
            return false;
        }
        i += 1;
    }
    assert(a@ =~= b@);
    true
}

/// Matches of a double elimination bracket for `seeding`, all with
/// identifier 0: winner bracket, loser bracket, grand finals and its reset
fn double_elimination_layout(seeding: &[PlayerID]) -> (matches: Vec<Match>)
    requires
        crate::player::no_duplicates(seeding@),
        seeding@.len() >= 3,
        next_power_of_two(seeding@.len()) <= usize::MAX,
    ensures
        fresh_matches_with_shapes(matches@, double_elimination_shapes(seeding@)),
{
    let mut matches = single_elimination_layout(seeding);
    let mut looser_bracket_matches = loser_bracket_layout(seeding.len());
    let ghost wb = matches@;
    let ghost lb = looser_bracket_matches@;
    matches.append(&mut looser_bracket_matches);
    let grand_finals = layout_match([Opponent::Unknown, Opponent::Unknown], [1, 2]);
    matches.push(grand_finals);
    let grand_finals_reset = layout_match([Opponent::Unknown, Opponent::Unknown], [1, 2]);
    matches.push(grand_finals_reset);
    proof {
        let ends = seq![
            ([Opponent::Unknown, Opponent::Unknown], [1usize, 2usize]),
            ([Opponent::Unknown, Opponent::Unknown], [1usize, 2usize]),
        ];
        let s = seeding@;
        lemma_fresh_matches_concat(
            wb,
            single_elimination_shapes(s),
            lb,
            loser_bracket_shapes(s.len() as int),
        );
        assert(fresh_matches_with_shapes(seq![grand_finals, grand_finals_reset], ends));
        lemma_fresh_matches_concat(
            wb + lb,
            single_elimination_shapes(s) + loser_bracket_shapes(s.len() as int),
            seq![grand_finals, grand_finals_reset],
            ends,
        );
        assert(matches@ =~= wb + lb + seq![grand_finals, grand_finals_reset]);
    }
    matches
}

impl Format {
    /// Matches for `seeding` with the identifiers `ids`, one per match in
    /// order; nothing when an identifier comes twice
    pub fn matches_with_ids(self, seeding: &[PlayerID], ids: &[MatchId]) -> (res: Option<Vec<Match>>)
        requires
            crate::player::no_duplicates(seeding@),
            next_power_of_two(seeding@.len()) <= usize::MAX,
            self is DoubleEliminationBracket ==> seeding@.len() >= 3,
            ids@.len() == format_shapes(self, seeding@).len(),
        ensures
            res is Some <==> crate::player::no_duplicates(ids@),
            res matches Some(v) ==> v@.len() == ids@.len() && forall|i: int|
                0 <= i < v@.len() ==> #[trigger] v@[i] == crate::matches::fresh_match(
                    ids@[i],
                    format_shapes(self, seeding@)[i].0,
                    format_shapes(self, seeding@)[i].1,
                ),
    {
        match self {
            Format::SingleEliminationBracket => {
                crate::seeding::single_elimination_seeded_bracket::matches_with_ids(seeding, ids)
            },
            Format::DoubleEliminationBracket => {
                let layout = double_elimination_layout(seeding);
                let res = crate::bracket::matches::assign_ids(layout, ids);
                proof {
                    if let Some(v) = &res {
                        let sh = format_shapes(self, seeding@);
                        assert forall|i: int| 0 <= i < v@.len() implies #[trigger] v@[i]
                            == crate::matches::fresh_match(ids@[i], sh[i].0, sh[i].1) by {
                            assert(layout@[i] == crate::matches::fresh_match(
                                layout@[i].id,
                                sh[i].0,
                                sh[i].1,
                            ));
                        }
                    }
                }
                res
            },
        }
    }

    /// Returns matches for `seeding`, round by round: for double elimination,
    /// winner bracket, loser bracket, grand finals and its reset
    ///
    /// # Errors
    /// thrown when math overflow happens, or when no fresh random identifier
    /// can be drawn for a match (identifiers of the matches are distinct)
    pub fn generate_matches(self, seeding: &[PlayerID]) -> (res: Result<Vec<Match>, SeedingError>)
        requires
            crate::player::no_duplicates(seeding@),
            self is DoubleEliminationBracket ==> seeding@.len() >= 3,
        ensures
            next_power_of_two(seeding@.len()) > usize::MAX <==> (res matches Err(e)
                && e is MathOverflow),
            res matches Err(e) ==> e is MathOverflow || e is NoRandomId,
            res matches Ok(v) ==> fresh_matches_with_shapes(v@, format_shapes(self, seeding@))
                && crate::bracket::matches::distinct_ids(v@),
            self is SingleEliminationBracket && seeding@.len() <= 1 ==> (res matches Ok(v)
                && v@.len() == 0),
    {
        let n = seeding.len();
        if !crate::seeding::single_elimination_seeded_bracket::power_of_two_fits(n) {
            return Err(SeedingError::MathOverflow);
        }
        let drawn = match self {
            Format::SingleEliminationBracket => {
                proof {
                    if n >= 1 {
                        lemma_single_elimination_match_count(seeding@);
                    } else {
                        assert(next_power_of_two(0) == 1);
                        assert(single_elimination_shapes(seeding@) =~= Seq::<MatchShape>::empty());
                    }
                }
                crate::ids::new_random_ids(
                    if n == 0 {
                        0
                    } else {
                        n - 1
                    },
                )
            },
            Format::DoubleEliminationBracket => {
                proof {
                    lemma_double_elimination_match_count(seeding@);
                }
                match (
                    crate::ids::new_random_ids(n - 1),
                    crate::ids::new_random_ids(n - 2),
                    crate::ids::new_random_ids(2),
                ) {
                    (Some(mut a), Some(mut b), Some(mut c)) => {
                        a.append(&mut b);
                        a.append(&mut c);
                        Some(a)
                    },
                    _ => None,
                }
            },
        };
        let ids = match drawn {
            Some(ids) => ids,
            None => return Err(SeedingError::NoRandomId),
        };
        match self.matches_with_ids(seeding, ids.as_slice()) {
            Some(v) => {
                proof {
                    let sh = format_shapes(self, seeding@);
                    assert forall|i: int| 0 <= i < v@.len() implies #[trigger] v@[i]
                        == crate::matches::fresh_match(v@[i].id, sh[i].0, sh[i].1) by {
                        assert(v@[i] == crate::matches::fresh_match(ids@[i], sh[i].0, sh[i].1));
                    }
                    assert forall|x: int, y: int| 0 <= x < y < v@.len() implies (
                    #[trigger] v@[x]).id != (#[trigger] v@[y]).id by {
                        assert(v@[x] == crate::matches::fresh_match(ids@[x], sh[x].0, sh[x].1));
                        assert(v@[y] == crate::matches::fresh_match(ids@[y], sh[y].0, sh[y].1));
                    }
                }
                Ok(v)
            },
            None => Err(SeedingError::NoRandomId),
        }
    }

    /// Text form of format
    pub fn to_string(&self) -> (res: String)
        ensures
            res@ == format_text(*self),
    {
        match self {
            Format::SingleEliminationBracket => {
                let s = String::from_str("single-elimination");
                proof {
                    reveal_strlit("single-elimination");
                }
                s
            },
            Format::DoubleEliminationBracket => {
                let s = String::from_str("double-elimination");
                proof {
                    reveal_strlit("double-elimination");
                }
                s
            },
        }
    }

    /// Parse format from its text form
    ///
    /// # Errors
    /// thrown when the text names no known format
    pub fn parse(s: &str) -> (res: Result<Format, ParsingError>)
        ensures
            s@ == format_text(Format::SingleEliminationBracket) ==> res
                == Ok::<Format, ParsingError>(Format::SingleEliminationBracket),
            s@ == format_text(Format::DoubleEliminationBracket) ==> res
                == Ok::<Format, ParsingError>(Format::DoubleEliminationBracket),
            s@ != format_text(Format::SingleEliminationBracket) && s@ != format_text(
                Format::DoubleEliminationBracket,
            ) ==> (res matches Err(ParsingError::Unknown(t)) && t@ == s@),
    {
        proof {
            reveal_strlit("single-elimination");
            reveal_strlit("double-elimination");
            assert("single-elimination"@ =~= format_text(Format::SingleEliminationBracket));
            assert("double-elimination"@ =~= format_text(Format::DoubleEliminationBracket));
        }
        if same_text(s, "single-elimination") {
            Ok(Format::SingleEliminationBracket)
        } else if same_text(s, "double-elimination") {
            Ok(Format::DoubleEliminationBracket)
        } else {
            Err(ParsingError::Unknown(s.to_string()))
        }
    }
}

impl Default for Format {
    fn default() -> (res: Self)
        ensures
            res == Format::DoubleEliminationBracket,
    {
        Self::DoubleEliminationBracket
    }
}

impl std::str::FromStr for Format {
    type Err = ParsingError;

    fn from_str(s: &str) -> (res: Result<Self, Self::Err>)
        ensures
            s@ == format_text(Format::SingleEliminationBracket) ==> res
                == Ok::<Format, ParsingError>(Format::SingleEliminationBracket),
            s@ == format_text(Format::DoubleEliminationBracket) ==> res
                == Ok::<Format, ParsingError>(Format::DoubleEliminationBracket),
            s@ != format_text(Format::SingleEliminationBracket) && s@ != format_text(
                Format::DoubleEliminationBracket,
            ) ==> (res matches Err(ParsingError::Unknown(t)) && t@ == s@),
    {
        Format::parse(s)
    }
}

} // verus!
