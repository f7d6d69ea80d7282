//! Seed brackets with seeding methods

pub mod double_elimination_seeded_bracket;
pub mod single_elimination_seeded_bracket;

use crate::player::{ids_of, no_duplicates, Error as PlayerError, Participants, Player};
pub use rand::Error as RandError;
use crate::ids::fill_random_bytes;
use rand::seq::SliceRandom;
use rand::SeedableRng;
use vstd::prelude::*;
use vstd::string::*;

verus! {

/// Error of the operating system random number generator
#[verifier::external_type_specification]
#[verifier::external_body]
pub struct ExRandError(RandError);

/// Seeding method
#[derive(Copy, Debug, Eq, PartialEq, Structural, Clone)]
pub enum Method {
    /// Randomize who plays against who
    Random,
    /// Sort players by perceived strength to avoid pitting them against each
    /// other early in the bracket
    Strict,
}

/// Seeding method parsing error
#[derive(Debug, PartialEq, Eq, Structural)]
pub enum ParsingError {
    /// Unknown seeding method was found
    Unknown,
}

/// Seeding cannot proceed
#[derive(Debug)]
pub enum Error {
    /// You cannot seed a bracket with less than 3 players
    NotEnoughPlayers,
    /// The os generator failed while generating a random number
    Rng(RandError),
    /// Shuffle could not yield players
    Shuffle(PlayerError),
    /// Mathematical overflow
    MathOverflow,
    /// No fresh random identifier could be drawn for a new match: the
    /// generator failed, or two drawn identifiers coincide
    NoRandomId,
    /// Seeding needs to use the same participants
    DifferentParticipants(Participants, Participants),
}

/// Text form of a seeding method
pub open spec fn method_text(m: Method) -> Seq<char> {
    match m {
        Method::Random => seq!['r', 'a', 'n', 'd', 'o', 'm'],
        Method::Strict => seq!['s', 't', 'r', 'i', 'c', 't'],
    }
}

/// `perm` maps positions of a sequence of length `n` one to one onto
/// positions of the same sequence
pub open spec fn is_permutation(perm: Seq<int>, n: int) -> bool {
    &&& perm.len() == n
    &&& forall|i: int| 0 <= i < n ==> 0 <= #[trigger] perm[i] < n
    &&& forall|i: int, j: int| 0 <= i < j < n ==> perm[i] != perm[j]
}

/// `b` holds the elements of `a` in some order
pub open spec fn is_reordering<A>(a: Seq<A>, b: Seq<A>) -> bool {
    exists|perm: Seq<int>|
        is_permutation(perm, a.len() as int) && b.len() == a.len() && forall|i: int|
            0 <= i < b.len() ==> #[trigger] b[i] == a[perm[i]]
}

/// Shuffles `players` in place through `rand::seq::SliceRandom::shuffle`,
/// with the generator `rand::rngs::StdRng` seeded from `key`
/// (`SeedableRng::from_seed`, which cannot fail). The shuffle only swaps
/// elements: the result holds the same players. Their order is not stated:
/// `rand` documents the generator as not reproducible across versions.
#[verifier::external_body]
fn shuffle_players(players: &mut Vec<Player>, key: [u8; 32])
    ensures
        is_reordering(old(players)@, final(players)@),
{
    players.shuffle(&mut rand::rngs::StdRng::from_seed(key));
}

/// Reordering players keeps identifiers distinct
pub proof fn lemma_reordering_no_duplicates(a: Seq<Player>, b: Seq<Player>)
    requires
        is_reordering(a, b),
    ensures
        no_duplicates(ids_of(a)) <==> no_duplicates(ids_of(b)),
{
    let perm = choose|perm: Seq<int>|
        is_permutation(perm, a.len() as int) && b.len() == a.len() && forall|i: int|
            0 <= i < b.len() ==> #[trigger] b[i] == a[perm[i]];
    let n = a.len() as int;
    if no_duplicates(ids_of(a)) {
        assert forall|i: int, j: int| 0 <= i < j < ids_of(b).len() implies ids_of(b)[i] != ids_of(
            b,
        )[j] by {
            assert(b[i] == a[perm[i]]);
            assert(b[j] == a[perm[j]]);
            if perm[i] < perm[j] {
                assert(ids_of(a)[perm[i]] != ids_of(a)[perm[j]]);
            } else {
                assert(ids_of(a)[perm[j]] != ids_of(a)[perm[i]]);
            }
        }
    }
    if no_duplicates(ids_of(b)) {
        // every position of `a` is reached by the permutation
        lemma_permutation_onto(perm, n);
        assert forall|x: int, y: int| 0 <= x < y < ids_of(a).len() implies ids_of(a)[x] != ids_of(
            a,
        )[y] by {
            assert(reached(perm, n, x));
            assert(reached(perm, n, y));
            let i = choose|i: int| 0 <= i < n && perm[i] == x;
            let j = choose|j: int| 0 <= j < n && perm[j] == y;
            assert(b[i] == a[x]);
            assert(b[j] == a[y]);
            if i < j {
                assert(ids_of(b)[i] != ids_of(b)[j]);
            } else {
                assert(ids_of(b)[j] != ids_of(b)[i]);
            }
        }
    }
}

/// Some position is mapped to `x`
pub open spec fn reached(perm: Seq<int>, n: int, x: int) -> bool {
    exists|i: int| 0 <= i < n && perm[i] == x
}

/// A one to one map from positions to positions reaches every position
proof fn lemma_permutation_onto(perm: Seq<int>, n: int)
    requires
        is_permutation(perm, n),
    ensures
        forall|x: int| 0 <= x < n ==> #[trigger] reached(perm, n, x),
{
    let s = Set::new(|x: int| 0 <= x < n);
    let img = Set::new(|x: int| exists|i: int| 0 <= i < n && perm[i] == x);
    assert(perm.to_set() =~= img) by {
        assert forall|x: int| perm.to_set().contains(x) implies img.contains(x) by {
            let i = choose|i: int| 0 <= i < perm.len() && perm[i] == x;
        }
        assert forall|x: int| img.contains(x) implies perm.to_set().contains(x) by {
            let i = choose|i: int| 0 <= i < n && perm[i] == x;
            assert(perm.contains(x));
        }
    }
    assert(perm.no_duplicates()) by {
        assert forall|i: int, j: int| 0 <= i < perm.len() && 0 <= j < perm.len() && i != j implies perm[i]
            != perm[j] by {
            if i < j {
            } else {
            }
        }
    }
    perm.unique_seq_to_set();
    assert(img.subset_of(s));
    vstd::set_lib::lemma_int_range(0, n);
    assert(s =~= vstd::set_lib::set_int_range(0, n));
    vstd::set_lib::lemma_subset_equality(img, s);
    assert forall|x: int| 0 <= x < n implies #[trigger] reached(perm, n, x) by {
        assert(s.contains(x));
    }
}

impl Method {
    /// Text form of seeding method
    pub fn to_string(&self) -> (res: String)
        ensures
            res@ == method_text(*self),
    {
        match self {
            Method::Random => {
                let s = String::from_str("random");
                proof {
                    reveal_strlit("random");
                }
                s
            },
            Method::Strict => {
                let s = String::from_str("strict");
                proof {
                    reveal_strlit("strict");
                }
                s
            },
        }
    }

    /// Parse seeding method from its text form
    ///
    /// # Errors
    /// thrown when the text names no known method
    pub fn parse(s: &str) -> (res: Result<Method, ParsingError>)
        ensures
            s@ == method_text(Method::Random) ==> res == Ok::<Method, ParsingError>(Method::Random),
            s@ == method_text(Method::Strict) ==> res == Ok::<Method, ParsingError>(Method::Strict),
            s@ != method_text(Method::Random) && s@ != method_text(Method::Strict) ==> res
                == Err::<Method, ParsingError>(ParsingError::Unknown),
    {
        proof {
            reveal_strlit("random");
            reveal_strlit("strict");
            assert("random"@ =~= method_text(Method::Random));
            assert("strict"@ =~= method_text(Method::Strict));
        }
        if crate::format::same_text(s, "random") {
            Ok(Method::Random)
        } else if crate::format::same_text(s, "strict") {
            Ok(Method::Strict)
        } else {
            Err(ParsingError::Unknown)
        }
    }
}

impl Default for Method {
    fn default() -> (res: Self)
        ensures
            res == Method::Strict,
    {
        Self::Strict
    }
}

impl std::str::FromStr for Method {
    type Err = ParsingError;

    fn from_str(s: &str) -> (res: Result<Self, Self::Err>)
        ensures
            s@ == method_text(Method::Random) ==> res == Ok::<Method, ParsingError>(Method::Random),
            s@ == method_text(Method::Strict) ==> res == Ok::<Method, ParsingError>(Method::Strict),
            s@ != method_text(Method::Random) && s@ != method_text(Method::Strict) ==> res
                == Err::<Method, ParsingError>(ParsingError::Unknown),
    {
        Method::parse(s)
    }
}

/// Returns updated participants after changing seeding position
///
/// With `Strict` method, `seeding` is expected to hold the participants,
/// ranked from strongest to weakest. With `Random` method, participants are
/// shuffled.
///
/// # Errors
/// Returns an error when there are less than 3 participants, the random
/// number generator is unavailable, participants have the same identifier
/// twice or the strict seeding does not hold the same participants
pub fn seed(method: &Method, seeding: Participants, participants: Participants) -> (res: Result<
    Participants,
    Error,
>)
    ensures
        participants@.len() < 3 ==> (res matches Err(e) && e is NotEnoughPlayers),
        participants@.len() >= 3 && *method == Method::Strict ==> {
            if ids_of(participants@).to_multiset() == ids_of(seeding@).to_multiset() {
                (res matches Ok(s) && s@ == seeding@)
            } else {
                (res matches Err(Error::DifferentParticipants(s, p)) && s@ == seeding@ && p@
                    == participants@)
            }
        },
        participants@.len() >= 3 && *method == Method::Random ==> {
            &&& res matches Ok(s) ==> is_reordering(participants@, s@)
            &&& res matches Err(e) ==> (e is Rng || (e is Shuffle && !no_duplicates(
                ids_of(participants@),
            )))
            &&& no_duplicates(ids_of(participants@)) ==> !(res matches Err(Error::Shuffle(_)))
        },
{
    if participants.len() < 3 {
        return Err(Error::NotEnoughPlayers);
    }
    match method {
        Method::Random => {
            let mut key = [0u8;32];
            if let Err(e) = fill_random_bytes(&mut key) {
                return Err(Error::Rng(e));
            }
            let mut players = participants.get_players_list();
            let ghost before = players@;
            shuffle_players(&mut players, key);
            proof {
                lemma_reordering_no_duplicates(before, players@);
            }
            let ghost after = players@;
            match Participants::try_from_players(players) {
                Ok(p) => Ok(p),
                Err(e) => Err(Error::Shuffle(e)),
            }
        },
        Method::Strict => {
            if participants.have_same_participants(&seeding) {
                Ok(seeding)
            } else {
                Err(Error::DifferentParticipants(seeding, participants))
            }
        },
    }
}

/// Request to seed a bracket
#[derive(Debug)]
pub struct POST {
    /// Discussion channel internal id
    pub internal_channel_id: String,
    /// Service
    pub service: String,
    /// List of seeded players
    pub players: Vec<String>,
}

} // verus!
