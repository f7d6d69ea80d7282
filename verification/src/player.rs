//! player

use crate::ids::{new_random_id, parse_id, RandomIdError};
use crate::ID;
use vstd::prelude::*;

verus! {

broadcast use {vstd::seq_lib::group_to_multiset_ensures, vstd::multiset::group_multiset_axioms};

/// Player identifier
pub type Id = ID;

/// Player identifier
pub type PlayerID = ID;

/// A player is referenced by their ID and their username
#[derive(Debug, PartialEq, Eq, Hash)]
pub struct Player {
    /// Player identifier
    pub(crate) id: Id,
    /// Player name
    pub(crate) name: String,
}

impl Clone for Player {
    fn clone(&self) -> (res: Self)
        ensures
            res == *self,
    {
        Player { id: self.id, name: self.name.clone() }
    }
}

/// Error while forming or querying group of players
#[derive(Debug)]
pub enum Error {
    /// Player already exist in this group of player
    AlreadyPresent,
    /// Player id could not be parsed
    PlayerId(crate::ids::UuidError),
    /// Referenced player is unknown in this group of participants
    Unknown(Id),
}

impl Player {
    /// Identifier of player
    pub closed spec fn spec_id(self) -> Id {
        self.id
    }

    /// Name of player
    pub closed spec fn spec_name(self) -> Seq<char> {
        self.name@
    }

    /// Create new player with a fresh random identifier
    ///
    /// # Errors
    /// thrown when no random identifier can be drawn
    pub fn new(name: String) -> (res: Result<Self, RandomIdError>)
        ensures
            res matches Ok(p) ==> p.spec_name() == name@,
    {
        let id = new_random_id()?;
        Ok(Self { id, name })
    }

    /// Player with given identifier and name
    #[must_use]
    pub fn from_id_and_name(id: Id, name: String) -> (p: Self)
        ensures
            p.spec_id() == id,
            p.spec_name() == name@,
    {
        Player { id, name }
    }

    /// Player whose identifier is read from `id`
    ///
    /// # Errors
    /// thrown when `id` is not an identifier
    pub fn try_from_raw(id: &str, name: &str) -> (res: Result<Self, Error>)
        ensures
            res is Ok <==> crate::ids::parsed_id(id@) is Some,
            res matches Ok(p) ==> Some(p.spec_id()) == crate::ids::parsed_id(id@) && p.spec_name() == name@,
    {
        match parse_id(id) {
            Ok(id) => Ok(Player { id, name: name.to_string() }),
            Err(e) => Err(Error::PlayerId(e)),
        }
    }

    /// Get player id
    #[must_use]
    pub fn get_id(&self) -> (id: Id)
        ensures
            id == self.spec_id(),
    {
        self.id
    }

    /// Get player name
    #[must_use]
    pub fn get_name(&self) -> (name: String)
        ensures
            name@ == self.spec_name(),
    {
        self.name.clone()
    }
}

/// Identifiers of `players`, in order
pub open spec fn ids_of(players: Seq<Player>) -> Seq<Id> {
    players.map_values(|p: Player| p.spec_id())
}

/// No identifier appears twice in `ids`
pub open spec fn no_duplicates(ids: Seq<Id>) -> bool {
    forall|i: int, j: int| 0 <= i < j < ids.len() ==> ids[i] != ids[j]
}

/// Identifiers read from the first element of each pair
pub open spec fn parsed_ids(pairs: Seq<(String, String)>) -> Seq<Id> {
    Seq::new(pairs.len(), |i: int| crate::ids::parsed_id(pairs[i].0@)->Some_0)
}

/// Keeping some of the players keeps their identifiers distinct
pub proof fn lemma_filter_keeps_distinct(s: Seq<Player>, pred: spec_fn(Player) -> bool)
    requires
        no_duplicates(ids_of(s)),
    ensures
        no_duplicates(ids_of(s.filter(pred))),
    decreases s.len(),
{
    reveal_with_fuel(Seq::filter, 1);
    if s.len() > 0 {
        let r = s.drop_last();
        assert(ids_of(r) =~= ids_of(s).drop_last());
        lemma_filter_keeps_distinct(r, pred);
        let f = r.filter(pred);
        if pred(s.last()) {
            let g = f.push(s.last());
            assert(s.filter(pred) == g);
            assert forall|i: int, j: int| 0 <= i < j < ids_of(g).len() implies ids_of(g)[i] != ids_of(
                g,
            )[j] by {
                if j == g.len() - 1 {
                    assert(f.contains(f[i]));
                    r.lemma_filter_contains_rev(pred, f[i]);
                    let k = choose|k: int| 0 <= k < r.len() && r[k] == f[i];
                    assert(ids_of(s)[k] != ids_of(s)[s.len() - 1]);
                } else {
                    assert(ids_of(f)[i] != ids_of(f)[j]);
                }
            }
        }
    }
}

/// Participants of bracket
///
/// Participants are ordered by seeding position from strongest to weakest
#[derive(Debug, Default)]
pub struct Participants {
    /// players from this group
    participants: Vec<Player>,
}

impl Clone for Participants {
    fn clone(&self) -> (res: Self)
        ensures
            res@ == self@,
    {
        Participants { participants: clone_players(&self.participants) }
    }
}

/// Copy of a list of players
pub(crate) fn clone_players(players: &Vec<Player>) -> (res: Vec<Player>)
    ensures
        res@ == players@,
{
    let mut res: Vec<Player> = Vec::new();
    for i in 0..players.len()
        invariant
            res@ == players@.take(i as int),
    {
        res.push(players[i].clone());
        assert(res@ =~= players@.take(i + 1));
    }
    assert(players@.take(players.len() as int) =~= players@);
    res
}

impl View for Participants {
    type V = Seq<Player>;

    closed spec fn view(&self) -> Seq<Player> {
        self.participants@
    }
}

impl Participants {
    /// Empty group of participants
    pub fn new() -> (res: Self)
        ensures
            res@ == Seq::<Player>::empty(),
    {
        Participants { participants: Vec::new() }
    }

    /// Add player to participants
    ///
    /// # Errors
    /// thrown if player is already present
    pub fn add_participant(self, new_player: Player) -> (res: Result<Self, Error>)
        ensures
            ids_of(self@).contains(new_player.spec_id()) <==> res is Err,
            res matches Err(e) ==> e is AlreadyPresent,
            res matches Ok(p) ==> p@ == self@.push(new_player),
    {
        let mut i: usize = 0;
        while i < self.participants.len()
            invariant
                i <= self.participants.len(),
                forall|k: int| 0 <= k < i ==> self.participants@[k].spec_id() != new_player.spec_id(),
            decreases self.participants.len() - i,
        {
            if self.participants[i].id == new_player.id {
                assert(ids_of(self@)[i as int] == new_player.spec_id());
                return Err(Error::AlreadyPresent);
            }
            i += 1;
        }
        assert(!ids_of(self@).contains(new_player.spec_id()));
        let mut updated_participants = self.participants;
        updated_participants.push(new_player);
        Ok(Self { participants: updated_participants })
    }

    /// Form participants with provided (id, name) pairs
    ///
    /// # Errors
    /// thrown when an id cannot be read or two same players are added
    pub fn from_raw_id(players_to_add: Vec<(String, String)>) -> (res: Result<Participants, Error>)
        ensures
            res matches Ok(p) ==> p@.len() == players_to_add@.len() && no_duplicates(ids_of(p@))
                && forall|i: int|
                0 <= i < p@.len() ==> Some(#[trigger] p@[i].spec_id()) == crate::ids::parsed_id(
                    players_to_add@[i].0@,
                ) && p@[i].spec_name() == players_to_add@[i].1@,
            (forall|i: int|
                0 <= i < players_to_add@.len() ==> crate::ids::parsed_id(#[trigger] players_to_add@[i].0@)
                    is Some) && no_duplicates(parsed_ids(players_to_add@)) ==> res is Ok,
    {
        let ghost parsed = parsed_ids(players_to_add@);
        let mut players = Participants::new();
        let mut i: usize = 0;
        while i < players_to_add.len()
            invariant
                i <= players_to_add@.len(),
                players@.len() == i,
                no_duplicates(ids_of(players@)),
                forall|k: int|
                    0 <= k < i ==> Some(#[trigger] players@[k].spec_id()) == crate::ids::parsed_id(
                        players_to_add@[k].0@,
                    ) && players@[k].spec_name() == players_to_add@[k].1@,
                forall|k: int| 0 <= k < i ==> ids_of(players@)[k] == parsed[k],
                parsed == parsed_ids(players_to_add@),
                forall|k: int| 0 <= k < players_to_add@.len() ==> parsed[k] == crate::ids::parsed_id(players_to_add@[k].0@)->Some_0,
            decreases players_to_add@.len() - i,
        {
            let id = match parse_id(players_to_add[i].0.as_str()) {
                Ok(id) => id,
                Err(e) => {
                    assert(crate::ids::parsed_id(players_to_add@[i as int].0@) is None);
                    return Err(Error::PlayerId(e));
                },
            };
            let p = Player { id, name: players_to_add[i].1.clone() };
            let ghost before = players@;
            players = match players.add_participant(p) {
                Ok(updated_players) => updated_players,
                Err(e) => {
                    proof {
                        let k = choose|k: int| 0 <= k < ids_of(before).len() && ids_of(before)[k] == id;
                        assert(parsed[k] == parsed[i as int]);
                        assert(!no_duplicates(parsed));
                    }
                    return Err(e);
                },
            };
            assert(ids_of(players@) =~= ids_of(before).push(id));
            i += 1;
        }
        Ok(players)
    }

    /// Returns player if present
    #[must_use]
    pub fn get(&self, participant_id: Id) -> (res: Option<Player>)
        ensures
            res is Some <==> ids_of(self@).contains(participant_id),
            res matches Some(p) ==> p.spec_id() == participant_id && self@.contains(p),
    {
        let mut i: usize = 0;
        while i < self.participants.len()
            invariant
                i <= self.participants.len(),
                forall|k: int| 0 <= k < i ==> self.participants@[k].spec_id() != participant_id,
            decreases self.participants.len() - i,
        {
            if self.participants[i].id == participant_id {
                assert(ids_of(self@)[i as int] == participant_id);
                assert(self@[i as int] == self.participants@[i as int]);
                return Some(self.participants[i].clone());
            }
            i += 1;
        }
        None
    }

    /// Return participants as a list of players
    #[must_use]
    pub fn get_players_list(&self) -> (res: Vec<Player>)
        ensures
            res@ == self@,
    {
        clone_players(&self.participants)
    }

    /// Returns seeding, which is the players listed by ID
    #[must_use]
    pub fn get_seeding(&self) -> (res: Vec<Id>)
        ensures
            res@ == ids_of(self@),
    {
        let mut res: Vec<Id> = Vec::new();
        for i in 0..self.participants.len()
            invariant
                res@ == ids_of(self@).take(i as int),
        {
            res.push(self.participants[i].id);
            assert(res@ =~= ids_of(self@).take(i + 1));
        }
        assert(ids_of(self@).take(self.participants.len() as int) =~= ids_of(self@));
        res
    }

    /// Returns true if both group of participants have the same players,
    /// disregarding order
    #[must_use]
    pub fn have_same_participants(&self, other_group: &Participants) -> (res: bool)
        ensures
            res == (ids_of(self@).to_multiset() == ids_of(other_group@).to_multiset()),
    {
        let mine = self.get_seeding();
        let mut remaining = other_group.get_seeding();
        let ghost target = ids_of(other_group@).to_multiset();
        let mut i: usize = 0;
        while i < mine.len()
            invariant
                i <= mine@.len(),
                mine@ == ids_of(self@),
                remaining@.to_multiset().add(mine@.take(i as int).to_multiset()) == target,
                target == ids_of(other_group@).to_multiset(),
            decreases mine@.len() - i,
        {
            let x = mine[i];
            let mut j: usize = 0;
            while j < remaining.len()
                invariant
                    j <= remaining@.len(),
                    forall|k: int| 0 <= k < j ==> remaining@[k] != x,
                ensures
                    j <= remaining@.len(),
                    forall|k: int| 0 <= k < j ==> remaining@[k] != x,
                    j < remaining@.len() ==> remaining@[j as int] == x,
                decreases remaining@.len() - j,
            {
                if remaining[j] == x {
                    break;
                }
                j += 1;
            }
            assert(mine@.take(i + 1) =~= mine@.take(i as int).push(x));
            if j == remaining.len() {
                proof {
                    assert(!remaining@.contains(x));
                    assert(remaining@.to_multiset().count(x) == 0);
                    assert(mine@.take(i as int).push(x).to_multiset() =~= mine@.take(
                        i as int,
                    ).to_multiset().insert(x));
                    lemma_prefix_count_le(mine@, i as int + 1, x);
                    assert(target.count(x) == mine@.take(i as int).to_multiset().count(x));
                    assert(ids_of(self@).to_multiset().count(x) >= mine@.take(i + 1).to_multiset().count(x));
                }
                return false;
            }
            let ghost before = remaining@;
            remaining.remove(j);
            proof {
                assert(before.remove(j as int).to_multiset() =~= before.to_multiset().remove(x));
                assert(mine@.take(i as int).push(x).to_multiset() =~= mine@.take(
                    i as int,
                ).to_multiset().insert(x));
                assert(remaining@.to_multiset().add(mine@.take(i + 1).to_multiset()) =~= target);
            }
            i += 1;
        }
        assert(mine@.take(mine@.len() as int) =~= mine@);
        if remaining.len() == 0 {
            assert(remaining@.to_multiset() =~= vstd::multiset::Multiset::empty());
            assert(target =~= mine@.to_multiset());
            true
        } else {
            proof {
                assert(remaining@.to_multiset().len() > 0);
                assert(target.len() == remaining@.to_multiset().len() + mine@.to_multiset().len());
                assert(target.len() > ids_of(self@).to_multiset().len());
            }
            false
        }
    }

    /// Returns `true` if there is no participants
    #[must_use]
    pub fn is_empty(&self) -> (res: bool)
        ensures
            res == (self@.len() == 0),
    {
        self.participants.len() == 0
    }

    /// Number of participants
    #[must_use]
    pub fn len(&self) -> (res: usize)
        ensures
            res == self@.len(),
    {
        self.participants.len()
    }

    /// Remove participant
    ///
    /// # Errors
    /// thrown if participant does not belong to this group
    pub fn remove(self, participant_id: Id) -> (res: Result<Self, Error>)
        ensures
            res is Ok <==> exists|k: int| 0 <= k < self@.len() && self@[k].spec_id() == participant_id,
            res matches Err(e) ==> (e matches Error::Unknown(p) && p == participant_id),
            res matches Ok(r) ==> r@ == self@.filter(|p: Player| p.spec_id() != participant_id),
    {
        let mut present = false;
        let mut i: usize = 0;
        while i < self.participants.len()
            invariant
                i <= self.participants@.len(),
                present <==> exists|k: int| 0 <= k < i && self.participants@[k].spec_id() == participant_id,
            decreases self.participants@.len() - i,
        {
            if self.participants[i].id == participant_id {
                present = true;
            }
            i += 1;
        }
        if !present {
            return Err(Error::Unknown(participant_id));
        }
        Ok(self.without(participant_id))
    }

    /// Participants without `participant_id`, whether or not they belong to
    /// this group
    pub(crate) fn without(self, participant_id: Id) -> (res: Self)
        ensures
            res@ == self@.filter(|p: Player| p.spec_id() != participant_id),
    {
        let ghost pred = |p: Player| p.spec_id() != participant_id;
        let mut kept: Vec<Player> = Vec::new();
        for i in 0..self.participants.len()
            invariant
                kept@ == self.participants@.take(i as int).filter(pred),
                pred == (|p: Player| p.spec_id() != participant_id),
        {
            proof {
                reveal_with_fuel(Seq::filter, 1);
                assert(self.participants@.take(i + 1).drop_last() =~= self.participants@.take(i as int));
            }
            if self.participants[i].id != participant_id {
                kept.push(self.participants[i].clone());
            }
        }
        assert(self.participants@.take(self.participants.len() as int) =~= self.participants@);
        Self { participants: kept }
    }

    /// Add player to participants but does not check if player is already
    /// present in bracket. Use only for fuzzing tests when you can guarantee
    /// you do not add duplicate players.
    #[must_use]
    pub fn unchecked_add_participant(self, new_player: Player) -> (res: Self)
        ensures
            res@ == self@.push(new_player),
    {
        let mut updated_participants = self.participants;
        updated_participants.push(new_player);
        Self { participants: updated_participants }
    }

    /// Participants formed from `players`, in order
    ///
    /// # Errors
    /// thrown when the same player appears twice
    pub fn try_from_players(players: Vec<Player>) -> (res: Result<Self, Error>)
        ensures
            res is Ok <==> no_duplicates(ids_of(players@)),
            res matches Ok(p) ==> p@ == players@,
            res matches Err(e) ==> e is AlreadyPresent,
    {
        let mut result = Participants::new();
        for i in 0..players.len()
            invariant
                result@ == players@.take(i as int),
                no_duplicates(ids_of(players@.take(i as int))),
        {
            let ghost before = result@;
            result = match result.add_participant(players[i].clone()) {
                Ok(r) => r,
                Err(e) => {
                    proof {
                        let k = choose|k: int| 0 <= k < ids_of(before).len() && ids_of(before)[k] == players@[i as int].spec_id();
                        assert(ids_of(players@)[k] == ids_of(players@)[i as int]);
                    }
                    return Err(e);
                },
            };
            proof {
                assert(players@.take(i + 1) =~= players@.take(i as int).push(players@[i as int]));
                assert(ids_of(players@.take(i + 1)) =~= ids_of(players@.take(i as int)).push(players@[i as int].spec_id()));
            }
        }
        assert(players@.take(players.len() as int) =~= players@);
        Ok(result)
    }
}

/// Occurrences of `x` in a prefix of `s` are at most its occurrences in `s`
proof fn lemma_prefix_count_le(s: Seq<Id>, n: int, x: Id)
    requires
        0 <= n <= s.len(),
    ensures
        s.take(n).to_multiset().count(x) <= s.to_multiset().count(x),
    decreases s.len() - n,
{
    broadcast use vstd::seq_lib::group_to_multiset_ensures;

    if n < s.len() {
        lemma_prefix_count_le(s, n + 1, x);
        assert(s.take(n + 1) =~= s.take(n).push(s[n]));
    } else {
        assert(s.take(n) =~= s);
    }
}

} // verus!
