//! Update seeding of bracket

use crate::player::PlayerID;
use vstd::prelude::*;

verus! {

/// Seeding is an ordered list of player. All players IDs are guaranteed unique
#[derive(Debug, PartialEq)]
pub struct Seeding(Vec<PlayerID>);

/// Provided input is unsuitable for seeding
#[derive(Debug, PartialEq)]
pub enum SeedingError {
    /// Duplicate player
    DuplicatePlayer(PlayerID),
}

impl View for Seeding {
    type V = Seq<PlayerID>;

    closed spec fn view(&self) -> Seq<PlayerID> {
        self.0@
    }
}

impl Default for Seeding {
    /// Seeding without players
    fn default() -> (res: Self)
        ensures
            res@.len() == 0,
    {
        let v: Vec<PlayerID> = Vec::new();
        assert(crate::player::no_duplicates(v@));
        Seeding(v)
    }
}

impl Clone for Seeding {
    fn clone(&self) -> (res: Self)
        ensures
            res@ == self@,
    {
        proof {
            use_type_invariant(self);
        }
        let v = self.0.clone();
        assert(v@ =~= self.0@);
        Seeding(v)
    }
}

impl Seeding {
    /// All players are unique
    #[verifier::type_invariant]
    spec fn inv(self) -> bool {
        crate::player::no_duplicates(self.0@)
    }

    /// Creates a unique player list, ordered for seeding
    ///
    /// # Errors
    /// Player list is unsuitable for seeding: the first player found again
    /// later in the list is reported
    pub fn new(player_ids: Vec<PlayerID>) -> (res: Result<Self, SeedingError>)
        ensures
            res is Ok <==> crate::player::no_duplicates(player_ids@),
            res matches Ok(s) ==> s@ == player_ids@,
            res matches Err(e) ==> e matches SeedingError::DuplicatePlayer(p) && exists|
                i: int,
                j: int,
            | 0 <= i < j < player_ids@.len() && player_ids@[i] == p && player_ids@[j] == p,
    {
        let mut i: usize = 0;
        while i < player_ids.len()
            invariant
                i <= player_ids@.len(),
                forall|a: int, b: int| 0 <= a < b < i ==> player_ids@[a] != player_ids@[b],
            decreases player_ids@.len() - i,
        {
            let mut j: usize = 0;
            while j < i
                invariant
                    j <= i < player_ids@.len(),
                    forall|a: int| 0 <= a < j ==> player_ids@[a] != player_ids@[i as int],
                decreases i - j,
            {
                if player_ids[j] == player_ids[i] {
                    return Err(SeedingError::DuplicatePlayer(player_ids[i]));
                }
                j += 1;
            }
            i += 1;
        }
        Ok(Self(player_ids))
    }

    /// Get seeding
    pub fn get(&self) -> (res: Vec<PlayerID>)
        ensures
            crate::player::no_duplicates(self@),
            res@ == self@,
    {
        proof {
            use_type_invariant(self);
        }
        self.0.clone()
    }

    /// Seeding as a slice
    pub fn as_slice(&self) -> (res: &[PlayerID])
        ensures
            crate::player::no_duplicates(self@),
            res@ == self@,
    {
        proof {
            use_type_invariant(self);
        }
        self.0.as_slice()
    }

    /// Contains player
    #[must_use]
    pub fn contains(&self, player_id: PlayerID) -> (res: bool)
        ensures
            res == self@.contains(player_id),
    {
        let mut i: usize = 0;
        while i < self.0.len()
            invariant
                i <= self.0@.len(),
                forall|k: int| 0 <= k < i ==> self.0@[k] != player_id,
            decreases self.0@.len() - i,
        {
            if self.0[i] == player_id {
                assert(self@[i as int] == player_id);
                return true;
            }
            i += 1;
        }
        false
    }

    /// Number of players
    #[must_use]
    pub fn len(&self) -> (res: usize)
        ensures
            crate::player::no_duplicates(self@),
            res == self@.len(),
    {
        proof {
            use_type_invariant(self);
        }
        self.0.len()
    }

    /// Returns `true` if no player is seeded
    pub fn is_empty(&self) -> (res: bool)
        ensures
            res == (self@.len() == 0),
    {
        self.0.len() == 0
    }
}

} // verus!
