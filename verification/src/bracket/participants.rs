//! Participants joining or leaving a bracket, and its seeding

use crate::bracket::{Bracket, BracketView, Error};
use crate::player::{ids_of, no_duplicates, Error as PlayerError, Id as PlayerId, Participants, Player};
use crate::seeding::single_elimination_seeded_bracket::{
    fresh_matches_with_shapes, get_balanced_round_matches_top_seed_favored, next_power_of_two,
    single_elimination_shapes,
};
use crate::matches::Match;
use crate::seeding::{is_reordering, seed, Error as SeedingError, Method};
use vstd::prelude::*;

verus! {

/// Matches `ms` are those generated for participants `ps`: none under 3
/// players, a single elimination bracket otherwise
pub open spec fn matches_for(ps: Seq<Player>, ms: Seq<Match>) -> bool {
    if ps.len() < 3 {
        ms.len() == 0
    } else {
        fresh_matches_with_shapes(ms, single_elimination_shapes(ids_of(ps)))
    }
}

/// Matches cannot be generated for `ps` without overflow
pub open spec fn overflows(ps: Seq<Player>) -> bool {
    ps.len() >= 3 && next_power_of_two(ps.len()) > usize::MAX
}

/// `e` is why matches could not be generated for `ps`: an overflow when
/// `ps` overflows, otherwise no random identifier for a match
pub open spec fn generation_failure(ps: Seq<Player>, e: Error) -> bool {
    &&& ps.len() >= 3
    &&& if overflows(ps) {
        e matches Error::Seeding(SeedingError::MathOverflow)
    } else {
        e matches Error::Seeding(SeedingError::NoRandomId)
    }
}

/// The player at `k` of `players` is not a participant, or comes twice
pub open spec fn is_bad_seed(ps: Seq<Player>, players: Seq<PlayerId>, k: int) -> bool {
    !ids_of(ps).contains(players[k]) || players.take(k).contains(players[k])
}

/// `k` is the first bad position of `players`
pub open spec fn is_first_bad_seed(ps: Seq<Player>, players: Seq<PlayerId>, k: int) -> bool {
    0 <= k < players.len() && is_bad_seed(ps, players, k) && forall|j: int|
        0 <= j < k ==> !is_bad_seed(ps, players, j)
}

/// Players of `ps` listed in the order of identifiers `players`
pub open spec fn listed_as(group: Seq<Player>, ps: Seq<Player>, players: Seq<PlayerId>) -> bool {
    ids_of(group) == players && forall|i: int| 0 <= i < group.len() ==> ps.contains(#[trigger] group[i])
}

/// Keeping the players other than `id` keeps all of `ps` when none of them
/// is `id`
proof fn lemma_filter_keeps_all(ps: Seq<Player>, id: PlayerId)
    requires
        !ids_of(ps).contains(id),
    ensures
        ps.filter(|q: Player| q.spec_id() != id) == ps,
    decreases ps.len(),
{
    reveal_with_fuel(Seq::filter, 1);
    if ps.len() > 0 {
        let r = ps.drop_last();
        assert(ids_of(r) =~= ids_of(ps).drop_last());
        assert(!ids_of(r).contains(id)) by {
            if ids_of(r).contains(id) {
                let k = choose|k: int| 0 <= k < ids_of(r).len() && ids_of(r)[k] == id;
                assert(ids_of(ps)[k] == id);
            }
        }
        lemma_filter_keeps_all(r, id);
        assert(ids_of(ps)[ps.len() - 1] == ps.last().spec_id());
        assert(ps.last().spec_id() != id);
        assert(r.push(ps.last()) =~= ps);
    } else {
        assert(ps.filter(|q: Player| q.spec_id() != id) =~= ps);
    }
}

/// A player who joins a bracket and is then removed from it leaves its
/// participants as they were
pub proof fn lemma_join_then_remove(ps: Seq<Player>, p: Player)
    requires
        !ids_of(ps).contains(p.spec_id()),
    ensures
        ps.push(p).filter(|q: Player| q.spec_id() != p.spec_id()) == ps,
{
    let id = p.spec_id();
    reveal_with_fuel(Seq::filter, 1);
    let pushed = ps.push(p);
    assert(pushed.drop_last() =~= ps);
    lemma_filter_keeps_all(ps, id);
}

impl Bracket {
    /// Regenerate matches. Used when participants changes
    ///
    /// # Errors
    /// thrown when math overflow happens, or when no random identifier can be
    /// drawn for a match
    fn regenerate_matches(self, updated_participants: Participants) -> (res: Result<Self, Error>)
        requires
            no_duplicates(ids_of(updated_participants@)),
        ensures
            overflows(updated_participants@) ==> res is Err,
            res matches Err(e) ==> generation_failure(updated_participants@, e),
            updated_participants@.len() < 3 ==> res is Ok,
            res matches Ok(b) ==> b@ == (BracketView {
                participants: updated_participants@,
                matches: b@.matches,
                ..self@
            }) && matches_for(updated_participants@, b@.matches),
    {
        let updated_matches = if updated_participants.len() < 3 {
            Vec::new()
        } else {
            let seeding = updated_participants.get_seeding();
            match get_balanced_round_matches_top_seed_favored(seeding.as_slice()) {
                Ok(m) => {
                    proof {
                        crate::seeding::single_elimination_seeded_bracket::lemma_single_elimination_match_count(
                            seeding@,
                        );
                        let sh = single_elimination_shapes(seeding@);
                        crate::seeding::single_elimination_seeded_bracket::lemma_single_elimination_closed(
                            seeding@,
                        );
                        crate::seeding::single_elimination_seeded_bracket::lemma_fresh_matches_closed(
                            m@,
                            sh,
                        );
                    }
                    m
                },
                Err(e) => return Err(Error::Seeding(e)),
            }
        };
        Ok(Self { participants: updated_participants, matches: updated_matches, ..self })
    }

    /// Adds new player in participants and returns updated bracket
    ///
    /// # Errors
    /// Thrown when the same player is added
    pub fn add_new_player(self, player: Player) -> (res: Result<Bracket, Error>)
        ensures
            ids_of(self@.participants).contains(player.spec_id()) ==> (res matches Err(
                Error::PlayerUpdate(e),
            ) && e is AlreadyPresent),
            !ids_of(self@.participants).contains(player.spec_id()) ==> {
                let ps = self@.participants.push(player);
                &&& overflows(ps) ==> res is Err
                &&& res matches Err(e) ==> generation_failure(ps, e)
                &&& ps.len() < 3 ==> res is Ok
                &&& res matches Ok(b) ==> b@ == (BracketView {
                    participants: ps,
                    matches: b@.matches,
                    ..self@
                }) && matches_for(ps, b@.matches)
            },
    {
        proof {
            use_type_invariant(&self);
        }
        let updated_participants = match self.participants.clone().add_participant(player) {
            Ok(p) => p,
            Err(e) => return Err(Error::PlayerUpdate(e)),
        };
        proof {
            let ps = updated_participants@;
            let old_ids = ids_of(self@.participants);
            assert(ids_of(ps) =~= old_ids.push(ps.last().spec_id()));
            assert forall|i: int, j: int| 0 <= i < j < ids_of(ps).len() implies ids_of(ps)[i]
                != ids_of(ps)[j] by {
                if j == ps.len() - 1 {
                    assert(old_ids.contains(old_ids[i]));
                } else {
                    assert(old_ids[i] != old_ids[j]);
                }
            }
        }
        self.regenerate_matches(updated_participants)
    }

    /// Let `player` join participants and returns an updated version of the bracket
    ///
    /// # Errors
    /// Thrown when bracket is closed or player is already present
    pub fn join(self, player: Player) -> (res: Result<Bracket, Error>)
        ensures
            self@.is_closed ==> (res matches Err(Error::BarredFromEntering(p, b)) && p
                == player.spec_id() && b == self@.id),
            !self@.is_closed && ids_of(self@.participants).contains(player.spec_id()) ==> (
            res matches Err(Error::PlayerUpdate(e)) && e is AlreadyPresent),
            !self@.is_closed && !ids_of(self@.participants).contains(player.spec_id()) ==> {
                let ps = self@.participants.push(player);
                &&& overflows(ps) ==> res is Err
                &&& res matches Err(e) ==> generation_failure(ps, e)
                &&& ps.len() < 3 ==> res is Ok
                &&& res matches Ok(b) ==> b@ == (BracketView {
                    participants: ps,
                    matches: b@.matches,
                    ..self@
                }) && matches_for(ps, b@.matches)
            },
    {
        if self.is_closed() {
            return Err(Error::BarredFromEntering(player.get_id(), self.get_id()));
        }
        let updated_bracket = self.add_new_player(player)?;
        Ok(updated_bracket)
    }

    /// Remove participant, regenerate matches and return updated bracket
    ///
    /// # Errors
    /// thrown when the bracket has started
    pub fn remove_participant(self, participant_id: PlayerId) -> (res: Result<Self, Error>)
        ensures
            self@.accept_match_results ==> (res matches Err(Error::Started(b, _)) && b
                == self@.id),
            !self@.accept_match_results ==> {
                let ps = self@.participants.filter(|p: Player| p.spec_id() != participant_id);
                &&& overflows(ps) ==> res is Err
                &&& res matches Err(e) ==> generation_failure(ps, e)
                &&& ps.len() < 3 ==> res is Ok
                &&& res matches Ok(b) ==> b@ == (BracketView {
                    participants: ps,
                    matches: b@.matches,
                    ..self@
                }) && matches_for(ps, b@.matches)
            },
    {
        proof {
            use_type_invariant(&self);
        }
        if self.accept_match_results {
            return Err(
                Error::Started(
                    self.bracket_id,
                    ". As a player, you can quit the bracket by forfeiting or ask an admin to DQ you.".to_string(),
                ),
            );
        }
        let updated_participants = self.participants.clone().without(participant_id);
        proof {
            crate::player::lemma_filter_keeps_distinct(
                self@.participants,
                |p: Player| p.spec_id() != participant_id,
            );
        }
        self.regenerate_matches(updated_participants)
    }

    /// Update seeding with players ordered by seeding position and generate
    /// matches
    ///
    /// # Errors
    /// thrown when the bracket has started, when provided players are
    /// unknown or listed twice, when seeding fails or overflows
    pub fn update_seeding(self, players: &[PlayerId]) -> (res: Result<Self, Error>)
        ensures
            self@.accept_match_results ==> (res matches Err(Error::Started(b, _)) && b
                == self@.id),
            !self@.accept_match_results ==> {
                let ps = self@.participants;
                if exists|k: int| is_first_bad_seed(ps, players@, k) {
                    let k = choose|k: int| is_first_bad_seed(ps, players@, k);
                    if !ids_of(ps).contains(players@[k]) {
                        res matches Err(Error::UnknownPlayer(p, parts, b)) && p == players@[k]
                            && parts@ == ps && b == self@.id
                    } else {
                        res matches Err(Error::PlayerUpdate(e)) && e is AlreadyPresent
                    }
                } else if ps.len() < 3 {
                    res matches Err(Error::Seeding(e)) && e is NotEnoughPlayers
                } else {
                    &&& self@.seeding_method == Method::Strict ==> (if ids_of(ps).to_multiset()
                        == players@.to_multiset() {
                        &&& overflows(ps) ==> res is Err
                        &&& res matches Err(e) ==> generation_failure(ps, e)
                &&& ps.len() < 3 ==> res is Ok
                        &&& res matches Ok(b) ==> listed_as(b@.participants, ps, players@)
                    } else {
                        res matches Err(Error::Seeding(SeedingError::DifferentParticipants(w, q)))
                            && ids_of(w@) == players@ && q@ == ps
                    })
                    &&& self@.seeding_method == Method::Random ==> (res matches Err(
                        Error::Seeding(e),
                    ) ==> e is Rng || e is MathOverflow || e is NoRandomId) && (res matches Ok(b) ==> is_reordering(
                        ps,
                        b@.participants,
                    ))
                    &&& res matches Ok(b) ==> b@ == (BracketView {
                        participants: b@.participants,
                        matches: b@.matches,
                        ..self@
                    }) && matches_for(b@.participants, b@.matches)
                }
            },
    {
        proof {
            use_type_invariant(&self);
        }
        if self.accept_match_results {
            return Err(Error::Started(self.bracket_id, String::new()));
        }
        let ghost ps = self@.participants;
        let mut player_group = Participants::new();
        assert(ids_of(player_group@) =~= players@.take(0));
        let mut k: usize = 0;
        while k < players.len()
            invariant
                k <= players@.len(),
                !self@.accept_match_results,
                ps == self@.participants,
                ps == self.participants@,
                no_duplicates(ids_of(ps)),
                forall|j: int| 0 <= j < k ==> !is_bad_seed(ps, players@, j),
                listed_as(player_group@, ps, players@.take(k as int)),
            decreases players@.len() - k,
        {
            let sorted_player = players[k];
            let player = match self.participants.get(sorted_player) {
                Some(p) => p,
                None => {
                    proof {
                        assert(is_first_bad_seed(ps, players@, k as int));
                        let f = choose|f: int| is_first_bad_seed(ps, players@, f);
                        assert(f == k) by {
                            if f < k {
                                assert(!is_bad_seed(ps, players@, f));
                            }
                            if k < f {
                            }
                        }
                    }
                    return Err(
                        Error::UnknownPlayer(
                            sorted_player,
                            self.participants.clone(),
                            self.bracket_id,
                        ),
                    );
                },
            };
            let ghost before = player_group@;
            player_group = match player_group.add_participant(player) {
                Ok(g) => g,
                Err(e) => {
                    proof {
                        assert(players@.take(k as int).contains(players@[k as int])) by {
                            let x = choose|x: int| 0 <= x < before.len() && ids_of(before)[x] == player.spec_id();
                            assert(players@.take(k as int)[x] == players@[k as int]);
                        }
                        assert(is_first_bad_seed(ps, players@, k as int));
                        let f = choose|f: int| is_first_bad_seed(ps, players@, f);
                        assert(f == k) by {
                            if f < k {
                                assert(!is_bad_seed(ps, players@, f));
                            }
                        }
                    }
                    return Err(Error::PlayerUpdate(e));
                },
            };
            proof {
                assert(players@.take(k + 1) =~= players@.take(k as int).push(players@[k as int]));
                assert(ids_of(player_group@) =~= ids_of(before).push(player.spec_id()));
                assert(!is_bad_seed(ps, players@, k as int)) by {
                    if players@.take(k as int).contains(players@[k as int]) {
                        let x = choose|x: int| 0 <= x < k && players@.take(k as int)[x] == players@[k as int];
                        assert(ids_of(before)[x] == player.spec_id());
                        assert(ids_of(before).contains(player.spec_id()));
                    }
                }
            }
            k += 1;
        }
        proof {
            assert(players@.take(players@.len() as int) =~= players@);
            assert(!exists|f: int| is_first_bad_seed(ps, players@, f));
        }
        let ghost group = player_group@;
        let updated_players = match seed(&self.seeding_method, player_group, self.participants.clone()) {
            Ok(p) => p,
            Err(e) => return Err(Error::Seeding(e)),
        };
        proof {
            broadcast use vstd::seq_lib::group_to_multiset_ensures;

            if self.seeding_method == Method::Random {
                crate::seeding::lemma_reordering_no_duplicates(ps, updated_players@);
            } else {
                assert forall|j: int| 0 <= j < players@.len() implies !players@.take(j).contains(
                    #[trigger] players@[j],
                ) by {
                    assert(!is_bad_seed(ps, players@, j));
                }
                lemma_group_distinct(group, players@);
                assert(ids_of(group).to_multiset().len() == ids_of(group).len());
                assert(ids_of(ps).to_multiset().len() == ids_of(ps).len());
            }
            assert(updated_players@.len() >= 3);
        }
        let seeding = updated_players.get_seeding();
        let updated_matches = match get_balanced_round_matches_top_seed_favored(seeding.as_slice()) {
            Ok(m) => {
                proof {
                    crate::seeding::single_elimination_seeded_bracket::lemma_single_elimination_match_count(
                        seeding@,
                    );
                    let sh = single_elimination_shapes(seeding@);
                    crate::seeding::single_elimination_seeded_bracket::lemma_single_elimination_closed(
                        seeding@,
                    );
                    crate::seeding::single_elimination_seeded_bracket::lemma_fresh_matches_closed(
                        m@,
                        sh,
                    );
                }
                m
            },
            Err(e) => return Err(Error::Seeding(e)),
        };
        Ok(Self { participants: updated_players, matches: updated_matches, ..self })
    }
}

/// Identifiers listed without repetition are distinct
proof fn lemma_group_distinct(group: Seq<Player>, players: Seq<PlayerId>)
    requires
        ids_of(group) == players,
    ensures
        (forall|k: int| 0 <= k < players.len() ==> !players.take(k).contains(#[trigger] players[k]))
            ==> no_duplicates(ids_of(group)),
{
    if forall|k: int| 0 <= k < players.len() ==> !players.take(k).contains(#[trigger] players[k]) {
        assert forall|i: int, j: int| 0 <= i < j < players.len() implies players[i] != players[j] by {
            assert(players.take(j)[i] == players[i]);
            assert(!players.take(j).contains(players[j]));
        }
    }
}

} // verus!
