//! Manage matches from bracket: validation of a match result and its
//! consequences on the rest of the bracket

use crate::bracket::seeding::SeedingError;
use crate::matches::{Error as MatchError, Id as MatchId, Match};
use crate::opponent::Opponent;
use crate::player::Id as PlayerId;
use vstd::prelude::*;

verus! {

/// Error while managing matches of bracket
#[derive(Debug)]
pub enum Error {
    /// Seeding error
    Seeding(SeedingError),
    /// Cannot request information from unknown player
    PlayerIsNotParticipant(PlayerId),
    /// There is no generated matches at this time
    NoGeneratedMatches,
    /// Player has been disqualified
    Disqualified(PlayerId),
    /// Player has won the tournament and has no match left to play
    NoNextMatch(PlayerId),
    /// Player is eliminated from tournament and has no matches left to play
    Eliminated(PlayerId),
    /// Tournament is over
    TournamentIsOver,
    /// Cannot update match
    MatchUpdate(MatchError),
    /// Player is unknown in this bracket
    UnknownPlayer(PlayerId, Vec<PlayerId>),
    /// No match to play for player
    NoMatchToPlay(PlayerId),
    /// Referred match is unknown
    UnknownMatch(MatchId),
    /// Update to match could not happen
    NoMatchToUpdate(Vec<Match>, MatchId),
    /// Fordidden action because player has been disqualified
    ForbiddenDisqualified(PlayerId),
}

/// Updated matches for bracket
///
/// if applicable, the loser of updated match, the expected loser seed that
/// should be used when sending them in lower bracket and a boolean to indicate
/// if they are disqualified
pub type BracketUpdate = (Vec<Match>, Option<(PlayerId, usize, bool)>);

/// Spec form of a bracket update
pub type SpecBracketUpdate = (Seq<Match>, Option<(PlayerId, usize, bool)>);

/// Match `m` expects the player with seed `s`
pub open spec fn seeds_contain(m: Match, s: usize) -> bool {
    m.seeds[0] == s || m.seeds[1] == s
}

/// `i` is the first position of a match with identifier `id`
pub open spec fn is_first_with_id(b: Seq<Match>, id: MatchId, i: int) -> bool {
    0 <= i < b.len() && b[i].id == id && forall|k: int| 0 <= k < i ==> b[k].id != id
}

/// Some match has identifier `id`
pub open spec fn has_id(b: Seq<Match>, id: MatchId) -> bool {
    exists|i: int| 0 <= i < b.len() && b[i].id == id
}

/// First position of a match with identifier `id`
pub open spec fn first_with_id(b: Seq<Match>, id: MatchId) -> int {
    choose|i: int| is_first_with_id(b, id, i)
}

/// `j` is the first position after `i` of a match expecting seed `s`: where
/// the winner of match `i` plays next
pub open spec fn is_next_match(b: Seq<Match>, i: int, s: usize, j: int) -> bool {
    i < j < b.len() && seeds_contain(b[j], s) && forall|k: int|
        i < k < j ==> !seeds_contain(#[trigger] b[k], s)
}

/// Position of the first match of `player_id` without a winner, if any
pub fn position_of_first_pending(b: &[Match], player_id: PlayerId) -> (res: Option<usize>)
    ensures
        res is Some <==> has_pending(b@, player_id),
        res matches Some(i) ==> is_first_pending(b@, player_id, i as int) && first_pending(
            b@,
            player_id,
        ) == i,
{
    let mut i: usize = 0;
    while i < b.len()
        invariant
            i <= b@.len(),
            forall|k: int| 0 <= k < i ==> !is_pending_for(b@, player_id, k),
        decreases b@.len() - i,
    {
        if b[i].contains(player_id) && b[i].winner.is_unknown() {
            proof {
                lemma_first_pending(b@, player_id, i as int);
            }
            return Some(i);
        }
        i += 1;
    }
    None
}

/// Position of the last match of `player_id` without a winner, if any
pub fn position_of_last_pending(b: &[Match], player_id: PlayerId) -> (res: Option<usize>)
    ensures
        res is Some <==> has_pending(b@, player_id),
        res matches Some(i) ==> is_last_pending(b@, player_id, i as int) && last_pending(
            b@,
            player_id,
        ) == i,
{
    let mut i: usize = b.len();
    while i > 0
        invariant
            i <= b@.len(),
            forall|k: int| i <= k < b@.len() ==> !is_pending_for(b@, player_id, k),
        decreases i,
    {
        let k = i - 1;
        if b[k].contains(player_id) && b[k].winner.is_unknown() {
            proof {
                lemma_last_pending(b@, player_id, k as int);
            }
            return Some(k);
        }
        i = k;
    }
    None
}

/// Matches of `b` that can be played
pub fn matches_to_play_in(b: &[Match]) -> (res: Vec<Match>)
    ensures
        res@ == spec_matches_to_play(b@),
{
    let ghost pred = |m: Match| m.spec_needs_playing();
    let mut res: Vec<Match> = Vec::new();
    for i in 0..b.len()
        invariant
            res@ == b@.take(i as int).filter(pred),
            pred == (|m: Match| m.spec_needs_playing()),
    {
        proof {
            reveal_with_fuel(Seq::filter, 1);
            assert(b@.take(i + 1).drop_last() =~= b@.take(i as int));
        }
        if b[i].needs_playing() {
            res.push(b[i]);
        }
    }
    assert(b@.take(b.len() as int) =~= b@);
    res
}

/// Position of the match where the winner of match `i` plays next
pub open spec fn next_match(b: Seq<Match>, i: int) -> int {
    choose|j: int| is_next_match(b, i, b[i].seeds[0], j)
}

/// Every match but the last has a later match expecting its top seed: the
/// winner of any match has somewhere to go
pub open spec fn advancement_closed(b: Seq<Match>) -> bool {
    forall|i: int|
        #![trigger b[i]]
        0 <= i < b.len() - 1 ==> exists|j: int|
            i < j < b.len() && seeds_contain(#[trigger] b[j], b[i].seeds[0])
}

/// No two matches of `b` have the same identifier
pub open spec fn distinct_ids(b: Seq<Match>) -> bool {
    forall|i: int, j: int| 0 <= i < j < b.len() ==> (#[trigger] b[i]).id != (#[trigger] b[j]).id
}

/// Identifiers and seeds of `a` and `b` are the same, match by match
pub open spec fn same_structure(a: Seq<Match>, b: Seq<Match>) -> bool {
    a.len() == b.len() && forall|k: int|
        0 <= k < a.len() ==> (#[trigger] a[k]).id == b[k].id && a[k].seeds == b[k].seeds
}

/// Nothing decided in `a` is undone in `b`: winners and known players stay
pub open spec fn keeps_progress(a: Seq<Match>, b: Seq<Match>) -> bool {
    a.len() == b.len() && forall|k: int|
        0 <= k < a.len() ==> {
            &&& ((#[trigger] a[k]).winner is Player ==> b[k].winner == a[k].winner)
            &&& (a[k].players[0] is Player ==> b[k].players[0] == a[k].players[0])
            &&& (a[k].players[1] is Player ==> b[k].players[1] == a[k].players[1])
            &&& (a[k].automatic_loser is Player ==> b[k].automatic_loser == a[k].automatic_loser)
        }
}

/// Number of matches without a winner
pub open spec fn undecided(b: Seq<Match>) -> nat
    decreases b.len(),
{
    if b.len() == 0 {
        0
    } else {
        undecided(b.drop_last()) + if b.last().winner is Unknown {
            1nat
        } else {
            0nat
        }
    }
}

/// `k` is the first match where a disqualified player awaits the decision
pub open spec fn is_first_needing_update(b: Seq<Match>, k: int) -> bool {
    0 <= k < b.len() && b[k].spec_needs_update_for_disqualification() && forall|x: int|
        0 <= x < k ==> !(#[trigger] b[x]).spec_needs_update_for_disqualification()
}

/// Some match awaits a decision because of a disqualified player
pub open spec fn needs_resolution(b: Seq<Match>) -> bool {
    exists|k: int| 0 <= k < b.len() && (#[trigger] b[k]).spec_needs_update_for_disqualification()
}

/// Winner `w` of match `i` takes the place of their seed in their next match
pub open spec fn spec_advance(b: Seq<Match>, i: int, w: PlayerId) -> Result<Seq<Match>, MatchError> {
    let s = b[i].seeds[0];
    let j = next_match(b, i);
    match crate::matches::spec_insert_player(b[j], w, b[j].seeds[0] == s) {
        Ok(m) => Ok(b.update(j, m)),
        Err(e) => Err(e),
    }
}

/// Decide, one after the other, every match where a disqualified player
/// meets an opponent: the opponent wins and moves on. Stops after deciding
/// the last match of the bracket.
pub open spec fn spec_resolve(b: Seq<Match>) -> Result<Seq<Match>, MatchError>
    recommends
        advancement_closed(b),
    decreases undecided(b),
{
    if !needs_resolution(b) {
        Ok(b)
    } else {
        let k = choose|k: int| is_first_needing_update(b, k);
        match crate::matches::spec_update_outcome(b[k]) {
            Err(e) => Err(e),
            Ok((m, w, _)) => {
                let b1 = b.update(k, m);
                if k == b.len() - 1 {
                    Ok(b1)
                } else {
                    match spec_advance(b1, k, w) {
                        Err(e) => Err(e),
                        Ok(b2) => {
                            if is_first_needing_update(b, k) && undecided(b2) < undecided(b) {
                                spec_resolve(b2)
                            } else {
                                Ok(b2)
                            }
                        },
                    }
                }
            },
        }
    }
}

/// Validate the first match with identifier `match_id`: declare its winner,
/// move the winner to their next match, then settle the matches with a
/// disqualified player. Also returns the loser, the seed they lost with and
/// whether they were disqualified.
pub open spec fn spec_update(b: Seq<Match>, match_id: MatchId) -> Result<
    SpecBracketUpdate,
    MatchError,
> {
    let i = first_with_id(b, match_id);
    let m = b[i];
    let is_disqualified = m.automatic_loser !is Unknown;
    match crate::matches::spec_update_outcome(m) {
        Err(e) => Err(e),
        Ok((um, w, l)) => {
            let b1 = b.update(i, um);
            let info = Some((l, um.seeds[1], is_disqualified));
            if i == b.len() - 1 {
                Ok((b1, info))
            } else {
                match spec_advance(b1, i, w) {
                    Err(e) => Err(e),
                    Ok(b2) => match spec_resolve(b2) {
                        Err(e) => Err(e),
                        Ok(b3) => Ok((b3, info)),
                    },
                }
            }
        },
    }
}

/// Returns true if bracket is over
pub open spec fn spec_bracket_is_over(b: Seq<Match>) -> bool {
    forall|i: int| 0 <= i < b.len() ==> (#[trigger] b[i]).spec_is_over()
}

/// Player was disqualified in some match
pub open spec fn spec_is_disqualified(player_id: PlayerId, b: Seq<Match>) -> bool {
    exists|i: int| 0 <= i < b.len() && (#[trigger] b[i]).automatic_loser == Opponent::Player(player_id)
}

/// Matches of `b`, every match with the identifier of `m` replaced by `m`
pub open spec fn spec_update_bracket_with(b: Seq<Match>, m: Match) -> Seq<Match> {
    Seq::new(b.len(), |i: int| if b[i].id == m.id { m } else { b[i] })
}

/// Player `p` stands in some match of `b`
pub open spec fn appears(b: Seq<Match>, p: PlayerId) -> bool {
    exists|i: int| 0 <= i < b.len() && (#[trigger] b[i]).has_player(p)
}

/// Every player of `seeding` stands in some match of `b`
pub open spec fn all_placed(b: Seq<Match>, seeding: Seq<PlayerId>) -> bool {
    forall|k: int| 0 <= k < seeding.len() ==> #[trigger] appears(b, seeding[k])
}

/// Match `i` of `b` is a match of `p` without a winner
pub open spec fn is_pending_for(b: Seq<Match>, p: PlayerId, i: int) -> bool {
    0 <= i < b.len() && b[i].has_player(p) && b[i].winner is Unknown
}

/// Player `p` has a match without a winner
pub open spec fn has_pending(b: Seq<Match>, p: PlayerId) -> bool {
    exists|i: int| is_pending_for(b, p, i)
}

/// Match `i` is the first match of `p` without a winner
pub open spec fn is_first_pending(b: Seq<Match>, p: PlayerId, i: int) -> bool {
    is_pending_for(b, p, i) && forall|k: int| 0 <= k < i ==> !is_pending_for(b, p, k)
}

/// Match `i` is the last match of `p` without a winner
pub open spec fn is_last_pending(b: Seq<Match>, p: PlayerId, i: int) -> bool {
    is_pending_for(b, p, i) && forall|k: int| i < k < b.len() ==> !is_pending_for(b, p, k)
}

/// Position of the first match of `p` without a winner
pub open spec fn first_pending(b: Seq<Match>, p: PlayerId) -> int {
    choose|i: int| is_first_pending(b, p, i)
}

/// Position of the last match of `p` without a winner
pub open spec fn last_pending(b: Seq<Match>, p: PlayerId) -> int {
    choose|i: int| is_last_pending(b, p, i)
}

/// Opponent of `p` in `m` when both players are known, unknown otherwise
pub open spec fn opponent_of(m: Match, p: PlayerId) -> Opponent {
    match (m.players[0], m.players[1]) {
        (Opponent::Player(p1), Opponent::Player(p2)) => if p1 == p {
            Opponent::Player(p2)
        } else if p2 == p {
            Opponent::Player(p1)
        } else {
            Opponent::Unknown
        },
        _ => Opponent::Unknown,
    }
}

/// Matches of `b` that can be played: both players known, no winner and
/// nobody disqualified
pub open spec fn spec_matches_to_play(b: Seq<Match>) -> Seq<Match> {
    b.filter(|m: Match| m.spec_needs_playing())
}

/// Every match of `ms` can be played
pub open spec fn all_need_playing(ms: Seq<Match>) -> bool {
    forall|k: int| 0 <= k < ms.len() ==> (#[trigger] ms[k]).spec_needs_playing()
}

/// The matches to play of `b` can all be played
pub proof fn lemma_to_play_need_playing(b: Seq<Match>)
    ensures
        all_need_playing(spec_matches_to_play(b)),
{
    assert forall|k: int| 0 <= k < spec_matches_to_play(b).len() implies (#[trigger] spec_matches_to_play(
        b,
    )[k]).spec_needs_playing() by {
        b.lemma_filter_pred(|m: Match| m.spec_needs_playing(), k);
    }
}

/// Matches after validating match `match_id`; unchanged when it cannot be
/// validated
pub open spec fn spec_validated(b: Seq<Match>, match_id: MatchId) -> Seq<Match> {
    match spec_update(b, match_id) {
        Ok((b2, _)) => b2,
        Err(_) => b,
    }
}

// ---------------------------------------------------------------------------
// lemmas
// ---------------------------------------------------------------------------

proof fn lemma_undecided_update(b: Seq<Match>, i: int, m: Match)
    requires
        0 <= i < b.len(),
    ensures
        undecided(b.update(i, m)) + (if b[i].winner is Unknown { 1int } else { 0int })
            == undecided(b) + (if m.winner is Unknown { 1int } else { 0int }),
    decreases b.len(),
{
    if i == b.len() - 1 {
        assert(b.update(i, m).drop_last() =~= b.drop_last());
    } else {
        lemma_undecided_update(b.drop_last(), i, m);
        assert(b.update(i, m).drop_last() =~= b.drop_last().update(i, m));
    }
}

/// A first position with a given identifier exists as soon as the
/// identifier appears, and it is unique
pub proof fn lemma_first_with_id(b: Seq<Match>, id: MatchId, i: int)
    requires
        0 <= i < b.len(),
        b[i].id == id,
    ensures
        is_first_with_id(b, id, first_with_id(b, id)),
        first_with_id(b, id) <= i,
    decreases i,
{
    if exists|k: int| 0 <= k < i && b[k].id == id {
        let k = choose|k: int| 0 <= k < i && b[k].id == id;
        lemma_first_with_id(b, id, k);
    } else {
        assert(is_first_with_id(b, id, i));
        let f = first_with_id(b, id);
        assert(is_first_with_id(b, id, f));
    }
}

pub proof fn lemma_first_with_id_unique(b: Seq<Match>, id: MatchId, i: int)
    requires
        is_first_with_id(b, id, i),
    ensures
        first_with_id(b, id) == i,
{
    lemma_first_with_id(b, id, i);
    let f = first_with_id(b, id);
    if f < i {
        assert(b[f].id == id);
    }
}

/// The next match of `i` is the first later match expecting the seed
proof fn lemma_next_match(b: Seq<Match>, i: int, j: int)
    requires
        0 <= i < j < b.len(),
        seeds_contain(b[j], b[i].seeds[0]),
    ensures
        is_next_match(b, i, b[i].seeds[0], next_match(b, i)),
        next_match(b, i) <= j,
    decreases j - i,
{
    let s = b[i].seeds[0];
    if exists|k: int| i < k < j && seeds_contain(b[k], s) {
        let k = choose|k: int| i < k < j && seeds_contain(b[k], s);
        lemma_next_match(b, i, k);
    } else {
        assert(is_next_match(b, i, s, j));
    }
}

proof fn lemma_next_match_unique(b: Seq<Match>, i: int, j: int)
    requires
        0 <= i < b.len(),
        is_next_match(b, i, b[i].seeds[0], j),
    ensures
        next_match(b, i) == j,
{
    lemma_next_match(b, i, j);
    let f = next_match(b, i);
    if f < j {
        assert(seeds_contain(b[f], b[i].seeds[0]));
    }
}

/// The first match needing resolution exists when some match needs it
proof fn lemma_first_needing_update(b: Seq<Match>, k: int)
    requires
        0 <= k < b.len(),
        b[k].spec_needs_update_for_disqualification(),
    ensures
        exists|f: int| is_first_needing_update(b, f),
    decreases k,
{
    if exists|x: int| 0 <= x < k && (#[trigger] b[x]).spec_needs_update_for_disqualification() {
        let x = choose|x: int| 0 <= x < k && (#[trigger] b[x]).spec_needs_update_for_disqualification();
        lemma_first_needing_update(b, x);
    } else {
        assert(is_first_needing_update(b, k));
    }
}

proof fn lemma_first_needing_update_unique(b: Seq<Match>, k: int, f: int)
    requires
        is_first_needing_update(b, k),
        is_first_needing_update(b, f),
    ensures
        k == f,
{
    if k < f {
        assert(b[k].spec_needs_update_for_disqualification());
    }
    if f < k {
        assert(b[f].spec_needs_update_for_disqualification());
    }
}

/// Updating a match without touching its identifier or seeds keeps the
/// structure of the bracket
pub proof fn lemma_update_same_structure(b: Seq<Match>, i: int, m: Match)
    requires
        0 <= i < b.len(),
        m.id == b[i].id,
        m.seeds == b[i].seeds,
    ensures
        same_structure(b, b.update(i, m)),
        advancement_closed(b) ==> advancement_closed(b.update(i, m)),
{
    let u = b.update(i, m);
    if advancement_closed(b) {
        assert forall|x: int| #![trigger u[x]] 0 <= x < u.len() - 1 implies exists|j: int|
            x < j < u.len() && seeds_contain(#[trigger] u[j], u[x].seeds[0]) by {
            let j = choose|j: int| x < j < b.len() && seeds_contain(#[trigger] b[j], b[x].seeds[0]);
            assert(seeds_contain(u[j], u[x].seeds[0]));
        }
    }
}

pub proof fn lemma_same_structure_transitive(a: Seq<Match>, b: Seq<Match>, c: Seq<Match>)
    requires
        same_structure(a, b),
        same_structure(b, c),
    ensures
        same_structure(a, c),
{
    assert forall|k: int| 0 <= k < a.len() implies (#[trigger] a[k]).id == c[k].id && a[k].seeds
        == c[k].seeds by {
        assert(a[k].id == b[k].id);
    }
}

proof fn lemma_keeps_progress_transitive(a: Seq<Match>, b: Seq<Match>, c: Seq<Match>)
    requires
        keeps_progress(a, b),
        keeps_progress(b, c),
    ensures
        keeps_progress(a, c),
{
    assert forall|k: int| 0 <= k < a.len() implies {
        &&& ((#[trigger] a[k]).winner is Player ==> c[k].winner == a[k].winner)
        &&& (a[k].players[0] is Player ==> c[k].players[0] == a[k].players[0])
        &&& (a[k].players[1] is Player ==> c[k].players[1] == a[k].players[1])
        &&& (a[k].automatic_loser is Player ==> c[k].automatic_loser == a[k].automatic_loser)
    } by {
        assert(b[k] == b[k]);
    }
}

proof fn lemma_keeps_progress_refl(a: Seq<Match>)
    ensures
        keeps_progress(a, a),
{
}

/// Declaring the outcome of a match keeps its identifier, seeds and players,
/// and only decides a match that was undecided
proof fn lemma_outcome_shape(m: Match)
    requires
        crate::matches::spec_update_outcome(m) is Ok,
    ensures
        ({
            let (um, w, l) = crate::matches::spec_update_outcome(m)->Ok_0;
            &&& um == m.with_winner(w)
            &&& m.both_present()
            &&& (crate::matches::is_player(m.players[0], w) && crate::matches::is_player(m.players[1], l)) || (crate::matches::is_player(
                m.players[1],
                w,
            ) && crate::matches::is_player(m.players[0], l))
        }),
{
}

/// Advancing a winner keeps the structure and the progress of the bracket
proof fn lemma_advance(b: Seq<Match>, i: int, w: PlayerId)
    requires
        0 <= i < b.len() - 1,
        advancement_closed(b),
    ensures
        ({
            let j = next_match(b, i);
            &&& is_next_match(b, i, b[i].seeds[0], j)
            &&& spec_advance(b, i, w) matches Ok(b2) ==> {
                &&& same_structure(b, b2)
                &&& keeps_progress(b, b2)
                &&& advancement_closed(b2)
                &&& undecided(b2) == undecided(b)
                &&& b2[j].players[if b[j].seeds[0] == b[i].seeds[0] {
                    0int
                } else {
                    1int
                }] == Opponent::Player(w)
                &&& forall|k: int| 0 <= k < b.len() && k != j ==> b2[k] == b[k]
            }
        }),
{
    let s = b[i].seeds[0];
    let x = choose|x: int| i < x < b.len() && seeds_contain(#[trigger] b[x], b[i].seeds[0]);
    lemma_next_match(b, i, x);
    let j = next_match(b, i);
    if let Ok(m) = crate::matches::spec_insert_player(b[j], w, b[j].seeds[0] == s) {
        lemma_update_same_structure(b, j, m);
        lemma_undecided_update(b, j, m);
        assert(keeps_progress(b, b.update(j, m)));
    }
}

/// Settling the matches with disqualified players keeps the structure and
/// the progress of the bracket
proof fn lemma_resolve(b: Seq<Match>)
    requires
        advancement_closed(b),
    ensures
        spec_resolve(b) matches Ok(b2) ==> same_structure(b, b2) && keeps_progress(b, b2)
            && advancement_closed(b2),
    decreases undecided(b),
{
    if needs_resolution(b) {
        let k0 = choose|k: int| 0 <= k < b.len() && (#[trigger] b[k]).spec_needs_update_for_disqualification();
        lemma_first_needing_update(b, k0);
        let k = choose|k: int| is_first_needing_update(b, k);
        if let Ok((m, w, l)) = crate::matches::spec_update_outcome(b[k]) {
            lemma_outcome_shape(b[k]);
            let b1 = b.update(k, m);
            lemma_update_same_structure(b, k, m);
            lemma_undecided_update(b, k, m);
            assert(keeps_progress(b, b1));
            if k != b.len() - 1 {
                lemma_advance(b1, k, w);
                if let Ok(b2) = spec_advance(b1, k, w) {
                    lemma_same_structure_transitive(b, b1, b2);
                    lemma_keeps_progress_transitive(b, b1, b2);
                    if undecided(b2) < undecided(b) {
                        lemma_resolve(b2);
                        if let Ok(b3) = spec_resolve(b2) {
                            lemma_same_structure_transitive(b, b2, b3);
                            lemma_keeps_progress_transitive(b, b2, b3);
                        }
                    }
                }
            }
        }
    }
}

/// Validating a match never changes the structure of the bracket (identifiers
/// and seeds), never undoes a result, declares the winner of the validated
/// match and places them in the next match that expects their seed
pub proof fn lemma_update_keeps_structure_and_progress(b: Seq<Match>, match_id: MatchId)
    requires
        has_id(b, match_id),
        advancement_closed(b),
    ensures
        spec_update(b, match_id) matches Ok((b2, info)) ==> {
            let i = first_with_id(b, match_id);
            let (_, w, l) = crate::matches::spec_update_outcome(b[i])->Ok_0;
            &&& same_structure(b, b2)
            &&& keeps_progress(b.update(i, b[i].with_winner(w)), b2)
            &&& advancement_closed(b2)
            &&& b2[i].winner == Opponent::Player(w)
            &&& info == Some((l, b[i].seeds[1], b[i].automatic_loser !is Unknown))
            &&& i < b.len() - 1 ==> {
                let j = next_match(b, i);
                &&& is_next_match(b, i, b[i].seeds[0], j)
                &&& b2[j].players[if b[j].seeds[0] == b[i].seeds[0] {
                    0int
                } else {
                    1int
                }] == Opponent::Player(w)
            }
        },
{
    let x = choose|x: int| 0 <= x < b.len() && b[x].id == match_id;
    lemma_first_with_id(b, match_id, x);
    let i = first_with_id(b, match_id);
    if let Ok((um, w, l)) = crate::matches::spec_update_outcome(b[i]) {
        lemma_outcome_shape(b[i]);
        let b1 = b.update(i, um);
        lemma_update_same_structure(b, i, um);
        lemma_keeps_progress_refl(b1);
        if i != b.len() - 1 {
            lemma_advance(b1, i, w);
            let y = choose|y: int| i < y < b.len() && seeds_contain(#[trigger] b[y], b[i].seeds[0]);
            lemma_next_match(b, i, y);
            lemma_next_match(b1, i, y);
            let j = next_match(b, i);
            assert(is_next_match(b1, i, b1[i].seeds[0], j));
            lemma_next_match_unique(b1, i, j);
            if let Ok(b2) = spec_advance(b1, i, w) {
                lemma_same_structure_transitive(b, b1, b2);
                lemma_resolve(b2);
                if let Ok(b3) = spec_resolve(b2) {
                    lemma_same_structure_transitive(b, b2, b3);
                    lemma_keeps_progress_transitive(b1, b2, b3);
                    assert(b2[i].winner is Player);
                    assert(b2[j].players[if b[j].seeds[0] == b[i].seeds[0] {
                        0int
                    } else {
                        1int
                    }] is Player);
                }
            }
        }
    }
}

/// Settling the matches with disqualified players leaves none waiting: no
/// match is left where a disqualified player meets a known opponent without
/// a winner
pub proof fn lemma_resolve_settles(b: Seq<Match>)
    requires
        advancement_closed(b),
    ensures
        spec_resolve(b) matches Ok(b2) ==> !needs_resolution(b2),
    decreases undecided(b),
{
    if needs_resolution(b) {
        let k0 = choose|k: int| 0 <= k < b.len() && (#[trigger] b[k]).spec_needs_update_for_disqualification();
        lemma_first_needing_update(b, k0);
        let k = choose|k: int| is_first_needing_update(b, k);
        if let Ok((m, w, l)) = crate::matches::spec_update_outcome(b[k]) {
            lemma_outcome_shape(b[k]);
            let b1 = b.update(k, m);
            lemma_update_same_structure(b, k, m);
            lemma_undecided_update(b, k, m);
            if k == b.len() - 1 {
                assert forall|x: int| 0 <= x < b1.len() implies !(
                #[trigger] b1[x]).spec_needs_update_for_disqualification() by {
                    if x < k {
                        assert(b1[x] == b[x]);
                    }
                }
            } else {
                lemma_same_structure_closed(b, b1);
                lemma_advance(b1, k, w);
                if let Ok(b2) = spec_advance(b1, k, w) {
                    assert(undecided(b2) < undecided(b));
                    lemma_resolve_settles(b2);
                }
            }
        }
    }
}

/// Validating a match of a bracket where nothing waits on a disqualified
/// player leaves nothing waiting either: when the update succeeds, no match
/// is left where a disqualified player meets a known opponent without a
/// winner
pub proof fn lemma_update_settles(b: Seq<Match>, match_id: MatchId)
    requires
        has_id(b, match_id),
        advancement_closed(b),
        !needs_resolution(b),
    ensures
        spec_update(b, match_id) matches Ok((b2, _)) ==> !needs_resolution(b2),
{
    let x = choose|x: int| 0 <= x < b.len() && b[x].id == match_id;
    lemma_first_with_id(b, match_id, x);
    let i = first_with_id(b, match_id);
    if let Ok((um, w, l)) = crate::matches::spec_update_outcome(b[i]) {
        lemma_outcome_shape(b[i]);
        let b1 = b.update(i, um);
        lemma_update_same_structure(b, i, um);
        if i == b.len() - 1 {
            assert forall|y: int| 0 <= y < b1.len() implies !(
            #[trigger] b1[y]).spec_needs_update_for_disqualification() by {
                if y != i {
                    assert(b1[y] == b[y]);
                }
            }
        } else {
            lemma_same_structure_closed(b, b1);
            lemma_advance(b1, i, w);
            if let Ok(b2) = spec_advance(b1, i, w) {
                lemma_resolve_settles(b2);
            }
        }
    }
}

/// The first pending match of a player is unique
pub proof fn lemma_first_pending(b: Seq<Match>, p: PlayerId, i: int)
    requires
        is_first_pending(b, p, i),
    ensures
        first_pending(b, p) == i,
{
    let f = first_pending(b, p);
    assert(is_first_pending(b, p, f));
    if f < i {
        assert(!is_pending_for(b, p, f));
    }
    if i < f {
        assert(!is_pending_for(b, p, i));
    }
}

/// The last pending match of a player is unique
pub proof fn lemma_last_pending(b: Seq<Match>, p: PlayerId, i: int)
    requires
        is_last_pending(b, p, i),
    ensures
        last_pending(b, p) == i,
{
    let f = last_pending(b, p);
    assert(is_last_pending(b, p, f));
    if f < i {
        assert(!is_pending_for(b, p, i));
    }
    if i < f {
        assert(!is_pending_for(b, p, f));
    }
}

/// Matches with the same identifiers, match by match, keep them distinct
pub proof fn lemma_same_structure_distinct(a: Seq<Match>, b: Seq<Match>)
    requires
        same_structure(a, b),
        distinct_ids(a),
    ensures
        distinct_ids(b),
{
    assert forall|i: int, j: int| 0 <= i < j < b.len() implies (#[trigger] b[i]).id != (
    #[trigger] b[j]).id by {
        assert(a[i].id == b[i].id);
        assert(a[j].id == b[j].id);
    }
}

/// Brackets with the same identifiers and seeds give every winner a next
/// match alike
pub proof fn lemma_same_structure_closed(a: Seq<Match>, b: Seq<Match>)
    requires
        same_structure(a, b),
        advancement_closed(a),
    ensures
        advancement_closed(b),
        distinct_ids(a) ==> distinct_ids(b),
{
    if distinct_ids(a) {
        assert forall|i: int, j: int| 0 <= i < j < b.len() implies (#[trigger] b[i]).id != (
        #[trigger] b[j]).id by {
            assert(a[i].id == b[i].id);
            assert(a[j].id == b[j].id);
        }
    }
    assert forall|x: int| #![trigger b[x]] 0 <= x < b.len() - 1 implies exists|j: int|
        x < j < b.len() && seeds_contain(#[trigger] b[j], b[x].seeds[0]) by {
        assert(a[x].seeds == b[x].seeds);
        let j = choose|j: int| x < j < a.len() && seeds_contain(#[trigger] a[j], a[x].seeds[0]);
        assert(a[j].seeds == b[j].seeds);
        assert(seeds_contain(b[j], b[x].seeds[0]));
    }
}

/// Changing a match without touching its players keeps every player placed
pub proof fn lemma_placed_after_update(b: Seq<Match>, seeding: Seq<PlayerId>, i: int, m: Match)
    requires
        0 <= i < b.len(),
        m.players == b[i].players,
        all_placed(b, seeding),
    ensures
        all_placed(b.update(i, m), seeding),
{
    let u = b.update(i, m);
    assert forall|k: int| 0 <= k < seeding.len() implies #[trigger] appears(u, seeding[k]) by {
        assert(appears(b, seeding[k]));
        let x = choose|x: int| 0 <= x < b.len() && (#[trigger] b[x]).has_player(seeding[k]);
        assert(u[x].has_player(seeding[k]));
    }
}

/// Progress keeps every player placed
pub proof fn lemma_placed_with_progress(a: Seq<Match>, b: Seq<Match>, seeding: Seq<PlayerId>)
    requires
        keeps_progress(a, b),
        all_placed(a, seeding),
    ensures
        all_placed(b, seeding),
{
    assert forall|k: int| 0 <= k < seeding.len() implies #[trigger] appears(b, seeding[k]) by {
        assert(appears(a, seeding[k]));
        let x = choose|x: int| 0 <= x < a.len() && (#[trigger] a[x]).has_player(seeding[k]);
        assert(a[x] == a[x]);
        assert(b[x].has_player(seeding[k]));
    }
}

/// Validating a match keeps the structure of the bracket and every player
/// placed
pub proof fn lemma_validated(b: Seq<Match>, match_id: MatchId, seeding: Seq<PlayerId>)
    requires
        has_id(b, match_id),
        advancement_closed(b),
    ensures
        advancement_closed(spec_validated(b, match_id)),
        same_structure(b, spec_validated(b, match_id)),
        all_placed(b, seeding) ==> all_placed(spec_validated(b, match_id), seeding),
{
    lemma_update_keeps_structure_and_progress(b, match_id);
    if let Ok((b2, _)) = spec_update(b, match_id) {
        let i = first_with_id(b, match_id);
        let (_, w, _) = crate::matches::spec_update_outcome(b[i])->Ok_0;
        if all_placed(b, seeding) {
            lemma_first_with_id(b, match_id, choose|x: int| 0 <= x < b.len() && b[x].id == match_id);
            lemma_placed_after_update(b, seeding, i, b[i].with_winner(w));
            lemma_placed_with_progress(b.update(i, b[i].with_winner(w)), b2, seeding);
        }
    }
}

// ---------------------------------------------------------------------------
// executable functions
// ---------------------------------------------------------------------------

/// Returns true if bracket is over
pub fn bracket_is_over(bracket_matches: &[Match]) -> (res: bool)
    ensures
        res == spec_bracket_is_over(bracket_matches@),
{
    let mut i: usize = 0;
    while i < bracket_matches.len()
        invariant
            i <= bracket_matches@.len(),
            forall|k: int| 0 <= k < i ==> (#[trigger] bracket_matches@[k]).spec_is_over(),
        decreases bracket_matches@.len() - i,
    {
        if !bracket_matches[i].is_over() {
            return false;
        }
        i += 1;
    }
    true
}

/// Returns true when `player_id` has been disqualified by looking into all
/// `matches` in the bracket
pub fn is_disqualified(player_id: PlayerId, matches: &[Match]) -> (res: bool)
    ensures
        res == spec_is_disqualified(player_id, matches@),
{
    let mut i: usize = 0;
    while i < matches.len()
        invariant
            i <= matches@.len(),
            forall|k: int|
                0 <= k < i ==> (#[trigger] matches@[k]).automatic_loser != Opponent::Player(
                    player_id,
                ),
        decreases matches@.len() - i,
    {
        if matches[i].is_automatic_loser_by_disqualification(player_id) {
            return true;
        }
        i += 1;
    }
    false
}

/// Update `bracket` with `updated_match`: every match with the identifier of
/// `updated_match` is replaced by it
pub fn update_bracket_with(bracket: &[Match], updated_match: &Match) -> (res: Vec<Match>)
    ensures
        res@ == spec_update_bracket_with(bracket@, *updated_match),
{
    let mut res: Vec<Match> = Vec::new();
    for i in 0..bracket.len()
        invariant
            res@ =~= spec_update_bracket_with(bracket@, *updated_match).take(i as int),
    {
        if bracket[i].id == updated_match.id {
            res.push(*updated_match);
        } else {
            res.push(bracket[i]);
        }
        assert(res@ =~= spec_update_bracket_with(bracket@, *updated_match).take(i + 1));
    }
    res
}

/// Copy of `matches`
pub fn copy_matches(matches: &[Match]) -> (res: Vec<Match>)
    ensures
        res@ == matches@,
{
    let mut res: Vec<Match> = Vec::new();
    for i in 0..matches.len()
        invariant
            res@ == matches@.take(i as int),
    {
        res.push(matches[i]);
        assert(res@ =~= matches@.take(i + 1));
    }
    assert(matches@.take(matches.len() as int) =~= matches@);
    res
}

/// Matches of `ms` from position `from` to position `to` (excluded)
pub fn matches_range(ms: &[Match], from: usize, to: usize) -> (res: Vec<Match>)
    requires
        from <= to <= ms@.len(),
    ensures
        res@ == ms@.subrange(from as int, to as int),
{
    let mut res: Vec<Match> = Vec::new();
    let mut i = from;
    while i < to
        invariant
            from <= i <= to <= ms@.len(),
            res@ == ms@.subrange(from as int, i as int),
        decreases to - i,
    {
        res.push(ms[i]);
        assert(res@ =~= ms@.subrange(from as int, i + 1));
        i += 1;
    }
    res
}

/// Position of the first match with identifier `id`, if any
pub fn position_of_match(bracket: &[Match], id: MatchId) -> (res: Option<usize>)
    ensures
        res is Some <==> has_id(bracket@, id),
        res matches Some(i) ==> is_first_with_id(bracket@, id, i as int),
{
    let mut i: usize = 0;
    while i < bracket.len()
        invariant
            i <= bracket@.len(),
            forall|k: int| 0 <= k < i ==> bracket@[k].id != id,
        decreases bracket@.len() - i,
    {
        if bracket[i].id == id {
            return Some(i);
        }
        i += 1;
    }
    None
}

/// Position of the match where the winner of match `i` plays next
pub(crate) fn position_of_next_match(bracket: &Vec<Match>, i: usize) -> (j: usize)
    requires
        i < bracket@.len() - 1,
        advancement_closed(bracket@),
    ensures
        j == next_match(bracket@, i as int),
        is_next_match(bracket@, i as int, bracket@[i as int].seeds[0], j as int),
{
    let ghost b = bracket@;
    let s = bracket[i].seeds[0];
    let n = bracket.len();
    proof {
        let x = choose|x: int| i < x < b.len() && seeds_contain(#[trigger] b[x], b[i as int].seeds[0]);
        lemma_next_match(b, i as int, x);
    }
    let mut j = i + 1;
    while j < bracket.len()
        invariant
            i < j <= bracket@.len(),
            s == bracket@[i as int].seeds[0],
            b == bracket@,
            is_next_match(b, i as int, s, next_match(b, i as int)),
            j <= next_match(b, i as int),
            forall|k: int| i < k < j ==> !seeds_contain(#[trigger] b[k], s),
        decreases bracket@.len() - j,
    {
        if bracket[j].seeds[0] == s || bracket[j].seeds[1] == s {
            proof {
                lemma_next_match_unique(b, i as int, j as int);
            }
            return j;
        }
        j += 1;
    }
    proof {
        assert(false);
    }
    0
}

/// Winner `winner` of match `i` takes the place of their seed in their next
/// match
fn advance(bracket: Vec<Match>, i: usize, winner: PlayerId) -> (res: Result<Vec<Match>, MatchError>)
    requires
        i < bracket@.len() - 1,
        advancement_closed(bracket@),
    ensures
        res matches Ok(v) ==> spec_advance(bracket@, i as int, winner) == Ok::<Seq<Match>, MatchError>(v@),
        res matches Err(e) ==> spec_advance(bracket@, i as int, winner) == Err::<Seq<Match>, MatchError>(e),
{
    let j = position_of_next_match(&bracket, i);
    let s = bracket[i].seeds[0];
    let m = bracket[j];
    let updated = m.insert_player(winner, m.seeds[0] == s)?;
    let mut bracket = bracket;
    bracket.set(j, updated);
    Ok(bracket)
}

/// Position of the first match where a disqualified player awaits the
/// decision, if any
fn position_needing_update(bracket: &Vec<Match>) -> (res: Option<usize>)
    ensures
        res is Some <==> needs_resolution(bracket@),
        res matches Some(k) ==> is_first_needing_update(bracket@, k as int),
{
    let mut k: usize = 0;
    while k < bracket.len()
        invariant
            k <= bracket@.len(),
            forall|x: int|
                0 <= x < k ==> !(#[trigger] bracket@[x]).spec_needs_update_for_disqualification(),
        decreases bracket@.len() - k,
    {
        if bracket[k].needs_update_because_of_disqualified_participant() {
            return Some(k);
        }
        k += 1;
    }
    None
}

/// Settle every match where a disqualified player meets an opponent
fn resolve(bracket: Vec<Match>) -> (res: Result<Vec<Match>, MatchError>)
    requires
        advancement_closed(bracket@),
    ensures
        res matches Ok(v) ==> spec_resolve(bracket@) == Ok::<Seq<Match>, MatchError>(v@),
        res matches Err(e) ==> spec_resolve(bracket@) == Err::<Seq<Match>, MatchError>(e),
    decreases undecided(bracket@),
{
    let ghost b = bracket@;
    let k = match position_needing_update(&bracket) {
        None => return Ok(bracket),
        Some(k) => k,
    };
    proof {
        let f = choose|f: int| is_first_needing_update(b, f);
        lemma_first_needing_update_unique(b, k as int, f);
    }
    let (m, w, _l) = bracket[k].update_outcome()?;
    proof {
        lemma_outcome_shape(b[k as int]);
        lemma_update_same_structure(b, k as int, m);
        lemma_undecided_update(b, k as int, m);
    }
    let mut bracket = bracket;
    bracket.set(k, m);
    if k == bracket.len() - 1 {
        return Ok(bracket);
    }
    let ghost b1 = bracket@;
    let b2 = advance(bracket, k, w)?;
    proof {
        lemma_advance(b1, k as int, w);
    }
    resolve(b2)
}

/// Takes matches in bracket, validate `match_id` and returns updated
/// bracket, id of loser (if there is one), the seed to use when placing them
/// in loser's bracket (if there is one) and whether this player is
/// disqualified. Match identifiers are distinct, so that every update
/// applies to the one match with a given identifier.
///
/// # Errors
/// thrown when the match cannot be decided or a player cannot take their
/// next place
pub fn update(bracket_matches: &[Match], match_id: MatchId) -> (res: Result<BracketUpdate, Error>)
    requires
        has_id(bracket_matches@, match_id),
        advancement_closed(bracket_matches@),
        distinct_ids(bracket_matches@),
    ensures
        res matches Ok((v, info)) ==> spec_update(bracket_matches@, match_id) == Ok::<
            SpecBracketUpdate,
            MatchError,
        >((v@, info)),
        res matches Err(e) ==> e matches Error::MatchUpdate(me) && spec_update(
            bracket_matches@,
            match_id,
        ) == Err::<SpecBracketUpdate, MatchError>(me),
{
    let ghost b = bracket_matches@;
    let i = match position_of_match(bracket_matches, match_id) {
        Some(i) => i,
        None => {
            proof {
                assert(false);
            }
            return Err(Error::UnknownMatch(match_id));
        },
    };
    proof {
        lemma_first_with_id_unique(b, match_id, i as int);
    }
    let m = bracket_matches[i];
    let is_disqualified = !m.automatic_loser.is_unknown();
    let (updated_m, winner, loser) = match m.update_outcome() {
        Ok(t) => t,
        Err(e) => return Err(Error::MatchUpdate(e)),
    };
    proof {
        lemma_outcome_shape(m);
        lemma_update_same_structure(b, i as int, updated_m);
    }
    let expected_loser_seed = updated_m.seeds[1];
    let mut bracket = copy_matches(bracket_matches);
    bracket.set(i, updated_m);
    let info = Some((loser, expected_loser_seed, is_disqualified));
    if i == bracket.len() - 1 {
        return Ok((bracket, info));
    }
    let ghost b1 = bracket@;
    let b2 = match advance(bracket, i, winner) {
        Ok(b2) => b2,
        Err(e) => return Err(Error::MatchUpdate(e)),
    };
    proof {
        lemma_advance(b1, i as int, winner);
    }
    match resolve(b2) {
        Ok(b3) => Ok((b3, info)),
        Err(e) => Err(Error::MatchUpdate(e)),
    }
}

/// Matches `ms` with the identifiers `ids`, one for one
pub open spec fn with_ids(ms: Seq<Match>, ids: Seq<MatchId>) -> Seq<Match> {
    Seq::new(ms.len(), |i: int| Match { id: ids[i], ..ms[i] })
}

/// Whether no identifier comes twice in `ids`
pub fn ids_are_distinct(ids: &[MatchId]) -> (res: bool)
    ensures
        res == crate::player::no_duplicates(ids@),
{
    let mut i: usize = 0;
    while i < ids.len()
        invariant
            i <= ids@.len(),
            forall|x: int, y: int| 0 <= x < y < ids@.len() && x < i ==> ids@[x] != ids@[y],
        decreases ids@.len() - i,
    {
        let mut j: usize = i + 1;
        while j < ids.len()
            invariant
                i < j <= ids@.len(),
                forall|x: int, y: int| 0 <= x < y < ids@.len() && x < i ==> ids@[x] != ids@[y],
                forall|y: int| i < y < j ==> ids@[i as int] != ids@[y],
            decreases ids@.len() - j,
        {
            if ids[i] == ids[j] {
                return false;
            }
            j += 1;
        }
        i += 1;
    }
    true
}

/// Matches `ms` with the identifiers `ids`, one for one, when no identifier
/// comes twice; nothing otherwise
pub fn assign_ids(ms: Vec<Match>, ids: &[MatchId]) -> (res: Option<Vec<Match>>)
    requires
        ms@.len() == ids@.len(),
    ensures
        res is Some <==> crate::player::no_duplicates(ids@),
        res matches Some(v) ==> v@ == with_ids(ms@, ids@) && distinct_ids(v@),
{
    if !ids_are_distinct(ids) {
        return None;
    }
    let mut v: Vec<Match> = Vec::new();
    let mut i: usize = 0;
    while i < ms.len()
        invariant
            ms@.len() == ids@.len(),
            i <= ms@.len(),
            v@ == with_ids(ms@, ids@).take(i as int),
        decreases ms@.len() - i,
    {
        v.push(Match { id: ids[i], ..ms[i] });
        assert(v@ =~= with_ids(ms@, ids@).take(i + 1));
        i += 1;
    }
    assert(v@ =~= with_ids(ms@, ids@));
    assert forall|x: int, y: int| 0 <= x < y < v@.len() implies (#[trigger] v@[x]).id != (
    #[trigger] v@[y]).id by {
        assert(v@[x].id == ids@[x]);
        assert(v@[y].id == ids@[y]);
    }
    Some(v)
}

/// Whether no two matches of `ms` have the same identifier
pub fn has_distinct_ids(ms: &[Match]) -> (res: bool)
    ensures
        res == distinct_ids(ms@),
{
    let mut i: usize = 0;
    while i < ms.len()
        invariant
            i <= ms@.len(),
            forall|x: int, y: int| 0 <= x < y < ms@.len() && x < i ==> ms@[x].id != ms@[y].id,
        decreases ms@.len() - i,
    {
        let mut j: usize = i + 1;
        while j < ms.len()
            invariant
                i < j <= ms@.len(),
                forall|x: int, y: int| 0 <= x < y < ms@.len() && x < i ==> ms@[x].id != ms@[y].id,
                forall|y: int| i < y < j ==> ms@[i as int].id != ms@[y].id,
            decreases ms@.len() - j,
        {
            if ms[i].id == ms[j].id {
                assert(!distinct_ids(ms@)) by {
                    assert(ms@[i as int].id == ms@[j as int].id);
                }
                return false;
            }
            j += 1;
        }
        i += 1;
    }
    true
}

/// A match after match `i` of `b` expects its top seed
pub open spec fn winner_has_next_match(b: Seq<Match>, i: int) -> bool {
    exists|j: int| i < j < b.len() && seeds_contain(#[trigger] b[j], b[i].seeds[0])
}

/// Whether a match after match `i` of `ms` expects its top seed
fn has_later_match_for(ms: &[Match], i: usize) -> (res: bool)
    requires
        i < ms@.len(),
    ensures
        res == winner_has_next_match(ms@, i as int),
{
    let s = ms[i].seeds[0];
    let mut j: usize = i + 1;
    while j < ms.len()
        invariant
            i < j <= ms@.len(),
            s == ms@[i as int].seeds[0],
            forall|x: int| i < x < j ==> !seeds_contain(#[trigger] ms@[x], s),
        decreases ms@.len() - j,
    {
        if ms[j].seeds[0] == s || ms[j].seeds[1] == s {
            assert(seeds_contain(ms@[j as int], s));
            return true;
        }
        j += 1;
    }
    false
}

/// Matches where every winner but the last has a next match are closed
proof fn lemma_closed_when_winners_go_on(b: Seq<Match>)
    requires
        forall|k: int| 0 <= k < b.len() - 1 ==> #[trigger] winner_has_next_match(b, k),
    ensures
        advancement_closed(b),
{
    assert forall|x: int| #![trigger b[x]] 0 <= x < b.len() - 1 implies exists|j: int|
        x < j < b.len() && seeds_contain(#[trigger] b[j], b[x].seeds[0]) by {
        assert(winner_has_next_match(b, x));
        let j = choose|j: int| x < j < b.len() && seeds_contain(#[trigger] b[j], b[x].seeds[0]);
        assert(seeds_contain(b[j], b[x].seeds[0]));
    }
}

/// Whether every match of `ms` but the last has a later match expecting its
/// top seed
pub(crate) fn is_advancement_closed(ms: &[Match]) -> (res: bool)
    ensures
        res == advancement_closed(ms@),
{
    if ms.len() == 0 {
        return true;
    }
    let last = ms.len() - 1;
    let mut i: usize = 0;
    while i < last
        invariant
            ms@.len() >= 1,
            last == ms@.len() - 1,
            i <= last,
            forall|k: int| 0 <= k < i ==> #[trigger] winner_has_next_match(ms@, k),
        decreases ms@.len() - i,
    {
        if !has_later_match_for(ms, i) {
            assert(ms@[i as int] == ms@[i as int]);
            return false;
        }
        i += 1;
    }
    proof {
        lemma_closed_when_winners_go_on(ms@);
    }
    true
}

} // verus!
