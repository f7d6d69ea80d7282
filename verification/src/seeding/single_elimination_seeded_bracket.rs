//! Generate seeded matches for single elimination

use crate::bracket::seeding::Seeding;
use crate::matches::{Error as MatchError, Id as MatchId, Match, MatchPlayers, Seeds};
use crate::opponent::Opponent;
use crate::player::Id as PlayerId;
use crate::seeding::Error as SeedingError;
use vstd::prelude::*;

verus! {

/// Single elimination bracket match generation errors
#[derive(Debug)]
pub enum SingleEliminationBracketMatchGenerationError {
    /// Math overflow. If you are running a tournament with actual player that
    /// big, then congrats. If that error stops you from doing some simulation,
    /// PR are welcomed.
    UnrecoverableMathOverflow,
    /// Cannot create match
    UnrecoverableMatchError(MatchError),
}

/// Players and seeds of a match
pub type MatchShape = (MatchPlayers, Seeds);

/// Smallest power of two that is at least `n`, searching from `p` upwards
pub open spec fn npo2_from(n: nat, p: nat) -> nat
    decreases (if p >= n { 0 } else { n - p }),
{
    if p == 0 || p >= n {
        p
    } else {
        npo2_from(n, 2 * p)
    }
}

/// Smallest power of two that is at least `n` (1 for 0)
pub open spec fn next_power_of_two(n: nat) -> nat {
    npo2_from(n, 1)
}

/// Player with seed `s` when they skip the first round (`s <= byes`),
/// unknown otherwise
pub open spec fn bye_slot(seeding: Seq<PlayerId>, byes: int, s: int) -> Opponent {
    if 1 <= s <= byes {
        Opponent::Player(seeding[s - 1])
    } else {
        Opponent::Unknown
    }
}

/// Matches of the round with `r` players in a bracket of size `p` (a power
/// of two): the first round only has the players without a bye, top seed
/// against bottom seed; in the second round the players with a bye are
/// already placed; later rounds are empty. In every round seed `k` meets
/// seed `r + 1 - k`.
pub open spec fn round_shapes(seeding: Seq<PlayerId>, p: int, r: int) -> Seq<MatchShape> {
    let n = seeding.len() as int;
    let byes = p - n;
    if r == p {
        Seq::new(
            (p / 2 - byes) as nat,
            |t: int|
                {
                    let k = byes + 1 + t;
                    (
                        [Opponent::Player(seeding[k - 1]), Opponent::Player(seeding[n - 1 - t])],
                        [k as usize, (p + 1 - k) as usize],
                    )
                },
        )
    } else if r == p / 2 {
        Seq::new(
            (r / 2) as nat,
            |t: int|
                {
                    let k = t + 1;
                    (
                        [bye_slot(seeding, byes, k), bye_slot(seeding, byes, r + 1 - k)],
                        [k as usize, (r + 1 - k) as usize],
                    )
                },
        )
    } else {
        Seq::new(
            (r / 2) as nat,
            |t: int| ([Opponent::Unknown, Opponent::Unknown], [(t + 1) as usize, (r - t) as usize]),
        )
    }
}

/// Matches of all rounds from the round with `r` players to the final
pub open spec fn shapes_from(seeding: Seq<PlayerId>, p: int, r: int) -> Seq<MatchShape>
    decreases r,
{
    if r <= 1 {
        Seq::empty()
    } else {
        round_shapes(seeding, p, r) + shapes_from(seeding, p, r / 2)
    }
}

/// Matches of a single elimination bracket for `seeding`, round by round
pub open spec fn single_elimination_shapes(seeding: Seq<PlayerId>) -> Seq<MatchShape> {
    let p = next_power_of_two(seeding.len()) as int;
    shapes_from(seeding, p, p)
}

/// `ms` are fresh matches (no result yet) laid out as `shapes`
pub open spec fn fresh_matches_with_shapes(ms: Seq<Match>, shapes: Seq<MatchShape>) -> bool {
    ms.len() == shapes.len() && forall|i: int|
        0 <= i < ms.len() ==> #[trigger] ms[i] == crate::matches::fresh_match(
            ms[i].id,
            shapes[i].0,
            shapes[i].1,
        )
}

/// `p` is a power of two
pub open spec fn is_pow2(p: nat) -> bool
    decreases p,
{
    if p <= 1 {
        p == 1
    } else {
        p % 2 == 0 && is_pow2(p / 2)
    }
}

pub(crate) proof fn lemma_npo2_from_grows(n: nat, p: nat)
    requires
        p >= 1,
    ensures
        npo2_from(n, p) >= p,
    decreases (if p >= n { 0 } else { n - p }),
{
    if p < n {
        lemma_npo2_from_grows(n, 2 * p);
    }
}

pub(crate) proof fn lemma_pow2_double(p: nat)
    requires
        is_pow2(p),
    ensures
        is_pow2(2 * p),
{
    assert((2 * p) / 2 == p);
}

/// A match after the one at `i` expects the top seed of the match at `i`
pub open spec fn has_later_match(sh: Seq<MatchShape>, i: int) -> bool {
    exists|j: int| i < j < sh.len() && expects(#[trigger] sh[j], sh[i].1[0])
}

/// Every match but the last has a later match expecting its top seed
pub open spec fn shapes_closed(sh: Seq<MatchShape>) -> bool {
    forall|i: int| 0 <= i < sh.len() - 1 ==> #[trigger] has_later_match(sh, i)
}

/// Match laid out as `sh` expects the player of seed `s`
pub open spec fn expects(sh: MatchShape, s: usize) -> bool {
    sh.1[0] == s || sh.1[1] == s
}

/// Player `x` stands in some match of `sh`
pub open spec fn is_placed(sh: Seq<MatchShape>, x: PlayerId) -> bool {
    exists|i: int, slot: int|
        0 <= i < sh.len() && 0 <= slot < 2 && #[trigger] sh[i].0[slot] == Opponent::Player(x)
}

/// Every seeded player stands in some match of `sh`
pub open spec fn places_everyone(sh: Seq<MatchShape>, seeding: Seq<PlayerId>) -> bool {
    forall|s: int| 0 <= s < seeding.len() ==> #[trigger] is_placed(sh, seeding[s])
}

proof fn lemma_npo2_from(n: nat, q: nat)
    requires
        q >= 1,
        is_pow2(q),
        q == 1 || q / 2 < n,
    ensures
        ({
            let p = npo2_from(n, q);
            &&& p >= n
            &&& p >= q
            &&& is_pow2(p)
            &&& p == 1 || p / 2 < n
        }),
    decreases (if q >= n { 0 } else { n - q }),
{
    if q < n {
        lemma_pow2_double(q);
        assert((2 * q) / 2 == q);
        lemma_npo2_from(n, 2 * q);
    }
}

/// The size of the bracket is the smallest power of two that is at least
/// the number of players
pub proof fn lemma_next_power_of_two(n: nat)
    ensures
        ({
            let p = next_power_of_two(n);
            &&& p >= n
            &&& p >= 1
            &&& is_pow2(p)
            &&& p == 1 || p / 2 < n
        }),
{
    lemma_npo2_from(n, 1);
}

pub(crate) proof fn lemma_pow2_even(r: nat)
    requires
        is_pow2(r),
        r > 1,
    ensures
        r % 2 == 0,
        is_pow2(r / 2),
{
}

proof fn lemma_shapes_from_len(seeding: Seq<PlayerId>, p: int, r: int)
    requires
        is_pow2(r as nat),
        1 <= r < p,
    ensures
        shapes_from(seeding, p, r).len() == r - 1,
    decreases r,
{
    if r > 1 {
        lemma_pow2_even(r as nat);
        lemma_shapes_from_len(seeding, p, r / 2);
    }
}

/// A single elimination bracket of `n` players has `n - 1` matches
pub proof fn lemma_single_elimination_match_count(seeding: Seq<PlayerId>)
    requires
        seeding.len() >= 1,
    ensures
        single_elimination_shapes(seeding).len() == seeding.len() - 1,
{
    let n = seeding.len() as int;
    lemma_next_power_of_two(n as nat);
    let p = next_power_of_two(n as nat) as int;
    if p > 1 {
        lemma_pow2_even(p as nat);
        lemma_shapes_from_len(seeding, p, p / 2);
    }
}

/// In a round after the first, every seed up to the number of players of
/// the round is expected in some match of the round
proof fn lemma_round_has_seed(seeding: Seq<PlayerId>, p: int, r: int, k: int)
    requires
        is_pow2(r as nat),
        2 <= r < p,
        p <= usize::MAX,
        1 <= k <= r,
    ensures
        ({
            let round = round_shapes(seeding, p, r);
            let q = if k <= r / 2 { k - 1 } else { r - k };
            &&& 0 <= q < round.len()
            &&& round[q].1[0] == k || round[q].1[1] == k
        }),
{
    lemma_pow2_even(r as nat);
}

/// Top seeds of a round never exceed half the players of the round
proof fn lemma_round_top_seeds(seeding: Seq<PlayerId>, p: int, r: int, i: int)
    requires
        is_pow2(r as nat),
        2 <= r <= p,
        p / 2 < seeding.len() <= p,
        0 <= i < round_shapes(seeding, p, r).len(),
        r < p ==> r <= p / 2,
        p <= usize::MAX,
    ensures
        1 <= round_shapes(seeding, p, r)[i].1[0] <= r / 2,
{
    lemma_pow2_even(r as nat);
}

proof fn lemma_shapes_from_closed(seeding: Seq<PlayerId>, p: int, r: int)
    requires
        is_pow2(r as nat),
        1 <= r <= p,
        r < p ==> r <= p / 2,
        p / 2 < seeding.len() <= p,
        p <= usize::MAX,
    ensures
        shapes_closed(shapes_from(seeding, p, r)),
    decreases r,
{
    let sh = shapes_from(seeding, p, r);
    if r > 1 {
        lemma_pow2_even(r as nat);
        let round = round_shapes(seeding, p, r);
        let rest = shapes_from(seeding, p, r / 2);
        lemma_shapes_from_closed(seeding, p, r / 2);
        assert(sh == round + rest);
        assert forall|i: int| 0 <= i < sh.len() - 1 implies #[trigger] has_later_match(sh, i) by {
            if i < round.len() {
                lemma_round_top_seeds(seeding, p, r, i);
                let k = round[i].1[0] as int;
                assert(sh[i] == round[i]);
                if r / 2 >= 2 {
                    lemma_round_has_seed(seeding, p, r / 2, k);
                    let q = if k <= r / 4 { k - 1 } else { r / 2 - k };
                    assert(rest == round_shapes(seeding, p, r / 2) + shapes_from(seeding, p, r / 4));
                    assert(rest[q] == round_shapes(seeding, p, r / 2)[q]);
                    let j = round.len() + q;
                    assert(sh[j] == rest[q]);
                    assert(expects(sh[j], sh[i].1[0]));
                } else {
                    assert(rest.len() == 0);
                    assert(round.len() == 1) by {
                        if r == p {
                            assert(p == 2);
                        }
                    }
                }
            } else {
                let i2 = i - round.len();
                assert(sh[i] == rest[i2]);
                assert(0 <= i2 < rest.len() - 1);
                assert(shapes_closed(rest));
                assert(has_later_match(rest, i2));
                let j2 = choose|j2: int| i2 < j2 < rest.len() && expects(#[trigger] rest[j2], rest[i2].1[0]);
                let j = j2 + round.len();
                assert(0 <= j < sh.len());
                assert(sh[j] == rest[j2]);
                assert(expects(sh[j], sh[i].1[0]));
            }
        }
    }
}

/// The winner of any match of a generated single elimination bracket but
/// the final has a later match that expects them
pub proof fn lemma_single_elimination_closed(seeding: Seq<PlayerId>)
    requires
        seeding.len() >= 1,
        next_power_of_two(seeding.len()) <= usize::MAX,
    ensures
        shapes_closed(single_elimination_shapes(seeding)),
{
    let n = seeding.len() as int;
    lemma_next_power_of_two(n as nat);
    let p = next_power_of_two(n as nat) as int;
    lemma_shapes_from_closed(seeding, p, p);
}

/// Every seeded player stands in some match of a generated single
/// elimination bracket of at least two players
pub proof fn lemma_single_elimination_places_everyone(seeding: Seq<PlayerId>)
    requires
        seeding.len() >= 2,
        next_power_of_two(seeding.len()) <= usize::MAX,
    ensures
        places_everyone(single_elimination_shapes(seeding), seeding),
{
    let n = seeding.len() as int;
    lemma_next_power_of_two(n as nat);
    let p = next_power_of_two(n as nat) as int;
    let byes = p - n;
    let sh = single_elimination_shapes(seeding);
    lemma_pow2_even(p as nat);
    let first = round_shapes(seeding, p, p);
    let rest = shapes_from(seeding, p, p / 2);
    assert(sh == first + rest);
    assert forall|s: int| 0 <= s < seeding.len() implies #[trigger] is_placed(sh, seeding[s]) by {
        let seed = s + 1;
        if seed > byes {
            if seed <= p / 2 {
                let t = seed - byes - 1;
                assert(sh[t] == first[t]);
                assert(sh[t].0[0] == Opponent::Player(seeding[s]));
                assert(0 <= t < sh.len());
            } else {
                let t = n - seed;
                assert(sh[t] == first[t]);
                assert(sh[t].0[1] == Opponent::Player(seeding[s]));
                assert(0 <= t < sh.len());
            }
        } else {
            let r = p / 2;
            assert(r >= 2);
            lemma_pow2_even(r as nat);
            let second = round_shapes(seeding, p, r);
            assert(rest == second + shapes_from(seeding, p, r / 2));
            if seed <= r / 2 {
                let t = seed - 1;
                assert(sh[first.len() + t] == second[t]);
                assert(sh[first.len() + t].0[0] == Opponent::Player(seeding[s]));
            } else {
                let t = r - seed;
                assert(sh[first.len() + t] == second[t]);
                assert(sh[first.len() + t].0[1] == Opponent::Player(seeding[s]));
            }
        }
    }
}

/// Position, in the single elimination bracket of `n` players, of the match
/// where the player of seed `seed` (counting from 1) starts: the players
/// without a bye start in the first round, top seed against bottom seed;
/// the top `byes` seeds have a bye and start in the second round
pub open spec fn starting_match(n: int, seed: int) -> int {
    let p = next_power_of_two(n as nat) as int;
    let byes = p - n;
    if seed > byes {
        if seed <= p / 2 {
            seed - byes - 1
        } else {
            n - seed
        }
    } else if seed <= p / 4 {
        p / 2 - byes + seed - 1
    } else {
        p / 2 - byes + p / 2 - seed
    }
}

/// Every player of a generated single elimination bracket stands in one
/// match only, the one where they start: the players with a bye (the top
/// `byes` seeds) in the second round, the others in the first round
pub proof fn lemma_single_elimination_starts_once(seeding: Seq<PlayerId>, s: int, i: int, slot: int)
    requires
        seeding.len() >= 2,
        next_power_of_two(seeding.len()) <= usize::MAX,
        crate::player::no_duplicates(seeding),
        0 <= s < seeding.len(),
        0 <= i < single_elimination_shapes(seeding).len(),
        0 <= slot < 2,
        single_elimination_shapes(seeding)[i].0[slot] == Opponent::Player(seeding[s]),
    ensures
        i == starting_match(seeding.len() as int, s + 1),
        (s + 1 <= next_power_of_two(seeding.len()) - seeding.len()) <==> (i >= next_power_of_two(
            seeding.len(),
        ) / 2 - (next_power_of_two(seeding.len()) - seeding.len())),
{
    let n = seeding.len() as int;
    lemma_next_power_of_two(n as nat);
    let p = next_power_of_two(n as nat) as int;
    let byes = p - n;
    let sh = single_elimination_shapes(seeding);
    lemma_pow2_even(p as nat);
    let first = round_shapes(seeding, p, p);
    let rest = shapes_from(seeding, p, p / 2);
    assert(sh == first + rest);
    let seed = s + 1;
    if i < first.len() {
        assert(sh[i] == first[i]);
        if slot == 0 {
            assert(seeding[byes + i] == seeding[s]);
            if byes + i != s {
                if byes + i < s {
                    assert(seeding[byes + i] != seeding[s]);
                } else {
                    assert(seeding[s] != seeding[byes + i]);
                }
            }
        } else {
            assert(seeding[n - 1 - i] == seeding[s]);
            if n - 1 - i != s {
                if n - 1 - i < s {
                    assert(seeding[n - 1 - i] != seeding[s]);
                } else {
                    assert(seeding[s] != seeding[n - 1 - i]);
                }
            }
        }
    } else {
        let r = p / 2;
        assert(r >= 2);
        lemma_pow2_even(r as nat);
        let second = round_shapes(seeding, p, r);
        let later = shapes_from(seeding, p, r / 2);
        assert(rest == second + later);
        let x = i - first.len();
        if x < second.len() {
            assert(sh[i] == second[x]);
            let k = if slot == 0 {
                x + 1
            } else {
                r - x
            };
            assert(second[x].0[slot] == bye_slot(seeding, byes, k));
            assert(1 <= k <= byes);
            assert(seeding[k - 1] == seeding[s]);
            if k - 1 != s {
                if k - 1 < s {
                    assert(seeding[k - 1] != seeding[s]);
                } else {
                    assert(seeding[s] != seeding[k - 1]);
                }
            }
        } else {
            assert(sh[i] == later[x - second.len()]);
            lemma_later_rounds_unknown(seeding, p, r / 2, x - second.len());
        }
    }
}

/// Rounds after the second hold no known player yet
proof fn lemma_later_rounds_unknown(seeding: Seq<PlayerId>, p: int, r: int, i: int)
    requires
        is_pow2(r as nat),
        1 <= r,
        r < p / 2,
        0 <= i < shapes_from(seeding, p, r).len(),
    ensures
        shapes_from(seeding, p, r)[i].0 == [Opponent::Unknown, Opponent::Unknown],
    decreases r,
{
    if r >= 2 {
        lemma_pow2_even(r as nat);
        let round = round_shapes(seeding, p, r);
        assert(shapes_from(seeding, p, r) == round + shapes_from(seeding, p, r / 2));
        if i < round.len() {
            assert(shapes_from(seeding, p, r)[i] == round[i]);
        } else {
            lemma_later_rounds_unknown(seeding, p, r / 2, i - round.len());
        }
    }
}

proof fn lemma_shapes_from_bottom_seeds(seeding: Seq<PlayerId>, p: int, r: int, i: int)
    requires
        is_pow2(r as nat),
        1 <= r <= p,
        r < p ==> r <= p / 2,
        p / 2 < seeding.len() <= p,
        p <= usize::MAX,
        0 <= i < shapes_from(seeding, p, r).len(),
    ensures
        2 <= shapes_from(seeding, p, r)[i].1[1] <= seeding.len(),
    decreases r,
{
    let sh = shapes_from(seeding, p, r);
    if r > 1 {
        lemma_pow2_even(r as nat);
        let round = round_shapes(seeding, p, r);
        let rest = shapes_from(seeding, p, r / 2);
        assert(sh == round + rest);
        if i < round.len() {
            assert(sh[i] == round[i]);
        } else {
            assert(sh[i] == rest[i - round.len()]);
            lemma_shapes_from_bottom_seeds(seeding, p, r / 2, i - round.len());
        }
    }
}

/// The loser of any match of a generated single elimination bracket comes
/// with a seed from 2 to the number of players
pub proof fn lemma_single_elimination_bottom_seeds(seeding: Seq<PlayerId>, i: int)
    requires
        seeding.len() >= 1,
        next_power_of_two(seeding.len()) <= usize::MAX,
        0 <= i < single_elimination_shapes(seeding).len(),
    ensures
        2 <= single_elimination_shapes(seeding)[i].1[1] <= seeding.len(),
{
    let n = seeding.len() as int;
    lemma_next_power_of_two(n as nat);
    let p = next_power_of_two(n as nat) as int;
    lemma_shapes_from_bottom_seeds(seeding, p, p, i);
}

/// Fresh matches laid out as closed shapes give every winner a next match
pub proof fn lemma_fresh_matches_closed(ms: Seq<Match>, sh: Seq<MatchShape>)
    requires
        fresh_matches_with_shapes(ms, sh),
        shapes_closed(sh),
    ensures
        crate::bracket::matches::advancement_closed(ms),
{
    assert forall|i: int| #![trigger ms[i]] 0 <= i < ms.len() - 1 implies exists|j: int|
        i < j < ms.len() && crate::bracket::matches::seeds_contain(#[trigger] ms[j], ms[i].seeds[0]) by {
        assert(has_later_match(sh, i));
        let j = choose|j: int| i < j < sh.len() && expects(#[trigger] sh[j], sh[i].1[0]);
        assert(ms[i] == crate::matches::fresh_match(ms[i].id, sh[i].0, sh[i].1));
        assert(ms[j] == crate::matches::fresh_match(ms[j].id, sh[j].0, sh[j].1));
        assert(crate::bracket::matches::seeds_contain(ms[j], ms[i].seeds[0]));
    }
}

/// Fresh matches laid out as shapes that place everyone place everyone
pub proof fn lemma_fresh_matches_place(ms: Seq<Match>, sh: Seq<MatchShape>, seeding: Seq<PlayerId>)
    requires
        fresh_matches_with_shapes(ms, sh),
        places_everyone(sh, seeding),
    ensures
        crate::bracket::matches::all_placed(ms, seeding),
{
    assert forall|k: int| 0 <= k < seeding.len() implies #[trigger] crate::bracket::matches::appears(
        ms,
        seeding[k],
    ) by {
        assert(is_placed(sh, seeding[k]));
        let (i, slot) = choose|i: int, slot: int|
            0 <= i < sh.len() && 0 <= slot < 2 && #[trigger] sh[i].0[slot] == Opponent::Player(
                seeding[k],
            );
        assert(ms[i] == crate::matches::fresh_match(ms[i].id, sh[i].0, sh[i].1));
        assert(ms[i].has_player(seeding[k]));
    }
}

/// Fresh matches laid out as `sa` followed by fresh matches laid out as
/// `sb` are laid out as `sa + sb`
pub proof fn lemma_fresh_matches_concat(a: Seq<Match>, sa: Seq<MatchShape>, b: Seq<Match>, sb: Seq<MatchShape>)
    requires
        fresh_matches_with_shapes(a, sa),
        fresh_matches_with_shapes(b, sb),
    ensures
        fresh_matches_with_shapes(a + b, sa + sb),
{
    let ab = a + b;
    let s = sa + sb;
    assert forall|i: int| 0 <= i < ab.len() implies #[trigger] ab[i] == crate::matches::fresh_match(
        ab[i].id,
        s[i].0,
        s[i].1,
    ) by {
        if i < a.len() {
            assert(ab[i] == a[i]);
            assert(s[i] == sa[i]);
        } else {
            assert(ab[i] == b[i - a.len()]);
            assert(s[i] == sb[i - a.len()]);
        }
    }
}

/// Fresh match laid out as `shape`, with identifier 0 until one is given
pub(crate) fn layout_match(players: MatchPlayers, seeds: Seeds) -> (m: Match)
    ensures
        m == crate::matches::fresh_match(0, players, seeds),
{
    Match {
        id: 0,
        players,
        seeds,
        winner: Opponent::Unknown,
        automatic_loser: Opponent::Unknown,
        reported_results: [(0, 0), (0, 0)],
    }
}

/// Matches of the single elimination bracket for `seeding`, round by round,
/// all with identifier 0
pub(crate) fn single_elimination_layout(seeding: &[PlayerId]) -> (matches: Vec<Match>)
    requires
        crate::player::no_duplicates(seeding@),
        seeding@.len() >= 1,
        next_power_of_two(seeding@.len()) <= usize::MAX,
    ensures
        fresh_matches_with_shapes(matches@, single_elimination_shapes(seeding@)),
{
    let n = seeding.len();
    let mut p: usize = 1;
    while p < n
        invariant
            1 <= p,
            p == 1 || p / 2 < n,
            is_pow2(p as nat),
            npo2_from(n as nat, p as nat) == next_power_of_two(n as nat),
            n == seeding@.len(),
            next_power_of_two(n as nat) <= usize::MAX,
        decreases (if p >= n { 0 } else { n - p }),
    {
        proof {
            if p > usize::MAX / 2 {
                lemma_npo2_from_grows(n as nat, 2 * p as nat);
                assert(false);
            }
        }
        proof {
            lemma_pow2_double(p as nat);
        }
        p = p * 2;
    }
    proof {
        assert(npo2_from(n as nat, p as nat) == p);
    }
    let ghost full = shapes_from(seeding@, p as int, p as int);
    assert(full == single_elimination_shapes(seeding@));
    let byes = p - n;
    let mut matches: Vec<Match> = Vec::new();
    let mut r = p;
    while r > 1
        invariant
            next_power_of_two(seeding@.len()) <= usize::MAX,
            n == seeding@.len(),
            1 <= n <= p,
            p == 1 || p / 2 < n,
            is_pow2(p as nat),
            is_pow2(r as nat),
            byes == p - n,
            1 <= r <= p,
            r == p || r <= p / 2,
            crate::player::no_duplicates(seeding@),
            full == shapes_from(seeding@, p as int, p as int),
            fresh_matches_with_shapes(matches@, full.take(matches@.len() as int)),
            matches@.len() <= full.len(),
            full.take(matches@.len() as int) + shapes_from(seeding@, p as int, r as int) == full,
        decreases r,
    {
        let ghost prefix = full.take(matches@.len() as int);
        let ghost round = round_shapes(seeding@, p as int, r as int);
        let ghost start = matches@.len();
        assert(shapes_from(seeding@, p as int, r as int) == round + shapes_from(
            seeding@,
            p as int,
            (r / 2) as int,
        ));
        if r == p {
            let count = p / 2 - byes;
            for t in 0..count
                invariant
                    next_power_of_two(seeding@.len()) <= usize::MAX,
                    n == seeding@.len(),
                    1 <= n <= p,
                    1 < p,
                    p / 2 < n,
                    p % 2 == 0,
                    byes == p - n,
                    r == p,
                    count == p / 2 - byes,
                    round == round_shapes(seeding@, p as int, r as int),
                    crate::player::no_duplicates(seeding@),
                    matches@.len() == start + t,
                    fresh_matches_with_shapes(matches@, prefix + round.take(t as int)),
            {
                let k = byes + 1 + t;
                let bottom = n - 1 - t;
                assert(k - 1 != bottom);
                let m = layout_match([Opponent::Player(seeding[k - 1]), Opponent::Player(seeding[bottom])],
                    [k, p - k + 1],);
                matches.push(m);
                assert(prefix + round.take(t + 1) =~= (prefix + round.take(t as int)).push(
                    round[t as int],
                ));
            }
        } else if r == p / 2 {
            assert(r % 2 == 0);
            for t in 0..r / 2
                invariant
                    next_power_of_two(seeding@.len()) <= usize::MAX,
                    n == seeding@.len(),
                    1 <= n <= p,
                    byes == p - n,
                    byes < n,
                    r == p / 2,
                    1 < r,
                    r % 2 == 0,
                    round == round_shapes(seeding@, p as int, r as int),
                    crate::player::no_duplicates(seeding@),
                    matches@.len() == start + t,
                    fresh_matches_with_shapes(matches@, prefix + round.take(t as int)),
            {
                let k = t + 1;
                let top = if k <= byes {
                    Opponent::Player(seeding[k - 1])
                } else {
                    Opponent::Unknown
                };
                let bottom_seed = r + 1 - k;
                let bottom = if bottom_seed <= byes {
                    Opponent::Player(seeding[bottom_seed - 1])
                } else {
                    Opponent::Unknown
                };
                let m = layout_match([top, bottom], [k, bottom_seed]);
                matches.push(m);
                assert(prefix + round.take(t + 1) =~= (prefix + round.take(t as int)).push(
                    round[t as int],
                ));
            }
        } else {
            for t in 0..r / 2
                invariant
                    next_power_of_two(seeding@.len()) <= usize::MAX,
                    seeding@.len() >= 1,
                    1 < r <= p,
                    r != p,
                    r != p / 2,
                    round == round_shapes(seeding@, p as int, r as int),
                    matches@.len() == start + t,
                    fresh_matches_with_shapes(matches@, prefix + round.take(t as int)),
            {
                let m = layout_match([Opponent::Unknown, Opponent::Unknown], [t + 1, r - t]);
                matches.push(m);
                assert(prefix + round.take(t + 1) =~= (prefix + round.take(t as int)).push(
                    round[t as int],
                ));
            }
        }
        assert(round.take(round.len() as int) =~= round);
        assert(full =~= prefix + round + shapes_from(seeding@, p as int, (r / 2) as int));
        assert(full.take(matches@.len() as int) =~= prefix + round);
        r = r / 2;
    }
    assert(full.take(matches@.len() as int) =~= full);
    matches
}


/// Matches of the single elimination bracket for `seeding`, with the
/// identifiers `ids`, one per match in order; nothing when an identifier
/// comes twice
pub fn matches_with_ids(seeding: &[PlayerId], ids: &[MatchId]) -> (res: Option<Vec<Match>>)
    requires
        crate::player::no_duplicates(seeding@),
        next_power_of_two(seeding@.len()) <= usize::MAX,
        ids@.len() == single_elimination_shapes(seeding@).len(),
    ensures
        res is Some <==> crate::player::no_duplicates(ids@),
        res matches Some(v) ==> v@.len() == ids@.len() && forall|i: int|
            0 <= i < v@.len() ==> #[trigger] v@[i] == crate::matches::fresh_match(
                ids@[i],
                single_elimination_shapes(seeding@)[i].0,
                single_elimination_shapes(seeding@)[i].1,
            ),
{
    let layout = if seeding.len() == 0 {
        proof {
            assert(next_power_of_two(0) == 1);
            assert(single_elimination_shapes(seeding@) =~= Seq::<MatchShape>::empty());
        }
        Vec::new()
    } else {
        single_elimination_layout(seeding)
    };
    let res = crate::bracket::matches::assign_ids(layout, ids);
    proof {
        if let Some(v) = &res {
            let sh = single_elimination_shapes(seeding@);
            assert forall|i: int| 0 <= i < v@.len() implies #[trigger] v@[i]
                == crate::matches::fresh_match(ids@[i], sh[i].0, sh[i].1) by {
                assert(layout@[i] == crate::matches::fresh_match(layout@[i].id, sh[i].0, sh[i].1));
            }
        }
    }
    res
}

/// Returns tournament matches for `n` players in a list. Used for generating
/// single elimination bracket or winner bracket in double elimination format.
///
/// Top seed plays the least matches. They will face predicted higher seeds
/// only later in the bracket. Top seed plays at most one more match than
/// anyone else.
///
/// # Errors
/// Throws error when math overflow happens, or when no fresh random
/// identifier can be drawn for a match (identifiers of the matches are
/// distinct)
pub fn get_balanced_round_matches_top_seed_favored(seeding: &[PlayerId]) -> (res: Result<
    Vec<Match>,
    SeedingError,
>)
    requires
        crate::player::no_duplicates(seeding@),
    ensures
        next_power_of_two(seeding@.len()) > usize::MAX <==> (res matches Err(e) && e is MathOverflow),
        res matches Err(e) ==> e is MathOverflow || e is NoRandomId,
        res matches Ok(v) ==> fresh_matches_with_shapes(v@, single_elimination_shapes(seeding@))
            && crate::bracket::matches::distinct_ids(v@),
        seeding@.len() <= 1 ==> (res matches Ok(v) && v@.len() == 0),
{
    let n = seeding.len();
    if !power_of_two_fits(n) {
        return Err(SeedingError::MathOverflow);
    }
    let count = if n == 0 {
        0
    } else {
        n - 1
    };
    proof {
        if n >= 1 {
            lemma_single_elimination_match_count(seeding@);
        } else {
            assert(next_power_of_two(0) == 1);
            assert(single_elimination_shapes(seeding@) =~= Seq::<MatchShape>::empty());
        }
    }
    let ids = match crate::ids::new_random_ids(count) {
        Some(ids) => ids,
        None => return Err(SeedingError::NoRandomId),
    };
    match matches_with_ids(seeding, ids.as_slice()) {
        Some(v) => {
            proof {
                let sh = single_elimination_shapes(seeding@);
                assert forall|i: int| 0 <= i < v@.len() implies #[trigger] v@[i]
                    == crate::matches::fresh_match(v@[i].id, sh[i].0, sh[i].1) by {
                    assert(v@[i] == crate::matches::fresh_match(ids@[i], sh[i].0, sh[i].1));
                }
                assert forall|x: int, y: int| 0 <= x < y < v@.len() implies (#[trigger] v@[x]).id
                    != (#[trigger] v@[y]).id by {
                    assert(v@[x] == crate::matches::fresh_match(ids@[x], sh[x].0, sh[x].1));
                    assert(v@[y] == crate::matches::fresh_match(ids@[y], sh[y].0, sh[y].1));
                }
            }
            Ok(v)
        },
        None => Err(SeedingError::NoRandomId),
    }
}

/// Whether the smallest power of two at least `n` fits in `usize`
pub(crate) fn power_of_two_fits(n: usize) -> (res: bool)
    ensures
        res == (next_power_of_two(n as nat) <= usize::MAX),
{
    let mut p: usize = 1;
    while p < n
        invariant
            1 <= p,
            is_pow2(p as nat),
            npo2_from(n as nat, p as nat) == next_power_of_two(n as nat),
        decreases (if p >= n { 0 } else { n - p }),
    {
        if p > usize::MAX / 2 {
            proof {
                lemma_npo2_from_grows(n as nat, 2 * p as nat);
            }
            return false;
        }
        proof {
            lemma_pow2_double(p as nat);
        }
        p = p * 2;
    }
    true
}

/// Matches of a single elimination bracket (or winner bracket) for
/// `seeding`, top seed favored
///
/// # Errors
/// Throws error when math overflow happens, or when no fresh random
/// identifier can be drawn for a match (identifiers of the matches are
/// distinct)
pub fn get_balanced_round_matches_top_seed_favored2(seeding: &Seeding) -> (res: Result<
    Vec<Match>,
    SingleEliminationBracketMatchGenerationError,
>)
    ensures
        next_power_of_two(seeding@.len()) > usize::MAX <==> (res matches Err(e)
            && e is UnrecoverableMathOverflow),
        res matches Err(e) ==> e is UnrecoverableMathOverflow || e == SingleEliminationBracketMatchGenerationError::UnrecoverableMatchError(MatchError::NoRandomId),
        res matches Ok(v) ==> fresh_matches_with_shapes(v@, single_elimination_shapes(seeding@))
            && crate::bracket::matches::distinct_ids(v@),
        seeding@.len() <= 1 ==> (res matches Ok(v) && v@.len() == 0),
{
    match get_balanced_round_matches_top_seed_favored(seeding.as_slice()) {
        Ok(v) => Ok(v),
        Err(SeedingError::NoRandomId) => Err(
            SingleEliminationBracketMatchGenerationError::UnrecoverableMatchError(MatchError::NoRandomId),
        ),
        Err(_) => Err(SingleEliminationBracketMatchGenerationError::UnrecoverableMathOverflow),
    }
}

} // verus!
