//! Generate seeded matches for the loser bracket of a double elimination
//! bracket

use crate::matches::{Id as MatchId, Match};
use crate::seeding::single_elimination_seeded_bracket::layout_match;
use crate::opponent::Opponent;
use crate::player::Id as PlayerId;
use crate::seeding::single_elimination_seeded_bracket::{
    expects, fresh_matches_with_shapes, has_later_match, is_pow2, shapes_closed, lemma_next_power_of_two, lemma_pow2_double,
    lemma_fresh_matches_concat, lemma_pow2_even, next_power_of_two, npo2_from, MatchShape,
};
use crate::seeding::Error;
use vstd::prelude::*;

verus! {

/// `x` brought back into `[0, cap]`
pub open spec fn clamp(x: int, cap: int) -> int {
    if x <= 0 {
        0
    } else if x >= cap {
        cap
    } else {
        x
    }
}

/// Loser bracket matches of level `h` (a power of two) for `n` players,
/// kept only when both expected seeds exist. First the players dropping from
/// the winner bracket with seeds `h + 1 ..= 2h` face each other, top against
/// bottom; then seeds `h/2 + 1 ..= h` face the expected winners of those
/// matches, seed `s` against seed `2h + 1 - s`.
pub open spec fn loser_round_shapes(n: int, h: int) -> Seq<MatchShape> {
    let a0 = clamp(2 * h - n, h / 2);
    let b0 = clamp(h + h / 2 - n, h / 2);
    Seq::new(
        (h / 2 - a0) as nat,
        |j: int|
            (
                [Opponent::Unknown, Opponent::Unknown],
                [(h + 1 + a0 + j) as usize, (2 * h - a0 - j) as usize],
            ),
    ) + Seq::new(
        (h / 2 - b0) as nat,
        |t: int|
            (
                [Opponent::Unknown, Opponent::Unknown],
                [(h / 2 + 1 + b0 + t) as usize, (h + h / 2 - b0 - t) as usize],
            ),
    )
}

/// Loser bracket matches from level `h` down to the last match, seeds 2
/// against 3
pub open spec fn loser_shapes_from(n: int, h: int) -> Seq<MatchShape>
    decreases h,
{
    if h < 2 {
        Seq::empty()
    } else {
        loser_round_shapes(n, h) + loser_shapes_from(n, h / 2)
    }
}

/// Loser bracket matches for `n` players, level by level from the bottom
/// seeds up
pub open spec fn loser_bracket_shapes(n: int) -> Seq<MatchShape> {
    loser_shapes_from(n, (next_power_of_two(n as nat) / 2) as int)
}

/// Get seed of player from seeding: its position, counting from 1
pub fn get_seed_of(player: &PlayerId, seeding: &[PlayerId]) -> (res: usize)
    requires
        seeding@.contains(*player),
    ensures
        1 <= res <= seeding@.len(),
        seeding@[res - 1] == *player,
        forall|k: int| 0 <= k < res - 1 ==> seeding@[k] != *player,
{
    let mut i: usize = 0;
    while i < seeding.len()
        invariant
            i <= seeding@.len(),
            seeding@.contains(*player),
            forall|k: int| 0 <= k < i ==> seeding@[k] != *player,
        decreases seeding@.len() - i,
    {
        if seeding[i] == *player {
            return i + 1;
        }
        i += 1;
    }
    proof {
        let k = choose|k: int| 0 <= k < seeding@.len() && seeding@[k] == *player;
        assert(seeding@[k] != *player);
    }
    0
}

proof fn lemma_loser_shapes_from_len(n: int, h: int)
    requires
        is_pow2(h as nat),
        1 <= h,
        2 * h <= n,
    ensures
        loser_shapes_from(n, h).len() == 2 * h - 2,
    decreases h,
{
    if h >= 2 {
        lemma_pow2_even(h as nat);
        lemma_loser_shapes_from_len(n, h / 2);
    }
}

/// The loser bracket of a double elimination bracket of `n` players has
/// `n - 2` matches
pub proof fn lemma_loser_bracket_match_count(n: int)
    requires
        n >= 3,
    ensures
        loser_bracket_shapes(n).len() == n - 2,
{
    lemma_next_power_of_two(n as nat);
    let p = next_power_of_two(n as nat) as int;
    lemma_pow2_even(p as nat);
    let h = p / 2;
    lemma_pow2_even(h as nat);
    lemma_loser_shapes_from_len(n, h / 2);
    assert(loser_shapes_from(n, h) == loser_round_shapes(n, h) + loser_shapes_from(n, h / 2));
}

/// Loser bracket match at level `h` that expects seed `s` dropping from the
/// winner bracket, when `h < s <= n`
proof fn lemma_round_expects_incoming(n: int, h: int, s: int)
    requires
        is_pow2(h as nat),
        2 <= h < n,
        h < s <= 2 * h,
        s <= n,
    ensures
        exists|j: int|
            0 <= j < loser_round_shapes(n, h).len() && expects(
                #[trigger] loser_round_shapes(n, h)[j],
                s as usize,
            ),
{
    lemma_pow2_even(h as nat);
    let r = loser_round_shapes(n, h);
    let a0 = clamp(2 * h - n, h / 2);
    let b0 = clamp(h + h / 2 - n, h / 2);
    if s > h + h / 2 {
        let j = 2 * h - a0 - s;
        assert(r[j].1[1] == s as usize);
    } else {
        let t = h + h / 2 - b0 - s;
        let x = (h / 2 - a0) + t;
        assert(r[x].1[1] == s as usize);
    }
}

/// Every seed from 2 to `min(2h, n)` is expected by some loser bracket
/// match from level `h` down
proof fn lemma_loser_shapes_expect(n: int, h: int, s: int)
    requires
        is_pow2(h as nat),
        2 <= h < n,
        2 <= s <= 2 * h,
        s <= n,
    ensures
        exists|j: int|
            0 <= j < loser_shapes_from(n, h).len() && expects(
                #[trigger] loser_shapes_from(n, h)[j],
                s as usize,
            ),
    decreases h,
{
    lemma_pow2_even(h as nat);
    let r = loser_round_shapes(n, h);
    let rest = loser_shapes_from(n, h / 2);
    let all = loser_shapes_from(n, h);
    assert(all == r + rest);
    if s > h {
        lemma_round_expects_incoming(n, h, s);
        let j = choose|j: int| 0 <= j < r.len() && expects(#[trigger] r[j], s as usize);
        assert(all[j] == r[j]);
    } else if h >= 4 {
        lemma_loser_shapes_expect(n, h / 2, s);
        let j = choose|j: int| 0 <= j < rest.len() && expects(#[trigger] rest[j], s as usize);
        assert(all[r.len() + j] == rest[j]);
    } else {
        let b0 = clamp(h + h / 2 - n, h / 2);
        let a0 = clamp(2 * h - n, h / 2);
        let x = h / 2 - a0;
        assert(r[x].1[0] == 2usize);
        assert(all[x] == r[x]);
    }
}

/// Every seed from 2 to `n` is expected by some match of the loser bracket
pub proof fn lemma_loser_bracket_expects(n: int, s: int)
    requires
        n >= 3,
        2 <= s <= n,
    ensures
        exists|j: int|
            0 <= j < loser_bracket_shapes(n).len() && expects(
                #[trigger] loser_bracket_shapes(n)[j],
                s as usize,
            ),
{
    lemma_next_power_of_two(n as nat);
    let p = next_power_of_two(n as nat) as int;
    lemma_pow2_even(p as nat);
    assert(p >= 4);
    lemma_pow2_even((p / 2) as nat);
    lemma_loser_shapes_expect(n, p / 2, s);
    assert(loser_bracket_shapes(n) == loser_shapes_from(n, p / 2));
}

/// Both seeds of a loser bracket match of level `h` lie from 2 to `n`, the
/// top seed before the bottom one
proof fn lemma_loser_round_seeds(n: int, h: int, i: int)
    requires
        2 <= h,
        h % 2 == 0,
        h < n <= usize::MAX,
        0 <= i < loser_round_shapes(n, h).len(),
    ensures
        2 <= loser_round_shapes(n, h)[i].1[0] < loser_round_shapes(n, h)[i].1[1] <= n,
{
    let a0 = clamp(2 * h - n, h / 2);
    let b0 = clamp(h + h / 2 - n, h / 2);
    let first = Seq::new(
        (h / 2 - a0) as nat,
        |j: int|
            (
                [Opponent::Unknown, Opponent::Unknown],
                [(h + 1 + a0 + j) as usize, (2 * h - a0 - j) as usize],
            ),
    );
    let second = Seq::new(
        (h / 2 - b0) as nat,
        |t: int|
            (
                [Opponent::Unknown, Opponent::Unknown],
                [(h / 2 + 1 + b0 + t) as usize, (h + h / 2 - b0 - t) as usize],
            ),
    );
    assert(loser_round_shapes(n, h) == first + second);
    if i < first.len() {
        assert(loser_round_shapes(n, h)[i] == first[i]);
    } else {
        assert(loser_round_shapes(n, h)[i] == second[i - first.len()]);
    }
}

/// Both seeds of every loser bracket match from level `h` down lie from 2
/// to `n`
proof fn lemma_loser_shapes_seeds(n: int, h: int, i: int)
    requires
        is_pow2(h as nat),
        1 <= h < n <= usize::MAX,
        0 <= i < loser_shapes_from(n, h).len(),
    ensures
        2 <= loser_shapes_from(n, h)[i].1[0] < loser_shapes_from(n, h)[i].1[1] <= n,
    decreases h,
{
    if h >= 2 {
        lemma_pow2_even(h as nat);
        let r = loser_round_shapes(n, h);
        assert(loser_shapes_from(n, h) == r + loser_shapes_from(n, h / 2));
        if i < r.len() {
            lemma_loser_round_seeds(n, h, i);
        } else {
            lemma_loser_shapes_seeds(n, h / 2, i - r.len());
        }
    }
}

/// Every match of the loser bracket of `n` players expects two players
/// dropping from the winner bracket or winning in the loser bracket, with
/// seeds from 2 to `n`: the top seed never plays there
pub proof fn lemma_loser_bracket_seeds(n: int, i: int)
    requires
        n >= 3,
        n <= usize::MAX,
        0 <= i < loser_bracket_shapes(n).len(),
    ensures
        2 <= loser_bracket_shapes(n)[i].1[0] < loser_bracket_shapes(n)[i].1[1] <= n,
{
    lemma_next_power_of_two(n as nat);
    let p = next_power_of_two(n as nat) as int;
    lemma_pow2_even(p as nat);
    assert(p >= 4);
    lemma_pow2_even((p / 2) as nat);
    assert(loser_bracket_shapes(n) == loser_shapes_from(n, p / 2));
    lemma_loser_shapes_seeds(n, p / 2, i);
}

/// Every match of the loser bracket from level `h` down but the last has a
/// later match expecting its top seed
proof fn lemma_loser_shapes_closed(n: int, h: int)
    requires
        is_pow2(h as nat),
        1 <= h < n,
    ensures
        shapes_closed(loser_shapes_from(n, h)),
    decreases h,
{
    let all = loser_shapes_from(n, h);
    if h >= 2 {
        lemma_pow2_even(h as nat);
        let r = loser_round_shapes(n, h);
        let rest = loser_shapes_from(n, h / 2);
        assert(all == r + rest);
        lemma_loser_shapes_closed(n, h / 2);
        let a0 = clamp(2 * h - n, h / 2);
        let b0 = clamp(h + h / 2 - n, h / 2);
        let na = h / 2 - a0;
        assert forall|i: int| 0 <= i < all.len() - 1 implies #[trigger] has_later_match(all, i) by {
            if i < na {
                let x = h + 1 + a0 + i;
                assert(b0 == 0);
                let t = h + h / 2 - x;
                assert(r[na + t].1[1] == x as usize);
                assert(all[na + t] == r[na + t]);
                assert(all[i] == r[i]);
                assert(expects(all[na + t], all[i].1[0]));
            } else if i < r.len() {
                let t = i - na;
                let x = h / 2 + 1 + b0 + t;
                assert(all[i] == r[i]);
                assert(all[i].1[0] == x as usize);
                if h >= 4 {
                    lemma_pow2_even((h / 2) as nat);
                    let r2 = loser_round_shapes(n, h / 2);
                    assert(rest == r2 + loser_shapes_from(n, h / 4));
                    assert(clamp(h - n, h / 4) == 0);
                    let j = if x <= h / 2 + h / 4 {
                        x - h / 2 - 1
                    } else {
                        h - x
                    };
                    assert(expects(r2[j], x as usize));
                    assert(rest[j] == r2[j]);
                    assert(all[r.len() + j] == rest[j]);
                    assert(expects(all[r.len() + j], all[i].1[0]));
                } else {
                    assert(rest.len() == 0);
                    assert(r.len() == 1) by {
                        assert(a0 == 1);
                    }
                }
            } else {
                let i2 = i - r.len();
                assert(all[i] == rest[i2]);
                assert(has_later_match(rest, i2));
                let j2 = choose|j2: int| i2 < j2 < rest.len() && expects(#[trigger] rest[j2], rest[i2].1[0]);
                assert(all[j2 + r.len()] == rest[j2]);
                assert(expects(all[j2 + r.len()], all[i].1[0]));
            }
        }
    }
}

/// The winner of any loser bracket match but the last has a later match
/// that expects them
pub proof fn lemma_loser_bracket_closed(n: int)
    requires
        n >= 3,
    ensures
        shapes_closed(loser_bracket_shapes(n)),
{
    lemma_next_power_of_two(n as nat);
    let p = next_power_of_two(n as nat) as int;
    lemma_pow2_even(p as nat);
    lemma_loser_shapes_closed(n, p / 2);
}

/// Fresh loser bracket matches of level `h` for `n` players, all with
/// identifier 0
fn loser_round_matches(n: usize, h: usize) -> (v: Vec<Match>)
    requires
        2 <= h,
        is_pow2(h as nat),
        2 * h <= usize::MAX,
    ensures
        fresh_matches_with_shapes(v@, loser_round_shapes(n as int, h as int)),
{
    proof {
        lemma_pow2_even(h as nat);
    }
    let half = h / 2;
    let a0 = if 2 * h <= n {
        0
    } else if 2 * h - n >= half {
        half
    } else {
        2 * h - n
    };
    let b0 = if h + half <= n {
        0
    } else if h + half - n >= half {
        half
    } else {
        h + half - n
    };
    let ghost first_part = Seq::new(
        (h / 2 - a0) as nat,
        |j: int|
            (
                [Opponent::Unknown, Opponent::Unknown],
                [(h + 1 + a0 + j) as usize, (2 * h - a0 - j) as usize],
            ),
    );
    let ghost second_part = Seq::new(
        (h / 2 - b0) as nat,
        |t: int|
            (
                [Opponent::Unknown, Opponent::Unknown],
                [(h / 2 + 1 + b0 + t) as usize, (h + h / 2 - b0 - t) as usize],
            ),
    );
    assert(a0 == clamp(2 * h - n, (h / 2) as int));
    assert(b0 == clamp(h + h / 2 - n, (h / 2) as int));
    assert(loser_round_shapes(n as int, h as int) == first_part + second_part);
    let mut v: Vec<Match> = Vec::new();
    let mut j: usize = 0;
    while j < half - a0
        invariant
            half == h / 2,
            a0 <= half,
            2 <= h,
            2 * h <= usize::MAX,
            j <= half - a0,
            first_part.len() == half - a0,
            forall|x: int|
                0 <= x < first_part.len() ==> #[trigger] first_part[x] == (
                    [Opponent::Unknown, Opponent::Unknown],
                    [(h + 1 + a0 + x) as usize, (2 * h - a0 - x) as usize],
                ),
            v@.len() == j,
            fresh_matches_with_shapes(v@, first_part.take(j as int)),
        decreases half - a0 - j,
    {
        let m = layout_match([Opponent::Unknown, Opponent::Unknown], [h + 1 + a0 + j, 2 * h - a0 - j]);
        v.push(m);
        proof {
            assert(first_part.take(j + 1) =~= first_part.take(j as int).push(first_part[j as int]));
        }
        j += 1;
    }
    assert(first_part.take(first_part.len() as int) =~= first_part);
    let mut t: usize = 0;
    while t < half - b0
        invariant
            half == h / 2,
            b0 <= half,
            2 <= h,
            2 * h <= usize::MAX,
            t <= half - b0,
            second_part.len() == half - b0,
            forall|x: int|
                0 <= x < second_part.len() ==> #[trigger] second_part[x] == (
                    [Opponent::Unknown, Opponent::Unknown],
                    [(h / 2 + 1 + b0 + x) as usize, (h + h / 2 - b0 - x) as usize],
                ),
            v@.len() == first_part.len() + t,
            fresh_matches_with_shapes(v@, first_part + second_part.take(t as int)),
        decreases half - b0 - t,
    {
        let m = layout_match([Opponent::Unknown, Opponent::Unknown], [half + 1 + b0 + t, h + half - b0 - t]);
        v.push(m);
        proof {
            assert(first_part + second_part.take(t + 1) =~= (first_part + second_part.take(
                t as int,
            )).push(second_part[t as int]));
        }
        t += 1;
    }
    assert(second_part.take(second_part.len() as int) =~= second_part);
    v
}

/// Matches of the loser bracket of `n` players, level by level, all with
/// identifier 0
pub(crate) fn loser_bracket_layout(n: usize) -> (matches: Vec<Match>)
    requires
        n >= 3,
        next_power_of_two(n as nat) <= usize::MAX,
    ensures
        fresh_matches_with_shapes(matches@, loser_bracket_shapes(n as int)),
{
    let mut p: usize = 1;
    while p < n
        invariant
            1 <= p,
            p == 1 || p / 2 < n,
            is_pow2(p as nat),
            npo2_from(n as nat, p as nat) == next_power_of_two(n as nat),
            next_power_of_two(n as nat) <= usize::MAX,
        decreases (if p >= n { 0 } else { n - p }),
    {
        proof {
            if p > usize::MAX / 2 {
                crate::seeding::single_elimination_seeded_bracket::lemma_npo2_from_grows(
                    n as nat,
                    2 * p as nat,
                );
                assert(false);
            }
        }
        proof {
            lemma_pow2_double(p as nat);
        }
        p = p * 2;
    }
    proof {
        lemma_pow2_even(p as nat);
        assert(npo2_from(n as nat, p as nat) == p);
    }
    let ghost full = loser_bracket_shapes(n as int);
    let mut matches: Vec<Match> = Vec::new();
    let mut h = p / 2;
    proof {
        assert(full.take(0) + loser_shapes_from(n as int, h as int) =~= full);
    }
    while h >= 2
        invariant
            next_power_of_two(n as nat) <= usize::MAX,
            3 <= n <= p,
            h <= p / 2,
            p <= usize::MAX,
            is_pow2(h as nat) || h == 0,
            full == loser_bracket_shapes(n as int),
            matches@.len() <= full.len(),
            fresh_matches_with_shapes(matches@, full.take(matches@.len() as int)),
            full.take(matches@.len() as int) + loser_shapes_from(n as int, h as int) == full,
        decreases h,
    {
        proof {
            lemma_pow2_even(h as nat);
        }
        let ghost prefix = full.take(matches@.len() as int);
        let ghost round = loser_round_shapes(n as int, h as int);
        assert(loser_shapes_from(n as int, h as int) == round + loser_shapes_from(
            n as int,
            (h / 2) as int,
        ));
        let mut this_round = loser_round_matches(n, h);
        let ghost before = matches@;
        let ghost added = this_round@;
        matches.append(&mut this_round);
        proof {
            lemma_fresh_matches_concat(before, prefix, added, round);
            assert(full =~= prefix + round + loser_shapes_from(n as int, (h / 2) as int));
            assert(full.take(matches@.len() as int) =~= prefix + round);
        }
        h = h / 2;
    }
    proof {
        assert(loser_shapes_from(n as int, h as int) =~= Seq::<MatchShape>::empty());
        assert(full.take(matches@.len() as int) =~= full);
    }
    matches
}

/// Matches of the loser bracket of `n` players, with the identifiers `ids`,
/// one per match in order; nothing when an identifier comes twice
pub fn loser_matches_with_ids(n: usize, ids: &[MatchId]) -> (res: Option<Vec<Match>>)
    requires
        n >= 3,
        next_power_of_two(n as nat) <= usize::MAX,
        ids@.len() == loser_bracket_shapes(n as int).len(),
    ensures
        res is Some <==> crate::player::no_duplicates(ids@),
        res matches Some(v) ==> v@.len() == ids@.len() && forall|i: int|
            0 <= i < v@.len() ==> #[trigger] v@[i] == crate::matches::fresh_match(
                ids@[i],
                loser_bracket_shapes(n as int)[i].0,
                loser_bracket_shapes(n as int)[i].1,
            ),
{
    let layout = loser_bracket_layout(n);
    let res = crate::bracket::matches::assign_ids(layout, ids);
    proof {
        if let Some(v) = &res {
            let sh = loser_bracket_shapes(n as int);
            assert forall|i: int| 0 <= i < v@.len() implies #[trigger] v@[i]
                == crate::matches::fresh_match(ids@[i], sh[i].0, sh[i].1) by {
                assert(layout@[i] == crate::matches::fresh_match(layout@[i].id, sh[i].0, sh[i].1));
            }
        }
    }
    res
}

/// Returns looser bracket for a double elimination tournament
///
/// The loosers of winner round X (power of 2 except for round 1) drop into
/// lower bracket and are matched against the winners of the previous looser
/// bracket round (also a power of two).
/// When dropping from winner round 1, you may get a bye match if your seed is
/// high for this looser round. Highest seeds are then matched against lowest
/// seeds.
///
/// Note that it is not balanced in the sense that seed 2 will only get one
/// match in loosers while bottom seed dropping to loosers has the longest road
/// ahead of them. It is only balanced when computing one round of looser
/// because any player in a round has at most one less match to play.
///
/// # Errors
/// thrown when math overflow happens, or when no random identifier can be
/// drawn for a match
pub fn get_loser_bracket_matches_top_seed_favored(seeding: &[PlayerId]) -> (res: Result<
    Vec<Match>,
    Error,
>)
    requires
        seeding@.len() >= 3,
        crate::player::no_duplicates(seeding@),
    ensures
        next_power_of_two(seeding@.len()) > usize::MAX <==> (res matches Err(e) && e is MathOverflow),
        res matches Err(e) ==> e is MathOverflow || e is NoRandomId,
        res matches Ok(v) ==> fresh_matches_with_shapes(
            v@,
            loser_bracket_shapes(seeding@.len() as int),
        ) && crate::bracket::matches::distinct_ids(v@),
{
    let n = seeding.len();
    if !crate::seeding::single_elimination_seeded_bracket::power_of_two_fits(n) {
        return Err(Error::MathOverflow);
    }
    proof {
        lemma_loser_bracket_match_count(n as int);
    }
    let ids = match crate::ids::new_random_ids(n - 2) {
        Some(ids) => ids,
        None => return Err(Error::NoRandomId),
    };
    match loser_matches_with_ids(n, ids.as_slice()) {
        Some(v) => {
            proof {
                let sh = loser_bracket_shapes(n as int);
                assert forall|i: int| 0 <= i < v@.len() implies #[trigger] v@[i]
                    == crate::matches::fresh_match(v@[i].id, sh[i].0, sh[i].1) by {
                    assert(v@[i] == crate::matches::fresh_match(ids@[i], sh[i].0, sh[i].1));
                }
                assert forall|x: int, y: int| 0 <= x < y < v@.len() implies (#[trigger] v@[x]).id
                    != (#[trigger] v@[y]).id by {
                    assert(v@[x] == crate::matches::fresh_match(ids@[x], sh[x].0, sh[x].1));
                    assert(v@[y] == crate::matches::fresh_match(ids@[y], sh[y].0, sh[y].1));
                }
            }
            Ok(v)
        },
        None => Err(Error::NoRandomId),
    }
}

} // verus!
