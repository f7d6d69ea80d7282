//! Winner bracket partitioned by round

use crate::bracket::matches::matches_range;
use crate::matches::Match;
use crate::seeding::single_elimination_seeded_bracket::{
    is_pow2, lemma_next_power_of_two, next_power_of_two,
};
use vstd::prelude::*;

verus! {

/// Views of rounds of matches
pub open spec fn rounds_view(rounds: Seq<Vec<Match>>) -> Seq<Seq<Match>> {
    rounds.map_values(|r: Vec<Match>| r@)
}

/// Rounds of `ms` where the first has `q` matches and each next round half
/// as many; the last match is a round of its own
pub open spec fn halving_rounds(ms: Seq<Match>, q: int) -> Seq<Seq<Match>>
    decreases ms.len(),
{
    if ms.len() == 0 {
        Seq::empty()
    } else if ms.len() == 1 || q <= 0 || q > ms.len() {
        seq![ms]
    } else {
        seq![ms.take(q)] + halving_rounds(ms.skip(q), q / 2)
    }
}

/// Rounds of the winner bracket `ms` of `n` players: the first round has
/// the players without a bye, `n - p/2` matches for a bracket of size `p`;
/// then each round has half as many matches as the full round before it
pub open spec fn winner_bracket_rounds(ms: Seq<Match>, n: int) -> Seq<Seq<Match>> {
    let p = next_power_of_two(n as nat) as int;
    if ms.len() == 0 {
        Seq::empty()
    } else {
        seq![ms.take(n - p / 2)] + halving_rounds(ms.skip(n - p / 2), p / 4)
    }
}

/// 2 to the power `e`
pub open spec fn two_pow(e: nat) -> nat
    decreases e,
{
    if e == 0 {
        1
    } else {
        2 * two_pow((e - 1) as nat)
    }
}

/// Powers of two multiply by adding their exponents
pub proof fn lemma_two_pow_add(a: nat, b: nat)
    ensures
        two_pow(a) * two_pow(b) == two_pow(a + b),
    decreases a,
{
    if a > 0 {
        let a1 = (a - 1) as nat;
        lemma_two_pow_add(a1, b);
        let x = two_pow(a1);
        let y = two_pow(b);
        assert(two_pow(a) == 2 * x);
        assert(two_pow(a1 + b) == x * y);
        assert(two_pow(a + b) == 2 * two_pow(a1 + b));
        assert((2 * x) * y == 2 * (x * y)) by (nonlinear_arith);
    } else {
        assert(two_pow(a) == 1);
        assert(a + b == b);
    }
}

/// A power of two is 2 to the power of some exponent
proof fn lemma_pow2_exponent(p: nat) -> (e: nat)
    requires
        is_pow2(p),
    ensures
        two_pow(e) == p,
    decreases p,
{
    if p <= 1 {
        0
    } else {
        let e = lemma_pow2_exponent(p / 2);
        (e + 1) as nat
    }
}

/// Halving rounds from a round of `2^e` matches over `2^(e+1) - 1` matches
/// (plus one more match when `extra` is 1): rounds of `2^e`, `2^(e-1)`...
/// down to 1 match, covering the matches in order; the extra match is a
/// round of its own
proof fn lemma_halving_rounds(ms: Seq<Match>, e: nat, extra: int)
    requires
        0 <= extra <= 1,
        ms.len() == 2 * two_pow(e) - 1 + extra,
    ensures
        ({
            let r = halving_rounds(ms, two_pow(e) as int);
            &&& r.flatten() == ms
            &&& r.len() == e + 1 + extra
            &&& forall|k: int| 0 <= k <= e ==> #[trigger] r[k].len() == two_pow((e - k) as nat)
            &&& extra == 1 ==> r[e as int + 1].len() == 1
        }),
    decreases e,
{
    broadcast use Seq::lemma_flatten_singleton;

    let q = two_pow(e) as int;
    let r = halving_rounds(ms, q);
    if e == 0 {
        if extra == 1 {
            let rest = ms.skip(1);
            assert(halving_rounds(rest, 0) == seq![rest]);
            assert(r == seq![ms.take(1)] + seq![rest]);
            assert(r == seq![ms.take(1), rest]);
            assert(r.flatten() == ms.take(1) + seq![rest].flatten()) by {
                assert(r.drop_first() =~= seq![rest]);
            }
            assert(ms.take(1) + rest =~= ms);
        }
    } else {
        assert(two_pow(e) == 2 * two_pow((e - 1) as nat));
        let half = two_pow((e - 1) as nat) as int;
        assert(q / 2 == half);
        let rest = ms.skip(q);
        lemma_halving_rounds(rest, (e - 1) as nat, extra);
        let r2 = halving_rounds(rest, half);
        assert(r == seq![ms.take(q)] + r2);
        assert(r.drop_first() =~= r2);
        assert(r.flatten() == ms.take(q) + r2.flatten());
        assert(ms.take(q) + rest =~= ms);
        assert forall|k: int| 0 <= k <= e implies #[trigger] r[k].len() == two_pow((e - k) as nat) by {
            if k > 0 {
                assert(r[k] == r2[k - 1]);
                assert((e - 1 - (k - 1)) as nat == (e - k) as nat);
            }
        }
        if extra == 1 {
            assert(r[e as int + 1] == r2[e as int]);
        }
    }
}

/// A winner bracket of `n` players, with its `n - 1` matches (and possibly
/// one more match), is split into rounds that cover its matches in order.
/// With `p` the size of the bracket (the smallest power of two at least
/// `n`): the first round has the `n - p/2` matches of the players without a
/// bye; round `k` after it holds `p / 2^(k+1)` matches, each round half as
/// many as the one before, down to the final of one match. An extra match
/// is a round of its own at the end.
pub proof fn lemma_winner_bracket_rounds(ms: Seq<Match>, n: int)
    requires
        n >= 2,
        ms.len() == n - 1 || ms.len() == n,
    ensures
        ({
            let p = next_power_of_two(n as nat) as int;
            let r = winner_bracket_rounds(ms, n);
            let extra = ms.len() - (n - 1);
            &&& r.flatten() == ms
            &&& r.len() >= 1
            &&& r[0].len() == n - p / 2
            &&& forall|k: int|
                1 <= k < r.len() - extra ==> #[trigger] r[k].len() * two_pow((k + 1) as nat) == p
            &&& r.last().len() == 1
        }),
{
    broadcast use Seq::lemma_flatten_singleton;

    lemma_next_power_of_two(n as nat);
    let p = next_power_of_two(n as nat) as int;
    let big_e = lemma_pow2_exponent(p as nat);
    let extra = ms.len() - (n - 1);
    let r = winner_bracket_rounds(ms, n);
    let first = ms.take(n - p / 2);
    let rest = ms.skip(n - p / 2);
    assert(big_e >= 1) by {
        if big_e == 0 {
            assert(p == 1);
        }
    }
    assert(p == 2 * two_pow((big_e - 1) as nat));
    let h = halving_rounds(rest, p / 4);
    assert(r == seq![first] + h);
    assert(r.drop_first() =~= h);
    assert(r.flatten() == first + h.flatten());
    assert(first + rest =~= ms);
    if big_e == 1 {
        assert(p == 2);
        assert(rest.len() == extra);
        if extra == 1 {
            assert(h == seq![rest]);
        } else {
            assert(h =~= Seq::<Seq<Match>>::empty());
        }
    } else {
        let e = (big_e - 2) as nat;
        assert(two_pow((big_e - 1) as nat) == 2 * two_pow(e));
        assert(p / 4 == two_pow(e));
        lemma_halving_rounds(rest, e, extra);
        assert forall|k: int| 1 <= k < r.len() - extra implies #[trigger] r[k].len() * two_pow(
            (k + 1) as nat,
        ) == p by {
            assert(r[k] == h[k - 1]);
            lemma_two_pow_add((e - (k - 1)) as nat, (k + 1) as nat);
            assert((e - (k - 1)) as nat + (k + 1) as nat == big_e);
        }
        if extra == 0 {
            assert(r.last() == h[e as int]);
        } else {
            assert(r.last() == h[e as int + 1]);
        }
    }
}

/// Partition winner bracket matches `matches` of `n` players into rounds.
/// A winner bracket of `n` players has `n - 1` matches; with `n` matches, the
/// last one stands in a round of its own.
pub fn winner_bracket(matches: &[Match], n: usize) -> (res: Vec<Vec<Match>>)
    requires
        matches@.len() == 0 || matches@.len() + 1 == n || matches@.len() == n,
        matches@.len() > 0 ==> next_power_of_two(n as nat) <= usize::MAX,
    ensures
        rounds_view(res@) == winner_bracket_rounds(matches@, n as int),
        n >= 2 && matches@.len() > 0 ==> ({
            let p = next_power_of_two(n as nat) as int;
            let r = rounds_view(res@);
            let extra = matches@.len() - (n - 1);
            &&& r.flatten() == matches@
            &&& r.len() >= 1
            &&& r[0].len() == n - p / 2
            &&& forall|k: int|
                1 <= k < r.len() - extra ==> #[trigger] r[k].len() * two_pow((k + 1) as nat) == p
            &&& r.last().len() == 1
        }),
{
    let mut partition: Vec<Vec<Match>> = Vec::new();
    if matches.len() == 0 {
        assert(rounds_view(partition@) =~= Seq::<Seq<Match>>::empty());
        return partition;
    }
    proof {
        lemma_next_power_of_two(n as nat);
    }
    let mut p: usize = 1;
    while p < n
        invariant
            1 <= p,
            p == 1 || p / 2 < n,
            crate::seeding::single_elimination_seeded_bracket::npo2_from(n as nat, p as nat)
                == next_power_of_two(n as nat),
            next_power_of_two(n as nat) <= usize::MAX,
            p <= next_power_of_two(n as nat),
        decreases (if p >= n { 0 } else { n - p }),
    {
        proof {
            crate::seeding::single_elimination_seeded_bracket::lemma_npo2_from_grows(
                n as nat,
                2 * p as nat,
            );
        }
        p = p * 2;
    }
    let first = n - p / 2;
    let ghost ms = matches@;
    partition.push(matches_range(matches, 0, first));
    let mut start = first;
    let mut q = p / 4;
    proof {
        assert(rounds_view(partition@) =~= seq![ms.take(first as int)]);
        assert(ms.subrange(0, first as int) =~= ms.take(first as int));
    }
    while start < matches.len()
        invariant
            start <= matches@.len(),
            ms == matches@,
            rounds_view(partition@) + halving_rounds(ms.skip(start as int), q as int)
                == winner_bracket_rounds(ms, n as int),
        decreases matches@.len() - start,
    {
        let ghost rest = ms.skip(start as int);
        let remaining = matches.len() - start;
        let size = if remaining == 1 || q == 0 || q > remaining {
            remaining
        } else {
            q
        };
        let round = matches_range(matches, start, start + size);
        proof {
            assert(round@ =~= rest.take(size as int));
            assert(ms.skip(start + size) =~= rest.skip(size as int));
            if size == remaining {
                assert(rest.take(size as int) =~= rest);
                assert(halving_rounds(rest, q as int) == seq![rest]);
                assert(halving_rounds(ms.skip(start + size), (q / 2) as int) =~= Seq::<
                    Seq<Match>,
                >::empty());
            }
        }
        let ghost before = partition@;
        partition.push(round);
        proof {
            assert(rounds_view(partition@) =~= rounds_view(before).push(rest.take(size as int)));
            assert(halving_rounds(rest, q as int) == seq![rest.take(size as int)] + halving_rounds(
                rest.skip(size as int),
                (q / 2) as int,
            )) by {
                if size == remaining {
                } else {
                }
            }
            assert(rounds_view(partition@) + halving_rounds(ms.skip(start + size), (q / 2) as int)
                =~= rounds_view(before) + halving_rounds(rest, q as int));
        }
        start = start + size;
        q = q / 2;
    }
    proof {
        assert(ms.skip(start as int) =~= Seq::<Match>::empty());
        assert(rounds_view(partition@) + Seq::<Seq<Match>>::empty() =~= rounds_view(partition@));
        if n >= 2 {
            lemma_winner_bracket_rounds(ms, n as int);
        }
    }
    partition
}

} // verus!
