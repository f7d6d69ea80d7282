//! Parts of a double elimination bracket: winner bracket, loser bracket,
//! grand finals and its reset

use crate::bracket::PartitionError;
use crate::double_elimination_bracket::{
    de_assemble, de_grand_finals, de_grand_finals_reset, de_loser_bracket, de_well_formed,
    de_winner_bracket, DoubleEliminationBracket,
};
use crate::bracket::matches::matches_range;
use crate::bracket::winner_bracket::{rounds_view, two_pow, winner_bracket, winner_bracket_rounds};
use crate::matches::Match;
use vstd::prelude::*;

verus! {

/// Rounds of the loser bracket matches `ms`, formed from the last match
/// backwards: rounds of `size` matches, the size doubling after every
/// second round (`double_next` tells whether it doubles after this one);
/// the matches left over form the first round
pub open spec fn loser_rounds(ms: Seq<Match>, size: int, double_next: bool) -> Seq<Seq<Match>>
    decreases ms.len(),
{
    if ms.len() == 0 {
        Seq::empty()
    } else if ms.len() < size || size <= 0 {
        seq![ms]
    } else {
        loser_rounds(
            ms.take(ms.len() - size),
            if double_next {
                2 * size
            } else {
                size
            },
            !double_next,
        ).push(ms.skip(ms.len() - size))
    }
}

/// Shape of the loser bracket rounds once `t` rounds have been taken from
/// the end: the rounds cover `ms` in order, every round but the first
/// counted from the last match at position `k` has `2^(k/2)` matches, and
/// the first has at least one and at most that many
proof fn lemma_loser_rounds_shape(ms: Seq<Match>, t: nat)
    ensures
        ({
            let r = loser_rounds(ms, two_pow(t / 2) as int, t % 2 == 1);
            &&& r.flatten() == ms
            &&& (ms.len() > 0) == (r.len() > 0)
            &&& forall|j: int|
                1 <= j < r.len() ==> #[trigger] r[j].len() == two_pow(
                    ((t + r.len() - 1 - j) / 2) as nat,
                )
            &&& r.len() > 0 ==> 1 <= r[0].len() <= two_pow(((t + r.len() - 1) / 2) as nat)
        }),
    decreases ms.len(),
{
    broadcast use Seq::lemma_flatten_singleton, Seq::lemma_flatten_push;

    let size = two_pow(t / 2) as int;
    let dn = t % 2 == 1;
    assert(size >= 1) by {
        lemma_two_pow_positive(t / 2);
    }
    let r = loser_rounds(ms, size, dn);
    if ms.len() == 0 {
        assert(r =~= Seq::<Seq<Match>>::empty());
        assert(r.flatten() =~= Seq::<Match>::empty());
    } else if ms.len() < size {
        assert(r == seq![ms]);
    } else {
        let t1 = t + 1;
        let next = if dn {
            2 * size
        } else {
            size
        };
        assert(two_pow(t1 / 2) as int == next) by {
            if dn {
                assert(t1 / 2 == t / 2 + 1);
            } else {
                assert(t1 / 2 == t / 2);
            }
        }
        assert((t1 % 2 == 1) == !dn);
        let pre = ms.take(ms.len() - size);
        let last = ms.skip(ms.len() - size);
        lemma_loser_rounds_shape(pre, t1);
        let r1 = loser_rounds(pre, next, !dn);
        assert(r == r1.push(last));
        assert(pre + last =~= ms);
        assert forall|j: int| 1 <= j < r.len() implies #[trigger] r[j].len() == two_pow(
            ((t + r.len() - 1 - j) / 2) as nat,
        ) by {
            if j < r1.len() {
                assert(r[j] == r1[j]);
                assert(t1 + r1.len() - 1 - j == t + r.len() - 1 - j);
            } else {
                assert(r[j] == last);
            }
        }
        if r1.len() > 0 {
            assert(r[0] == r1[0]);
            assert(t1 + r1.len() - 1 == t + r.len() - 1);
        } else {
            assert(r[0] == last);
        }
    }
}

/// Powers of two are positive
proof fn lemma_two_pow_positive(e: nat)
    ensures
        two_pow(e) >= 1,
    decreases e,
{
    if e > 0 {
        lemma_two_pow_positive((e - 1) as nat);
    }
}

/// Rounds of a loser bracket: they hold its matches `ms` in order; counted
/// from the last match, round `k` (0 for the last round) holds `2^(k/2)`
/// matches, so the sizes from the end are 1, 1, 2, 2, 4, 4, 8, 8..., each
/// round but the first being a full one; the first round holds the matches
/// left over, at least one and at most the size of a full round there
pub proof fn lemma_loser_bracket_rounds(ms: Seq<Match>)
    ensures
        ({
            let r = loser_rounds(ms, 1, false);
            &&& r.flatten() == ms
            &&& (ms.len() > 0) == (r.len() > 0)
            &&& forall|j: int|
                1 <= j < r.len() ==> #[trigger] r[j].len() == two_pow(((r.len() - 1 - j) / 2) as nat)
            &&& r.len() > 0 ==> 1 <= r[0].len() <= two_pow(((r.len() - 1) / 2) as nat)
        }),
{
    lemma_loser_rounds_shape(ms, 0);
    assert(two_pow(0) == 1);
}

/// Partition loser bracket matches into rounds: from the last match, rounds
/// of 1, 1, 2, 2, 4, 4... matches, the matches left over forming the first
/// round
pub fn loser_bracket(lb_matches: &[Match]) -> (res: Vec<Vec<Match>>)
    requires
        lb_matches@.len() < usize::MAX / 2,
    ensures
        rounds_view(res@) == loser_rounds(lb_matches@, 1, false),
        ({
            let r = rounds_view(res@);
            &&& r.flatten() == lb_matches@
            &&& (lb_matches@.len() > 0) == (r.len() > 0)
            &&& forall|j: int|
                1 <= j < r.len() ==> #[trigger] r[j].len() == two_pow(((r.len() - 1 - j) / 2) as nat)
            &&& r.len() > 0 ==> 1 <= r[0].len() <= two_pow(((r.len() - 1) / 2) as nat)
        }),
{
    let ghost ms = lb_matches@;
    let mut rounds: Vec<Vec<Match>> = Vec::new();
    let mut end = lb_matches.len();
    let mut size: usize = 1;
    let mut double_next = false;
    proof {
        assert(rounds_view(rounds@) =~= Seq::<Seq<Match>>::empty());
        assert(ms.take(end as int) =~= ms);
    }
    while end > 0
        invariant
            end <= ms.len(),
            ms == lb_matches@,
            ms.len() < usize::MAX / 2,
            1 <= size <= ms.len() + 1,
            loser_rounds(ms.take(end as int), size as int, double_next) + rounds_view(rounds@)
                == loser_rounds(ms, 1, false),
        decreases end,
    {
        let ghost pre = ms.take(end as int);
        let ghost before = rounds@;
        if end < size {
            let round = matches_range(lb_matches, 0, end);
            rounds.insert(0, round);
            proof {
                assert(round@ =~= pre);
                assert(rounds_view(rounds@) =~= seq![pre] + rounds_view(before));
                assert(ms.take(0) =~= Seq::<Match>::empty());
            }
            end = 0;
        } else {
            let round = matches_range(lb_matches, end - size, end);
            rounds.insert(0, round);
            proof {
                assert(round@ =~= pre.skip(pre.len() - size));
                assert(ms.take(end - size) =~= pre.take(pre.len() - size));
                assert(rounds_view(rounds@) =~= seq![pre.skip(pre.len() - size)] + rounds_view(
                    before,
                ));
                assert(loser_rounds(pre, size as int, double_next) == loser_rounds(
                    pre.take(pre.len() - size),
                    if double_next {
                        2 * size
                    } else {
                        size as int
                    },
                    !double_next,
                ).push(pre.skip(pre.len() - size)));
                let nxt = loser_rounds(
                    pre.take(pre.len() - size),
                    if double_next {
                        2 * size
                    } else {
                        size as int
                    },
                    !double_next,
                );
                assert(nxt.push(pre.skip(pre.len() - size)) + rounds_view(before) =~= nxt + (seq![
                    pre.skip(pre.len() - size),
                ] + rounds_view(before)));
            }
            end = end - size;
            if double_next {
                if size <= end {
                    size = 2 * size;
                } else {
                    proof {
                        let rest = ms.take(end as int);
                        assert(loser_rounds(rest, 2 * size, !double_next) == loser_rounds(
                            rest,
                            end + 1,
                            !double_next,
                        ));
                    }
                    size = end + 1;
                }
            }
            double_next = !double_next;
        }
    }
    proof {
        assert(ms.take(0) =~= Seq::<Match>::empty());
        assert(Seq::<Seq<Match>>::empty() + rounds_view(rounds@) =~= rounds_view(rounds@));
        lemma_loser_bracket_rounds(ms);
    }
    rounds
}

/// Matches of a double elimination bracket from its parts
pub fn double_elimination_matches_from_partition(wb: Vec<Match>, lb: Vec<Match>, gf: Match, gfr: Match) -> (res: Vec<Match>)
    ensures
        res@ == de_assemble(wb@, lb@, gf, gfr),
{
    let mut res = wb;
    let mut lb = lb;
    res.append(&mut lb);
    res.push(gf);
    res.push(gfr);
    res
}

/// Winner bracket, loser bracket, grand finals and grand finals reset of
/// matches `b` of `n` players
pub fn partition_double_elimination_matches(b: &[Match], n: usize) -> (res: (Vec<Match>, Vec<Match>, Match, Match))
    requires
        n >= 3,
        b@.len() == 2 * n - 1,
    ensures
        res.0@ == de_winner_bracket(b@, n as int),
        res.1@ == de_loser_bracket(b@, n as int),
        res.2 == de_grand_finals(b@, n as int),
        res.3 == de_grand_finals_reset(b@, n as int),
        de_assemble(res.0@, res.1@, res.2, res.3) == b@,
{
    let mut wb: Vec<Match> = Vec::new();
    for i in 0..n - 1
        invariant
            n >= 3,
            b@.len() == 2 * n - 1,
            wb@ == b@.subrange(0, i as int),
    {
        wb.push(b[i]);
        assert(wb@ =~= b@.subrange(0, i + 1));
    }
    let mut lb: Vec<Match> = Vec::new();
    for i in n - 1..b.len() - 2
        invariant
            n >= 3,
            b@.len() == 2 * n - 1,
            lb@ == b@.subrange(n - 1, i as int),
    {
        lb.push(b[i]);
        assert(lb@ =~= b@.subrange(n - 1, i + 1));
    }
    let gf = b[b.len() - 2];
    let gfr = b[b.len() - 1];
    assert(de_assemble(wb@, lb@, gf, gfr) =~= b@);
    (wb, lb, gf, gfr)
}

impl DoubleEliminationBracket {
    /// Returns winner bracket, loser bracket, grand finals and grand final
    /// reset
    ///
    /// # Errors
    /// Returns an error when there is less than 3 players in the bracket
    pub fn partition_matches(&self) -> (res: Result<
        (Vec<Match>, Vec<Match>, Match, Match),
        PartitionError,
    >)
        ensures
            res is Err <==> self.spec_n() < 3,
            res matches Ok((wb, lb, gf, gfr)) ==> {
                &&& de_well_formed(self.spec_matches(), self.spec_n())
                &&& wb@ == de_winner_bracket(self.spec_matches(), self.spec_n())
                &&& lb@ == de_loser_bracket(self.spec_matches(), self.spec_n())
                &&& gf == de_grand_finals(self.spec_matches(), self.spec_n())
                &&& gfr == de_grand_finals_reset(self.spec_matches(), self.spec_n())
            },
    {
        proof {
            use_type_invariant(self);
        }
        let n = self.seeding.len();
        if n < 3 {
            return Err(PartitionError::NotEnoughPlayersInBracket);
        }
        Ok(partition_double_elimination_matches(self.matches.as_slice(), n))
    }

    /// Returns winner bracket partitionned by round
    ///
    /// # Errors
    /// Returns an error when there is less than 3 players in the bracket
    pub fn partition_winner_bracket(&self) -> (res: Result<Vec<Vec<Match>>, PartitionError>)
        requires
            crate::seeding::single_elimination_seeded_bracket::next_power_of_two(
                self.spec_n() as nat,
            ) <= usize::MAX,
        ensures
            res is Err <==> self.spec_n() < 3,
            res matches Ok(rounds) ==> rounds_view(rounds@) == winner_bracket_rounds(
                de_winner_bracket(self.spec_matches(), self.spec_n()),
                self.spec_n(),
            ),
            res matches Ok(rounds) ==> ({
                let n = self.spec_n();
                let p = crate::seeding::single_elimination_seeded_bracket::next_power_of_two(
                    n as nat,
                ) as int;
                let r = rounds_view(rounds@);
                &&& r.flatten() == de_winner_bracket(self.spec_matches(), n)
                &&& r.len() >= 1
                &&& r[0].len() == n - p / 2
                &&& forall|k: int|
                    1 <= k < r.len() ==> #[trigger] r[k].len() * two_pow((k + 1) as nat) == p
                &&& r.last().len() == 1
            }),
    {
        let (wb_matches, _, _, _) = self.partition_matches()?;
        assert(wb_matches@.len() + 1 == self.spec_n());
        Ok(winner_bracket(wb_matches.as_slice(), self.seeding.len()))
    }

    /// Returns loser bracket partitionned by round
    ///
    /// # Errors
    /// Returns an error when there is less than 3 players in the bracket
    pub fn partition_loser_bracket(&self) -> (res: Result<Vec<Vec<Match>>, PartitionError>)
        ensures
            res is Err <==> self.spec_n() < 3,
            res matches Ok(rounds) ==> rounds_view(rounds@) == loser_rounds(
                de_loser_bracket(self.spec_matches(), self.spec_n()),
                1,
                false,
            ),
            res matches Ok(rounds) ==> ({
                let r = rounds_view(rounds@);
                &&& r.flatten() == de_loser_bracket(self.spec_matches(), self.spec_n())
                &&& r.len() >= 1
                &&& forall|j: int|
                    1 <= j < r.len() ==> #[trigger] r[j].len() == two_pow(
                        ((r.len() - 1 - j) / 2) as nat,
                    )
                &&& 1 <= r[0].len() <= two_pow(((r.len() - 1) / 2) as nat)
            }),
    {
        let total = self.matches.len();
        let (_, lb_matches, _, _) = self.partition_matches()?;
        assert(total == self.spec_matches().len());
        Ok(loser_bracket(lb_matches.as_slice()))
    }

    /// Returns grand finals and grand finals reset
    ///
    /// # Errors
    /// Returns an error when there is less than 3 players in the bracket
    pub fn grand_finals_and_reset(&self) -> (res: Result<(Match, Match), PartitionError>)
        ensures
            res is Err <==> self.spec_n() < 3,
            res matches Ok((gf, gfr)) ==> gf == de_grand_finals(self.spec_matches(), self.spec_n())
                && gfr == de_grand_finals_reset(self.spec_matches(), self.spec_n()),
    {
        let (_, _, gf, gf_reset) = self.partition_matches()?;
        Ok((gf, gf_reset))
    }
}

} // verus!
