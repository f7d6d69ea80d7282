//! Text summaries of matches, for people following a bracket

use crate::ids::id_text;
use crate::matches::text::{nat_text, usize_text};
use crate::matches::Match;
use crate::opponent::{opponent_text, Opponent};
use crate::player::{ids_of, Participants, Player};
use vstd::prelude::*;
use vstd::string::*;

verus! {

/// Status of the player in `slot` of `m`: `W` when they won, `L` when they
/// were disqualified, `-` otherwise
pub open spec fn status_text(m: Match, slot: int) -> Seq<char> {
    match m.players[slot] {
        Opponent::Player(p) => if m.winner == Opponent::Player(p) {
            seq!['W']
        } else if m.automatic_loser == Opponent::Player(p) {
            seq!['L']
        } else {
            seq!['-']
        },
        Opponent::Unknown => seq!['-'],
    }
}

/// `s` padded with spaces on the right to at least two characters
pub open spec fn padded(s: Seq<char>) -> Seq<char> {
    if s.len() < 2 {
        s + Seq::new((2 - s.len()) as nat, |i: int| ' ')
    } else {
        s
    }
}

/// Summary of match `m` whose players read `p1` and `p2`: seeds, status and
/// text of each player, match identifier; such as
/// `[1, 2] Wp1 VS -p2 | match id: ...`
pub open spec fn summary_text(m: Match, p1: Seq<char>, p2: Seq<char>) -> Seq<char> {
    seq!['['] + nat_text(m.seeds[0] as nat) + seq![',', ' '] + nat_text(m.seeds[1] as nat) + seq![
        ']',
        ' ',
    ] + status_text(m, 0) + padded(p1) + seq![' ', 'V', 'S', ' '] + status_text(m, 1) + padded(
        p2,
    ) + seq![' ', '|', ' ', 'm', 'a', 't', 'c', 'h', ' ', 'i', 'd', ':', ' '] + id_text(m.id)
}

/// Status of the player in `slot` of `m`
fn status(m: &Match, slot: usize) -> (res: &'static str)
    requires
        slot < 2,
    ensures
        res@ == status_text(*m, slot as int),
{
    proof {
        reveal_strlit("W");
        reveal_strlit("L");
        reveal_strlit("-");
    }
    match m.players[slot] {
        Opponent::Player(p) => {
            if m.winner == Opponent::Player(p) {
                "W"
            } else if m.automatic_loser == Opponent::Player(p) {
                "L"
            } else {
                "-"
            }
        },
        Opponent::Unknown => "-",
    }
}

/// `s` padded with spaces on the right to at least two characters
fn pad(s: String) -> (res: String)
    ensures
        res@ == padded(s@),
{
    let n = s.as_str().unicode_len();
    if n == 0 {
        proof {
            reveal_strlit("  ");
        }
        let res = s.concat("  ");
        assert(res@ =~= padded(s@));
        res
    } else if n == 1 {
        proof {
            reveal_strlit(" ");
        }
        let res = s.concat(" ");
        assert(res@ =~= padded(s@));
        res
    } else {
        s
    }
}

/// Summary of `m` with its players written as `p1` and `p2`
fn summary_of(m: &Match, p1: String, p2: String) -> (res: String)
    ensures
        res@ == summary_text(*m, p1@, p2@),
{
    let open = "[";
    let comma = ", ";
    let close = "] ";
    let versus = " VS ";
    let id_label = " | match id: ";
    proof {
        reveal_strlit("[");
        reveal_strlit(", ");
        reveal_strlit("] ");
        reveal_strlit(" VS ");
        reveal_strlit(" | match id: ");
    }
    let s = String::from_str(open);
    let s = s.concat(usize_text(m.seeds[0]).as_str());
    let s = s.concat(comma);
    let s = s.concat(usize_text(m.seeds[1]).as_str());
    let s = s.concat(close);
    let s = s.concat(status(m, 0));
    let s = s.concat(pad(p1).as_str());
    let s = s.concat(versus);
    let s = s.concat(status(m, 1));
    let s = s.concat(pad(p2).as_str());
    let s = s.concat(id_label);
    let s = s.concat(Opponent::Player(m.id).to_string().as_str());
    proof {
        assert(opponent_text(Opponent::Player(m.id)) == id_text(m.id));
        assert(s@ =~= summary_text(*m, p1@, p2@));
    }
    s
}

/// Name of opponent `o` among `participants`: `?` when unknown
fn name_of_opponent(o: Opponent, participants: &Participants) -> (res: String)
    requires
        o matches Opponent::Player(p) ==> ids_of(participants@).contains(p),
    ensures
        o is Unknown ==> res@ == seq!['?'],
        o matches Opponent::Player(p) ==> exists|q: Player|
            participants@.contains(q) && q.spec_id() == p && res@ == q.spec_name(),
{
    match o {
        Opponent::Player(id) => match participants.get(id) {
            Some(player) => player.get_name(),
            None => {
                proof {
                    assert(false);
                }
                String::new()
            },
        },
        Opponent::Unknown => Opponent::Unknown.to_string(),
    }
}

impl Match {
    /// Summary of match: seeds, players (by identifier) with their status
    /// and match identifier
    #[must_use]
    pub fn summary(&self) -> (res: String)
        ensures
            res@ == summary_text(*self, opponent_text(self.players[0]), opponent_text(self.players[1])),
    {
        summary_of(self, self.players[0].to_string(), self.players[1].to_string())
    }

    /// Summary of match, with the names of its players among
    /// `participants`
    #[must_use]
    pub fn summary_with_name(&self, participants: &Participants) -> (res: String)
        requires
            self.players[0] matches Opponent::Player(p) ==> ids_of(participants@).contains(p),
            self.players[1] matches Opponent::Player(p) ==> ids_of(participants@).contains(p),
        ensures
            exists|n1: Seq<char>, n2: Seq<char>|
                {
                    &&& res@ == summary_text(*self, n1, n2)
                    &&& self.players[0] is Unknown ==> n1 == seq!['?']
                    &&& self.players[1] is Unknown ==> n2 == seq!['?']
                    &&& self.players[0] matches Opponent::Player(p) ==> exists|q: Player|
                        participants@.contains(q) && q.spec_id() == p && n1 == q.spec_name()
                    &&& self.players[1] matches Opponent::Player(p) ==> exists|q: Player|
                        participants@.contains(q) && q.spec_id() == p && n2 == q.spec_name()
                },
    {
        let n1 = name_of_opponent(self.players[0], participants);
        let n2 = name_of_opponent(self.players[1], participants);
        let ghost g1 = n1@;
        let ghost g2 = n2@;
        let res = summary_of(self, n1, n2);
        assert(res@ == summary_text(*self, g1, g2));
        res
    }
}

} // verus!
