use totsugeki::bracket::seeding::Seeding;
use totsugeki::next_opponent::Error as NextOpponentError;
use totsugeki::opponent::Opponent;
use totsugeki::player::{Participants, Player};
use totsugeki::single_elimination_bracket::SingleEliminationBracket;

/// Players p1..pn (an unused player first) and their bracket
fn bracket(n: usize, auto: bool) -> (Vec<Player>, SingleEliminationBracket) {
    let mut p = vec![Player::new("don't use".into()).expect("player")];
    let mut participants = Participants::new();
    for i in 1..=n {
        let player = Player::new(format!("p{i}")).expect("player");
        p.push(player.clone());
        participants = participants.add_participant(player).expect("new player");
    }
    let seeding = Seeding::new(participants.get_seeding()).expect("seeding");
    (p, SingleEliminationBracket::create(seeding, auto).expect("bracket"))
}

/// Players of `waiting` have no match to play; each pair of `pairs` plays
/// one of the matches to play
fn assert_next_matches(s: &SingleEliminationBracket, waiting: &[usize], pairs: &[(usize, usize)], p: &[Player]) {
    let to_play = s.matches_to_play();
    for w in waiting {
        assert!(
            !to_play.iter().any(|m| m.contains(p[*w].get_id())),
            "expected p{w} to wait but got {to_play:?}"
        );
    }
    for (a, b) in pairs {
        assert!(
            to_play.iter().any(|m| m.contains(p[*a].get_id()) && m.contains(p[*b].get_id())),
            "expected p{a} vs p{b} in {to_play:?}"
        );
    }
}

/// Every player but `winner` is eliminated; `winner` won the tournament
fn assert_elimination(s: &SingleEliminationBracket, p: &[Player], winner: usize) {
    assert!(s.is_over());
    for (i, player) in p.iter().enumerate().skip(1) {
        let res = s.next_opponent_in_bracket(player.get_id());
        if i == winner {
            assert!(matches!(res, Err(NextOpponentError::TournamentWon)), "p{i}: {res:?}");
        } else {
            assert!(matches!(res, Err(NextOpponentError::Eliminated)), "p{i}: {res:?}");
        }
    }
}

type Step<'a> = ((usize, (i8, i8), usize), usize, &'a [usize], &'a [(usize, usize)]);

/// The tournament organiser reports each result; without automatic
/// validation, the match is then validated
fn run(n: usize, auto: bool, steps: &[Step], winner: usize) {
    let (p, mut s) = bracket(n, auto);
    for ((a, r, b), new, waiting, pairs) in steps {
        let (next, match_id, new_matches) = s
            .tournament_organiser_reports_result(p[*a].get_id(), *r, p[*b].get_id())
            .expect("report");
        let (next, new_matches) = if auto {
            (next, new_matches)
        } else {
            next.validate_match_result(match_id)
        };
        assert_eq!(new_matches.len(), *new, "after p{a} vs p{b}: {new_matches:?}");
        assert_next_matches(&next, waiting, pairs, &p);
        s = next;
    }
    assert_elimination(&s, &p, winner);
}

const FIVE: [Step; 4] = [
    ((5, (2, 0), 4), 1, &[], &[(1, 5), (2, 3)]),
    ((1, (2, 1), 5), 0, &[1], &[(2, 3)]),
    ((3, (2, 0), 2), 1, &[], &[(1, 3)]),
    ((3, (2, 0), 1), 0, &[], &[]),
];

const EIGHT: [Step; 7] = [
    ((1, (2, 0), 8), 0, &[1], &[(2, 7), (3, 6), (4, 5)]),
    ((2, (2, 0), 7), 0, &[1, 2], &[(3, 6), (4, 5)]),
    ((5, (2, 0), 4), 1, &[2], &[(3, 6), (1, 5)]),
    ((5, (2, 0), 1), 0, &[2, 5], &[(3, 6)]),
    ((6, (2, 0), 3), 1, &[5], &[(2, 6)]),
    ((6, (2, 0), 2), 1, &[], &[(5, 6)]),
    ((5, (2, 0), 6), 0, &[], &[]),
];

const NINE: [Step; 8] = [
    ((5, (2, 0), 4), 0, &[1, 5], &[(8, 9), (3, 6), (2, 7)]),
    ((9, (2, 0), 8), 1, &[5], &[(1, 9), (3, 6), (2, 7)]),
    ((3, (2, 0), 6), 0, &[3, 5], &[(1, 9), (2, 7)]),
    ((7, (2, 0), 2), 1, &[5], &[(1, 9), (3, 7)]),
    ((3, (2, 0), 7), 0, &[3, 5], &[(1, 9)]),
    ((9, (2, 0), 1), 1, &[3], &[(9, 5)]),
    ((9, (2, 0), 5), 1, &[], &[(3, 9)]),
    ((3, (2, 0), 9), 0, &[], &[]),
];

#[test]
fn query_state_run_5_man_bracket() {
    run(5, false, &FIVE, 3);
}

#[test]
fn run_5_man_bracket_automated() {
    run(5, true, &FIVE, 3);
}

#[test]
fn query_state_bracket_8_man() {
    run(8, false, &EIGHT, 5);
}

#[test]
fn query_state_bracket_8_man_automated() {
    run(8, true, &EIGHT, 5);
}

#[test]
fn query_state_bracket_9_man() {
    run(9, false, &NINE, 3);
}

#[test]
fn query_state_bracket_9_man_automated() {
    run(9, true, &NINE, 3);
}

#[test]
fn bracket_5_man() {
    run(5, false, &FIVE, 3);
}

#[test]
fn bracket_5_man_automated() {
    run(5, true, &FIVE, 3);
}

#[test]
fn single_elimination_bracket_8_man() {
    run(8, false, &EIGHT, 5);
}

#[test]
fn single_elimination_bracket_8_man_automated() {
    run(8, true, &EIGHT, 5);
}

#[test]
fn single_elimination_bracket_9_man() {
    run(9, false, &NINE, 3);
}

#[test]
fn single_elimination_bracket_9_man_automated() {
    run(9, true, &NINE, 3);
}

fn assert_players_play_each_other(a: usize, b: usize, p: &[Player], s: &SingleEliminationBracket) {
    let (opponent_of_a, id_a) = s.next_opponent_in_bracket(p[a].get_id()).expect("next opponent");
    let (opponent_of_b, id_b) = s.next_opponent_in_bracket(p[b].get_id()).expect("next opponent");
    assert_eq!(opponent_of_a, Opponent::Player(p[b].get_id()));
    assert_eq!(opponent_of_b, Opponent::Player(p[a].get_id()));
    assert_eq!(id_a, id_b, "expected player to be playing the same match");
}

#[test]
fn disqualifying_player_sets_their_opponent_as_the_winner_and_they_move_to_their_next_match() {
    let (p, s) = bracket(3, false);
    assert!(
        !s.get_matches().iter().any(|m| m.get_automatic_loser() == Opponent::Player(p[2].get_id())),
        "expected player 2 not to be declared looser in any match"
    );
    let s = s.disqualify_participant_from_bracket(p[2].get_id());
    assert!(
        s.get_matches().iter().any(|m| m.get_automatic_loser() == Opponent::Player(p[2].get_id())),
        "expected match where player 2 is declared looser"
    );
    assert!(
        s.get_matches().iter().any(|m| m.contains(p[1].get_id()) && m.contains(p[3].get_id())),
        "expected player 1 and 3 playing in grand finals"
    );
}

#[test]
fn player_reports_before_tournament_organiser() {
    // player 2 reports before the tournament organiser does
    let (p, s) = bracket(3, true);
    assert_players_play_each_other(2, 3, &p, &s);
    let (s, _, _) = s.report_result(p[2].get_id(), (2, 0)).expect("report");
    let (_, _, _) = s
        .tournament_organiser_reports_result(p[2].get_id(), (2, 0), p[3].get_id())
        .expect("organiser report");

    // player 3 reports before the tournament organiser does
    let (p, s) = bracket(3, true);
    assert_players_play_each_other(2, 3, &p, &s);
    let (s, _, _) = s.report_result(p[3].get_id(), (0, 2)).expect("report");
    let (_, _, _) = s
        .tournament_organiser_reports_result(p[2].get_id(), (2, 0), p[3].get_id())
        .expect("organiser report");
}

#[test]
fn run_3_man_bracket() {
    let (p, s) = bracket(3, true);
    assert_eq!(s.get_matches().len(), 2);
    assert_eq!(s.matches_to_play().len(), 1);
    assert_players_play_each_other(2, 3, &p, &s);
    let (s, _, new_matches) = s
        .tournament_organiser_reports_result(p[2].get_id(), (2, 0), p[3].get_id())
        .expect("matches");
    assert!(s.get_matches()[0].get_winner() != Opponent::Unknown);
    assert_eq!(new_matches.len(), 1, "grand finals match generated");
    assert_players_play_each_other(1, 2, &p, &s);
    assert_eq!(s.matches_to_play().len(), 1);
    let (s, _, new_matches) = s
        .tournament_organiser_reports_result(p[1].get_id(), (0, 2), p[2].get_id())
        .expect("matches");
    assert!(s.matches_to_play().is_empty());
    assert!(new_matches.is_empty());
    assert!(s.is_over());
}

#[test]
fn mod_run_5_man_bracket() {
    let (p, s) = bracket(5, true);
    assert_eq!(s.get_matches().len(), 4);
    assert_eq!(s.matches_to_play().len(), 2);
    let (s, _, _) = s
        .tournament_organiser_reports_result(p[4].get_id(), (2, 0), p[5].get_id())
        .expect("bracket");
    assert_eq!(s.matches_to_play().len(), 2);
    let (s, _, _) = s
        .tournament_organiser_reports_result(p[2].get_id(), (0, 2), p[3].get_id())
        .expect("bracket");
    assert_eq!(s.matches_to_play().len(), 1);
    let (s, _, _) = s
        .tournament_organiser_reports_result(p[1].get_id(), (2, 0), p[4].get_id())
        .expect("bracket");
    assert_eq!(s.matches_to_play().len(), 1);
    let (s, _, _) = s
        .tournament_organiser_reports_result(p[1].get_id(), (2, 0), p[3].get_id())
        .expect("bracket");
    assert!(s.is_over(), "expected bracket to be over: {:?}", s.get_matches());
    assert_eq!(s.matches_to_play().len(), 0);
}

#[test]
fn validation_leaves_no_match_waiting_on_a_disqualified_player() {
    let (p, s) = bracket(8, false);
    // p8 is disqualified before their opponent of the second round is known
    let s = s.disqualify_participant_from_bracket(p[8].get_id());
    let s = s.disqualify_participant_from_bracket(p[4].get_id());
    for m in s.get_matches() {
        assert!(!m.needs_update_because_of_disqualified_participant(), "{m:?}");
    }
    let (s, match_id, _) = s
        .tournament_organiser_reports_result(p[1].get_id(), (2, 0), p[5].get_id())
        .expect("report");
    let (s, _) = s.validate_match_result(match_id);
    for m in s.get_matches() {
        assert!(!m.needs_update_because_of_disqualified_participant(), "{m:?}");
    }
}
