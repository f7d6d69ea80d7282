use totsugeki::bracket::seeding::Seeding;
use totsugeki::double_elimination_bracket::next_opponent::Error;
use totsugeki::double_elimination_bracket::DoubleEliminationBracket;
use totsugeki::player::{Participants, Player};
use totsugeki::validation::AutomaticMatchValidationMode;

fn players_bracket(n: usize, mode: AutomaticMatchValidationMode) -> (Vec<u128>, DoubleEliminationBracket) {
    let mut p = vec![Player::new("don't use".into()).expect("player").get_id()];
    let mut participants = Participants::new();
    for i in 1..=n {
        let player = Player::new(format!("p{i}")).expect("player");
        p.push(player.get_id());
        participants = participants.add_participant(player).expect("seeding");
    }
    let seeding = Seeding::new(participants.get_seeding()).expect("seeding");
    (p, DoubleEliminationBracket::create(seeding, mode).expect("bracket"))
}

/// Tournament organiser reports `p1` `r` `p2`, then validates the match
fn report(
    s: DoubleEliminationBracket,
    p1: u128,
    r: (i8, i8),
    p2: u128,
    validate: bool,
) -> DoubleEliminationBracket {
    let (s, id, _new_matches) = s.tournament_organiser_reports_result_dangerous(p1, r, p2).expect("s");
    if validate {
        let (s, _) = s.validate_match_result(id);
        s
    } else {
        s
    }
}

fn run(n: usize, mode: AutomaticMatchValidationMode, validate: bool, reports: &[(usize, (i8, i8), usize)]) -> DoubleEliminationBracket {
    let (p, mut s) = players_bracket(n, mode);
    assert_eq!(s.get_matches().len(), 2 * n - 1);
    for (a, r, b) in reports {
        assert!(!s.is_over(), "bracket over before {a} vs {b}");
        s = report(s, p[*a], *r, p[*b], validate);
    }
    s
}

#[test]
fn run_5_man() {
    let s = run(
        5,
        AutomaticMatchValidationMode::Flexible,
        false,
        &[
            (2, (0, 2), 3),
            (4, (0, 2), 5),
            (1, (2, 0), 5),
            (1, (0, 2), 3),
            (5, (2, 0), 4),
            (2, (2, 0), 5),
            (2, (2, 0), 1),
            (2, (0, 2), 3),
        ],
    );
    assert_eq!(s.get_matches().len(), 9);
    assert!(s.is_over());
}

#[test]
fn run_8_no_upsets() {
    let s = run(
        8,
        AutomaticMatchValidationMode::Flexible,
        false,
        &[
            (1, (2, 0), 8),
            (2, (2, 0), 7),
            (3, (2, 0), 6),
            (4, (2, 0), 5),
            (5, (2, 0), 8),
            (6, (2, 0), 7),
            (1, (2, 0), 4),
            (2, (2, 0), 3),
            (3, (2, 0), 6),
            (4, (2, 0), 5),
            (3, (2, 0), 4),
            (1, (2, 0), 2),
            (2, (2, 0), 3),
            (1, (2, 0), 2),
        ],
    );
    assert_eq!(s.get_matches().len(), 15);
    assert!(s.is_over());
}

#[test]
fn run_8_man_bracket_with_frequent_upsets() {
    // every 2 matches, there is an upset
    let s = run(
        8,
        AutomaticMatchValidationMode::Strict,
        true,
        &[
            (1, (2, 0), 8),
            (2, (0, 2), 7),
            (3, (2, 0), 6),
            (4, (0, 2), 5),
            (4, (2, 0), 8),
            (2, (0, 2), 6),
            (1, (2, 0), 5),
            (3, (0, 2), 7),
            (3, (2, 0), 6),
            (4, (0, 2), 5),
            (3, (2, 0), 5),
            (1, (0, 2), 7),
            (1, (2, 0), 3),
            (1, (0, 2), 7),
        ],
    );
    assert!(s.is_over(), "{s:?}");
}

/// Players of `waiting` have no match to play; each pair of `pairs` plays
/// one of the matches to play
fn assert_next_matches(s: &DoubleEliminationBracket, waiting: &[usize], pairs: &[(usize, usize)], p: &[u128]) {
    let to_play = s.matches_to_play();
    for w in waiting {
        assert!(
            !to_play.iter().any(|m| m.contains(p[*w])),
            "expected p{w} to wait but got {to_play:?}"
        );
    }
    for (a, b) in pairs {
        assert!(
            to_play.iter().any(|m| m.contains(p[*a]) && m.contains(p[*b])),
            "expected p{a} vs p{b} in {to_play:?}"
        );
    }
}

/// Every player but `winner` is eliminated; `winner` won the tournament
fn assert_elimination(s: &DoubleEliminationBracket, p: &[u128], winner: usize) {
    for (i, player) in p.iter().enumerate().skip(1) {
        let expected = if i == winner { Error::TournamentWon } else { Error::Eliminated };
        assert_eq!(s.next_opponent(*player), Err(expected), "p{i}");
    }
}

#[test]
fn bracket_5_man_with_frequent_upsets() {
    let (p, s) = players_bracket(5, AutomaticMatchValidationMode::Strict);
    let steps: [((usize, (i8, i8), usize), usize, &[usize], &[(usize, usize)]); 9] = [
        ((4, (2, 0), 5), 1, &[5], &[(1, 4), (2, 3)]),
        ((1, (0, 2), 4), 1, &[4], &[(2, 3), (1, 5)]),
        ((2, (2, 0), 3), 1, &[3], &[(1, 5), (2, 4)]),
        ((1, (0, 2), 5), 1, &[], &[(2, 4), (3, 5)]),
        ((2, (2, 0), 4), 0, &[2, 4], &[(3, 5)]),
        ((3, (0, 2), 5), 1, &[2], &[(4, 5)]),
        ((4, (2, 0), 5), 1, &[], &[(2, 4)]),
        ((2, (0, 2), 4), 1, &[], &[(2, 4)]),
        ((2, (2, 0), 4), 0, &[], &[]),
    ];
    let mut s = s;
    for ((a, r, b), new, waiting, pairs) in steps {
        let (next, match_id, _) = s
            .tournament_organiser_reports_result_dangerous(p[a], r, p[b])
            .expect("report");
        let (next, new_matches) = next.validate_match_result(match_id);
        assert_eq!(new_matches.len(), new, "after p{a} vs p{b}");
        assert_next_matches(&next, waiting, pairs, &p);
        s = next;
    }
    assert_elimination(&s, &p, 2);
}
