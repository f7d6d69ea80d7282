use totsugeki::bracket::seeding::Seeding;
use totsugeki::matches::Match;
use totsugeki::next_opponent::Error as NextOpponentError;
use totsugeki::opponent::Opponent;
use totsugeki::player::{Participants, Player};
use totsugeki::seeding::single_elimination_seeded_bracket::{
    get_balanced_round_matches_top_seed_favored, get_balanced_round_matches_top_seed_favored2,
};
use totsugeki::single_elimination_bracket::SingleEliminationBracket;

/// Players p1..pn, with an unused player first for readability
fn players(n: usize) -> (Vec<Player>, Seeding) {
    let mut p = vec![Player::new("don't use".into()).expect("player")];
    let mut seeding = vec![];
    for i in 1..=n {
        let player = Player::new(format!("p{i}")).expect("player");
        seeding.push(player.get_id());
        p.push(player);
    }
    (p, Seeding::new(seeding).unwrap())
}

fn assert_players_play_each_other(
    player_1: usize,
    player_2: usize,
    player_ids: &[Player],
    s: &SingleEliminationBracket,
) {
    let (next_opponent, match_id_1) = s
        .next_opponent_in_bracket(player_ids[player_1].get_id())
        .expect("next opponent");
    let Opponent::Player(next_opponent) = next_opponent else {
        panic!("expected player");
    };
    assert_eq!(next_opponent, player_ids[player_2].get_id());

    let (next_opponent, match_id_2) = s
        .next_opponent_in_bracket(player_ids[player_2].get_id())
        .expect("next opponent");
    let Opponent::Player(next_opponent) = next_opponent else {
        panic!("expected player")
    };
    assert_eq!(next_opponent, player_ids[player_1].get_id());

    assert_eq!(
        match_id_1, match_id_2,
        "expected player to be playing the same match"
    );
}

#[test]
fn next_opponent_run_3_man() {
    let (p, seeding) = players(3);
    let auto = true;
    let seb = SingleEliminationBracket::create(seeding, auto).expect("bracket");

    assert_eq!(seb.get_matches().len(), 2);
    assert_eq!(seb.matches_to_play().len(), 1);
    assert_players_play_each_other(2, 3, &p, &seb);
    let (seb, _, new_matches) = seb
        .tournament_organiser_reports_result(p[2].get_id(), (2, 0), p[3].get_id())
        .expect("bracket");
    assert_eq!(new_matches.len(), 1, "grand finals match generated");
    assert_players_play_each_other(1, 2, &p, &seb);
    assert_eq!(seb.matches_to_play().len(), 1);
    let (seb, _, new_matches) = seb
        .tournament_organiser_reports_result(p[1].get_id(), (0, 2), p[2].get_id())
        .expect("bracket");
    assert!(seb.matches_to_play().is_empty());
    assert!(new_matches.is_empty());
    assert!(seb.is_over());
    assert!(matches!(
        seb.next_opponent_in_bracket(p[2].get_id()),
        Err(NextOpponentError::TournamentWon)
    ));
    assert!(matches!(
        seb.next_opponent_in_bracket(p[1].get_id()),
        Err(NextOpponentError::Eliminated)
    ));
}

#[test]
fn next_opponent_run_5_man_bracket() {
    let (p, seeding) = players(5);
    let auto = true;
    let s = SingleEliminationBracket::create(seeding, auto).expect("bracket");

    assert_eq!(s.get_matches().len(), 4);
    assert_eq!(s.matches_to_play().len(), 2);
    let (s, _, _new_matches) = s
        .tournament_organiser_reports_result(p[4].get_id(), (2, 0), p[5].get_id())
        .expect("bracket");
    assert_eq!(s.matches_to_play().len(), 2);
    let (s, _, _new_matches) = s
        .tournament_organiser_reports_result(p[2].get_id(), (0, 2), p[3].get_id())
        .expect("bracket");
    assert_eq!(s.matches_to_play().len(), 1);
    let (s, _, _new_matches) = s
        .tournament_organiser_reports_result(p[1].get_id(), (2, 0), p[4].get_id())
        .expect("bracket");
    assert_eq!(s.matches_to_play().len(), 1);
    let (s, _, _new_matches) = s
        .tournament_organiser_reports_result(p[1].get_id(), (2, 0), p[3].get_id())
        .expect("bracket");
    assert!(s.is_over());
    assert_eq!(s.matches_to_play().len(), 0);
}

#[test]
fn progression_run_3_man() {
    let (p, seeding) = players(3);
    let auto = true;
    let matches = get_balanced_round_matches_top_seed_favored2(&seeding).unwrap();
    let bracket = SingleEliminationBracket::new(seeding, matches, auto);

    assert_eq!(bracket.get_matches().len(), 2);
    assert_eq!(bracket.matches_to_play().len(), 1);
    let (next, id) = bracket.next_opponent(p[2].get_id()).unwrap();
    assert_eq!(next, Opponent::Player(p[3].get_id()));
    let (next, id2) = bracket.next_opponent(p[3].get_id()).unwrap();
    assert_eq!(next, Opponent::Player(p[2].get_id()));
    assert_eq!(id, id2);
    let (bracket, _, new_matches) = bracket
        .tournament_organiser_reports_result(p[2].get_id(), (2, 0), p[3].get_id())
        .expect("bracket");
    assert_eq!(new_matches.len(), 1, "grand finals match generated");
    assert_eq!(bracket.matches_to_play().len(), 1);
    let (bracket, _, new_matches) = bracket
        .tournament_organiser_reports_result(p[1].get_id(), (0, 2), p[2].get_id())
        .expect("bracket");
    assert!(bracket.matches_to_play().is_empty());
    assert!(new_matches.is_empty());
    assert!(bracket.is_over());
}

#[test]
fn reports_without_automatic_progression_wait_for_validation() {
    let (p, seeding) = players(3);
    let bracket = SingleEliminationBracket::create(seeding, false).expect("bracket");
    let (bracket, id, new_matches) = bracket
        .report_result(p[2].get_id(), (2, 0))
        .expect("report");
    assert!(new_matches.is_empty());
    let (bracket, _, _) = bracket
        .report_result(p[3].get_id(), (0, 2))
        .expect("report");
    // nothing validated yet
    assert_eq!(bracket.matches_to_play().len(), 1);
    let (bracket, new_matches) = bracket.validate_match_result(id);
    assert_eq!(new_matches.len(), 1);
    assert_eq!(new_matches[0].get_players(), [Opponent::Player(p[1].get_id()), Opponent::Player(p[2].get_id())]);
    assert!(!bracket.is_over());
}

#[test]
fn report_errors() {
    let (p, seeding) = players(3);
    let bracket = SingleEliminationBracket::create(seeding, true).expect("bracket");
    // p1 waits for the winner of p2 and p3
    assert!(matches!(
        bracket.clone().report_result(p[1].get_id(), (2, 0)),
        Err(totsugeki::single_elimination_bracket::SingleEliminationReportResultError::MissingOpponent())
    ));
    let bracket = bracket.disqualify_participant_from_bracket(p[3].get_id());
    assert!(bracket.is_disqualified(p[3].get_id()));
    assert!(matches!(
        bracket.clone().report_result(p[3].get_id(), (2, 0)),
        Err(totsugeki::single_elimination_bracket::SingleEliminationReportResultError::ForbiddenDisqualified(_))
    ));
    // p2 moved on to face p1
    let (next, _) = bracket.next_opponent(p[1].get_id()).expect("next");
    assert_eq!(next, Opponent::Player(p[2].get_id()));
}

#[test]
fn disqualifying_player_sets_their_opponent_as_the_winner() {
    let (p, seeding) = players(3);
    let bracket = SingleEliminationBracket::create(seeding, true).expect("bracket");
    let bracket = bracket.disqualify_participant_from_bracket(p[2].get_id());
    let matches = bracket.get_matches();
    assert_eq!(matches[0].get_winner(), Opponent::Player(p[3].get_id()));
    assert_eq!(matches[0].get_automatic_loser(), Opponent::Player(p[2].get_id()));
    assert_eq!(
        matches[1].get_players(),
        [Opponent::Player(p[1].get_id()), Opponent::Player(p[3].get_id())]
    );
}

/// Players and seeds of generated matches, players given by seed (0 when
/// unknown)
fn layout(matches: &[Match], p: &[Player]) -> Vec<([usize; 2], [usize; 2])> {
    let seed_of = |o: Opponent| match o {
        Opponent::Player(id) => p.iter().position(|x| x.get_id() == id).expect("player"),
        Opponent::Unknown => 0,
    };
    matches
        .iter()
        .map(|m| {
            let players = m.get_players();
            ([seed_of(players[0]), seed_of(players[1])], m.get_seeds())
        })
        .collect()
}

fn generated(n: usize) -> (Vec<Match>, Vec<Player>) {
    let (p, seeding) = players(n);
    let matches = get_balanced_round_matches_top_seed_favored(&seeding.get()).expect("balanced matches");
    for m in &matches {
        assert_eq!(m.get_winner(), Opponent::Unknown);
        assert_eq!(m.get_automatic_loser(), Opponent::Unknown);
    }
    (matches, p)
}

#[test]
fn matches_generation_3_man_bracket() {
    let (matches, p) = generated(3);
    assert_eq!(layout(&matches, &p), vec![([2, 3], [2, 3]), ([1, 0], [1, 2])]);
}

#[test]
fn matches_generation_4_man_bracket() {
    let (matches, p) = generated(4);
    assert_eq!(
        layout(&matches, &p),
        vec![([1, 4], [1, 4]), ([2, 3], [2, 3]), ([0, 0], [1, 2])]
    );
}

#[test]
fn matches_generation_5_man_bracket() {
    let (matches, p) = generated(5);
    assert_eq!(
        layout(&matches, &p),
        vec![([4, 5], [4, 5]), ([1, 0], [1, 4]), ([2, 3], [2, 3]), ([0, 0], [1, 2])]
    );
}

#[test]
fn matches_generation_6_man_bracket() {
    let (matches, p) = generated(6);
    assert_eq!(
        layout(&matches, &p),
        vec![
            ([3, 6], [3, 6]),
            ([4, 5], [4, 5]),
            ([1, 0], [1, 4]),
            ([2, 0], [2, 3]),
            ([0, 0], [1, 2])
        ]
    );
}

#[test]
fn matches_generation_7_man_bracket() {
    let (matches, p) = generated(7);
    assert_eq!(
        layout(&matches, &p),
        vec![
            ([2, 7], [2, 7]),
            ([3, 6], [3, 6]),
            ([4, 5], [4, 5]),
            ([1, 0], [1, 4]),
            ([0, 0], [2, 3]),
            ([0, 0], [1, 2])
        ]
    );
}

#[test]
fn matches_generation_bracket_8_man() {
    let (matches, p) = generated(8);
    assert_eq!(
        layout(&matches, &p),
        vec![
            ([1, 8], [1, 8]),
            ([2, 7], [2, 7]),
            ([3, 6], [3, 6]),
            ([4, 5], [4, 5]),
            ([0, 0], [1, 4]),
            ([0, 0], [2, 3]),
            ([0, 0], [1, 2])
        ]
    );
}

#[test]
fn one_player_bracket_has_no_match() {
    let (_, seeding) = players(1);
    let bracket = SingleEliminationBracket::create(seeding, true).expect("bracket");
    assert!(bracket.get_matches().is_empty());
    assert!(bracket.is_over());
}

#[test]
fn single_elimination_bracket_has_one_match_less_than_players() {
    for n in 1..=40 {
        let (matches, _) = generated(n);
        assert_eq!(matches.len(), n - 1);
    }
}

#[test]
fn seeding_refuses_duplicates() {
    let p = Player::new("p".into()).expect("player");
    assert!(Seeding::new(vec![p.get_id(), p.get_id()]).is_err());
    let q = Player::new("q".into()).expect("player");
    let s = Seeding::new(vec![p.get_id(), q.get_id()]).expect("seeding");
    assert!(s.contains(q.get_id()));
    assert_eq!(s.len(), 2);
    assert!(!s.is_empty());
    let participants = Participants::try_from_players(vec![p.clone(), q.clone()]).expect("participants");
    assert_eq!(participants.get_seeding(), s.get());
}
