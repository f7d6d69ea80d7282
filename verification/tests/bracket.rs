use totsugeki::bracket::{Bracket, Error};
use totsugeki::format::Format;
use totsugeki::matches::{Match, ReportedResult};
use totsugeki::opponent::Opponent;
use totsugeki::player::{Error as PlayerError, Participants, Player};
use totsugeki::seeding::single_elimination_seeded_bracket::get_balanced_round_matches_top_seed_favored;
use totsugeki::seeding::{seed, Error as SeedingError, Method as SeedingMethod};

/// 2000-01-01 00:00:00 UTC
const START: i64 = 946_684_800;

fn bracket_with(players: &[Player], method: SeedingMethod) -> Bracket {
    let mut bracket = Bracket::new("bracket", Format::SingleEliminationBracket, method, START, false).expect("bracket");
    for p in players {
        bracket = bracket.join(p.clone()).expect("joined");
    }
    bracket
}

fn three_players() -> Vec<Player> {
    vec![
        Player::new("p1".to_string()).expect("player"),
        Player::new("p2".to_string()).expect("player"),
        Player::new("p3".to_string()).expect("player"),
    ]
}

fn layout(matches: &[Match]) -> Vec<([Opponent; 2], [usize; 2])> {
    matches.iter().map(|m| (m.get_players(), m.get_seeds())).collect()
}

#[test]
fn updating_seeding_changes_matches_of_3_man_bracket() {
    let players = three_players();
    let bracket = bracket_with(&players, SeedingMethod::Strict);
    let (p1_id, p2_id, p3_id) = (players[0].get_id(), players[1].get_id(), players[2].get_id());
    let updated_bracket = bracket
        .update_seeding(&[p3_id, p2_id, p1_id])
        .expect("seeding update");
    let p1 = Opponent::Player(p1_id);
    let p2 = Opponent::Player(p2_id);
    let p3 = Opponent::Player(p3_id);
    assert_eq!(
        layout(&updated_bracket.get_matches()),
        vec![([p2, p1], [2, 3]), ([p3, Opponent::Unknown], [1, 2])]
    );
    for m in updated_bracket.get_matches() {
        assert_eq!(m.get_winner(), Opponent::Unknown);
        assert_eq!(m.reported_results, [(0, 0), (0, 0)]);
    }
}

#[test]
fn updating_seeding_changes_matches_of_5_man_bracket() {
    let players: Vec<Player> = (1..=5).map(|i| Player::new(format!("p{i}")).expect("player")).collect();
    let ids: Vec<u128> = players.iter().map(Player::get_id).collect();
    let bracket = bracket_with(&players, SeedingMethod::Strict);
    let updated_bracket = bracket
        .update_seeding(&[ids[3], ids[4], ids[2], ids[1], ids[0]])
        .expect("seeding update");
    let p = |i: usize| Opponent::Player(ids[i - 1]);
    assert_eq!(
        layout(&updated_bracket.get_matches()),
        vec![
            ([p(2), p(1)], [4, 5]),
            ([p(4), Opponent::Unknown], [1, 4]),
            ([p(5), p(3)], [2, 3]),
            ([Opponent::Unknown, Opponent::Unknown], [1, 2]),
        ]
    );
}

#[test]
fn bracket_new_participants_can_join_bracket() {
    let mut bracket = Bracket::new(
        "name",
        Format::default(),
        SeedingMethod::default(),
        START,
        false,
    ).expect("bracket");
    for i in 0..10 {
        bracket = bracket
            .join(Player::new(format!("player{i}")).expect("player"))
            .expect("updated_bracket");
    }
    assert_eq!(bracket.get_participants().len(), 10);
    assert_eq!(bracket.get_matches().len(), 9);
    assert_eq!(bracket.get_name(), "name");
    assert_eq!(bracket.get_start_time(), START);
}

#[test]
fn participants_new_participants_can_join_bracket() {
    let mut bracket = Bracket::new("name", Format::default(), SeedingMethod::default(), START, false).expect("bracket");
    for i in 0..10 {
        bracket = bracket
            .join(Player::new(format!("player{i}")).expect("player"))
            .expect("updated_bracket");
    }
    let again = bracket.get_participants().get_players_list()[0].clone();
    assert!(matches!(
        bracket.join(again),
        Err(Error::PlayerUpdate(PlayerError::AlreadyPresent))
    ));
}

fn assert_barred(updated_bracket: Bracket) {
    let bracket_id = updated_bracket.get_id();
    let player = Player::new("New player".to_string()).expect("player");
    let player_id = player.get_id();
    let err = updated_bracket
        .join(player)
        .expect_err("Joining a bracket after closing it did not return an error");
    match err {
        Error::BarredFromEntering(id, b_id) => {
            assert_eq!(id, player_id);
            assert_eq!(b_id, bracket_id);
        }
        _ => panic!("expected BarredFromEntering error, got: {err:?}"),
    };
}

#[test]
fn bracket_closing_bracket_will_deny_new_participants_from_entering() {
    let bracket = bracket_with(&three_players(), SeedingMethod::Strict);
    assert_barred(bracket.close());
}

#[test]
fn participants_closing_bracket_will_deny_new_participants_from_entering() {
    let bracket = bracket_with(&three_players(), SeedingMethod::Strict).close();
    assert!(bracket.is_closed());
    assert_barred(bracket);
}

#[test]
fn bracket_starting_bracket_will_deny_new_participants_from_entering() {
    let bracket = bracket_with(&three_players(), SeedingMethod::Strict);
    assert_barred(bracket.start());
}

#[test]
fn participants_starting_bracket_will_deny_new_participants_from_entering() {
    let bracket = bracket_with(&three_players(), SeedingMethod::Strict).start();
    assert!(bracket.is_accepting_match_results());
    assert_barred(bracket);
}

#[test]
fn cannot_seed_after_bracket_has_started() {
    let players = three_players();
    let bracket = bracket_with(&players, SeedingMethod::Strict);
    let bracket_id = bracket.get_id();
    let updated_bracket = bracket.start();
    let seeding = vec![players[2].get_id(), players[1].get_id(), players[0].get_id()];
    match updated_bracket.update_seeding(&seeding) {
        Ok(_) => panic!("Expected error"),
        Err(e) => match e {
            Error::Started(id, _) => assert_eq!(id, bracket_id),
            _ => panic!("Expected Started error, got {e:?}"),
        },
    }
}

#[test]
fn seeding_single_elimination_bracket_with_wrong_players_fails() {
    let players = three_players();
    let (p1_id, p2_id, p3_id) = (players[0].get_id(), players[1].get_id(), players[2].get_id());
    let unknown_player = Player::new("unknown".into()).expect("player").get_id();
    let bracket = bracket_with(&players, SeedingMethod::Strict);
    let expected_bracket_id = bracket.get_id();
    let expected_participants = bracket.get_participants();

    // Unknown player
    let seeding = vec![p3_id, p2_id, unknown_player];
    match bracket_with(&players, SeedingMethod::Strict).update_seeding(&seeding) {
        Ok(_) => panic!("Expected error"),
        Err(e) => match e {
            Error::UnknownPlayer(id, p, _) => {
                assert_eq!(id, unknown_player);
                assert!(p.have_same_participants(&expected_participants));
            }
            _ => panic!("Expected Players error, got {e:?}"),
        },
    };
    match bracket.get_participants().len() {
        3 => {}
        n => panic!("expected 3 participants, got {n}"),
    }

    // no players
    let seeding = vec![];
    match bracket_with(&players, SeedingMethod::Strict).update_seeding(&seeding) {
        Ok(_) => panic!("Expected error"),
        Err(e) => match e {
            Error::Seeding(e) => match e {
                SeedingError::DifferentParticipants(wrong_p, _actual_p) => {
                    assert!(wrong_p.is_empty());
                }
                _ => panic!("Expected DifferentParticipants error, got {e:?}"),
            },
            _ => panic!("Expected Seeding error, got {e:?}"),
        },
    };

    // duplicate player
    let seeding = vec![p1_id, p1_id, p1_id];
    match bracket.update_seeding(&seeding) {
        Ok(_) => panic!("Expected error"),
        Err(e) => match e {
            Error::PlayerUpdate(e) => match e {
                PlayerError::AlreadyPresent => {}
                _ => panic!("Expected AlreadyPresent error, got {e:?}"),
            },
            Error::UnknownPlayer(_, _, b) => panic!("unexpected unknown player in {b}"),
            _ => panic!("Expected Seeding error, got {e:?}"),
        },
    };
    assert_ne!(expected_bracket_id, 0);
}

#[test]
fn run_bracket_with_reports_and_validation() {
    let players = three_players();
    let ids: Vec<u128> = players.iter().map(Player::get_id).collect();
    let bracket = bracket_with(&players, SeedingMethod::Strict);
    assert!(matches!(
        bracket.next_opponent(Player::new("x".into()).expect("player").get_id()),
        Err(Error::PlayerIsNotParticipant(_, _))
    ));
    let (opponent, _, name) = bracket.next_opponent(ids[1]).expect("next opponent");
    assert_eq!(opponent, Opponent::Player(ids[2]));
    assert_eq!(name, "p3");
    let (opponent, _, name) = bracket.next_opponent(ids[0]).expect("next opponent");
    assert_eq!(opponent, Opponent::Unknown);
    assert_eq!(name, "?");
    assert!(matches!(
        bracket.report_result(ids[1], ReportedResult((2, 0))),
        Err(Error::AcceptResults(_, _))
    ));
    let bracket = bracket_with(&players, SeedingMethod::Strict).start();
    let (bracket, match_id) = bracket
        .report_result(ids[1], ReportedResult((2, 0)))
        .expect("report");
    let (bracket, _) = bracket
        .report_result(ids[2], ReportedResult((0, 2)))
        .expect("report");
    let bracket = bracket.validate_match_result(match_id).expect("validated");
    let (opponent, final_id, _) = bracket.next_opponent(ids[0]).expect("next opponent");
    assert_eq!(opponent, Opponent::Player(ids[1]));
    assert!(matches!(
        bracket.next_opponent(ids[2]),
        Err(Error::EliminatedFromBracket(_, _))
    ));
    let (bracket, _) = bracket
        .report_result(ids[0], ReportedResult((2, 1)))
        .expect("report");
    let (bracket, _) = bracket
        .report_result(ids[1], ReportedResult((1, 2)))
        .expect("report");
    let bracket = bracket.validate_match_result(final_id).expect("validated");
    assert!(!bracket.is_accepting_match_results());
    assert!(matches!(
        bracket.next_opponent(ids[0]),
        Err(Error::NoNextMatch(_, _))
    ));
    assert!(matches!(
        bracket.validate_match_result(7),
        Err(Error::UnknownMatch(7))
    ));
}

#[test]
fn leaving_bracket_before_start_regenerates_matches() {
    let players = three_players();
    let bracket = bracket_with(&players, SeedingMethod::Strict);
    assert_eq!(bracket.get_matches().len(), 2);
    let bracket = bracket.remove_participant(players[0].get_id()).expect("removed");
    assert_eq!(bracket.get_participants().len(), 2);
    assert!(bracket.get_matches().is_empty());
    let bracket = bracket_with(&players, SeedingMethod::Strict).start();
    assert!(matches!(
        bracket.remove_participant(players[0].get_id()),
        Err(Error::Started(_, _))
    ));
}

fn favored(n: usize) -> Vec<([usize; 2], [usize; 2])> {
    let players: Vec<Player> = (0..n).map(|i| Player::new(format!("player{i}")).expect("player")).collect();
    let participants = Participants::try_from_players(players.clone()).expect("players");
    let matches = get_balanced_round_matches_top_seed_favored(&participants.get_seeding())
        .expect("balanced matches");
    let seed = |o: Opponent| match o {
        Opponent::Player(id) => players.iter().position(|p| p.get_id() == id).expect("player") + 1,
        Opponent::Unknown => 0,
    };
    matches
        .iter()
        .map(|m| ([seed(m.get_players()[0]), seed(m.get_players()[1])], m.get_seeds()))
        .collect()
}

#[test]
fn single_elimination_favors_top_seed_3_man() {
    assert_eq!(favored(3), vec![([2, 3], [2, 3]), ([1, 0], [1, 2])]);
}

#[test]
fn single_elimination_favors_top_seed_4_man() {
    assert_eq!(favored(4), vec![([1, 4], [1, 4]), ([2, 3], [2, 3]), ([0, 0], [1, 2])]);
}

#[test]
fn single_elimination_favors_top_seed_5_man() {
    assert_eq!(
        favored(5),
        vec![([4, 5], [4, 5]), ([1, 0], [1, 4]), ([2, 3], [2, 3]), ([0, 0], [1, 2])]
    );
}

#[test]
fn single_elimination_favors_top_seed_6_man() {
    assert_eq!(
        favored(6),
        vec![([3, 6], [3, 6]), ([4, 5], [4, 5]), ([1, 0], [1, 4]), ([2, 0], [2, 3]), ([0, 0], [1, 2])]
    );
}

#[test]
fn single_elimination_favors_top_seed_7_man() {
    assert_eq!(
        favored(7),
        vec![
            ([2, 7], [2, 7]),
            ([3, 6], [3, 6]),
            ([4, 5], [4, 5]),
            ([1, 0], [1, 4]),
            ([0, 0], [2, 3]),
            ([0, 0], [1, 2])
        ]
    );
}

#[test]
fn single_elimination_favors_top_seed_8_man() {
    assert_eq!(
        favored(8),
        vec![
            ([1, 8], [1, 8]),
            ([2, 7], [2, 7]),
            ([3, 6], [3, 6]),
            ([4, 5], [4, 5]),
            ([0, 0], [1, 4]),
            ([0, 0], [2, 3]),
            ([0, 0], [1, 2])
        ]
    );
}

#[test]
fn need_at_least_three_persons_to_run_a_bracket() {
    let mut players = Participants::new();
    players = players
        .add_participant(Player::new("player1".to_string()).expect("player"))
        .expect("player added");
    players = players
        .add_participant(Player::new("player2".to_string()).expect("player"))
        .expect("player added");
    assert!(matches!(
        seed(&SeedingMethod::Random, players.clone(), players.clone()),
        Err(SeedingError::NotEnoughPlayers)
    ));
    assert_eq!(players.len(), 2, "there should be two players, found: {}", players.len());
}

#[test]
fn joining_then_leaving_restores_participants() {
    let players = three_players();
    let bracket = bracket_with(&players, SeedingMethod::Strict);
    let before: Vec<u128> = bracket.get_participants().get_players_list().iter().map(Player::get_id).collect();
    let newcomer = Player::new("p4".to_string()).expect("player");
    let bracket = bracket.join(newcomer.clone()).expect("joined");
    assert_eq!(bracket.get_matches().len(), 3);
    let bracket = bracket.remove_participant(newcomer.get_id()).expect("removed");
    let after: Vec<u128> = bracket.get_participants().get_players_list().iter().map(Player::get_id).collect();
    assert_eq!(after, before);
    assert_eq!(bracket.get_matches().len(), 2);
}
