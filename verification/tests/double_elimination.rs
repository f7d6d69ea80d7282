use totsugeki::bracket::seeding::Seeding;
use totsugeki::double_elimination_bracket::DoubleEliminationBracket;
use totsugeki::format::Format;
use totsugeki::matches::Match;
use totsugeki::opponent::Opponent;
use totsugeki::player::{Participants, Player};
use totsugeki::seeding::double_elimination_seeded_bracket::{
    get_loser_bracket_matches_top_seed_favored, get_seed_of,
};
use totsugeki::validation::AutomaticMatchValidationMode;

fn seeds_of(matches: &[Match]) -> Vec<[usize; 2]> {
    matches.iter().map(Match::get_seeds).collect()
}

fn loser_bracket_seeds(n: usize) -> Vec<[usize; 2]> {
    let mut seeding = vec![];
    let mut participants = Participants::new();
    for _ in 0..n {
        let player = Player::new(String::new()).expect("player");
        seeding.push(player.get_id());
        participants = participants.add_participant(player).expect("participant");
    }
    assert_eq!(participants.get_seeding(), seeding);
    let matches = get_loser_bracket_matches_top_seed_favored(&seeding).expect("matches");
    for m in &matches {
        assert_eq!(m.get_players(), [Opponent::Unknown, Opponent::Unknown]);
    }
    seeds_of(&matches)
}

#[test]
fn matches_generation_3_man() {
    let mut players = vec![];
    for i in 1..=3 {
        players.push(Player::new(format!("p{i}")).expect("player"));
    }
    let participants = Participants::try_from_players(players.clone()).expect("participants");
    players.insert(0, Player::new("don't use".into()).expect("player"));

    let matches = Format::DoubleEliminationBracket
        .generate_matches(&participants.get_seeding())
        .expect("matches");
    assert_eq!(matches.len(), 5, "returned {} matches with expected count of 5", matches.len());
    assert_eq!(
        matches[0].get_players(),
        [Opponent::Player(players[2].get_id()), Opponent::Player(players[3].get_id())]
    );
    assert_eq!(matches[0].get_seeds(), [2, 3]);
    assert_eq!(matches[1].get_players(), [Opponent::Player(players[1].get_id()), Opponent::Unknown]);
    assert_eq!(matches[1].get_seeds(), [1, 2]);
    assert_eq!(seeds_of(&matches[2..]), vec![[2, 3], [1, 2], [1, 2]]);
    for m in &matches[2..] {
        assert_eq!(m.get_players(), [Opponent::Unknown, Opponent::Unknown]);
    }
}

#[test]
fn match_generation_4_man() {
    assert_eq!(loser_bracket_seeds(4), vec![[3, 4], [2, 3]]);
}

#[test]
fn match_generation_5_man() {
    assert_eq!(loser_bracket_seeds(5), vec![[4, 5], [3, 4], [2, 3]]);
}

#[test]
fn match_generation_6_man() {
    assert_eq!(loser_bracket_seeds(6), vec![[3, 6], [4, 5], [3, 4], [2, 3]]);
}

#[test]
fn match_generation_7_man() {
    assert_eq!(loser_bracket_seeds(7), vec![[6, 7], [3, 6], [4, 5], [3, 4], [2, 3]]);
}

#[test]
fn match_generation_8_man() {
    assert_eq!(
        loser_bracket_seeds(8),
        vec![[5, 8], [6, 7], [3, 6], [4, 5], [3, 4], [2, 3]]
    );
}

#[test]
fn match_generation_9_man() {
    assert_eq!(
        loser_bracket_seeds(9),
        vec![[8, 9], [5, 8], [6, 7], [3, 6], [4, 5], [3, 4], [2, 3]]
    );
}

#[test]
fn match_generation_10_man() {
    assert_eq!(
        loser_bracket_seeds(10),
        vec![[7, 10], [8, 9], [5, 8], [6, 7], [3, 6], [4, 5], [3, 4], [2, 3]]
    );
}

#[test]
fn double_elimination_match_generation_11_man() {
    assert_eq!(
        loser_bracket_seeds(11),
        vec![[6, 11], [7, 10], [8, 9], [5, 8], [6, 7], [3, 6], [4, 5], [3, 4], [2, 3]]
    );
}

#[test]
fn double_elimination_match_generation_12_man() {
    assert_eq!(
        loser_bracket_seeds(12),
        vec![
            [5, 12],
            [6, 11],
            [7, 10],
            [8, 9],
            [5, 8],
            [6, 7],
            [3, 6],
            [4, 5],
            [3, 4],
            [2, 3]
        ]
    );
}

#[test]
fn double_elimination_match_generation_16_man() {
    assert_eq!(
        loser_bracket_seeds(16),
        vec![
            [9, 16],
            [10, 15],
            [11, 14],
            [12, 13],
            [5, 12],
            [6, 11],
            [7, 10],
            [8, 9],
            [5, 8],
            [6, 7],
            [3, 6],
            [4, 5],
            [3, 4],
            [2, 3]
        ]
    );
}

#[test]
fn loser_bracket_has_two_matches_less_than_players() {
    for n in 3..=70 {
        assert_eq!(loser_bracket_seeds(n).len(), n - 2);
    }
}

#[test]
fn seed_of_player_is_their_position() {
    let ids: Vec<u128> = (0..5).map(|_| Player::new(String::new()).expect("player").get_id()).collect();
    assert_eq!(get_seed_of(&ids[0], &ids), 1);
    assert_eq!(get_seed_of(&ids[3], &ids), 4);
}

fn bracket(n: usize, mode: AutomaticMatchValidationMode) -> (Vec<Player>, DoubleEliminationBracket) {
    let mut p = vec![Player::new("don't use".into()).expect("player")];
    let mut seeding = vec![];
    for i in 1..=n {
        let player = Player::new(format!("p{i}")).expect("player");
        seeding.push(player.get_id());
        p.push(player);
    }
    (p, DoubleEliminationBracket::create(Seeding::new(seeding).unwrap(), mode).expect("bracket"))
}

#[test]
fn bracket_run_3_man() {
    let (p, s) = bracket(3, AutomaticMatchValidationMode::Flexible);
    assert_eq!(s.get_matches().len(), 5);
    let (s, _, _) = s
        .tournament_organiser_reports_result_dangerous(p[2].get_id(), (2, 0), p[3].get_id())
        .expect("s");
    // p3 dropped to losers
    let (_, lb, _, _) = s.partition_matches().expect("partition");
    assert!(lb[0].contains(p[3].get_id()));
    let (s, _, _) = s
        .tournament_organiser_reports_result_dangerous(p[1].get_id(), (0, 2), p[2].get_id())
        .expect("s");
    let (gf, _) = s.grand_finals_and_reset().expect("finals");
    assert_eq!(gf.get_players()[0], Opponent::Player(p[2].get_id()));
    let (s, _, _) = s
        .tournament_organiser_reports_result_dangerous(p[1].get_id(), (0, 2), p[3].get_id())
        .expect("s");
    let (gf, _) = s.grand_finals_and_reset().expect("finals");
    assert_eq!(
        gf.get_players(),
        [Opponent::Player(p[2].get_id()), Opponent::Player(p[3].get_id())]
    );
    let (s, _, _) = s
        .tournament_organiser_reports_result_dangerous(p[2].get_id(), (0, 2), p[3].get_id())
        .expect("s");
    assert!(!s.is_over(), "bracket reset to play");
    let (s, _, _) = s
        .tournament_organiser_reports_result_dangerous(p[2].get_id(), (0, 2), p[3].get_id())
        .expect("s");
    assert!(s.is_over());
    assert!(s.matches_to_play().is_empty());
}

#[test]
fn winner_of_winner_bracket_wins_grand_finals_without_reset() {
    let (p, s) = bracket(3, AutomaticMatchValidationMode::Flexible);
    let (s, _, _) = s
        .tournament_organiser_reports_result_dangerous(p[2].get_id(), (2, 0), p[3].get_id())
        .expect("s");
    let (s, _, _) = s
        .tournament_organiser_reports_result_dangerous(p[1].get_id(), (2, 0), p[2].get_id())
        .expect("s");
    let (s, _, _) = s
        .tournament_organiser_reports_result_dangerous(p[2].get_id(), (2, 0), p[3].get_id())
        .expect("s");
    let (s, _, _) = s
        .tournament_organiser_reports_result_dangerous(p[1].get_id(), (2, 1), p[2].get_id())
        .expect("s");
    assert!(s.is_over());
    // the stronger seed won grand finals: no reset is played, they won
    assert!(matches!(
        s.next_opponent(p[1].get_id()),
        Err(totsugeki::double_elimination_bracket::next_opponent::Error::TournamentWon)
    ));
    assert!(matches!(
        s.next_opponent(p[2].get_id()),
        Err(totsugeki::double_elimination_bracket::next_opponent::Error::Eliminated)
    ));
    // p3 lost twice: eliminated; p1 is left and the bracket is over
    assert!(matches!(
        s.disqualify_participant_from_bracket(p[3].get_id()),
        Err(totsugeki::double_elimination_bracket::disqualification::disqualify_from_bracket::Error::Eliminated)
    ));
    assert!(matches!(
        s.disqualify_participant_from_bracket(p[1].get_id()),
        Err(totsugeki::double_elimination_bracket::disqualification::disqualify_from_bracket::Error::WonTournament)
    ));
}

#[test]
fn eliminated_player_cannot_be_disqualified() {
    let (p, s) = bracket(3, AutomaticMatchValidationMode::Flexible);
    // p3 loses in winners, then in losers: eliminated
    let (s, _, _) = s
        .tournament_organiser_reports_result_dangerous(p[2].get_id(), (2, 0), p[3].get_id())
        .expect("s");
    let (s, _, _) = s
        .tournament_organiser_reports_result_dangerous(p[1].get_id(), (2, 0), p[2].get_id())
        .expect("s");
    let (s, _, _) = s
        .tournament_organiser_reports_result_dangerous(p[2].get_id(), (2, 0), p[3].get_id())
        .expect("s");
    assert!(!s.is_over());
    assert!(matches!(
        s.next_opponent(p[3].get_id()),
        Err(totsugeki::double_elimination_bracket::next_opponent::Error::Eliminated)
    ));
    assert!(matches!(
        s.disqualify_participant_from_bracket(p[3].get_id()),
        Err(totsugeki::double_elimination_bracket::disqualification::disqualify_from_bracket::Error::Eliminated)
    ));
}

#[test]
fn strict_validation_waits_for_the_organiser() {
    let (p, s) = bracket(3, AutomaticMatchValidationMode::Strict);
    let (matches, id, _) = s
        .clone()
        .report_result_dangerous(p[2].get_id(), (2, 0))
        .expect("report");
    let s = DoubleEliminationBracket::new(matches, s.get_seeding(), AutomaticMatchValidationMode::Strict);
    let (matches, _, _) = s
        .clone()
        .report_result_dangerous(p[3].get_id(), (0, 2))
        .expect("report");
    let s = DoubleEliminationBracket::new(matches, s.get_seeding(), AutomaticMatchValidationMode::Strict);
    assert_eq!(s.get_matches()[0].get_winner(), Opponent::Unknown);
    let (s, new_matches) = s.validate_match_result(id);
    assert_eq!(s.get_matches()[0].get_winner(), Opponent::Player(p[2].get_id()));
    assert_eq!(new_matches.len(), 1);
}

#[test]
fn organiser_reports_a_given_match() {
    let (p, s) = bracket(3, AutomaticMatchValidationMode::Flexible);
    let id = s.get_matches()[0].get_id();
    let (s, new_matches) = s
        .tournament_organiser_reports_result(id, p[2].get_id(), (2, 0), p[3].get_id())
        .expect("report");
    assert_eq!(s.get_matches()[0].get_winner(), Opponent::Player(p[2].get_id()));
    // only the winners final becomes playable
    assert_eq!(new_matches.len(), 1);
    assert_eq!(
        new_matches[0].get_players(),
        [Opponent::Player(p[1].get_id()), Opponent::Player(p[2].get_id())]
    );
    assert!(matches!(
        s.tournament_organiser_reports_result(id, p[2].get_id(), (2, 0), p[3].get_id()),
        Err(totsugeki::double_elimination_bracket::reporting::MatchReportError::AlreadyReported)
    ));
}

#[test]
fn disqualified_player_drops_and_loses_again() {
    let (p, s) = bracket(3, AutomaticMatchValidationMode::Flexible);
    let s = s.disqualify_participant_from_bracket(p[3].get_id()).expect("dq");
    assert!(s.is_disqualified(p[3].get_id()));
    assert_eq!(s.get_matches()[0].get_winner(), Opponent::Player(p[2].get_id()));
    let (next, _) = s.next_opponent(p[1].get_id()).expect("next").expect("match");
    assert_eq!(next, Opponent::Player(p[2].get_id()));
}

#[test]
fn less_than_3_participants_cannot_be_partitioned() {
    let (_, s) = bracket(2, AutomaticMatchValidationMode::Flexible);
    assert!(s.partition_matches().is_err());
    assert!(s.get_matches().is_empty());
}

#[test]
fn double_elimination_has_twice_as_many_matches_as_players_minus_one() {
    for n in 3..=20 {
        let (_, s) = bracket(n, AutomaticMatchValidationMode::Lax);
        assert_eq!(s.get_matches().len(), 2 * n - 1);
    }
}
