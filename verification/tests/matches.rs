use totsugeki::matches::bracket_result::BracketResult;
use totsugeki::matches::result::{Error as ResultError, MatchFormat, MatchResult, Score};
use totsugeki::matches::{Error, Match, ReportedResult};
use totsugeki::opponent::Opponent;
use totsugeki::player::Player;

/// Fresh player identifier
fn new_id() -> u128 {
    totsugeki::player::Player::new(String::new()).expect("player").get_id()
}

#[test]
fn match_contains_both_players() {
    let p1 = new_id();
    let player_1 = Opponent::Player(p1);
    let p2 = new_id();
    let player_2 = Opponent::Player(p2);
    let unknown = new_id();
    let m = Match::new([player_1, player_2], [1, 2]).expect("match");
    assert!(m.contains(p1));
    assert!(m.contains(p2));
    assert!(!m.contains(unknown));
}

#[test]
fn cannot_create_match_with_same_player() {
    let p = new_id();
    let player = Opponent::Player(p);
    match Match::new([player, player], [1, 2]) {
        Err(Error::SamePlayer) => {}
        Err(e) => panic!("Expected error SamePlayer but got {e:?}"),
        _ => panic!("Expected error but got none"),
    }
}

fn played(seeds: [usize; 2], first: &Player, first_result: (i8, i8), second: &Player) -> Match {
    let m = Match::new(
        [Opponent::Player(first.get_id()), Opponent::Player(second.get_id())],
        seeds,
    )
    .expect("match");
    m
        .update_reported_result(first.get_id(), ReportedResult(first_result))
        .expect("match result")
}

#[test]
fn stronger_seeds_wins() {
    let p1 = Player::new("p1".into()).expect("player");
    let p2 = Player::new("p2".into()).expect("player");
    let m = Match::new(
        [Opponent::Player(p1.get_id()), Opponent::Player(p2.get_id())],
        [1, 2],
    )
    .expect("match");
    assert!(!m.is_over());
    let m = m
        .update_reported_result(p1.get_id(), ReportedResult((2, 0)))
        .expect("match p1 result");
    let m = m
        .update_reported_result(p2.get_id(), ReportedResult((0, 2)))
        .expect("match p2 result");
    let (m, _, _) = m.update_outcome().expect("validation");
    assert!(m.is_over());
    assert!(
        m.stronger_seed_wins().expect("value"),
        "expected p1 with higher seed to win"
    );

    let m = Match::new(
        [Opponent::Player(p1.get_id()), Opponent::Player(p2.get_id())],
        [1, 2],
    )
    .expect("match");
    assert!(!m.is_over());
    let m = m
        .update_reported_result(p2.get_id(), ReportedResult((2, 0)))
        .expect("match p2 result");
    let m = m
        .update_reported_result(p1.get_id(), ReportedResult((0, 2)))
        .expect("match p1 result");
    let (m, _, _) = m.update_outcome().expect("validation");
    assert!(m.is_over());
    assert!(
        !m.stronger_seed_wins().expect("value"),
        "expected p2 with lower seed to win"
    );

    let m = Match::new(
        [Opponent::Player(p1.get_id()), Opponent::Player(p2.get_id())],
        [2, 1],
    )
    .expect("match");
    assert!(!m.is_over());
    let m = m
        .update_reported_result(p1.get_id(), ReportedResult((2, 0)))
        .expect("match p1 result");
    let m = m
        .update_reported_result(p2.get_id(), ReportedResult((0, 2)))
        .expect("match p2 result");
    let (m, _, _) = m.update_outcome().expect("validation");
    assert!(m.is_over());
    assert!(
        !m.stronger_seed_wins().expect("value"),
        "p1 with lower seed to win"
    );

    let m = Match::new(
        [Opponent::Player(p1.get_id()), Opponent::Player(p2.get_id())],
        [2, 1],
    )
    .expect("match");
    assert!(!m.is_over());
    let m = m
        .update_reported_result(p2.get_id(), ReportedResult((2, 0)))
        .expect("match p1 result");
    let m = m
        .update_reported_result(p1.get_id(), ReportedResult((0, 2)))
        .expect("match p1 result");
    let (m, _, _) = m.update_outcome().expect("validation");
    assert!(m.is_over());
    assert!(
        m.stronger_seed_wins().expect("value"),
        "expected p2 with higher seed to win"
    );
}

#[test]
fn playable_matches() {
    let p1 = Player::new("p1".into()).expect("player");
    let p2 = Player::new("p2".into()).expect("player");
    let m = Match::new(
        [Opponent::Player(p1.get_id()), Opponent::Player(p2.get_id())],
        [1, 2],
    )
    .expect("match");
    assert!(m.needs_playing());

    let m = Match::new([Opponent::Unknown, Opponent::Player(p2.get_id())], [1, 2]).expect("match");
    assert!(!m.needs_playing());
    let m = Match::new([Opponent::Player(p1.get_id()), Opponent::Unknown], [1, 2]).expect("match");
    assert!(!m.needs_playing());
    let m = Match::new([Opponent::Unknown, Opponent::Unknown], [1, 2]).expect("match");
    assert!(!m.needs_playing());
}

#[test]
fn parse_results() {
    let to_test = vec![
        ("0-0", (0, 0)),
        ("4-0", (4, 0)),
        ("5-0", (5, 0)),
        ("0-4", (0, 4)),
        ("0-5", (0, 5)),
        // all intermediate score for FT2
        ("1-0", (1, 0)),
        ("2-0", (2, 0)),
        ("0-1", (0, 1)),
        ("0-2", (0, 2)),
        ("1-2", (1, 2)),
        ("2-1", (2, 1)),
        // all intermediate score for FT3
        ("3-0", (3, 0)),
        ("3-1", (3, 1)),
        ("3-2", (3, 2)),
        ("0-3", (0, 3)),
        ("1-3", (1, 3)),
        ("2-3", (2, 3)),
    ];
    for (s, (l_expected, r_expected)) in to_test {
        let ReportedResult((l, r)) = s.parse::<ReportedResult>().expect("result");
        assert_eq!(
            l, l_expected,
            "could not parse {s} into ({l_expected}, {r_expected})"
        );
        assert_eq!(
            r, r_expected,
            "could not parse {s} into ({l_expected}, {r_expected})"
        );
    }
}

#[test]
fn reported_result_text_round_trip() {
    for (l, r) in [(0i8, 0i8), (2, 1), (3, -12), (127, -128)] {
        let text = ReportedResult((l, r)).to_string();
        assert_eq!(text, format!("{l}-{r}"));
        assert_eq!(ReportedResult::parse(&text).expect("parse"), ReportedResult((l, r)));
    }
    // a negative left score reads as a missing left score
    assert!(ReportedResult::parse(&ReportedResult((-3, 12)).to_string()).is_err());
    assert!(ReportedResult::parse("21").is_err());
    assert!(ReportedResult::parse("a-1").is_err());
    assert_eq!(ReportedResult((2, 0)).reverse(), ReportedResult((0, 2)));
    assert_eq!(ReportedResult((3, 1)).reverse().reverse(), ReportedResult((3, 1)));
}

#[test]
fn insert_players_in_empty_match() {
    let m = Match::default();
    let p1 = new_id();
    let p2 = new_id();
    let m = m.insert_player(p1, true).expect("player 1 inserted");
    let _m = m.insert_player(p2, false).expect("player 2 inserted");

    let m = Match::default();
    let m = m.insert_player(p2, false).expect("player 2 inserted");
    let _m = m.insert_player(p1, true).expect("player 1 inserted");
}

#[test]
fn cannot_insert_player_if_someone_else_is_already_there() {
    let p1 = new_id();
    let p2 = new_id();
    let m = Match::new([Opponent::Player(p1), Opponent::Player(p2)], [0, 0]).expect("match");
    let p1_intruder = new_id();

    match m.insert_player(p1_intruder, true) {
        Err(Error::AlreadyPresent(p, another_p)) if p == p1_intruder && another_p == p1 => {}
        Err(Error::AlreadyPresent(p, another_p)) => {
            panic!("got {p} and {another_p}, expected {p1_intruder} and {p1}")
        }
        Err(e) => panic!("expected error AlreadyPresent, got {e:?}"),
        _ => panic!("expected error but got none"),
    }

    let p2_intruder = new_id();
    match m.insert_player(p2_intruder, false) {
        Err(Error::AlreadyPresent(p, another_p)) if p == p2_intruder && another_p == p2 => {}
        Err(Error::AlreadyPresent(p, another_p)) => {
            panic!("got {p} and {another_p}, expected {p2_intruder} and {p2}")
        }
        Err(e) => panic!("expected error AlreadyPresent, got {e:?}"),
        _ => panic!("expected error but got none"),
    }
}

#[test]
fn insert_player_even_if_already_present() {
    let p1 = new_id();
    let p2 = new_id();
    let m = Match::new([Opponent::Player(p1), Opponent::Player(p2)], [0, 0]).expect("match");

    let m = m.insert_player(p1, true).expect("no error");
    let m = m.insert_player(p1, true).expect("no error");
    let m = m.insert_player(p1, true).expect("no error");

    let m = m.insert_player(p2, false).expect("no error");
    let m = m.insert_player(p2, false).expect("no error");
    let _m = m.insert_player(p2, false).expect("no error");
}

#[test]
fn match_score_is_0_and_0_when_there_is_no_winner() {
    let p1 = Player::new("p1".into()).expect("player");
    let p2 = Player::new("p2".into()).expect("player");
    let m = Match::new(
        [Opponent::Player(p1.get_id()), Opponent::Player(p2.get_id())],
        [1, 2],
    )
    .expect("match");
    assert_eq!(m.get_score(), (0, 0));
    // only one report: players do not agree yet
    let m = played([1, 2], &p1, (2, 1), &p2);
    assert_eq!(m.get_score(), (0, 0));
    let m = m
        .update_reported_result(p2.get_id(), ReportedResult((1, 2)))
        .expect("p2 result");
    // both reports agree, but no winner is declared yet
    assert_eq!(m.get_score(), (0, 0));
    let (m, winner, _) = m.update_outcome().expect("outcome");
    assert_eq!(winner, p1.get_id());
    assert_eq!(m.get_score(), (2, 1));
}

#[test]
fn update_outcome_declares_winner_and_loser() {
    let p1 = Player::new("p1".into()).expect("player");
    let p2 = Player::new("p2".into()).expect("player");
    let m = played([1, 2], &p1, (0, 2), &p2);
    assert!(matches!(
        m.update_outcome(),
        Err(Error::PlayersReportedDifferentMatchOutcome(_, _))
    ));
    let m = m
        .update_reported_result(p2.get_id(), ReportedResult((2, 0)))
        .expect("p2 result");
    let (m, winner, loser) = m.update_outcome().expect("outcome");
    assert_eq!(winner, p2.get_id());
    assert_eq!(loser, p1.get_id());
    assert_eq!(m.get_winner(), Opponent::Player(p2.get_id()));
    assert_eq!(m.get_loser(), Some(p1.get_id()));
    // a disqualified player loses without reports
    let m = Match::new(
        [Opponent::Player(p1.get_id()), Opponent::Player(p2.get_id())],
        [1, 2],
    )
    .expect("match")
    .set_automatic_loser(p1.get_id())
    .expect("dq");
    assert!(m.needs_update_because_of_disqualified_participant());
    let (_, winner, loser) = m.update_outcome().expect("outcome");
    assert_eq!((winner, loser), (p2.get_id(), p1.get_id()));
    // unknown player cannot be disqualified
    assert!(matches!(
        m.set_automatic_loser(new_id()),
        Err(Error::UnknownPlayer(_, _))
    ));
    // reports need both players
    let empty = Match::new_looser_bracket_match([1, 2]).expect("match");
    assert!(matches!(
        empty.update_reported_result(p1.get_id(), ReportedResult((2, 0))),
        Err(Error::MissingOpponent(_))
    ));
}

#[test]
fn other_player_of_match() {
    let p1 = new_id();
    let p2 = new_id();
    let m = Match::new([Opponent::Player(p1), Opponent::Player(p2)], [1, 2]).expect("match");
    assert_eq!(m.get_other_player(p1).expect("other"), p2);
    assert_eq!(m.get_other_player(p2).expect("other"), p1);
    assert!(matches!(
        m.get_other_player(new_id()),
        Err(Error::NoOpponent(_))
    ));
}

#[test]
fn first_to_two() {
    assert!(MatchResult::new(Score(2, 0), MatchFormat::default()).is_ok());
    assert!(MatchResult::new(Score(2, 1), MatchFormat::default()).is_ok());
    assert!(MatchResult::new(Score(1, 2), MatchFormat::default()).is_ok());
    assert!(MatchResult::new(Score(0, 2), MatchFormat::default()).is_ok());
}

#[test]
fn first_to_three() {
    let format = MatchFormat::ft3();
    assert!(MatchResult::new(Score(3, 0), format).is_ok());
    assert!(MatchResult::new(Score(3, 1), format).is_ok());
    assert!(MatchResult::new(Score(3, 2), format).is_ok());
    assert!(MatchResult::new(Score(2, 3), format).is_ok());
    assert!(MatchResult::new(Score(1, 3), format).is_ok());
    assert!(MatchResult::new(Score(0, 3), format).is_ok());
}

#[test]
fn ft2_is_finished() {
    let format = MatchFormat::ft2();
    let result = MatchResult::new(Score(2, 0), format).unwrap();
    assert!(result.finished());
    let result = MatchResult::new(Score(0, 2), format).unwrap();
    assert!(result.finished());
}

#[test]
fn ft3_is_finished() {
    let format = MatchFormat::ft3();
    let result = MatchResult::new(Score(3, 1), format).unwrap();
    assert!(result.finished());
    let result = MatchResult::new(Score(1, 3), format).unwrap();
    assert!(result.finished());
}

#[test]
fn weird_result_throws_error() {
    let format = MatchFormat::ft2();
    let Err(ResultError::Invalid(_)) = MatchResult::new(Score(2, 2), format) else {
        panic!()
    };
}

#[test]
fn cannot_report_ft3_final_result_in_ft2_match() {
    let format = MatchFormat::ft2();
    let Err(ResultError::Invalid(_)) = MatchResult::new(Score(3, 1), format) else {
        panic!()
    };
}

#[test]
fn intermediate_results_are_not_finished() {
    let result = MatchResult::new(Score(1, 1), MatchFormat::ft2()).unwrap();
    assert!(!result.finished());
    assert!(MatchFormat::new(0).is_err());
    assert_eq!(MatchFormat::new(5).expect("format").get_first_to(), 5);
}

#[test]
fn bracket_result_is_checked() {
    assert_eq!(BracketResult::new(2, 1).expect("result").0, (2, 1));
    assert!(BracketResult::new(0, 0).is_err());
}

#[test]
fn match_format_text() {
    assert_eq!(MatchFormat::ft2().to_string(), "FT2");
    assert_eq!(MatchFormat::ft3().to_string(), "FT3");
    assert_eq!(MatchFormat::new(10).expect("format").to_string(), "FT10");
    assert_eq!(MatchFormat::new(255).expect("format").to_string(), "FT255");
    assert_eq!(MatchFormat::ft2(), MatchFormat::default());
}

#[test]
fn result_without_delimiter_carries_its_text() {
    match "3".parse::<ReportedResult>() {
        Err(totsugeki::matches::text::MatchResultParsingError::MissingResultDelimiter(t)) => {
            assert_eq!(t, "3")
        }
        other => panic!("expected missing delimiter, got {other:?}"),
    }
}

#[test]
fn match_summaries() {
    let p1 = Player::new("a".into()).expect("player");
    let p2 = Player::new("p2".into()).expect("player");
    let m = Match::new(
        [Opponent::Player(p1.get_id()), Opponent::Player(p2.get_id())],
        [1, 2],
    )
    .expect("match");
    let id1 = Opponent::Player(p1.get_id()).to_string();
    let id2 = Opponent::Player(p2.get_id()).to_string();
    let mid = Opponent::Player(m.get_id()).to_string();
    assert_eq!(m.summary(), format!("[1, 2] -{id1} VS -{id2} | match id: {mid}"));
    let participants = totsugeki::player::Participants::try_from_players(vec![p1.clone(), p2.clone()])
        .expect("participants");
    assert_eq!(m.summary_with_name(&participants), format!("[1, 2] -a  VS -p2 | match id: {mid}"));
    let m = m.set_automatic_loser(p2.get_id()).expect("dq");
    let (m, _, _) = m.update_outcome().expect("outcome");
    assert_eq!(m.summary_with_name(&participants), format!("[1, 2] Wa  VS Lp2 | match id: {mid}"));
    let unknown = Match::new_looser_bracket_match([12, 3]).expect("match");
    let uid = Opponent::Player(unknown.get_id()).to_string();
    assert_eq!(unknown.summary(), format!("[12, 3] -?  VS -?  | match id: {uid}"));
}
