use totsugeki::matches::get::{print_player_name, MatchGET, MatchParsingError, NextMatchGET, NextMatchGETResponse};
use totsugeki::matches::Match;
use totsugeki::opponent::Opponent;
use totsugeki::player::Player;

fn match_between(p1: &Player, p2: &Player) -> Match {
    Match::new([Opponent::Player(p1.get_id()), Opponent::Player(p2.get_id())], [1, 2]).expect("match")
}

#[test]
fn match_text_is_read_back() {
    let p1 = Player::new("p1".into()).expect("player");
    let p2 = Player::new("p2".into()).expect("player");
    let m = match_between(&p1, &p2);
    let text = MatchGET::from(m);
    assert_eq!(text.players[0], Opponent::Player(p1.get_id()).to_string());
    assert_eq!(text.winner, "?");
    assert_eq!(text.looser, "?");
    assert_eq!(text.reported_results[0], "0-0");
    let back = Match::try_from(text).expect("match");
    assert_eq!(back, m);
}

#[test]
fn match_text_reads_both_reported_results() {
    let p1 = Player::new("p1".into()).expect("player");
    let p2 = Player::new("p2".into()).expect("player");
    let m = match_between(&p1, &p2);
    let mut text = MatchGET::from(m);
    text.reported_results = ["2-1".into(), "1-2".into()];
    text.winner = Opponent::Player(p1.get_id()).to_string();
    let back = Match::try_from(text).expect("match");
    assert_eq!(back.get_winner(), Opponent::Player(p1.get_id()));
    assert_eq!(back.reported_results, [(2, 1), (1, 2)]);
    let mut m2 = back;
    m2.reported_results = [(2, 0), (0, 1)];
    assert_eq!(Match::try_from(MatchGET::from(m2)).expect("match"), m2);
}

#[test]
fn match_text_errors() {
    let p1 = Player::new("p1".into()).expect("player");
    let p2 = Player::new("p2".into()).expect("player");
    let p3 = Player::new("p3".into()).expect("player");
    let m = match_between(&p1, &p2);

    let mut text = MatchGET::from(m);
    text.players[1] = "not a player".into();
    assert!(matches!(Match::try_from(text), Err(MatchParsingError::ParsingOpponentError(_))));

    let mut text = MatchGET::from(m);
    text.winner = Opponent::Player(p3.get_id()).to_string();
    assert!(matches!(Match::try_from(text), Err(MatchParsingError::UnknownWinner)));

    let mut text = MatchGET::from(m);
    text.looser = Opponent::Player(p3.get_id()).to_string();
    assert!(matches!(Match::try_from(text), Err(MatchParsingError::UnknownLooser)));

    let mut text = MatchGET::from(m);
    text.reported_results[0] = "2".into();
    assert!(matches!(Match::try_from(text), Err(MatchParsingError::ReportedResult(_))));

    let mut text = MatchGET::from(m);
    text.reported_results[1] = "2".into();
    assert!(matches!(Match::try_from(text), Err(MatchParsingError::ReportedResult(_))));
}

#[test]
fn player_name_of_opponent() {
    let p1 = Player::new("alice".into()).expect("player");
    let p2 = Player::new("bob".into()).expect("player");
    let players = vec![p1.clone(), p2.clone()];
    assert_eq!(print_player_name(&Opponent::Unknown, &players), Some("?".to_string()));
    assert_eq!(print_player_name(&Opponent::Player(p2.get_id()), &players), Some("bob".to_string()));
    let stranger = Player::new("carol".into()).expect("player");
    assert_eq!(print_player_name(&Opponent::Player(stranger.get_id()), &players), None);
}

#[test]
fn next_match_is_read_from_its_raw_form() {
    let p1 = Player::new("alice".into()).expect("player");
    let raw = NextMatchGETResponse {
        opponent: Opponent::Player(p1.get_id()).to_string(),
        match_id: 7,
        bracket_id: 9,
        player_name: "alice".into(),
    };
    let next = NextMatchGET::try_from(raw).expect("next match");
    assert_eq!(next.opponent, Opponent::Player(p1.get_id()));
    assert_eq!(next.match_id, 7);
    assert_eq!(next.bracket_id, 9);
    assert_eq!(next.player_name, "alice");

    let raw = NextMatchGETResponse {
        opponent: "?".into(),
        match_id: 7,
        bracket_id: 9,
        player_name: "?".into(),
    };
    assert_eq!(NextMatchGET::try_from(raw).expect("next").opponent, Opponent::Unknown);

    let raw = NextMatchGETResponse {
        opponent: "someone".into(),
        match_id: 7,
        bracket_id: 9,
        player_name: "?".into(),
    };
    assert!(NextMatchGET::try_from(raw).is_err());
}
