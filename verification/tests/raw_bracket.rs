use totsugeki::bracket::http_responses::{CreateRequest, GET};
use totsugeki::bracket::raw::{Brackets, ParsingError, Raw};
use totsugeki::bracket::Bracket;
use totsugeki::format::Format;
use totsugeki::opponent::Opponent;
use totsugeki::player::Player;
use totsugeki::seeding::Method as SeedingMethod;
use totsugeki::time::{MAX_START_TIME, MIN_START_TIME};

/// 2000-01-01 00:00:00 UTC
const START: i64 = 946_684_800;

fn time_to_string(t: i64) -> String {
    let raw = Raw::new("weekly".into(), Format::SingleEliminationBracket, SeedingMethod::Strict, t, false).expect("raw bracket");
    GET::new(&raw).start_time
}

fn parse_time(s: &str) -> Option<i64> {
    let request = CreateRequest {
        automatic_match_validation: false,
        bracket_format: "single-elimination",
        bracket_name: "weekly",
        internal_channel_id: "",
        organiser_internal_id: "",
        organiser_name: "",
        seeding_method: "strict",
        service_type_id: "",
        start_time: s,
    };
    Bracket::try_from_request(request).ok().map(|b| b.get_start_time())
}

fn bracket_of(n: usize) -> Bracket {
    let mut bracket = Bracket::new("weekly", Format::SingleEliminationBracket, SeedingMethod::Strict, START, true).expect("bracket");
    for i in 1..=n {
        bracket = bracket.join(Player::new(format!("p{i}")).expect("player")).expect("joined");
    }
    bracket
}

#[test]
fn start_time_text_is_read_back() {
    assert_eq!(time_to_string(START), "2000-01-01 00:00:00 UTC");
    assert_eq!(parse_time("2000-01-01 00:00:00 UTC").expect("time"), START);
    assert_eq!(parse_time("2000-01-01T00:00:00Z").expect("time"), START);
    assert_eq!(parse_time("2000-01-01T01:00:00+01:00").expect("time"), START);
    assert!(parse_time("tomorrow").is_none());
    assert!(time_to_string(MAX_START_TIME).starts_with("+262142-12-31 23:59:59"));
    let earliest = time_to_string(MIN_START_TIME);
    assert!(earliest.starts_with('-') && earliest.ends_with("-01-01 00:00:00 UTC"), "{earliest}");
}

#[test]
fn new_raw_bracket_has_no_player() {
    let raw = Raw::new("weekly".into(), Format::DoubleEliminationBracket, SeedingMethod::Random, START, false).expect("raw bracket");
    assert_eq!(raw.bracket_name, "weekly");
    assert!(raw.players.is_empty() && raw.player_names.is_empty() && raw.matches.is_empty());
    assert_eq!(raw.format, Format::DoubleEliminationBracket);
    assert_eq!(raw.start_time, START);
    assert!(!raw.accept_match_results && !raw.automatic_match_validation && !raw.barred_from_entering);
}

#[test]
fn bracket_is_read_back_from_its_raw_data() {
    let bracket = bracket_of(5).start();
    let raw = Raw::from(bracket);
    assert_eq!(raw.players.len(), 5);
    assert_eq!(raw.player_names[2], "p3");
    assert_eq!(raw.matches.len(), 4);
    assert!(raw.barred_from_entering && raw.accept_match_results);
    let players = raw.get_players_list();
    assert_eq!(players[4].get_name(), "p5");
    assert_eq!(players[4].get_id(), raw.players[4]);

    let matches = raw.matches.clone();
    let ids = raw.players.clone();
    let back = Bracket::try_from(raw).expect("bracket");
    assert_eq!(back.get_matches(), matches);
    let participants: Vec<u128> = back.get_participants().get_players_list().iter().map(Player::get_id).collect();
    assert_eq!(participants, ids);
    assert_eq!(back.get_start_time(), START);
}

#[test]
fn malformed_raw_data_is_refused() {
    let raw = Raw::from(bracket_of(3));
    let mut duplicated = Raw::from(bracket_of(3));
    duplicated.players[1] = duplicated.players[0];
    assert!(matches!(Bracket::try_from(duplicated), Err(ParsingError::Players(_))));

    let mut missing_match = Raw::from(bracket_of(3));
    missing_match.matches.pop();
    assert!(matches!(Bracket::try_from(missing_match), Err(ParsingError::MalformedMatches)));

    let mut dead_end = Raw::from(bracket_of(3));
    let mut last = dead_end.matches[1];
    last.seeds = [3, 2];
    dead_end.matches[1] = last;
    // the winner of the first match (seeds 2 and 3) still has a next match
    assert!(Bracket::try_from(dead_end).is_ok());
    let mut dead_end = Raw::from(bracket_of(3));
    let mut first = dead_end.matches[0];
    first.seeds = [4, 5];
    dead_end.matches[0] = first;
    assert!(matches!(Bracket::try_from(dead_end), Err(ParsingError::MalformedMatches)));

    let mut repeated_id = Raw::from(bracket_of(3));
    let first_id = repeated_id.matches[0].get_id();
    repeated_id.matches[1].id = first_id;
    assert!(matches!(Bracket::try_from(repeated_id), Err(ParsingError::MalformedMatches)));

    assert!(Bracket::try_from(raw).is_ok());
}

#[test]
fn bracket_text_is_read_back() {
    let raw = Raw::from(bracket_of(4));
    let get = GET::new(&raw);
    assert_eq!(get.format, "single-elimination");
    assert_eq!(get.seeding_method, "strict");
    assert_eq!(get.start_time, "2000-01-01 00:00:00 UTC");
    assert_eq!(get.matches.len(), 3);
    assert_eq!(get.matches[0].players[0], Opponent::Player(raw.players[0]).to_string());
    assert_eq!(get.players.len(), 4);

    let back = Raw::try_from(get).expect("raw");
    assert_eq!(back.players, raw.players);
    assert_eq!(back.player_names, raw.player_names);
    assert_eq!(back.matches, raw.matches);
    assert_eq!(back.format, raw.format);
    assert_eq!(back.seeding_method, raw.seeding_method);
    assert_eq!(back.start_time, raw.start_time);
}

#[test]
fn bracket_text_errors() {
    let raw = Raw::from(bracket_of(3));
    let mut get = GET::new(&raw);
    get.matches[1].winner = "nobody".into();
    assert!(matches!(Raw::try_from(get), Err(ParsingError::Match(_))));
    let mut get = GET::new(&raw);
    get.format = "round-robin".into();
    assert!(matches!(Raw::try_from(get), Err(ParsingError::Format(_))));
    let mut get = GET::new(&raw);
    get.seeding_method = "alphabetical".into();
    assert!(matches!(Raw::try_from(get), Err(ParsingError::Seeding(_))));
    let mut get = GET::new(&raw);
    get.start_time = "soon".into();
    assert!(matches!(Raw::try_from(get), Err(ParsingError::Time(_))));
}

fn request<'a>(format: &'a str, method: &'a str, time: &'a str) -> CreateRequest<'a> {
    CreateRequest {
        automatic_match_validation: true,
        bracket_format: format,
        bracket_name: "weekly",
        internal_channel_id: "1",
        organiser_internal_id: "2",
        organiser_name: "to",
        seeding_method: method,
        service_type_id: "discord",
        start_time: time,
    }
}

#[test]
fn bracket_is_created_from_request() {
    let bracket = Bracket::try_from_request(request("double-elimination", "random", "2000-01-01T00:00:00Z"))
        .expect("bracket");
    assert_eq!(bracket.get_format(), Format::DoubleEliminationBracket);
    assert_eq!(bracket.get_seeding_method(), SeedingMethod::Random);
    assert_eq!(bracket.get_start_time(), START);
    assert_eq!(bracket.get_name(), "weekly");
    assert!(bracket.is_validating_matches_automatically());
    assert!(matches!(
        Bracket::try_from_request(request("swiss", "random", "2000-01-01T00:00:00Z")),
        Err(ParsingError::Format(_))
    ));
    assert!(matches!(
        Bracket::try_from_request(request("double-elimination", "?", "2000-01-01T00:00:00Z")),
        Err(ParsingError::Seeding(_))
    ));
    assert!(matches!(
        Bracket::try_from_request(request("double-elimination", "strict", "2000")),
        Err(ParsingError::Time(_))
    ));
}

#[test]
fn collection_of_brackets_gives_them_back() {
    let a = Raw::from(bracket_of(3));
    let b = Raw::from(bracket_of(4));
    let (ida, idb) = (a.bracket_id, b.bracket_id);
    let brackets = Brackets::new(vec![a, b]);
    let got = brackets.get_brackets();
    assert_eq!(got.len(), 2);
    assert_eq!(got[0].bracket_id, ida);
    assert_eq!(got[1].bracket_id, idb);
    assert_eq!(got[1].players.len(), 4);
}
