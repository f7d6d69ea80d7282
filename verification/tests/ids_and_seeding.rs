use totsugeki::bracket::seeding::{Seeding, SeedingError};
use totsugeki::opponent::Opponent;
use totsugeki::player::Player;

fn new_random_id() -> u128 {
    Player::new(String::new()).expect("player").get_id()
}

fn parse_id(s: &str) -> Option<u128> {
    match Opponent::parse(s) {
        Ok(Opponent::Player(id)) => Some(id),
        _ => None,
    }
}

fn id_to_string(id: u128) -> String {
    Opponent::Player(id).to_string()
}

/// Legible identifiers 00000000-0000-0000-0000-0000000000XX for players 1 to 16
fn legible_uuids_order(n: usize) -> Vec<u128> {
    assert_ne!(n, 0, "This function cannot return an empty vector");
    assert!(n <= 16, "This function does not accept number greater than 16");
    let mut r = vec![];
    for i in 1..=n {
        let id = match i {
            small if small <= 9 => format!("{i:02}"),
            10 => "0A".into(),
            11 => "0B".into(),
            12 => "0C".into(),
            13 => "0D".into(),
            14 => "0E".into(),
            15 => "0F".into(),
            16 => "10".into(),
            _ => unreachable!(),
        };
        let p = format!("00000000-0000-0000-0000-0000000000{id}");
        r.push(parse_id(&p).expect("id"));
    }
    r
}

#[test]
fn made_up_uuids_work_in_accepted_range() {
    for i in 1..=16 {
        let uuids = legible_uuids_order(i);
        let expected: Vec<u128> = (1..=i as u128).collect();
        assert_eq!(uuids, expected);
    }
}

#[test]
fn identifiers_are_read_back_from_their_text() {
    let id = new_random_id();
    let text = id_to_string(id);
    assert_eq!(text.len(), 36);
    assert_eq!(parse_id(&text).expect("id"), id);
    assert_eq!(id_to_string(10), "00000000-0000-0000-0000-00000000000a");
    assert!(parse_id("not an id").is_none());
    assert_ne!(new_random_id(), new_random_id());
}

#[test]
fn seed_many_players() {
    let players = vec![new_random_id(), new_random_id()];
    assert!(Seeding::new(players).is_ok())
}

#[test]
fn seeding_throws_error_for_duplicate_id() {
    let duplicate_id = new_random_id();
    let players = vec![new_random_id(), new_random_id(), duplicate_id, duplicate_id];
    assert_eq!(Seeding::new(players), Err(SeedingError::DuplicatePlayer(duplicate_id)))
}

#[test]
fn default_seeding_is_empty() {
    assert!(Seeding::default().is_empty());
    assert_eq!(Seeding::default().len(), 0);
    let one = Seeding::new(vec![new_random_id()]).expect("seeding");
    assert!(!one.is_empty());
    assert_eq!(one.len(), 1);
}
