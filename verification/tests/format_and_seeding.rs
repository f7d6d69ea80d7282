use totsugeki::seeding::double_elimination_seeded_bracket::loser_matches_with_ids;
use totsugeki::seeding::single_elimination_seeded_bracket::matches_with_ids;
use totsugeki::format::Format;
use totsugeki::opponent::Opponent;
use totsugeki::player::{Participants, Player};
use totsugeki::seeding::{seed, Error, Method};
use totsugeki::validation::AutomaticMatchValidationMode;

#[test]
fn format_text_round_trip() {
    for f in [Format::SingleEliminationBracket, Format::DoubleEliminationBracket] {
        assert_eq!(f.to_string().parse::<Format>().expect("format"), f);
    }
    assert_eq!(Format::SingleEliminationBracket.to_string(), "single-elimination");
    assert_eq!(Format::default(), Format::DoubleEliminationBracket);
    assert!("triple-elimination".parse::<Format>().is_err());
}

#[test]
fn method_text_round_trip() {
    for m in [Method::Random, Method::Strict] {
        assert_eq!(m.to_string().parse::<Method>().expect("method"), m);
    }
    assert_eq!(Method::default(), Method::Strict);
    assert!("whatever".parse::<Method>().is_err());
    assert!(matches!(AutomaticMatchValidationMode::default(), AutomaticMatchValidationMode::Strict));
}

#[test]
fn opponent_text_round_trip() {
    let p = Player::new("p".into()).expect("player");
    let o = Opponent::Player(p.get_id());
    assert_eq!(Opponent::parse(&o.to_string()).expect("opponent"), o);
    assert_eq!(Opponent::Unknown.to_string(), "?");
    assert_eq!("?".parse::<Opponent>().expect("unknown"), Opponent::Unknown);
}

fn participants(n: usize) -> Participants {
    let mut ps = Participants::new();
    for i in 0..n {
        ps = ps.add_participant(Player::new(format!("player{i}")).expect("player")).expect("player added");
    }
    ps
}

#[test]
fn cannot_seed_bracket_without_3_players_minimum() {
    for n in 0..3 {
        let players = participants(n);
        match seed(&Method::Random, players.clone(), players.clone()) {
            Err(Error::NotEnoughPlayers) => {}
            Err(e) => panic!("expected error but got {e:?}"),
            Ok(_) => panic!("expected error but got none"),
        }
    }
    assert_eq!(participants(2).len(), 2);
}

#[test]
fn random_seeding_shuffles_the_same_players() {
    let players = participants(8);
    let seeded = seed(&Method::Random, Participants::new(), players.clone()).expect("seeded");
    assert!(seeded.have_same_participants(&players));
}

#[test]
fn strict_seeding_needs_the_same_players() {
    let players = participants(4);
    let mut reordered = players.get_players_list();
    reordered.reverse();
    let reordered = Participants::try_from_players(reordered).expect("participants");
    let seeded = seed(&Method::Strict, reordered.clone(), players.clone()).expect("seeded");
    assert_eq!(seeded.get_seeding(), reordered.get_seeding());
    assert!(matches!(
        seed(&Method::Strict, participants(4), players),
        Err(Error::DifferentParticipants(_, _))
    ));
}

#[test]
fn adding_two_same_players_returns_error() {
    let same_player = Player::new("same_player".into()).expect("player");
    let players = Participants::new()
        .add_participant(same_player.clone())
        .expect("players");
    match players.add_participant(same_player) {
        Err(totsugeki::player::Error::AlreadyPresent) => {}
        Err(e) => panic!("expected AlreadyPresent but got {e:?}"),
        Ok(_) => panic!("expected error but got none"),
    }
}

#[test]
fn no_matches_for_no_players() {
    let matches =
        totsugeki::seeding::single_elimination_seeded_bracket::get_balanced_round_matches_top_seed_favored(&[])
            .expect("matches");
    assert!(matches.is_empty());
}

#[test]
fn removing_an_unknown_participant_is_an_error() {
    let p1 = Player::new("p1".into()).expect("player");
    let p2 = Player::new("p2".into()).expect("player");
    let outsider = Player::new("p3".into()).expect("player");
    let ps = Participants::try_from_players(vec![p1.clone(), p2.clone()]).expect("participants");
    assert!(matches!(
        ps.clone().remove(outsider.get_id()),
        Err(totsugeki::player::Error::Unknown(id)) if id == outsider.get_id()
    ));
    let rest = ps.remove(p1.get_id()).expect("removed");
    assert_eq!(rest.len(), 1);
    assert_eq!(rest.get_players_list()[0].get_id(), p2.get_id());
}

#[test]
fn players_with_a_bye_start_in_the_second_round() {
    // 5 players in a bracket of 8: seeds 1 to 3 have a bye
    let ids: Vec<u128> = (0..5).map(|_| Player::new(String::new()).expect("player").get_id()).collect();
    let ms = totsugeki::seeding::single_elimination_seeded_bracket::get_balanced_round_matches_top_seed_favored(&ids)
        .expect("matches");
    assert_eq!(ms.len(), 4);
    assert_eq!(ms[0].get_players(), [Opponent::Player(ids[3]), Opponent::Player(ids[4])]);
    assert_eq!(ms[1].get_players(), [Opponent::Player(ids[0]), Opponent::Unknown]);
    assert_eq!(ms[2].get_players(), [Opponent::Player(ids[1]), Opponent::Player(ids[2])]);
    assert_eq!(ms[3].get_players(), [Opponent::Unknown, Opponent::Unknown]);
    // each player stands in one match only
    for id in &ids {
        let count = ms.iter().filter(|m| m.contains(*id)).count();
        assert_eq!(count, 1);
    }
}

#[test]
fn loser_bracket_seeds_lie_from_two_to_the_number_of_players() {
    for n in 3..=17usize {
        let ids: Vec<u128> = (0..n).map(|_| Player::new(String::new()).expect("player").get_id()).collect();
        let lb = totsugeki::seeding::double_elimination_seeded_bracket::get_loser_bracket_matches_top_seed_favored(&ids)
            .expect("matches");
        assert_eq!(lb.len(), n - 2);
        for m in &lb {
            let [top, bottom] = m.get_seeds();
            assert!(2 <= top && top < bottom && bottom <= n, "{n}: {top} {bottom}");
        }
    }
}

#[test]
fn matches_are_built_with_the_given_identifiers() {
    let ids: Vec<u128> = (0..3).map(|_| Player::new(String::new()).expect("player").get_id()).collect();
    let ms = matches_with_ids(&ids, &[10, 11]).expect("matches");
    assert_eq!(ms.len(), 2);
    assert_eq!(ms[0].get_id(), 10);
    assert_eq!(ms[0].get_players(), [Opponent::Player(ids[1]), Opponent::Player(ids[2])]);
    assert_eq!(ms[1].get_id(), 11);
    assert_eq!(ms[1].get_players(), [Opponent::Player(ids[0]), Opponent::Unknown]);
    assert!(matches_with_ids(&ids, &[10, 10]).is_none());

    let lb = loser_matches_with_ids(3, &[7]).expect("loser bracket");
    assert_eq!(lb[0].get_id(), 7);
    assert_eq!(lb[0].get_seeds(), [2, 3]);

    let de = Format::DoubleEliminationBracket.matches_with_ids(&ids, &[1, 2, 3, 4, 5]).expect("matches");
    let de_ids: Vec<u128> = de.iter().map(|m| m.get_id()).collect();
    assert_eq!(de_ids, vec![1, 2, 3, 4, 5]);
    assert!(Format::DoubleEliminationBracket.matches_with_ids(&ids, &[1, 2, 3, 4, 1]).is_none());
}

#[test]
fn one_player_needs_no_match() {
    let one = vec![Player::new("p1".into()).expect("player").get_id()];
    assert!(Format::SingleEliminationBracket.generate_matches(&one).expect("matches").is_empty());
    assert!(
        totsugeki::seeding::single_elimination_seeded_bracket::get_balanced_round_matches_top_seed_favored(&one)
            .expect("matches")
            .is_empty()
    );
}
