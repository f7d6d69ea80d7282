use totsugeki::bracket::seeding::Seeding;
use totsugeki::bracket::PartitionError;
use totsugeki::double_elimination_bracket::DoubleEliminationBracket;
use totsugeki::player::Player;
use totsugeki::validation::AutomaticMatchValidationMode;

fn bracket_of(n: usize) -> DoubleEliminationBracket {
    let mut seeding = vec![];
    for _ in 1..=n {
        seeding.push(Player::new(String::new()).expect("player").get_id());
    }
    let bracket = DoubleEliminationBracket::create(
        Seeding::new(seeding).unwrap(),
        AutomaticMatchValidationMode::Flexible,
    ).expect("bracket");
    assert_eq!(bracket.get_seeding().len(), n);
    bracket
}

#[test]
fn partition_less_than_3_participants_throws_error() {
    for n in 0..=2 {
        let bracket = bracket_of(n);
        match bracket.partition_loser_bracket() {
            Err(PartitionError::NotEnoughPlayersInBracket) => {}
            Ok(r) => panic!("expected error for {n} participants but got {r:?}"),
        }
    }
}

#[test]
fn partition__3_participants_bracket() {
    let bracket = bracket_of(3);
    let matches = bracket.get_matches();
    let rounds = bracket.partition_loser_bracket().expect("partition");

    assert_eq!(rounds.len(), 1, "expected 1 round");
    assert_eq!(rounds[0].len(), 1, "expected 1 match in round 1 LB");
    assert_eq!(rounds[0][0].get_id(), matches[2].get_id());
}

#[test]
fn partition__4_participants_bracket() {
    let bracket = bracket_of(4);
    let matches = bracket.get_matches();
    let rounds = bracket.partition_loser_bracket().expect("partition");

    assert_eq!(rounds.len(), 2, "expected 2 round");
    assert_eq!(rounds[0].len(), 1, "expected 1 match in round 1 LB");
    assert_eq!(rounds[1].len(), 1, "expected 1 match in round 2 LB");
    assert_eq!(rounds[0][0].get_id(), matches[3].get_id());
    assert_eq!(rounds[1][0].get_id(), matches[4].get_id());
}

#[test]
fn partition__5_participants_bracket() {
    let bracket = bracket_of(5);
    let matches = bracket.get_matches();
    let rounds = bracket.partition_loser_bracket().expect("partition");

    assert_eq!(rounds.len(), 3, "expected 3 round");
    assert_eq!(rounds[0].len(), 1, "expected 1 match in round 1 LB");
    assert_eq!(rounds[1].len(), 1, "expected 1 match in round 2 LB");
    assert_eq!(rounds[2].len(), 1, "expected 1 match in round 3 LB");
    assert_eq!(rounds[0][0].get_id(), matches[4].get_id());
    assert_eq!(rounds[1][0].get_id(), matches[5].get_id());
    assert_eq!(rounds[2][0].get_id(), matches[6].get_id());
}

#[test]
fn partition__6_participants_bracket() {
    let bracket = bracket_of(6);
    let matches = bracket.get_matches();
    let rounds = bracket.partition_loser_bracket().expect("partition");

    assert_eq!(rounds.len(), 3, "expected 3 round");
    assert_eq!(rounds[0].len(), 2, "expected 2 match in round 1 LB");
    assert_eq!(rounds[1].len(), 1, "expected 1 match in round 2 LB");
    assert_eq!(rounds[2].len(), 1, "expected 1 match in round 3 LB");
    assert_eq!(rounds[0][0].get_id(), matches[5].get_id(), "3-6");
    assert_eq!(rounds[0][1].get_id(), matches[6].get_id(), "4-5");
    assert_eq!(rounds[1][0].get_id(), matches[7].get_id(), "3-4");
    assert_eq!(rounds[2][0].get_id(), matches[8].get_id(), "2-3");
}

#[test]
fn partition__7_participants_bracket() {
    let bracket = bracket_of(7);
    let matches = bracket.get_matches();
    let rounds = bracket.partition_loser_bracket().expect("partition");

    assert_eq!(rounds.len(), 4, "expected 3 round");
    assert_eq!(rounds[0].len(), 1, "expected 2 match in round 1 LB, 6-7");
    assert_eq!(rounds[1].len(), 2, "expected 2 match in round 2 LB, 3-6 + 4-5");
    assert_eq!(rounds[2].len(), 1, "expected 1 match in round 3 LB, 3-4");
    assert_eq!(rounds[3].len(), 1, "expected 1 match in round 4 LB, 2-3");
    assert_eq!(rounds[0][0].get_id(), matches[6].get_id(), "6-7");
    assert_eq!(rounds[1][0].get_id(), matches[7].get_id(), "3-6");
    assert_eq!(rounds[1][1].get_id(), matches[8].get_id(), "4-5");
    assert_eq!(rounds[2][0].get_id(), matches[9].get_id(), "3-4");
    assert_eq!(rounds[3][0].get_id(), matches[10].get_id(), "2-3");
}

#[test]
fn partition__8_participants_bracket() {
    let bracket = bracket_of(8);
    let matches = bracket.get_matches();
    let rounds = bracket.partition_loser_bracket().expect("partition");

    assert_eq!(rounds.len(), 4);
    assert_eq!(rounds[0].len(), 2, "expected 2 match in round 1 LB, 5-8 + 6-7");
    assert_eq!(rounds[1].len(), 2, "expected 2 match in round 2 LB, 3-6 + 4-5");
    assert_eq!(rounds[2].len(), 1, "expected 1 match in round 3 LB, 3-4");
    assert_eq!(rounds[3].len(), 1, "expected 1 match in round 4 LB, 2-3");
    assert_eq!(rounds[0][0].get_id(), matches[7].get_id(), "5-8");
    assert_eq!(rounds[0][1].get_id(), matches[8].get_id(), "6-7");
    assert_eq!(rounds[1][0].get_id(), matches[9].get_id(), "3-6");
    assert_eq!(rounds[1][1].get_id(), matches[10].get_id(), "4-5");
    assert_eq!(rounds[2][0].get_id(), matches[11].get_id(), "3-4");
    assert_eq!(rounds[3][0].get_id(), matches[12].get_id(), "2-3");
}

#[test]
fn partition__9_participants_bracket() {
    let bracket = bracket_of(9);
    let matches = bracket.get_matches();
    let rounds = bracket.partition_loser_bracket().expect("partition");

    assert_eq!(rounds.len(), 5);
    assert_eq!(rounds[0].len(), 1, "expected 1 match in round 1 LB, 8-9");
    assert_eq!(rounds[1].len(), 2, "expected 2 match in round 2 LB, 5-8 + 6-7");
    assert_eq!(rounds[2].len(), 2, "expected 2 match in round 3 LB, 3-6 + 4-5");
    assert_eq!(rounds[3].len(), 1, "expected 1 match in round 4 LB, 3-4");
    assert_eq!(rounds[4].len(), 1, "expected 1 match in round 5 LB, 2-3");
    assert_eq!(rounds[0][0].get_id(), matches[8].get_id(), "8-9");
    assert_eq!(rounds[1][0].get_id(), matches[9].get_id(), "5-8");
    assert_eq!(rounds[1][1].get_id(), matches[10].get_id(), "6-7");
    assert_eq!(rounds[2][0].get_id(), matches[11].get_id(), "3-6");
    assert_eq!(rounds[2][1].get_id(), matches[12].get_id(), "4-5");
    assert_eq!(rounds[3][0].get_id(), matches[13].get_id(), "3-4");
    assert_eq!(rounds[4][0].get_id(), matches[14].get_id(), "2-3");
}

#[test]
fn partition_matches_for_3_man_bracket() {
    let mut unpadded_player_ids = vec![];
    for i in 1..=3 {
        let player = Player::new(format!("p{i}")).expect("player");
        unpadded_player_ids.push(player.get_id());
    }
    let bracket = DoubleEliminationBracket::create(
        Seeding::new(unpadded_player_ids).unwrap(),
        AutomaticMatchValidationMode::Flexible,
    ).expect("bracket");

    let (winner_bracket, loser_bracket, _gf, _gfr) = bracket.partition_matches().unwrap();
    assert_eq!(winner_bracket.len(), 2);
    assert_eq!(loser_bracket.len(), 1);
    assert_eq!(loser_bracket[0].get_seeds(), [2, 3]);
}

#[test]
fn partition_winner_bracket_and_grand_finals_of_5_participants() {
    let bracket = bracket_of(5);
    let matches = bracket.get_matches();
    let rounds = bracket.partition_winner_bracket().expect("partition");
    let sizes: Vec<usize> = rounds.iter().map(|r| r.len()).collect();
    assert_eq!(sizes, vec![1, 2, 1]);
    assert_eq!(rounds[0][0].get_seeds(), [4, 5]);
    let (gf, gfr) = bracket.grand_finals_and_reset().expect("grand finals");
    assert_eq!(gf.get_id(), matches[7].get_id());
    assert_eq!(gfr.get_id(), matches[8].get_id());
    assert!(bracket_of(2).partition_winner_bracket().is_err());
    assert!(bracket_of(2).grand_finals_and_reset().is_err());
}
