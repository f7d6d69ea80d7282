use totsugeki::bracket::seeding::Seeding;
use totsugeki::double_elimination_bracket::DoubleEliminationBracket;
use totsugeki::opponent::Opponent;
use totsugeki::player::{Participants, Player};
use totsugeki::validation::AutomaticMatchValidationMode;

const AUTO: AutomaticMatchValidationMode = AutomaticMatchValidationMode::Flexible;

fn players_bracket(n: usize) -> (Vec<Player>, DoubleEliminationBracket) {
    let mut p = vec![Player::new("don't use".into()).expect("player")];
    let mut participants = Participants::new();
    for i in 1..=n {
        let player = Player::new(format!("p{i}")).expect("player");
        p.push(player.clone());
        participants = participants.add_participant(player).expect("seeding");
    }
    let seeding = Seeding::new(participants.get_seeding()).expect("seeding");
    (p, DoubleEliminationBracket::create(seeding, AUTO).expect("bracket"))
}

fn ids_bracket(n: usize) -> (Vec<u128>, DoubleEliminationBracket) {
    let mut p = vec![Player::new(String::new()).expect("player").get_id()];
    let mut seeding = vec![];
    for _ in 1..=n {
        let id = Player::new(String::new()).expect("player").get_id();
        p.push(id);
        seeding.push(id);
    }
    (p, DoubleEliminationBracket::create(Seeding::new(seeding).expect("seeding"), AUTO).expect("bracket"))
}

fn show(b: &DoubleEliminationBracket) -> String {
    let ids = b.get_seeding().get();
    let name = |o: Opponent| match o {
        Opponent::Player(id) => format!("p{}", ids.iter().position(|x| *x == id).unwrap() + 1),
        Opponent::Unknown => "?".to_string(),
    };
    let mut out = String::new();
    for m in b.get_matches() {
        let pl = m.get_players();
        out += &format!("\n{:?} {} vs {} W={} L={} rr={:?}", m.get_seeds(), name(pl[0]), name(pl[1]), name(m.get_winner()), name(m.get_automatic_loser()), m.reported_results);
    }
    out
}

fn dq(b: &DoubleEliminationBracket, player: u128) -> DoubleEliminationBracket {
    match b.disqualify_participant_from_bracket(player) {
        Ok(b) => b,
        Err(e) => panic!("dq {e:?} {}", show(b)),
    }
}

fn to_reports(b: DoubleEliminationBracket, p1: u128, r: (i8, i8), p2: u128) -> DoubleEliminationBracket {
    let (b, _, _) = b.tournament_organiser_reports_result_dangerous(p1, r, p2).expect("bracket");
    b
}

#[test]
fn disqualifying_most_in_double_elimination_tournament_and_grand_finalist_from_loser_in_grand_finals() {
    let (p, mut s) = players_bracket(8);
    for i in (3..=8).rev() {
        s = dq(&s, p[i].get_id());
    }
    let s = to_reports(s, p[1].get_id(), (2, 0), p[2].get_id());
    let s = dq(&s, p[2].get_id());
    let m = s.get_matches();
    let gf = m[m.len() - 2];
    assert!(gf.contains(p[1].get_id()));
    assert!(gf.contains(p[2].get_id()));
    assert_eq!(m[m.len() - 1].get_players(), [Opponent::Unknown, Opponent::Unknown]);
    assert_eq!(
        gf.get_automatic_loser(),
        Opponent::Player(p[2].get_id()),
        "expected automatic loser of grand finals to be p2"
    );
    assert_eq!(
        gf.get_winner(),
        Opponent::Player(p[1].get_id()),
        "expected winner of grand finals to be p1\n{gf:?}"
    );
    assert!(s.is_over(), "expected bracket to be over but got {m:?}");
}

#[test]
fn disqualifying_most_in_double_elimination_tournament_and_highest_expected_seed_in_winners_final() {
    let (p, mut s) = players_bracket(8);
    for i in (3..=8).rev() {
        s = dq(&s, p[i].get_id());
    }
    let s = dq(&s, p[1].get_id());
    let m = s.get_matches();
    let gf = m[m.len() - 2];
    assert!(gf.contains(p[1].get_id()));
    assert!(gf.contains(p[2].get_id()));
    assert_eq!(
        gf.get_players(),
        [Opponent::Player(p[2].get_id()), Opponent::Player(p[1].get_id())],
        "expected player 1 and 2 in grand finals but got {}",
        show(&s)
    );
    assert_eq!(
        gf.get_automatic_loser(),
        Opponent::Player(p[1].get_id()),
        "expected automatic loser of grand finals to be p1"
    );
    assert_eq!(
        gf.get_winner(),
        Opponent::Player(p[2].get_id()),
        "expected winner of grand finals to be p2\n{}",
        show(&s)
    );
    assert!(s.is_over(), "expected bracket to be over but got {}", show(&s));
}

#[test]
fn fuzzer_incident_01() {
    // disqualified player is in grand finals
    let (p, s) = ids_bracket(4);
    let s = to_reports(s, p[1], (0, 2), p[4]);
    let s = to_reports(s, p[2], (0, 2), p[3]);
    let s = dq(&s, p[3]);
    let s = dq(&s, p[1]);
    let _s = dq(&s, p[2]);
}

#[test]
fn fuzzer_incident_02() {
    // disqualified player is in loser bracket already
    let (p, s) = ids_bracket(8);
    let s = to_reports(s, p[1], (2, 0), p[8]);
    let s = dq(&s, p[2]);
    let s = to_reports(s, p[3], (2, 0), p[6]);
    let s = dq(&s, p[5]);
    let s = dq(&s, p[4]);
    let s = dq(&s, p[3]);
    let s = dq(&s, p[7]);
    let _s = dq(&s, p[8]);
}

#[test]
fn fuzzer_incident_03() {
    let (p, s) = ids_bracket(3);
    let s = to_reports(s, p[2], (2, 0), p[3]);
    let s = to_reports(s, p[1], (2, 0), p[2]);
    let s = dq(&s, p[1]);
    // when moved into grand finals with someone disqualified, match should
    // be updated
    let s = dq(&s, p[3]);
    assert!(s.is_over());
}
