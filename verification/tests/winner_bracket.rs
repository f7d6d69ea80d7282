use totsugeki::bracket::winner_bracket::winner_bracket;
use totsugeki::matches::Match;

/// `n` default matches, one per participant
fn matches_of(n: usize) -> Vec<Match> {
    vec![Match::default(); n]
}

fn round_sizes(n: usize) -> Vec<usize> {
    winner_bracket(&matches_of(n), n).iter().map(|r| r.len()).collect()
}

#[test]
fn split_winner_bracket_3_participants() {
    let partition = round_sizes(3);
    assert_eq!(partition[0], 1, "first round");
    assert_eq!(partition[1], 1, "second round");
}

#[test]
fn split_winner_bracket_4_participants() {
    let partition = round_sizes(4);
    assert_eq!(partition[0], 2, "first round, 1-4 + 2-3");
    assert_eq!(partition[1], 1, "second round, 1-2");
}

#[test]
fn split_winner_bracket_5_participants() {
    let partition = round_sizes(5);
    assert_eq!(partition[0], 1, "first round, 4-5");
    assert_eq!(partition[1], 2, "second round, 1-4 + 2-3");
    assert_eq!(partition[2], 1, "third round, 1-2");
}

#[test]
fn split_winner_bracket_6_participants() {
    let partition = round_sizes(6);
    assert_eq!(partition[0], 2, "first round, 3-6 + 4-5");
    assert_eq!(partition[1], 2, "second round, 1-4 + 2-3");
    assert_eq!(partition[2], 1, "third round, 1-2");
}

#[test]
fn split_winner_bracket_7_participants() {
    let partition = round_sizes(7);
    assert_eq!(partition[0], 3, "first round, 2-7 + 3-6 + 4-5");
    assert_eq!(partition[1], 2, "second round, 1-4 + 2-3");
    assert_eq!(partition[2], 1, "third round, 1-2");
}

#[test]
fn split_winner_bracket_8_participants() {
    let partition = round_sizes(8);
    assert_eq!(partition[0], 4, "first round, 1-8 + 2-7 + 3-6 + 4-5");
    assert_eq!(partition[1], 2, "second round, 1-4 + 2-3");
    assert_eq!(partition[2], 1, "third round, 1-2");
}

#[test]
fn split_winner_bracket_9_participants() {
    let partition = round_sizes(9);
    assert_eq!(partition[0], 1, "first round, 8-9");
    assert_eq!(partition[1], 4, "first round, 1-8 + 2-7 + 3-6 + 4-5");
    assert_eq!(partition[2], 2, "second round, 1-4 + 2-3");
    assert_eq!(partition[3], 1, "third round, 1-2");
}

#[test]
fn split_winner_bracket_10_participants() {
    let partition = round_sizes(10);
    assert_eq!(partition[0], 2, "first round, 7-10 + 8-9");
    assert_eq!(partition[1], 4, "first round, 1-8 + 2-7 + 3-6 + 4-5");
    assert_eq!(partition[2], 2, "second round, 1-4 + 2-3");
    assert_eq!(partition[3], 1, "third round, 1-2");
}

#[test]
fn winner_bracket_of_n_minus_one_matches_has_no_extra_round() {
    let sizes: Vec<usize> = winner_bracket(&matches_of(8), 9).iter().map(|r| r.len()).collect();
    assert_eq!(sizes, vec![1, 4, 2, 1]);
    let sizes: Vec<usize> = winner_bracket(&matches_of(2), 3).iter().map(|r| r.len()).collect();
    assert_eq!(sizes, vec![1, 1]);
    assert!(winner_bracket(&[], 0).is_empty());
}
