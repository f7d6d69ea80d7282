use std::collections::{HashMap, HashSet};
use totsugeki::organiser::{GETResponse, Organiser};

#[test]
fn new_organiser_has_no_finished_bracket() {
    let o = Organiser::new("to".into(), None).expect("organiser");
    assert_eq!(o.get_organiser_name(), "to");
    assert!(o.get_active_brackets().is_empty());
    assert!(o.get_finalized_brackets().is_empty());
    let other = Organiser::new("to".into(), None).expect("organiser");
    assert_ne!(o.get_id(), other.get_id());
}

#[test]
fn active_bracket_replaces_the_one_of_its_channel() {
    let mut active = HashMap::new();
    active.insert(1, 10);
    let o = Organiser::new("to".into(), Some(active)).expect("organiser");
    assert_eq!(o.get_active_brackets().get(&1), Some(&10));
    let o = o.add_active_bracket(1, 11).add_active_bracket(2, 20);
    let active = o.get_active_brackets();
    assert_eq!(active.len(), 2);
    assert_eq!(active.get(&1), Some(&11));
    assert_eq!(active.get(&2), Some(&20));
}

#[test]
fn organiser_from_values_answers_with_them() {
    let mut finalized = HashSet::new();
    finalized.insert(5);
    finalized.insert(6);
    let o = Organiser::from(HashMap::new(), finalized.clone(), 42, "to".into());
    assert_eq!(o.get_id(), 42);
    assert_eq!(o.get_finalized_brackets(), finalized);
    let answer = GETResponse::from(o);
    assert_eq!(answer.organiser_id, 42);
    assert_eq!(answer.organiser_name, "to");
    assert_eq!(answer.finalized_brackets, finalized);
    assert!(answer.active_brackets.is_empty());
}
