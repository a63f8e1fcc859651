use std::str::FromStr;
use turing_solve::scenario::constraint::Constraint;
use turing_solve::selection::{look_up, select, select_constraints, CardOrConstraintArg};

fn card(num: u8) -> CardOrConstraintArg {
    CardOrConstraintArg::Card(num)
}

fn one(card_num: u8, id: u8) -> CardOrConstraintArg {
    CardOrConstraintArg::CardConstraint { inverted: false, card_num, id }
}

fn not(card_num: u8, id: u8) -> CardOrConstraintArg {
    CardOrConstraintArg::CardConstraint { inverted: true, card_num, id }
}

fn ids(constraints: &Vec<Constraint>) -> Vec<(u8, u8)> {
    constraints.iter().map(|c| (c.id.card, c.id.idx)).collect()
}

#[test]
fn a_number_names_a_card() {
    assert_eq!(CardOrConstraintArg::parse("5"), Ok(card(5)));
    assert_eq!(CardOrConstraintArg::parse("48"), Ok(card(48)));
    assert_eq!(CardOrConstraintArg::parse("255"), Ok(card(255)));
    assert_eq!(CardOrConstraintArg::parse("0"), Ok(card(0)));
    assert_eq!(CardOrConstraintArg::parse("007"), Ok(card(7)));
    assert_eq!(CardOrConstraintArg::parse("+12"), Ok(card(12)));
    assert_eq!(CardOrConstraintArg::parse("0000000000000000000000255"), Ok(card(255)));
}

#[test]
fn a_card_a_dot_and_a_place_name_a_constraint() {
    assert_eq!(CardOrConstraintArg::parse("1.2"), Ok(one(1, 2)));
    assert_eq!(CardOrConstraintArg::parse("48.0"), Ok(one(48, 0)));
    assert_eq!(CardOrConstraintArg::parse("^1.2"), Ok(not(1, 2)));
    assert_eq!(CardOrConstraintArg::parse("^40.8"), Ok(not(40, 8)));
    assert_eq!(CardOrConstraintArg::parse("+3.+4"), Ok(one(3, 4)));
    assert_eq!(CardOrConstraintArg::parse("^+3.04"), Ok(not(3, 4)));
    assert_eq!(CardOrConstraintArg::parse("255.255"), Ok(one(255, 255)));
}

#[test]
fn anything_else_is_no_word() {
    for text in [
        "", "+", "-1", "256", "1000", "a", "1a", " 1", "1 ", "1.", ".1", ".", "^", "^1", "^.1",
        "1.2.3", "1..2", "1.^2", "^^1.2", "256.1", "1.256", "1,2", "++1", "+^1.2", "\u{0663}",
        "1.\u{0663}",
    ] {
        assert_eq!(CardOrConstraintArg::parse(text), Err(""), "{:?}", text);
    }
}

#[test]
fn words_are_read_from_strings() {
    assert_eq!(CardOrConstraintArg::from_str("17"), Ok(card(17)));
    assert_eq!("^2.1".parse::<CardOrConstraintArg>(), Ok(not(2, 1)));
    assert_eq!("x".parse::<CardOrConstraintArg>(), Err(""));
    for text in ["0", "9", "+0", "42", "300", "+", "00"] {
        let expected = u8::from_str(text).ok().map(card);
        assert_eq!(CardOrConstraintArg::parse(text).ok(), expected, "{:?}", text);
    }
}

#[test]
fn a_card_stands_for_all_its_constraints() {
    assert_eq!(ids(&select_constraints(&vec![card(1)]).unwrap()), vec![(1, 0), (1, 1)]);
    assert_eq!(
        ids(&select_constraints(&vec![card(2), card(1)]).unwrap()),
        vec![(2, 0), (2, 1), (2, 2), (1, 0), (1, 1)]
    );
    assert!(select_constraints(&vec![]).unwrap().is_empty());
}

#[test]
fn a_constraint_stands_for_itself() {
    assert_eq!(ids(&select_constraints(&vec![one(2, 1)]).unwrap()), vec![(2, 1)]);
    assert_eq!(
        ids(&select_constraints(&vec![one(2, 2), card(1), one(8, 0)]).unwrap()),
        vec![(2, 2), (1, 0), (1, 1), (8, 0)]
    );
}

#[test]
fn unknown_cards_and_places_stand_for_nothing() {
    assert!(select_constraints(&vec![card(32)]).unwrap().is_empty());
    assert!(select_constraints(&vec![card(0), one(49, 0), not(200, 1)]).unwrap().is_empty());
    assert!(select_constraints(&vec![one(1, 2)]).unwrap().is_empty());
    assert_eq!(ids(&select_constraints(&vec![one(1, 2), one(1, 1)]).unwrap()), vec![(1, 1)]);
}

#[test]
fn a_ruled_out_constraint_leaves_the_rest_of_its_card() {
    assert_eq!(ids(&select_constraints(&vec![not(2, 1)]).unwrap()), vec![(2, 0), (2, 2)]);
    assert_eq!(ids(&select_constraints(&vec![not(2, 1), card(2)]).unwrap()), vec![(2, 0), (2, 2), (2, 0), (2, 2)]);
    assert_eq!(ids(&select_constraints(&vec![card(1), not(1, 0)]).unwrap()), vec![(1, 1)]);
    assert_eq!(ids(&select_constraints(&vec![one(2, 1), not(2, 1)]).unwrap()), vec![(2, 0), (2, 2)]);
    assert_eq!(ids(&select_constraints(&vec![not(2, 9)]).unwrap()), vec![(2, 0), (2, 1), (2, 2)]);
}

#[test]
fn immediate_repetitions_are_dropped() {
    assert_eq!(ids(&select_constraints(&vec![one(1, 0), one(1, 0)]).unwrap()), vec![(1, 0)]);
    assert_eq!(
        ids(&select_constraints(&vec![one(1, 0), one(1, 0), one(1, 0), one(1, 1), one(1, 0)]).unwrap()),
        vec![(1, 0), (1, 1), (1, 0)]
    );
    assert_eq!(
        ids(&select_constraints(&vec![card(1), one(1, 1), card(1)]).unwrap()),
        vec![(1, 0), (1, 1), (1, 0), (1, 1)]
    );
    assert_eq!(ids(&select_constraints(&vec![not(1, 0), not(1, 0)]).unwrap()), vec![(1, 1)]);
}

#[test]
fn more_than_six_words_are_too_many() {
    let six = vec![card(1), card(2), card(3), card(4), card(5), card(6)];
    assert_eq!(select_constraints(&six).unwrap().len(), 2 + 3 + 3 + 3 + 2 + 2);
    let mut seven = six.clone();
    seven.push(card(7));
    assert_eq!(select_constraints(&seven).unwrap_err(), "Too many constraints provided");
}

#[test]
fn selecting_uses_what_the_catalog_answered() {
    let args = vec![card(1), one(2, 0), card(77)];
    let offered = look_up(&args);
    assert_eq!(offered.len(), 3);
    assert_eq!(offered[0].as_ref().map(|c| c.len()), Some(2));
    assert_eq!(offered[1].as_ref().map(|c| c.len()), Some(3));
    assert!(offered[2].is_none());
    assert_eq!(ids(&select(&args, &offered)), vec![(1, 0), (1, 1), (2, 0)]);
    assert_eq!(ids(&select(&args, &vec![])), Vec::<(u8, u8)>::new());
    let swapped = vec![offered[1].clone(), offered[0].clone()];
    assert_eq!(ids(&select(&args, &swapped)), vec![(2, 0), (2, 1), (2, 2), (1, 0)]);
}
