use turing_solve::scenario::card::Card;
use turing_solve::scenario::code::Code;
use turing_solve::scenario::constraint::{tabulate, Constraint, ConstraintID};
use turing_solve::solver::constraints_for_card;

fn code(blue: u8, yellow: u8, purple: u8) -> Code {
    Code::new(blue, yellow, purple).unwrap()
}

fn verdicts(card: u8, on: Code) -> Vec<bool> {
    constraints_for_card(card).unwrap().iter().map(|c| c.verifies(&on)).collect()
}

#[test]
fn the_domain_is_enumerated_in_lexicographic_order() {
    let codes = Code::all();
    assert_eq!(codes.len(), 125);
    assert_eq!(codes[0], code(1, 1, 1));
    assert_eq!(codes[1], code(1, 1, 2));
    assert_eq!(codes[4], code(1, 1, 5));
    assert_eq!(codes[5], code(1, 2, 1));
    assert_eq!(codes[25], code(2, 1, 1));
    assert_eq!(codes[57], code(3, 2, 3));
    assert_eq!(codes[124], code(5, 5, 5));
    for (i, c) in codes.iter().enumerate() {
        assert_eq!(c.position(), Some(i));
    }
}

#[test]
fn a_code_needs_digits_from_one_to_five() {
    assert_eq!(Code::new(1, 5, 3), Some(Code { blue: 1, yellow: 5, purple: 3 }));
    assert_eq!(Code::new(0, 1, 1), None);
    assert_eq!(Code::new(1, 6, 1), None);
    assert_eq!(Code::new(1, 1, 200), None);
    assert_eq!(Code { blue: 0, yellow: 1, purple: 1 }.position(), None);
}

#[test]
fn a_code_hands_out_its_digits() {
    let c = code(4, 2, 5);
    assert_eq!(c.blue(), 4);
    assert_eq!(c.yellow(), 2);
    assert_eq!(c.purple(), 5);
    assert_eq!(c.iter(), [4, 2, 5]);
}

#[test]
fn a_constraint_keeps_the_verdict_of_its_predicate() {
    let c = Constraint::new(ConstraintID { card: 9, idx: 4 }, "sum is 7", |code| {
        code.blue() + code.yellow() + code.purple() == 7
    });
    assert_eq!(c.id, ConstraintID { card: 9, idx: 4 });
    assert_eq!(c.name, "sum is 7");
    for candidate in Code::all() {
        let sum = candidate.blue() + candidate.yellow() + candidate.purple();
        assert_eq!(c.verifies(&candidate), sum == 7);
    }
    assert!(!c.verifies(&Code { blue: 7, yellow: 0, purple: 0 }));
    assert!(!c.verifies(&Code { blue: 6, yellow: 1, purple: 0 }));
}

#[test]
fn tabulating_asks_about_every_code_once() {
    let table = tabulate(|code: &Code| code.purple() == 5);
    assert_eq!(table.iter().filter(|v| **v).count(), 25);
    assert!(table[4]);
    assert!(!table[3]);
    assert!(table[124]);
}

#[test]
fn a_card_numbers_its_constraints() {
    let card = Card::new(
        7,
        [("a", tabulate(|_: &Code| true)), ("b", tabulate(|_: &Code| false)), ("c", tabulate(|_: &Code| true))],
    );
    assert_eq!(card.constraints.len(), 3);
    assert_eq!(card.constraints[0].id, ConstraintID { card: 7, idx: 0 });
    assert_eq!(card.constraints[2].id, ConstraintID { card: 7, idx: 2 });
    assert_eq!(card.constraints[1].name, "b");
    assert!(card.constraints[0].verifies(&code(1, 1, 1)));
    assert!(!card.constraints[1].verifies(&code(1, 1, 1)));
}

#[test]
fn the_catalog_knows_cards_one_to_forty_eight_but_thirty_two() {
    for num in 0..=255u8 {
        let known = (1..=48).contains(&num) && num != 32;
        assert_eq!(constraints_for_card(num).is_some(), known, "card {}", num);
        assert_eq!(Card::try_from(num).is_ok(), known);
    }
    assert_eq!(Card::try_from(32).unwrap_err(), "No mapping for specified card number.");
    assert_eq!(Card::try_from(0).unwrap_err(), "No mapping for specified card number.");
}

#[test]
fn the_catalog_numbers_constraints_by_card_and_place() {
    let sizes = [
        (1, 2), (2, 3), (8, 4), (16, 2), (20, 3), (21, 2), (33, 6), (40, 9), (41, 9), (42, 6),
        (48, 9),
    ];
    for (num, size) in sizes {
        let listed = constraints_for_card(num).unwrap();
        assert_eq!(listed.len(), size, "card {}", num);
        for (i, c) in listed.iter().enumerate() {
            assert_eq!(c.id, ConstraintID { card: num, idx: i as u8 });
        }
    }
}

#[test]
fn the_catalog_names_its_constraints() {
    let first = constraints_for_card(1).unwrap();
    assert_eq!(first[0].name, "\u{1F537} = 1");
    assert_eq!(first[1].name, "\u{1F537} > 1");
    let sums = constraints_for_card(23).unwrap();
    assert_eq!(sums[0].name, "Sum < 6");
    assert_eq!(sums[1].to_string(), "(23.1) Sum = 6");
    let order = constraints_for_card(48).unwrap();
    assert_eq!(order[8].name, "\u{1F7E8} > \u{1F7E3}");
}

#[test]
fn comparisons_with_a_number() {
    assert_eq!(verdicts(1, code(1, 4, 4)), vec![true, false]);
    assert_eq!(verdicts(1, code(2, 1, 1)), vec![false, true]);
    assert_eq!(verdicts(2, code(2, 1, 1)), vec![true, false, false]);
    assert_eq!(verdicts(2, code(3, 1, 1)), vec![false, true, false]);
    assert_eq!(verdicts(2, code(5, 1, 1)), vec![false, false, true]);
    assert_eq!(verdicts(4, code(1, 4, 1)), vec![false, true, false]);
    assert_eq!(verdicts(40, code(1, 3, 5)), vec![true, false, false, false, true, false, false, false, true]);
}

#[test]
fn parity_and_counts() {
    assert_eq!(verdicts(5, code(2, 1, 1)), vec![true, false]);
    assert_eq!(verdicts(7, code(2, 1, 3)), vec![false, true]);
    assert_eq!(verdicts(8, code(1, 3, 1)), vec![false, false, true, false]);
    assert_eq!(verdicts(8, code(1, 1, 1)), vec![false, false, false, true]);
    assert_eq!(verdicts(9, code(1, 3, 1)), vec![false, true, false, false]);
    assert_eq!(verdicts(10, code(1, 3, 1)), vec![true, false, false, false]);
    assert_eq!(verdicts(16, code(2, 4, 1)), vec![true, false]);
    assert_eq!(verdicts(16, code(2, 3, 1)), vec![false, true]);
    assert_eq!(verdicts(16, code(2, 4, 4)), vec![false, false]);
    assert_eq!(verdicts(17, code(2, 4, 4)), vec![false, false, false, true]);
    assert_eq!(verdicts(17, code(1, 3, 5)), vec![true, false, false, false]);
    assert_eq!(verdicts(33, code(2, 3, 4)), vec![true, false, true, false, true, false]);
}

#[test]
fn sums() {
    assert_eq!(verdicts(18, code(1, 2, 3)), vec![true, false]);
    assert_eq!(verdicts(18, code(1, 2, 4)), vec![false, true]);
    assert_eq!(verdicts(19, code(1, 4, 5)), vec![true, false, false]);
    assert_eq!(verdicts(19, code(2, 4, 1)), vec![false, true, false]);
    assert_eq!(verdicts(19, code(5, 5, 1)), vec![false, false, true]);
    assert_eq!(verdicts(23, code(1, 2, 2)), vec![true, false, false]);
    assert_eq!(verdicts(23, code(1, 2, 3)), vec![false, true, false]);
    assert_eq!(verdicts(23, code(5, 5, 5)), vec![false, false, true]);
    assert_eq!(verdicts(36, code(5, 5, 5)), vec![true, false, true]);
    assert_eq!(verdicts(36, code(5, 5, 2)), vec![true, true, false]);
    assert_eq!(verdicts(37, code(1, 3, 1)), vec![true, false, true]);
    assert_eq!(verdicts(38, code(1, 5, 5)), vec![true, true, false]);
}

#[test]
fn comparisons_between_positions() {
    assert_eq!(verdicts(11, code(1, 2, 1)), vec![true, false, false]);
    assert_eq!(verdicts(12, code(3, 2, 3)), vec![false, true, false]);
    assert_eq!(verdicts(13, code(3, 2, 1)), vec![false, false, true]);
    assert_eq!(verdicts(14, code(1, 2, 3)), vec![true, false, false]);
    assert_eq!(verdicts(14, code(1, 1, 3)), vec![false, false, false]);
    assert_eq!(verdicts(15, code(1, 2, 3)), vec![false, false, true]);
    assert_eq!(verdicts(34, code(1, 1, 3)), vec![true, true, false]);
    assert_eq!(verdicts(35, code(3, 3, 3)), vec![true, true, true]);
    assert_eq!(verdicts(42, code(2, 5, 1)), vec![false, false, true, false, true, false]);
    assert_eq!(verdicts(44, code(2, 5, 5)), vec![false, false, true, false, true, false]);
}

#[test]
fn repetitions_look_at_every_pair_of_positions() {
    assert_eq!(verdicts(20, code(4, 4, 4)), vec![true, false, false]);
    assert_eq!(verdicts(20, code(4, 1, 4)), vec![false, true, false]);
    assert_eq!(verdicts(20, code(4, 1, 2)), vec![false, false, true]);
    assert_eq!(verdicts(21, code(4, 1, 4)), vec![true, false]);
    assert_eq!(verdicts(21, code(1, 1, 4)), vec![true, false]);
    assert_eq!(verdicts(21, code(4, 1, 1)), vec![true, false]);
    assert_eq!(verdicts(21, code(4, 1, 2)), vec![false, true]);
    assert_eq!(verdicts(21, code(4, 4, 4)), vec![false, false]);
}

#[test]
fn orderings_look_at_neighbouring_positions() {
    assert_eq!(verdicts(22, code(1, 3, 5)), vec![true, false, false]);
    assert_eq!(verdicts(22, code(5, 3, 1)), vec![false, true, false]);
    assert_eq!(verdicts(22, code(1, 5, 3)), vec![false, false, true]);
    assert_eq!(verdicts(22, code(1, 5, 1)), vec![false, false, true]);
    assert_eq!(verdicts(22, code(2, 2, 2)), vec![false, false, true]);
    assert_eq!(verdicts(24, code(1, 3, 5)), vec![true, false, false]);
    assert_eq!(verdicts(24, code(1, 3, 2)), vec![false, true, false]);
    assert_eq!(verdicts(24, code(3, 1, 2)), vec![false, true, false]);
    assert_eq!(verdicts(24, code(3, 3, 2)), vec![false, false, true]);
    assert_eq!(verdicts(25, code(1, 3, 2)), vec![true, false, false]);
    assert_eq!(verdicts(25, code(1, 1, 2)), vec![false, true, false]);
    assert_eq!(verdicts(25, code(1, 2, 3)), vec![true, false, true]);
    assert_eq!(verdicts(25, code(3, 3, 3)), vec![false, false, false]);
}

#[test]
fn no_constraint_holds_outside_the_domain() {
    let outside = Code { blue: 0, yellow: 3, purple: 9 };
    for num in 1..=48u8 {
        if let Some(listed) = constraints_for_card(num) {
            for c in listed {
                assert!(!c.verifies(&outside));
            }
        }
    }
}
