use turing_solve::guess_sequence::Guess;
use turing_solve::scenario::code::Code;
use turing_solve::scenario::constraint::{Constraint, ConstraintID};
use turing_solve::solver::Solution;

#[test]
fn code_display() {
    assert_eq!(Code { blue: 1, yellow: 2, purple: 3 }.to_string(), "123")
}

#[test]
fn solution_display() {
    let solution = Solution {
        code: Code { blue: 1, yellow: 2, purple: 3 },
        constraints: vec![
            Constraint::new(ConstraintID { card: 1, idx: 3 }, "foo", |_| true),
            Constraint::new(ConstraintID { card: 2, idx: 1 }, "bar", |_| true),
        ],
    };
    assert_eq!(solution.to_string(), "(123) with (1.3) foo; (2.1) bar")
}

#[test]
fn solution_text_lists_constraints_by_identity() {
    let solution = Solution {
        code: Code { blue: 5, yellow: 4, purple: 3 },
        constraints: vec![
            Constraint::new(ConstraintID { card: 12, idx: 0 }, "late", |_| true),
            Constraint::new(ConstraintID { card: 2, idx: 7 }, "middle", |_| true),
            Constraint::new(ConstraintID { card: 2, idx: 1 }, "early", |_| true),
        ],
    };
    assert_eq!(solution.to_string(), "(543) with (2.1) early; (2.7) middle; (12.0) late");
}

#[test]
fn solution_text_keeps_the_order_of_equal_identities() {
    let solution = Solution {
        code: Code { blue: 1, yellow: 1, purple: 1 },
        constraints: vec![
            Constraint::new(ConstraintID { card: 3, idx: 0 }, "z", |_| true),
            Constraint::new(ConstraintID { card: 1, idx: 0 }, "first", |_| true),
            Constraint::new(ConstraintID { card: 1, idx: 0 }, "second", |_| true),
        ],
    };
    assert_eq!(solution.to_string(), "(111) with (1.0) first; (1.0) second; (3.0) z");
}

#[test]
fn solution_text_without_constraints() {
    let solution = Solution { code: Code { blue: 2, yellow: 2, purple: 2 }, constraints: vec![] };
    assert_eq!(solution.to_string(), "(222) with ");
}

#[test]
fn constraint_text_is_identity_then_name() {
    let constraint = Constraint::new(ConstraintID { card: 1, idx: 1 }, "foo", |_| true);
    assert_eq!(constraint.to_string(), "(1.1) foo");
}

#[test]
fn identity_text_uses_decimal_numbers() {
    assert_eq!(ConstraintID { card: 0, idx: 9 }.to_string(), "(0.9)");
    assert_eq!(ConstraintID { card: 10, idx: 99 }.to_string(), "(10.99)");
    assert_eq!(ConstraintID { card: 100, idx: 255 }.to_string(), "(100.255)");
    assert_eq!(ConstraintID { card: 48, idx: 207 }.to_string(), "(48.207)");
}

#[test]
fn code_text_of_digits_outside_the_domain() {
    assert_eq!(Code { blue: 10, yellow: 0, purple: 255 }.to_string(), "100255");
}

#[test]
fn guess_text_marks_a_refuted_constraint() {
    let constraint = Constraint::new(ConstraintID { card: 4, idx: 2 }, "some name", |_| true);
    assert_eq!(Guess { constraint, verified: true }.to_string(), "(4.2) some name");
    assert_eq!(Guess { constraint, verified: false }.to_string(), "!(4.2) some name");
}

#[test]
fn constraints_and_guesses_compare_by_identity() {
    let one = Constraint::new(ConstraintID { card: 4, idx: 2 }, "one", |_| true);
    let other = Constraint::new(ConstraintID { card: 4, idx: 2 }, "other", |_| false);
    let third = Constraint::new(ConstraintID { card: 4, idx: 3 }, "one", |_| true);
    assert!(one == other);
    assert!(one != third);
    assert!(Guess { constraint: one, verified: true } == Guess { constraint: other, verified: true });
    assert!(Guess { constraint: one, verified: true } != Guess { constraint: one, verified: false });
    assert!(Guess { constraint: one, verified: true } != Guess { constraint: third, verified: true });
}

#[test]
fn identities_are_ordered_by_card_then_place() {
    let low = ConstraintID { card: 1, idx: 9 };
    let high = ConstraintID { card: 2, idx: 0 };
    assert!(low.precedes(&high));
    assert!(!high.precedes(&low));
    assert!(!low.precedes(&low));
    assert!(ConstraintID { card: 2, idx: 0 }.precedes(&ConstraintID { card: 2, idx: 1 }));
    assert_eq!(low.compare(&high), std::cmp::Ordering::Less);
    assert_eq!(high.compare(&low), std::cmp::Ordering::Greater);
    assert_eq!(low.compare(&low), std::cmp::Ordering::Equal);
    assert!(low < high);
}
