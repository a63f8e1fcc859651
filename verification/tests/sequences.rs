use turing_solve::guess_sequence_solver::{
    can_enumerate, guess_sequences, guess_sequences_among, sequence_to_string,
    shortest_converging_guess_sequence, try_guess_sequences,
};
use turing_solve::scenario::code::Code;
use turing_solve::scenario::constraint::{Constraint, ConstraintID};
use turing_solve::solver::{ConstraintGroup, Solution};

fn constraint(card: u8, idx: u8) -> Constraint {
    Constraint::new(ConstraintID { card, idx }, "c", |_| true)
}

fn solution(constraints: &[Constraint]) -> Solution {
    Solution { code: Code { blue: 1, yellow: 1, purple: 1 }, constraints: constraints.to_vec() }
}

fn shown(sequences: &Vec<Vec<Constraint>>) -> Vec<String> {
    sequences.iter().map(sequence_to_string).collect()
}

fn square() -> Vec<Solution> {
    let a1 = constraint(1, 0);
    let a2 = constraint(1, 1);
    let b1 = constraint(2, 0);
    let b2 = constraint(2, 1);
    vec![solution(&[a1, b1]), solution(&[a1, b2]), solution(&[a2, b1]), solution(&[a2, b2])]
}

#[test]
fn a_sequence_is_shown_by_its_identities() {
    assert_eq!(sequence_to_string(&vec![]), "");
    assert_eq!(sequence_to_string(&vec![constraint(4, 2)]), "(4,2)");
    assert_eq!(
        sequence_to_string(&vec![constraint(4, 2), constraint(48, 0), constraint(100, 255)]),
        "(4,2) (48,0) (100,255)"
    );
}

#[test]
fn a_sequence_converges_where_one_solution_holds_all_or_none() {
    let solutions = square();
    let a1 = constraint(1, 0);
    let b2 = constraint(2, 1);
    let unknown = constraint(9, 9);
    assert_eq!(shown(&vec![shortest_converging_guess_sequence(&vec![a1, b2], &solutions).unwrap()]), vec!["(1,0) (2,1)"]);
    assert!(shortest_converging_guess_sequence(&vec![a1], &solutions).is_none());
    assert!(shortest_converging_guess_sequence(&vec![], &solutions).is_none());
    assert!(shortest_converging_guess_sequence(&vec![unknown, unknown], &solutions).is_none());
    let three = &solutions[..3].to_vec();
    assert_eq!(shown(&vec![shortest_converging_guess_sequence(&vec![a1, b2], three).unwrap()]), vec!["(1,0)"]);
    assert_eq!(shown(&vec![shortest_converging_guess_sequence(&vec![b2, a1], three).unwrap()]), vec!["(2,1)"]);
    let one = &solutions[..1].to_vec();
    assert_eq!(shown(&vec![shortest_converging_guess_sequence(&vec![unknown, a1], one).unwrap()]), vec!["(9,9)"]);
}

#[test]
fn the_best_sequences_are_the_shortest_converging_ones() {
    let solutions = square();
    assert!(can_enumerate(&solutions));
    assert_eq!(
        shown(&guess_sequences(&solutions)),
        vec![
            "(1,0) (2,0)", "(1,0) (2,1)", "(1,1) (2,0)", "(1,1) (2,1)", "(2,0) (1,0)",
            "(2,0) (1,1)", "(2,1) (1,0)", "(2,1) (1,1)",
        ]
    );
    let three = solutions[..3].to_vec();
    assert_eq!(shown(&guess_sequences(&three)), vec!["(1,0)", "(1,1)", "(2,0)", "(2,1)"]);
}

#[test]
fn longer_sequences_are_left_out_where_a_shorter_one_converges() {
    let mut solutions = square();
    solutions.push(solution(&[constraint(1, 2), constraint(2, 0)]));
    assert_eq!(shown(&guess_sequences(&solutions)), vec!["(1,2)"]);
}

#[test]
fn without_solutions_there_is_no_sequence() {
    assert!(can_enumerate(&vec![]));
    assert!(guess_sequences(&vec![]).is_empty());
    let same = vec![solution(&[constraint(1, 0)]), solution(&[constraint(1, 0)])];
    assert!(guess_sequences(&same).is_empty());
}

#[test]
fn too_many_cards_cannot_be_enumerated() {
    let few: Vec<Constraint> = (0..8).map(|card| constraint(card, 0)).collect();
    assert!(can_enumerate(&vec![solution(&few)]));
    let many: Vec<Constraint> = (0..30).map(|card| constraint(card, 0)).collect();
    assert!(!can_enumerate(&vec![solution(&many)]));
    assert!(try_guess_sequences(&vec![solution(&many)]).is_none());
    assert_eq!(try_guess_sequences(&square()).map(|best| best.len()), Some(8));
    let wide: Vec<Constraint> =
        (0..3u8).flat_map(|card| (0..=255u8).map(move |idx| constraint(card, idx))).collect();
    assert!(can_enumerate(&vec![solution(&wide)]));
}

#[test]
fn the_runs_follow_the_given_orders_of_the_groups() {
    let solutions = square();
    let first = ConstraintGroup { constraints: vec![constraint(1, 0), constraint(1, 1)] };
    let second = ConstraintGroup { constraints: vec![constraint(2, 0), constraint(2, 1)] };
    let backwards = vec![vec![second.clone(), first.clone()]];
    assert_eq!(
        shown(&guess_sequences_among(&backwards, &solutions)),
        vec!["(2,0) (1,0)", "(2,0) (1,1)", "(2,1) (1,0)", "(2,1) (1,1)"]
    );
    let twice = vec![vec![first.clone(), second.clone()], vec![first, second]];
    assert_eq!(
        shown(&guess_sequences_among(&twice, &solutions)),
        vec!["(1,0) (2,0)", "(1,0) (2,1)", "(1,1) (2,0)", "(1,1) (2,1)"]
    );
    assert!(guess_sequences_among(&vec![], &solutions).is_empty());
    assert!(guess_sequences_among(&vec![vec![]], &solutions).is_empty());
}
