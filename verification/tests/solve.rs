use turing_solve::scenario::code::Code;
use turing_solve::scenario::constraint::{tabulate, Constraint, ConstraintID};
use turing_solve::solver::{
    constraints_for_card, count_combinations, group_constraints, possible_codes, satisfied_by,
    try_turing_solve, turing_solve, Solution,
};

fn named(card: u8, idx: u8, name: &'static str, verifier: fn(&Code) -> bool) -> Constraint {
    Constraint::new(ConstraintID { card, idx }, name, verifier)
}

fn ids(solution: &Solution) -> Vec<(u8, u8)> {
    solution.constraints.iter().map(|c| (c.id.card, c.id.idx)).collect()
}

fn cards(numbers: &[u8]) -> Vec<Constraint> {
    numbers.iter().flat_map(|n| constraints_for_card(*n).unwrap()).collect()
}

#[test]
fn nothing_selected_gives_no_solution() {
    assert!(turing_solve(vec![]).is_empty());
    assert_eq!(possible_codes(&vec![]).len(), 125);
    assert_eq!(count_combinations(&vec![]), Some(1));
}

#[test]
fn one_card_alone_is_ambiguous() {
    let constraints = constraints_for_card(1).unwrap();
    assert_eq!(constraints.len(), 2);
    assert_eq!(possible_codes(&vec![constraints[0]]).len(), 25);
    assert_eq!(possible_codes(&vec![constraints[1]]).len(), 100);
    assert!(turing_solve(constraints).is_empty());
}

#[test]
fn a_combination_that_one_code_satisfies_is_a_solution() {
    let blue = named(1, 0, "blue is 1", |c| c.blue() == 1);
    let yellow = named(2, 0, "yellow is 2", |c| c.yellow() == 2);
    let purple = named(3, 0, "purple is 3", |c| c.purple() == 3);
    let solutions = turing_solve(vec![blue, yellow, purple]);
    assert_eq!(solutions.len(), 1);
    assert_eq!(solutions[0].code, Code { blue: 1, yellow: 2, purple: 3 });
    assert_eq!(ids(&solutions[0]), vec![(1, 0), (2, 0), (3, 0)]);
    assert_eq!(solutions[0].constraints[1].name, "yellow is 2");
    assert_eq!(solutions[0].to_string(), "(123) with (1.0) blue is 1; (2.0) yellow is 2; (3.0) purple is 3");
}

#[test]
fn contradictions_and_ambiguities_are_left_out() {
    let blue_1 = named(1, 0, "blue is 1", |c| c.blue() == 1);
    let blue_2 = named(1, 1, "blue is 2", |c| c.blue() == 2);
    let rest_11 = named(2, 0, "rest is 11", |c| c.yellow() == 1 && c.purple() == 1);
    let never = named(2, 1, "never", |_| false);
    let yellow_5 = named(2, 2, "yellow is 5", |c| c.yellow() == 5);
    let solutions = turing_solve(vec![blue_1, rest_11, blue_2, never, yellow_5]);
    assert_eq!(solutions.len(), 2);
    assert_eq!(solutions[0].code, Code { blue: 1, yellow: 1, purple: 1 });
    assert_eq!(ids(&solutions[0]), vec![(1, 0), (2, 0)]);
    assert_eq!(solutions[1].code, Code { blue: 2, yellow: 1, purple: 1 });
    assert_eq!(ids(&solutions[1]), vec![(1, 1), (2, 0)]);
}

#[test]
fn combinations_take_one_constraint_per_card_in_order() {
    let at = |card: u8, idx: u8, code: (u8, u8, u8)| -> Constraint {
        let table = tabulate(move |c: &Code| {
            (c.blue(), c.yellow(), c.purple()) == code
        });
        Constraint { id: ConstraintID { card, idx }, name: "only", verdicts: table }
    };
    let always = named(7, 0, "always", |_| true);
    let also = named(7, 1, "also", |_| true);
    let solutions = turing_solve(vec![
        at(5, 0, (1, 1, 1)),
        always,
        at(5, 1, (2, 2, 2)),
        also,
        at(5, 2, (3, 3, 3)),
    ]);
    let found: Vec<(Code, Vec<(u8, u8)>)> = solutions.iter().map(|s| (s.code, ids(s))).collect();
    assert_eq!(
        found,
        vec![
            (Code { blue: 1, yellow: 1, purple: 1 }, vec![(5, 0), (7, 0)]),
            (Code { blue: 1, yellow: 1, purple: 1 }, vec![(5, 0), (7, 1)]),
            (Code { blue: 2, yellow: 2, purple: 2 }, vec![(5, 1), (7, 0)]),
            (Code { blue: 2, yellow: 2, purple: 2 }, vec![(5, 1), (7, 1)]),
            (Code { blue: 3, yellow: 3, purple: 3 }, vec![(5, 2), (7, 0)]),
            (Code { blue: 3, yellow: 3, purple: 3 }, vec![(5, 2), (7, 1)]),
        ]
    );
}

#[test]
fn constraints_are_grouped_by_card_in_order_of_first_occurrence() {
    let constraints = vec![
        named(9, 1, "a", |_| true),
        named(3, 0, "b", |_| true),
        named(9, 0, "c", |_| true),
        named(3, 0, "d", |_| true),
        named(200, 7, "e", |_| true),
    ];
    let groups = group_constraints(&constraints);
    let names: Vec<Vec<&str>> =
        groups.iter().map(|g| g.constraints.iter().map(|c| c.name).collect()).collect();
    assert_eq!(names, vec![vec!["a", "c"], vec!["b", "d"], vec!["e"]]);
    assert_eq!(count_combinations(&constraints), Some(4));
}

#[test]
fn the_number_of_combinations_is_the_product_of_the_group_sizes() {
    assert_eq!(count_combinations(&cards(&[1])), Some(2));
    assert_eq!(count_combinations(&cards(&[1, 2, 8])), Some(24));
    assert_eq!(count_combinations(&cards(&[40, 41, 48, 33, 42, 8])), Some(9 * 9 * 9 * 6 * 6 * 4));
}

#[test]
fn a_code_satisfies_a_combination_when_every_constraint_holds() {
    let odd = named(1, 0, "blue odd", |c| c.blue() % 2 == 1);
    let big = named(2, 0, "purple big", |c| c.purple() > 3);
    let both = vec![odd, big];
    assert!(satisfied_by(&both, &Code { blue: 3, yellow: 1, purple: 4 }));
    assert!(!satisfied_by(&both, &Code { blue: 2, yellow: 1, purple: 4 }));
    assert!(!satisfied_by(&both, &Code { blue: 3, yellow: 1, purple: 3 }));
    assert!(satisfied_by(&vec![], &Code { blue: 9, yellow: 9, purple: 9 }));
    let possible = possible_codes(&both);
    assert_eq!(possible.len(), 3 * 5 * 2);
    assert_eq!(possible[0], Code { blue: 1, yellow: 1, purple: 4 });
    assert_eq!(possible[29], Code { blue: 5, yellow: 5, purple: 5 });
}

#[test]
fn every_solution_is_the_only_code_that_its_constraints_allow() {
    let solutions = turing_solve(cards(&[4, 9, 11, 14]));
    assert!(!solutions.is_empty());
    for solution in &solutions {
        assert_eq!(solution.constraints.len(), 4);
        let allowed: Vec<Code> = Code::all()
            .into_iter()
            .filter(|code| solution.constraints.iter().all(|c| c.verifies(code)))
            .collect();
        assert_eq!(allowed, vec![solution.code]);
    }
}

#[test]
fn a_known_puzzle_has_its_known_solutions() {
    let solutions = turing_solve(cards(&[4, 9, 11, 14]));
    let shown: Vec<String> = solutions.iter().map(|s| s.to_string()).collect();
    for line in &shown {
        assert!(line.starts_with('('));
        assert!(line.contains(") with (4."));
    }
    let mut codes: Vec<String> = solutions.iter().map(|s| s.code.to_string()).collect();
    codes.sort();
    codes.dedup();
    let expected: Vec<String> = Code::all()
        .into_iter()
        .filter(|code| {
            let picks: Vec<Vec<Constraint>> =
                [4u8, 9, 11, 14].iter().map(|n| constraints_for_card(*n).unwrap()).collect();
            let mut found = false;
            for a in &picks[0] {
                for b in &picks[1] {
                    for c in &picks[2] {
                        for d in &picks[3] {
                            let combo = [a, b, c, d];
                            let matching = Code::all()
                                .into_iter()
                                .filter(|x| combo.iter().all(|k| k.verifies(x)))
                                .count();
                            if matching == 1 && combo.iter().all(|k| k.verifies(code)) {
                                found = true;
                            }
                        }
                    }
                }
            }
            found
        })
        .map(|c| c.to_string())
        .collect();
    assert_eq!(codes, expected);
}

#[test]
fn any_selection_that_can_be_held_is_solved() {
    let solved = try_turing_solve(cards(&[4, 9, 11, 14])).unwrap();
    let direct = turing_solve(cards(&[4, 9, 11, 14]));
    let shown: Vec<String> = solved.iter().map(|s| s.to_string()).collect();
    let expected: Vec<String> = direct.iter().map(|s| s.to_string()).collect();
    assert_eq!(shown, expected);
    assert_eq!(try_turing_solve(vec![]).map(|s| s.len()), Some(0));
}
