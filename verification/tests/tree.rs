use turing_solve::guess_sequence::solver::{
    best_guess, guess_sequence, relevant_constraints, remaining_constraints, shrink, tf_difference,
};
use turing_solve::guess_sequence::{Decision, DecisionTree, Guess};
use turing_solve::scenario::code::Code;
use turing_solve::scenario::constraint::{Constraint, ConstraintID};
use turing_solve::solver::{constraints_for_card, turing_solve, Solution};

fn constraint(card: u8, idx: u8, name: &'static str) -> Constraint {
    Constraint::new(ConstraintID { card, idx }, name, |_| true)
}

fn solution(code: (u8, u8, u8), constraints: &[Constraint]) -> Solution {
    Solution {
        code: Code { blue: code.0, yellow: code.1, purple: code.2 },
        constraints: constraints.to_vec(),
    }
}

fn yes(constraint: Constraint) -> Guess {
    Guess { constraint, verified: true }
}

fn no(constraint: Constraint) -> Guess {
    Guess { constraint, verified: false }
}

fn codes(solutions: &Vec<&Solution>) -> Vec<String> {
    solutions.iter().map(|s| s.code.to_string()).collect()
}

fn three_solutions() -> (Vec<Constraint>, Vec<Solution>) {
    let a1 = constraint(1, 0, "a1");
    let a2 = constraint(1, 1, "a2");
    let b1 = constraint(2, 0, "b1");
    let b2 = constraint(2, 1, "b2");
    let solutions = vec![
        solution((1, 1, 1), &[a1, b1]),
        solution((2, 2, 2), &[a1, b2]),
        solution((3, 3, 3), &[a2, b1]),
    ];
    (vec![a1, a2, b1, b2], solutions)
}

#[test]
fn shrinking_keeps_what_fits_every_guess() {
    let (c, solutions) = three_solutions();
    let all: Vec<&Solution> = solutions.iter().collect();
    assert_eq!(codes(&shrink(&all, &vec![])), vec!["111", "222", "333"]);
    assert_eq!(codes(&shrink(&all, &vec![yes(c[0])])), vec!["111", "222"]);
    assert_eq!(codes(&shrink(&all, &vec![no(c[0])])), vec!["333"]);
    assert_eq!(codes(&shrink(&all, &vec![yes(c[0]), no(c[2])])), vec!["222"]);
    assert_eq!(codes(&shrink(&all, &vec![yes(c[1]), yes(c[3])])), Vec::<String>::new());
    assert_eq!(codes(&shrink(&all, &vec![no(constraint(9, 9, "unknown"))])), vec!["111", "222", "333"]);
}

#[test]
fn shrinking_twice_changes_nothing() {
    let (c, solutions) = three_solutions();
    let all: Vec<&Solution> = solutions.iter().collect();
    for guesses in [vec![], vec![yes(c[0])], vec![no(c[2])], vec![yes(c[2]), no(c[0])]] {
        let once = shrink(&all, &guesses);
        let twice = shrink(&once, &guesses);
        assert_eq!(codes(&once), codes(&twice));
    }
}

#[test]
fn a_longer_guess_sequence_keeps_no_more() {
    let (c, solutions) = three_solutions();
    let all: Vec<&Solution> = solutions.iter().collect();
    let first = vec![yes(c[2])];
    let longer = vec![yes(c[2]), yes(c[0])];
    let kept = codes(&shrink(&all, &first));
    let fewer = codes(&shrink(&all, &longer));
    assert_eq!(kept, vec!["111", "333"]);
    assert_eq!(fewer, vec!["111"]);
    assert!(fewer.iter().all(|code| kept.contains(code)));
    let stepwise = shrink(&shrink(&all, &first), &vec![yes(c[0])]);
    assert_eq!(codes(&stepwise), fewer);
}

#[test]
fn the_split_is_the_distance_between_holders_and_others() {
    let (c, solutions) = three_solutions();
    let all: Vec<&Solution> = solutions.iter().collect();
    assert_eq!(tf_difference(&c[0], &all), 1);
    assert_eq!(tf_difference(&c[1], &all), 1);
    assert_eq!(tf_difference(&constraint(9, 9, "nowhere"), &all), 3);
    assert_eq!(tf_difference(&c[0], &vec![]), 0);
    let two: Vec<&Solution> = solutions.iter().take(2).collect();
    assert_eq!(tf_difference(&c[0], &two), 2);
    assert_eq!(tf_difference(&c[2], &two), 0);
}

#[test]
fn the_best_guess_splits_most_evenly_and_has_the_lowest_identity() {
    let (c, solutions) = three_solutions();
    let two: Vec<&Solution> = solutions.iter().take(2).collect();
    assert_eq!(best_guess(&vec![], &two), None);
    assert_eq!(best_guess(&vec![c[0]], &two).unwrap().name, "a1");
    assert_eq!(best_guess(&vec![c[0], c[3], c[2]], &two).unwrap().name, "b1");
    assert_eq!(best_guess(&vec![c[3], c[0]], &two).unwrap().name, "b2");
    assert_eq!(best_guess(&vec![c[3], c[2], c[1], c[0]], &solutions.iter().collect()).unwrap().name, "a1");
}

#[test]
fn the_pool_holds_every_constraint_once() {
    let (c, solutions) = three_solutions();
    let pool = relevant_constraints(&solutions);
    let names: Vec<&str> = pool.iter().map(|c| c.name).collect();
    assert_eq!(names, vec!["a1", "b1", "b2", "a2"]);
    let left = remaining_constraints(&pool, &vec![yes(c[2]), no(c[0])]);
    let names: Vec<&str> = left.iter().map(|c| c.name).collect();
    assert_eq!(names, vec!["b2", "a2"]);
    assert!(relevant_constraints(&vec![]).is_empty());
}

#[test]
fn a_decision_is_resolved_when_one_solution_is_left() {
    let (c, solutions) = three_solutions();
    let all: Vec<&Solution> = solutions.iter().collect();
    let open = Decision::prepare(vec![], yes(c[0]), &all);
    assert_eq!(open.guesses, vec![yes(c[0])]);
    assert_eq!(open.current_guess, yes(c[0]));
    assert_eq!(open.solution, None);
    let closed = Decision::prepare(vec![yes(c[0])], no(c[2]), &all);
    assert_eq!(closed.guesses, vec![yes(c[0]), no(c[2])]);
    assert_eq!(closed.current_guess, no(c[2]));
    assert_eq!(closed.solution, Some(Code { blue: 2, yellow: 2, purple: 2 }));
    let empty = Decision::prepare(vec![yes(c[1])], yes(c[3]), &all);
    assert_eq!(empty.solution, None);
}

#[test]
fn two_solutions_are_told_apart_by_the_root_guess() {
    let shared = constraint(1, 0, "shared");
    let telling = constraint(2, 0, "telling");
    let solutions = vec![solution((1, 2, 3), &[shared, telling]), solution((3, 2, 1), &[shared])];
    let tree = guess_sequence(&solutions).unwrap();
    assert_eq!(tree.roots.len(), 2);
    assert_eq!(tree.roots[0].current_guess, yes(telling));
    assert_eq!(tree.roots[1].current_guess, no(telling));
    assert_eq!(tree.roots[0].solution, Some(Code { blue: 1, yellow: 2, purple: 3 }));
    assert_eq!(tree.roots[1].solution, Some(Code { blue: 3, yellow: 2, purple: 1 }));
    assert!(tree.decisions.is_empty());
    assert_eq!(tree.to_string(), "(2.0) telling --- 123\n!(2.0) telling --- 321\n");
}

#[test]
fn fewer_than_two_solutions_give_no_tree() {
    assert!(guess_sequence(&vec![]).is_none());
    let only = vec![solution((1, 2, 3), &[constraint(1, 0, "a"), constraint(2, 0, "b")])];
    assert!(guess_sequence(&only).is_none());
}

#[test]
fn the_one_solution_of_a_decisive_selection_gives_no_tree() {
    let solutions = turing_solve(vec![
        Constraint::new(ConstraintID { card: 1, idx: 0 }, "blue is 1", |c| c.blue() == 1),
        Constraint::new(ConstraintID { card: 2, idx: 0 }, "yellow is 2", |c| c.yellow() == 2),
        Constraint::new(ConstraintID { card: 3, idx: 0 }, "purple is 3", |c| c.purple() == 3),
    ]);
    assert_eq!(solutions.len(), 1);
    assert_eq!(solutions[0].code, Code { blue: 1, yellow: 2, purple: 3 });
    assert!(guess_sequence(&solutions).is_none());
}

#[test]
fn solutions_that_agree_on_every_constraint_give_no_tree() {
    let a = constraint(1, 0, "a");
    let b = constraint(2, 0, "b");
    let solutions = vec![solution((1, 1, 1), &[a, b]), solution((2, 2, 2), &[b, a])];
    assert!(guess_sequence(&solutions).is_none());
    let bare = vec![solution((1, 1, 1), &[]), solution((2, 2, 2), &[])];
    assert!(guess_sequence(&bare).is_none());
}

#[test]
fn the_tree_is_rendered_as_an_indented_outline() {
    let (c, solutions) = three_solutions();
    let tree = guess_sequence(&solutions).unwrap();
    assert_eq!(
        tree.to_string(),
        "(1.0) a1 \n\t(2.0) b1 --- 111\n\t!(2.0) b1 --- 222\n!(1.0) a1 --- 333\n"
    );
    assert_eq!(tree.decisions.len(), 1);
    assert_eq!(tree.decisions[0].0.guesses, vec![yes(c[0])]);
    assert_eq!(tree.decisions[0].0, tree.roots[0]);
    assert_ne!(tree.decisions[0].0, tree.roots[1]);
    let branch = tree.branch(&tree.roots[0]).unwrap();
    assert_eq!(branch.verified.as_ref().unwrap().guesses, vec![yes(c[0]), yes(c[2])]);
    assert_eq!(branch.unverified.as_ref().unwrap().guesses, vec![yes(c[0]), no(c[2])]);
    assert!(tree.branch(&tree.roots[1]).is_none());
    assert_eq!(tree.find(&vec![yes(c[0])]), Some(0));
    assert_eq!(tree.find(&vec![no(c[0])]), None);
    assert!(tree.open_leaves().is_empty());
}

#[test]
fn a_decision_without_solution_or_constraints_stays_an_open_leaf() {
    let a = constraint(1, 0, "a");
    let b = constraint(2, 0, "b");
    let solutions = vec![
        solution((1, 1, 1), &[a, b]),
        solution((2, 2, 2), &[a, b]),
        solution((3, 3, 3), &[b]),
    ];
    let tree = guess_sequence(&solutions).unwrap();
    assert_eq!(
        tree.to_string(),
        "(1.0) a \n\t(2.0) b \n\t!(2.0) b \n!(1.0) a --- 333\n"
    );
    let open: Vec<Vec<Guess>> = tree.open_leaves().iter().map(|d| d.guesses.clone()).collect();
    assert_eq!(open, vec![vec![yes(a), yes(b)], vec![yes(a), no(b)]]);
}

fn leaves_are_final(tree: &DecisionTree, decision: &Decision, pool: usize) {
    match tree.branch(decision) {
        Some(branch) => {
            assert!(decision.solution.is_none());
            for next in [&branch.verified, &branch.unverified] {
                let next = next.as_ref().unwrap();
                assert_eq!(next.guesses.len(), decision.guesses.len() + 1);
                assert_eq!(&next.guesses[..decision.guesses.len()], &decision.guesses[..]);
                leaves_are_final(tree, next, pool);
            }
        }
        None => assert!(decision.solution.is_some() || decision.guesses.len() == pool),
    }
}

#[test]
fn every_leaf_of_a_real_tree_is_resolved_or_out_of_constraints() {
    let mut constraints = Vec::new();
    for card in [4u8, 9, 11, 14] {
        constraints.extend(constraints_for_card(card).unwrap());
    }
    let solutions = turing_solve(constraints);
    assert!(solutions.len() >= 2);
    let pool = relevant_constraints(&solutions);
    let tree = guess_sequence(&solutions).unwrap();
    for root in &tree.roots {
        leaves_are_final(&tree, root, pool.len());
    }
    for (i, entry) in tree.decisions.iter().enumerate() {
        assert_eq!(tree.find(&entry.0.guesses), Some(i));
    }
    let text = tree.to_string();
    assert_eq!(text.lines().count(), 2 + 2 * tree.decisions.len());
}

#[test]
fn the_root_guess_splits_at_least_as_evenly_as_any_other() {
    let mut constraints = Vec::new();
    for card in [4u8, 9, 11, 14] {
        constraints.extend(constraints_for_card(card).unwrap());
    }
    let solutions = turing_solve(constraints);
    let all: Vec<&Solution> = solutions.iter().collect();
    let pool = relevant_constraints(&solutions);
    let tree = guess_sequence(&solutions).unwrap();
    let root = tree.roots[0].current_guess.constraint;
    assert!(tree.roots[0].current_guess.verified);
    assert!(!tree.roots[1].current_guess.verified);
    assert!(tree.roots[1].current_guess.constraint == root);
    let best = tf_difference(&root, &all);
    for candidate in &pool {
        let other = tf_difference(candidate, &all);
        assert!(best <= other);
        if best == other {
            assert!(!candidate.id.precedes(&root.id));
        }
    }
}

#[test]
fn trees_of_several_selections_resolve_every_solution() {
    for selection in [
        vec![3u8, 7, 10, 14],
        vec![2, 6, 14, 17],
        vec![5, 8, 13, 15, 22],
        vec![4, 9, 11, 14, 19],
        vec![1, 2, 3, 4],
    ] {
        let mut constraints = Vec::new();
        for card in &selection {
            constraints.extend(constraints_for_card(*card).unwrap());
        }
        let solutions = turing_solve(constraints);
        let pool = relevant_constraints(&solutions);
        match guess_sequence(&solutions) {
            None => {
                let all: Vec<&Solution> = solutions.iter().collect();
                for candidate in &pool {
                    assert_eq!(tf_difference(candidate, &all), solutions.len());
                }
            }
            Some(tree) => {
                assert!(solutions.len() >= 2);
                for root in &tree.roots {
                    leaves_are_final(&tree, root, pool.len());
                }
                let text = tree.to_string();
                assert_eq!(text.lines().count(), 2 + 2 * tree.decisions.len());
                let resolved = text.lines().filter(|line| line.contains(" --- ")).count();
                assert_eq!(resolved, solutions.len(), "cards {:?}", selection);
            }
        }
    }
}
