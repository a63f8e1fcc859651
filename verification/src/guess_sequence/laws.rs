//! What holds of shrinking, of the best guess and of every decision tree that
//! the builder returns.

use crate::guess_sequence::decision::{BranchView, DecisionView};
use crate::guess_sequence::decision_tree::{
    entry_of, followers, follows, is_open_leaf, lemma_entry_of, open_among, TreeView,
};
use crate::guess_sequence::guess::{same_sequence, Guess};
use crate::guess_sequence::solver::{
    agrees, built_from, consistent, contains_id, decision_at, extended, holders, is_key,
    lemma_best_guess, next_guess, reachable, relevant, remaining, root_guess, shrunk, split,
    with_constraints,
};
use crate::scenario::constraint::{Constraint, ConstraintID};
use crate::solver::SolutionView;
use vstd::prelude::*;

verus! {

/// A solution fits two guess sequences put together exactly when it fits both.
pub proof fn lemma_consistent_with_both(solution: SolutionView, first: Seq<Guess>, second: Seq<Guess>)
    ensures
        consistent(solution, first + second) <==> consistent(solution, first) && consistent(
            solution,
            second,
        ),
{
    let both = first + second;
    if consistent(solution, both) {
        assert forall|i: int| 0 <= i < first.len() implies agrees(solution, #[trigger] first[i]) by {
            assert(both[i] == first[i]);
        }
        assert forall|i: int| 0 <= i < second.len() implies agrees(
            solution,
            #[trigger] second[i],
        ) by {
            assert(both[first.len() + i] == second[i]);
        }
    }
}

/// What shrinking keeps fits the guesses and was there before.
pub proof fn lemma_shrunk_members(solutions: Seq<SolutionView>, guesses: Seq<Guess>)
    ensures
        shrunk(solutions, guesses).len() <= solutions.len(),
        forall|i: int|
            0 <= i < shrunk(solutions, guesses).len() ==> consistent(
                #[trigger] shrunk(solutions, guesses)[i],
                guesses,
            ) && solutions.contains(shrunk(solutions, guesses)[i]),
    decreases solutions.len(),
{
    if solutions.len() > 0 {
        lemma_shrunk_members(solutions.drop_last(), guesses);
    }
}

/// Shrinking a second time by the same guesses changes nothing.
pub proof fn lemma_shrink_idempotent(solutions: Seq<SolutionView>, guesses: Seq<Guess>)
    ensures
        shrunk(shrunk(solutions, guesses), guesses) == shrunk(solutions, guesses),
    decreases solutions.len(),
{
    if solutions.len() > 0 {
        lemma_shrink_idempotent(solutions.drop_last(), guesses);
        let earlier = shrunk(solutions.drop_last(), guesses);
        if consistent(solutions.last(), guesses) {
            assert(earlier.push(solutions.last()).drop_last() =~= earlier);
        }
    }
}

/// Shrinking by a longer guess sequence is shrinking once more: what fits the
/// guesses `first` followed by `more` is, in the same order, what is left of
/// the solutions that fit `first` after shrinking by `more`. So everything
/// that the longer sequence keeps, the shorter one keeps too.
pub proof fn lemma_shrink_monotonic(solutions: Seq<SolutionView>, first: Seq<Guess>, more: Seq<Guess>)
    ensures
        shrunk(solutions, first + more) == shrunk(shrunk(solutions, first), more),
        forall|solution: SolutionView|
            shrunk(solutions, first + more).contains(solution) ==> #[trigger] shrunk(
                solutions,
                first,
            ).contains(solution),
    decreases solutions.len(),
{
    if solutions.len() > 0 {
        lemma_shrink_monotonic(solutions.drop_last(), first, more);
        lemma_consistent_with_both(solutions.last(), first, more);
        let earlier = shrunk(solutions.drop_last(), first);
        if consistent(solutions.last(), first) {
            assert(earlier.push(solutions.last()).drop_last() =~= earlier);
        }
    }
    let kept = shrunk(solutions, first);
    lemma_shrunk_members(kept, more);
}

/// No more solutions hold a constraint than there are solutions.
pub proof fn lemma_holders_bounded(id: ConstraintID, solutions: Seq<SolutionView>)
    ensures
        holders(id, solutions) <= solutions.len(),
        split(id, solutions) <= solutions.len(),
    decreases solutions.len(),
{
    if solutions.len() > 0 {
        lemma_holders_bounded(id, solutions.drop_last());
    }
}

/// The split of a constraint compares the two branches of guessing it: as
/// many solutions hold the constraint as fit the guess that it is verified,
/// and the others fit the guess that it is refuted.
pub proof fn lemma_split_compares_the_branches(constraint: Constraint, solutions: Seq<SolutionView>)
    ensures
        holders(constraint.id, solutions) == shrunk(
            solutions,
            extended(Seq::empty(), constraint, true),
        ).len(),
        solutions.len() - holders(constraint.id, solutions) == shrunk(
            solutions,
            extended(Seq::empty(), constraint, false),
        ).len(),
    decreases solutions.len(),
{
    let verified = extended(Seq::empty(), constraint, true);
    let refuted = extended(Seq::empty(), constraint, false);
    if solutions.len() > 0 {
        lemma_split_compares_the_branches(constraint, solutions.drop_last());
        let last = solutions.last();
        assert(consistent(last, verified) <==> contains_id(last.constraints, constraint.id)) by {
            assert(verified[0].constraint.id == constraint.id && verified[0].verified);
            if contains_id(last.constraints, constraint.id) {
                assert forall|i: int| 0 <= i < verified.len() implies agrees(
                    last,
                    #[trigger] verified[i],
                ) by {}
            } else {
                assert(!agrees(last, verified[0]));
            }
        }
        assert(consistent(last, refuted) <==> !contains_id(last.constraints, constraint.id)) by {
            assert(refuted[0].constraint.id == constraint.id && !refuted[0].verified);
            if !contains_id(last.constraints, constraint.id) {
                assert forall|i: int| 0 <= i < refuted.len() implies agrees(
                    last,
                    #[trigger] refuted[i],
                ) by {}
            } else {
                assert(!agrees(last, refuted[0]));
            }
        }
    }
}

/// A constraint that one solution holds and another lacks splits the
/// solutions into two parts that are both smaller than the whole.
pub proof fn lemma_split_of_discriminating(
    id: ConstraintID,
    solutions: Seq<SolutionView>,
    with: int,
    without: int,
)
    requires
        0 <= with < solutions.len(),
        0 <= without < solutions.len(),
        contains_id(solutions[with].constraints, id),
        !contains_id(solutions[without].constraints, id),
    ensures
        0 < holders(id, solutions) < solutions.len(),
        split(id, solutions) < solutions.len(),
    decreases solutions.len(),
{
    let earlier = solutions.drop_last();
    lemma_holders_bounded(id, earlier);
    if with < earlier.len() && without < earlier.len() {
        lemma_split_of_discriminating(id, earlier, with, without);
    } else if with < earlier.len() {
        lemma_holder_counts(id, earlier, with);
    } else if without < earlier.len() {
        lemma_lacker_counts(id, earlier, without);
    }
}

/// A solution that holds the constraint is counted among its holders.
proof fn lemma_holder_counts(id: ConstraintID, solutions: Seq<SolutionView>, with: int)
    requires
        0 <= with < solutions.len(),
        contains_id(solutions[with].constraints, id),
    ensures
        0 < holders(id, solutions),
    decreases solutions.len(),
{
    if with < solutions.len() - 1 {
        lemma_holder_counts(id, solutions.drop_last(), with);
    }
}

/// A solution that lacks the constraint is not counted among its holders.
proof fn lemma_lacker_counts(id: ConstraintID, solutions: Seq<SolutionView>, without: int)
    requires
        0 <= without < solutions.len(),
        !contains_id(solutions[without].constraints, id),
    ensures
        holders(id, solutions) < solutions.len(),
    decreases solutions.len(),
{
    lemma_holders_bounded(id, solutions.drop_last());
    if without < solutions.len() - 1 {
        lemma_lacker_counts(id, solutions.drop_last(), without);
    }
}

/// Adding constraints to a pool keeps what it held and takes in the identity
/// of each added constraint.
pub proof fn lemma_with_constraints_covers(pool: Seq<Constraint>, constraints: Seq<Constraint>)
    ensures
        forall|id: ConstraintID|
            contains_id(pool, id) || contains_id(constraints, id) ==> #[trigger] contains_id(
                with_constraints(pool, constraints),
                id,
            ),
    decreases constraints.len(),
{
    let grown = with_constraints(pool, constraints);
    if constraints.len() > 0 {
        let earlier = with_constraints(pool, constraints.drop_last());
        lemma_with_constraints_covers(pool, constraints.drop_last());
        assert forall|id: ConstraintID|
            contains_id(pool, id) || contains_id(constraints, id) implies #[trigger] contains_id(
            grown,
            id,
        ) by {
            if contains_id(pool, id) || contains_id(constraints.drop_last(), id) {
                assert(contains_id(earlier, id));
                let i = choose|i: int| 0 <= i < earlier.len() && earlier[i].id == id;
                assert(grown[i].id == id);
            } else {
                let j = choose|j: int| 0 <= j < constraints.len() && constraints[j].id == id;
                if j < constraints.len() - 1 {
                    assert(constraints.drop_last()[j].id == id);
                } else if !contains_id(earlier, id) {
                    assert(grown[grown.len() - 1].id == id);
                }
            }
        }
    }
}

/// The pool holds the identity of every constraint of every solution.
pub proof fn lemma_relevant_covers(solutions: Seq<SolutionView>, i: int, id: ConstraintID)
    requires
        0 <= i < solutions.len(),
        contains_id(solutions[i].constraints, id),
    ensures
        contains_id(relevant(solutions), id),
    decreases solutions.len(),
{
    let earlier = relevant(solutions.drop_last());
    lemma_with_constraints_covers(earlier, solutions.last().constraints);
    if i < solutions.len() - 1 {
        lemma_relevant_covers(solutions.drop_last(), i, id);
    }
}

/// The builder returns a tree exactly when some constraint of the pool tells
/// solutions apart: some solution holds it and some solution lacks it.
pub proof fn lemma_root_guess_exists(solutions: Seq<SolutionView>)
    ensures
        root_guess(solutions) is Some <==> exists|i: int|
            0 <= i < relevant(solutions).len() && split(
                (#[trigger] relevant(solutions)[i]).id,
                solutions,
            ) < solutions.len(),
{
    lemma_best_guess(relevant(solutions), solutions);
}

/// Two solutions of which one holds a constraint that the other lacks are
/// enough for a tree.
pub proof fn lemma_distinct_solutions_give_a_tree(
    solutions: Seq<SolutionView>,
    with: int,
    without: int,
    id: ConstraintID,
)
    requires
        0 <= with < solutions.len(),
        0 <= without < solutions.len(),
        contains_id(solutions[with].constraints, id),
        !contains_id(solutions[without].constraints, id),
    ensures
        root_guess(solutions) is Some,
{
    lemma_relevant_covers(solutions, with, id);
    lemma_split_of_discriminating(id, solutions, with, without);
    lemma_root_guess_exists(solutions);
}

/// Fewer than two solutions give no tree.
pub proof fn lemma_too_few_solutions(solutions: Seq<SolutionView>)
    requires
        solutions.len() < 2,
    ensures
        root_guess(solutions) is None,
{
}

/// The root guess splits the solutions at least as evenly as any constraint of
/// the pool, and both roots carry it.
pub proof fn lemma_root_split_quality(tree: TreeView, solutions: Seq<SolutionView>, i: int)
    requires
        built_from(tree, solutions),
        0 <= i < relevant(solutions).len(),
    ensures
        tree.roots.len() == 2,
        tree.roots[0].current_guess.constraint == tree.roots[1].current_guess.constraint,
        relevant(solutions).contains(tree.roots[0].current_guess.constraint),
        split(tree.roots[0].current_guess.constraint.id, solutions) <= split(
            relevant(solutions)[i].id,
            solutions,
        ),
{
    lemma_best_guess(relevant(solutions), solutions);
}

/// Every decision of the tree is reachable: the roots are, and so are the two
/// decisions that follow an entry. Each is the decision of its guess sequence.
pub proof fn lemma_tree_decisions_are_reachable(tree: TreeView, solutions: Seq<SolutionView>, k: int)
    requires
        built_from(tree, solutions),
        0 <= k < tree.decisions.len(),
    ensures
        reachable(solutions, tree.roots[0].guesses),
        reachable(solutions, tree.roots[1].guesses),
        tree.roots[0] == decision_at(solutions, tree.roots[0].guesses),
        tree.roots[1] == decision_at(solutions, tree.roots[1].guesses),
        tree.decisions[k].1.verified matches Some(child) && reachable(solutions, child.guesses)
            && child == decision_at(solutions, child.guesses),
        tree.decisions[k].1.unverified matches Some(child) && reachable(solutions, child.guesses)
            && child == decision_at(solutions, child.guesses),
{
    let first = root_guess(solutions).unwrap();
    let empty = Seq::<Guess>::empty();
    assert(extended(empty, first, true).drop_last() =~= empty);
    assert(extended(empty, first, false).drop_last() =~= empty);
    let key = tree.decisions[k].0.guesses;
    let next = next_guess(solutions, key).unwrap();
    assert(extended(key, next, true).drop_last() =~= key);
    assert(extended(key, next, false).drop_last() =~= key);
}

/// A decision of the tree that has no entry is a leaf for a reason: it carries
/// the code that its guesses single out, or no constraint is left to guess.
pub proof fn lemma_leaves_are_final(tree: TreeView, solutions: Seq<SolutionView>, guesses: Seq<Guess>)
    requires
        built_from(tree, solutions),
        reachable(solutions, guesses),
        !is_key(tree.decisions, guesses),
    ensures
        decision_at(solutions, guesses).solution is Some || remaining(
            relevant(solutions),
            guesses,
        ).len() == 0,
{
    lemma_best_guess(remaining(relevant(solutions), guesses), shrunk(solutions, guesses));
    assert(guesses.drop_last().push(guesses.last()) =~= guesses);
}

/// The outline of a tree that the builder returned leaves nothing out: where
/// a decision has an entry, both decisions that follow it are one guess
/// further and are shown below it.
pub proof fn lemma_outline_shows_what_follows(
    tree: TreeView,
    solutions: Seq<SolutionView>,
    decision: DecisionView,
)
    requires
        built_from(tree, solutions),
        entry_of(tree.decisions, decision.guesses) is Some,
    ensures
        follows(decision, tree.decisions[entry_of(tree.decisions, decision.guesses).unwrap()].1.verified),
        follows(
            decision,
            tree.decisions[entry_of(tree.decisions, decision.guesses).unwrap()].1.unverified,
        ),
{
    lemma_entry_of(tree.decisions, decision.guesses);
}

/// What is listed as an open leaf is one of the decisions and is an open
/// leaf.
pub proof fn lemma_open_among(
    entries: Seq<(DecisionView, BranchView)>,
    decisions: Seq<DecisionView>,
    i: int,
)
    requires
        0 <= i < open_among(entries, decisions).len(),
    ensures
        decisions.contains(open_among(entries, decisions)[i]),
        is_open_leaf(entries, open_among(entries, decisions)[i]),
    decreases decisions.len(),
{
    if decisions.len() > 0 {
        let earlier = open_among(entries, decisions.drop_last());
        if i < earlier.len() {
            lemma_open_among(entries, decisions.drop_last(), i);
            let j = choose|j: int|
                0 <= j < decisions.drop_last().len() && decisions.drop_last()[j] == earlier[i];
            assert(decisions[j] == earlier[i]);
        } else {
            assert(decisions[decisions.len() - 1] == decisions.last());
        }
    }
}

/// Each decision that follows the entries follows one of them.
pub proof fn lemma_followers(entries: Seq<(DecisionView, BranchView)>, decision: DecisionView)
    requires
        followers(entries).contains(decision),
    ensures
        exists|k: int|
            0 <= k < entries.len() && ((#[trigger] entries[k]).1.verified == Some(decision)
                || entries[k].1.unverified == Some(decision)),
    decreases entries.len(),
{
    if entries.len() > 0 {
        let earlier = followers(entries.drop_last());
        let last = entries.len() - 1;
        let i = choose|i: int| 0 <= i < followers(entries).len() && followers(entries)[i] == decision;
        if i < earlier.len() {
            assert(earlier[i] == decision);
            lemma_followers(entries.drop_last(), decision);
            let k = choose|k: int|
                0 <= k < entries.drop_last().len() && ((#[trigger] entries.drop_last()[k]).1.verified
                    == Some(decision) || entries.drop_last()[k].1.unverified == Some(decision));
            assert(entries[k] == entries.drop_last()[k]);
        } else {
            assert(entries[last].1.verified == Some(decision) || entries[last].1.unverified == Some(
                decision,
            ));
        }
    }
}

/// In a tree that the builder returned, a leaf is left open only where no
/// constraint is left to guess.
pub proof fn lemma_open_leaves_have_nothing_left(
    tree: TreeView,
    solutions: Seq<SolutionView>,
    i: int,
)
    requires
        built_from(tree, solutions),
        0 <= i < open_among(tree.decisions, tree.roots + followers(tree.decisions)).len(),
    ensures
        remaining(
            relevant(solutions),
            open_among(tree.decisions, tree.roots + followers(tree.decisions))[i].guesses,
        ).len() == 0,
{
    let shown = tree.roots + followers(tree.decisions);
    let leaf = open_among(tree.decisions, shown)[i];
    lemma_open_among(tree.decisions, shown, i);
    lemma_entry_of(tree.decisions, leaf.guesses);
    let at = choose|at: int| 0 <= at < shown.len() && shown[at] == leaf;
    if at < tree.roots.len() {
        assert(tree.roots[at] == leaf);
        if tree.decisions.len() > 0 {
            lemma_tree_decisions_are_reachable(tree, solutions, 0);
        } else {
            let first = root_guess(solutions).unwrap();
            let empty = Seq::<Guess>::empty();
            assert(extended(empty, first, true).drop_last() =~= empty);
            assert(extended(empty, first, false).drop_last() =~= empty);
        }
    } else {
        assert(followers(tree.decisions)[at - tree.roots.len()] == leaf);
        lemma_followers(tree.decisions, leaf);
        let k = choose|k: int|
            0 <= k < tree.decisions.len() && ((#[trigger] tree.decisions[k]).1.verified == Some(leaf)
                || tree.decisions[k].1.unverified == Some(leaf));
        lemma_tree_decisions_are_reachable(tree, solutions, k);
    }
    assert(!is_key(tree.decisions, leaf.guesses)) by {
        if is_key(tree.decisions, leaf.guesses) {
            let k = choose|k: int|
                0 <= k < tree.decisions.len() && (#[trigger] tree.decisions[k]).0.guesses
                    == leaf.guesses;
            assert(same_sequence(tree.decisions[k].0.guesses, leaf.guesses));
        }
    }
    lemma_leaves_are_final(tree, solutions, leaf.guesses);
}

} // verus!
