//! The builder of the decision tree, with what it means for a tree to be the
//! tree of a list of solutions.

use crate::guess_sequence::decision::{Branch, BranchView, Decision, DecisionView};
use crate::guess_sequence::decision_tree::{
    decision_views, entry_views, find_entry, lemma_entry_of, DecisionTree, TreeView,
};
use crate::guess_sequence::guess::{same_sequence, Guess};
use crate::scenario::code::Code;
use crate::scenario::constraint::{Constraint, ConstraintID};
use crate::solver::{views, Solution, SolutionView};
use vstd::prelude::*;

verus! {

/// Whether one of the constraints carries the identity `id`.
pub open spec fn contains_id(constraints: Seq<Constraint>, id: ConstraintID) -> bool {
    exists|i: int| 0 <= i < constraints.len() && (#[trigger] constraints[i]).id == id
}

/// Whether the solution fits the guess: it holds the guessed constraint where
/// the guess was verified, and lacks it where the guess was refuted.
pub open spec fn agrees(solution: SolutionView, guess: Guess) -> bool {
    contains_id(solution.constraints, guess.constraint.id) == guess.verified
}

/// Whether the solution fits every guess of the sequence.
pub open spec fn consistent(solution: SolutionView, guesses: Seq<Guess>) -> bool {
    forall|i: int| 0 <= i < guesses.len() ==> agrees(solution, #[trigger] guesses[i])
}

/// The solutions that fit every guess of the sequence, in their order.
pub open spec fn shrunk(solutions: Seq<SolutionView>, guesses: Seq<Guess>) -> Seq<SolutionView>
    decreases solutions.len(),
{
    if solutions.len() == 0 {
        Seq::empty()
    } else {
        let earlier = shrunk(solutions.drop_last(), guesses);
        if consistent(solutions.last(), guesses) {
            earlier.push(solutions.last())
        } else {
            earlier
        }
    }
}

/// How many of the solutions have a constraint with the identity `id` among
/// their constraints: these are the solutions that are left when a guess of
/// that constraint is verified.
pub open spec fn holders(id: ConstraintID, solutions: Seq<SolutionView>) -> nat
    decreases solutions.len(),
{
    if solutions.len() == 0 {
        0
    } else {
        holders(id, solutions.drop_last()) + (if contains_id(solutions.last().constraints, id) {
            1nat
        } else {
            0nat
        })
    }
}

/// How unevenly a guess of the constraint splits the solutions: the distance
/// between the number of solutions that have it among their constraints and
/// the number of those that do not.
pub open spec fn split(id: ConstraintID, solutions: Seq<SolutionView>) -> nat {
    let with = holders(id, solutions) as int;
    let without = solutions.len() - with;
    if with >= without {
        (with - without) as nat
    } else {
        (without - with) as nat
    }
}

/// Whether guessing `left` is preferred to guessing `right`: it splits the
/// solutions more evenly, or as evenly and has the lower identity.
pub open spec fn preferred(left: Constraint, right: Constraint, solutions: Seq<SolutionView>) -> bool {
    split(left.id, solutions) < split(right.id, solutions) || (split(left.id, solutions) == split(
        right.id,
        solutions,
    ) && left.id.less(right.id))
}

/// The constraint of `available` that is best guessed next: the first that no
/// other is preferred to. There is none where nothing is available.
pub open spec fn best_guess_of(available: Seq<Constraint>, solutions: Seq<SolutionView>) -> Option<
    Constraint,
>
    decreases available.len(),
{
    if available.len() == 0 {
        None
    } else {
        match best_guess_of(available.drop_last(), solutions) {
            None => Some(available.last()),
            Some(best) => if preferred(available.last(), best, solutions) {
                Some(available.last())
            } else {
                Some(best)
            },
        }
    }
}

/// Whether a guess of the sequence names the constraint with the identity
/// `id`.
pub open spec fn guessed(guesses: Seq<Guess>, id: ConstraintID) -> bool {
    exists|i: int| 0 <= i < guesses.len() && (#[trigger] guesses[i]).constraint.id == id
}

/// The code that the solutions agree on, where exactly one is left.
pub open spec fn resolved(solutions: Seq<SolutionView>) -> Option<Code> {
    if solutions.len() == 1 {
        Some(solutions[0].code)
    } else {
        None
    }
}

/// The decision reached by making the guess `current` after the guesses
/// `prior`.
pub open spec fn prepared(prior: Seq<Guess>, current: Guess, solutions: Seq<SolutionView>) -> DecisionView {
    DecisionView {
        guesses: prior.push(current),
        current_guess: current,
        solution: resolved(shrunk(solutions, prior.push(current))),
    }
}

/// `pool` with those of `constraints` added whose identity it did not hold
/// yet, in their order.
pub open spec fn with_constraints(pool: Seq<Constraint>, constraints: Seq<Constraint>) -> Seq<
    Constraint,
>
    decreases constraints.len(),
{
    if constraints.len() == 0 {
        pool
    } else {
        let earlier = with_constraints(pool, constraints.drop_last());
        if contains_id(earlier, constraints.last().id) {
            earlier
        } else {
            earlier.push(constraints.last())
        }
    }
}

/// The constraints from which guesses are drawn: every constraint of every
/// solution, each identity once, in the order of first occurrence.
pub open spec fn relevant(solutions: Seq<SolutionView>) -> Seq<Constraint>
    decreases solutions.len(),
{
    if solutions.len() == 0 {
        Seq::empty()
    } else {
        with_constraints(relevant(solutions.drop_last()), solutions.last().constraints)
    }
}

/// The constraints of `pool` that no guess of the sequence names, in their
/// order.
pub open spec fn remaining(pool: Seq<Constraint>, guesses: Seq<Guess>) -> Seq<Constraint>
    decreases pool.len(),
{
    if pool.len() == 0 {
        pool
    } else {
        let earlier = remaining(pool.drop_last(), guesses);
        if guessed(guesses, pool.last().id) {
            earlier
        } else {
            earlier.push(pool.last())
        }
    }
}

/// Whether no two of the constraints carry the same identity.
pub open spec fn distinct_ids(constraints: Seq<Constraint>) -> bool {
    forall|i: int, j: int|
        0 <= i < j < constraints.len() ==> (#[trigger] constraints[i]).id != (
        #[trigger] constraints[j]).id
}

/// The guess at the root: the best guess against all solutions, provided that
/// it tells solutions apart, which is to say that some hold it and some do not.
pub open spec fn root_guess(solutions: Seq<SolutionView>) -> Option<Constraint> {
    match best_guess_of(relevant(solutions), solutions) {
        Some(best) => if split(best.id, solutions) < solutions.len() {
            Some(best)
        } else {
            None
        },
        None => None,
    }
}

/// The guess that follows the guess sequence: the best of the constraints not
/// guessed yet, against the solutions that fit the sequence.
pub open spec fn next_guess(solutions: Seq<SolutionView>, guesses: Seq<Guess>) -> Option<Constraint> {
    best_guess_of(remaining(relevant(solutions), guesses), shrunk(solutions, guesses))
}

/// Whether the decision with this guess sequence is branched: it is not
/// resolved and a constraint is left to guess.
pub open spec fn open_ended(solutions: Seq<SolutionView>, guesses: Seq<Guess>) -> bool {
    resolved(shrunk(solutions, guesses)) is None && next_guess(solutions, guesses) is Some
}

/// The guess sequence `guesses` followed by one more guess.
pub open spec fn extended(guesses: Seq<Guess>, constraint: Constraint, verified: bool) -> Seq<Guess> {
    guesses.push(Guess { constraint, verified })
}

/// Whether the tree for `solutions` holds a decision with this guess sequence:
/// the sequence starts with the root guess, and each further guess is the next
/// guess of the branched decision before it.
pub open spec fn reachable(solutions: Seq<SolutionView>, guesses: Seq<Guess>) -> bool
    decreases guesses.len(),
{
    if guesses.len() == 0 {
        false
    } else if guesses.len() == 1 {
        root_guess(solutions) == Some(guesses[0].constraint)
    } else {
        &&& reachable(solutions, guesses.drop_last())
        &&& open_ended(solutions, guesses.drop_last())
        &&& next_guess(solutions, guesses.drop_last()) == Some(guesses.last().constraint)
    }
}

/// The decision with the given guess sequence.
pub open spec fn decision_at(solutions: Seq<SolutionView>, guesses: Seq<Guess>) -> DecisionView {
    prepared(guesses.drop_last(), guesses.last(), solutions)
}

/// The two decisions that follow the branched decision with the given guess
/// sequence.
pub open spec fn branch_at(solutions: Seq<SolutionView>, guesses: Seq<Guess>) -> BranchView {
    let next = next_guess(solutions, guesses).unwrap();
    BranchView {
        verified: Some(prepared(guesses, Guess { constraint: next, verified: true }, solutions)),
        unverified: Some(prepared(guesses, Guess { constraint: next, verified: false }, solutions)),
    }
}

/// Whether an entry of the tree is what the tree for `solutions` holds for its
/// guess sequence.
pub open spec fn entry_fits(solutions: Seq<SolutionView>, entry: (DecisionView, BranchView)) -> bool {
    &&& reachable(solutions, entry.0.guesses)
    &&& open_ended(solutions, entry.0.guesses)
    &&& entry.0 == decision_at(solutions, entry.0.guesses)
    &&& entry.1 == branch_at(solutions, entry.0.guesses)
}

/// Whether an entry was made for exactly this guess sequence.
pub open spec fn is_key(entries: Seq<(DecisionView, BranchView)>, guesses: Seq<Guess>) -> bool {
    exists|k: int| 0 <= k < entries.len() && (#[trigger] entries[k]).0.guesses == guesses
}

/// Whether `tree` is the decision tree for `solutions`: its roots are the two
/// answers to the root guess; it has an entry, and only one, for every
/// decision that is reachable from a root and branched, and no other entry; and
/// each entry holds the two decisions that follow.
pub open spec fn built_from(tree: TreeView, solutions: Seq<SolutionView>) -> bool {
    &&& root_guess(solutions) matches Some(first)
    &&& tree.roots == seq![
        prepared(Seq::empty(), Guess { constraint: first, verified: true }, solutions),
        prepared(Seq::empty(), Guess { constraint: first, verified: false }, solutions),
    ]
    &&& forall|k: int|
        0 <= k < tree.decisions.len() ==> entry_fits(solutions, #[trigger] tree.decisions[k])
    &&& forall|guesses: Seq<Guess>|
        #![trigger reachable(solutions, guesses)]
        reachable(solutions, guesses) && open_ended(solutions, guesses) ==> is_key(
            tree.decisions,
            guesses,
        )
    &&& forall|i: int, j: int|
        0 <= i < j < tree.decisions.len() ==> !same_sequence(
            (#[trigger] tree.decisions[i]).0.guesses,
            (#[trigger] tree.decisions[j]).0.guesses,
        )
}

/// Size of the largest tree that can grow below a decision with `n`
/// constraints left to guess.
spec fn growth(n: nat) -> nat
    decreases n,
{
    if n == 0 {
        1
    } else {
        2 * growth((n - 1) as nat) + 1
    }
}

/// The work that the decisions still to be branched can cause at most.
spec fn backlog(pool: Seq<Constraint>, pending: Seq<DecisionView>) -> nat
    decreases pending.len(),
{
    if pending.len() == 0 {
        0
    } else {
        backlog(pool, pending.drop_last()) + growth(remaining(pool, pending.last().guesses).len())
    }
}

/// Whether a decision is waiting to be branched under this guess sequence.
spec fn is_pending(pending: Seq<DecisionView>, guesses: Seq<Guess>) -> bool {
    exists|w: int| 0 <= w < pending.len() && (#[trigger] pending[w]).guesses == guesses
}

/// Whether the guess sequence is taken care of: where its decision is
/// branched, it has its entry already or waits for it.
spec fn settled(
    solutions: Seq<SolutionView>,
    entries: Seq<(DecisionView, BranchView)>,
    pending: Seq<DecisionView>,
    guesses: Seq<Guess>,
) -> bool {
    open_ended(solutions, guesses) ==> is_key(entries, guesses) || is_pending(pending, guesses)
}

/// Whether the solution has a constraint with the identity of `constraint`
/// among its constraints.
pub fn holds_constraint(solution: &Solution, constraint: &Constraint) -> (found: bool)
    ensures
        found == contains_id(solution@.constraints, constraint.id),
{
    let mut i: usize = 0;
    while i < solution.constraints.len()
        invariant
            0 <= i <= solution.constraints@.len(),
            forall|j: int| 0 <= j < i ==> (#[trigger] solution.constraints@[j]).id != constraint.id,
        decreases solution.constraints@.len() - i,
    {
        if solution.constraints[i] == *constraint {
            return true;
        }
        i = i + 1;
    }
    false
}

/// Whether the solution fits every guess of the sequence.
fn fits(solution: &Solution, guess_sequence: &Vec<Guess>) -> (all: bool)
    ensures
        all == consistent(solution@, guess_sequence@),
{
    let mut i: usize = 0;
    while i < guess_sequence.len()
        invariant
            0 <= i <= guess_sequence@.len(),
            forall|j: int| 0 <= j < i ==> agrees(solution@, #[trigger] guess_sequence@[j]),
        decreases guess_sequence@.len() - i,
    {
        let guess = guess_sequence[i];
        if holds_constraint(solution, &guess.constraint) != guess.verified {
            return false;
        }
        i = i + 1;
    }
    true
}

/// Keeps the solutions that fit every guess of the sequence: those that hold
/// each verified constraint and lack each refuted one. The order of the
/// solutions is kept.
pub fn shrink<'a>(available_solutions: &Vec<&'a Solution>, guess_sequence: &Vec<Guess>) -> (kept:
    Vec<&'a Solution>)
    ensures
        views(kept@) == shrunk(views(available_solutions@), guess_sequence@),
{
    let mut kept: Vec<&'a Solution> = Vec::new();
    let mut k: usize = 0;
    let ghost all = views(available_solutions@);
    while k < available_solutions.len()
        invariant
            0 <= k <= available_solutions@.len(),
            all == views(available_solutions@),
            views(kept@) == shrunk(all.take(k as int), guess_sequence@),
        decreases available_solutions@.len() - k,
    {
        let solution = available_solutions[k];
        assert(all.take(k as int + 1).drop_last() =~= all.take(k as int));
        if fits(solution, guess_sequence) {
            kept.push(solution);
        }
        k = k + 1;
    }
    assert(all.take(all.len() as int) =~= all);
    kept
}

/// How unevenly a guess of the constraint splits the solutions: the distance
/// between the number of solutions that have it among their constraints and
/// the number of those that do not.
pub fn tf_difference(constraint: &Constraint, solutions: &Vec<&Solution>) -> (difference: usize)
    ensures
        difference == split(constraint.id, views(solutions@)),
{
    let ghost all = views(solutions@);
    let mut with: usize = 0;
    let mut without: usize = 0;
    let mut k: usize = 0;
    while k < solutions.len()
        invariant
            0 <= k <= solutions@.len(),
            all == views(solutions@),
            with == holders(constraint.id, all.take(k as int)),
            with + without == k,
        decreases solutions@.len() - k,
    {
        assert(all.take(k as int + 1).drop_last() =~= all.take(k as int));
        if holds_constraint(solutions[k], constraint) {
            with = with + 1;
        } else {
            without = without + 1;
        }
        k = k + 1;
    }
    assert(all.take(all.len() as int) =~= all);
    if with >= without {
        with - without
    } else {
        without - with
    }
}

/// The constraint that is best guessed next: the one that splits the possible
/// solutions most evenly and, among those, has the lowest identity. `None`
/// where no constraint is available.
pub fn best_guess(available_constraints: &Vec<Constraint>, possible_solutions: &Vec<&Solution>) -> (best:
    Option<Constraint>)
    ensures
        best == best_guess_of(available_constraints@, views(possible_solutions@)),
{
    let ghost all = available_constraints@;
    let ghost solutions = views(possible_solutions@);
    let mut best: Option<Constraint> = None;
    let mut difference: usize = 0;
    let mut k: usize = 0;
    while k < available_constraints.len()
        invariant
            0 <= k <= available_constraints@.len(),
            all == available_constraints@,
            solutions == views(possible_solutions@),
            best == best_guess_of(all.take(k as int), solutions),
            best matches Some(c) ==> difference == split(c.id, solutions),
        decreases available_constraints@.len() - k,
    {
        assert(all.take(k as int + 1).drop_last() =~= all.take(k as int));
        let candidate = available_constraints[k];
        let found = tf_difference(&candidate, possible_solutions);
        match best {
            None => {
                best = Some(candidate);
                difference = found;
            },
            Some(current) => {
                if found < difference || (found == difference && candidate.id.precedes(&current.id)) {
                    best = Some(candidate);
                    difference = found;
                }
            },
        }
        k = k + 1;
    }
    assert(all.take(all.len() as int) =~= all);
    best
}

/// Whether both answers to the root guess are taken care of.
spec fn roots_settled(
    solutions: Seq<SolutionView>,
    entries: Seq<(DecisionView, BranchView)>,
    pending: Seq<DecisionView>,
    first: Constraint,
) -> bool {
    &&& settled(solutions, entries, pending, extended(Seq::empty(), first, true))
    &&& settled(solutions, entries, pending, extended(Seq::empty(), first, false))
}

/// Whether both decisions that follow entry `k` are taken care of.
spec fn children_settled(
    solutions: Seq<SolutionView>,
    entries: Seq<(DecisionView, BranchView)>,
    pending: Seq<DecisionView>,
    k: int,
) -> bool {
    let guesses = entries[k].0.guesses;
    let next = next_guess(solutions, guesses).unwrap();
    &&& settled(solutions, entries, pending, extended(guesses, next, true))
    &&& settled(solutions, entries, pending, extended(guesses, next, false))
}

/// Adding constraints to a pool without repeated identities repeats none.
proof fn lemma_with_constraints(pool: Seq<Constraint>, constraints: Seq<Constraint>)
    requires
        distinct_ids(pool),
    ensures
        distinct_ids(with_constraints(pool, constraints)),
    decreases constraints.len(),
{
    if constraints.len() > 0 {
        lemma_with_constraints(pool, constraints.drop_last());
    }
}

/// No two constraints of the pool carry the same identity.
pub proof fn lemma_relevant_distinct(solutions: Seq<SolutionView>)
    ensures
        distinct_ids(relevant(solutions)),
    decreases solutions.len(),
{
    if solutions.len() > 0 {
        lemma_relevant_distinct(solutions.drop_last());
        lemma_with_constraints(relevant(solutions.drop_last()), solutions.last().constraints);
    }
}

/// The best guess is one of the available constraints, and no available
/// constraint is preferred to it. There is none only where nothing is
/// available.
pub proof fn lemma_best_guess(available: Seq<Constraint>, solutions: Seq<SolutionView>)
    ensures
        best_guess_of(available, solutions) is None <==> available.len() == 0,
        best_guess_of(available, solutions) matches Some(best) ==> available.contains(best)
            && forall|i: int|
            0 <= i < available.len() ==> !preferred(#[trigger] available[i], best, solutions),
    decreases available.len(),
{
    if available.len() > 0 {
        let earlier = available.drop_last();
        lemma_best_guess(earlier, solutions);
        let best = best_guess_of(available, solutions).unwrap();
        match best_guess_of(earlier, solutions) {
            None => {},
            Some(before) => {
                assert forall|i: int| 0 <= i < available.len() implies !preferred(
                    #[trigger] available[i],
                    best,
                    solutions,
                ) by {
                    if i < earlier.len() {
                        assert(earlier[i] == available[i]);
                        assert(!preferred(earlier[i], before, solutions));
                    }
                }
            },
        }
    }
}

/// What is left to guess belongs to the pool and was not guessed; nothing of
/// the pool that was not guessed is missing.
pub proof fn lemma_remaining(pool: Seq<Constraint>, guesses: Seq<Guess>)
    ensures
        remaining(pool, guesses).len() <= pool.len(),
        forall|i: int|
            0 <= i < remaining(pool, guesses).len() ==> pool.contains(
                #[trigger] remaining(pool, guesses)[i],
            ) && !guessed(guesses, remaining(pool, guesses)[i].id),
        forall|i: int|
            0 <= i < pool.len() && !guessed(guesses, (#[trigger] pool[i]).id) ==> remaining(
                pool,
                guesses,
            ).contains(pool[i]),
    decreases pool.len(),
{
    if pool.len() > 0 {
        let earlier = pool.drop_last();
        lemma_remaining(earlier, guesses);
        let left = remaining(pool, guesses);
        let before = remaining(earlier, guesses);
        assert forall|i: int|
            0 <= i < pool.len() && !guessed(guesses, (#[trigger] pool[i]).id) implies left.contains(
            pool[i],
        ) by {
            if i < earlier.len() {
                assert(earlier[i] == pool[i]);
                let j = choose|j: int| 0 <= j < before.len() && before[j] == earlier[i];
                assert(left[j] == pool[i]);
            } else {
                assert(left[left.len() - 1] == pool[i]);
            }
        }
    }
}

/// One more guess leaves no more constraints to guess than before, and fewer
/// where the guessed constraint was among them.
proof fn lemma_remaining_shrinks(pool: Seq<Constraint>, guesses: Seq<Guess>, guess: Guess)
    ensures
        remaining(pool, guesses.push(guess)).len() <= remaining(pool, guesses).len(),
        contains_id(remaining(pool, guesses), guess.constraint.id) ==> remaining(
            pool,
            guesses.push(guess),
        ).len() < remaining(pool, guesses).len(),
    decreases pool.len(),
{
    let longer = guesses.push(guess);
    if pool.len() > 0 {
        let earlier = pool.drop_last();
        let last = pool.last();
        lemma_remaining_shrinks(earlier, guesses, guess);
        assert(guessed(longer, last.id) <==> guessed(guesses, last.id) || last.id
            == guess.constraint.id) by {
            if guessed(guesses, last.id) {
                let i = choose|i: int| 0 <= i < guesses.len() && guesses[i].constraint.id == last.id;
                assert(longer[i].constraint.id == last.id);
            }
            if last.id == guess.constraint.id {
                assert(longer[guesses.len() as int].constraint.id == last.id);
            }
            if guessed(longer, last.id) {
                let i = choose|i: int| 0 <= i < longer.len() && longer[i].constraint.id == last.id;
                if i < guesses.len() {
                    assert(guesses[i].constraint.id == last.id);
                }
            }
        }
    }
}

/// The more constraints are left, the larger the tree can grow.
proof fn lemma_growth(fewer: nat, more: nat)
    requires
        fewer <= more,
    ensures
        1 <= growth(fewer) <= growth(more),
    decreases more,
{
    if fewer < more {
        lemma_growth(fewer, (more - 1) as nat);
    } else if more > 0 {
        lemma_growth((fewer - 1) as nat, (more - 1) as nat);
    }
}

/// Every guess of a reachable guess sequence names a constraint of the pool.
proof fn lemma_reachable_from_pool(solutions: Seq<SolutionView>, guesses: Seq<Guess>)
    requires
        reachable(solutions, guesses),
    ensures
        guesses.len() >= 1,
        forall|i: int|
            0 <= i < guesses.len() ==> relevant(solutions).contains((#[trigger] guesses[i]).constraint),
    decreases guesses.len(),
{
    let pool = relevant(solutions);
    if guesses.len() == 1 {
        lemma_best_guess(pool, solutions);
    } else {
        let before = guesses.drop_last();
        lemma_reachable_from_pool(solutions, before);
        lemma_best_guess(remaining(pool, before), shrunk(solutions, before));
        lemma_remaining(pool, before);
        assert forall|i: int| 0 <= i < guesses.len() implies pool.contains(
            (#[trigger] guesses[i]).constraint,
        ) by {
            if i < before.len() {
                assert(before[i] == guesses[i]);
            } else {
                let left = remaining(pool, before);
                let j = choose|j: int| 0 <= j < left.len() && left[j] == guesses.last().constraint;
                assert(pool.contains(left[j]));
            }
        }
    }
}

/// Two guess sequences over a pool without repeated identities are equal when
/// they name the same constraints with the same answers.
proof fn lemma_same_sequence(pool: Seq<Constraint>, left: Seq<Guess>, right: Seq<Guess>)
    requires
        distinct_ids(pool),
        forall|i: int| 0 <= i < left.len() ==> pool.contains((#[trigger] left[i]).constraint),
        forall|i: int| 0 <= i < right.len() ==> pool.contains((#[trigger] right[i]).constraint),
        same_sequence(left, right),
    ensures
        left == right,
{
}

/// A guess sequence stays taken care of when entries are added and the last
/// pending decision leaves the list, provided that this decision is not
/// branched or has its entry now.
proof fn lemma_still_settled(
    solutions: Seq<SolutionView>,
    entries: Seq<(DecisionView, BranchView)>,
    pending: Seq<DecisionView>,
    entries_after: Seq<(DecisionView, BranchView)>,
    pending_after: Seq<DecisionView>,
    guesses: Seq<Guess>,
)
    requires
        settled(solutions, entries, pending, guesses),
        entries.len() <= entries_after.len(),
        forall|k: int| 0 <= k < entries.len() ==> entries_after[k] == entries[k],
        pending.len() >= 1,
        pending.len() - 1 <= pending_after.len(),
        forall|w: int| 0 <= w < pending.len() - 1 ==> pending_after[w] == pending[w],
        !open_ended(solutions, pending.last().guesses) || is_key(
            entries_after,
            pending.last().guesses,
        ),
    ensures
        settled(solutions, entries_after, pending_after, guesses),
{
}

/// Once nothing is pending, every decision that is reachable and branched has
/// its entry.
proof fn lemma_every_branch_entered(
    solutions: Seq<SolutionView>,
    entries: Seq<(DecisionView, BranchView)>,
    first: Constraint,
    guesses: Seq<Guess>,
)
    requires
        root_guess(solutions) == Some(first),
        forall|k: int| 0 <= k < entries.len() ==> entry_fits(solutions, #[trigger] entries[k]),
        roots_settled(solutions, entries, Seq::empty(), first),
        forall|k: int|
            0 <= k < entries.len() ==> #[trigger] children_settled(
                solutions,
                entries,
                Seq::empty(),
                k,
            ),
        reachable(solutions, guesses),
        open_ended(solutions, guesses),
    ensures
        is_key(entries, guesses),
    decreases guesses.len(),
{
    let none = Seq::<DecisionView>::empty();
    if guesses.len() == 1 {
        assert(guesses =~= extended(Seq::empty(), first, guesses[0].verified));
    } else {
        let before = guesses.drop_last();
        lemma_every_branch_entered(solutions, entries, first, before);
        let k = choose|k: int| 0 <= k < entries.len() && entries[k].0.guesses == before;
        assert(children_settled(solutions, entries, none, k));
        let next = next_guess(solutions, before).unwrap();
        assert(guesses =~= extended(before, next, guesses.last().verified));
    }
}

/// The constraints from which guesses are drawn: every constraint of every
/// solution, each identity once.
pub fn relevant_constraints(solutions: &Vec<Solution>) -> (pool: Vec<Constraint>)
    ensures
        pool@ == relevant(views(solutions@)),
{
    let ghost all = views(solutions@);
    let mut pool: Vec<Constraint> = Vec::new();
    let mut k: usize = 0;
    while k < solutions.len()
        invariant
            0 <= k <= solutions@.len(),
            all == views(solutions@),
            pool@ == relevant(all.take(k as int)),
        decreases solutions@.len() - k,
    {
        let solution = &solutions[k];
        let ghost before = pool@;
        let ghost constraints = solution.constraints@;
        assert(all.take(k as int + 1).drop_last() =~= all.take(k as int));
        let mut i: usize = 0;
        while i < solution.constraints.len()
            invariant
                0 <= i <= constraints.len(),
                constraints == solution.constraints@,
                pool@ == with_constraints(before, constraints.take(i as int)),
            decreases constraints.len() - i,
        {
            let constraint = solution.constraints[i];
            assert(constraints.take(i as int + 1).drop_last() =~= constraints.take(i as int));
            if !holds_id(&pool, &constraint) {
                pool.push(constraint);
            }
            i = i + 1;
        }
        assert(constraints.take(constraints.len() as int) =~= constraints);
        k = k + 1;
    }
    assert(all.take(all.len() as int) =~= all);
    pool
}

/// Whether one of the constraints carries the identity of `constraint`.
fn holds_id(constraints: &Vec<Constraint>, constraint: &Constraint) -> (found: bool)
    ensures
        found == contains_id(constraints@, constraint.id),
{
    let mut i: usize = 0;
    while i < constraints.len()
        invariant
            0 <= i <= constraints@.len(),
            forall|j: int| 0 <= j < i ==> (#[trigger] constraints@[j]).id != constraint.id,
        decreases constraints@.len() - i,
    {
        if constraints[i] == *constraint {
            return true;
        }
        i = i + 1;
    }
    false
}

/// Whether a guess of the sequence names `constraint`.
fn was_guessed(guesses: &Vec<Guess>, constraint: &Constraint) -> (found: bool)
    ensures
        found == guessed(guesses@, constraint.id),
{
    let mut i: usize = 0;
    while i < guesses.len()
        invariant
            0 <= i <= guesses@.len(),
            forall|j: int| 0 <= j < i ==> (#[trigger] guesses@[j]).constraint.id != constraint.id,
        decreases guesses@.len() - i,
    {
        if guesses[i].constraint == *constraint {
            return true;
        }
        i = i + 1;
    }
    false
}

/// The constraints of the pool that no guess of the sequence names.
pub fn remaining_constraints(pool: &Vec<Constraint>, guesses: &Vec<Guess>) -> (left: Vec<Constraint>)
    ensures
        left@ == remaining(pool@, guesses@),
{
    let mut left: Vec<Constraint> = Vec::new();
    let mut k: usize = 0;
    while k < pool.len()
        invariant
            0 <= k <= pool@.len(),
            left@ == remaining(pool@.take(k as int), guesses@),
        decreases pool@.len() - k,
    {
        assert(pool@.take(k as int + 1).drop_last() =~= pool@.take(k as int));
        if !was_guessed(guesses, &pool[k]) {
            left.push(pool[k]);
        }
        k = k + 1;
    }
    assert(pool@.take(pool@.len() as int) =~= pool@);
    left
}

/// References to all the solutions, in their order.
fn all_of(solutions: &Vec<Solution>) -> (all: Vec<&Solution>)
    ensures
        views(all@) == views(solutions@),
{
    let mut all: Vec<&Solution> = Vec::new();
    let mut k: usize = 0;
    while k < solutions.len()
        invariant
            0 <= k <= solutions@.len(),
            all@.len() == k,
            forall|i: int| 0 <= i < k ==> (#[trigger] all@[i])@ == solutions@[i]@,
        decreases solutions@.len() - k,
    {
        all.push(&solutions[k]);
        k = k + 1;
    }
    all
}

/// A copy of the guess sequence.
fn copy_of(guesses: &Vec<Guess>) -> (copy: Vec<Guess>)
    ensures
        copy@ == guesses@,
{
    let mut copy: Vec<Guess> = Vec::new();
    let mut i: usize = 0;
    while i < guesses.len()
        invariant
            0 <= i <= guesses@.len(),
            copy@ == guesses@.take(i as int),
        decreases guesses@.len() - i,
    {
        copy.push(guesses[i]);
        i = i + 1;
    }
    copy
}

/// Builds the decision tree for the solutions, or `None` where no constraint
/// tells the solutions apart, as with fewer than two solutions.
///
/// The root guess is the best guess against all solutions. A decision that is
/// not resolved is branched on the best of the constraints that were not
/// guessed on the way to it, against the solutions that fit its guesses; it
/// stays a leaf where no constraint is left. No guess sequence is branched
/// twice.
pub fn guess_sequence(solutions: &Vec<Solution>) -> (tree: Option<DecisionTree>)
    ensures
        match tree {
            Some(built) => built_from(built@, views(solutions@)),
            None => root_guess(views(solutions@)) is None,
        },
{
    let ghost all = views(solutions@);
    let ghost pool = relevant(all);
    let relevant_constraints = relevant_constraints(solutions);
    let available_solutions = all_of(solutions);
    let first_best_guess = match best_guess(&relevant_constraints, &available_solutions) {
        Some(best) => best,
        None => {
            return None;
        },
    };
    if tf_difference(&first_best_guess, &available_solutions) >= available_solutions.len() {
        return None;
    }
    let verified_root = Decision::prepare(
        Vec::new(),
        Guess { constraint: first_best_guess, verified: true },
        &available_solutions,
    );
    let unverified_root = Decision::prepare(
        Vec::new(),
        Guess { constraint: first_best_guess, verified: false },
        &available_solutions,
    );
    let mut roots: Vec<Decision> = Vec::new();
    roots.push(verified_root.duplicate());
    roots.push(unverified_root.duplicate());
    let mut unbranched_decisions: Vec<Decision> = Vec::new();
    unbranched_decisions.push(verified_root);
    unbranched_decisions.push(unverified_root);
    let mut decisions: Vec<(Decision, Branch)> = Vec::new();
    proof {
        lemma_relevant_distinct(all);
        let empty = Seq::<Guess>::empty();
        let pending = decision_views(unbranched_decisions@);
        assert(extended(empty, first_best_guess, true).drop_last() =~= empty);
        assert(extended(empty, first_best_guess, false).drop_last() =~= empty);
        assert(pending[0].guesses == extended(empty, first_best_guess, true));
        assert(pending[1].guesses == extended(empty, first_best_guess, false));
        assert(decision_views(roots@) =~= seq![
            prepared(empty, Guess { constraint: first_best_guess, verified: true }, all),
            prepared(empty, Guess { constraint: first_best_guess, verified: false }, all),
        ]);
    }
    while unbranched_decisions.len() > 0
        invariant
            all == views(solutions@),
            all == views(available_solutions@),
            pool == relevant(all),
            pool == relevant_constraints@,
            distinct_ids(pool),
            root_guess(all) == Some(first_best_guess),
            decision_views(roots@) == seq![
                prepared(
                    Seq::empty(),
                    Guess { constraint: first_best_guess, verified: true },
                    all,
                ),
                prepared(
                    Seq::empty(),
                    Guess { constraint: first_best_guess, verified: false },
                    all,
                ),
            ],
            forall|k: int|
                0 <= k < decisions@.len() ==> entry_fits(
                    all,
                    #[trigger] entry_views(decisions@)[k],
                ),
            forall|i: int, j: int|
                0 <= i < j < decisions@.len() ==> !same_sequence(
                    (#[trigger] entry_views(decisions@)[i]).0.guesses,
                    (#[trigger] entry_views(decisions@)[j]).0.guesses,
                ),
            forall|w: int|
                0 <= w < unbranched_decisions@.len() ==> reachable(
                    all,
                    (#[trigger] decision_views(unbranched_decisions@)[w]).guesses,
                ) && decision_views(unbranched_decisions@)[w] == decision_at(
                    all,
                    decision_views(unbranched_decisions@)[w].guesses,
                ),
            roots_settled(
                all,
                entry_views(decisions@),
                decision_views(unbranched_decisions@),
                first_best_guess,
            ),
            forall|k: int|
                0 <= k < decisions@.len() ==> #[trigger] children_settled(
                    all,
                    entry_views(decisions@),
                    decision_views(unbranched_decisions@),
                    k,
                ),
        decreases backlog(pool, decision_views(unbranched_decisions@)),
    {
        let ghost entries = entry_views(decisions@);
        let ghost pending = decision_views(unbranched_decisions@);
        let decision = unbranched_decisions.pop().unwrap();
        let ghost guesses = decision@.guesses;
        assert(decision@ == pending.last());
        assert(decision_views(unbranched_decisions@) =~= pending.drop_last());
        proof {
            lemma_growth(0, remaining(pool, guesses).len());
            lemma_reachable_from_pool(all, guesses);
        }
        let mut expanded = false;
        if decision.solution.is_none() {
            let remaining_solutions = shrink(&available_solutions, &decision.guesses);
            let remaining_constraints = remaining_constraints(
                &relevant_constraints,
                &decision.guesses,
            );
            match best_guess(&remaining_constraints, &remaining_solutions) {
                Some(best_guess) => {
                    match find_entry(&decisions, &decision.guesses) {
                        Some(i) => {
                            proof {
                                lemma_entry_of(entries, guesses);
                                lemma_reachable_from_pool(all, entries[i as int].0.guesses);
                                lemma_same_sequence(pool, entries[i as int].0.guesses, guesses);
                            }
                        },
                        None => {
                            let verified_decision = Decision::prepare(
                                copy_of(&decision.guesses),
                                Guess { constraint: best_guess, verified: true },
                                &available_solutions,
                            );
                            let unverified_decision = Decision::prepare(
                                copy_of(&decision.guesses),
                                Guess { constraint: best_guess, verified: false },
                                &available_solutions,
                            );
                            let branch = Branch {
                                verified: Some(verified_decision.duplicate()),
                                unverified: Some(unverified_decision.duplicate()),
                            };
                            proof {
                                let left = remaining(pool, guesses);
                                let ahead = extended(guesses, best_guess, true);
                                let behind = extended(guesses, best_guess, false);
                                lemma_entry_of(entries, guesses);
                                lemma_best_guess(left, shrunk(all, guesses));
                                let at = choose|at: int| 0 <= at < left.len() && left[at] == best_guess;
                                assert(left[at].id == best_guess.id);
                                lemma_remaining_shrinks(
                                    pool,
                                    guesses,
                                    Guess { constraint: best_guess, verified: true },
                                );
                                lemma_remaining_shrinks(
                                    pool,
                                    guesses,
                                    Guess { constraint: best_guess, verified: false },
                                );
                                lemma_growth(
                                    remaining(pool, ahead).len(),
                                    (left.len() - 1) as nat,
                                );
                                lemma_growth(
                                    remaining(pool, behind).len(),
                                    (left.len() - 1) as nat,
                                );
                                assert(ahead.drop_last() =~= guesses);
                                assert(behind.drop_last() =~= guesses);
                                assert(entry_fits(all, (decision@, branch@)));
                            }
                            decisions.push((decision, branch));
                            unbranched_decisions.push(verified_decision);
                            unbranched_decisions.push(unverified_decision);
                            expanded = true;
                            proof {
                                let ahead = extended(guesses, best_guess, true);
                                let behind = extended(guesses, best_guess, false);
                                let entries_after = entry_views(decisions@);
                                let pending_after = decision_views(unbranched_decisions@);
                                let n = pending.len() - 1;
                                assert(pending_after.drop_last().drop_last() =~= pending.drop_last());
                                assert(pending_after[n].guesses == ahead);
                                assert(pending_after[n + 1].guesses == behind);
                                assert(pending_after.drop_last().last().guesses == ahead);
                                assert(pending_after.last().guesses == behind);
                                assert(entries_after[entries.len() as int].0.guesses == guesses);
                                assert(is_key(entries_after, guesses));
                                assert(is_pending(pending_after, ahead));
                                assert(is_pending(pending_after, behind));
                                assert(children_settled(
                                    all,
                                    entries_after,
                                    pending_after,
                                    entries.len() as int,
                                ));
                                let rest = pending.drop_last();
                                assert(pending_after.drop_last() =~= rest.push(
                                    pending_after[n],
                                ));
                                assert(pending_after.drop_last().drop_last() =~= rest);
                                let middle = pending_after.drop_last();
                                assert(middle.len() > 0 && pending_after.len() > 0);
                                assert(backlog(pool, middle) == backlog(pool, middle.drop_last())
                                    + growth(remaining(pool, middle.last().guesses).len()));
                                assert(backlog(pool, pending_after) == backlog(pool, middle)
                                    + growth(remaining(pool, pending_after.last().guesses).len()));
                                assert(backlog(pool, pending_after) == backlog(pool, rest) + growth(
                                    remaining(pool, ahead).len(),
                                ) + growth(remaining(pool, behind).len()));
                                assert(backlog(pool, pending) == backlog(pool, rest) + growth(
                                    remaining(pool, guesses).len(),
                                ));
                                assert(backlog(pool, pending_after) < backlog(pool, pending));
                            }
                        },
                    }
                },
                None => {},
            }
        }
        proof {
            let entries_after = entry_views(decisions@);
            let pending_after = decision_views(unbranched_decisions@);
            if !expanded {
                assert(pending_after =~= pending.drop_last());
                assert(backlog(pool, pending) == backlog(pool, pending.drop_last()) + growth(
                    remaining(pool, guesses).len(),
                ));
            }
            assert(backlog(pool, pending_after) < backlog(pool, pending));
            assert(!open_ended(all, guesses) || is_key(entries_after, guesses)) by {
                if open_ended(all, guesses) && !expanded {
                    let i = choose|i: int|
                        0 <= i < entries.len() && same_sequence(entries[i].0.guesses, guesses)
                            && entries[i].0.guesses == guesses;
                    assert(entries_after[i].0.guesses == guesses);
                }
            }
            assert forall|k: int| 0 <= k < entries.len() implies entries_after[k]
                == entries[k] by {}
            assert forall|w: int| 0 <= w < pending.len() - 1 implies pending_after[w]
                == pending[w] by {}
            lemma_still_settled(
                all,
                entries,
                pending,
                entries_after,
                pending_after,
                extended(Seq::empty(), first_best_guess, true),
            );
            lemma_still_settled(
                all,
                entries,
                pending,
                entries_after,
                pending_after,
                extended(Seq::empty(), first_best_guess, false),
            );
            assert forall|k: int| 0 <= k < decisions@.len() implies #[trigger] children_settled(
                all,
                entries_after,
                pending_after,
                k,
            ) by {
                if k < entries.len() {
                    assert(children_settled(all, entries, pending, k));
                    let key = entries[k].0.guesses;
                    let next = next_guess(all, key).unwrap();
                    lemma_still_settled(
                        all,
                        entries,
                        pending,
                        entries_after,
                        pending_after,
                        extended(key, next, true),
                    );
                    lemma_still_settled(
                        all,
                        entries,
                        pending,
                        entries_after,
                        pending_after,
                        extended(key, next, false),
                    );
                }
            }
        }
    }
    proof {
        let entries = entry_views(decisions@);
        assert(decision_views(unbranched_decisions@) =~= Seq::<DecisionView>::empty());
        assert forall|guesses: Seq<Guess>|
            #![trigger reachable(all, guesses)]
            reachable(all, guesses) && open_ended(all, guesses) implies is_key(entries, guesses) by {
            lemma_every_branch_entered(all, entries, first_best_guess, guesses);
        }
    }
    Some(DecisionTree { roots, decisions })
}

} // verus!
