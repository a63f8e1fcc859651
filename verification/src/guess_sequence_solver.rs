//! Guess sequences without a tree: which runs of constraints, one per card,
//! single out a solution soonest when all of them are verified or all of them
//! are refuted.

use crate::adaptors::{
    arrangements, combinations, contents, distinct, factorial, holdable, join, joined,
    multi_cartesian_product, offers, orderings, permutations, same_identities, seen, texts,
    unique_by,
};
use crate::guess_sequence::solver::{contains_id, holds_constraint, relevant, relevant_constraints};
use crate::scenario::constraint::Constraint;
use crate::solver::{
    count_combinations, group_by_card, group_constraints, views, ConstraintGroup, Solution,
    SolutionView,
};
use crate::text::{decimal, push_decimal};
use vstd::prelude::*;
use vstd::string::*;

verus! {

/// Whether the solution holds every constraint of the sequence.
pub open spec fn holds_all(solution: SolutionView, sequence: Seq<Constraint>) -> bool {
    forall|i: int|
        0 <= i < sequence.len() ==> contains_id(solution.constraints, (#[trigger] sequence[i]).id)
}

/// Whether the solution holds no constraint of the sequence.
pub open spec fn holds_none(solution: SolutionView, sequence: Seq<Constraint>) -> bool {
    forall|i: int|
        0 <= i < sequence.len() ==> !contains_id(solution.constraints, (#[trigger] sequence[i]).id)
}

/// How many of the solutions hold every constraint of the sequence.
pub open spec fn holding_all(solutions: Seq<SolutionView>, sequence: Seq<Constraint>) -> nat
    decreases solutions.len(),
{
    if solutions.len() == 0 {
        0
    } else {
        holding_all(solutions.drop_last(), sequence) + (if holds_all(solutions.last(), sequence) {
            1nat
        } else {
            0nat
        })
    }
}

/// How many of the solutions hold no constraint of the sequence.
pub open spec fn holding_none(solutions: Seq<SolutionView>, sequence: Seq<Constraint>) -> nat
    decreases solutions.len(),
{
    if solutions.len() == 0 {
        0
    } else {
        holding_none(solutions.drop_last(), sequence) + (if holds_none(solutions.last(), sequence) {
            1nat
        } else {
            0nat
        })
    }
}

/// Whether the sequence singles out a solution: exactly one solution holds
/// all of its constraints, or exactly one holds none of them.
pub open spec fn converges(sequence: Seq<Constraint>, solutions: Seq<SolutionView>) -> bool {
    holding_all(solutions, sequence) == 1 || holding_none(solutions, sequence) == 1
}

/// The shortest beginning of the sequence, of `end` constraints or more, that
/// singles out a solution.
pub open spec fn converging_from(
    sequence: Seq<Constraint>,
    solutions: Seq<SolutionView>,
    end: int,
) -> Option<Seq<Constraint>>
    decreases sequence.len() + 1 - end,
{
    if end > sequence.len() {
        None
    } else if converges(sequence.take(end), solutions) {
        Some(sequence.take(end))
    } else {
        converging_from(sequence, solutions, end + 1)
    }
}

/// The shortest beginning of the sequence, of at least one constraint, that
/// singles out a solution.
pub open spec fn shortest_converging(sequence: Seq<Constraint>, solutions: Seq<SolutionView>) -> Option<
    Seq<Constraint>,
> {
    converging_from(sequence, solutions, 1)
}

/// The candidates: for each order of the groups, every way to take one
/// constraint per group, each way once.
pub open spec fn candidates_of(orders: Seq<Seq<Seq<Constraint>>>) -> Seq<Seq<Constraint>>
    decreases orders.len(),
{
    if orders.len() == 0 {
        Seq::empty()
    } else {
        candidates_of(orders.drop_last()) + distinct(combinations(orders.last()))
    }
}

/// The shortest converging beginning of each candidate that has one, in the
/// order of the candidates.
pub open spec fn converging_of(candidates: Seq<Seq<Constraint>>, solutions: Seq<SolutionView>) -> Seq<
    Seq<Constraint>,
>
    decreases candidates.len(),
{
    if candidates.len() == 0 {
        Seq::empty()
    } else {
        let earlier = converging_of(candidates.drop_last(), solutions);
        match shortest_converging(candidates.last(), solutions) {
            Some(beginning) => earlier.push(beginning),
            None => earlier,
        }
    }
}

/// Whether none of the sequences is shorter than `sequence`.
pub open spec fn is_shortest(sequences: Seq<Seq<Constraint>>, sequence: Seq<Constraint>) -> bool {
    forall|i: int| 0 <= i < sequences.len() ==> sequence.len() <= (#[trigger] sequences[i]).len()
}

/// Those of the first `n` sequences that are as short as the shortest of all,
/// in their order.
pub open spec fn shortest_of(sequences: Seq<Seq<Constraint>>, n: int) -> Seq<Seq<Constraint>>
    decreases n,
{
    if n <= 0 {
        Seq::empty()
    } else {
        let earlier = shortest_of(sequences, n - 1);
        if is_shortest(sequences, sequences[n - 1]) {
            earlier.push(sequences[n - 1])
        } else {
            earlier
        }
    }
}

/// The best guess sequences among the runs that the given orders of the
/// groups allow: of every run of one constraint per group, in each of the
/// orders, the shortest beginning that singles out a solution is taken; each
/// such beginning counts once, and the shortest of them are the best.
pub open spec fn best_among(orders: Seq<Seq<Seq<Constraint>>>, solutions: Seq<SolutionView>) -> Seq<
    Seq<Constraint>,
> {
    let converging = distinct(converging_of(candidates_of(orders), solutions));
    shortest_of(converging, converging.len() as int)
}

/// The best guess sequences for the solutions: the constraints of the
/// solutions are grouped by card, and the groups are taken in every order.
pub open spec fn best_sequences(solutions: Seq<SolutionView>) -> Seq<Seq<Constraint>> {
    best_among(arrangements(group_by_card(relevant(solutions))), solutions)
}

/// Whether the candidates can be enumerated: the orders of the groups and
/// the ways to take one constraint per group can each be held at once.
pub open spec fn enumerable(solutions: Seq<SolutionView>) -> bool {
    let groups = group_by_card(relevant(solutions));
    holdable(factorial(groups.len())) && holdable(combinations(groups).len())
}

/// The sequence as text: each constraint as `(card,idx)`, with spaces between
/// them.
pub open spec fn sequence_text(sequence: Seq<Constraint>) -> Seq<char> {
    joined(
        Seq::new(
            sequence.len(),
            |i: int|
                "("@ + decimal(sequence[i].id.card as nat) + ","@ + decimal(
                    sequence[i].id.idx as nat,
                ) + ")"@,
        ),
        " "@,
    )
}

/// How many of the solutions hold every constraint among the first `end` of
/// the sequence, and how many hold none of them.
fn count_holders(sequence: &Vec<Constraint>, end: usize, solutions: &Vec<Solution>) -> (counts: (
    usize,
    usize,
))
    requires
        end <= sequence@.len(),
    ensures
        counts.0 == holding_all(views(solutions@), sequence@.take(end as int)),
        counts.1 == holding_none(views(solutions@), sequence@.take(end as int)),
{
    let ghost all = views(solutions@);
    let ghost beginning = sequence@.take(end as int);
    let mut with_all: usize = 0;
    let mut with_none: usize = 0;
    let mut k: usize = 0;
    while k < solutions.len()
        invariant
            0 <= k <= solutions@.len(),
            end <= sequence@.len(),
            all == views(solutions@),
            beginning == sequence@.take(end as int),
            with_all == holding_all(all.take(k as int), beginning),
            with_none == holding_none(all.take(k as int), beginning),
            with_all <= k,
            with_none <= k,
        decreases solutions@.len() - k,
    {
        assert(all.take(k as int + 1).drop_last() =~= all.take(k as int));
        let solution = &solutions[k];
        let mut every = true;
        let mut none = true;
        let mut i: usize = 0;
        while i < end
            invariant
                0 <= i <= end <= sequence@.len(),
                beginning == sequence@.take(end as int),
                every == (forall|j: int|
                    0 <= j < i ==> contains_id(solution@.constraints, (#[trigger] beginning[j]).id)),
                none == (forall|j: int|
                    0 <= j < i ==> !contains_id(solution@.constraints, (#[trigger] beginning[j]).id)),
            decreases end - i,
        {
            assert(beginning[i as int] == sequence@[i as int]);
            if holds_constraint(solution, &sequence[i]) {
                none = false;
            } else {
                every = false;
            }
            i = i + 1;
        }
        if every {
            with_all = with_all + 1;
        }
        if none {
            with_none = with_none + 1;
        }
        k = k + 1;
    }
    assert(all.take(all.len() as int) =~= all);
    (with_all, with_none)
}

/// The shortest beginning of the sequence, of at least one constraint, that
/// singles out a solution: exactly one solution holds all of its constraints,
/// or exactly one holds none of them. `None` where no beginning does.
pub fn shortest_converging_guess_sequence(sequence: &Vec<Constraint>, solutions: &Vec<Solution>) -> (beginning:
    Option<Vec<Constraint>>)
    ensures
        match beginning {
            Some(found) => shortest_converging(sequence@, views(solutions@)) == Some(found@),
            None => shortest_converging(sequence@, views(solutions@)) is None,
        },
{
    let mut shorter: usize = 0;
    while shorter < sequence.len()
        invariant
            0 <= shorter <= sequence@.len(),
            shortest_converging(sequence@, views(solutions@)) == converging_from(
                sequence@,
                views(solutions@),
                shorter + 1,
            ),
        decreases sequence@.len() - shorter,
    {
        let end = shorter + 1;
        let counts = count_holders(sequence, end, solutions);
        if counts.0 == 1 || counts.1 == 1 {
            let mut found: Vec<Constraint> = Vec::new();
            let mut i: usize = 0;
            while i < end
                invariant
                    0 <= i <= end <= sequence@.len(),
                    found@ == sequence@.take(i as int),
                decreases end - i,
            {
                found.push(sequence[i]);
                i = i + 1;
            }
            return Some(found);
        }
        shorter = end;
    }
    None
}

/// Among the sequences that stay, no two name the same constraints, and each
/// sequence that was there is named by one that stays.
pub proof fn lemma_distinct(sequences: Seq<Seq<Constraint>>)
    ensures
        forall|i: int, j: int|
            0 <= i < j < distinct(sequences).len() ==> !same_identities(
                #[trigger] distinct(sequences)[i],
                #[trigger] distinct(sequences)[j],
            ),
        forall|i: int| 0 <= i < sequences.len() ==> seen(distinct(sequences), #[trigger] sequences[i]),
    decreases sequences.len(),
{
    if sequences.len() > 0 {
        let shorter = sequences.drop_last();
        lemma_distinct(shorter);
        let earlier = distinct(shorter);
        let kept = distinct(sequences);
        assert forall|i: int| 0 <= i < sequences.len() implies seen(kept, #[trigger] sequences[i]) by {
            if i < shorter.len() {
                assert(seen(earlier, shorter[i]));
                let at = choose|at: int|
                    0 <= at < earlier.len() && same_identities(#[trigger] earlier[at], shorter[i]);
                assert(same_identities(kept[at], sequences[i]));
            } else if seen(earlier, sequences.last()) {
                let at = choose|at: int|
                    0 <= at < earlier.len() && same_identities(
                        #[trigger] earlier[at],
                        sequences.last(),
                    );
                assert(same_identities(kept[at], sequences[i]));
            } else {
                assert(same_identities(kept[kept.len() - 1], sequences[i]));
            }
        }
    }
}

/// Each of the best sequences is as short as any converging sequence.
pub proof fn lemma_shortest_of(sequences: Seq<Seq<Constraint>>, n: int)
    requires
        0 <= n <= sequences.len(),
    ensures
        forall|i: int|
            0 <= i < shortest_of(sequences, n).len() ==> is_shortest(
                sequences,
                #[trigger] shortest_of(sequences, n)[i],
            ),
    decreases n,
{
    if n > 0 {
        lemma_shortest_of(sequences, n - 1);
        let earlier = shortest_of(sequences, n - 1);
        let kept = shortest_of(sequences, n);
        assert forall|i: int| 0 <= i < kept.len() implies is_shortest(
            sequences,
            #[trigger] kept[i],
        ) by {
            if i < earlier.len() {
                assert(kept[i] == earlier[i]);
            }
        }
    }
}

/// The number of combinations is the product of the sizes of the groups.
pub open spec fn sizes_multiplied(groups: Seq<Seq<Constraint>>) -> nat {
    groups.fold_left(1nat, |product: nat, group: Seq<Constraint>| product * group.len())
}

/// There are as many combinations as the sizes of the groups multiply to.
proof fn lemma_combinations_multiply(groups: Seq<Seq<Constraint>>)
    ensures
        combinations(groups).len() == sizes_multiplied(groups),
    decreases groups.len(),
{
    if groups.len() > 0 {
        lemma_combinations_multiply(groups.drop_last());
    }
}

/// In whatever order the groups stand, they give as many combinations.
proof fn lemma_order_keeps_count(groups: Seq<Seq<Constraint>>, order: Seq<Seq<Constraint>>)
    requires
        order.to_multiset() == groups.to_multiset(),
    ensures
        combinations(order).len() == combinations(groups).len(),
{
    let times = |product: nat, group: Seq<Constraint>| product * group.len();
    assert(vstd::seq_lib::commutative_foldl(times)) by {
        assert forall|x: Seq<Constraint>, y: Seq<Constraint>, v: nat| #[trigger]
            times(times(v, x), y) == times(times(v, y), x) by {
            assert((v * x.len()) * y.len() == (v * y.len()) * x.len()) by (nonlinear_arith);
        }
    }
    vstd::seq_lib::lemma_fold_left_permutation(order, groups, times, 1nat);
    lemma_combinations_multiply(order);
    lemma_combinations_multiply(groups);
}

/// The best guess sequences for the solutions: the constraints of the
/// solutions are grouped by card, the groups are taken in every order, and
/// the best sequences among the runs of these orders are returned.
pub fn guess_sequences(solutions: &Vec<Solution>) -> (best: Vec<Vec<Constraint>>)
    requires
        enumerable(views(solutions@)),
    ensures
        contents(best@) == best_sequences(views(solutions@)),
{
    let relevant_constraints = relevant_constraints(solutions);
    let constraints_by_card = group_constraints(&relevant_constraints);
    let orders = permutations(&constraints_by_card);
    proof {
        let groups = offers(constraints_by_card@);
        assert forall|i: int| 0 <= i < orders@.len() implies holdable(
            combinations(#[trigger] orderings(orders@)[i]).len(),
        ) by {
            lemma_order_keeps_count(groups, orderings(orders@)[i]);
        }
    }
    guess_sequences_among(&orders, solutions)
}

/// The best guess sequences among the runs that the given orders of the
/// groups allow: of every run of one constraint per group, in each of the
/// orders, the shortest beginning that singles out a solution is taken, and
/// the shortest of these beginnings are returned, each once.
pub fn guess_sequences_among(orders: &Vec<Vec<ConstraintGroup>>, solutions: &Vec<Solution>) -> (best:
    Vec<Vec<Constraint>>)
    requires
        forall|i: int|
            0 <= i < orders@.len() ==> holdable(
                combinations(#[trigger] orderings(orders@)[i]).len(),
            ),
    ensures
        contents(best@) == best_among(orderings(orders@), views(solutions@)),
{
    let ghost all = views(solutions@);
    let ghost arranged = orderings(orders@);
    let mut guess_sequences: Vec<Vec<Constraint>> = Vec::new();
    let mut k: usize = 0;
    while k < orders.len()
        invariant
            0 <= k <= orders@.len(),
            arranged == orderings(orders@),
            forall|i: int|
                0 <= i < orders@.len() ==> holdable(combinations(#[trigger] arranged[i]).len()),
            contents(guess_sequences@) == candidates_of(arranged.take(k as int)),
        decreases orders@.len() - k,
    {
        assert(arranged.take(k as int + 1).drop_last() =~= arranged.take(k as int));
        assert(arranged.take(k as int + 1).last() == arranged[k as int]);
        let picks = multi_cartesian_product(&orders[k]);
        let mut fresh = unique_by(&picks);
        guess_sequences.append(&mut fresh);
        k = k + 1;
    }
    assert(arranged.take(arranged.len() as int) =~= arranged);
    let ghost candidates = contents(guess_sequences@);
    let mut converging: Vec<Vec<Constraint>> = Vec::new();
    let mut k: usize = 0;
    while k < guess_sequences.len()
        invariant
            0 <= k <= guess_sequences@.len(),
            all == views(solutions@),
            candidates == contents(guess_sequences@),
            contents(converging@) == converging_of(candidates.take(k as int), all),
        decreases guess_sequences@.len() - k,
    {
        assert(candidates.take(k as int + 1).drop_last() =~= candidates.take(k as int));
        match shortest_converging_guess_sequence(&guess_sequences[k], solutions) {
            Some(beginning) => {
                converging.push(beginning);
            },
            None => {},
        }
        k = k + 1;
    }
    assert(candidates.take(candidates.len() as int) =~= candidates);
    let converging_guess_sequences = unique_by(&converging);
    let ghost kinds = contents(converging_guess_sequences@);
    let mut min_sequence_length: Option<usize> = None;
    let mut k: usize = 0;
    while k < converging_guess_sequences.len()
        invariant
            0 <= k <= converging_guess_sequences@.len(),
            kinds == contents(converging_guess_sequences@),
            match min_sequence_length {
                Some(least) => (forall|i: int| 0 <= i < k ==> least <= (#[trigger] kinds[i]).len())
                    && exists|i: int| 0 <= i < k && (#[trigger] kinds[i]).len() == least,
                None => k == 0,
            },
        decreases converging_guess_sequences@.len() - k,
    {
        let length = converging_guess_sequences[k].len();
        assert(kinds[k as int].len() == length);
        match min_sequence_length {
            Some(least) => {
                if length < least {
                    min_sequence_length = Some(length);
                }
            },
            None => {
                min_sequence_length = Some(length);
            },
        }
        k = k + 1;
    }
    let mut best: Vec<Vec<Constraint>> = Vec::new();
    let mut k: usize = 0;
    while k < converging_guess_sequences.len()
        invariant
            0 <= k <= converging_guess_sequences@.len(),
            kinds == contents(converging_guess_sequences@),
            match min_sequence_length {
                Some(least) => (forall|i: int|
                    0 <= i < kinds.len() ==> least <= (#[trigger] kinds[i]).len()) && exists|i: int|
                    0 <= i < kinds.len() && (#[trigger] kinds[i]).len() == least,
                None => kinds.len() == 0,
            },
            contents(best@) == shortest_of(kinds, k as int),
        decreases converging_guess_sequences@.len() - k,
    {
        let sequence = &converging_guess_sequences[k];
        let least = match min_sequence_length {
            Some(least) => least,
            None => 1,
        };
        if sequence.len() == least {
            let mut copy: Vec<Constraint> = Vec::new();
            let mut i: usize = 0;
            while i < sequence.len()
                invariant
                    0 <= i <= sequence@.len(),
                    copy@ == sequence@.take(i as int),
                decreases sequence@.len() - i,
            {
                copy.push(sequence[i]);
                i = i + 1;
            }
            assert(copy@ =~= sequence@);
            best.push(copy);
        }
        k = k + 1;
    }
    best
}

/// Whether the candidates for the best guess sequences can be enumerated.
pub fn can_enumerate(solutions: &Vec<Solution>) -> (possible: bool)
    ensures
        possible == enumerable(views(solutions@)),
{
    let relevant_constraints = relevant_constraints(solutions);
    if count_combinations(&relevant_constraints).is_none() {
        return false;
    }
    let groups = group_constraints(&relevant_constraints);
    let ghost count = groups@.len() as nat;
    let limit: usize = (isize::MAX as usize) / 64;
    let mut orders: usize = 1;
    let mut n: usize = 0;
    while n < groups.len()
        invariant
            0 <= n <= groups@.len() == count,
            count == group_by_card(relevant(views(solutions@))).len(),
            holdable(combinations(group_by_card(relevant(views(solutions@)))).len()),
            limit == isize::MAX / 64,
            orders == factorial(n as nat),
            orders <= limit,
        decreases groups@.len() - n,
    {
        n = n + 1;
        proof {
            assert(n * orders == orders * n) by (nonlinear_arith);
            lemma_factorial_grows(n as nat, count);
        }
        match orders.checked_mul(n) {
            Some(more) => {
                if more > limit {
                    return false;
                }
                orders = more;
            },
            None => {
                return false;
            },
        }
    }
    true
}

/// The best guess sequences for any solutions: as [`guess_sequences`], and
/// `None` where the candidates cannot be enumerated.
pub fn try_guess_sequences(solutions: &Vec<Solution>) -> (best: Option<Vec<Vec<Constraint>>>)
    ensures
        match best {
            Some(found) => enumerable(views(solutions@)) && contents(found@) == best_sequences(
                views(solutions@),
            ),
            None => !enumerable(views(solutions@)),
        },
{
    if can_enumerate(solutions) {
        Some(guess_sequences(solutions))
    } else {
        None
    }
}

/// More things stand in at least as many orders.
proof fn lemma_factorial_grows(fewer: nat, more: nat)
    requires
        fewer <= more,
    ensures
        1 <= factorial(fewer) <= factorial(more),
    decreases more,
{
    if more > 0 {
        if fewer < more {
            lemma_factorial_grows(fewer, (more - 1) as nat);
        } else {
            lemma_factorial_grows((fewer - 1) as nat, (more - 1) as nat);
        }
        let rest = factorial((more - 1) as nat);
        assert(rest <= more * rest) by (nonlinear_arith)
            requires
                more >= 1,
        ;
    }
}

/// The sequence as text: each constraint as `(card,idx)`, with spaces between
/// them.
pub fn sequence_to_string(sequence: &Vec<Constraint>) -> (text: String)
    ensures
        text@ == sequence_text(sequence@),
{
    let mut parts: Vec<String> = Vec::new();
    let mut i: usize = 0;
    while i < sequence.len()
        invariant
            0 <= i <= sequence@.len(),
            parts@.len() == i,
            forall|j: int|
                0 <= j < i ==> (#[trigger] parts@[j])@ == "("@ + decimal(
                    sequence@[j].id.card as nat,
                ) + ","@ + decimal(sequence@[j].id.idx as nat) + ")"@,
        decreases sequence@.len() - i,
    {
        let mut part = String::from_str("(");
        push_decimal(&mut part, sequence[i].id.card);
        part.append(",");
        push_decimal(&mut part, sequence[i].id.idx);
        part.append(")");
        parts.push(part);
        i = i + 1;
    }
    assert(texts(parts@) =~= Seq::new(
        sequence@.len(),
        |i: int|
            "("@ + decimal(sequence@[i].id.card as nat) + ","@ + decimal(
                sequence@[i].id.idx as nat,
            ) + ")"@,
    ));
    join(&parts, " ")
}

} // verus!
