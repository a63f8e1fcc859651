//! The constraint-satisfaction engine: which codes a selection of constraints
//! pins down.

use crate::adaptors::{
    combinations, contents, holdable, join, joined, multi_cartesian_product, offers, sorted_by,
    texts,
};
use crate::scenario::card::{is_card, lists, Card};
use crate::scenario::code::{lemma_code_at_index, lemma_index_of_code_at, Code, CODE_COUNT};
pub use crate::scenario::constraint::Constraint;
use crate::scenario::constraint::sorted_by_id;
use vstd::prelude::*;
use vstd::string::*;

verus! {

/// A code together with the constraints that single it out: no other code of
/// the domain satisfies all of them.
#[derive(Clone, Debug)]
pub struct Solution {
    pub code: Code,
    pub constraints: Vec<Constraint>,
}

/// The mathematical content of a [`Solution`].
pub struct SolutionView {
    pub code: Code,
    pub constraints: Seq<Constraint>,
}

impl View for Solution {
    type V = SolutionView;

    open spec fn view(&self) -> SolutionView {
        SolutionView { code: self.code, constraints: self.constraints@ }
    }
}

/// The texts of the constraints, in their order.
pub open spec fn constraint_texts(constraints: Seq<Constraint>) -> Seq<Seq<char>> {
    Seq::new(constraints.len(), |i: int| constraints[i].text())
}

impl SolutionView {
    /// What makes a code and its constraints a solution: the code is the one
    /// code of the domain that satisfies all the constraints.
    pub open spec fn well_formed(self) -> bool {
        identifies(self.constraints, self.code)
    }

    /// The solution as text: the code in brackets, then its constraints in the
    /// canonical order of their identities.
    pub open spec fn text(self) -> Seq<char> {
        "("@ + self.code.text() + ") with "@ + joined(
            constraint_texts(sorted_by_id(self.constraints)),
            "; "@,
        )
    }
}

impl Solution {
    /// The solution as text: the code in brackets, then its constraints in the
    /// canonical order of their identities, separated by semicolons.
    pub fn to_string(&self) -> (s: String)
        ensures
            s@ == self@.text(),
    {
        let sorted = sorted_by(&self.constraints);
        let mut parts: Vec<String> = Vec::new();
        let mut i: usize = 0;
        while i < sorted.len()
            invariant
                0 <= i <= sorted@.len(),
                parts@.len() == i,
                texts(parts@) == constraint_texts(sorted@.take(i as int)),
            decreases sorted@.len() - i,
        {
            let ghost before = parts@;
            parts.push(sorted[i].to_string());
            assert forall|j: int| 0 <= j < i + 1 implies #[trigger] texts(parts@)[j]
                == constraint_texts(sorted@.take(i as int + 1))[j] by {
                if j < i {
                    assert(texts(before)[j] == constraint_texts(sorted@.take(i as int))[j]);
                }
            }
            i = i + 1;
        }
        assert(sorted@.take(sorted@.len() as int) =~= sorted@);
        let listed = join(&parts, "; ");
        let mut s = String::from_str("(");
        s.append(self.code.to_string().as_str());
        s.append(") with ");
        s.append(listed.as_str());
        s
    }
}

/// The contents of a list of solutions, or of references to solutions.
pub open spec fn views<T: View<V = SolutionView>>(solutions: Seq<T>) -> Seq<SolutionView> {
    Seq::new(solutions.len(), |i: int| solutions[i]@)
}

/// The constraints of one card among the selected ones: alternatives of which
/// a combination takes exactly one.
#[derive(Clone, Debug)]
pub struct ConstraintGroup {
    pub constraints: Vec<Constraint>,
}

/// Whether every constraint of `combination` is true of `code`.
pub open spec fn satisfies(code: Code, combination: Seq<Constraint>) -> bool {
    forall|i: int| 0 <= i < combination.len() ==> (#[trigger] combination[i]).holds(code)
}

/// Whether `code` is the one code of the domain that satisfies `combination`.
pub open spec fn identifies(combination: Seq<Constraint>, code: Code) -> bool {
    &&& code.valid()
    &&& satisfies(code, combination)
    &&& forall|other: Code|
        other.valid() && #[trigger] satisfies(other, combination) ==> other == code
}

/// Whether exactly one code of the domain satisfies `combination`.
pub open spec fn decisive(combination: Seq<Constraint>) -> bool {
    exists|code: Code| identifies(combination, code)
}

/// The code that a decisive combination singles out.
pub open spec fn identified(combination: Seq<Constraint>) -> Code {
    choose|code: Code| identifies(combination, code)
}

/// Place of the group that collects the constraints of `card`, if there is one
/// yet.
pub open spec fn group_of(groups: Seq<Seq<Constraint>>, card: u8) -> Option<int>
    decreases groups.len(),
{
    if groups.len() == 0 {
        None
    } else {
        match group_of(groups.drop_last(), card) {
            Some(i) => Some(i),
            None => if groups.last().len() > 0 && groups.last()[0].id.card == card {
                Some(groups.len() - 1)
            } else {
                None
            },
        }
    }
}

/// The groups after `constraint` has joined the group of its card, or opened a
/// new last group where its card had none.
pub open spec fn grouped_with(groups: Seq<Seq<Constraint>>, constraint: Constraint) -> Seq<
    Seq<Constraint>,
> {
    match group_of(groups, constraint.id.card) {
        Some(i) => groups.update(i, groups[i].push(constraint)),
        None => groups.push(seq![constraint]),
    }
}

/// The constraints sorted into one group per card. Groups stand in the order
/// in which their cards first occur, and each group keeps the order of the
/// input.
pub open spec fn group_by_card(constraints: Seq<Constraint>) -> Seq<Seq<Constraint>>
    decreases constraints.len(),
{
    if constraints.len() == 0 {
        Seq::empty()
    } else {
        grouped_with(group_by_card(constraints.drop_last()), constraints.last())
    }
}

/// The solutions that the combinations yield, in the order of the
/// combinations: one for each decisive combination, none for the others.
pub open spec fn solutions_of(combos: Seq<Seq<Constraint>>) -> Seq<SolutionView>
    decreases combos.len(),
{
    if combos.len() == 0 {
        Seq::empty()
    } else {
        let earlier = solutions_of(combos.drop_last());
        if decisive(combos.last()) {
            earlier.push(SolutionView { code: identified(combos.last()), constraints: combos.last() })
        } else {
            earlier
        }
    }
}

/// The solutions of a selection of constraints: those of every way to take
/// one constraint per card.
pub open spec fn solve(constraints: Seq<Constraint>) -> Seq<SolutionView> {
    solutions_of(combinations(group_by_card(constraints)))
}

/// The constraints of card `card_num` of the catalog, `None` for a number that
/// names no card.
pub fn constraints_for_card(card_num: u8) -> (constraints: Option<Vec<Constraint>>)
    ensures
        match constraints {
            Some(listed) => is_card(card_num) && lists(listed@, card_num),
            None => !is_card(card_num),
        },
{
    match Card::try_from(card_num) {
        Ok(card) => Some(card.constraints),
        Err(_) => None,
    }
}

/// Whether every constraint of `combination` is true of `code`.
pub fn satisfied_by(combination: &Vec<Constraint>, code: &Code) -> (all: bool)
    ensures
        all == satisfies(*code, combination@),
{
    let mut i: usize = 0;
    while i < combination.len()
        invariant
            0 <= i <= combination@.len(),
            forall|j: int| 0 <= j < i ==> (#[trigger] combination@[j]).holds(*code),
        decreases combination@.len() - i,
    {
        if !combination[i].verifies(code) {
            return false;
        }
        i = i + 1;
    }
    true
}

/// The codes of the domain that satisfy `combination`, in the order of the
/// enumeration.
pub fn possible_codes(combination: &Vec<Constraint>) -> (possible: Vec<Code>)
    ensures
        forall|code: Code|
            #![trigger possible@.contains(code)]
            possible@.contains(code) <==> code.valid() && satisfies(code, combination@),
        forall|i: int, j: int|
            0 <= i < j < possible@.len() ==> (#[trigger] possible@[i]).index() < (
            #[trigger] possible@[j]).index(),
        possible@.no_duplicates(),
{
    let codes = Code::all();
    let mut possible: Vec<Code> = Vec::new();
    let mut k: usize = 0;
    while k < codes.len()
        invariant
            0 <= k <= codes@.len() == CODE_COUNT,
            forall|i: int| 0 <= i < CODE_COUNT ==> codes@[i] == Code::at(i),
            forall|j: int|
                0 <= j < possible@.len() ==> (#[trigger] possible@[j]).valid() && satisfies(
                    possible@[j],
                    combination@,
                ) && possible@[j].index() < k,
            forall|i: int|
                0 <= i < k && satisfies(Code::at(i), combination@) ==> possible@.contains(
                    #[trigger] Code::at(i),
                ),
            forall|i: int, j: int|
                0 <= i < j < possible@.len() ==> (#[trigger] possible@[i]).index() < (
                #[trigger] possible@[j]).index(),
            possible@.no_duplicates(),
        decreases codes@.len() - k,
    {
        let code = codes[k];
        proof {
            lemma_index_of_code_at(k as int);
        }
        if satisfied_by(combination, &code) {
            let ghost before = possible@;
            possible.push(code);
            assert forall|i: int|
                0 <= i < k + 1 && satisfies(Code::at(i), combination@) implies possible@.contains(
                #[trigger] Code::at(i),
            ) by {
                if i < k {
                    let j = choose|j: int| 0 <= j < before.len() && before[j] == Code::at(i);
                    assert(possible@[j] == Code::at(i));
                } else {
                    assert(possible@[before.len() as int] == Code::at(i));
                }
            }
        }
        k = k + 1;
    }
    assert forall|code: Code| #![trigger possible@.contains(code)]
        possible@.contains(code) <==> code.valid() && satisfies(code, combination@) by {
        if code.valid() && satisfies(code, combination@) {
            lemma_code_at_index(code);
        }
    }
    possible
}

/// Place of the group that collects the constraints of `card`.
fn find_group(groups: &Vec<ConstraintGroup>, card: u8) -> (place: Option<usize>)
    ensures
        match place {
            Some(i) => group_of(offers(groups@), card) == Some(i as int) && i < groups@.len(),
            None => group_of(offers(groups@), card) is None,
        },
{
    let ghost all = offers(groups@);
    let mut g: usize = 0;
    while g < groups.len()
        invariant
            0 <= g <= groups@.len(),
            all == offers(groups@),
            group_of(all.take(g as int), card) is None,
        decreases groups@.len() - g,
    {
        assert(all.take(g as int + 1).drop_last() =~= all.take(g as int));
        if groups[g].constraints.len() > 0 && groups[g].constraints[0].id.card == card {
            proof {
                lemma_group_of_prefix(all, g as int + 1, card);
            }
            return Some(g);
        }
        g = g + 1;
    }
    assert(all.take(all.len() as int) =~= all);
    None
}

/// Sorts the constraints into one group per card, in the order in which the
/// cards first occur.
pub fn group_constraints(constraints: &Vec<Constraint>) -> (groups: Vec<ConstraintGroup>)
    ensures
        offers(groups@) == group_by_card(constraints@),
{
    let mut groups: Vec<ConstraintGroup> = Vec::new();
    let mut k: usize = 0;
    while k < constraints.len()
        invariant
            0 <= k <= constraints@.len(),
            offers(groups@) == group_by_card(constraints@.take(k as int)),
        decreases constraints@.len() - k,
    {
        let constraint = constraints[k];
        let place = find_group(&groups, constraint.id.card);
        match place {
            Some(i) => {
                let mut group = groups.remove(i);
                group.constraints.push(constraint);
                groups.insert(i, group);
            },
            None => {
                let mut listed: Vec<Constraint> = Vec::new();
                listed.push(constraint);
                groups.push(ConstraintGroup { constraints: listed });
            },
        }
        assert(constraints@.take(k as int + 1).drop_last() =~= constraints@.take(k as int));
        k = k + 1;
    }
    assert(constraints@.take(constraints@.len() as int) =~= constraints@);
    groups
}

/// A group found among the first `n` groups is the group found among all.
proof fn lemma_group_of_prefix(groups: Seq<Seq<Constraint>>, n: int, card: u8)
    requires
        0 <= n <= groups.len(),
        group_of(groups.take(n), card) is Some,
    ensures
        group_of(groups, card) == group_of(groups.take(n), card),
    decreases groups.len() - n,
{
    if n < groups.len() {
        assert(groups.take(n + 1).drop_last() =~= groups.take(n));
        lemma_group_of_prefix(groups, n + 1, card);
    } else {
        assert(groups.take(n) =~= groups);
    }
}

/// Every way to take one constraint per card is tried against the whole
/// domain; each way that exactly one code satisfies yields a solution.
pub fn turing_solve(constraints: Vec<Constraint>) -> (solutions: Vec<Solution>)
    requires
        holdable(combinations(group_by_card(constraints@)).len()),
    ensures
        views(solutions@) == solve(constraints@),
        forall|i: int| 0 <= i < solutions@.len() ==> (#[trigger] solutions@[i])@.well_formed(),
        constraints@.len() == 0 ==> solutions@.len() == 0,
{
    let groups = group_constraints(&constraints);
    let combos = multi_cartesian_product(&groups);
    let mut solutions: Vec<Solution> = Vec::new();
    let mut k: usize = 0;
    while k < combos.len()
        invariant
            0 <= k <= combos@.len(),
            views(solutions@) == solutions_of(contents(combos@).take(k as int)),
            forall|i: int| 0 <= i < solutions@.len() ==> (#[trigger] solutions@[i])@.well_formed(),
        decreases combos@.len() - k,
    {
        let ghost combo = combos@[k as int]@;
        assert(contents(combos@).take(k as int + 1).drop_last() =~= contents(combos@).take(
            k as int,
        ));
        let possible = possible_codes(&combos[k]);
        if possible.len() == 1 {
            let code = possible[0];
            assert(possible@.contains(code));
            assert(identifies(combo, code)) by {
                assert forall|other: Code|
                    other.valid() && #[trigger] satisfies(other, combo) implies other == code by {
                    assert(possible@.contains(other));
                }
            }
            let mut picked: Vec<Constraint> = Vec::new();
            let mut j: usize = 0;
            while j < combos[k].len()
                invariant
                    0 <= k < combos@.len(),
                    0 <= j <= combos@[k as int]@.len(),
                    picked@ == combos@[k as int]@.take(j as int),
                decreases combos@[k as int]@.len() - j,
            {
                picked.push(combos[k][j]);
                j = j + 1;
            }
            assert(picked@ =~= combo);
            solutions.push(Solution { code, constraints: picked });
        } else {
            assert(!decisive(combo)) by {
                if decisive(combo) {
                    let code = identified(combo);
                    assert(possible@.contains(code));
                    if possible@.len() >= 2 {
                        assert(possible@.contains(possible@[0]));
                        assert(possible@.contains(possible@[1]));
                        assert(possible@[0] != possible@[1]);
                    }
                }
            }
        }
        k = k + 1;
    }
    assert(contents(combos@).take(combos@.len() as int) =~= contents(combos@));
    proof {
        if constraints@.len() == 0 {
            lemma_nothing_selected(constraints@);
        }
    }
    solutions
}

/// Every combination takes one constraint from each group, in the order of
/// the groups.
pub proof fn lemma_combinations_pick_one_per_group(groups: Seq<Seq<Constraint>>, k: int)
    requires
        0 <= k < combinations(groups).len(),
    ensures
        combinations(groups)[k].len() == groups.len(),
        forall|i: int|
            0 <= i < groups.len() ==> (#[trigger] groups[i]).contains(combinations(groups)[k][i]),
    decreases groups.len(),
{
    if groups.len() > 0 {
        let heads = combinations(groups.drop_last());
        let last = groups.last();
        let width = last.len() as int;
        assert(width > 0 && 0 <= k / width < heads.len() && 0 <= k % width < width) by (nonlinear_arith)
            requires
                0 <= k < heads.len() * width,
                width >= 0,
        ;
        lemma_combinations_pick_one_per_group(groups.drop_last(), k / width);
        let combination = combinations(groups)[k];
        assert forall|i: int| 0 <= i < groups.len() implies (#[trigger] groups[i]).contains(
            combination[i],
        ) by {
            if i < groups.len() - 1 {
                assert(groups.drop_last()[i] == groups[i]);
                assert(combination[i] == heads[k / width][i]);
            } else {
                assert(combination[i] == last[k % width]);
            }
        }
    }
}

/// With no constraint selected every code of the domain is possible, so
/// nothing is singled out: the selection has no solution.
pub proof fn lemma_nothing_selected(constraints: Seq<Constraint>)
    requires
        constraints.len() == 0,
    ensures
        solve(constraints) == Seq::<SolutionView>::empty(),
{
    let none = Seq::<Constraint>::empty();
    let first = Code { blue: 1, yellow: 1, purple: 1 };
    let second = Code { blue: 1, yellow: 1, purple: 2 };
    assert(!decisive(none)) by {
        if decisive(none) {
            assert(satisfies(first, none));
            assert(satisfies(second, none));
            assert(first.valid() && second.valid());
        }
    }
    reveal_with_fuel(solutions_of, 2);
}

/// Whatever `turing_solve` reports is singled out by its own constraints: no
/// other code of the domain satisfies them all.
pub proof fn lemma_solutions_are_unique(constraints: Seq<Constraint>, i: int, other: Code)
    requires
        0 <= i < solve(constraints).len(),
        other.valid(),
        satisfies(other, solve(constraints)[i].constraints),
    ensures
        other == solve(constraints)[i].code,
{
    lemma_solutions_identify(combinations(group_by_card(constraints)), i);
}

/// Each solution of a list of combinations is the one code of the domain that
/// satisfies its constraints.
pub proof fn lemma_solutions_identify(combos: Seq<Seq<Constraint>>, i: int)
    requires
        0 <= i < solutions_of(combos).len(),
    ensures
        solutions_of(combos)[i].well_formed(),
    decreases combos.len(),
{
    if combos.len() > 0 {
        let earlier = solutions_of(combos.drop_last());
        if i < earlier.len() {
            lemma_solutions_identify(combos.drop_last(), i);
        }
    }
}

/// Every group holds at least one constraint.
pub proof fn lemma_groups_are_inhabited(constraints: Seq<Constraint>)
    ensures
        forall|i: int|
            0 <= i < group_by_card(constraints).len() ==> (#[trigger] group_by_card(
                constraints,
            )[i]).len() > 0,
    decreases constraints.len(),
{
    if constraints.len() > 0 {
        lemma_groups_are_inhabited(constraints.drop_last());
        let earlier = group_by_card(constraints.drop_last());
        lemma_group_of(earlier, constraints.last().id.card);
    }
}

/// A group that is found stands among the groups.
proof fn lemma_group_of(groups: Seq<Seq<Constraint>>, card: u8)
    ensures
        group_of(groups, card) matches Some(i) ==> 0 <= i < groups.len(),
    decreases groups.len(),
{
    if groups.len() > 0 {
        lemma_group_of(groups.drop_last(), card);
    }
}

/// With no empty group among them, more groups never give fewer
/// combinations.
proof fn lemma_combinations_grow(groups: Seq<Seq<Constraint>>, n: int)
    requires
        0 <= n <= groups.len(),
        forall|i: int| 0 <= i < groups.len() ==> (#[trigger] groups[i]).len() > 0,
    ensures
        1 <= combinations(groups.take(n)).len() <= combinations(groups).len(),
    decreases groups.len() - n,
{
    if n < groups.len() {
        let longer = groups.take(n + 1);
        assert(longer.drop_last() =~= groups.take(n));
        lemma_combinations_grow(groups, n + 1);
        let heads = combinations(groups.take(n)).len();
        let width = groups[n].len();
        assert(heads <= heads * width) by (nonlinear_arith)
            requires
                width >= 1,
        ;
        lemma_first_combinations(groups, n);
    } else {
        assert(groups.take(n) =~= groups);
        lemma_first_combinations(groups, n);
    }
}

/// There is at least one combination where no group is empty.
proof fn lemma_first_combinations(groups: Seq<Seq<Constraint>>, n: int)
    requires
        0 <= n <= groups.len(),
        forall|i: int| 0 <= i < groups.len() ==> (#[trigger] groups[i]).len() > 0,
    ensures
        1 <= combinations(groups.take(n)).len(),
    decreases n,
{
    if n > 0 {
        let shorter = groups.take(n);
        assert(shorter.drop_last() =~= groups.take(n - 1));
        lemma_first_combinations(groups, n - 1);
        let heads = combinations(groups.take(n - 1)).len();
        let width = groups[n - 1].len();
        assert(1 <= heads * width) by (nonlinear_arith)
            requires
                heads >= 1,
                width >= 1,
        ;
    }
}

/// In how many ways one constraint per card can be taken from the selection;
/// `None` where they are more than can be held at once.
pub fn count_combinations(constraints: &Vec<Constraint>) -> (count: Option<usize>)
    ensures
        match count {
            Some(n) => n == combinations(group_by_card(constraints@)).len() && holdable(n as nat),
            None => !holdable(combinations(group_by_card(constraints@)).len()),
        },
{
    let groups = group_constraints(constraints);
    let ghost all = offers(groups@);
    proof {
        lemma_groups_are_inhabited(constraints@);
    }
    let mut count: usize = 1;
    let mut k: usize = 0;
    while k < groups.len()
        invariant
            0 <= k <= groups@.len(),
            all == offers(groups@),
            all == group_by_card(constraints@),
            forall|i: int| 0 <= i < all.len() ==> (#[trigger] all[i]).len() > 0,
            count == combinations(all.take(k as int)).len(),
        decreases groups@.len() - k,
    {
        let ghost longer = all.take(k as int + 1);
        assert(longer.drop_last() =~= all.take(k as int));
        match count.checked_mul(groups[k].constraints.len()) {
            Some(more) => {
                count = more;
            },
            None => {
                proof {
                    lemma_combinations_grow(all, k as int + 1);
                }
                return None;
            },
        }
        k = k + 1;
    }
    assert(all.take(all.len() as int) =~= all);
    if count <= (isize::MAX as usize) / 64 {
        Some(count)
    } else {
        None
    }
}

/// The solutions of any selection of constraints: as [`turing_solve`], and
/// `None` where the combinations are more than can be held at once.
pub fn try_turing_solve(constraints: Vec<Constraint>) -> (solutions: Option<Vec<Solution>>)
    ensures
        match solutions {
            Some(found) => holdable(combinations(group_by_card(constraints@)).len()) && views(
                found@,
            ) == solve(constraints@) && forall|i: int|
                0 <= i < found@.len() ==> (#[trigger] found@[i])@.well_formed(),
            None => !holdable(combinations(group_by_card(constraints@)).len()),
        },
{
    match count_combinations(&constraints) {
        Some(_) => Some(turing_solve(constraints)),
        None => None,
    }
}

} // verus!
