//! The iterator adaptors of `itertools` that the solver relies on, each behind
//! a contract that states what the adaptor yields.

use crate::scenario::constraint::{sorted_by_id, Constraint};
use crate::solver::ConstraintGroup;
use itertools::Itertools;
use vstd::prelude::*;

verus! {

/// All pairs of an element of `left` with an element of `right`, ordered by the
/// left element first: the right element changes fastest.
pub open spec fn cartesian_pairs<A, B>(left: Seq<A>, right: Seq<B>) -> Seq<(A, B)> {
    Seq::new(
        left.len() * right.len(),
        |k: int| (left[k / (right.len() as int)], right[k % (right.len() as int)]),
    )
}

/// Collects `Itertools::cartesian_product` of the first two vectors, and of
/// the result with the third. The contract is taken on trust from the
/// adaptor's documentation: every pair is yielded once, the right elements
/// cycling under each left element. The bound keeps the result small.
#[verifier::external_body]
pub(crate) fn cartesian_product(first: &Vec<u8>, second: &Vec<u8>, third: &Vec<u8>) -> (triples:
    Vec<((u8, u8), u8)>)
    requires
        first@.len() <= u8::MAX,
        second@.len() <= u8::MAX,
        third@.len() <= u8::MAX,
    ensures
        triples@ == cartesian_pairs(cartesian_pairs(first@, second@), third@),
{
    first.iter().copied().cartesian_product(second.iter().copied()).cartesian_product(
        third.iter().copied(),
    ).collect()
}

/// Collects `Itertools::tuple_windows` over three items: the two pairs of
/// neighbours, in order. Taken on trust from the adaptor's documentation.
#[verifier::external_body]
pub(crate) fn tuple_windows(items: [u8; 3]) -> (windows: Vec<(u8, u8)>)
    ensures
        windows@ == seq![(items@[0], items@[1]), (items@[1], items@[2])],
{
    items.into_iter().tuple_windows().collect()
}

/// Collects `Itertools::tuple_combinations` over three items: every pair of
/// two different places, the earlier place first, in lexicographic order of
/// the places. Taken on trust from the adaptor's documentation.
#[verifier::external_body]
#[allow(deprecated)]
pub(crate) fn tuple_combinations(items: [u8; 3]) -> (pairs: Vec<(u8, u8)>)
    ensures
        pairs@ == seq![(items@[0], items@[1]), (items@[0], items@[2]), (items@[1], items@[2])],
{
    items.into_iter().tuple_combinations().collect()
}

/// Whether a vector of `n` vectors can be collected: the largest allocation
/// holds `isize::MAX` bytes, and 64 bytes are reckoned for each entry, which
/// leaves room for the vector to grow while it is filled.
pub open spec fn holdable(n: nat) -> bool {
    n * 64 <= isize::MAX
}

/// What each group offers, as plain sequences.
pub open spec fn offers(groups: Seq<ConstraintGroup>) -> Seq<Seq<Constraint>> {
    Seq::new(groups.len(), |i: int| groups[i].constraints@)
}

/// Every way to pick one element from each group, as the sequence of the
/// picks in the order of the groups. The ways are ordered lexicographically by
/// the places of the picks: the pick from the last group changes fastest. With
/// no group there is one way, the empty one; with an empty group there is none.
pub open spec fn combinations<T>(groups: Seq<Seq<T>>) -> Seq<Seq<T>>
    decreases groups.len(),
{
    if groups.len() == 0 {
        seq![Seq::empty()]
    } else {
        let heads = combinations(groups.drop_last());
        let last = groups.last();
        Seq::new(
            heads.len() * last.len(),
            |k: int| heads[k / (last.len() as int)].push(last[k % (last.len() as int)]),
        )
    }
}

/// What each vector holds, as plain sequences.
pub open spec fn contents<T>(rows: Seq<Vec<T>>) -> Seq<Seq<T>> {
    Seq::new(rows.len(), |i: int| rows[i]@)
}

/// Collects `Itertools::multi_cartesian_product` over the groups' constraints.
/// The contract is taken on trust from the adaptor's documentation and
/// source: one vector for every way to pick one constraint per group, the
/// rightmost pick advancing first, and a single empty vector for no groups.
/// The whole product is collected, so it has to be holdable.
#[verifier::external_body]
pub(crate) fn multi_cartesian_product(groups: &Vec<ConstraintGroup>) -> (picks: Vec<
    Vec<Constraint>,
>)
    requires
        holdable(combinations(offers(groups@)).len()),
    ensures
        contents(picks@) == combinations(offers(groups@)),
{
    groups.iter().map(|group| group.constraints.iter().copied()).multi_cartesian_product().collect()
}

/// Collects `Itertools::sorted_by` over the constraints, compared by their
/// identities. Taken on trust from the adaptor's documentation: the result is
/// the input in ascending order, and the sort is stable.
#[verifier::external_body]
pub(crate) fn sorted_by(constraints: &Vec<Constraint>) -> (sorted: Vec<Constraint>)
    ensures
        sorted@ == sorted_by_id(constraints@),
{
    constraints.iter().copied().sorted_by(|a, b| a.id.compare(&b.id)).collect()
}

/// What each string holds, as plain sequences.
pub open spec fn texts(parts: Seq<String>) -> Seq<Seq<char>> {
    Seq::new(parts.len(), |i: int| parts[i]@)
}

/// The parts one after the other, with `sep` between each two neighbours.
pub open spec fn joined(parts: Seq<Seq<char>>, sep: Seq<char>) -> Seq<char>
    decreases parts.len(),
{
    if parts.len() == 0 {
        Seq::empty()
    } else if parts.len() == 1 {
        parts[0]
    } else {
        joined(parts.drop_last(), sep) + sep + parts.last()
    }
}

/// Calls `Itertools::join` on the strings. Taken on trust from the adaptor's
/// documentation and source: the elements in order, `sep` between them, and
/// the empty string for no elements.
#[verifier::external_body]
pub(crate) fn join(parts: &Vec<String>, sep: &str) -> (text: String)
    ensures
        text@ == joined(texts(parts@), sep@),
{
    parts.iter().join(sep)
}

/// The constraints without those that repeat the identity of the constraint
/// kept last before them: of each run of one identity the first stays.
pub open spec fn deduplicated(constraints: Seq<Constraint>) -> Seq<Constraint>
    decreases constraints.len(),
{
    if constraints.len() == 0 {
        constraints
    } else {
        let earlier = deduplicated(constraints.drop_last());
        if earlier.len() > 0 && earlier.last().id == constraints.last().id {
            earlier
        } else {
            earlier.push(constraints.last())
        }
    }
}

/// Collects `Itertools::dedup_by` over the constraints, compared by their
/// identities. Taken on trust from the adaptor's documentation and source: an
/// element is dropped when it compares equal to the element kept before it.
#[verifier::external_body]
pub(crate) fn dedup_by(constraints: &Vec<Constraint>) -> (kept: Vec<Constraint>)
    ensures
        kept@ == deduplicated(constraints@),
{
    constraints.iter().copied().dedup_by(|x, y| x.eq(y)).collect()
}

/// The product of the numbers from 1 to `n`: in how many orders `n` things
/// can stand.
pub open spec fn factorial(n: nat) -> nat
    decreases n,
{
    if n == 0 {
        1
    } else {
        n * factorial((n - 1) as nat)
    }
}

/// What each order holds, as plain sequences.
pub open spec fn orderings(orders: Seq<Vec<ConstraintGroup>>) -> Seq<Seq<Seq<Constraint>>> {
    Seq::new(orders.len(), |i: int| offers(orders[i]@))
}

/// The orders in which `Itertools::permutations` yields the groups.
pub uninterp spec fn arrangements(groups: Seq<Seq<Constraint>>) -> Seq<Seq<Seq<Constraint>>>;

/// Collects `Itertools::permutations` of the groups, all of them in each
/// permutation. Taken on trust from the adaptor's documentation: each vector
/// holds the groups in some order, and there are as many vectors as there are
/// orders, so that many have to be holdable. In which sequence the orders
/// come is left to the adaptor.
#[verifier::external_body]
pub(crate) fn permutations(groups: &Vec<ConstraintGroup>) -> (orders: Vec<Vec<ConstraintGroup>>)
    requires
        holdable(factorial(groups@.len())),
    ensures
        orderings(orders@) == arrangements(offers(groups@)),
        forall|i: int|
            0 <= i < orders@.len() ==> (#[trigger] orderings(orders@)[i]).to_multiset() == offers(
                groups@,
            ).to_multiset(),
{
    groups.iter().cloned().permutations(groups.len()).collect()
}

/// Whether two sequences name the same constraints in the same order.
pub open spec fn same_identities(left: Seq<Constraint>, right: Seq<Constraint>) -> bool {
    &&& left.len() == right.len()
    &&& forall|i: int| 0 <= i < left.len() ==> (#[trigger] left[i]).id == right[i].id
}

/// Whether one of the sequences names the same constraints as `sequence`.
pub open spec fn seen(sequences: Seq<Seq<Constraint>>, sequence: Seq<Constraint>) -> bool {
    exists|i: int| 0 <= i < sequences.len() && same_identities(#[trigger] sequences[i], sequence)
}

/// The sequences without those that name the same constraints as an earlier
/// one: the first of each kind stays, in its place.
pub open spec fn distinct(sequences: Seq<Seq<Constraint>>) -> Seq<Seq<Constraint>>
    decreases sequences.len(),
{
    if sequences.len() == 0 {
        sequences
    } else {
        let earlier = distinct(sequences.drop_last());
        if seen(earlier, sequences.last()) {
            earlier
        } else {
            earlier.push(sequences.last())
        }
    }
}

/// The identities of the constraints, in their order.
pub open spec fn identities_of(sequence: Seq<Constraint>) -> Seq<(u8, u8)> {
    Seq::new(sequence.len(), |i: int| (sequence[i].id.card, sequence[i].id.idx))
}

/// The identities of the constraints, in their order.
pub(crate) fn identities(sequence: &Vec<Constraint>) -> (ids: Vec<(u8, u8)>)
    ensures
        ids@ == identities_of(sequence@),
{
    let mut ids: Vec<(u8, u8)> = Vec::new();
    let mut i: usize = 0;
    while i < sequence.len()
        invariant
            0 <= i <= sequence@.len(),
            ids@ == identities_of(sequence@.take(i as int)),
        decreases sequence@.len() - i,
    {
        ids.push((sequence[i].id.card, sequence[i].id.idx));
        i = i + 1;
    }
    ids
}

/// Collects `Itertools::unique_by` over the sequences, keyed by the
/// identities of their constraints. Taken on trust from the adaptor's
/// documentation: of the sequences with one key the first is kept, and the
/// kept ones stay in their order.
#[verifier::external_body]
pub(crate) fn unique_by(sequences: &Vec<Vec<Constraint>>) -> (kept: Vec<Vec<Constraint>>)
    ensures
        contents(kept@) == distinct(contents(sequences@)),
{
    sequences.iter().unique_by(|sequence| identities(sequence)).cloned().collect()
}

} // verus!
