//! Constraints: named statements about a code, known by their identity.

use crate::scenario::code::{lemma_index_of_code_at, Code, CODE_COUNT};
use crate::text::{decimal, push_decimal};
use std::cmp::Ordering;
use vstd::prelude::*;
use vstd::string::*;

verus! {

/// Identity of a constraint: the card that offers it and its place on the card.
#[derive(Copy, Clone, PartialEq, Eq, Structural, Hash, PartialOrd, Ord, Debug)]
pub struct ConstraintID {
    pub card: u8,
    pub idx: u8,
}

impl ConstraintID {
    /// The canonical order of identities: by card, then by place on the card.
    pub open spec fn less(self, other: ConstraintID) -> bool {
        self.card < other.card || (self.card == other.card && self.idx < other.idx)
    }

    /// The identity as text: `(card.idx)`.
    pub open spec fn text(self) -> Seq<char> {
        seq!['('] + decimal(self.card as nat) + seq!['.'] + decimal(self.idx as nat) + seq![')']
    }

    /// Whether `self` comes strictly before `other` in the canonical order.
    pub fn precedes(&self, other: &ConstraintID) -> (before: bool)
        ensures
            before == self.less(*other),
    {
        self.card < other.card || (self.card == other.card && self.idx < other.idx)
    }

    /// Where `self` stands relative to `other` in the canonical order.
    pub fn compare(&self, other: &ConstraintID) -> (order: Ordering)
        ensures
            order == (if self.less(*other) {
                Ordering::Less
            } else if other.less(*self) {
                Ordering::Greater
            } else {
                Ordering::Equal
            }),
    {
        if self.precedes(other) {
            Ordering::Less
        } else if other.precedes(self) {
            Ordering::Greater
        } else {
            Ordering::Equal
        }
    }

    /// The identity as text: `(card.idx)`.
    pub fn to_string(&self) -> (s: String)
        ensures
            s@ == self.text(),
    {
        proof {
            reveal_strlit("(");
            reveal_strlit(".");
            reveal_strlit(")");
        }
        let mut s = String::from_str("(");
        push_decimal(&mut s, self.card);
        s.append(".");
        push_decimal(&mut s, self.idx);
        s.append(")");
        s
    }
}

/// A named yes-or-no statement about a code. The statement is kept as its
/// verdict on every code of the domain, in the order of the enumeration, so it
/// is a fixed function of the code by construction. Two constraints are the
/// same constraint when their identities agree.
#[derive(Copy, Clone, Debug)]
pub struct Constraint {
    pub id: ConstraintID,
    pub name: &'static str,
    pub verdicts: [bool; CODE_COUNT],
}

impl Constraint {
    /// Whether the constraint is true of `code`. No constraint is true of a
    /// code outside the domain.
    pub open spec fn holds(self, code: Code) -> bool {
        code.valid() && self.verdicts@[code.index()]
    }

    /// The constraint as text: its identity, a space, its name.
    pub open spec fn text(self) -> Seq<char> {
        self.id.text() + seq![' '] + self.name@
    }

    /// Builds a constraint from the predicate `verifier`, which is asked once
    /// about every code of the domain.
    pub fn new<F: Fn(&Code) -> bool>(id: ConstraintID, name: &'static str, verifier: F) -> (c:
        Constraint)
        requires
            forall|code: Code| code.valid() ==> #[trigger] call_requires(verifier, (&code,)),
        ensures
            c.id == id,
            c.name == name,
            forall|code: Code|
                code.valid() ==> call_ensures(verifier, (&code,), #[trigger] c.holds(code)),
    {
        Constraint { id, name, verdicts: tabulate(verifier) }
    }

    /// Whether the constraint is true of `code`.
    pub fn verifies(&self, code: &Code) -> (verdict: bool)
        ensures
            verdict == self.holds(*code),
    {
        match code.position() {
            Some(i) => self.verdicts[i],
            None => false,
        }
    }

    /// The constraint as text: its identity, a space, its name.
    pub fn to_string(&self) -> (s: String)
        ensures
            s@ == self.text(),
    {
        proof {
            reveal_strlit(" ");
        }
        let mut s = self.id.to_string();
        s.append(" ");
        s.append(self.name);
        s
    }
}

/// `sorted` with `constraint` put behind the last element that does not come
/// after it in the canonical order of identities.
pub open spec fn inserted_by_id(sorted: Seq<Constraint>, constraint: Constraint) -> Seq<Constraint>
    decreases sorted.len(),
{
    if sorted.len() == 0 || !constraint.id.less(sorted.last().id) {
        sorted.push(constraint)
    } else {
        inserted_by_id(sorted.drop_last(), constraint).push(sorted.last())
    }
}

/// The constraints in ascending order of their identities; constraints with
/// the same identity keep their order.
pub open spec fn sorted_by_id(constraints: Seq<Constraint>) -> Seq<Constraint>
    decreases constraints.len(),
{
    if constraints.len() == 0 {
        constraints
    } else {
        inserted_by_id(sorted_by_id(constraints.drop_last()), constraints.last())
    }
}

/// Whether the identities of the constraints never descend.
pub open spec fn ascending(constraints: Seq<Constraint>) -> bool {
    forall|i: int, j: int|
        0 <= i < j < constraints.len() ==> !(#[trigger] constraints[j]).id.less(
            (#[trigger] constraints[i]).id,
        )
}

/// Putting a constraint into an ascending sequence keeps it ascending, and
/// adds just that constraint.
pub proof fn lemma_inserted_by_id(sorted: Seq<Constraint>, constraint: Constraint)
    requires
        ascending(sorted),
    ensures
        ascending(inserted_by_id(sorted, constraint)),
        inserted_by_id(sorted, constraint).to_multiset() == sorted.to_multiset().insert(constraint),
        inserted_by_id(sorted, constraint).len() == sorted.len() + 1,
        forall|i: int|
            0 <= i < sorted.len() + 1 ==> (#[trigger] inserted_by_id(sorted, constraint)[i])
                == constraint || sorted.contains(inserted_by_id(sorted, constraint)[i]),
    decreases sorted.len(),
{
    broadcast use vstd::seq_lib::group_to_multiset_ensures;

    if sorted.len() > 0 && constraint.id.less(sorted.last().id) {
        let shorter = sorted.drop_last();
        lemma_inserted_by_id(shorter, constraint);
        assert(sorted =~= shorter.push(sorted.last()));
    }
}

/// Sorting rearranges the constraints so that their identities ascend.
pub proof fn lemma_sorted_by_id(constraints: Seq<Constraint>)
    ensures
        ascending(sorted_by_id(constraints)),
        sorted_by_id(constraints).to_multiset() == constraints.to_multiset(),
    decreases constraints.len(),
{
    broadcast use vstd::seq_lib::group_to_multiset_ensures;

    if constraints.len() > 0 {
        let shorter = constraints.drop_last();
        lemma_sorted_by_id(shorter);
        lemma_inserted_by_id(sorted_by_id(shorter), constraints.last());
        assert(constraints =~= shorter.push(constraints.last()));
    }
}

/// The verdict of `verifier` on every code of the domain, in the order of the
/// enumeration.
pub fn tabulate<F: Fn(&Code) -> bool>(verifier: F) -> (verdicts: [bool; CODE_COUNT])
    requires
        forall|code: Code| code.valid() ==> #[trigger] call_requires(verifier, (&code,)),
    ensures
        forall|code: Code|
            code.valid() ==> call_ensures(verifier, (&code,), #[trigger] verdicts@[code.index()]),
{
    let codes = Code::all();
    let mut verdicts = [false; CODE_COUNT];
    let mut k: usize = 0;
    while k < CODE_COUNT
        invariant
            0 <= k <= CODE_COUNT,
            codes@.len() == CODE_COUNT,
            forall|i: int| 0 <= i < CODE_COUNT ==> codes@[i] == Code::at(i),
            forall|code: Code| code.valid() ==> #[trigger] call_requires(verifier, (&code,)),
            forall|i: int|
                0 <= i < k ==> call_ensures(verifier, (&Code::at(i),), #[trigger] verdicts@[i]),
        decreases CODE_COUNT - k,
    {
        proof {
            lemma_index_of_code_at(k as int);
        }
        let verdict = verifier(&codes[k]);
        verdicts[k] = verdict;
        k = k + 1;
    }
    verdicts
}

impl PartialEq for Constraint {
    fn eq(&self, other: &Constraint) -> (same: bool) {
        self.id.card == other.id.card && self.id.idx == other.id.idx
    }
}

impl Eq for Constraint {

}

impl vstd::std_specs::cmp::PartialEqSpecImpl for Constraint {
    open spec fn obeys_eq_spec() -> bool {
        true
    }

    open spec fn eq_spec(&self, other: &Constraint) -> bool {
        self.id == other.id
    }
}

} // verus!
