//! Guesses and guess sequences.

use crate::scenario::constraint::Constraint;
use vstd::prelude::*;
use vstd::string::*;

verus! {

/// One step of a guess sequence: a constraint together with the answer that
/// testing it gave. Two guesses are the same guess when they name the same
/// constraint and carry the same answer.
#[derive(Clone, Copy, Debug)]
pub struct Guess {
    pub constraint: Constraint,
    pub verified: bool,
}

impl Guess {
    /// Whether both guesses name the same constraint and carry the same
    /// answer.
    pub open spec fn same(self, other: Guess) -> bool {
        self.constraint.id == other.constraint.id && self.verified == other.verified
    }

    /// The guess as text: the constraint, behind a `!` where it was refuted.
    pub open spec fn text(self) -> Seq<char> {
        if self.verified {
            self.constraint.text()
        } else {
            "!"@ + self.constraint.text()
        }
    }

    /// The guess as text: the constraint, behind a `!` where it was refuted.
    pub fn to_string(&self) -> (s: String)
        ensures
            s@ == self.text(),
    {
        if self.verified {
            self.constraint.to_string()
        } else {
            let mut s = String::from_str("!");
            s.append(self.constraint.to_string().as_str());
            s
        }
    }
}

impl PartialEq for Guess {
    fn eq(&self, other: &Guess) -> (same: bool) {
        self.constraint.id.card == other.constraint.id.card && self.constraint.id.idx
            == other.constraint.id.idx && self.verified == other.verified
    }
}

impl Eq for Guess {

}

impl vstd::std_specs::cmp::PartialEqSpecImpl for Guess {
    open spec fn obeys_eq_spec() -> bool {
        true
    }

    open spec fn eq_spec(&self, other: &Guess) -> bool {
        self.same(*other)
    }
}

/// Whether two guess sequences are the same sequence of guesses.
pub open spec fn same_sequence(left: Seq<Guess>, right: Seq<Guess>) -> bool {
    &&& left.len() == right.len()
    &&& forall|i: int| 0 <= i < left.len() ==> (#[trigger] left[i]).same(right[i])
}

/// Whether two guess sequences are the same sequence of guesses.
pub fn same_guesses(left: &Vec<Guess>, right: &Vec<Guess>) -> (same: bool)
    ensures
        same == same_sequence(left@, right@),
{
    if left.len() != right.len() {
        return false;
    }
    let mut i: usize = 0;
    while i < left.len()
        invariant
            0 <= i <= left@.len() == right@.len(),
            forall|j: int| 0 <= j < i ==> (#[trigger] left@[j]).same(right@[j]),
        decreases left@.len() - i,
    {
        if !(left[i] == right[i]) {
            return false;
        }
        i = i + 1;
    }
    true
}

} // verus!
