//! Decisions, the nodes of the tree, and the branches between them.

use crate::guess_sequence::guess::{same_guesses, same_sequence, Guess};
use crate::guess_sequence::solver::{prepared, shrink};
use crate::scenario::code::Code;
use crate::solver::{views, Solution};
use vstd::prelude::*;

verus! {

/// A node of the decision tree: the guesses made on the way to it, the last of
/// them once more, and the code where those guesses leave exactly one solution.
/// Two decisions are the same decision when their guess sequences are the same.
#[derive(Clone, Debug)]
pub struct Decision {
    pub guesses: Vec<Guess>,
    pub current_guess: Guess,
    pub solution: Option<Code>,
}

/// The mathematical content of a [`Decision`].
pub struct DecisionView {
    pub guesses: Seq<Guess>,
    pub current_guess: Guess,
    pub solution: Option<Code>,
}

impl View for Decision {
    type V = DecisionView;

    open spec fn view(&self) -> DecisionView {
        DecisionView {
            guesses: self.guesses@,
            current_guess: self.current_guess,
            solution: self.solution,
        }
    }
}

impl Decision {
    /// The decision reached by making `current_guess` after `prior_guesses`:
    /// it is resolved when exactly one of the available solutions agrees with
    /// all of these guesses.
    pub fn prepare(
        prior_guesses: Vec<Guess>,
        current_guess: Guess,
        available_solutions: &Vec<&Solution>,
    ) -> (decision: Decision)
        ensures
            decision@ == prepared(prior_guesses@, current_guess, views(available_solutions@)),
    {
        let mut guesses = prior_guesses;
        guesses.push(current_guess);
        let solutions = shrink(available_solutions, &guesses);
        let solution = if solutions.len() == 1 {
            Some(solutions[0].code)
        } else {
            None
        };
        Decision { guesses, current_guess, solution }
    }

    /// A copy of the decision.
    pub fn duplicate(&self) -> (copy: Decision)
        ensures
            copy@ == self@,
    {
        let mut guesses: Vec<Guess> = Vec::new();
        let mut i: usize = 0;
        while i < self.guesses.len()
            invariant
                0 <= i <= self.guesses@.len(),
                guesses@ == self.guesses@.take(i as int),
            decreases self.guesses@.len() - i,
        {
            guesses.push(self.guesses[i]);
            i = i + 1;
        }
        assert(guesses@ =~= self.guesses@);
        Decision { guesses, current_guess: self.current_guess, solution: self.solution }
    }
}

impl PartialEq for Decision {
    fn eq(&self, other: &Decision) -> (same: bool) {
        same_guesses(&self.guesses, &other.guesses)
    }
}

impl Eq for Decision {

}

impl vstd::std_specs::cmp::PartialEqSpecImpl for Decision {
    open spec fn obeys_eq_spec() -> bool {
        true
    }

    open spec fn eq_spec(&self, other: &Decision) -> bool {
        same_sequence(self.guesses@, other.guesses@)
    }
}

/// The two decisions that follow a decision: the one where the next guess was
/// verified and the one where it was refuted.
#[derive(Clone, Debug)]
pub struct Branch {
    pub verified: Option<Decision>,
    pub unverified: Option<Decision>,
}

/// The mathematical content of a [`Branch`].
pub struct BranchView {
    pub verified: Option<DecisionView>,
    pub unverified: Option<DecisionView>,
}

/// The content of a decision that may be absent.
pub open spec fn optional_view(decision: Option<Decision>) -> Option<DecisionView> {
    match decision {
        Some(d) => Some(d@),
        None => None,
    }
}

impl View for Branch {
    type V = BranchView;

    open spec fn view(&self) -> BranchView {
        BranchView {
            verified: optional_view(self.verified),
            unverified: optional_view(self.unverified),
        }
    }
}

} // verus!
