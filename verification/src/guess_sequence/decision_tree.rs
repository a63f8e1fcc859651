//! The tree as a table from decisions to branches, and its outline as text.

use crate::adaptors::{join, joined, texts};
use crate::guess_sequence::decision::{Branch, BranchView, Decision, DecisionView};
use crate::guess_sequence::guess::{same_guesses, same_sequence, Guess};
use vstd::prelude::*;
use vstd::string::*;

verus! {

/// The decision tree: its two roots, and for every decision that was branched
/// the two decisions that follow it. No guess sequence is entered twice.
#[derive(Debug)]
pub struct DecisionTree {
    pub roots: Vec<Decision>,
    pub decisions: Vec<(Decision, Branch)>,
}

/// The mathematical content of a [`DecisionTree`].
pub struct TreeView {
    pub roots: Seq<DecisionView>,
    pub decisions: Seq<(DecisionView, BranchView)>,
}

/// The contents of a list of decisions.
pub open spec fn decision_views(decisions: Seq<Decision>) -> Seq<DecisionView> {
    Seq::new(decisions.len(), |i: int| decisions[i]@)
}

/// The contents of a list of entries.
pub open spec fn entry_views(entries: Seq<(Decision, Branch)>) -> Seq<(DecisionView, BranchView)> {
    Seq::new(entries.len(), |i: int| (entries[i].0@, entries[i].1@))
}

impl View for DecisionTree {
    type V = TreeView;

    open spec fn view(&self) -> TreeView {
        TreeView { roots: decision_views(self.roots@), decisions: entry_views(self.decisions@) }
    }
}

/// Place of the first entry that was made for the guess sequence, if any.
pub open spec fn entry_of(entries: Seq<(DecisionView, BranchView)>, guesses: Seq<Guess>) -> Option<
    int,
>
    decreases entries.len(),
{
    if entries.len() == 0 {
        None
    } else {
        match entry_of(entries.drop_last(), guesses) {
            Some(i) => Some(i),
            None => if same_sequence(entries.last().0.guesses, guesses) {
                Some(entries.len() - 1)
            } else {
                None
            },
        }
    }
}

/// An entry that is found among the first `n` entries is found among all.
proof fn lemma_entry_of_prefix(
    entries: Seq<(DecisionView, BranchView)>,
    n: int,
    guesses: Seq<Guess>,
)
    requires
        0 <= n <= entries.len(),
        entry_of(entries.take(n), guesses) is Some,
    ensures
        entry_of(entries, guesses) == entry_of(entries.take(n), guesses),
    decreases entries.len() - n,
{
    if n < entries.len() {
        assert(entries.take(n + 1).drop_last() =~= entries.take(n));
        lemma_entry_of_prefix(entries, n + 1, guesses);
    } else {
        assert(entries.take(n) =~= entries);
    }
}

/// What a search for the guess sequence finds: the first entry with the same
/// sequence, and nothing where no entry has it.
pub proof fn lemma_entry_of(entries: Seq<(DecisionView, BranchView)>, guesses: Seq<Guess>)
    ensures
        match entry_of(entries, guesses) {
            Some(i) => 0 <= i < entries.len() && same_sequence(entries[i].0.guesses, guesses),
            None => forall|k: int|
                0 <= k < entries.len() ==> !same_sequence((#[trigger] entries[k]).0.guesses, guesses),
        },
    decreases entries.len(),
{
    if entries.len() > 0 {
        lemma_entry_of(entries.drop_last(), guesses);
        if entry_of(entries.drop_last(), guesses) is None {
            assert forall|k: int| 0 <= k < entries.len() - 1 implies !same_sequence(
                (#[trigger] entries[k]).0.guesses,
                guesses,
            ) by {
                assert(entries.drop_last()[k] == entries[k]);
            }
        }
    }
}

impl DecisionTree {
    /// Place of the entry of the decision with the given guess sequence.
    pub fn find(&self, guesses: &Vec<Guess>) -> (place: Option<usize>)
        ensures
            match place {
                Some(i) => entry_of(self@.decisions, guesses@) == Some(i as int) && i
                    < self.decisions@.len(),
                None => entry_of(self@.decisions, guesses@) is None,
            },
    {
        find_entry(&self.decisions, guesses)
    }

    /// The decisions that follow `decision`, if it was branched.
    pub fn branch(&self, decision: &Decision) -> (branch: Option<&Branch>)
        ensures
            match branch {
                Some(found) => entry_of(self@.decisions, decision@.guesses) matches Some(i)
                    && found@ == self@.decisions[i].1,
                None => entry_of(self@.decisions, decision@.guesses) is None,
            },
    {
        match find_entry(&self.decisions, &decision.guesses) {
            Some(i) => {
                proof {
                    lemma_entry_of(self@.decisions, decision@.guesses);
                }
                Some(&self.decisions[i].1)
            },
            None => None,
        }
    }
}

/// The decisions that follow the entries: for each entry, in order, the
/// decision where its next guess is verified and the one where it is refuted.
pub open spec fn followers(entries: Seq<(DecisionView, BranchView)>) -> Seq<DecisionView>
    decreases entries.len(),
{
    if entries.len() == 0 {
        Seq::empty()
    } else {
        let branch = entries.last().1;
        followers(entries.drop_last()) + (match branch.verified {
            Some(next) => seq![next],
            None => Seq::empty(),
        }) + (match branch.unverified {
            Some(next) => seq![next],
            None => Seq::empty(),
        })
    }
}

/// Whether the decision is a leaf that is left open: it carries no code and
/// has no entry.
pub open spec fn is_open_leaf(entries: Seq<(DecisionView, BranchView)>, decision: DecisionView) -> bool {
    decision.solution is None && entry_of(entries, decision.guesses) is None
}

/// Those of the decisions that are leaves left open, in their order.
pub open spec fn open_among(
    entries: Seq<(DecisionView, BranchView)>,
    decisions: Seq<DecisionView>,
) -> Seq<DecisionView>
    decreases decisions.len(),
{
    if decisions.len() == 0 {
        Seq::empty()
    } else {
        let earlier = open_among(entries, decisions.drop_last());
        if is_open_leaf(entries, decisions.last()) {
            earlier.push(decisions.last())
        } else {
            earlier
        }
    }
}

/// The contents of a list of references to decisions.
pub open spec fn referred(decisions: Seq<&Decision>) -> Seq<DecisionView> {
    Seq::new(decisions.len(), |i: int| decisions[i]@)
}

impl DecisionTree {
    /// The leaves of the tree that are left open: the roots and the decisions
    /// that follow an entry which carry no code and have no entry of their
    /// own. In a tree that the builder returned, these are the decisions for
    /// which no constraint was left to guess.
    pub fn open_leaves(&self) -> (leaves: Vec<&Decision>)
        ensures
            referred(leaves@) == open_among(
                self@.decisions,
                self@.roots + followers(self@.decisions),
            ),
    {
        let ghost entries = self@.decisions;
        let ghost roots = self@.roots;
        let mut leaves: Vec<&Decision> = Vec::new();
        let mut k: usize = 0;
        while k < self.roots.len()
            invariant
                0 <= k <= self.roots@.len(),
                entries == self@.decisions,
                roots == self@.roots,
                referred(leaves@) == open_among(entries, roots.take(k as int)),
            decreases self.roots@.len() - k,
        {
            let ghost before = referred(leaves@);
            assert(roots.take(k as int + 1).drop_last() =~= roots.take(k as int));
            let decision = &self.roots[k];
            if decision.solution.is_none() && find_entry(&self.decisions, &decision.guesses).is_none() {
                leaves.push(decision);
                assert(referred(leaves@) =~= before.push(decision@));
            }
            k = k + 1;
        }
        assert(roots.take(roots.len() as int) =~= roots);
        let mut k: usize = 0;
        assert(roots + followers(entries.take(0)) =~= roots);
        while k < self.decisions.len()
            invariant
                0 <= k <= self.decisions@.len(),
                entries == self@.decisions,
                roots == self@.roots,
                referred(leaves@) == open_among(entries, roots + followers(entries.take(k as int))),
            decreases self.decisions@.len() - k,
        {
            let ghost seen = roots + followers(entries.take(k as int));
            assert(entries.take(k as int + 1).drop_last() =~= entries.take(k as int));
            let branch = &self.decisions[k].1;
            let ghost mut shown = seen;
            match &branch.verified {
                Some(decision) => {
                    let ghost before = referred(leaves@);
                    proof {
                        shown = seen.push(decision@);
                        assert(shown.drop_last() =~= seen);
                    }
                    if decision.solution.is_none() && find_entry(
                        &self.decisions,
                        &decision.guesses,
                    ).is_none() {
                        leaves.push(decision);
                        assert(referred(leaves@) =~= before.push(decision@));
                    }
                },
                None => {},
            }
            assert(referred(leaves@) == open_among(entries, shown));
            let ghost middle = shown;
            match &branch.unverified {
                Some(decision) => {
                    let ghost before = referred(leaves@);
                    proof {
                        shown = middle.push(decision@);
                        assert(shown.drop_last() =~= middle);
                    }
                    if decision.solution.is_none() && find_entry(
                        &self.decisions,
                        &decision.guesses,
                    ).is_none() {
                        leaves.push(decision);
                        assert(referred(leaves@) =~= before.push(decision@));
                    }
                },
                None => {},
            }
            assert(shown =~= roots + followers(entries.take(k as int + 1)));
            k = k + 1;
        }
        assert(entries.take(entries.len() as int) =~= entries);
        leaves
    }
}

/// Place of the first entry that was made for the guess sequence.
pub(crate) fn find_entry(entries: &Vec<(Decision, Branch)>, guesses: &Vec<Guess>) -> (place: Option<usize>)
    ensures
        match place {
            Some(i) => entry_of(entry_views(entries@), guesses@) == Some(i as int) && i
                < entries@.len(),
            None => entry_of(entry_views(entries@), guesses@) is None,
        },
{
    let ghost all = entry_views(entries@);
    let mut k: usize = 0;
    while k < entries.len()
        invariant
            0 <= k <= entries@.len(),
            all == entry_views(entries@),
            entry_of(all.take(k as int), guesses@) is None,
        decreases entries@.len() - k,
    {
        assert(all.take(k as int + 1).drop_last() =~= all.take(k as int));
        if same_guesses(&entries[k].0.guesses, guesses) {
            proof {
                lemma_entry_of_prefix(all, k as int + 1, guesses@);
            }
            return Some(k);
        }
        k = k + 1;
    }
    assert(all.take(all.len() as int) =~= all);
    None
}

/// Length of the longest guess sequence that has an entry.
pub open spec fn longest(entries: Seq<(DecisionView, BranchView)>) -> nat
    decreases entries.len(),
{
    if entries.len() == 0 {
        0
    } else {
        let earlier = longest(entries.drop_last());
        if entries.last().0.guesses.len() > earlier {
            entries.last().0.guesses.len()
        } else {
            earlier
        }
    }
}

/// No entry has a longer guess sequence than the longest.
proof fn lemma_longest(entries: Seq<(DecisionView, BranchView)>, i: int)
    requires
        0 <= i < entries.len(),
    ensures
        entries[i].0.guesses.len() <= longest(entries),
    decreases entries.len(),
{
    if i < entries.len() - 1 {
        lemma_longest(entries.drop_last(), i);
    }
}

/// The indentation one level further down. It stops growing at the largest
/// number that the machine can hold.
pub open spec fn deeper(indent: usize) -> usize {
    if indent < usize::MAX {
        (indent + 1) as usize
    } else {
        indent
    }
}

/// Whether `child` is a decision one guess further than `parent`, as the
/// decisions that follow an entry are in every tree that the builder returns.
pub open spec fn follows(parent: DecisionView, child: Option<DecisionView>) -> bool {
    child matches Some(next) && next.guesses.len() == parent.guesses.len() + 1
}

/// The line of a decision in the outline: one tab for each level, the
/// current guess, a space, `--- ` and the code where the decision is resolved,
/// and the end of the line.
pub open spec fn line(decision: DecisionView, indent: usize) -> Seq<char> {
    Seq::new(indent as nat, |i: int| '\t') + decision.current_guess.text() + " "@ + (
    match decision.solution {
        Some(code) => "--- "@ + code.text(),
        None => Seq::empty(),
    }) + "\n"@
}

/// The outline of the part of the tree that starts at `decision`: its own
/// line, then, one level further down, the outline of the decision that
/// follows where the next guess is verified and of the one where it is
/// refuted.
pub open spec fn outline(
    entries: Seq<(DecisionView, BranchView)>,
    decision: DecisionView,
    indent: usize,
) -> Seq<char>
    decreases longest(entries) + 1 - decision.guesses.len(),
    via outline_decreases
{
    match entry_of(entries, decision.guesses) {
        None => line(decision, indent),
        Some(i) => {
            let branch = entries[i].1;
            let verified = if follows(decision, branch.verified) {
                seq![outline(entries, branch.verified.unwrap(), deeper(indent))]
            } else {
                Seq::empty()
            };
            let unverified = if follows(decision, branch.unverified) {
                seq![outline(entries, branch.unverified.unwrap(), deeper(indent))]
            } else {
                Seq::empty()
            };
            line(decision, indent) + joined(verified + unverified, Seq::empty())
        },
    }
}

#[via_fn]
proof fn outline_decreases(
    entries: Seq<(DecisionView, BranchView)>,
    decision: DecisionView,
    indent: usize,
) {
    lemma_entry_of(entries, decision.guesses);
    match entry_of(entries, decision.guesses) {
        Some(i) => {
            lemma_longest(entries, i);
        },
        None => {},
    }
}

/// The outlines of the roots, one after the other.
pub open spec fn tree_text(tree: TreeView) -> Seq<char> {
    joined(
        Seq::new(tree.roots.len(), |i: int| outline(tree.decisions, tree.roots[i], 0)),
        Seq::empty(),
    )
}

/// Renders the part of the tree that starts at `decision` as an indented
/// outline, `indent` levels deep.
pub fn convert_to_decision_tree_string(
    decision: &Decision,
    map: &Vec<(Decision, Branch)>,
    indent: usize,
) -> (text: String)
    ensures
        text@ == outline(entry_views(map@), decision@, indent),
    decreases longest(entry_views(map@)) + 1 - decision@.guesses.len(),
{
    let ghost entries = entry_views(map@);
    let mut parts: Vec<String> = Vec::new();
    let ghost mut verified = Seq::<Seq<char>>::empty();
    let ghost mut unverified = Seq::<Seq<char>>::empty();
    match find_entry(map, &decision.guesses) {
        Some(i) => {
            proof {
                lemma_entry_of(entries, decision@.guesses);
                lemma_longest(entries, i as int);
            }
            let branch = &map[i].1;
            let below = if indent < usize::MAX {
                indent + 1
            } else {
                indent
            };
            match &branch.verified {
                Some(next) => {
                    if next.guesses.len() > 0 && next.guesses.len() - 1 == decision.guesses.len() {
                        let shown = convert_to_decision_tree_string(next, map, below);
                        proof {
                            verified = seq![shown@];
                        }
                        parts.push(shown);
                    }
                },
                None => {},
            }
            match &branch.unverified {
                Some(next) => {
                    if next.guesses.len() > 0 && next.guesses.len() - 1 == decision.guesses.len() {
                        let shown = convert_to_decision_tree_string(next, map, below);
                        proof {
                            unverified = seq![shown@];
                        }
                        parts.push(shown);
                    }
                },
                None => {},
            }
            assert(texts(parts@) =~= verified + unverified);
        },
        None => {},
    }
    proof {
        reveal_strlit("");
        assert(""@ =~= Seq::<char>::empty());
    }
    let children = join(&parts, "");
    let mut text = String::new();
    let mut level: usize = 0;
    while level < indent
        invariant
            0 <= level <= indent,
            text@ == Seq::new(level as nat, |i: int| '\t'),
        decreases indent - level,
    {
        proof {
            reveal_strlit("\t");
        }
        text.append("\t");
        level = level + 1;
    }
    text.append(decision.current_guess.to_string().as_str());
    text.append(" ");
    match decision.solution {
        Some(code) => {
            text.append("--- ");
            text.append(code.to_string().as_str());
        },
        None => {},
    }
    text.append("\n");
    text.append(children.as_str());
    text
}

impl DecisionTree {
    /// The tree as an indented outline: each decision on a line of its own,
    /// the decisions that follow it one level further down, the verified one
    /// first.
    pub fn to_string(&self) -> (text: String)
        ensures
            text@ == tree_text(self@),
    {
        let mut parts: Vec<String> = Vec::new();
        let mut k: usize = 0;
        while k < self.roots.len()
            invariant
                0 <= k <= self.roots@.len(),
                parts@.len() == k,
                forall|i: int|
                    0 <= i < k ==> (#[trigger] parts@[i])@ == outline(
                        self@.decisions,
                        self@.roots[i],
                        0,
                    ),
            decreases self.roots@.len() - k,
        {
            parts.push(convert_to_decision_tree_string(&self.roots[k], &self.decisions, 0));
            k = k + 1;
        }
        proof {
            reveal_strlit("");
            assert(""@ =~= Seq::<char>::empty());
            assert(texts(parts@) =~= Seq::new(
                self@.roots.len(),
                |i: int| outline(self@.decisions, self@.roots[i], 0),
            ));
        }
        join(&parts, "")
    }
}

} // verus!
