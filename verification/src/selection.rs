//! From the words of a command line to the constraints that the solver is
//! given.

use crate::adaptors::dedup_by;
use crate::scenario::constraint::{Constraint, ConstraintID};
use crate::adaptors::deduplicated;
use crate::scenario::card::{is_card, lists};
use crate::solver::constraints_for_card;
use std::str::FromStr;
use vstd::prelude::*;
use vstd::string::*;

verus! {

/// Most words that a selection may hold.
pub const MAX_SELECTION: usize = 6;

/// What is answered to a selection of more than [`MAX_SELECTION`] words.
pub const TOO_MANY: &'static str = "Too many constraints provided";

/// One word of a selection: a whole card, or one constraint of a card. An
/// inverted constraint is a constraint that is ruled out: the card is taken
/// without it.
#[derive(Clone, Copy, Debug, PartialEq, Eq, Structural)]
pub enum CardOrConstraintArg {
    Card(u8),
    CardConstraint { inverted: bool, card_num: u8, id: u8 },
}

/// The number that a decimal digit stands for.
pub open spec fn digit_value(c: char) -> Option<nat> {
    if c == '0' {
        Some(0)
    } else if c == '1' {
        Some(1)
    } else if c == '2' {
        Some(2)
    } else if c == '3' {
        Some(3)
    } else if c == '4' {
        Some(4)
    } else if c == '5' {
        Some(5)
    } else if c == '6' {
        Some(6)
    } else if c == '7' {
        Some(7)
    } else if c == '8' {
        Some(8)
    } else if c == '9' {
        Some(9)
    } else {
        None
    }
}

/// Whether the text consists of decimal digits only.
pub open spec fn all_digits(text: Seq<char>) -> bool {
    forall|i: int| 0 <= i < text.len() ==> digit_value(#[trigger] text[i]) is Some
}

/// The number that a text of decimal digits stands for.
pub open spec fn value_of(digits: Seq<char>) -> nat
    decreases digits.len(),
{
    if digits.len() == 0 {
        0
    } else {
        value_of(digits.drop_last()) * 10 + digit_value(digits.last()).unwrap()
    }
}

/// The byte that a text stands for: an optional `+`, then at least one decimal
/// digit, and a value of at most 255. Anything else stands for nothing.
pub open spec fn parsed_u8(text: Seq<char>) -> Option<u8> {
    let digits = if text.len() > 0 && text[0] == '+' {
        text.skip(1)
    } else {
        text
    };
    if digits.len() > 0 && all_digits(digits) && value_of(digits) <= u8::MAX {
        Some(value_of(digits) as u8)
    } else {
        None
    }
}

/// Place of the first dot in the text.
pub open spec fn first_dot(text: Seq<char>) -> Option<int>
    decreases text.len(),
{
    if text.len() == 0 {
        None
    } else {
        match first_dot(text.drop_last()) {
            Some(i) => Some(i),
            None => if text.last() == '.' {
                Some(text.len() - 1)
            } else {
                None
            },
        }
    }
}

/// The word that a text stands for. A number names a whole card. Otherwise
/// the text has to be a card number, a dot and the place of a constraint on
/// the card, with a `^` in front where the constraint is ruled out.
pub open spec fn parsed_arg(text: Seq<char>) -> Option<CardOrConstraintArg> {
    match parsed_u8(text) {
        Some(num) => Some(CardOrConstraintArg::Card(num)),
        None => match first_dot(text) {
            None => None,
            Some(dot) => {
                let head = text.take(dot);
                let tail = text.skip(dot + 1);
                let inverted = head.len() > 0 && head[0] == '^';
                let card = parsed_u8(
                    if inverted {
                        head.skip(1)
                    } else {
                        head
                    },
                );
                let place = parsed_u8(tail);
                if card is Some && place is Some {
                    Some(
                        CardOrConstraintArg::CardConstraint {
                            inverted,
                            card_num: card.unwrap(),
                            id: place.unwrap(),
                        },
                    )
                } else {
                    None
                }
            },
        },
    }
}

fn digit_of(c: char) -> (digit: Option<u8>)
    ensures
        match digit {
            Some(d) => digit_value(c) == Some(d as nat),
            None => digit_value(c) is None,
        },
{
    if c == '0' {
        Some(0)
    } else if c == '1' {
        Some(1)
    } else if c == '2' {
        Some(2)
    } else if c == '3' {
        Some(3)
    } else if c == '4' {
        Some(4)
    } else if c == '5' {
        Some(5)
    } else if c == '6' {
        Some(6)
    } else if c == '7' {
        Some(7)
    } else if c == '8' {
        Some(8)
    } else if c == '9' {
        Some(9)
    } else {
        None
    }
}

/// More digits never make a smaller number.
proof fn lemma_value_grows(digits: Seq<char>, n: int)
    requires
        0 <= n <= digits.len(),
        all_digits(digits),
    ensures
        value_of(digits.take(n)) <= value_of(digits),
    decreases digits.len() - n,
{
    if n < digits.len() {
        assert(digits.take(n + 1).drop_last() =~= digits.take(n));
        lemma_value_grows(digits, n + 1);
    } else {
        assert(digits.take(n) =~= digits);
    }
}

/// The characters of the text.
fn chars_of(text: &str) -> (chars: Vec<char>)
    ensures
        chars@ == text@,
{
    let n = text.unicode_len();
    let mut chars: Vec<char> = Vec::new();
    let mut i: usize = 0;
    while i < n
        invariant
            0 <= i <= n == text@.len(),
            chars@ == text@.take(i as int),
        decreases n - i,
    {
        chars.push(text.get_char(i));
        i = i + 1;
    }
    chars
}

/// Reads the characters from `from` up to `to` as a byte.
fn parse_u8(chars: &Vec<char>, from: usize, to: usize) -> (num: Option<u8>)
    requires
        from <= to <= chars@.len(),
    ensures
        num == parsed_u8(chars@.subrange(from as int, to as int)),
{
    let ghost text = chars@.subrange(from as int, to as int);
    let start = if from < to && chars[from] == '+' {
        from + 1
    } else {
        from
    };
    let ghost digits = chars@.subrange(start as int, to as int);
    if start == to {
        return None;
    }
    let mut value: u16 = 0;
    let mut i: usize = start;
    while i < to
        invariant
            from <= start <= i <= to <= chars@.len(),
            start < to,
            text == chars@.subrange(from as int, to as int),
            digits == chars@.subrange(start as int, to as int),
            digits == (if text.len() > 0 && text[0] == '+' {
                text.skip(1)
            } else {
                text
            }),
            all_digits(digits.take(i - start)),
            value == value_of(digits.take(i - start)),
            value <= u8::MAX,
        decreases to - i,
    {
        let ghost seen = digits.take(i - start);
        let ghost next = digits.take(i - start + 1);
        assert(next.drop_last() =~= seen);
        match digit_of(chars[i]) {
            Some(d) => {
                value = value * 10 + d as u16;
                if value > 255 {
                    proof {
                        if all_digits(digits) {
                            lemma_value_grows(digits, i - start + 1);
                        }
                    }
                    return None;
                }
            },
            None => {
                return None;
            },
        }
        i = i + 1;
    }
    assert(digits.take(to - start) =~= digits);
    Some(value as u8)
}

/// Place of the first dot among the characters.
fn find_dot(chars: &Vec<char>) -> (place: Option<usize>)
    ensures
        match place {
            Some(i) => first_dot(chars@) == Some(i as int) && i < chars@.len(),
            None => first_dot(chars@) is None,
        },
{
    let mut i: usize = 0;
    while i < chars.len()
        invariant
            0 <= i <= chars@.len(),
            first_dot(chars@.take(i as int)) is None,
        decreases chars@.len() - i,
    {
        assert(chars@.take(i as int + 1).drop_last() =~= chars@.take(i as int));
        if chars[i] == '.' {
            proof {
                lemma_first_dot_prefix(chars@, i as int + 1);
            }
            return Some(i);
        }
        i = i + 1;
    }
    assert(chars@.take(chars@.len() as int) =~= chars@);
    None
}

/// A dot that is the first among the first `n` characters is the first of
/// all.
proof fn lemma_first_dot_prefix(text: Seq<char>, n: int)
    requires
        0 <= n <= text.len(),
        first_dot(text.take(n)) is Some,
    ensures
        first_dot(text) == first_dot(text.take(n)),
    decreases text.len() - n,
{
    if n < text.len() {
        assert(text.take(n + 1).drop_last() =~= text.take(n));
        lemma_first_dot_prefix(text, n + 1);
    } else {
        assert(text.take(n) =~= text);
    }
}

impl CardOrConstraintArg {
    /// Reads one word of a selection. A text that is no word is answered with
    /// an empty message.
    pub fn parse(s: &str) -> (word: Result<CardOrConstraintArg, &'static str>)
        ensures
            match word {
                Ok(arg) => parsed_arg(s@) == Some(arg),
                Err(message) => parsed_arg(s@) is None && message@ == ""@,
            },
    {
        let chars = chars_of(s);
        assert(chars@.subrange(0, chars@.len() as int) =~= chars@);
        if let Some(num) = parse_u8(&chars, 0, chars.len()) {
            return Ok(CardOrConstraintArg::Card(num));
        }
        let dot = match find_dot(&chars) {
            Some(dot) => dot,
            None => {
                return Err("");
            },
        };
        let inverted = dot > 0 && chars[0] == '^';
        let from: usize = if inverted {
            1
        } else {
            0
        };
        let ghost head = chars@.take(dot as int);
        assert(chars@.subrange(from as int, dot as int) =~= if inverted {
            head.skip(1)
        } else {
            head
        });
        let card_num = match parse_u8(&chars, from, dot) {
            Some(num) => num,
            None => {
                return Err("");
            },
        };
        let constraint_num = match parse_u8(&chars, dot + 1, chars.len()) {
            Some(num) => num,
            None => {
                return Err("");
            },
        };
        Ok(CardOrConstraintArg::CardConstraint { inverted, card_num, id: constraint_num })
    }
}

impl FromStr for CardOrConstraintArg {
    type Err = &'static str;

    /// Reads one word of a selection, as [`CardOrConstraintArg::parse`] does.
    fn from_str(s: &str) -> (word: Result<Self, Self::Err>)
        ensures
            match word {
                Ok(arg) => parsed_arg(s@) == Some(arg),
                Err(message) => parsed_arg(s@) is None && message@ == ""@,
            },
    {
        CardOrConstraintArg::parse(s)
    }
}

impl CardOrConstraintArg {
    /// The card that the word speaks of.
    pub open spec fn card(self) -> u8 {
        match self {
            CardOrConstraintArg::Card(num) => num,
            CardOrConstraintArg::CardConstraint { card_num, .. } => card_num,
        }
    }

    /// The card that the word speaks of.
    pub fn card_number(&self) -> (num: u8)
        ensures
            num == self.card(),
    {
        match self {
            CardOrConstraintArg::Card(num) => *num,
            CardOrConstraintArg::CardConstraint { card_num, .. } => *card_num,
        }
    }

    /// Whether the word rules out the constraint with the identity `id`.
    pub open spec fn rules_out(self, id: ConstraintID) -> bool {
        self == (CardOrConstraintArg::CardConstraint {
            inverted: true,
            card_num: id.card,
            id: id.idx,
        })
    }
}

/// What the catalog answered for each word, as plain sequences.
pub open spec fn answers(offered: Seq<Option<Vec<Constraint>>>) -> Seq<Option<Seq<Constraint>>> {
    Seq::new(
        offered.len(),
        |i: int|
            match offered[i] {
                Some(listed) => Some(listed@),
                None => None,
            },
    )
}

/// What the catalog answered for word `i`; nothing where no answer is given.
pub open spec fn answer_at(offered: Seq<Option<Seq<Constraint>>>, i: int) -> Option<Seq<Constraint>> {
    if 0 <= i < offered.len() {
        offered[i]
    } else {
        None
    }
}

/// What a word contributes, given the constraints that the catalog lists for
/// its card: the whole card, or the one constraint that the word names. A
/// word that rules a constraint out contributes the whole card as well. An
/// unknown card and a place beyond the card contribute nothing.
pub open spec fn contribution(arg: CardOrConstraintArg, offered: Option<Seq<Constraint>>) -> Seq<
    Constraint,
> {
    match offered {
        None => Seq::empty(),
        Some(listed) => match arg {
            CardOrConstraintArg::Card(_) => listed,
            CardOrConstraintArg::CardConstraint { inverted, card_num, id } => if inverted {
                listed
            } else if id < listed.len() {
                seq![listed[id as int]]
            } else {
                Seq::empty()
            },
        },
    }
}

/// The contributions of the first `n` words, one after the other.
pub open spec fn gathered(
    args: Seq<CardOrConstraintArg>,
    offered: Seq<Option<Seq<Constraint>>>,
    n: int,
) -> Seq<Constraint>
    decreases n,
{
    if n <= 0 {
        Seq::empty()
    } else {
        gathered(args, offered, n - 1) + contribution(args[n - 1], answer_at(offered, n - 1))
    }
}

/// Whether one of the words rules out the constraint with the identity `id`.
pub open spec fn ruled_out(args: Seq<CardOrConstraintArg>, id: ConstraintID) -> bool {
    exists|i: int| 0 <= i < args.len() && (#[trigger] args[i]).rules_out(id)
}

/// The constraints that no word rules out, in their order.
pub open spec fn admitted(args: Seq<CardOrConstraintArg>, constraints: Seq<Constraint>) -> Seq<
    Constraint,
>
    decreases constraints.len(),
{
    if constraints.len() == 0 {
        constraints
    } else {
        let earlier = admitted(args, constraints.drop_last());
        if ruled_out(args, constraints.last().id) {
            earlier
        } else {
            earlier.push(constraints.last())
        }
    }
}

/// The constraints that a selection stands for: what its words contribute,
/// without what they rule out, and without immediate repetitions.
pub open spec fn selection(args: Seq<CardOrConstraintArg>, offered: Seq<Option<Seq<Constraint>>>) -> Seq<
    Constraint,
> {
    deduplicated(admitted(args, gathered(args, offered, args.len() as int)))
}

/// After immediate repetitions are dropped, no two neighbours carry the
/// same identity.
pub proof fn lemma_deduplicated(constraints: Seq<Constraint>)
    ensures
        deduplicated(constraints).len() <= constraints.len(),
        forall|i: int|
            0 < i < deduplicated(constraints).len() ==> deduplicated(constraints)[i - 1].id != (
            #[trigger] deduplicated(constraints)[i]).id,
    decreases constraints.len(),
{
    if constraints.len() > 0 {
        lemma_deduplicated(constraints.drop_last());
    }
}

/// No constraint that a word rules out is admitted.
pub proof fn lemma_admitted(args: Seq<CardOrConstraintArg>, constraints: Seq<Constraint>)
    ensures
        admitted(args, constraints).len() <= constraints.len(),
        forall|i: int|
            0 <= i < admitted(args, constraints).len() ==> !ruled_out(
                args,
                (#[trigger] admitted(args, constraints)[i]).id,
            ),
    decreases constraints.len(),
{
    if constraints.len() > 0 {
        lemma_admitted(args, constraints.drop_last());
    }
}

/// Whether `offered` holds, for each word, what the catalog lists for the
/// word's card.
pub open spec fn looked_up(
    args: Seq<CardOrConstraintArg>,
    offered: Seq<Option<Seq<Constraint>>>,
) -> bool {
    &&& offered.len() == args.len()
    &&& forall|i: int|
        0 <= i < args.len() ==> match #[trigger] offered[i] {
            Some(listed) => is_card(args[i].card()) && lists(listed, args[i].card()),
            None => !is_card(args[i].card()),
        }
}

/// Asks the catalog for the card of each word.
pub fn look_up(args: &Vec<CardOrConstraintArg>) -> (offered: Vec<Option<Vec<Constraint>>>)
    ensures
        looked_up(args@, answers(offered@)),
{
    let mut offered: Vec<Option<Vec<Constraint>>> = Vec::new();
    let mut k: usize = 0;
    while k < args.len()
        invariant
            0 <= k <= args@.len(),
            offered@.len() == k,
            forall|i: int|
                0 <= i < k ==> match #[trigger] answers(offered@)[i] {
                    Some(listed) => is_card(args@[i].card()) && lists(listed, args@[i].card()),
                    None => !is_card(args@[i].card()),
                },
        decreases args@.len() - k,
    {
        let ghost before = answers(offered@);
        offered.push(constraints_for_card(args[k].card_number()));
        assert forall|i: int| 0 <= i < k + 1 implies match #[trigger] answers(offered@)[i] {
            Some(listed) => is_card(args@[i].card()) && lists(listed, args@[i].card()),
            None => !is_card(args@[i].card()),
        } by {
            if i < k {
                assert(answers(offered@)[i] == before[i]);
            }
        }
        k = k + 1;
    }
    offered
}

/// Whether one of the words rules out the constraint.
fn is_ruled_out(args: &Vec<CardOrConstraintArg>, constraint: &Constraint) -> (out: bool)
    ensures
        out == ruled_out(args@, constraint.id),
{
    let mut i: usize = 0;
    while i < args.len()
        invariant
            0 <= i <= args@.len(),
            forall|j: int| 0 <= j < i ==> !(#[trigger] args@[j]).rules_out(constraint.id),
        decreases args@.len() - i,
    {
        match args[i] {
            CardOrConstraintArg::CardConstraint { inverted, card_num, id } => {
                if inverted && card_num == constraint.id.card && id == constraint.id.idx {
                    return true;
                }
            },
            CardOrConstraintArg::Card(_) => {},
        }
        i = i + 1;
    }
    false
}

/// The constraints that the words stand for, given what the catalog listed
/// for the card of each word.
pub fn select(args: &Vec<CardOrConstraintArg>, offered: &Vec<Option<Vec<Constraint>>>) -> (chosen:
    Vec<Constraint>)
    ensures
        chosen@ == selection(args@, answers(offered@)),
{
    let ghost listed = answers(offered@);
    let mut kept: Vec<Constraint> = Vec::new();
    let mut k: usize = 0;
    while k < args.len()
        invariant
            0 <= k <= args@.len(),
            listed == answers(offered@),
            kept@ == admitted(args@, gathered(args@, listed, k as int)),
        decreases args@.len() - k,
    {
        let ghost before = gathered(args@, listed, k as int);
        if k < offered.len() {
            match &offered[k] {
                Some(card) => {
                    let whole = match args[k] {
                        CardOrConstraintArg::Card(_) => true,
                        CardOrConstraintArg::CardConstraint { inverted, .. } => inverted,
                    };
                    if whole {
                        let mut i: usize = 0;
                        while i < card.len()
                            invariant
                                0 <= i <= card@.len(),
                                kept@ == admitted(args@, before + card@.take(i as int)),
                            decreases card@.len() - i,
                        {
                            assert((before + card@.take(i as int + 1)).drop_last() =~= before
                                + card@.take(i as int));
                            if !is_ruled_out(args, &card[i]) {
                                kept.push(card[i]);
                            }
                            i = i + 1;
                        }
                        assert(card@.take(card@.len() as int) =~= card@);
                    } else {
                        let place = match args[k] {
                            CardOrConstraintArg::Card(_) => 0,
                            CardOrConstraintArg::CardConstraint { id, .. } => id,
                        };
                        if (place as usize) < card.len() {
                            let constraint = card[place as usize];
                            assert((before + seq![constraint]).drop_last() =~= before);
                            if !is_ruled_out(args, &constraint) {
                                kept.push(constraint);
                            }
                        }
                    }
                },
                None => {},
            }
        }
        k = k + 1;
    }
    dedup_by(&kept)
}

/// The constraints that a selection of at most [`MAX_SELECTION`] words stands
/// for, with the catalog asked for the card of each word.
pub fn select_constraints(args: &Vec<CardOrConstraintArg>) -> (chosen: Result<
    Vec<Constraint>,
    &'static str,
>)
    ensures
        match chosen {
            Ok(constraints) => args@.len() <= MAX_SELECTION && exists|
                offered: Seq<Option<Seq<Constraint>>>,
            |
                looked_up(args@, offered) && constraints@ == selection(args@, offered),
            Err(message) => args@.len() > MAX_SELECTION && message@ == TOO_MANY@,
        },
{
    if args.len() > MAX_SELECTION {
        return Err(TOO_MANY);
    }
    let offered = look_up(args);
    let constraints = select(args, &offered);
    Ok(constraints)
}

} // verus!
