//! The catalog of cards: what each card's constraints are called and what
//! they say.

use crate::adaptors::{tuple_combinations, tuple_windows};
use crate::scenario::code::{Code, CODE_COUNT};
use crate::scenario::constraint::{tabulate, Constraint, ConstraintID};
use vstd::prelude::*;

verus! {

/// How many of the three digits equal `digit`.
pub open spec fn count_of(code: Code, digit: int) -> int {
    (if code.blue == digit { 1int } else { 0 }) + (if code.yellow == digit { 1int } else { 0 })
        + (if code.purple == digit { 1int } else { 0 })
}

/// How many of the three digits are even.
pub open spec fn even_digits(code: Code) -> int {
    (if code.blue % 2 == 0 { 1int } else { 0 }) + (if code.yellow % 2 == 0 { 1int } else { 0 })
        + (if code.purple % 2 == 0 { 1int } else { 0 })
}

/// How many of the three digits are odd.
pub open spec fn odd_digits(code: Code) -> int {
    3 - even_digits(code)
}

/// The sum of the three digits.
pub open spec fn sum(code: Code) -> int {
    code.blue + code.yellow + code.purple
}

/// How many of the three pairs of positions show the same digit.
pub open spec fn equal_pairs(code: Code) -> int {
    (if code.blue == code.yellow { 1int } else { 0 }) + (if code.blue == code.purple { 1int } else { 0 })
        + (if code.yellow == code.purple { 1int } else { 0 })
}

/// How many of the two steps from a digit to its right neighbour go up.
pub open spec fn rising_steps(code: Code) -> int {
    (if code.blue < code.yellow { 1int } else { 0 }) + (if code.yellow < code.purple { 1int } else { 0 })
}

/// How many of the two steps from a digit to its right neighbour go down.
pub open spec fn falling_steps(code: Code) -> int {
    (if code.blue > code.yellow { 1int } else { 0 }) + (if code.yellow > code.purple { 1int } else { 0 })
}

/// How many of the two steps from a digit to its right neighbour change the
/// digit.
pub open spec fn changing_steps(code: Code) -> int {
    (if code.blue != code.yellow { 1int } else { 0 }) + (if code.yellow != code.purple { 1int } else { 0 })
}

/// Whether `num` names a card of the catalog.
pub open spec fn is_card(num: u8) -> bool {
    1 <= num <= 48 && num != 32
}

/// What each constraint of a card says of a code, in the order in which the
/// card lists them; empty for a number that names no card.
pub open spec fn rules(card: u8) -> Seq<spec_fn(Code) -> bool> {
    if card == 1 {
        seq![
            |code: Code| code.blue == 1,
            |code: Code| code.blue > 1,
        ]
    } else if card == 2 {
        seq![
            |code: Code| code.blue < 3,
            |code: Code| code.blue == 3,
            |code: Code| code.blue > 3,
        ]
    } else if card == 3 {
        seq![
            |code: Code| code.yellow < 3,
            |code: Code| code.yellow == 3,
            |code: Code| code.yellow > 3,
        ]
    } else if card == 4 {
        seq![
            |code: Code| code.yellow < 4,
            |code: Code| code.yellow == 4,
            |code: Code| code.yellow > 4,
        ]
    } else if card == 5 {
        seq![
            |code: Code| code.blue % 2 == 0,
            |code: Code| code.blue % 2 != 0,
        ]
    } else if card == 6 {
        seq![
            |code: Code| code.yellow % 2 == 0,
            |code: Code| code.yellow % 2 != 0,
        ]
    } else if card == 7 {
        seq![
            |code: Code| code.purple % 2 == 0,
            |code: Code| code.purple % 2 != 0,
        ]
    } else if card == 8 {
        seq![
            |code: Code| count_of(code, 1) == 0,
            |code: Code| count_of(code, 1) == 1,
            |code: Code| count_of(code, 1) == 2,
            |code: Code| count_of(code, 1) == 3,
        ]
    } else if card == 9 {
        seq![
            |code: Code| count_of(code, 3) == 0,
            |code: Code| count_of(code, 3) == 1,
            |code: Code| count_of(code, 3) == 2,
            |code: Code| count_of(code, 3) == 3,
        ]
    } else if card == 10 {
        seq![
            |code: Code| count_of(code, 4) == 0,
            |code: Code| count_of(code, 4) == 1,
            |code: Code| count_of(code, 4) == 2,
            |code: Code| count_of(code, 4) == 3,
        ]
    } else if card == 11 {
        seq![
            |code: Code| code.blue < code.yellow,
            |code: Code| code.blue == code.yellow,
            |code: Code| code.blue > code.yellow,
        ]
    } else if card == 12 {
        seq![
            |code: Code| code.blue < code.purple,
            |code: Code| code.blue == code.purple,
            |code: Code| code.blue > code.purple,
        ]
    } else if card == 13 {
        seq![
            |code: Code| code.yellow < code.purple,
            |code: Code| code.yellow == code.purple,
            |code: Code| code.yellow > code.purple,
        ]
    } else if card == 14 {
        seq![
            |code: Code| code.blue < code.yellow && code.blue < code.purple,
            |code: Code| code.yellow < code.blue && code.yellow < code.purple,
            |code: Code| code.purple < code.yellow && code.purple < code.blue,
        ]
    } else if card == 15 {
        seq![
            |code: Code| code.blue > code.yellow && code.blue > code.purple,
            |code: Code| code.yellow > code.blue && code.yellow > code.purple,
            |code: Code| code.purple > code.yellow && code.purple > code.blue,
        ]
    } else if card == 16 {
        seq![
            |code: Code| even_digits(code) == 2,
            |code: Code| odd_digits(code) == 2,
        ]
    } else if card == 17 {
        seq![
            |code: Code| even_digits(code) == 0,
            |code: Code| even_digits(code) == 1,
            |code: Code| even_digits(code) == 2,
            |code: Code| even_digits(code) == 3,
        ]
    } else if card == 18 {
        seq![
            |code: Code| sum(code) % 2 == 0,
            |code: Code| sum(code) % 2 != 0,
        ]
    } else if card == 19 {
        seq![
            |code: Code| code.blue + code.yellow < 6,
            |code: Code| code.blue + code.yellow == 6,
            |code: Code| code.blue + code.yellow > 6,
        ]
    } else if card == 20 {
        seq![
            |code: Code| code.blue == code.yellow && code.yellow == code.purple,
            |code: Code| (code.blue == code.yellow && code.yellow != code.purple) || (code.yellow == code.purple && code.blue != code.yellow) || (code.blue == code.purple && code.blue != code.yellow),
            |code: Code| code.blue != code.yellow && code.yellow != code.purple && code.blue != code.purple,
        ]
    } else if card == 21 {
        seq![
            |code: Code| equal_pairs(code) == 1,
            |code: Code| code.blue != code.yellow && code.blue != code.purple && code.yellow != code.purple,
        ]
    } else if card == 22 {
        seq![
            |code: Code| code.blue < code.yellow < code.purple,
            |code: Code| code.blue > code.yellow > code.purple,
            |code: Code| !(code.blue < code.yellow < code.purple) && !(code.blue > code.yellow > code.purple),
        ]
    } else if card == 23 {
        seq![
            |code: Code| sum(code) < 6,
            |code: Code| sum(code) == 6,
            |code: Code| sum(code) > 6,
        ]
    } else if card == 24 {
        seq![
            |code: Code| code.blue < code.yellow < code.purple,
            |code: Code| rising_steps(code) == 1,
            |code: Code| code.blue >= code.yellow >= code.purple,
        ]
    } else if card == 25 {
        seq![
            |code: Code| code.blue != code.yellow && code.yellow != code.purple,
            |code: Code| changing_steps(code) == 1,
            |code: Code| (code.blue < code.yellow < code.purple) || (code.blue > code.yellow > code.purple),
        ]
    } else if card == 26 {
        seq![
            |code: Code| code.blue < 3,
            |code: Code| code.yellow < 3,
            |code: Code| code.purple < 3,
        ]
    } else if card == 27 {
        seq![
            |code: Code| code.blue < 4,
            |code: Code| code.yellow < 4,
            |code: Code| code.purple < 4,
        ]
    } else if card == 28 {
        seq![
            |code: Code| code.blue == 1,
            |code: Code| code.yellow == 1,
            |code: Code| code.purple == 1,
        ]
    } else if card == 29 {
        seq![
            |code: Code| code.blue == 3,
            |code: Code| code.yellow == 3,
            |code: Code| code.purple == 3,
        ]
    } else if card == 30 {
        seq![
            |code: Code| code.blue == 4,
            |code: Code| code.yellow == 4,
            |code: Code| code.purple == 4,
        ]
    } else if card == 31 {
        seq![
            |code: Code| code.blue > 1,
            |code: Code| code.yellow > 1,
            |code: Code| code.purple > 1,
        ]
    } else if card == 33 {
        seq![
            |code: Code| code.blue % 2 == 0,
            |code: Code| code.yellow % 2 == 0,
            |code: Code| code.purple % 2 == 0,
            |code: Code| code.blue % 2 != 0,
            |code: Code| code.yellow % 2 != 0,
            |code: Code| code.purple % 2 != 0,
        ]
    } else if card == 34 {
        seq![
            |code: Code| code.blue <= code.yellow && code.blue <= code.purple,
            |code: Code| code.yellow <= code.blue && code.yellow <= code.purple,
            |code: Code| code.purple <= code.blue && code.purple <= code.yellow,
        ]
    } else if card == 35 {
        seq![
            |code: Code| code.blue >= code.yellow && code.blue >= code.purple,
            |code: Code| code.yellow >= code.blue && code.yellow >= code.purple,
            |code: Code| code.purple >= code.blue && code.purple >= code.yellow,
        ]
    } else if card == 36 {
        seq![
            |code: Code| sum(code) % 3 == 0,
            |code: Code| sum(code) % 4 == 0,
            |code: Code| sum(code) % 5 == 0,
        ]
    } else if card == 37 {
        seq![
            |code: Code| code.blue + code.yellow == 4,
            |code: Code| code.blue + code.purple == 4,
            |code: Code| code.yellow + code.purple == 4,
        ]
    } else if card == 38 {
        seq![
            |code: Code| code.blue + code.yellow == 6,
            |code: Code| code.blue + code.purple == 6,
            |code: Code| code.yellow + code.purple == 6,
        ]
    } else if card == 39 {
        seq![
            |code: Code| code.blue == 1,
            |code: Code| code.blue > 1,
            |code: Code| code.yellow == 1,
            |code: Code| code.yellow > 1,
            |code: Code| code.purple == 1,
            |code: Code| code.purple > 1,
        ]
    } else if card == 40 {
        seq![
            |code: Code| code.blue < 3,
            |code: Code| code.blue == 3,
            |code: Code| code.blue > 3,
            |code: Code| code.yellow < 3,
            |code: Code| code.yellow == 3,
            |code: Code| code.yellow > 3,
            |code: Code| code.purple < 3,
            |code: Code| code.purple == 3,
            |code: Code| code.purple > 3,
        ]
    } else if card == 41 {
        seq![
            |code: Code| code.blue < 4,
            |code: Code| code.blue == 4,
            |code: Code| code.blue > 4,
            |code: Code| code.yellow < 4,
            |code: Code| code.yellow == 4,
            |code: Code| code.yellow > 4,
            |code: Code| code.purple < 4,
            |code: Code| code.purple == 4,
            |code: Code| code.purple > 4,
        ]
    } else if card == 42 {
        seq![
            |code: Code| code.blue < code.yellow && code.blue < code.purple,
            |code: Code| code.yellow < code.blue && code.yellow < code.purple,
            |code: Code| code.purple < code.yellow && code.purple < code.blue,
            |code: Code| code.blue > code.yellow && code.blue > code.purple,
            |code: Code| code.yellow > code.blue && code.yellow > code.purple,
            |code: Code| code.purple > code.yellow && code.purple > code.blue,
        ]
    } else if card == 43 {
        seq![
            |code: Code| code.blue < code.yellow,
            |code: Code| code.blue == code.yellow,
            |code: Code| code.blue > code.yellow,
            |code: Code| code.blue < code.purple,
            |code: Code| code.blue == code.purple,
            |code: Code| code.blue > code.purple,
        ]
    } else if card == 44 {
        seq![
            |code: Code| code.yellow < code.blue,
            |code: Code| code.yellow == code.blue,
            |code: Code| code.yellow > code.blue,
            |code: Code| code.yellow < code.purple,
            |code: Code| code.yellow == code.purple,
            |code: Code| code.yellow > code.purple,
        ]
    } else if card == 45 {
        seq![
            |code: Code| count_of(code, 1) == 0,
            |code: Code| count_of(code, 1) == 1,
            |code: Code| count_of(code, 1) == 2,
            |code: Code| count_of(code, 3) == 0,
            |code: Code| count_of(code, 3) == 1,
            |code: Code| count_of(code, 3) == 2,
        ]
    } else if card == 46 {
        seq![
            |code: Code| count_of(code, 3) == 0,
            |code: Code| count_of(code, 3) == 1,
            |code: Code| count_of(code, 3) == 2,
            |code: Code| count_of(code, 4) == 0,
            |code: Code| count_of(code, 4) == 1,
            |code: Code| count_of(code, 4) == 2,
        ]
    } else if card == 47 {
        seq![
            |code: Code| count_of(code, 1) == 0,
            |code: Code| count_of(code, 1) == 1,
            |code: Code| count_of(code, 1) == 2,
            |code: Code| count_of(code, 4) == 0,
            |code: Code| count_of(code, 4) == 1,
            |code: Code| count_of(code, 4) == 2,
        ]
    } else if card == 48 {
        seq![
            |code: Code| code.blue < code.yellow,
            |code: Code| code.blue == code.yellow,
            |code: Code| code.blue > code.yellow,
            |code: Code| code.blue < code.purple,
            |code: Code| code.blue == code.purple,
            |code: Code| code.blue > code.purple,
            |code: Code| code.yellow < code.purple,
            |code: Code| code.yellow == code.purple,
            |code: Code| code.yellow > code.purple,
        ]
    } else {
        Seq::empty()
    }
}

/// The names under which each card lists its constraints, in the card's
/// order; empty for a number that names no card.
pub open spec fn names(card: u8) -> Seq<Seq<char>> {
    if card == 1 {
        seq![
            "🔷 = 1"@,
            "🔷 > 1"@,
        ]
    } else if card == 2 {
        seq![
            "🔷 < 3"@,
            "🔷 = 3"@,
            "🔷 > 3"@,
        ]
    } else if card == 3 {
        seq![
            "🟨 < 3"@,
            "🟨 = 3"@,
            "🟨 > 3"@,
        ]
    } else if card == 4 {
        seq![
            "🟨 < 4"@,
            "🟨 = 4"@,
            "🟨 > 4"@,
        ]
    } else if card == 5 {
        seq![
            "🔷 is even"@,
            "🔷 is odd"@,
        ]
    } else if card == 6 {
        seq![
            "🟨 is even"@,
            "🟨 is odd"@,
        ]
    } else if card == 7 {
        seq![
            "🟣 is even"@,
            "🟣 is odd"@,
        ]
    } else if card == 8 {
        seq![
            "No 1s"@,
            "One 1"@,
            "Two 1s"@,
            "Three 1s"@,
        ]
    } else if card == 9 {
        seq![
            "No 3s"@,
            "One 3"@,
            "Two 3s"@,
            "Three 3s"@,
        ]
    } else if card == 10 {
        seq![
            "No 4s"@,
            "One 4"@,
            "Two 4s"@,
            "Three 4s"@,
        ]
    } else if card == 11 {
        seq![
            "🔷 < 🟨"@,
            "🔷 = 🟨"@,
            "🔷 > 🟨"@,
        ]
    } else if card == 12 {
        seq![
            "🔷 < 🟣"@,
            "🔷 = 🟣"@,
            "🔷 > 🟣"@,
        ]
    } else if card == 13 {
        seq![
            "🟨 < 🟣"@,
            "🟨 = 🟣"@,
            "🟨 > 🟣"@,
        ]
    } else if card == 14 {
        seq![
            "🔷 smallest"@,
            "🟨 smallest"@,
            "🟣 smallest"@,
        ]
    } else if card == 15 {
        seq![
            "🔷 is largest"@,
            "🟨 is largest"@,
            "🟣 is largest"@,
        ]
    } else if card == 16 {
        seq![
            "Even > Odd"@,
            "Odd > Even"@,
        ]
    } else if card == 17 {
        seq![
            "No even #"@,
            "1 even #"@,
            "2 even #s"@,
            "3 even #s"@,
        ]
    } else if card == 18 {
        seq![
            "Sum even"@,
            "Sum odd"@,
        ]
    } else if card == 19 {
        seq![
            "🔷 + 🟨 < 6"@,
            "🔷 + 🟨 = 6"@,
            "🔷 + 🟨 > 6"@,
        ]
    } else if card == 20 {
        seq![
            "Triple #"@,
            "Double #"@,
            "No repetition"@,
        ]
    } else if card == 21 {
        seq![
            "A pairs"@,
            "No pairs"@,
        ]
    } else if card == 22 {
        seq![
            "Ascending"@,
            "Descending"@,
            "No order"@,
        ]
    } else if card == 23 {
        seq![
            "Sum < 6"@,
            "Sum = 6"@,
            "Sum > 6"@,
        ]
    } else if card == 24 {
        seq![
            "Ascending"@,
            "2 ascending"@,
            "None ascending"@,
        ]
    } else if card == 25 {
        seq![
            "No sequence asc/dsc"@,
            "2 asc/dsc"@,
            "3 asc/dsc"@,
        ]
    } else if card == 26 {
        seq![
            "🔷 < 3"@,
            "🟨 < 3"@,
            "🟣 < 3"@,
        ]
    } else if card == 27 {
        seq![
            "🔷 < 4"@,
            "🟨 < 4"@,
            "🟣 < 4"@,
        ]
    } else if card == 28 {
        seq![
            "🔷 = 1"@,
            "🟨 = 1"@,
            "🟣 = 1"@,
        ]
    } else if card == 29 {
        seq![
            "🔷 = 1"@,
            "🟨 = 1"@,
            "🟣 = 1"@,
        ]
    } else if card == 30 {
        seq![
            "🔷 = 4"@,
            "🟨 = 4"@,
            "🟣 = 4"@,
        ]
    } else if card == 31 {
        seq![
            "🔷 > 1"@,
            "🟨 > 1"@,
            "🟣 > 1"@,
        ]
    } else if card == 33 {
        seq![
            "🔷 is even"@,
            "🟨 is even"@,
            "🟣 is even"@,
            "🔷 is odd"@,
            "🟨 is odd"@,
            "🟣 is odd"@,
        ]
    } else if card == 34 {
        seq![
            "🔷 <= 🟨 & 🟣"@,
            "🟣 <= 🔷 &🟨"@,
            "🟨 <= 🔷 & 🟣"@,
        ]
    } else if card == 35 {
        seq![
            "🔷 >= 🟨 & 🟣"@,
            "🟣 >= 🔷 &🟨"@,
            "🟨 >= 🔷 & 🟣"@,
        ]
    } else if card == 36 {
        seq![
            "Sum mutiple of 3"@,
            "Sum mutiple of 4"@,
            "Sum mutiple of 5"@,
        ]
    } else if card == 37 {
        seq![
            "🔷 + 🟨 = 4"@,
            "🔷 + 🟣 = 4"@,
            "🟨 + 🟣 = 4"@,
        ]
    } else if card == 38 {
        seq![
            "🔷 + 🟨 = 6"@,
            "🔷 + 🟣 = 6"@,
            "🟨 + 🟣 = 6"@,
        ]
    } else if card == 39 {
        seq![
            "🔷 = 1"@,
            "🔷 > 1"@,
            "🟨 = 1"@,
            "🟨 > 1"@,
            "🟣 = 1"@,
            "🟣 > 1"@,
        ]
    } else if card == 40 {
        seq![
            "🔷 < 3"@,
            "🔷 = 3"@,
            "🔷 > 3"@,
            "🟨 < 3"@,
            "🟨 = 3"@,
            "🟨 > 3"@,
            "🟣 < 3"@,
            "🟣 = 3"@,
            "🟣 > 3"@,
        ]
    } else if card == 41 {
        seq![
            "🔷 < 4"@,
            "🔷 = 4"@,
            "🔷 > 4"@,
            "🟨 < 4"@,
            "🟨 = 4"@,
            "🟨 > 4"@,
            "🟣 < 4"@,
            "🟣 = 4"@,
            "🟣 > 4"@,
        ]
    } else if card == 42 {
        seq![
            "🔷 smallest"@,
            "🟨 smallest"@,
            "🟣 smallest"@,
            "🔷 largest"@,
            "🟨 largest"@,
            "🟣 largest"@,
        ]
    } else if card == 43 {
        seq![
            "🔷 < 🟨"@,
            "🔷 = 🟨"@,
            "🔷 > 🟨"@,
            "🔷 < 🟣"@,
            "🔷 = 🟣"@,
            "🔷 > 🟣"@,
        ]
    } else if card == 44 {
        seq![
            "🟨 < 🔷"@,
            "🟨 = 🔷"@,
            "🟨 > 🔷"@,
            "🟨 < 🟣"@,
            "🟨 = 🟣"@,
            "🟨 > 🟣"@,
        ]
    } else if card == 45 {
        seq![
            "No 1s"@,
            "One 1"@,
            "Two 1s"@,
            "No 3s"@,
            "One 3"@,
            "Two 3s"@,
        ]
    } else if card == 46 {
        seq![
            "No 3s"@,
            "One 3"@,
            "Two 3s"@,
            "No 4s"@,
            "One 4"@,
            "Two 4s"@,
        ]
    } else if card == 47 {
        seq![
            "No 1s"@,
            "One 1"@,
            "Two 1s"@,
            "No 4s"@,
            "One 4"@,
            "Two 4s"@,
        ]
    } else if card == 48 {
        seq![
            "🔷 < 🟨"@,
            "🔷 = 🟨"@,
            "🔷 > 🟨"@,
            "🔷 < 🟣"@,
            "🔷 = 🟣"@,
            "🔷 > 🟣"@,
            "🟨 < 🟣"@,
            "🟨 = 🟣"@,
            "🟨 > 🟣"@,
        ]
    } else {
        Seq::empty()
    }
}

/// What constraint number `idx` of card `card` says of `code`.
pub open spec fn rule(card: u8, idx: int, code: Code) -> bool {
    let said = rules(card)[idx];
    said(code)
}

/// `constraints` are those of card `num` of the catalog: one for each rule, in
/// the card's order, with the rule's place as its identity, the name that the
/// card gives it, and the rule's verdict on every code of the domain.
pub open spec fn lists(constraints: Seq<Constraint>, num: u8) -> bool {
    &&& constraints.len() == rules(num).len()
    &&& forall|i: int|
        0 <= i < constraints.len() ==> (#[trigger] constraints[i]).id == (ConstraintID {
            card: num,
            idx: i as u8,
        })
    &&& forall|i: int|
        0 <= i < constraints.len() ==> (#[trigger] constraints[i]).name@ == names(num)[i]
    &&& forall|i: int, code: Code|
        0 <= i < constraints.len() && code.valid() ==> (#[trigger] constraints[i].holds(code))
            == rule(num, i, code)
}

/// A card: the constraints that it offers as alternatives.
#[derive(Clone, Debug)]
pub struct Card {
    pub constraints: Vec<Constraint>,
}

impl Card {
    /// The card holds the constraints of card `num` of the catalog.
    pub open spec fn shows(self, num: u8) -> bool {
        lists(self.constraints@, num)
    }

    /// Numbers the given statements, in their order, as the constraints of
    /// card `num`.
    pub fn new<const N: usize>(num: u8, constraints: [(&'static str, [bool; CODE_COUNT]); N]) -> (card:
        Card)
        requires
            N <= 256,
        ensures
            card.constraints@.len() == N,
            forall|i: int|
                0 <= i < N ==> #[trigger] card.constraints@[i] == (Constraint {
                    id: ConstraintID { card: num, idx: i as u8 },
                    name: constraints@[i].0,
                    verdicts: constraints@[i].1,
                }),
    {
        let mut listed: Vec<Constraint> = Vec::new();
        let mut idx: usize = 0;
        while idx < N
            invariant
                0 <= idx <= N <= 256,
                listed@.len() == idx,
                forall|i: int|
                    0 <= i < idx ==> #[trigger] listed@[i] == (Constraint {
                        id: ConstraintID { card: num, idx: i as u8 },
                        name: constraints@[i].0,
                        verdicts: constraints@[i].1,
                    }),
            decreases N - idx,
        {
            let (name, verdicts) = constraints[idx];
            listed.push(Constraint { id: ConstraintID { card: num, idx: idx as u8 }, name, verdicts });
            idx = idx + 1;
        }
        Card { constraints: listed }
    }

    /// The card that the catalog holds under `value`, or a message for a
    /// number that names no card.
    pub fn try_from(value: u8) -> (found: Result<Card, &'static str>)
        ensures
            match found {
                Ok(card) => is_card(value) && card.shows(value),
                Err(message) => !is_card(value) && message@ == NO_MAPPING@,
            },
    {
        match value {
            1 => Ok(card_1()),
            2 => Ok(card_2()),
            3 => Ok(card_3()),
            4 => Ok(card_4()),
            5 => Ok(card_5()),
            6 => Ok(card_6()),
            7 => Ok(card_7()),
            8 => Ok(card_8()),
            9 => Ok(card_9()),
            10 => Ok(card_10()),
            11 => Ok(card_11()),
            12 => Ok(card_12()),
            13 => Ok(card_13()),
            14 => Ok(card_14()),
            15 => Ok(card_15()),
            16 => Ok(card_16()),
            17 => Ok(card_17()),
            18 => Ok(card_18()),
            19 => Ok(card_19()),
            20 => Ok(card_20()),
            21 => Ok(card_21()),
            22 => Ok(card_22()),
            23 => Ok(card_23()),
            24 => Ok(card_24()),
            25 => Ok(card_25()),
            26 => Ok(card_26()),
            27 => Ok(card_27()),
            28 => Ok(card_28()),
            29 => Ok(card_29()),
            30 => Ok(card_30()),
            31 => Ok(card_31()),
            33 => Ok(card_33()),
            34 => Ok(card_34()),
            35 => Ok(card_35()),
            36 => Ok(card_36()),
            37 => Ok(card_37()),
            38 => Ok(card_38()),
            39 => Ok(card_39()),
            40 => Ok(card_40()),
            41 => Ok(card_41()),
            42 => Ok(card_42()),
            43 => Ok(card_43()),
            44 => Ok(card_44()),
            45 => Ok(card_45()),
            46 => Ok(card_46()),
            47 => Ok(card_47()),
            48 => Ok(card_48()),
            _ => Err(NO_MAPPING),
        }
    }
}

/// What a lookup of an unknown card number answers.
pub const NO_MAPPING: &'static str = "No mapping for specified card number.";

fn count_digit(code: &Code, digit: u8) -> (n: usize)
    ensures
        n == count_of(*code, digit as int),
{
    let mut n: usize = 0;
    if code.blue() == digit {
        n = n + 1;
    }
    if code.yellow() == digit {
        n = n + 1;
    }
    if code.purple() == digit {
        n = n + 1;
    }
    n
}

fn count_even(code: &Code) -> (n: usize)
    ensures
        n == even_digits(*code),
{
    let mut n: usize = 0;
    if code.blue() % 2 == 0 {
        n = n + 1;
    }
    if code.yellow() % 2 == 0 {
        n = n + 1;
    }
    if code.purple() % 2 == 0 {
        n = n + 1;
    }
    n
}

fn count_odd(code: &Code) -> (n: usize)
    ensures
        n == odd_digits(*code),
{
    let mut n: usize = 0;
    if code.blue() % 2 != 0 {
        n = n + 1;
    }
    if code.yellow() % 2 != 0 {
        n = n + 1;
    }
    if code.purple() % 2 != 0 {
        n = n + 1;
    }
    n
}

fn digit_sum(code: &Code) -> (total: u16)
    ensures
        total == sum(*code),
{
    let blue: u16 = code.blue() as u16;
    let yellow: u16 = code.yellow() as u16;
    let purple: u16 = code.purple() as u16;
    blue + yellow + purple
}

fn count_equal_pairs(code: &Code) -> (n: usize)
    ensures
        n == equal_pairs(*code),
{
    let pairs = tuple_combinations(code.iter());
    let mut n: usize = 0;
    let mut i: usize = 0;
    while i < pairs.len()
        invariant
            0 <= i <= pairs@.len() == 3,
            pairs@ == seq![
                (code.blue, code.yellow),
                (code.blue, code.purple),
                (code.yellow, code.purple),
            ],
            n == (if i > 0 && code.blue == code.yellow { 1int } else { 0 })
                + (if i > 1 && code.blue == code.purple { 1int } else { 0 })
                + (if i > 2 && code.yellow == code.purple { 1int } else { 0 }),
        decreases pairs@.len() - i,
    {
        if pairs[i].0 == pairs[i].1 {
            n = n + 1;
        }
        i = i + 1;
    }
    n
}

fn count_rising_steps(code: &Code) -> (n: usize)
    ensures
        n == rising_steps(*code),
{
    let windows = tuple_windows(code.iter());
    let mut n: usize = 0;
    let mut i: usize = 0;
    while i < windows.len()
        invariant
            0 <= i <= windows@.len() == 2,
            windows@ == seq![(code.blue, code.yellow), (code.yellow, code.purple)],
            n == (if i > 0 && code.blue < code.yellow { 1int } else { 0 })
                + (if i > 1 && code.yellow < code.purple { 1int } else { 0 }),
        decreases windows@.len() - i,
    {
        if windows[i].0 < windows[i].1 {
            n = n + 1;
        }
        i = i + 1;
    }
    n
}

fn count_falling_steps(code: &Code) -> (n: usize)
    ensures
        n == falling_steps(*code),
{
    let windows = tuple_windows(code.iter());
    let mut n: usize = 0;
    let mut i: usize = 0;
    while i < windows.len()
        invariant
            0 <= i <= windows@.len() == 2,
            windows@ == seq![(code.blue, code.yellow), (code.yellow, code.purple)],
            n == (if i > 0 && code.blue > code.yellow { 1int } else { 0 })
                + (if i > 1 && code.yellow > code.purple { 1int } else { 0 }),
        decreases windows@.len() - i,
    {
        if windows[i].0 > windows[i].1 {
            n = n + 1;
        }
        i = i + 1;
    }
    n
}

fn count_changing_steps(code: &Code) -> (n: usize)
    ensures
        n == changing_steps(*code),
{
    let windows = tuple_windows(code.iter());
    let mut n: usize = 0;
    let mut i: usize = 0;
    while i < windows.len()
        invariant
            0 <= i <= windows@.len() == 2,
            windows@ == seq![(code.blue, code.yellow), (code.yellow, code.purple)],
            n == (if i > 0 && code.blue != code.yellow { 1int } else { 0 })
                + (if i > 1 && code.yellow != code.purple { 1int } else { 0 }),
        decreases windows@.len() - i,
    {
        if windows[i].0 != windows[i].1 {
            n = n + 1;
        }
        i = i + 1;
    }
    n
}

fn card_1() -> (card: Card)
    ensures
        card.shows(1),
{
    let rule_0 = |code: &Code| -> (b: bool)
        requires code.valid(),
        ensures b == rule(1, 0, *code),
        { code.blue() == 1 };
    let rule_1 = |code: &Code| -> (b: bool)
        requires code.valid(),
        ensures b == rule(1, 1, *code),
        { code.blue() > 1 };
    Card::new(
        1,
        [
            ("🔷 = 1", tabulate(rule_0)),
            ("🔷 > 1", tabulate(rule_1)),
        ],
    )
}

fn card_2() -> (card: Card)
    ensures
        card.shows(2),
{
    let rule_0 = |code: &Code| -> (b: bool)
        requires code.valid(),
        ensures b == rule(2, 0, *code),
        { code.blue() < 3 };
    let rule_1 = |code: &Code| -> (b: bool)
        requires code.valid(),
        ensures b == rule(2, 1, *code),
        { code.blue() == 3 };
    let rule_2 = |code: &Code| -> (b: bool)
        requires code.valid(),
        ensures b == rule(2, 2, *code),
        { code.blue() > 3 };
    Card::new(
        2,
        [
            ("🔷 < 3", tabulate(rule_0)),
            ("🔷 = 3", tabulate(rule_1)),
            ("🔷 > 3", tabulate(rule_2)),
        ],
    )
}

fn card_3() -> (card: Card)
    ensures
        card.shows(3),
{
    let rule_0 = |code: &Code| -> (b: bool)
        requires code.valid(),
        ensures b == rule(3, 0, *code),
        { code.yellow() < 3 };
    let rule_1 = |code: &Code| -> (b: bool)
        requires code.valid(),
        ensures b == rule(3, 1, *code),
        { code.yellow() == 3 };
    let rule_2 = |code: &Code| -> (b: bool)
        requires code.valid(),
        ensures b == rule(3, 2, *code),
        { code.yellow() > 3 };
    Card::new(
        3,
        [
            ("🟨 < 3", tabulate(rule_0)),
            ("🟨 = 3", tabulate(rule_1)),
            ("🟨 > 3", tabulate(rule_2)),
        ],
    )
}

fn card_4() -> (card: Card)
    ensures
        card.shows(4),
{
    let rule_0 = |code: &Code| -> (b: bool)
        requires code.valid(),
        ensures b == rule(4, 0, *code),
        { code.yellow() < 4 };
    let rule_1 = |code: &Code| -> (b: bool)
        requires code.valid(),
        ensures b == rule(4, 1, *code),
        { code.yellow() == 4 };
    let rule_2 = |code: &Code| -> (b: bool)
        requires code.valid(),
        ensures b == rule(4, 2, *code),
        { code.yellow() > 4 };
    Card::new(
        4,
        [
            ("🟨 < 4", tabulate(rule_0)),
            ("🟨 = 4", tabulate(rule_1)),
            ("🟨 > 4", tabulate(rule_2)),
        ],
    )
}

fn card_5() -> (card: Card)
    ensures
        card.shows(5),
{
    let rule_0 = |code: &Code| -> (b: bool)
        requires code.valid(),
        ensures b == rule(5, 0, *code),
        { code.blue() % 2 == 0 };
    let rule_1 = |code: &Code| -> (b: bool)
        requires code.valid(),
        ensures b == rule(5, 1, *code),
        { code.blue() % 2 != 0 };
    Card::new(
        5,
        [
            ("🔷 is even", tabulate(rule_0)),
            ("🔷 is odd", tabulate(rule_1)),
        ],
    )
}

fn card_6() -> (card: Card)
    ensures
        card.shows(6),
{
    let rule_0 = |code: &Code| -> (b: bool)
        requires code.valid(),
        ensures b == rule(6, 0, *code),
        { code.yellow() % 2 == 0 };
    let rule_1 = |code: &Code| -> (b: bool)
        requires code.valid(),
        ensures b == rule(6, 1, *code),
        { code.yellow() % 2 != 0 };
    Card::new(
        6,
        [
            ("🟨 is even", tabulate(rule_0)),
            ("🟨 is odd", tabulate(rule_1)),
        ],
    )
}

fn card_7() -> (card: Card)
    ensures
        card.shows(7),
{
    let rule_0 = |code: &Code| -> (b: bool)
        requires code.valid(),
        ensures b == rule(7, 0, *code),
        { code.purple() % 2 == 0 };
    let rule_1 = |code: &Code| -> (b: bool)
        requires code.valid(),
        ensures b == rule(7, 1, *code),
        { code.purple() % 2 != 0 };
    Card::new(
        7,
        [
            ("🟣 is even", tabulate(rule_0)),
            ("🟣 is odd", tabulate(rule_1)),
        ],
    )
}

fn card_8() -> (card: Card)
    ensures
        card.shows(8),
{
    let rule_0 = |code: &Code| -> (b: bool)
        requires code.valid(),
        ensures b == rule(8, 0, *code),
        { count_digit(code, 1) == 0 };
    let rule_1 = |code: &Code| -> (b: bool)
        requires code.valid(),
        ensures b == rule(8, 1, *code),
        { count_digit(code, 1) == 1 };
    let rule_2 = |code: &Code| -> (b: bool)
        requires code.valid(),
        ensures b == rule(8, 2, *code),
        { count_digit(code, 1) == 2 };
    let rule_3 = |code: &Code| -> (b: bool)
        requires code.valid(),
        ensures b == rule(8, 3, *code),
        { count_digit(code, 1) == 3 };
    Card::new(
        8,
        [
            ("No 1s", tabulate(rule_0)),
            ("One 1", tabulate(rule_1)),
            ("Two 1s", tabulate(rule_2)),
            ("Three 1s", tabulate(rule_3)),
        ],
    )
}

fn card_9() -> (card: Card)
    ensures
        card.shows(9),
{
    let rule_0 = |code: &Code| -> (b: bool)
        requires code.valid(),
        ensures b == rule(9, 0, *code),
        { count_digit(code, 3) == 0 };
    let rule_1 = |code: &Code| -> (b: bool)
        requires code.valid(),
        ensures b == rule(9, 1, *code),
        { count_digit(code, 3) == 1 };
    let rule_2 = |code: &Code| -> (b: bool)
        requires code.valid(),
        ensures b == rule(9, 2, *code),
        { count_digit(code, 3) == 2 };
    let rule_3 = |code: &Code| -> (b: bool)
        requires code.valid(),
        ensures b == rule(9, 3, *code),
        { count_digit(code, 3) == 3 };
    Card::new(
        9,
        [
            ("No 3s", tabulate(rule_0)),
            ("One 3", tabulate(rule_1)),
            ("Two 3s", tabulate(rule_2)),
            ("Three 3s", tabulate(rule_3)),
        ],
    )
}

fn card_10() -> (card: Card)
    ensures
        card.shows(10),
{
    let rule_0 = |code: &Code| -> (b: bool)
        requires code.valid(),
        ensures b == rule(10, 0, *code),
        { count_digit(code, 4) == 0 };
    let rule_1 = |code: &Code| -> (b: bool)
        requires code.valid(),
        ensures b == rule(10, 1, *code),
        { count_digit(code, 4) == 1 };
    let rule_2 = |code: &Code| -> (b: bool)
        requires code.valid(),
        ensures b == rule(10, 2, *code),
        { count_digit(code, 4) == 2 };
    let rule_3 = |code: &Code| -> (b: bool)
        requires code.valid(),
        ensures b == rule(10, 3, *code),
        { count_digit(code, 4) == 3 };
    Card::new(
        10,
        [
            ("No 4s", tabulate(rule_0)),
            ("One 4", tabulate(rule_1)),
            ("Two 4s", tabulate(rule_2)),
            ("Three 4s", tabulate(rule_3)),
        ],
    )
}

fn card_11() -> (card: Card)
    ensures
        card.shows(11),
{
    let rule_0 = |code: &Code| -> (b: bool)
        requires code.valid(),
        ensures b == rule(11, 0, *code),
        { code.blue() < code.yellow() };
    let rule_1 = |code: &Code| -> (b: bool)
        requires code.valid(),
        ensures b == rule(11, 1, *code),
        { code.blue() == code.yellow() };
    let rule_2 = |code: &Code| -> (b: bool)
        requires code.valid(),
        ensures b == rule(11, 2, *code),
        { code.blue() > code.yellow() };
    Card::new(
        11,
        [
            ("🔷 < 🟨", tabulate(rule_0)),
            ("🔷 = 🟨", tabulate(rule_1)),
            ("🔷 > 🟨", tabulate(rule_2)),
        ],
    )
}

fn card_12() -> (card: Card)
    ensures
        card.shows(12),
{
    let rule_0 = |code: &Code| -> (b: bool)
        requires code.valid(),
        ensures b == rule(12, 0, *code),
        { code.blue() < code.purple() };
    let rule_1 = |code: &Code| -> (b: bool)
        requires code.valid(),
        ensures b == rule(12, 1, *code),
        { code.blue() == code.purple() };
    let rule_2 = |code: &Code| -> (b: bool)
        requires code.valid(),
        ensures b == rule(12, 2, *code),
        { code.blue() > code.purple() };
    Card::new(
        12,
        [
            ("🔷 < 🟣", tabulate(rule_0)),
            ("🔷 = 🟣", tabulate(rule_1)),
            ("🔷 > 🟣", tabulate(rule_2)),
        ],
    )
}

fn card_13() -> (card: Card)
    ensures
        card.shows(13),
{
    let rule_0 = |code: &Code| -> (b: bool)
        requires code.valid(),
        ensures b == rule(13, 0, *code),
        { code.yellow() < code.purple() };
    let rule_1 = |code: &Code| -> (b: bool)
        requires code.valid(),
        ensures b == rule(13, 1, *code),
        { code.yellow() == code.purple() };
    let rule_2 = |code: &Code| -> (b: bool)
        requires code.valid(),
        ensures b == rule(13, 2, *code),
        { code.yellow() > code.purple() };
    Card::new(
        13,
        [
            ("🟨 < 🟣", tabulate(rule_0)),
            ("🟨 = 🟣", tabulate(rule_1)),
            ("🟨 > 🟣", tabulate(rule_2)),
        ],
    )
}

fn card_14() -> (card: Card)
    ensures
        card.shows(14),
{
    let rule_0 = |code: &Code| -> (b: bool)
        requires code.valid(),
        ensures b == rule(14, 0, *code),
        { code.blue() < code.yellow() && code.blue() < code.purple() };
    let rule_1 = |code: &Code| -> (b: bool)
        requires code.valid(),
        ensures b == rule(14, 1, *code),
        { code.yellow() < code.blue() && code.yellow() < code.purple() };
    let rule_2 = |code: &Code| -> (b: bool)
        requires code.valid(),
        ensures b == rule(14, 2, *code),
        { code.purple() < code.yellow() && code.purple() < code.blue() };
    Card::new(
        14,
        [
            ("🔷 smallest", tabulate(rule_0)),
            ("🟨 smallest", tabulate(rule_1)),
            ("🟣 smallest", tabulate(rule_2)),
        ],
    )
}

fn card_15() -> (card: Card)
    ensures
        card.shows(15),
{
    let rule_0 = |code: &Code| -> (b: bool)
        requires code.valid(),
        ensures b == rule(15, 0, *code),
        { code.blue() > code.yellow() && code.blue() > code.purple() };
    let rule_1 = |code: &Code| -> (b: bool)
        requires code.valid(),
        ensures b == rule(15, 1, *code),
        { code.yellow() > code.blue() && code.yellow() > code.purple() };
    let rule_2 = |code: &Code| -> (b: bool)
        requires code.valid(),
        ensures b == rule(15, 2, *code),
        { code.purple() > code.yellow() && code.purple() > code.blue() };
    Card::new(
        15,
        [
            ("🔷 is largest", tabulate(rule_0)),
            ("🟨 is largest", tabulate(rule_1)),
            ("🟣 is largest", tabulate(rule_2)),
        ],
    )
}

fn card_16() -> (card: Card)
    ensures
        card.shows(16),
{
    let rule_0 = |code: &Code| -> (b: bool)
        requires code.valid(),
        ensures b == rule(16, 0, *code),
        { count_even(code) == 2 };
    let rule_1 = |code: &Code| -> (b: bool)
        requires code.valid(),
        ensures b == rule(16, 1, *code),
        { count_odd(code) == 2 };
    Card::new(
        16,
        [
            ("Even > Odd", tabulate(rule_0)),
            ("Odd > Even", tabulate(rule_1)),
        ],
    )
}

fn card_17() -> (card: Card)
    ensures
        card.shows(17),
{
    let rule_0 = |code: &Code| -> (b: bool)
        requires code.valid(),
        ensures b == rule(17, 0, *code),
        { count_even(code) == 0 };
    let rule_1 = |code: &Code| -> (b: bool)
        requires code.valid(),
        ensures b == rule(17, 1, *code),
        { count_even(code) == 1 };
    let rule_2 = |code: &Code| -> (b: bool)
        requires code.valid(),
        ensures b == rule(17, 2, *code),
        { count_even(code) == 2 };
    let rule_3 = |code: &Code| -> (b: bool)
        requires code.valid(),
        ensures b == rule(17, 3, *code),
        { count_even(code) == 3 };
    Card::new(
        17,
        [
            ("No even #", tabulate(rule_0)),
            ("1 even #", tabulate(rule_1)),
            ("2 even #s", tabulate(rule_2)),
            ("3 even #s", tabulate(rule_3)),
        ],
    )
}

fn card_18() -> (card: Card)
    ensures
        card.shows(18),
{
    let rule_0 = |code: &Code| -> (b: bool)
        requires code.valid(),
        ensures b == rule(18, 0, *code),
        { digit_sum(code) % 2 == 0 };
    let rule_1 = |code: &Code| -> (b: bool)
        requires code.valid(),
        ensures b == rule(18, 1, *code),
        { digit_sum(code) % 2 != 0 };
    Card::new(
        18,
        [
            ("Sum even", tabulate(rule_0)),
            ("Sum odd", tabulate(rule_1)),
        ],
    )
}

fn card_19() -> (card: Card)
    ensures
        card.shows(19),
{
    let rule_0 = |code: &Code| -> (b: bool)
        requires code.valid(),
        ensures b == rule(19, 0, *code),
        { code.blue() + code.yellow() < 6 };
    let rule_1 = |code: &Code| -> (b: bool)
        requires code.valid(),
        ensures b == rule(19, 1, *code),
        { code.blue() + code.yellow() == 6 };
    let rule_2 = |code: &Code| -> (b: bool)
        requires code.valid(),
        ensures b == rule(19, 2, *code),
        { code.blue() + code.yellow() > 6 };
    Card::new(
        19,
        [
            ("🔷 + 🟨 < 6", tabulate(rule_0)),
            ("🔷 + 🟨 = 6", tabulate(rule_1)),
            ("🔷 + 🟨 > 6", tabulate(rule_2)),
        ],
    )
}

fn card_20() -> (card: Card)
    ensures
        card.shows(20),
{
    let rule_0 = |code: &Code| -> (b: bool)
        requires code.valid(),
        ensures b == rule(20, 0, *code),
        { code.blue() == code.yellow() && code.yellow() == code.purple() };
    let rule_1 = |code: &Code| -> (b: bool)
        requires code.valid(),
        ensures b == rule(20, 1, *code),
        { (code.blue() == code.yellow() && code.yellow() != code.purple()) || (code.yellow() == code.purple() && code.blue() != code.yellow()) || (code.blue() == code.purple() && code.blue() != code.yellow()) };
    let rule_2 = |code: &Code| -> (b: bool)
        requires code.valid(),
        ensures b == rule(20, 2, *code),
        { code.blue() != code.yellow() && code.yellow() != code.purple() && code.blue() != code.purple() };
    Card::new(
        20,
        [
            ("Triple #", tabulate(rule_0)),
            ("Double #", tabulate(rule_1)),
            ("No repetition", tabulate(rule_2)),
        ],
    )
}

fn card_21() -> (card: Card)
    ensures
        card.shows(21),
{
    let rule_0 = |code: &Code| -> (b: bool)
        requires code.valid(),
        ensures b == rule(21, 0, *code),
        { count_equal_pairs(code) == 1 };
    let rule_1 = |code: &Code| -> (b: bool)
        requires code.valid(),
        ensures b == rule(21, 1, *code),
        { count_equal_pairs(code) == 0 };
    Card::new(
        21,
        [
            ("A pairs", tabulate(rule_0)),
            ("No pairs", tabulate(rule_1)),
        ],
    )
}

fn card_22() -> (card: Card)
    ensures
        card.shows(22),
{
    let rule_0 = |code: &Code| -> (b: bool)
        requires code.valid(),
        ensures b == rule(22, 0, *code),
        { count_rising_steps(code) == 2 };
    let rule_1 = |code: &Code| -> (b: bool)
        requires code.valid(),
        ensures b == rule(22, 1, *code),
        { count_falling_steps(code) == 2 };
    let rule_2 = |code: &Code| -> (b: bool)
        requires code.valid(),
        ensures b == rule(22, 2, *code),
        { count_rising_steps(code) != 2 && count_falling_steps(code) != 2 };
    Card::new(
        22,
        [
            ("Ascending", tabulate(rule_0)),
            ("Descending", tabulate(rule_1)),
            ("No order", tabulate(rule_2)),
        ],
    )
}

fn card_23() -> (card: Card)
    ensures
        card.shows(23),
{
    let rule_0 = |code: &Code| -> (b: bool)
        requires code.valid(),
        ensures b == rule(23, 0, *code),
        { digit_sum(code) < 6 };
    let rule_1 = |code: &Code| -> (b: bool)
        requires code.valid(),
        ensures b == rule(23, 1, *code),
        { digit_sum(code) == 6 };
    let rule_2 = |code: &Code| -> (b: bool)
        requires code.valid(),
        ensures b == rule(23, 2, *code),
        { digit_sum(code) > 6 };
    Card::new(
        23,
        [
            ("Sum < 6", tabulate(rule_0)),
            ("Sum = 6", tabulate(rule_1)),
            ("Sum > 6", tabulate(rule_2)),
        ],
    )
}

fn card_24() -> (card: Card)
    ensures
        card.shows(24),
{
    let rule_0 = |code: &Code| -> (b: bool)
        requires code.valid(),
        ensures b == rule(24, 0, *code),
        { count_rising_steps(code) == 2 };
    let rule_1 = |code: &Code| -> (b: bool)
        requires code.valid(),
        ensures b == rule(24, 1, *code),
        { count_rising_steps(code) == 1 };
    let rule_2 = |code: &Code| -> (b: bool)
        requires code.valid(),
        ensures b == rule(24, 2, *code),
        { count_rising_steps(code) == 0 };
    Card::new(
        24,
        [
            ("Ascending", tabulate(rule_0)),
            ("2 ascending", tabulate(rule_1)),
            ("None ascending", tabulate(rule_2)),
        ],
    )
}

fn card_25() -> (card: Card)
    ensures
        card.shows(25),
{
    let rule_0 = |code: &Code| -> (b: bool)
        requires code.valid(),
        ensures b == rule(25, 0, *code),
        { count_changing_steps(code) == 2 };
    let rule_1 = |code: &Code| -> (b: bool)
        requires code.valid(),
        ensures b == rule(25, 1, *code),
        { count_changing_steps(code) == 1 };
    let rule_2 = |code: &Code| -> (b: bool)
        requires code.valid(),
        ensures b == rule(25, 2, *code),
        { count_rising_steps(code) == 2 || count_falling_steps(code) == 2 };
    Card::new(
        25,
        [
            ("No sequence asc/dsc", tabulate(rule_0)),
            ("2 asc/dsc", tabulate(rule_1)),
            ("3 asc/dsc", tabulate(rule_2)),
        ],
    )
}

fn card_26() -> (card: Card)
    ensures
        card.shows(26),
{
    let rule_0 = |code: &Code| -> (b: bool)
        requires code.valid(),
        ensures b == rule(26, 0, *code),
        { code.blue() < 3 };
    let rule_1 = |code: &Code| -> (b: bool)
        requires code.valid(),
        ensures b == rule(26, 1, *code),
        { code.yellow() < 3 };
    let rule_2 = |code: &Code| -> (b: bool)
        requires code.valid(),
        ensures b == rule(26, 2, *code),
        { code.purple() < 3 };
    Card::new(
        26,
        [
            ("🔷 < 3", tabulate(rule_0)),
            ("🟨 < 3", tabulate(rule_1)),
            ("🟣 < 3", tabulate(rule_2)),
        ],
    )
}

fn card_27() -> (card: Card)
    ensures
        card.shows(27),
{
    let rule_0 = |code: &Code| -> (b: bool)
        requires code.valid(),
        ensures b == rule(27, 0, *code),
        { code.blue() < 4 };
    let rule_1 = |code: &Code| -> (b: bool)
        requires code.valid(),
        ensures b == rule(27, 1, *code),
        { code.yellow() < 4 };
    let rule_2 = |code: &Code| -> (b: bool)
        requires code.valid(),
        ensures b == rule(27, 2, *code),
        { code.purple() < 4 };
    Card::new(
        27,
        [
            ("🔷 < 4", tabulate(rule_0)),
            ("🟨 < 4", tabulate(rule_1)),
            ("🟣 < 4", tabulate(rule_2)),
        ],
    )
}

fn card_28() -> (card: Card)
    ensures
        card.shows(28),
{
    let rule_0 = |code: &Code| -> (b: bool)
        requires code.valid(),
        ensures b == rule(28, 0, *code),
        { code.blue() == 1 };
    let rule_1 = |code: &Code| -> (b: bool)
        requires code.valid(),
        ensures b == rule(28, 1, *code),
        { code.yellow() == 1 };
    let rule_2 = |code: &Code| -> (b: bool)
        requires code.valid(),
        ensures b == rule(28, 2, *code),
        { code.purple() == 1 };
    Card::new(
        28,
        [
            ("🔷 = 1", tabulate(rule_0)),
            ("🟨 = 1", tabulate(rule_1)),
            ("🟣 = 1", tabulate(rule_2)),
        ],
    )
}

fn card_29() -> (card: Card)
    ensures
        card.shows(29),
{
    let rule_0 = |code: &Code| -> (b: bool)
        requires code.valid(),
        ensures b == rule(29, 0, *code),
        { code.blue() == 3 };
    let rule_1 = |code: &Code| -> (b: bool)
        requires code.valid(),
        ensures b == rule(29, 1, *code),
        { code.yellow() == 3 };
    let rule_2 = |code: &Code| -> (b: bool)
        requires code.valid(),
        ensures b == rule(29, 2, *code),
        { code.purple() == 3 };
    Card::new(
        29,
        [
            ("🔷 = 1", tabulate(rule_0)),
            ("🟨 = 1", tabulate(rule_1)),
            ("🟣 = 1", tabulate(rule_2)),
        ],
    )
}

fn card_30() -> (card: Card)
    ensures
        card.shows(30),
{
    let rule_0 = |code: &Code| -> (b: bool)
        requires code.valid(),
        ensures b == rule(30, 0, *code),
        { code.blue() == 4 };
    let rule_1 = |code: &Code| -> (b: bool)
        requires code.valid(),
        ensures b == rule(30, 1, *code),
        { code.yellow() == 4 };
    let rule_2 = |code: &Code| -> (b: bool)
        requires code.valid(),
        ensures b == rule(30, 2, *code),
        { code.purple() == 4 };
    Card::new(
        30,
        [
            ("🔷 = 4", tabulate(rule_0)),
            ("🟨 = 4", tabulate(rule_1)),
            ("🟣 = 4", tabulate(rule_2)),
        ],
    )
}

fn card_31() -> (card: Card)
    ensures
        card.shows(31),
{
    let rule_0 = |code: &Code| -> (b: bool)
        requires code.valid(),
        ensures b == rule(31, 0, *code),
        { code.blue() > 1 };
    let rule_1 = |code: &Code| -> (b: bool)
        requires code.valid(),
        ensures b == rule(31, 1, *code),
        { code.yellow() > 1 };
    let rule_2 = |code: &Code| -> (b: bool)
        requires code.valid(),
        ensures b == rule(31, 2, *code),
        { code.purple() > 1 };
    Card::new(
        31,
        [
            ("🔷 > 1", tabulate(rule_0)),
            ("🟨 > 1", tabulate(rule_1)),
            ("🟣 > 1", tabulate(rule_2)),
        ],
    )
}

fn card_33() -> (card: Card)
    ensures
        card.shows(33),
{
    let rule_0 = |code: &Code| -> (b: bool)
        requires code.valid(),
        ensures b == rule(33, 0, *code),
        { code.blue() % 2 == 0 };
    let rule_1 = |code: &Code| -> (b: bool)
        requires code.valid(),
        ensures b == rule(33, 1, *code),
        { code.yellow() % 2 == 0 };
    let rule_2 = |code: &Code| -> (b: bool)
        requires code.valid(),
        ensures b == rule(33, 2, *code),
        { code.purple() % 2 == 0 };
    let rule_3 = |code: &Code| -> (b: bool)
        requires code.valid(),
        ensures b == rule(33, 3, *code),
        { code.blue() % 2 != 0 };
    let rule_4 = |code: &Code| -> (b: bool)
        requires code.valid(),
        ensures b == rule(33, 4, *code),
        { code.yellow() % 2 != 0 };
    let rule_5 = |code: &Code| -> (b: bool)
        requires code.valid(),
        ensures b == rule(33, 5, *code),
        { code.purple() % 2 != 0 };
    Card::new(
        33,
        [
            ("🔷 is even", tabulate(rule_0)),
            ("🟨 is even", tabulate(rule_1)),
            ("🟣 is even", tabulate(rule_2)),
            ("🔷 is odd", tabulate(rule_3)),
            ("🟨 is odd", tabulate(rule_4)),
            ("🟣 is odd", tabulate(rule_5)),
        ],
    )
}

fn card_34() -> (card: Card)
    ensures
        card.shows(34),
{
    let rule_0 = |code: &Code| -> (b: bool)
        requires code.valid(),
        ensures b == rule(34, 0, *code),
        { code.blue() <= code.yellow() && code.blue() <= code.purple() };
    let rule_1 = |code: &Code| -> (b: bool)
        requires code.valid(),
        ensures b == rule(34, 1, *code),
        { code.yellow() <= code.blue() && code.yellow() <= code.purple() };
    let rule_2 = |code: &Code| -> (b: bool)
        requires code.valid(),
        ensures b == rule(34, 2, *code),
        { code.purple() <= code.blue() && code.purple() <= code.yellow() };
    Card::new(
        34,
        [
            ("🔷 <= 🟨 & 🟣", tabulate(rule_0)),
            ("🟣 <= 🔷 &🟨", tabulate(rule_1)),
            ("🟨 <= 🔷 & 🟣", tabulate(rule_2)),
        ],
    )
}

fn card_35() -> (card: Card)
    ensures
        card.shows(35),
{
    let rule_0 = |code: &Code| -> (b: bool)
        requires code.valid(),
        ensures b == rule(35, 0, *code),
        { code.blue() >= code.yellow() && code.blue() >= code.purple() };
    let rule_1 = |code: &Code| -> (b: bool)
        requires code.valid(),
        ensures b == rule(35, 1, *code),
        { code.yellow() >= code.blue() && code.yellow() >= code.purple() };
    let rule_2 = |code: &Code| -> (b: bool)
        requires code.valid(),
        ensures b == rule(35, 2, *code),
        { code.purple() >= code.blue() && code.purple() >= code.yellow() };
    Card::new(
        35,
        [
            ("🔷 >= 🟨 & 🟣", tabulate(rule_0)),
            ("🟣 >= 🔷 &🟨", tabulate(rule_1)),
            ("🟨 >= 🔷 & 🟣", tabulate(rule_2)),
        ],
    )
}

fn card_36() -> (card: Card)
    ensures
        card.shows(36),
{
    let rule_0 = |code: &Code| -> (b: bool)
        requires code.valid(),
        ensures b == rule(36, 0, *code),
        { digit_sum(code) % 3 == 0 };
    let rule_1 = |code: &Code| -> (b: bool)
        requires code.valid(),
        ensures b == rule(36, 1, *code),
        { digit_sum(code) % 4 == 0 };
    let rule_2 = |code: &Code| -> (b: bool)
        requires code.valid(),
        ensures b == rule(36, 2, *code),
        { digit_sum(code) % 5 == 0 };
    Card::new(
        36,
        [
            ("Sum mutiple of 3", tabulate(rule_0)),
            ("Sum mutiple of 4", tabulate(rule_1)),
            ("Sum mutiple of 5", tabulate(rule_2)),
        ],
    )
}

fn card_37() -> (card: Card)
    ensures
        card.shows(37),
{
    let rule_0 = |code: &Code| -> (b: bool)
        requires code.valid(),
        ensures b == rule(37, 0, *code),
        { code.blue() + code.yellow() == 4 };
    let rule_1 = |code: &Code| -> (b: bool)
        requires code.valid(),
        ensures b == rule(37, 1, *code),
        { code.blue() + code.purple() == 4 };
    let rule_2 = |code: &Code| -> (b: bool)
        requires code.valid(),
        ensures b == rule(37, 2, *code),
        { code.yellow() + code.purple() == 4 };
    Card::new(
        37,
        [
            ("🔷 + 🟨 = 4", tabulate(rule_0)),
            ("🔷 + 🟣 = 4", tabulate(rule_1)),
            ("🟨 + 🟣 = 4", tabulate(rule_2)),
        ],
    )
}

fn card_38() -> (card: Card)
    ensures
        card.shows(38),
{
    let rule_0 = |code: &Code| -> (b: bool)
        requires code.valid(),
        ensures b == rule(38, 0, *code),
        { code.blue() + code.yellow() == 6 };
    let rule_1 = |code: &Code| -> (b: bool)
        requires code.valid(),
        ensures b == rule(38, 1, *code),
        { code.blue() + code.purple() == 6 };
    let rule_2 = |code: &Code| -> (b: bool)
        requires code.valid(),
        ensures b == rule(38, 2, *code),
        { code.yellow() + code.purple() == 6 };
    Card::new(
        38,
        [
            ("🔷 + 🟨 = 6", tabulate(rule_0)),
            ("🔷 + 🟣 = 6", tabulate(rule_1)),
            ("🟨 + 🟣 = 6", tabulate(rule_2)),
        ],
    )
}

fn card_39() -> (card: Card)
    ensures
        card.shows(39),
{
    let rule_0 = |code: &Code| -> (b: bool)
        requires code.valid(),
        ensures b == rule(39, 0, *code),
        { code.blue() == 1 };
    let rule_1 = |code: &Code| -> (b: bool)
        requires code.valid(),
        ensures b == rule(39, 1, *code),
        { code.blue() > 1 };
    let rule_2 = |code: &Code| -> (b: bool)
        requires code.valid(),
        ensures b == rule(39, 2, *code),
        { code.yellow() == 1 };
    let rule_3 = |code: &Code| -> (b: bool)
        requires code.valid(),
        ensures b == rule(39, 3, *code),
        { code.yellow() > 1 };
    let rule_4 = |code: &Code| -> (b: bool)
        requires code.valid(),
        ensures b == rule(39, 4, *code),
        { code.purple() == 1 };
    let rule_5 = |code: &Code| -> (b: bool)
        requires code.valid(),
        ensures b == rule(39, 5, *code),
        { code.purple() > 1 };
    Card::new(
        39,
        [
            ("🔷 = 1", tabulate(rule_0)),
            ("🔷 > 1", tabulate(rule_1)),
            ("🟨 = 1", tabulate(rule_2)),
            ("🟨 > 1", tabulate(rule_3)),
            ("🟣 = 1", tabulate(rule_4)),
            ("🟣 > 1", tabulate(rule_5)),
        ],
    )
}

fn card_40() -> (card: Card)
    ensures
        card.shows(40),
{
    let rule_0 = |code: &Code| -> (b: bool)
        requires code.valid(),
        ensures b == rule(40, 0, *code),
        { code.blue() < 3 };
    let rule_1 = |code: &Code| -> (b: bool)
        requires code.valid(),
        ensures b == rule(40, 1, *code),
        { code.blue() == 3 };
    let rule_2 = |code: &Code| -> (b: bool)
        requires code.valid(),
        ensures b == rule(40, 2, *code),
        { code.blue() > 3 };
    let rule_3 = |code: &Code| -> (b: bool)
        requires code.valid(),
        ensures b == rule(40, 3, *code),
        { code.yellow() < 3 };
    let rule_4 = |code: &Code| -> (b: bool)
        requires code.valid(),
        ensures b == rule(40, 4, *code),
        { code.yellow() == 3 };
    let rule_5 = |code: &Code| -> (b: bool)
        requires code.valid(),
        ensures b == rule(40, 5, *code),
        { code.yellow() > 3 };
    let rule_6 = |code: &Code| -> (b: bool)
        requires code.valid(),
        ensures b == rule(40, 6, *code),
        { code.purple() < 3 };
    let rule_7 = |code: &Code| -> (b: bool)
        requires code.valid(),
        ensures b == rule(40, 7, *code),
        { code.purple() == 3 };
    let rule_8 = |code: &Code| -> (b: bool)
        requires code.valid(),
        ensures b == rule(40, 8, *code),
        { code.purple() > 3 };
    Card::new(
        40,
        [
            ("🔷 < 3", tabulate(rule_0)),
            ("🔷 = 3", tabulate(rule_1)),
            ("🔷 > 3", tabulate(rule_2)),
            ("🟨 < 3", tabulate(rule_3)),
            ("🟨 = 3", tabulate(rule_4)),
            ("🟨 > 3", tabulate(rule_5)),
            ("🟣 < 3", tabulate(rule_6)),
            ("🟣 = 3", tabulate(rule_7)),
            ("🟣 > 3", tabulate(rule_8)),
        ],
    )
}

fn card_41() -> (card: Card)
    ensures
        card.shows(41),
{
    let rule_0 = |code: &Code| -> (b: bool)
        requires code.valid(),
        ensures b == rule(41, 0, *code),
        { code.blue() < 4 };
    let rule_1 = |code: &Code| -> (b: bool)
        requires code.valid(),
        ensures b == rule(41, 1, *code),
        { code.blue() == 4 };
    let rule_2 = |code: &Code| -> (b: bool)
        requires code.valid(),
        ensures b == rule(41, 2, *code),
        { code.blue() > 4 };
    let rule_3 = |code: &Code| -> (b: bool)
        requires code.valid(),
        ensures b == rule(41, 3, *code),
        { code.yellow() < 4 };
    let rule_4 = |code: &Code| -> (b: bool)
        requires code.valid(),
        ensures b == rule(41, 4, *code),
        { code.yellow() == 4 };
    let rule_5 = |code: &Code| -> (b: bool)
        requires code.valid(),
        ensures b == rule(41, 5, *code),
        { code.yellow() > 4 };
    let rule_6 = |code: &Code| -> (b: bool)
        requires code.valid(),
        ensures b == rule(41, 6, *code),
        { code.purple() < 4 };
    let rule_7 = |code: &Code| -> (b: bool)
        requires code.valid(),
        ensures b == rule(41, 7, *code),
        { code.purple() == 4 };
    let rule_8 = |code: &Code| -> (b: bool)
        requires code.valid(),
        ensures b == rule(41, 8, *code),
        { code.purple() > 4 };
    Card::new(
        41,
        [
            ("🔷 < 4", tabulate(rule_0)),
            ("🔷 = 4", tabulate(rule_1)),
            ("🔷 > 4", tabulate(rule_2)),
            ("🟨 < 4", tabulate(rule_3)),
            ("🟨 = 4", tabulate(rule_4)),
            ("🟨 > 4", tabulate(rule_5)),
            ("🟣 < 4", tabulate(rule_6)),
            ("🟣 = 4", tabulate(rule_7)),
            ("🟣 > 4", tabulate(rule_8)),
        ],
    )
}

fn card_42() -> (card: Card)
    ensures
        card.shows(42),
{
    let rule_0 = |code: &Code| -> (b: bool)
        requires code.valid(),
        ensures b == rule(42, 0, *code),
        { code.blue() < code.yellow() && code.blue() < code.purple() };
    let rule_1 = |code: &Code| -> (b: bool)
        requires code.valid(),
        ensures b == rule(42, 1, *code),
        { code.yellow() < code.blue() && code.yellow() < code.purple() };
    let rule_2 = |code: &Code| -> (b: bool)
        requires code.valid(),
        ensures b == rule(42, 2, *code),
        { code.purple() < code.yellow() && code.purple() < code.blue() };
    let rule_3 = |code: &Code| -> (b: bool)
        requires code.valid(),
        ensures b == rule(42, 3, *code),
        { code.blue() > code.yellow() && code.blue() > code.purple() };
    let rule_4 = |code: &Code| -> (b: bool)
        requires code.valid(),
        ensures b == rule(42, 4, *code),
        { code.yellow() > code.blue() && code.yellow() > code.purple() };
    let rule_5 = |code: &Code| -> (b: bool)
        requires code.valid(),
        ensures b == rule(42, 5, *code),
        { code.purple() > code.yellow() && code.purple() > code.blue() };
    Card::new(
        42,
        [
            ("🔷 smallest", tabulate(rule_0)),
            ("🟨 smallest", tabulate(rule_1)),
            ("🟣 smallest", tabulate(rule_2)),
            ("🔷 largest", tabulate(rule_3)),
            ("🟨 largest", tabulate(rule_4)),
            ("🟣 largest", tabulate(rule_5)),
        ],
    )
}

fn card_43() -> (card: Card)
    ensures
        card.shows(43),
{
    let rule_0 = |code: &Code| -> (b: bool)
        requires code.valid(),
        ensures b == rule(43, 0, *code),
        { code.blue() < code.yellow() };
    let rule_1 = |code: &Code| -> (b: bool)
        requires code.valid(),
        ensures b == rule(43, 1, *code),
        { code.blue() == code.yellow() };
    let rule_2 = |code: &Code| -> (b: bool)
        requires code.valid(),
        ensures b == rule(43, 2, *code),
        { code.blue() > code.yellow() };
    let rule_3 = |code: &Code| -> (b: bool)
        requires code.valid(),
        ensures b == rule(43, 3, *code),
        { code.blue() < code.purple() };
    let rule_4 = |code: &Code| -> (b: bool)
        requires code.valid(),
        ensures b == rule(43, 4, *code),
        { code.blue() == code.purple() };
    let rule_5 = |code: &Code| -> (b: bool)
        requires code.valid(),
        ensures b == rule(43, 5, *code),
        { code.blue() > code.purple() };
    Card::new(
        43,
        [
            ("🔷 < 🟨", tabulate(rule_0)),
            ("🔷 = 🟨", tabulate(rule_1)),
            ("🔷 > 🟨", tabulate(rule_2)),
            ("🔷 < 🟣", tabulate(rule_3)),
            ("🔷 = 🟣", tabulate(rule_4)),
            ("🔷 > 🟣", tabulate(rule_5)),
        ],
    )
}

fn card_44() -> (card: Card)
    ensures
        card.shows(44),
{
    let rule_0 = |code: &Code| -> (b: bool)
        requires code.valid(),
        ensures b == rule(44, 0, *code),
        { code.yellow() < code.blue() };
    let rule_1 = |code: &Code| -> (b: bool)
        requires code.valid(),
        ensures b == rule(44, 1, *code),
        { code.yellow() == code.blue() };
    let rule_2 = |code: &Code| -> (b: bool)
        requires code.valid(),
        ensures b == rule(44, 2, *code),
        { code.yellow() > code.blue() };
    let rule_3 = |code: &Code| -> (b: bool)
        requires code.valid(),
        ensures b == rule(44, 3, *code),
        { code.yellow() < code.purple() };
    let rule_4 = |code: &Code| -> (b: bool)
        requires code.valid(),
        ensures b == rule(44, 4, *code),
        { code.yellow() == code.purple() };
    let rule_5 = |code: &Code| -> (b: bool)
        requires code.valid(),
        ensures b == rule(44, 5, *code),
        { code.yellow() > code.purple() };
    Card::new(
        44,
        [
            ("🟨 < 🔷", tabulate(rule_0)),
            ("🟨 = 🔷", tabulate(rule_1)),
            ("🟨 > 🔷", tabulate(rule_2)),
            ("🟨 < 🟣", tabulate(rule_3)),
            ("🟨 = 🟣", tabulate(rule_4)),
            ("🟨 > 🟣", tabulate(rule_5)),
        ],
    )
}

fn card_45() -> (card: Card)
    ensures
        card.shows(45),
{
    let rule_0 = |code: &Code| -> (b: bool)
        requires code.valid(),
        ensures b == rule(45, 0, *code),
        { count_digit(code, 1) == 0 };
    let rule_1 = |code: &Code| -> (b: bool)
        requires code.valid(),
        ensures b == rule(45, 1, *code),
        { count_digit(code, 1) == 1 };
    let rule_2 = |code: &Code| -> (b: bool)
        requires code.valid(),
        ensures b == rule(45, 2, *code),
        { count_digit(code, 1) == 2 };
    let rule_3 = |code: &Code| -> (b: bool)
        requires code.valid(),
        ensures b == rule(45, 3, *code),
        { count_digit(code, 3) == 0 };
    let rule_4 = |code: &Code| -> (b: bool)
        requires code.valid(),
        ensures b == rule(45, 4, *code),
        { count_digit(code, 3) == 1 };
    let rule_5 = |code: &Code| -> (b: bool)
        requires code.valid(),
        ensures b == rule(45, 5, *code),
        { count_digit(code, 3) == 2 };
    Card::new(
        45,
        [
            ("No 1s", tabulate(rule_0)),
            ("One 1", tabulate(rule_1)),
            ("Two 1s", tabulate(rule_2)),
            ("No 3s", tabulate(rule_3)),
            ("One 3", tabulate(rule_4)),
            ("Two 3s", tabulate(rule_5)),
        ],
    )
}

fn card_46() -> (card: Card)
    ensures
        card.shows(46),
{
    let rule_0 = |code: &Code| -> (b: bool)
        requires code.valid(),
        ensures b == rule(46, 0, *code),
        { count_digit(code, 3) == 0 };
    let rule_1 = |code: &Code| -> (b: bool)
        requires code.valid(),
        ensures b == rule(46, 1, *code),
        { count_digit(code, 3) == 1 };
    let rule_2 = |code: &Code| -> (b: bool)
        requires code.valid(),
        ensures b == rule(46, 2, *code),
        { count_digit(code, 3) == 2 };
    let rule_3 = |code: &Code| -> (b: bool)
        requires code.valid(),
        ensures b == rule(46, 3, *code),
        { count_digit(code, 4) == 0 };
    let rule_4 = |code: &Code| -> (b: bool)
        requires code.valid(),
        ensures b == rule(46, 4, *code),
        { count_digit(code, 4) == 1 };
    let rule_5 = |code: &Code| -> (b: bool)
        requires code.valid(),
        ensures b == rule(46, 5, *code),
        { count_digit(code, 4) == 2 };
    Card::new(
        46,
        [
            ("No 3s", tabulate(rule_0)),
            ("One 3", tabulate(rule_1)),
            ("Two 3s", tabulate(rule_2)),
            ("No 4s", tabulate(rule_3)),
            ("One 4", tabulate(rule_4)),
            ("Two 4s", tabulate(rule_5)),
        ],
    )
}

fn card_47() -> (card: Card)
    ensures
        card.shows(47),
{
    let rule_0 = |code: &Code| -> (b: bool)
        requires code.valid(),
        ensures b == rule(47, 0, *code),
        { count_digit(code, 1) == 0 };
    let rule_1 = |code: &Code| -> (b: bool)
        requires code.valid(),
        ensures b == rule(47, 1, *code),
        { count_digit(code, 1) == 1 };
    let rule_2 = |code: &Code| -> (b: bool)
        requires code.valid(),
        ensures b == rule(47, 2, *code),
        { count_digit(code, 1) == 2 };
    let rule_3 = |code: &Code| -> (b: bool)
        requires code.valid(),
        ensures b == rule(47, 3, *code),
        { count_digit(code, 4) == 0 };
    let rule_4 = |code: &Code| -> (b: bool)
        requires code.valid(),
        ensures b == rule(47, 4, *code),
        { count_digit(code, 4) == 1 };
    let rule_5 = |code: &Code| -> (b: bool)
        requires code.valid(),
        ensures b == rule(47, 5, *code),
        { count_digit(code, 4) == 2 };
    Card::new(
        47,
        [
            ("No 1s", tabulate(rule_0)),
            ("One 1", tabulate(rule_1)),
            ("Two 1s", tabulate(rule_2)),
            ("No 4s", tabulate(rule_3)),
            ("One 4", tabulate(rule_4)),
            ("Two 4s", tabulate(rule_5)),
        ],
    )
}

fn card_48() -> (card: Card)
    ensures
        card.shows(48),
{
    let rule_0 = |code: &Code| -> (b: bool)
        requires code.valid(),
        ensures b == rule(48, 0, *code),
        { code.blue() < code.yellow() };
    let rule_1 = |code: &Code| -> (b: bool)
        requires code.valid(),
        ensures b == rule(48, 1, *code),
        { code.blue() == code.yellow() };
    let rule_2 = |code: &Code| -> (b: bool)
        requires code.valid(),
        ensures b == rule(48, 2, *code),
        { code.blue() > code.yellow() };
    let rule_3 = |code: &Code| -> (b: bool)
        requires code.valid(),
        ensures b == rule(48, 3, *code),
        { code.blue() < code.purple() };
    let rule_4 = |code: &Code| -> (b: bool)
        requires code.valid(),
        ensures b == rule(48, 4, *code),
        { code.blue() == code.purple() };
    let rule_5 = |code: &Code| -> (b: bool)
        requires code.valid(),
        ensures b == rule(48, 5, *code),
        { code.blue() > code.purple() };
    let rule_6 = |code: &Code| -> (b: bool)
        requires code.valid(),
        ensures b == rule(48, 6, *code),
        { code.yellow() < code.purple() };
    let rule_7 = |code: &Code| -> (b: bool)
        requires code.valid(),
        ensures b == rule(48, 7, *code),
        { code.yellow() == code.purple() };
    let rule_8 = |code: &Code| -> (b: bool)
        requires code.valid(),
        ensures b == rule(48, 8, *code),
        { code.yellow() > code.purple() };
    Card::new(
        48,
        [
            ("🔷 < 🟨", tabulate(rule_0)),
            ("🔷 = 🟨", tabulate(rule_1)),
            ("🔷 > 🟨", tabulate(rule_2)),
            ("🔷 < 🟣", tabulate(rule_3)),
            ("🔷 = 🟣", tabulate(rule_4)),
            ("🔷 > 🟣", tabulate(rule_5)),
            ("🟨 < 🟣", tabulate(rule_6)),
            ("🟨 = 🟣", tabulate(rule_7)),
            ("🟨 > 🟣", tabulate(rule_8)),
        ],
    )
}

} // verus!
