//! Codes: the 125 candidate answers and their enumeration.

use crate::adaptors::{cartesian_pairs, cartesian_product};
use crate::text::{decimal, push_decimal};
use vstd::prelude::*;

verus! {

/// Smallest digit that a position of a code may show.
pub const MIN_DIGIT: u8 = 1;

/// Largest digit that a position of a code may show.
pub const MAX_DIGIT: u8 = 5;

/// Number of codes in the domain.
pub const CODE_COUNT: usize = 125;

/// A candidate answer: one digit for each of the three positions.
#[derive(Copy, Clone, PartialEq, Eq, Structural, Hash, Debug)]
pub struct Code {
    pub blue: u8,
    pub yellow: u8,
    pub purple: u8,
}

/// Whether `d` is a digit that a code of the domain may show.
pub open spec fn is_digit(d: int) -> bool {
    MIN_DIGIT <= d <= MAX_DIGIT
}

impl Code {
    /// A code belongs to the domain when each of its digits lies in 1..=5.
    pub open spec fn valid(self) -> bool {
        is_digit(self.blue as int) && is_digit(self.yellow as int) && is_digit(self.purple as int)
    }

    /// Position of a code of the domain in its lexicographic enumeration.
    pub open spec fn index(self) -> int {
        (self.blue - 1) * 25 + (self.yellow - 1) * 5 + (self.purple - 1)
    }

    /// The code that stands at position `i` of the enumeration.
    pub open spec fn at(i: int) -> Code {
        Code {
            blue: (i / 25 + 1) as u8,
            yellow: ((i / 5) % 5 + 1) as u8,
            purple: (i % 5 + 1) as u8,
        }
    }

    /// The digits in the order in which they are written.
    pub open spec fn digits(self) -> Seq<u8> {
        seq![self.blue, self.yellow, self.purple]
    }

    /// The code as text: its three digits in decimal, one after the other.
    pub open spec fn text(self) -> Seq<char> {
        decimal(self.blue as nat) + decimal(self.yellow as nat) + decimal(self.purple as nat)
    }

    /// Builds a code from its digits; `None` when a digit is outside 1..=5.
    pub fn new(blue: u8, yellow: u8, purple: u8) -> (code: Option<Code>)
        ensures
            code == (if (Code { blue, yellow, purple }).valid() {
                Some(Code { blue, yellow, purple })
            } else {
                None
            }),
    {
        if MIN_DIGIT <= blue && blue <= MAX_DIGIT && MIN_DIGIT <= yellow && yellow <= MAX_DIGIT
            && MIN_DIGIT <= purple && purple <= MAX_DIGIT {
            Some(Code { blue, yellow, purple })
        } else {
            None
        }
    }

    /// The three digits, in the order blue, yellow, purple.
    pub fn iter(&self) -> (digits: [u8; 3])
        ensures
            digits@ == self.digits(),
    {
        let digits = [self.blue, self.yellow, self.purple];
        digits
    }

    /// The digit in the first position.
    pub fn blue(&self) -> (digit: u8)
        ensures
            digit == self.blue,
    {
        self.blue
    }

    /// The digit in the second position.
    pub fn yellow(&self) -> (digit: u8)
        ensures
            digit == self.yellow,
    {
        self.yellow
    }

    /// The digit in the third position.
    pub fn purple(&self) -> (digit: u8)
        ensures
            digit == self.purple,
    {
        self.purple
    }

    /// Position of the code in the enumeration of the domain, `None` for a
    /// code outside it.
    pub fn position(&self) -> (i: Option<usize>)
        ensures
            i == (if self.valid() {
                Some(self.index() as usize)
            } else {
                None
            }),
            self.valid() ==> 0 <= self.index() < CODE_COUNT,
    {
        if MIN_DIGIT <= self.blue && self.blue <= MAX_DIGIT && MIN_DIGIT <= self.yellow
            && self.yellow <= MAX_DIGIT && MIN_DIGIT <= self.purple && self.purple <= MAX_DIGIT {
            let b: usize = (self.blue - 1) as usize;
            let y: usize = (self.yellow - 1) as usize;
            let p: usize = (self.purple - 1) as usize;
            Some(b * 25 + y * 5 + p)
        } else {
            None
        }
    }

    /// Every code of the domain, in lexicographic order.
    pub fn all() -> (codes: Vec<Code>)
        ensures
            codes@.len() == CODE_COUNT,
            forall|i: int| 0 <= i < CODE_COUNT ==> codes@[i] == Code::at(i),
    {
        let mut digits: Vec<u8> = Vec::new();
        let mut d: u8 = MIN_DIGIT;
        while d <= MAX_DIGIT
            invariant
                MIN_DIGIT <= d <= MAX_DIGIT + 1,
                digits@.len() == d - MIN_DIGIT,
                forall|i: int| 0 <= i < digits@.len() ==> digits@[i] == i + 1,
            decreases MAX_DIGIT + 1 - d,
        {
            digits.push(d);
            d = d + 1;
        }
        let triples = cartesian_product(&digits, &digits, &digits);
        let ghost pairs = cartesian_pairs(digits@, digits@);
        assert(pairs.len() == 25) by (nonlinear_arith)
            requires
                pairs.len() == digits@.len() * digits@.len(),
                digits@.len() == 5,
        ;
        let mut codes: Vec<Code> = Vec::new();
        let mut k: usize = 0;
        while k < triples.len()
            invariant
                0 <= k <= triples@.len(),
                triples@.len() == CODE_COUNT,
                triples@ == cartesian_pairs(pairs, digits@),
                pairs == cartesian_pairs(digits@, digits@),
                digits@.len() == 5,
                forall|i: int| 0 <= i < digits@.len() ==> digits@[i] == i + 1,
                codes@.len() == k,
                forall|i: int| 0 <= i < k ==> codes@[i] == Code::at(i),
            decreases triples@.len() - k,
        {
            let triple = triples[k];
            let code = Code { blue: (triple.0).0, yellow: (triple.0).1, purple: triple.1 };
            codes.push(code);
            k = k + 1;
        }
        codes
    }

    /// The code as text: its three digits, one after the other.
    pub fn to_string(&self) -> (s: String)
        ensures
            s@ == self.text(),
    {
        let mut s = String::new();
        push_decimal(&mut s, self.blue);
        push_decimal(&mut s, self.yellow);
        push_decimal(&mut s, self.purple);
        s
    }
}

/// A code of the domain stands in the enumeration at its own position.
pub proof fn lemma_code_at_index(code: Code)
    requires
        code.valid(),
    ensures
        0 <= code.index() < CODE_COUNT,
        Code::at(code.index()) == code,
{
}

/// Every position of the enumeration holds a code of the domain, and no two
/// positions hold the same code.
pub proof fn lemma_index_of_code_at(i: int)
    requires
        0 <= i < CODE_COUNT,
    ensures
        Code::at(i).valid(),
        Code::at(i).index() == i,
{
}

} // verus!
