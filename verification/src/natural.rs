//! Natural numbers of any size: the candidates that are tested, and the divisor
//! indices that they are tested with.

use vstd::prelude::*;

verus! {

/// A natural number of any size, held as its digits in base 2^32.
#[derive(Debug)]
pub struct Natural {
    /// The digits, least significant first. Zeros at the end change nothing.
    pub digits: Vec<u32>,
}

/// The number that a sequence of digits in base 2^32 stands for, least
/// significant digit first.
pub open spec fn digits_value(digits: Seq<u32>) -> nat
    decreases digits.len(),
{
    if digits.len() == 0 {
        0
    } else {
        (digits[0] as nat) + 0x1_0000_0000 * digits_value(digits.drop_first())
    }
}

impl View for Natural {
    type V = nat;

    open spec fn view(&self) -> nat {
        digits_value(self.digits@)
    }
}

/// The number as an integer, as the arithmetic of the contracts takes it.
pub open spec fn integer(n: Natural) -> int {
    n@ as int
}

/// The integers that a list of numbers holds.
pub open spec fn integers(list: Seq<Natural>) -> Seq<int> {
    Seq::new(list.len(), |i: int| integer(list[i]))
}

impl Natural {
    /// The number that a machine word holds.
    pub fn from_u64(word: u64) -> (number: Natural)
        ensures
            integer(number) == word,
    {
        let low: u32 = (word % 0x1_0000_0000) as u32;
        let high: u32 = (word / 0x1_0000_0000) as u32;
        let mut digits: Vec<u32> = Vec::new();
        digits.push(low);
        digits.push(high);
        proof {
            assert(digits@.drop_first() =~= seq![high]);
            assert(digits@.drop_first().drop_first() =~= Seq::<u32>::empty());
            reveal_with_fuel(digits_value, 3);
        }
        Natural { digits }
    }

    /// A copy of the number.
    pub fn duplicate(&self) -> (copy: Natural)
        ensures
            integer(copy) == integer(*self),
            copy.digits@ == self.digits@,
    {
        Natural { digits: self.digits.clone() }
    }
}

} // verus!
