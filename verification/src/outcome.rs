use vstd::prelude::*;

verus! {

/// The result of measuring one qubit.
#[derive(Clone, Copy, Debug, PartialEq, Eq, Structural)]
pub enum Outcome {
    /// The basis outcome 0.
    Zero,
    /// The basis outcome 1.
    One,
}

impl Outcome {
    /// The outcome as a number: 0 or 1.
    pub open spec fn spec_bit(self) -> nat {
        match self {
            Outcome::Zero => 0,
            Outcome::One => 1,
        }
    }

    /// The outcome as a number: 0 or 1.
    pub fn bit(self) -> (b: u32)
        ensures
            b == self.spec_bit(),
            b <= 1,
    {
        match self {
            Outcome::Zero => 0,
            Outcome::One => 1,
        }
    }

    /// The outcome that a number stands for: `Zero` for 0, `One` for 1, and
    /// nothing for any other number.
    pub open spec fn spec_from_bit(bit: nat) -> Option<Outcome> {
        if bit == 0 {
            Some(Outcome::Zero)
        } else if bit == 1 {
            Some(Outcome::One)
        } else {
            None
        }
    }

    /// The outcome that a number stands for: `Zero` for 0, `One` for 1, and
    /// nothing for any other number.
    pub fn from_bit(bit: u32) -> (outcome: Option<Outcome>)
        ensures
            outcome == Outcome::spec_from_bit(bit as nat),
    {
        if bit == 0 {
            Some(Outcome::Zero)
        } else if bit == 1 {
            Some(Outcome::One)
        } else {
            None
        }
    }
}

/// Turning an outcome into its number and back gives the outcome again, and
/// a number that stands for an outcome is the number of that outcome.
pub proof fn lemma_bit_round_trip(outcome: Outcome, bit: nat)
    ensures
        Outcome::spec_from_bit(outcome.spec_bit()) == Some(outcome),
        Outcome::spec_from_bit(bit) == Some(outcome) ==> outcome.spec_bit() == bit,
{
}

} // verus!
