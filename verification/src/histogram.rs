use vstd::prelude::*;
use vstd::seq_lib::to_multiset_build;
use crate::outcome::Outcome;
use crate::register::Register;

verus! {

/// How many slots of `outcomes` hold `outcome`. Slots without a recorded
/// outcome count for neither.
pub open spec fn occurrences(outcomes: Seq<Option<Outcome>>, outcome: Outcome) -> nat {
    outcomes.to_multiset().count(Some(outcome))
}

/// How many slots of `outcomes` hold no outcome.
pub open spec fn unmeasured(outcomes: Seq<Option<Outcome>>) -> nat {
    outcomes.to_multiset().count(None)
}

/// The number of measured zeros and of measured ones over a register.
#[derive(Clone, Copy, Debug, PartialEq, Eq, Structural)]
pub struct Histogram {
    pub zeros: usize,
    pub ones: usize,
}

impl Histogram {
    /// The count for `outcome`.
    pub fn count(&self, outcome: Outcome) -> (n: usize)
        ensures
            n == match outcome {
                Outcome::Zero => self.zeros,
                Outcome::One => self.ones,
            },
    {
        match outcome {
            Outcome::Zero => self.zeros,
            Outcome::One => self.ones,
        }
    }
}

/// Every slot holds a zero, a one, or nothing, so the three counts add up to
/// the number of slots.
pub proof fn lemma_counts_cover(outcomes: Seq<Option<Outcome>>)
    ensures
        occurrences(outcomes, Outcome::Zero) + occurrences(outcomes, Outcome::One) + unmeasured(
            outcomes,
        ) == outcomes.len(),
    decreases outcomes.len(),
{
    broadcast use vstd::multiset::group_multiset_axioms;

    if outcomes.len() == 0 {
        // An empty multiset holds nothing of anything.
        outcomes.to_multiset_ensures();
        assert(outcomes.to_multiset().len() == 0);
    } else {
        // The last slot adds one to exactly one of the three counts.
        let front = outcomes.drop_last();
        let last = outcomes.last();
        lemma_counts_cover(front);
        assert(outcomes =~= front.push(last));
        to_multiset_build(front, last);
        assert(last == Some(Outcome::Zero) || last == Some(Outcome::One) || last
            == None::<Outcome>);
    }
}

/// Where every slot holds an outcome, as after a run that has finished, the
/// zeros and the ones add up to the number of slots.
pub proof fn lemma_all_measured_all_counted(outcomes: Seq<Option<Outcome>>)
    requires
        forall|i: int| 0 <= i < outcomes.len() ==> (#[trigger] outcomes[i]) is Some,
    ensures
        unmeasured(outcomes) == 0,
        occurrences(outcomes, Outcome::Zero) + occurrences(outcomes, Outcome::One)
            == outcomes.len(),
{
    outcomes.to_multiset_ensures();
    if outcomes.to_multiset().count(None) > 0 {
        assert(outcomes.contains(None));
    }
    lemma_counts_cover(outcomes);
}

/// Counts the recorded outcomes of `register`, skipping the qubits that have
/// not been measured.
pub fn histogram<Q>(register: &Register<Q>) -> (counts: Histogram)
    requires
        register.wf(),
    ensures
        counts.zeros == occurrences(register@.outcomes, Outcome::Zero),
        counts.ones == occurrences(register@.outcomes, Outcome::One),
        counts.zeros + counts.ones + unmeasured(register@.outcomes) == register@.width(),
{
    let width = register.len();
    let ghost outcomes = register@.outcomes;
    let mut zeros: usize = 0;
    let mut ones: usize = 0;
    let mut index: usize = 0;
    proof {
        assert(outcomes.take(0) =~= Seq::<Option<Outcome>>::empty());
        lemma_counts_cover(outcomes.take(0));
    }
    while index < width
        invariant
            register.wf(),
            outcomes == register@.outcomes,
            width == outcomes.len(),
            index <= width,
            zeros == occurrences(outcomes.take(index as int), Outcome::Zero),
            ones == occurrences(outcomes.take(index as int), Outcome::One),
            zeros + ones <= index,
        decreases width - index,
    {
        proof {
            broadcast use vstd::multiset::group_multiset_axioms;

            assert(outcomes.take(index + 1) =~= outcomes.take(index as int).push(
                outcomes[index as int],
            ));
            to_multiset_build(outcomes.take(index as int), outcomes[index as int]);
        }
        match register.measurement_of(index) {
            Some(Outcome::Zero) => {
                zeros += 1;
            },
            Some(Outcome::One) => {
                ones += 1;
            },
            None => {},
        }
        index += 1;
    }
    proof {
        assert(outcomes.take(width as int) =~= outcomes);
        lemma_counts_cover(outcomes);
    }
    Histogram { zeros, ones }
}

} // verus!
