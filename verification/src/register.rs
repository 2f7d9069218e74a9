use vstd::prelude::*;
use crate::error::SimError;
use crate::outcome::Outcome;

verus! {

/// What a register holds, as two sequences read side by side: the state of
/// each qubit, and for each qubit the outcome last recorded for it, if any.
pub struct RegisterView<Q> {
    pub states: Seq<Q>,
    pub outcomes: Seq<Option<Outcome>>,
}

impl<Q> RegisterView<Q> {
    /// The two sequences have one entry per qubit, and there is at least one
    /// qubit.
    pub open spec fn wf(self) -> bool {
        &&& self.states.len() == self.outcomes.len()
        &&& self.states.len() >= 1
    }

    /// The number of qubits.
    pub open spec fn width(self) -> nat {
        self.states.len()
    }

    /// The register that holds the one qubit `initial`, not yet measured.
    pub open spec fn single(initial: Q) -> RegisterView<Q> {
        RegisterView { states: seq![initial], outcomes: seq![None] }
    }

    /// This register with the qubit `state` added at the end, not yet
    /// measured.
    pub open spec fn grown(self, state: Q) -> RegisterView<Q> {
        RegisterView { states: self.states.push(state), outcomes: self.outcomes.push(None) }
    }

    /// This register with `state` as the state of the qubit at `index`.
    pub open spec fn with_state(self, index: int, state: Q) -> RegisterView<Q> {
        RegisterView { states: self.states.update(index, state), outcomes: self.outcomes }
    }

    /// This register with `outcome` recorded for the qubit at `index`.
    pub open spec fn recorded(self, index: int, outcome: Outcome) -> RegisterView<Q> {
        RegisterView { states: self.states, outcomes: self.outcomes.update(index, Some(outcome)) }
    }
}

/// An ordered collection of independent qubits, addressed by index from 0,
/// with the outcome last measured for each.
///
/// `Q` is the caller's type for the state of one qubit. The register never
/// looks inside it.
pub struct Register<Q> {
    states: Vec<Q>,
    outcomes: Vec<Option<Outcome>>,
}

impl<Q> View for Register<Q> {
    type V = RegisterView<Q>;

    closed spec fn view(&self) -> RegisterView<Q> {
        RegisterView { states: self.states@, outcomes: self.outcomes@ }
    }
}

impl<Q> Register<Q> {
    /// The register is well formed: every qubit has its outcome slot, and
    /// there is at least one qubit. Every constructor establishes this and
    /// every method keeps it.
    pub open spec fn wf(&self) -> bool {
        self@.wf()
    }

    /// A register with the single qubit `initial`, not yet measured.
    pub fn new(initial: Q) -> (register: Register<Q>)
        ensures
            register.wf(),
            register@ == RegisterView::single(initial),
    {
        let mut states: Vec<Q> = Vec::new();
        states.push(initial);
        let mut outcomes: Vec<Option<Outcome>> = Vec::new();
        outcomes.push(None);
        assert(states@ =~= seq![initial]);
        assert(outcomes@ =~= seq![None]);
        Register { states, outcomes }
    }

    /// The number of qubits, which is never zero.
    pub fn len(&self) -> (n: usize)
        requires
            self.wf(),
        ensures
            n == self@.width(),
            n >= 1,
    {
        self.states.len()
    }

    /// Appends the qubit `state`, with no outcome recorded for it.
    pub fn add_qubit(&mut self, state: Q)
        requires
            old(self).wf(),
        ensures
            final(self).wf(),
            final(self)@ == old(self)@.grown(state),
    {
        self.states.push(state);
        self.outcomes.push(None);
    }

    /// Shrinks the register to the single qubit `initial`, not yet measured.
    pub fn reset(&mut self, initial: Q)
        requires
            old(self).wf(),
        ensures
            final(self).wf(),
            final(self)@ == RegisterView::single(initial),
    {
        self.states.clear();
        self.states.push(initial);
        self.outcomes.clear();
        self.outcomes.push(None);
        assert(self.states@ =~= seq![initial]);
        assert(self.outcomes@ =~= seq![None]);
    }

    /// The state of the qubit at `index`.
    pub fn get(&self, index: usize) -> (state: Result<&Q, SimError>)
        requires
            self.wf(),
        ensures
            match state {
                Ok(slot) => index < self@.width() && *slot == self@.states[index as int],
                Err(error) => index >= self@.width() && error == SimError::IndexOutOfRange,
            },
    {
        if index < self.states.len() {
            Ok(&self.states[index])
        } else {
            Err(SimError::IndexOutOfRange)
        }
    }

    /// Exclusive access to the state of the qubit at `index`. What the caller
    /// leaves there is the qubit's new state; nothing else changes.
    pub fn get_mut(&mut self, index: usize) -> (state: Result<&mut Q, SimError>)
        requires
            old(self).wf(),
        ensures
            final(self).wf(),
            match state {
                Ok(slot) => {
                    &&& index < old(self)@.width()
                    &&& *slot == old(self)@.states[index as int]
                    &&& final(self)@ == old(self)@.with_state(index as int, *final(slot))
                },
                Err(error) => {
                    &&& index >= old(self)@.width()
                    &&& error == SimError::IndexOutOfRange
                    &&& final(self)@ == old(self)@
                },
            },
    {
        if index < self.states.len() {
            Ok(&mut self.states[index])
        } else {
            Err(SimError::IndexOutOfRange)
        }
    }

    /// Makes `state` the state of the qubit at `index`. Nothing else changes.
    pub fn set(&mut self, index: usize, state: Q) -> (done: Result<(), SimError>)
        requires
            old(self).wf(),
        ensures
            final(self).wf(),
            match done {
                Ok(()) => {
                    &&& index < old(self)@.width()
                    &&& final(self)@ == old(self)@.with_state(index as int, state)
                },
                Err(error) => {
                    &&& index >= old(self)@.width()
                    &&& error == SimError::IndexOutOfRange
                    &&& final(self)@ == old(self)@
                },
            },
    {
        if index < self.states.len() {
            self.states.set(index, state);
            Ok(())
        } else {
            Err(SimError::IndexOutOfRange)
        }
    }

    /// Records `outcome` as the last measurement of the qubit at `index`,
    /// in place of what was recorded before.
    pub fn set_measurement(&mut self, index: usize, outcome: Outcome) -> (done: Result<
        (),
        SimError,
    >)
        requires
            old(self).wf(),
        ensures
            final(self).wf(),
            match done {
                Ok(()) => {
                    &&& index < old(self)@.width()
                    &&& final(self)@ == old(self)@.recorded(index as int, outcome)
                },
                Err(error) => {
                    &&& index >= old(self)@.width()
                    &&& error == SimError::IndexOutOfRange
                    &&& final(self)@ == old(self)@
                },
            },
    {
        if index < self.outcomes.len() {
            self.outcomes.set(index, Some(outcome));
            Ok(())
        } else {
            Err(SimError::IndexOutOfRange)
        }
    }

    /// The outcome last recorded for the qubit at `index`; `None` while the
    /// qubit has not been measured, and for an index that names no qubit.
    pub fn measurement_of(&self, index: usize) -> (outcome: Option<Outcome>)
        requires
            self.wf(),
        ensures
            outcome == if index < self@.width() {
                self@.outcomes[index as int]
            } else {
                None
            },
    {
        if index < self.outcomes.len() {
            self.outcomes[index]
        } else {
            None
        }
    }
}

} // verus!
