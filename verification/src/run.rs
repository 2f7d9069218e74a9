use vstd::prelude::*;
use crate::circuit::{preset_program, Circuit};
use crate::error::SimError;
use crate::gate::{GateKind, Instruction, Operation};
use crate::outcome::Outcome;
use crate::register::{Register, RegisterView};

verus! {

/// What a run asks its driver to do next.
#[derive(Clone, Copy, Debug, PartialEq, Eq, Structural)]
pub enum Action {
    /// Apply `gate` to the state of the qubit at `index`, then report the
    /// new state in [`Event::Applied`].
    Apply { index: usize, gate: GateKind },
    /// Measure the qubit at `index`, then report the outcome in
    /// [`Event::Measured`].
    Measure { index: usize },
    /// Nothing: every instruction was carried out and every qubit measured.
    Finish,
    /// Nothing: the run has failed with this error.
    Abort(SimError),
}

/// What the driver reports back after carrying out an action.
#[derive(Debug)]
pub enum Event<Q> {
    /// The pending [`Action::Apply`] has been carried out, and this is the
    /// state that it has left the qubit in.
    Applied(Q),
    /// The qubit of the pending [`Action::Measure`] was measured, with this
    /// outcome.
    Measured(Outcome),
    /// The pending action could not be carried out, for this reason.
    Failed(SimError),
}

/// The action that carries out `instruction`.
pub open spec fn action_of(instruction: Instruction) -> Action {
    match instruction.operation {
        Operation::Gate(gate) => Action::Apply { index: instruction.index, gate },
        Operation::Measure => Action::Measure { index: instruction.index },
    }
}

/// Every instruction of `program` names a slot of a register of `width`
/// qubits.
pub open spec fn all_fit(program: Seq<Instruction>, width: nat) -> bool {
    forall|k: int| 0 <= k < program.len() ==> (#[trigger] program[k]).fits(width)
}

/// The instruction at `place` is the first of `program` that names no slot
/// of a register of `width` qubits.
pub open spec fn first_misfit(program: Seq<Instruction>, width: nat, place: int) -> bool {
    &&& 0 <= place < program.len()
    &&& !program[place].fits(width)
    &&& forall|k: int| 0 <= k < place ==> (#[trigger] program[k]).fits(width)
}

/// The state of a run: the program, the register it works on, how many
/// instructions have been carried out, how many qubits the closing pass has
/// measured, and the failure that the driver has reported, if any.
pub struct RunView<Q> {
    pub program: Seq<Instruction>,
    pub register: RegisterView<Q>,
    pub done: nat,
    pub swept: nat,
    pub failure: Option<SimError>,
}

impl<Q> RunView<Q> {
    /// The number of qubits of the register.
    pub open spec fn width(self) -> nat {
        self.register.width()
    }

    /// The state of a run that has not carried out anything yet.
    pub open spec fn start(program: Seq<Instruction>, register: RegisterView<Q>) -> RunView<Q> {
        RunView { program, register, done: 0, swept: 0, failure: None }
    }

    /// The states that a run can be in: the closing pass begins only when the
    /// program is through, every instruction carried out so far named a slot
    /// of the register, and every qubit that the closing pass has got to has an
    /// outcome on record.
    pub open spec fn wf(self) -> bool {
        &&& self.register.wf()
        &&& self.width() <= usize::MAX
        &&& self.done <= self.program.len()
        &&& self.swept <= self.width()
        &&& self.swept > 0 ==> self.done == self.program.len()
        &&& forall|k: int| 0 <= k < self.done ==> (#[trigger] self.program[k]).fits(self.width())
        &&& forall|i: int| 0 <= i < self.swept ==> (#[trigger] self.register.outcomes[i]) is Some
    }

    /// The action that the run is waiting for.
    ///
    /// Instructions come first, in the order of the program. One whose index
    /// names no slot of the register stops the run with `IndexOutOfRange`.
    /// After the last instruction every qubit is measured, in the order of
    /// the indices. A failure that the driver has reported stops the run
    /// where it stands.
    pub open spec fn pending(self) -> Action {
        if let Some(error) = self.failure {
            Action::Abort(error)
        } else if self.done < self.program.len() {
            let instruction = self.program[self.done as int];
            if instruction.fits(self.width()) {
                action_of(instruction)
            } else {
                Action::Abort(SimError::IndexOutOfRange)
            }
        } else if self.swept < self.width() {
            Action::Measure { index: self.swept as usize }
        } else {
            Action::Finish
        }
    }

    /// Whether `event` is a report that the pending action calls for: the new
    /// state for a gate, the outcome for a measurement, or a failure of
    /// either.
    pub open spec fn answers(self, event: Event<Q>) -> bool {
        match (self.pending(), event) {
            (Action::Apply { .. }, Event::Applied(_)) => true,
            (Action::Measure { .. }, Event::Measured(_)) => true,
            (Action::Apply { .. }, Event::Failed(_)) => true,
            (Action::Measure { .. }, Event::Failed(_)) => true,
            _ => false,
        }
    }

    /// The state after `event` was reported.
    ///
    /// A new state takes the place of the state of the qubit that was to be
    /// transformed, and an outcome the place of what was on record for the
    /// qubit that was measured; either moves the run on by one action. A failure
    /// ends the run. A report that does not answer the pending action, and
    /// any report to a run that is over, changes nothing.
    pub open spec fn advance(self, event: Event<Q>) -> RunView<Q> {
        match (self.pending(), event) {
            (Action::Apply { index, .. }, Event::Applied(state)) => RunView {
                register: self.register.with_state(index as int, state),
                done: self.done + 1,
                ..self
            },
            (Action::Measure { index }, Event::Measured(outcome)) => {
                let register = self.register.recorded(index as int, outcome);
                if self.done < self.program.len() {
                    RunView { register, done: self.done + 1, ..self }
                } else {
                    RunView { register, swept: self.swept + 1, ..self }
                }
            },
            (Action::Apply { .. }, Event::Failed(error)) => RunView {
                failure: Some(error),
                ..self
            },
            (Action::Measure { .. }, Event::Failed(error)) => RunView {
                failure: Some(error),
                ..self
            },
            _ => self,
        }
    }

    /// The state after the events of `events` were reported one after the
    /// other.
    pub open spec fn after(self, events: Seq<Event<Q>>) -> RunView<Q>
        decreases events.len(),
    {
        if events.len() == 0 {
            self
        } else {
            self.after(events.drop_last()).advance(events.last())
        }
    }

    /// Every event of `events` answers the action that is pending when it is
    /// reported: the driver did what it was asked to do, no more and no less.
    pub open spec fn faithful(self, events: Seq<Event<Q>>) -> bool {
        forall|k: int|
            0 <= k < events.len() ==> (#[trigger] self.after(events.take(k))).answers(events[k])
    }
}

/// None of `events` reports a failure.
pub open spec fn none_failed<Q>(events: Seq<Event<Q>>) -> bool {
    forall|k: int| 0 <= k < events.len() ==> !((#[trigger] events[k]) is Failed)
}

/// A circuit being executed against a register, one action at a time.
///
/// The run decides what happens next; its driver does the work on the
/// amplitudes. The driver carries out [`Run::pending`], reports what came of
/// it to [`Run::step`], and goes on with the action that `step` returns,
/// until that is [`Action::Finish`] or [`Action::Abort`].
///
/// An instruction that measures records its outcome on the spot. The closing
/// pass measures every qubit again and overwrites what was recorded before.
///
/// The run owns the register while it lasts, so the register cannot grow or
/// shrink under it, and only the run writes to it.
pub struct Run<Q> {
    program: Vec<Instruction>,
    register: Register<Q>,
    done: usize,
    swept: usize,
    failure: Option<SimError>,
}

impl<Q> View for Run<Q> {
    type V = RunView<Q>;

    closed spec fn view(&self) -> RunView<Q> {
        RunView {
            program: self.program@,
            register: self.register@,
            done: self.done as nat,
            swept: self.swept as nat,
            failure: self.failure,
        }
    }
}

impl<Q> Run<Q> {
    /// The run is in one of the states of [`RunView::wf`]. [`Run::begin`]
    /// establishes this and every method keeps it.
    pub open spec fn wf(&self) -> bool {
        self@.wf()
    }

    /// Starts a run of `circuit` on `register`. Nothing has been carried out
    /// yet.
    pub fn begin(circuit: &Circuit, register: Register<Q>) -> (run: Run<Q>)
        requires
            register.wf(),
        ensures
            run.wf(),
            run@ == RunView::start(circuit@, register@),
    {
        // Asked for what it ensures: the number of qubits fits a machine word.
        let _width = register.len();
        let program = circuit.instructions();
        Run { program, register, done: 0, swept: 0, failure: None }
    }

    /// The action that the run is waiting for.
    pub fn pending(&self) -> (action: Action)
        requires
            self.wf(),
        ensures
            action == self@.pending(),
    {
        let width = self.register.len();
        if let Some(error) = self.failure {
            Action::Abort(error)
        } else if self.done < self.program.len() {
            let instruction = self.program[self.done];
            if instruction.index >= width {
                Action::Abort(SimError::IndexOutOfRange)
            } else {
                match instruction.operation {
                    Operation::Gate(gate) => Action::Apply { index: instruction.index, gate },
                    Operation::Measure => Action::Measure { index: instruction.index },
                }
            }
        } else if self.swept < width {
            Action::Measure { index: self.swept }
        } else {
            Action::Finish
        }
    }

    /// Takes the report `event` and returns the action to carry out next.
    pub fn step(&mut self, event: Event<Q>) -> (next: Action)
        requires
            old(self).wf(),
        ensures
            final(self).wf(),
            final(self)@ == old(self)@.advance(event),
            next == final(self)@.pending(),
    {
        let action = self.pending();
        match (action, event) {
            (Action::Apply { index, .. }, Event::Applied(state)) => {
                // An instruction is pending, so the counter has room to grow.
                assert(self.done < self.program.len());
                let stored = self.register.set(index, state);
                assert(stored is Ok);
                self.done += 1;
            },
            (Action::Measure { index }, Event::Measured(outcome)) => {
                let recorded = self.register.set_measurement(index, outcome);
                assert(recorded is Ok);
                if self.done < self.program.len() {
                    self.done += 1;
                } else {
                    self.swept += 1;
                }
            },
            (Action::Apply { .. }, Event::Failed(error)) => {
                self.failure = Some(error);
            },
            (Action::Measure { .. }, Event::Failed(error)) => {
                self.failure = Some(error);
            },
            _ => {},
        }
        self.pending()
    }

    /// The register as the run has left it so far.
    pub fn register(&self) -> (register: &Register<Q>)
        requires
            self.wf(),
        ensures
            register.wf(),
            register@ == self@.register,
    {
        &self.register
    }

    /// Ends the run, whatever state it is in, and gives the register back.
    pub fn into_register(self) -> (register: Register<Q>)
        requires
            self.wf(),
        ensures
            register.wf(),
            register@ == self@.register,
    {
        self.register
    }
}

/// A report keeps a run among the states that a run can be in.
pub proof fn lemma_advance_keeps_wf<Q>(run: RunView<Q>, event: Event<Q>)
    requires
        run.wf(),
    ensures
        run.advance(event).wf(),
{
    let next = run.advance(event);
    if run.answers(event) {
        assert forall|i: int| 0 <= i < next.swept implies (
        #[trigger] next.register.outcomes[i]) is Some by {
            if i < run.swept {
                assert(run.register.outcomes[i] is Some);
            }
        }
        assert forall|k: int| 0 <= k < next.done implies (#[trigger] next.program[k]).fits(
            next.width(),
        ) by {
            if k < run.done {
                assert(run.program[k].fits(run.width()));
            }
        }
    }
}

/// A report that does not answer the pending action changes nothing, and no
/// report answers a run that is over. No report changes the program or the
/// number of qubits.
pub proof fn lemma_advance_only_on_answer<Q>(run: RunView<Q>, event: Event<Q>)
    requires
        run.wf(),
    ensures
        !run.answers(event) ==> run.advance(event) == run,
        run.pending() is Finish || run.pending() is Abort ==> !run.answers(event),
        run.advance(event).program == run.program,
        run.advance(event).width() == run.width(),
{
}

/// A gate touches one qubit: the new state goes to the qubit named by the
/// pending action, every other state stays, and so does every outcome on
/// record.
pub proof fn lemma_gate_touches_one_qubit<Q>(run: RunView<Q>, state: Q, other: int)
    requires
        run.wf(),
        run.pending() is Apply,
        0 <= other < run.width(),
    ensures
        ({
            let next = run.advance(Event::Applied(state));
            let index = run.pending()->Apply_index;
            &&& index < run.width()
            &&& next.register.states[index as int] == state
            &&& other != index ==> next.register.states[other] == run.register.states[other]
            &&& next.register.outcomes == run.register.outcomes
        }),
{
}

/// A measurement touches one record: the outcome goes on record for the
/// qubit that was measured, every other record stays, and so does every
/// state.
pub proof fn lemma_measurement_touches_one_record<Q>(run: RunView<Q>, outcome: Outcome, other: int)
    requires
        run.wf(),
        run.pending() is Measure,
        0 <= other < run.width(),
    ensures
        ({
            let next = run.advance(Event::Measured(outcome));
            let index = run.pending()->Measure_index;
            &&& index < run.width()
            &&& next.register.outcomes[index as int] == Some(outcome)
            &&& other != index ==> next.register.outcomes[other] == run.register.outcomes[other]
            &&& next.register.states == run.register.states
        }),
{
}

/// A run fails of itself only with `IndexOutOfRange`, and only at the first
/// instruction that names no slot of the register: every instruction before
/// it was carried out, and neither it nor any after it.
pub proof fn lemma_abort_marks_first_misfit<Q>(run: RunView<Q>)
    requires
        run.wf(),
        run.pending() is Abort,
        run.failure is None,
    ensures
        run.pending() == Action::Abort(SimError::IndexOutOfRange),
        first_misfit(run.program, run.width(), run.done as int),
        run.swept == 0,
{
}

/// A run finishes only when every instruction was carried out and the
/// closing pass has recorded an outcome for every qubit.
pub proof fn lemma_finish_means_all_recorded<Q>(run: RunView<Q>)
    requires
        run.wf(),
        run.pending() is Finish,
    ensures
        run.failure is None,
        run.done == run.program.len(),
        all_fit(run.program, run.width()),
        run.swept == run.width(),
        forall|i: int| 0 <= i < run.width() ==> (#[trigger] run.register.outcomes[i]) is Some,
{
}

/// Where a faithfully driven run stands after `events`, none of which
/// reports a failure.
///
/// It has carried out one action for each event: first the instructions, in
/// the order of the program, then the closing pass, in the order of the
/// indices. The outcome on record for each qubit that the closing pass has
/// got to is the one reported for it in that pass.
pub proof fn lemma_faithful_run<Q>(
    program: Seq<Instruction>,
    register: RegisterView<Q>,
    events: Seq<Event<Q>>,
)
    requires
        register.wf(),
        register.width() <= usize::MAX,
        RunView::start(program, register).faithful(events),
        none_failed(events),
    ensures
        ({
            let run = RunView::start(program, register).after(events);
            let count = events.len();
            let size = program.len();
            &&& run.wf()
            &&& run.failure is None
            &&& run.program == program
            &&& run.width() == register.width()
            &&& count <= size + register.width()
            &&& count <= size ==> run.done == count && run.swept == 0
            &&& count >= size ==> run.done == size && run.swept == count - size
            &&& forall|i: int|
                0 <= i < count - size ==> #[trigger] events[size + i] == Event::<Q>::Measured(
                    run.register.outcomes[i].unwrap(),
                )
        }),
    decreases events.len(),
{
    let start = RunView::start(program, register);
    if events.len() == 0 {
    } else {
        let front = events.drop_last();
        let last = events.last();
        let count = events.len();
        let size = program.len();
        assert forall|k: int| 0 <= k < front.len() implies (#[trigger] start.after(
            front.take(k),
        )).answers(front[k]) by {
            assert(front.take(k) =~= events.take(k));
            assert(start.after(events.take(k)).answers(events[k]));
        }
        assert forall|k: int| 0 <= k < front.len() implies !((#[trigger] front[k]) is Failed) by {
            assert(!(events[k] is Failed));
        }
        lemma_faithful_run(program, register, front);
        let before = start.after(front);
        assert(front =~= events.take(count - 1));
        assert(before.answers(last)) by {
            assert(start.after(events.take(count - 1)).answers(events[count - 1]));
        }
        assert(!(events[count - 1] is Failed));
        let run = before.advance(last);
        assert(run == start.after(events));
        lemma_advance_keeps_wf(before, last);
        assert forall|i: int| 0 <= i < count - size implies #[trigger] events[size + i]
            == Event::<Q>::Measured(run.register.outcomes[i].unwrap()) by {
            if i < count - 1 - size {
                assert(front[size + i] == Event::<Q>::Measured(
                    before.register.outcomes[i].unwrap(),
                ));
                assert(before.register.outcomes[i] is Some);
            }
        }
    }
}

/// A faithfully driven run asks for the instructions in the order of the
/// program, one action for each.
pub proof fn lemma_instructions_in_order<Q>(
    program: Seq<Instruction>,
    register: RegisterView<Q>,
    events: Seq<Event<Q>>,
)
    requires
        register.wf(),
        register.width() <= usize::MAX,
        RunView::start(program, register).faithful(events),
        none_failed(events),
        events.len() < program.len(),
        program[events.len() as int].fits(register.width()),
    ensures
        RunView::start(program, register).after(events).pending() == action_of(
            program[events.len() as int],
        ),
{
    lemma_faithful_run(program, register, events);
}

/// A faithfully driven run of a program with an instruction that names no
/// slot fails when it reaches the first such instruction, with
/// `IndexOutOfRange`. It cannot be driven further.
pub proof fn lemma_run_fails_at_first_misfit<Q>(
    program: Seq<Instruction>,
    register: RegisterView<Q>,
    events: Seq<Event<Q>>,
    place: int,
)
    requires
        register.wf(),
        register.width() <= usize::MAX,
        RunView::start(program, register).faithful(events),
        none_failed(events),
        first_misfit(program, register.width(), place),
    ensures
        events.len() <= place,
        events.len() == place ==> RunView::start(program, register).after(events).pending()
            == Action::Abort(SimError::IndexOutOfRange),
{
    lemma_faithful_run(program, register, events);
    let run = RunView::start(program, register).after(events);
    if events.len() > place {
        assert(run.program[place].fits(run.width()));
    }
}

/// A faithfully driven run of a program whose instructions all name a slot
/// goes through the program, then measures every qubit once, in the order of
/// the indices, and then finishes. At the end the outcome on record for each
/// qubit is the one that the closing pass reported for it.
pub proof fn lemma_run_finishes<Q>(
    program: Seq<Instruction>,
    register: RegisterView<Q>,
    events: Seq<Event<Q>>,
)
    requires
        register.wf(),
        register.width() <= usize::MAX,
        RunView::start(program, register).faithful(events),
        none_failed(events),
        all_fit(program, register.width()),
    ensures
        ({
            let run = RunView::start(program, register).after(events);
            let count = events.len();
            let size = program.len();
            let width = register.width();
            &&& count <= size + width
            &&& count < size ==> run.pending() == action_of(program[count as int])
            &&& size <= count < size + width ==> run.pending() == Action::Measure {
                index: (count - size) as usize,
            }
            &&& count == size + width ==> {
                &&& run.pending() == Action::Finish
                &&& forall|i: int|
                    0 <= i < width ==> #[trigger] events[size + i] == Event::<Q>::Measured(
                        run.register.outcomes[i].unwrap(),
                    )
            }
        }),
{
    lemma_faithful_run(program, register, events);
    if events.len() < program.len() {
        assert(program[events.len() as int].fits(register.width()));
    }
}

/// A failure that the driver reports ends the run with that failure, and
/// leaves the register as it was.
pub proof fn lemma_failure_ends_run<Q>(run: RunView<Q>, error: SimError)
    requires
        run.wf(),
        run.pending() is Apply || run.pending() is Measure,
    ensures
        run.advance(Event::Failed(error)).pending() == Action::Abort(error),
        run.advance(Event::Failed(error)).register == run.register,
{
}

/// Every preset works on the first two slots of a register, and on both of
/// them: on a register of two qubits or more each of its instructions names
/// a slot, and on a register of one qubit its second instruction is the
/// first that names none.
pub proof fn lemma_presets_need_two_qubits(name: Seq<char>, width: nat)
    requires
        preset_program(name) is Some,
        width >= 1,
    ensures
        width >= 2 ==> all_fit(preset_program(name).unwrap(), width),
        width == 1 ==> first_misfit(preset_program(name).unwrap(), width, 1),
{
}

} // verus!
