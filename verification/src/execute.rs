use vstd::prelude::*;
use vstd::pervasive::unreached;
use crate::circuit::Circuit;
use crate::error::SimError;
use crate::gate::{GateKind, Instruction};
use crate::outcome::Outcome;
use crate::register::{Register, RegisterView};
use crate::run::{
    action_of, all_fit, first_misfit, lemma_advance_keeps_wf, lemma_advance_only_on_answer,
    lemma_finish_means_all_recorded, lemma_instructions_in_order,
    lemma_run_fails_at_first_misfit, lemma_run_finishes, none_failed, Action, Event, Run,
    RunView,
};

verus! {

/// How a run that was driven to its end has come out.
pub struct Ended<Q, S> {
    /// The register as the run has left it.
    pub register: Register<Q>,
    /// The source as the last call of the driver's functions has left it.
    pub source: S,
    /// `Ok` for a run that finished, the error for one that failed.
    pub result: Result<(), SimError>,
}

/// What [`Ended`] holds, with the register as the two sequences it stands
/// for.
pub struct EndedView<Q, S> {
    pub register: RegisterView<Q>,
    pub source: S,
    pub result: Result<(), SimError>,
}

impl<Q, S> View for Ended<Q, S> {
    type V = EndedView<Q, S>;

    open spec fn view(&self) -> EndedView<Q, S> {
        EndedView { register: self.register@, source: self.source, result: self.result }
    }
}

/// `apply` cannot fail: whatever it is called with, what it returns is a
/// new state.
pub open spec fn unfailing<Q, S, A>(apply: A) -> bool where
    A: Fn(GateKind, &Q, S) -> (Result<Q, SimError>, S),
{
    forall|gate: GateKind, state: &Q, source: S, answer: (Result<Q, SimError>, S)|
        call_ensures(apply, (gate, state, source), answer) ==> answer.0 is Ok
}

/// The action with which a run of this result is over.
pub open spec fn closing_action(result: Result<(), SimError>) -> Action {
    match result {
        Ok(()) => Action::Finish,
        Err(error) => Action::Abort(error),
    }
}

/// `event` is what the driver's functions can make of the action that is
/// pending in `run`, and they turn `source` into `next` while they do:
/// `apply`, called with a gate and the state of its qubit, gives the new
/// state or fails; `measure`, called with the state of the qubit to be
/// measured, gives the outcome.
pub open spec fn answered_by<Q, S, A, M>(
    run: RunView<Q>,
    apply: A,
    measure: M,
    source: S,
    event: Event<Q>,
    next: S,
) -> bool where
    A: Fn(GateKind, &Q, S) -> (Result<Q, SimError>, S),
    M: Fn(&Q, S) -> (Outcome, S),
{
    match run.pending() {
        Action::Apply { index, gate } => {
            let state = run.register.states[index as int];
            match event {
                Event::Applied(new) => call_ensures(
                    apply,
                    (gate, &state, source),
                    (Ok(new), next),
                ),
                Event::Failed(error) => call_ensures(
                    apply,
                    (gate, &state, source),
                    (Err(error), next),
                ),
                Event::Measured(_) => false,
            }
        },
        Action::Measure { index } => {
            let state = run.register.states[index as int];
            match event {
                Event::Measured(outcome) => call_ensures(measure, (&state, source), (outcome, next)),
                _ => false,
            }
        },
        _ => false,
    }
}

/// The record of what passed between a run and the driver's functions: the
/// events that they answered with, in order, and the states of the source
/// before, between and after their calls.
pub struct Exchange<Q, S> {
    pub events: Seq<Event<Q>>,
    pub sources: Seq<S>,
}

impl<Q, S> Exchange<Q, S> {
    /// Every event of the record is the answer of `apply` or `measure` to the
    /// action pending when it comes, in a run that begins in `start`, and
    /// each call gets the source as the one before has left it.
    pub open spec fn follows<A, M>(self, start: RunView<Q>, apply: A, measure: M) -> bool where
        A: Fn(GateKind, &Q, S) -> (Result<Q, SimError>, S),
        M: Fn(&Q, S) -> (Outcome, S),
    {
        &&& self.sources.len() == self.events.len() + 1
        &&& forall|k: int|
            0 <= k < self.events.len() ==> answered_by(
                #[trigger] start.after(self.events.take(k)),
                apply,
                measure,
                self.sources[k],
                self.events[k],
                self.sources[k + 1],
            )
    }

    /// The record is that of a whole run: it begins in `start` with the
    /// source `source`, it goes on until the run is over, and `end` is what
    /// the run has then come to.
    pub open spec fn completes<A, M>(
        self,
        start: RunView<Q>,
        apply: A,
        measure: M,
        source: S,
        end: EndedView<Q, S>,
    ) -> bool where
        A: Fn(GateKind, &Q, S) -> (Result<Q, SimError>, S),
        M: Fn(&Q, S) -> (Outcome, S),
    {
        &&& self.follows(start, apply, measure)
        &&& self.sources.first() == source
        &&& self.sources.last() == end.source
        &&& start.after(self.events).register == end.register
        &&& start.after(self.events).pending() == closing_action(end.result)
    }

    /// The record with one more event, and the source as the call that gave
    /// the event has left it.
    pub open spec fn with(self, event: Event<Q>, next: S) -> Exchange<Q, S> {
        Exchange { events: self.events.push(event), sources: self.sources.push(next) }
    }
}

impl Circuit {
    /// Runs the circuit on `register` to the end, with the driver's two
    /// functions for the work on the amplitudes, and hands the register
    /// back.
    ///
    /// `apply` gets a gate and the state of the qubit it is for, and returns
    /// the new state or an error. `measure` gets the state of the qubit to
    /// be measured and returns the outcome. Both get `source` as the last of
    /// their calls has left it: a generator of random numbers, most likely.
    ///
    /// The instructions are carried out in the order of appending; one that
    /// measures has its outcome recorded on the spot. The first instruction
    /// whose index names no qubit of the register fails the run with
    /// `IndexOutOfRange`, and the first error from `apply` fails it with that
    /// error; what was carried out before stays. After the last instruction
    /// every qubit is measured once, in the order of the indices, and its
    /// outcome recorded in place of what was on record.
    pub fn run<Q, S, A, M>(
        &self,
        register: Register<Q>,
        source: S,
        apply: A,
        measure: M,
    ) -> (end: Ended<Q, S>) where
        A: Fn(GateKind, &Q, S) -> (Result<Q, SimError>, S),
        M: Fn(&Q, S) -> (Outcome, S),

        requires
            register.wf(),
            forall|gate: GateKind, state: &Q, any: S| call_requires(apply, (gate, state, any)),
            forall|state: &Q, any: S| call_requires(measure, (state, any)),
        ensures
            end.register.wf(),
            end@.register.width() == register@.width(),
            exists|exchange: Exchange<Q, S>| #[trigger]
                exchange.completes(
                    RunView::start(self@, register@),
                    apply,
                    measure,
                    source,
                    end@,
                ),
            end.result is Ok ==> all_fit(self@, register@.width()) && forall|i: int|
                0 <= i < register@.width() ==> (#[trigger] end@.register.outcomes[i]) is Some,
            unfailing(apply) && all_fit(self@, register@.width()) ==> end.result is Ok,
            unfailing(apply) && !all_fit(self@, register@.width()) ==> end.result == Err::<
                (),
                SimError,
            >(SimError::IndexOutOfRange),
    {
        let ghost start = RunView::start(self@, register@);
        let ghost width = register@.width();
        let mut run = Run::begin(self, register);
        let mut current = source;
        let ghost mut exchange = Exchange {
            events: Seq::<Event<Q>>::empty(),
            sources: seq![source],
        };
        let mut action = run.pending();
        let result: Result<(), SimError>;
        loop
            invariant
                run.wf(),
                action == run@.pending(),
                run@ == start.after(exchange.events),
                run@.program == start.program,
                run@.width() == width,
                exchange.follows(start, apply, measure),
                exchange.sources.first() == source,
                exchange.sources.last() == current,
                forall|gate: GateKind, state: &Q, any: S|
                    call_requires(apply, (gate, state, any)),
                forall|state: &Q, any: S| call_requires(measure, (state, any)),
            ensures
                run.wf(),
                run@ == start.after(exchange.events),
                run@.program == start.program,
                run@.width() == width,
                run@.pending() == closing_action(result),
                exchange.follows(start, apply, measure),
                exchange.sources.first() == source,
                exchange.sources.last() == current,
            decreases
                if run@.pending() is Finish || run@.pending() is Abort {
                    0int
                } else {
                    1 + (run@.program.len() - run@.done) + (run@.width() - run@.swept)
                },
        {
            let event = match action {
                Action::Apply { index, gate } => {
                    let state = match run.register().get(index) {
                        Ok(state) => state,
                        Err(_) => unreached(),
                    };
                    let (applied, next) = apply(gate, state, current);
                    current = next;
                    match applied {
                        Ok(state) => Event::Applied(state),
                        Err(error) => Event::Failed(error),
                    }
                },
                Action::Measure { index } => {
                    let state = match run.register().get(index) {
                        Ok(state) => state,
                        Err(_) => unreached(),
                    };
                    let (outcome, next) = measure(state, current);
                    current = next;
                    Event::Measured(outcome)
                },
                Action::Finish => {
                    result = Ok(());
                    break;
                },
                Action::Abort(error) => {
                    result = Err(error);
                    break;
                },
            };
            proof {
                lemma_exchange_goes_on(exchange, start, apply, measure, event, current);
                exchange = exchange.with(event, current);
            }
            action = run.step(event);
        }
        proof {
            if result is Ok {
                lemma_finish_means_all_recorded(run@);
            }
        }
        let end = Ended { register: run.into_register(), source: current, result };
        assert(exchange.completes(start, apply, measure, source, end@));
        proof {
            if unfailing(apply) {
                lemma_unfailing_apply_never_fails(exchange, start, apply, measure);
                if all_fit(self@, width) {
                    lemma_result_where_all_fit(
                        exchange,
                        self@,
                        register@,
                        apply,
                        measure,
                        source,
                        end@,
                    );
                } else {
                    let place = lemma_some_misfit_is_first(self@, width);
                    lemma_result_at_first_misfit(
                        exchange,
                        self@,
                        register@,
                        apply,
                        measure,
                        source,
                        end@,
                        place,
                    );
                }
            }
        }
        end
    }
}

/// A record goes on by one event that answers the action pending at its
/// end.
proof fn lemma_exchange_goes_on<Q, S, A, M>(
    exchange: Exchange<Q, S>,
    start: RunView<Q>,
    apply: A,
    measure: M,
    event: Event<Q>,
    next: S,
) where A: Fn(GateKind, &Q, S) -> (Result<Q, SimError>, S), M: Fn(&Q, S) -> (Outcome, S)
    requires
        exchange.follows(start, apply, measure),
        answered_by(
            start.after(exchange.events),
            apply,
            measure,
            exchange.sources.last(),
            event,
            next,
        ),
    ensures
        exchange.with(event, next).follows(start, apply, measure),
        start.after(exchange.with(event, next).events) == start.after(exchange.events).advance(
            event,
        ),
{
    let longer = exchange.with(event, next);
    assert(longer.events.drop_last() =~= exchange.events);
    assert forall|k: int| 0 <= k < longer.events.len() implies answered_by(
        #[trigger] start.after(longer.events.take(k)),
        apply,
        measure,
        longer.sources[k],
        longer.events[k],
        longer.sources[k + 1],
    ) by {
        if k < exchange.events.len() {
            assert(longer.events.take(k) =~= exchange.events.take(k));
            assert(answered_by(
                start.after(exchange.events.take(k)),
                apply,
                measure,
                exchange.sources[k],
                exchange.events[k],
                exchange.sources[k + 1],
            ));
        } else {
            assert(longer.events.take(k) =~= exchange.events);
        }
    }
}

/// What the driver's functions answer is a faithful exchange.
pub proof fn lemma_exchange_is_faithful<Q, S, A, M>(
    exchange: Exchange<Q, S>,
    start: RunView<Q>,
    apply: A,
    measure: M,
) where A: Fn(GateKind, &Q, S) -> (Result<Q, SimError>, S), M: Fn(&Q, S) -> (Outcome, S)
    requires
        exchange.follows(start, apply, measure),
    ensures
        start.faithful(exchange.events),
{
    assert forall|k: int| 0 <= k < exchange.events.len() implies (#[trigger] start.after(
        exchange.events.take(k),
    )).answers(exchange.events[k]) by {
        assert(answered_by(
            start.after(exchange.events.take(k)),
            apply,
            measure,
            exchange.sources[k],
            exchange.events[k],
            exchange.sources[k + 1],
        ));
    }
}

/// Where `apply` cannot fail, no event of the record reports a failure.
pub proof fn lemma_unfailing_apply_never_fails<Q, S, A, M>(
    exchange: Exchange<Q, S>,
    start: RunView<Q>,
    apply: A,
    measure: M,
) where A: Fn(GateKind, &Q, S) -> (Result<Q, SimError>, S), M: Fn(&Q, S) -> (Outcome, S)
    requires
        exchange.follows(start, apply, measure),
        unfailing(apply),
    ensures
        none_failed(exchange.events),
{
    assert forall|k: int| 0 <= k < exchange.events.len() implies !((
    #[trigger] exchange.events[k]) is Failed) by {
        assert(answered_by(
            start.after(exchange.events.take(k)),
            apply,
            measure,
            exchange.sources[k],
            exchange.events[k],
            exchange.sources[k + 1],
        ));
    }
}

/// Where the driver's functions do not fail and every instruction names a
/// qubit, the run finishes: the record has one event for each instruction
/// and one for each qubit, and the result is `Ok`.
pub proof fn lemma_result_where_all_fit<Q, S, A, M>(
    exchange: Exchange<Q, S>,
    program: Seq<Instruction>,
    register: RegisterView<Q>,
    apply: A,
    measure: M,
    source: S,
    end: EndedView<Q, S>,
) where A: Fn(GateKind, &Q, S) -> (Result<Q, SimError>, S), M: Fn(&Q, S) -> (Outcome, S)
    requires
        register.wf(),
        register.width() <= usize::MAX,
        exchange.completes(RunView::start(program, register), apply, measure, source, end),
        none_failed(exchange.events),
        all_fit(program, register.width()),
    ensures
        end.result is Ok,
        exchange.events.len() == program.len() + register.width(),
{
    let start = RunView::start(program, register);
    lemma_exchange_is_faithful(exchange, start, apply, measure);
    lemma_run_finishes(program, register, exchange.events);
    // While an instruction or a qubit is left, the pending action is not a
    // closing one.
    if exchange.events.len() < program.len() {
        assert(start.after(exchange.events).pending() == action_of(
            program[exchange.events.len() as int],
        ));
    }
}

/// Where the driver's functions do not fail and some instruction names no
/// qubit, the run fails with `IndexOutOfRange` at the first such
/// instruction: the record has one event for each instruction before it, and
/// none for it or for any after it.
pub proof fn lemma_result_at_first_misfit<Q, S, A, M>(
    exchange: Exchange<Q, S>,
    program: Seq<Instruction>,
    register: RegisterView<Q>,
    apply: A,
    measure: M,
    source: S,
    end: EndedView<Q, S>,
    place: int,
) where A: Fn(GateKind, &Q, S) -> (Result<Q, SimError>, S), M: Fn(&Q, S) -> (Outcome, S)
    requires
        register.wf(),
        register.width() <= usize::MAX,
        exchange.completes(RunView::start(program, register), apply, measure, source, end),
        none_failed(exchange.events),
        first_misfit(program, register.width(), place),
    ensures
        end.result == Err::<(), SimError>(SimError::IndexOutOfRange),
        exchange.events.len() == place,
{
    let start = RunView::start(program, register);
    lemma_exchange_is_faithful(exchange, start, apply, measure);
    lemma_run_fails_at_first_misfit(program, register, exchange.events, place);
    if exchange.events.len() < place {
        assert(program[exchange.events.len() as int].fits(register.width()));
        lemma_instructions_in_order(program, register, exchange.events);
    }
}

/// Where `apply` fails, the run fails with it: a failure can only be the
/// last event of the record, and its error is then the result.
pub proof fn lemma_failure_is_the_result<Q, S, A, M>(
    exchange: Exchange<Q, S>,
    program: Seq<Instruction>,
    register: RegisterView<Q>,
    apply: A,
    measure: M,
    source: S,
    end: EndedView<Q, S>,
    place: int,
) where A: Fn(GateKind, &Q, S) -> (Result<Q, SimError>, S), M: Fn(&Q, S) -> (Outcome, S)
    requires
        register.wf(),
        register.width() <= usize::MAX,
        exchange.completes(RunView::start(program, register), apply, measure, source, end),
        0 <= place < exchange.events.len(),
        exchange.events[place] is Failed,
    ensures
        place == exchange.events.len() - 1,
        end.result == Err::<(), SimError>(exchange.events[place]->Failed_0),
{
    let start = RunView::start(program, register);
    let events = exchange.events;
    lemma_exchange_is_faithful(exchange, start, apply, measure);
    lemma_failure_persists(start, events, place, events.len() as int);
    assert(events.take(events.len() as int) =~= events);
    if place < events.len() - 1 {
        lemma_failure_persists(start, events, place, place + 1);
        assert(start.after(events.take(place + 1)).answers(events[place + 1]));
    }
}

/// A program with an instruction that names no qubit has a first such
/// instruction.
proof fn lemma_some_misfit_is_first(program: Seq<Instruction>, width: nat) -> (place: int)
    requires
        !all_fit(program, width),
    ensures
        first_misfit(program, width, place),
{
    let some = choose|k: int| 0 <= k < program.len() && !(#[trigger] program[k]).fits(width);
    least_misfit(program, width, some)
}

/// The first instruction up to `bound` that names no qubit.
proof fn least_misfit(program: Seq<Instruction>, width: nat, bound: int) -> (place: int)
    requires
        0 <= bound < program.len(),
        !program[bound].fits(width),
    ensures
        first_misfit(program, width, place),
        place <= bound,
    decreases bound,
{
    if exists|k: int| 0 <= k < bound && !(#[trigger] program[k]).fits(width) {
        let earlier = choose|k: int| 0 <= k < bound && !(#[trigger] program[k]).fits(width);
        least_misfit(program, width, earlier)
    } else {
        bound
    }
}

/// After any events the run is in one of the states that a run can be in.
proof fn lemma_after_keeps_wf<Q>(start: RunView<Q>, events: Seq<Event<Q>>)
    requires
        start.wf(),
    ensures
        start.after(events).wf(),
    decreases events.len(),
{
    if events.len() > 0 {
        lemma_after_keeps_wf(start, events.drop_last());
        lemma_advance_keeps_wf(start.after(events.drop_last()), events.last());
    }
}

/// Once a failure was reported in answer to a pending action, the run has
/// failed with it, and stays so whatever is reported after.
proof fn lemma_failure_persists<Q>(start: RunView<Q>, events: Seq<Event<Q>>, place: int, n: int)
    requires
        start.wf(),
        start.faithful(events),
        0 <= place < n <= events.len(),
        events[place] is Failed,
    ensures
        start.after(events.take(n)).failure == Some(events[place]->Failed_0),
    decreases n,
{
    let shorter = events.take(n - 1);
    assert(events.take(n).drop_last() =~= shorter);
    assert(events.take(n).last() == events[n - 1]);
    lemma_after_keeps_wf(start, shorter);
    if n - 1 == place {
        assert(start.after(shorter).answers(events[place]));
    } else {
        lemma_failure_persists(start, events, place, n - 1);
        lemma_advance_only_on_answer(start.after(shorter), events[n - 1]);
    }
}

} // verus!
