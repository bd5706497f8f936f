//! The scan engine: which target is probed when, how many probes run at
//! once, and what the scan as a whole comes to.
//!
//! The engine performs no request itself. It is a state machine that its
//! driver asks for the next action ([`ScanEngine::step`]) and tells what
//! happened ([`ScanEngine::complete`]). Every decision of a scan is taken
//! here; the driver only carries them out.

use vstd::prelude::*;
use crate::error::DirustError;
use crate::scanner::gate::{Acquire, ConcurrencyGate, GateView};

verus! {

/// One launched probe: the target it was launched for, and how it ended once
/// it has ended.
#[derive(Debug)]
pub struct Unit {
    /// The index of the probed target.
    pub target: usize,
    /// `None` while the unit runs; afterwards its outcome.
    pub outcome: Option<Result<(), DirustError>>,
}

/// What the driver has to do next.
#[derive(Debug, Clone, Copy, PartialEq, Eq)]
pub enum Action {
    /// Start a probe of target number `target`. It is unit number `unit`, and
    /// holds a permit until its completion is reported under that number.
    Launch { unit: usize, target: usize },
    /// The pool gave no permit for target number `target`: warn the operator,
    /// the scan goes on without it.
    Skip { target: usize },
    /// Nothing can be decided before a running unit completes: wait for one
    /// and report it.
    Wait,
    /// Every target was dispatched or skipped and every unit has completed.
    Finish,
}

/// Something that happens to an engine in the course of a scan.
pub enum Event {
    /// The driver asked for the next action, and took it.
    Step,
    /// The driver reported that a unit completed.
    Completed { unit: usize, outcome: Result<(), DirustError> },
    /// The driver shut the engine down.
    Shutdown,
}

/// The state of a scan.
pub struct EngineView {
    /// Every target of the scan, in the order of their generation.
    pub targets: Seq<Seq<char>>,
    /// The pool that bounds the probes in flight.
    pub gate: GateView,
    /// How many targets have been dealt with: the next one has this index.
    pub cursor: nat,
    /// The launched units, in the order of their launch.
    pub units: Seq<Unit>,
    /// The targets that got no permit, in the order they were passed over.
    pub skipped: Seq<usize>,
}

/// How many of `units` are still running.
pub open spec fn in_flight(units: Seq<Unit>) -> nat
    decreases units.len(),
{
    if units.len() == 0 {
        0
    } else {
        in_flight(units.drop_last()) + if units.last().outcome is None {
            1nat
        } else {
            0nat
        }
    }
}

/// Whether a unit has ended in an error.
pub open spec fn failed(unit: Unit) -> bool {
    unit.outcome matches Some(Err(_))
}

/// The error of the first of `units`, in their order, that has failed; `Ok`
/// if none has.
pub open spec fn first_failure(units: Seq<Unit>) -> Result<(), DirustError>
    decreases units.len(),
{
    if units.len() == 0 {
        Ok(())
    } else if failed(units.first()) {
        units.first().outcome->Some_0
    } else {
        first_failure(units.drop_first())
    }
}

impl EngineView {
    /// The state in which a scan of `targets` begins.
    pub open spec fn initial(targets: Seq<Seq<char>>, limit: nat) -> EngineView {
        EngineView {
            targets,
            gate: GateView { limit, held: 0, closed: false },
            cursor: 0,
            units: Seq::empty(),
            skipped: Seq::empty(),
        }
    }

    /// What holds of every state of a scan.
    pub open spec fn wf(self) -> bool {
        &&& 1 <= self.gate.limit
        &&& self.gate.held <= self.gate.limit
        &&& self.gate.held == in_flight(self.units)
        &&& self.cursor <= self.targets.len() <= usize::MAX
        &&& self.units.len() + self.skipped.len() == self.cursor
        &&& forall|k: int| 0 <= k < self.units.len() ==> (#[trigger] self.units[k]).target
            < self.cursor
        &&& forall|j: int, k: int|
            0 <= j < k < self.units.len() ==> (#[trigger] self.units[j]).target < (
            #[trigger] self.units[k]).target
        &&& forall|k: int| 0 <= k < self.skipped.len() ==> #[trigger] self.skipped[k] < self.cursor
        &&& forall|j: int, k: int|
            0 <= j < k < self.skipped.len() ==> #[trigger] self.skipped[j]
                < #[trigger] self.skipped[k]
        &&& forall|j: int, k: int|
            0 <= j < self.units.len() && 0 <= k < self.skipped.len() ==> (
            #[trigger] self.units[j]).target != #[trigger] self.skipped[k]
    }

    /// Whether unit number `unit` was launched and has not completed.
    pub open spec fn running(self, unit: int) -> bool {
        0 <= unit < self.units.len() && self.units[unit].outcome is None
    }

    /// Whether the scan is over: nothing is left to dispatch and nothing runs.
    pub open spec fn finished(self) -> bool {
        self.cursor >= self.targets.len() && self.gate.held == 0
    }

    /// The next action. Targets are taken in their order; each one waits for
    /// a permit, and is passed over if the pool is closed. Once all are dealt
    /// with, the scan waits for the units that still run.
    pub open spec fn action(self) -> Action {
        if self.cursor < self.targets.len() {
            match self.gate.answer() {
                Acquire::Granted => Action::Launch {
                    unit: self.units.len() as usize,
                    target: self.cursor as usize,
                },
                Acquire::Closed => Action::Skip { target: self.cursor as usize },
                Acquire::Exhausted => Action::Wait,
            }
        } else if self.gate.held > 0 {
            Action::Wait
        } else {
            Action::Finish
        }
    }

    /// The state once the next action is taken.
    pub open spec fn after_step(self) -> EngineView {
        match self.action() {
            Action::Launch { unit, target } => EngineView {
                gate: self.gate.after_acquire(),
                cursor: self.cursor + 1,
                units: self.units.push(Unit { target, outcome: None }),
                ..self
            },
            Action::Skip { target } => EngineView {
                cursor: self.cursor + 1,
                skipped: self.skipped.push(target),
                ..self
            },
            _ => self,
        }
    }

    /// The state once unit number `unit` is reported to have ended in
    /// `outcome`: its permit is back. A report on a unit that does not run
    /// changes nothing.
    pub open spec fn after_complete(self, unit: usize, outcome: Result<(), DirustError>) -> EngineView {
        if self.running(unit as int) {
            EngineView {
                gate: self.gate.after_release(),
                units: self.units.update(
                    unit as int,
                    Unit { target: self.units[unit as int].target, outcome: Some(outcome) },
                ),
                ..self
            }
        } else {
            self
        }
    }

    /// The state once the engine is shut down: the pool is closed.
    pub open spec fn after_shutdown(self) -> EngineView {
        EngineView { gate: GateView { closed: true, ..self.gate }, ..self }
    }

    /// The state after one event.
    pub open spec fn after(self, event: Event) -> EngineView {
        match event {
            Event::Step => self.after_step(),
            Event::Completed { unit, outcome } => self.after_complete(unit, outcome),
            Event::Shutdown => self.after_shutdown(),
        }
    }

    /// The state after a sequence of events, taken in order.
    pub open spec fn run(self, events: Seq<Event>) -> EngineView
        decreases events.len(),
    {
        if events.len() == 0 {
            self
        } else {
            self.run(events.drop_last()).after(events.last())
        }
    }

    /// How much is left to do: two steps for every target not yet dealt
    /// with, its dispatch and its completion, and one for every running unit.
    pub open spec fn work_left(self) -> nat {
        (2 * (self.targets.len() - self.cursor) + self.gate.held) as nat
    }

    /// What the scan comes to once it is over: the error of the first unit,
    /// in launch order, that failed, and success if none did.
    pub open spec fn result(self) -> Option<Result<(), DirustError>> {
        if self.finished() {
            Some(first_failure(self.units))
        } else {
            None
        }
    }
}

/// Launching a unit puts one more in flight.
pub proof fn lemma_in_flight_push(units: Seq<Unit>, unit: Unit)
    ensures
        in_flight(units.push(unit)) == in_flight(units) + if unit.outcome is None {
            1nat
        } else {
            0nat
        },
{
    assert(units.push(unit).drop_last() =~= units);
}

/// A running unit that completes takes one out of flight.
pub proof fn lemma_in_flight_update(units: Seq<Unit>, k: int, unit: Unit)
    requires
        0 <= k < units.len(),
        units[k].outcome is None,
        unit.outcome is Some,
    ensures
        in_flight(units) >= 1,
        in_flight(units.update(k, unit)) == in_flight(units) - 1,
    decreases units.len(),
{
    if k == units.len() - 1 {
        assert(units.update(k, unit).drop_last() =~= units.drop_last());
    } else {
        lemma_in_flight_update(units.drop_last(), k, unit);
        assert(units.update(k, unit).drop_last() =~= units.drop_last().update(k, unit));
    }
}

/// No more units are in flight than there are units.
pub proof fn lemma_in_flight_bounds(units: Seq<Unit>)
    ensures
        in_flight(units) <= units.len(),
        in_flight(units) == 0 <==> forall|k: int|
            0 <= k < units.len() ==> (#[trigger] units[k]).outcome is Some,
    decreases units.len(),
{
    if units.len() > 0 {
        lemma_in_flight_bounds(units.drop_last());
        if in_flight(units) == 0 {
            assert forall|k: int| 0 <= k < units.len() implies (
            #[trigger] units[k]).outcome is Some by {
                if k < units.len() - 1 {
                    assert(units.drop_last()[k] == units[k]);
                }
            }
        } else if in_flight(units.drop_last()) != 0 {
            let k = choose|k: int|
                0 <= k < units.drop_last().len() && !((#[trigger] units.drop_last()[k]).outcome is Some);
            assert(units[k] == units.drop_last()[k]);
        }
    }
}

/// Whatever happens to a scan, its state stays one that a scan can be in.
pub proof fn lemma_event_keeps_wf(state: EngineView, event: Event)
    requires
        state.wf(),
    ensures
        state.after(event).wf(),
{
    match event {
        Event::Step => {
            match state.action() {
                Action::Launch { unit, target } => {
                    lemma_in_flight_push(state.units, Unit { target, outcome: None });
                },
                _ => {},
            }
        },
        Event::Completed { unit, outcome } => {
            if state.running(unit as int) {
                lemma_in_flight_update(
                    state.units,
                    unit as int,
                    Unit { target: state.units[unit as int].target, outcome: Some(outcome) },
                );
            }
        },
        Event::Shutdown => {},
    }
}

/// At no point of a scan are more probes in flight than the limit allows:
/// whatever the driver asks and reports, in whatever order, every state the
/// engine passes through keeps the number of running units within the limit.
pub proof fn lemma_in_flight_never_exceeds_limit(
    targets: Seq<Seq<char>>,
    limit: nat,
    events: Seq<Event>,
)
    requires
        limit >= 1,
        targets.len() <= usize::MAX,
    ensures
        EngineView::initial(targets, limit).run(events).wf(),
        EngineView::initial(targets, limit).run(events).gate.limit == limit,
        in_flight(EngineView::initial(targets, limit).run(events).units) <= limit,
    decreases events.len(),
{
    let start = EngineView::initial(targets, limit);
    if events.len() > 0 {
        lemma_in_flight_never_exceeds_limit(targets, limit, events.drop_last());
        lemma_event_keeps_wf(start.run(events.drop_last()), events.last());
    }
}

/// Targets are dispatched in the order of their generation: a unit launched
/// later probes a later target, a target skipped later is a later target,
/// every launched or skipped target lies behind the cursor, and none is both
/// launched and skipped.
pub proof fn lemma_dispatch_follows_generation_order(
    targets: Seq<Seq<char>>,
    limit: nat,
    events: Seq<Event>,
)
    requires
        limit >= 1,
        targets.len() <= usize::MAX,
    ensures
        ({
            let state = EngineView::initial(targets, limit).run(events);
            &&& state.targets == targets
            &&& state.cursor <= targets.len()
            &&& state.units.len() + state.skipped.len() == state.cursor
            &&& forall|j: int, k: int|
                0 <= j < k < state.units.len() ==> (#[trigger] state.units[j]).target < (
                #[trigger] state.units[k]).target
            &&& forall|k: int|
                0 <= k < state.units.len() ==> (#[trigger] state.units[k]).target < state.cursor
            &&& forall|j: int, k: int|
                0 <= j < k < state.skipped.len() ==> #[trigger] state.skipped[j]
                    < #[trigger] state.skipped[k]
            &&& forall|k: int|
                0 <= k < state.skipped.len() ==> #[trigger] state.skipped[k] < state.cursor
            &&& forall|j: int, k: int|
                0 <= j < state.units.len() && 0 <= k < state.skipped.len() ==> (
                #[trigger] state.units[j]).target != #[trigger] state.skipped[k]
        }),
    decreases events.len(),
{
    let start = EngineView::initial(targets, limit);
    lemma_in_flight_never_exceeds_limit(targets, limit, events);
    if events.len() > 0 {
        lemma_dispatch_follows_generation_order(targets, limit, events.drop_last());
    }
}

/// The engine asks its driver to wait only while a unit runs, so that the
/// wait comes to an end: a scan cannot stall with nothing in flight.
pub proof fn lemma_wait_has_a_running_unit(state: EngineView)
    requires
        state.wf(),
        state.action() is Wait,
    ensures
        in_flight(state.units) > 0,
        exists|unit: int| state.running(unit),
{
    lemma_in_flight_bounds(state.units);
    let k = choose|k: int| 0 <= k < state.units.len() && !((#[trigger] state.units[k]).outcome is Some);
    assert(state.running(k));
}

/// Every scan comes to its end: each action but `Wait` and each report on a
/// running unit leaves strictly less to do, and the scan is over exactly when
/// nothing is left.
pub proof fn lemma_scan_makes_progress(state: EngineView, event: Event)
    requires
        state.wf(),
    ensures
        state.after(event).work_left() <= state.work_left(),
        event is Step && !(state.action() is Wait) && !(state.action() is Finish)
            ==> state.after(event).work_left() < state.work_left(),
        event matches Event::Completed { unit, .. } && state.running(unit as int)
            ==> state.after(event).work_left() < state.work_left(),
        state.action() is Finish <==> state.work_left() == 0,
{
    if let Event::Completed { unit, outcome } = event {
        if state.running(unit as int) {
            lemma_in_flight_update(
                state.units,
                unit as int,
                Unit { target: state.units[unit as int].target, outcome: Some(outcome) },
            );
        }
    }
}

/// The order in which units complete does not matter: two reports on
/// different units leave the same state whichever comes first.
pub proof fn lemma_completions_commute(
    state: EngineView,
    a: usize,
    outcome_a: Result<(), DirustError>,
    b: usize,
    outcome_b: Result<(), DirustError>,
)
    requires
        a != b,
    ensures
        state.after_complete(a, outcome_a).after_complete(b, outcome_b) == state.after_complete(
            b,
            outcome_b,
        ).after_complete(a, outcome_a),
{
    let ab = state.after_complete(a, outcome_a).after_complete(b, outcome_b);
    let ba = state.after_complete(b, outcome_b).after_complete(a, outcome_a);
    assert(ab.units =~= ba.units);
}

/// A scan is over only when every target was launched or skipped and every
/// launched unit has completed: no unit is abandoned.
pub proof fn lemma_finished_scan_is_complete(state: EngineView)
    requires
        state.wf(),
        state.action() is Finish,
    ensures
        state.finished(),
        state.units.len() + state.skipped.len() == state.targets.len(),
        forall|k: int| 0 <= k < state.units.len() ==> (#[trigger] state.units[k]).outcome is Some,
{
    lemma_in_flight_bounds(state.units);
}

/// The result of a scan goes by launch order, not by the order in which the
/// units completed: it is `Ok` exactly when no unit failed, and otherwise
/// the error of the failed unit before which no unit failed.
pub proof fn lemma_first_failure_is_earliest(units: Seq<Unit>)
    ensures
        first_failure(units) is Ok <==> forall|k: int|
            0 <= k < units.len() ==> !failed(#[trigger] units[k]),
        first_failure(units) is Err ==> exists|i: int|
            0 <= i < units.len() && (#[trigger] units[i]).outcome == Some(first_failure(units))
                && forall|j: int| 0 <= j < i ==> !failed(#[trigger] units[j]),
    decreases units.len(),
{
    if units.len() > 0 {
        if failed(units.first()) {
            assert(units[0].outcome == Some(first_failure(units)));
        } else {
            let rest = units.drop_first();
            lemma_first_failure_is_earliest(rest);
            if first_failure(rest) is Err {
                let i = choose|i: int|
                    0 <= i < rest.len() && (#[trigger] rest[i]).outcome == Some(
                        first_failure(rest),
                    ) && forall|j: int| 0 <= j < i ==> !failed(#[trigger] rest[j]);
                assert(units[i + 1] == rest[i]);
                assert forall|j: int| 0 <= j < i + 1 implies !failed(#[trigger] units[j]) by {
                    if j > 0 {
                        assert(units[j] == rest[j - 1]);
                    }
                }
                assert(failed(units[i + 1]));
            } else {
                assert forall|k: int| 0 <= k < units.len() implies !failed(
                    #[trigger] units[k],
                ) by {
                    if k > 0 {
                        assert(units[k] == rest[k - 1]);
                    }
                }
            }
        }
    }
}

/// The scan engine. It holds the targets, the pool and the launched units.
#[derive(Debug)]
pub struct ScanEngine {
    targets: Vec<String>,
    gate: ConcurrencyGate,
    cursor: usize,
    units: Vec<Unit>,
    skipped: Vec<usize>,
}

impl View for ScanEngine {
    type V = EngineView;

    closed spec fn view(&self) -> EngineView {
        EngineView {
            targets: self.targets.deep_view(),
            gate: self.gate@,
            cursor: self.cursor as nat,
            units: self.units@,
            skipped: self.skipped@,
        }
    }
}

impl ScanEngine {
    /// The engine is in a state that a scan can be in.
    pub open spec fn wf(&self) -> bool {
        self@.wf()
    }

    /// An engine for a scan of `targets` with at most `limit` probes in
    /// flight. A limit of zero is refused: no probe could ever start.
    pub fn new(targets: Vec<String>, limit: usize) -> (made: Result<ScanEngine, DirustError>)
        ensures
            limit == 0 <==> made is Err,
            made matches Err(e) ==> e is InvalidConcurrency,
            made matches Ok(engine) ==> engine.wf() && engine@ == EngineView::initial(
                targets.deep_view(),
                limit as nat,
            ),
    {
        assert(targets.deep_view().len() == targets.len());
        match ConcurrencyGate::new(limit) {
            None => Err(DirustError::InvalidConcurrency),
            Some(gate) => {
                let engine = ScanEngine {
                    targets,
                    gate,
                    cursor: 0,
                    units: Vec::new(),
                    skipped: Vec::new(),
                };
                assert(engine@.units =~= Seq::empty());
                assert(engine@.skipped =~= Seq::empty());
                Ok(engine)
            },
        }
    }

    /// The number of targets of the scan.
    pub fn target_count(&self) -> (n: usize)
        ensures
            n == self@.targets.len(),
    {
        self.targets.len()
    }

    /// Target number `index`, if there is one.
    pub fn target(&self, index: usize) -> (url: Option<&str>)
        ensures
            index < self@.targets.len() <==> url is Some,
            url matches Some(text) ==> text@ == self@.targets[index as int],
    {
        if index < self.targets.len() {
            Some(self.targets[index].as_str())
        } else {
            None
        }
    }

    /// The most probes that may be in flight at once.
    pub fn limit(&self) -> (n: usize)
        ensures
            n == self@.gate.limit,
    {
        self.gate.limit()
    }

    /// The number of probes in flight. It never exceeds the limit.
    pub fn in_flight(&self) -> (n: usize)
        requires
            self.wf(),
        ensures
            n == in_flight(self@.units),
            n <= self@.gate.limit,
    {
        self.gate.held()
    }

    /// The number of units launched so far.
    pub fn launched(&self) -> (n: usize)
        ensures
            n == self@.units.len(),
    {
        self.units.len()
    }

    /// The number of targets passed over so far.
    pub fn skipped(&self) -> (n: usize)
        ensures
            n == self@.skipped.len(),
    {
        self.skipped.len()
    }

    /// Whether the scan is over.
    pub fn is_finished(&self) -> (over: bool)
        requires
            self.wf(),
        ensures
            over == self@.finished(),
    {
        self.cursor >= self.targets.len() && self.gate.held() == 0
    }

    /// Decides the next action and takes it: a launched unit holds its permit
    /// from here on, a skipped target is behind the engine.
    pub fn step(&mut self) -> (action: Action)
        requires
            old(self).wf(),
        ensures
            final(self).wf(),
            action == old(self)@.action(),
            final(self)@ == old(self)@.after_step(),
    {
        if self.cursor < self.targets.len() {
            match self.gate.acquire() {
                Acquire::Granted => {
                    let unit = self.units.len();
                    let target = self.cursor;
                    proof {
                        lemma_in_flight_push(self.units@, Unit { target, outcome: None });
                    }
                    self.units.push(Unit { target, outcome: None });
                    self.cursor = target + 1;
                    Action::Launch { unit, target }
                },
                Acquire::Closed => {
                    let target = self.cursor;
                    self.skipped.push(target);
                    self.cursor = target + 1;
                    Action::Skip { target }
                },
                Acquire::Exhausted => Action::Wait,
            }
        } else if self.gate.held() > 0 {
            Action::Wait
        } else {
            Action::Finish
        }
    }

    /// Records that unit number `unit` has ended in `outcome`, and takes its
    /// permit back. Returns whether the unit was running; a report on any
    /// other number is dropped.
    pub fn complete(&mut self, unit: usize, outcome: Result<(), DirustError>) -> (accepted: bool)
        requires
            old(self).wf(),
        ensures
            final(self).wf(),
            accepted == old(self)@.running(unit as int),
            final(self)@ == old(self)@.after_complete(unit, outcome),
    {
        if unit >= self.units.len() {
            return false;
        }
        if self.units[unit].outcome.is_some() {
            return false;
        }
        let target = self.units[unit].target;
        proof {
            lemma_in_flight_update(
                self.units@,
                unit as int,
                Unit { target, outcome: Some(outcome) },
            );
        }
        self.units.set(unit, Unit { target, outcome: Some(outcome) });
        self.gate.release();
        true
    }

    /// Shuts the engine down: the pool is closed, so that every target not
    /// yet dispatched is passed over. Units that run are left to complete.
    pub fn shutdown(&mut self)
        requires
            old(self).wf(),
        ensures
            final(self).wf(),
            final(self)@ == old(self)@.after_shutdown(),
    {
        self.gate.close();
    }

    /// What the scan came to, once it is over: the error of the first unit,
    /// in launch order, that failed, and success if none did. `None` while
    /// the scan is not over.
    pub fn into_result(self) -> (result: Option<Result<(), DirustError>>)
        requires
            self.wf(),
        ensures
            result == self@.result(),
    {
        if !self.is_finished() {
            return None;
        }
        Some(aggregate(self.units))
    }
}

/// The error of the first of `units`, in their order, that failed; success if
/// none did.
pub fn aggregate(units: Vec<Unit>) -> (result: Result<(), DirustError>)
    ensures
        result == first_failure(units@),
{
    let mut units = units;
    let ghost all = units@;
    let ghost mut tail: Seq<Unit> = Seq::empty();
    let mut result: Result<(), DirustError> = Ok(());
    assert(units@ + tail =~= all);
    while units.len() > 0
        invariant
            units@ + tail == all,
            result == first_failure(tail),
        decreases units.len(),
    {
        let ghost head = units@.drop_last();
        let unit = units.pop().unwrap();
        proof {
            assert(head + (seq![unit] + tail) =~= all);
            assert((seq![unit] + tail).first() == unit);
            assert((seq![unit] + tail).drop_first() =~= tail);
            tail = seq![unit] + tail;
        }
        match unit.outcome {
            Some(Err(e)) => {
                result = Err(e);
            },
            _ => {},
        }
    }
    assert(tail =~= all);
    result
}

} // verus!
