//! A worker: it asks for chunks, has them done by an engine that it starts and
//! shuts down, and hands in what came of them.

use vstd::prelude::*;

use crate::work::EngineFlavor;

verus! {

/// What a worker is doing.
#[derive(Clone, Copy, PartialEq, Eq, Debug, Structural)]
pub enum Stage {
    /// It is handing in a report, and thereby asks for a chunk.
    Reporting,
    /// It is waiting for a chunk.
    Waiting,
    /// It has a chunk, and is waiting before it starts an engine for it.
    BackingOff(EngineFlavor),
    /// It has a chunk that an engine is working on.
    Working(EngineFlavor),
    /// Its engine has failed or was too slow, and it is waiting for that engine to
    /// shut down, before it reports what came of the chunk.
    ShuttingDown(EngineFlavor, Outcome),
    /// It has stopped.
    Stopped,
}

/// A worker.
#[derive(Clone, Copy, PartialEq, Eq, Debug, Structural)]
pub struct Worker {
    /// There is an idle engine for standard chess.
    pub official: bool,
    /// There is an idle engine for chess variants.
    pub multi_variant: bool,
    /// What the worker is doing.
    pub stage: Stage,
}

/// What happens to a worker.
#[derive(Clone, Copy, PartialEq, Eq, Debug, Structural)]
pub enum WorkerEvent {
    /// The report has been taken.
    ReportTaken,
    /// Nobody takes reports any longer.
    ReportRefused,
    /// There is a chunk for this engine.
    NextChunk(EngineFlavor),
    /// There will be no chunk.
    NoChunk,
    /// The time to wait before starting an engine is over.
    BackoffOver,
    /// The engine has answers for the chunk.
    Finished,
    /// The engine has failed.
    Failed,
    /// The deadline of the chunk has passed.
    TimedOut,
    /// The engine that was told to shut down is down.
    EngineDown,
    /// The client is shutting down.
    Closed,
}

/// What came of a chunk.
#[derive(Clone, Copy, PartialEq, Eq, Debug, Structural)]
pub enum Outcome {
    /// There was no chunk yet.
    Nothing,
    /// There are answers. The engine is kept for the next chunk, and the time to
    /// wait before starting an engine is reset.
    Responses,
    /// There are no answers.
    Failed,
    /// There are no answers in time.
    TimedOut,
}

/// What a worker does next.
#[derive(Clone, Copy, PartialEq, Eq, Debug, Structural)]
pub enum WorkerAction {
    /// Hand in a report.
    Report(Outcome),
    /// Wait for a chunk.
    Await,
    /// Wait before an engine is started.
    BackOff,
    /// Start this engine, and give it the chunk.
    Start(EngineFlavor),
    /// Give the chunk to this engine, which is idle.
    Resume(EngineFlavor),
    /// Shut down this engine, which was working, and wait until it is down.
    ShutDown(EngineFlavor),
    /// Shut down the engine that is working, the idle one for standard chess and
    /// the idle one for chess variants, as far as there is one, in this order.
    Stop { working: bool, official: bool, multi_variant: bool },
}

impl Worker {
    /// There is an idle engine of this flavor.
    pub open spec fn has(self, flavor: EngineFlavor) -> bool {
        match flavor {
            EngineFlavor::Official => self.official,
            EngineFlavor::MultiVariant => self.multi_variant,
        }
    }

    /// There is at most one engine of each flavor, an engine is started only if
    /// there is none, and none is left when the worker has stopped.
    pub open spec fn wf(self) -> bool {
        match self.stage {
            Stage::BackingOff(flavor) => !self.has(flavor),
            Stage::Working(flavor) => !self.has(flavor),
            Stage::ShuttingDown(flavor, outcome) => !self.has(flavor) && outcome.is_failure(),
            Stage::Stopped => !self.official && !self.multi_variant,
            _ => true,
        }
    }

    /// What can happen to a worker depends on what it is doing.
    pub open spec fn accepts(self, event: WorkerEvent) -> bool {
        match self.stage {
            Stage::Reporting => event is ReportTaken || event is ReportRefused,
            Stage::Waiting => event is NextChunk || event is NoChunk || event is Closed,
            Stage::BackingOff(_) => event is BackoffOver || event is Closed,
            Stage::Working(_) => event is Finished || event is Failed || event is TimedOut
                || event is Closed,
            Stage::ShuttingDown(..) => event is EngineDown,
            Stage::Stopped => false,
        }
    }

    /// The worker with an idle engine of this flavor, or without one.
    pub open spec fn with(self, flavor: EngineFlavor, idle: bool) -> Worker {
        match flavor {
            EngineFlavor::Official => Worker { official: idle, ..self },
            EngineFlavor::MultiVariant => Worker { multi_variant: idle, ..self },
        }
    }

    /// A worker that has just been started: it asks for its first chunk.
    pub open spec fn fresh() -> (Worker, WorkerAction) {
        (
            Worker { official: false, multi_variant: false, stage: Stage::Reporting },
            WorkerAction::Report(Outcome::Nothing),
        )
    }

    /// How a worker stops: every engine is shut down.
    pub open spec fn stopped(self) -> (Worker, WorkerAction) {
        (
            Worker { official: false, multi_variant: false, stage: Stage::Stopped },
            WorkerAction::Stop {
                working: self.stage is Working,
                official: self.official,
                multi_variant: self.multi_variant,
            },
        )
    }

    /// How a worker goes on when it gets a chunk: an idle engine gets it at
    /// once, but an engine is started only after a while.
    pub open spec fn assigned(self, flavor: EngineFlavor) -> (Worker, WorkerAction) {
        if self.has(flavor) {
            (
                Worker { stage: Stage::Working(flavor), ..self.with(flavor, false) },
                WorkerAction::Resume(flavor),
            )
        } else {
            (Worker { stage: Stage::BackingOff(flavor), ..self }, WorkerAction::BackOff)
        }
    }

    /// What follows an event.
    pub open spec fn after(self, event: WorkerEvent) -> (Worker, WorkerAction) {
        match (self.stage, event) {
            (Stage::Reporting, WorkerEvent::ReportTaken) => (
                Worker { stage: Stage::Waiting, ..self },
                WorkerAction::Await,
            ),
            (Stage::Waiting, WorkerEvent::NextChunk(flavor)) => self.assigned(flavor),
            (Stage::BackingOff(flavor), WorkerEvent::BackoffOver) => (
                Worker { stage: Stage::Working(flavor), ..self },
                WorkerAction::Start(flavor),
            ),
            (Stage::Working(flavor), WorkerEvent::Finished) => (
                Worker { stage: Stage::Reporting, ..self.with(flavor, true) },
                WorkerAction::Report(Outcome::Responses),
            ),
            (Stage::Working(flavor), WorkerEvent::Failed) => (
                Worker { stage: Stage::ShuttingDown(flavor, Outcome::Failed), ..self },
                WorkerAction::ShutDown(flavor),
            ),
            (Stage::Working(flavor), WorkerEvent::TimedOut) => (
                Worker { stage: Stage::ShuttingDown(flavor, Outcome::TimedOut), ..self },
                WorkerAction::ShutDown(flavor),
            ),
            (Stage::ShuttingDown(_, outcome), WorkerEvent::EngineDown) => (
                Worker { stage: Stage::Reporting, ..self },
                WorkerAction::Report(outcome),
            ),
            _ => self.stopped(),
        }
    }

    /// Starts a worker.
    pub fn start() -> (r: (Worker, WorkerAction))
        ensures
            r == Worker::fresh(),
            r.0.wf(),
    {
        (
            Worker { official: false, multi_variant: false, stage: Stage::Reporting },
            WorkerAction::Report(Outcome::Nothing),
        )
    }

    /// Notes whether there is an idle engine of this flavor.
    fn put(&mut self, flavor: EngineFlavor, idle: bool)
        ensures
            *final(self) == old(self).with(flavor, idle),
    {
        match flavor {
            EngineFlavor::Official => {
                self.official = idle;
            },
            EngineFlavor::MultiVariant => {
                self.multi_variant = idle;
            },
        }
    }

    /// Takes the next step after an event.
    pub fn step(&mut self, event: WorkerEvent) -> (action: WorkerAction)
        requires
            old(self).wf(),
            old(self).accepts(event),
        ensures
            final(self).wf(),
            (*final(self), action) == old(self).after(event),
    {
        match (self.stage, event) {
            (Stage::Reporting, WorkerEvent::ReportTaken) => {
                self.stage = Stage::Waiting;
                WorkerAction::Await
            },
            (Stage::Waiting, WorkerEvent::NextChunk(flavor)) => {
                let idle: bool = match flavor {
                    EngineFlavor::Official => self.official,
                    EngineFlavor::MultiVariant => self.multi_variant,
                };
                if idle {
                    self.put(flavor, false);
                    self.stage = Stage::Working(flavor);
                    WorkerAction::Resume(flavor)
                } else {
                    self.stage = Stage::BackingOff(flavor);
                    WorkerAction::BackOff
                }
            },
            (Stage::BackingOff(flavor), WorkerEvent::BackoffOver) => {
                self.stage = Stage::Working(flavor);
                WorkerAction::Start(flavor)
            },
            (Stage::Working(flavor), WorkerEvent::Finished) => {
                self.put(flavor, true);
                self.stage = Stage::Reporting;
                WorkerAction::Report(Outcome::Responses)
            },
            (Stage::Working(flavor), WorkerEvent::Failed) => {
                self.stage = Stage::ShuttingDown(flavor, Outcome::Failed);
                WorkerAction::ShutDown(flavor)
            },
            (Stage::Working(flavor), WorkerEvent::TimedOut) => {
                self.stage = Stage::ShuttingDown(flavor, Outcome::TimedOut);
                WorkerAction::ShutDown(flavor)
            },
            (Stage::ShuttingDown(_, outcome), WorkerEvent::EngineDown) => {
                self.stage = Stage::Reporting;
                WorkerAction::Report(outcome)
            },
            _ => {
                let working: bool = match self.stage {
                    Stage::Working(_) => true,
                    _ => false,
                };
                let action = WorkerAction::Stop {
                    working,
                    official: self.official,
                    multi_variant: self.multi_variant,
                };
                self.official = false;
                self.multi_variant = false;
                self.stage = Stage::Stopped;
                action
            },
        }
    }

    /// The number of engines that are running.
    pub open spec fn engines(self) -> int {
        count(self.official) + count(self.multi_variant) + count(
            self.stage is Working || self.stage is ShuttingDown,
        )
    }

    /// Whether the worker has a chunk that it has not reported on.
    pub open spec fn has_chunk(self) -> bool {
        self.stage is BackingOff || self.stage is Working || self.stage is ShuttingDown
    }
}

/// One for true, zero for false.
pub open spec fn count(b: bool) -> int {
    if b {
        1
    } else {
        0
    }
}

impl Outcome {
    /// A chunk was given up.
    pub open spec fn is_failure(self) -> bool {
        self is Failed || self is TimedOut
    }
}

impl WorkerAction {
    /// The number of engines that are started.
    pub open spec fn starts(self) -> int {
        count(self is Start)
    }

    /// The number of engines that are shut down as the worker stops.
    pub open spec fn shuts_down(self) -> int {
        match self {
            WorkerAction::Stop { working, official, multi_variant } => count(working) + count(
                official,
            ) + count(multi_variant),
            _ => 0,
        }
    }

    /// Whether a chunk is reported on.
    pub open spec fn reports(self) -> bool {
        self matches WorkerAction::Report(outcome) && outcome != Outcome::Nothing
    }
}

/// The life of a worker: where it stands after `events`, how many engines it has
/// started and shut down, and how many chunks it has been given and has reported
/// on.
pub struct History {
    pub worker: Worker,
    pub started: int,
    pub shut_down: int,
    pub given: int,
    pub reported: int,
}

/// Every event is one that the worker can meet where it stands.
pub open spec fn possible(events: Seq<WorkerEvent>) -> bool
    decreases events.len(),
{
    events.len() > 0 ==> possible(events.drop_last()) && history(
        events.drop_last(),
    ).worker.accepts(events.last())
}

/// The life of a worker that meets `events`.
pub open spec fn history(events: Seq<WorkerEvent>) -> History
    decreases events.len(),
{
    if events.len() == 0 {
        History { worker: Worker::fresh().0, started: 0, shut_down: 0, given: 0, reported: 0 }
    } else {
        let before = history(events.drop_last());
        let (worker, action) = before.worker.after(events.last());
        History {
            worker,
            started: before.started + action.starts(),
            shut_down: before.shut_down + count(events.last() is EngineDown) + action.shuts_down(),
            given: before.given + count(events.last() is NextChunk),
            reported: before.reported + count(action.reports()),
        }
    }
}

/// No engine is left behind: the engines that have been started and not shut
/// down are the ones that are running, there are never two of a flavor, and none
/// runs when the worker has stopped.
pub proof fn law_no_engine_is_left_behind(events: Seq<WorkerEvent>)
    requires
        possible(events),
    ensures
        history(events).worker.wf(),
        history(events).started == history(events).shut_down + history(events).worker.engines(),
        history(events).worker.engines() <= 2,
        history(events).worker.stage is Stopped ==> history(events).worker.engines() == 0,
    decreases events.len(),
{
    if events.len() > 0 {
        law_no_engine_is_left_behind(events.drop_last());
    }
}

/// No chunk is lost and none is reported on twice: as long as the worker has not
/// stopped, it has reported on every chunk but the one that it has, if any.
/// Stopping gives up that one and no other.
pub proof fn law_every_chunk_is_reported_on(events: Seq<WorkerEvent>)
    requires
        possible(events),
    ensures
        !(history(events).worker.stage is Stopped) ==> history(events).given == history(
            events,
        ).reported + count(history(events).worker.has_chunk()),
        history(events).reported <= history(events).given <= history(events).reported + 1,
    decreases events.len(),
{
    if events.len() > 0 {
        law_every_chunk_is_reported_on(events.drop_last());
    }
}

/// Shutting down always stops the worker at once, whether it is waiting for a
/// chunk, for an engine to be started or for an engine to finish.
pub proof fn law_shutdown_stops_the_worker(worker: Worker)
    requires
        worker.accepts(WorkerEvent::Closed),
    ensures
        worker.after(WorkerEvent::Closed).0.stage is Stopped,
        worker.after(WorkerEvent::Closed).1.shuts_down() == worker.engines(),
{
}

/// That a chunk was given up is reported only when its engine is down: the
/// worker has told the engine to shut down, then the engine went down, and the
/// report follows.
pub proof fn law_engine_is_down_before_failure_is_reported(events: Seq<WorkerEvent>)
    requires
        possible(events),
        events.len() > 0,
        history(events.drop_last()).worker.after(events.last()).1 matches WorkerAction::Report(
            outcome,
        ) && outcome.is_failure(),
    ensures
        events.len() >= 2,
        events.last() is EngineDown,
        ({
            let asked = history(events.drop_last().drop_last()).worker.after(
                events.drop_last().last(),
            ).1;
            &&& asked matches WorkerAction::ShutDown(flavor) && !history(events).worker.has(flavor)
            &&& history(events).shut_down == history(events.drop_last()).shut_down + 1
        }),
{
    let before = events.drop_last();
    law_no_engine_is_left_behind(before);
    assert(before.len() > 0);
    assert(possible(before));
    law_no_engine_is_left_behind(before.drop_last());
}

/// An engine that has answers for a chunk is kept: the next chunk of its flavor
/// is given to it, and nothing is waited for. The worker then stands where it
/// stood.
pub proof fn law_engine_is_kept_after_success(worker: Worker, flavor: EngineFlavor)
    requires
        worker.wf(),
        worker.stage == Stage::Working(flavor),
    ensures
        ({
            let (finished, first) = worker.after(WorkerEvent::Finished);
            let (reported, second) = finished.after(WorkerEvent::ReportTaken);
            let (again, third) = reported.after(WorkerEvent::NextChunk(flavor));
            &&& first == WorkerAction::Report(Outcome::Responses)
            &&& second == WorkerAction::Await
            &&& third == WorkerAction::Resume(flavor)
            &&& again == worker
        }),
{
}

/// An engine that has failed or was too slow is replaced: it is shut down, the
/// chunk is reported as given up once it is down, and for the next chunk of its
/// flavor another one is started after a while. The idle engine of the other
/// flavor is left as it was all along.
pub proof fn law_engine_is_replaced_after_failure(
    worker: Worker,
    flavor: EngineFlavor,
    other: EngineFlavor,
    too_slow: bool,
)
    requires
        worker.wf(),
        worker.stage == Stage::Working(flavor),
        other != flavor,
    ensures
        ({
            let (event, outcome) = if too_slow {
                (WorkerEvent::TimedOut, Outcome::TimedOut)
            } else {
                (WorkerEvent::Failed, Outcome::Failed)
            };
            let (failed, first) = worker.after(event);
            let (down, second) = failed.after(WorkerEvent::EngineDown);
            let (reported, third) = down.after(WorkerEvent::ReportTaken);
            let (given, fourth) = reported.after(WorkerEvent::NextChunk(flavor));
            let (again, fifth) = given.after(WorkerEvent::BackoffOver);
            &&& first == WorkerAction::ShutDown(flavor)
            &&& second == WorkerAction::Report(outcome)
            &&& third == WorkerAction::Await
            &&& fourth == WorkerAction::BackOff
            &&& fifth == WorkerAction::Start(flavor)
            &&& again == worker
            &&& failed.has(other) == worker.has(other)
            &&& down.has(other) == worker.has(other)
            &&& reported.has(other) == worker.has(other)
            &&& given.has(other) == worker.has(other)
        }),
{
}

/// What a worker does while it goes on. When its report is taken, it waits for a
/// chunk. A chunk goes to the idle engine of its flavor, or else one is started
/// after a while. Answers are reported and their engine is kept. An engine that
/// failed or was too slow is shut down, and what became of the chunk is reported
/// when it is down.
pub proof fn law_worker_goes_on(event: WorkerEvent)
    ensures
        forall|it: &mut Worker, action: WorkerAction| #[trigger]
            call_ensures(Worker::step, (it, event), action) && it.wf() && it.accepts(event) ==> ({
                let before = *it;
                let after = *final(it);
                match event {
                    WorkerEvent::ReportTaken => {
                        &&& action is Await
                        &&& after == (Worker { stage: Stage::Waiting, ..before })
                    },
                    WorkerEvent::NextChunk(flavor) => if flavor is Official && before.official {
                        &&& action == WorkerAction::Resume(flavor)
                        &&& after == (Worker {
                            official: false,
                            stage: Stage::Working(flavor),
                            ..before
                        })
                    } else if flavor is MultiVariant && before.multi_variant {
                        &&& action == WorkerAction::Resume(flavor)
                        &&& after == (Worker {
                            multi_variant: false,
                            stage: Stage::Working(flavor),
                            ..before
                        })
                    } else {
                        &&& action is BackOff
                        &&& after == (Worker { stage: Stage::BackingOff(flavor), ..before })
                    },
                    WorkerEvent::BackoffOver => {
                        &&& before.stage matches Stage::BackingOff(flavor)
                        &&& action == WorkerAction::Start(flavor)
                        &&& after == (Worker { stage: Stage::Working(flavor), ..before })
                    },
                    WorkerEvent::Finished => {
                        &&& before.stage matches Stage::Working(flavor)
                        &&& action == WorkerAction::Report(Outcome::Responses)
                        &&& after.stage is Reporting
                        &&& after.official == (before.official || flavor is Official)
                        &&& after.multi_variant == (before.multi_variant || flavor is MultiVariant)
                    },
                    WorkerEvent::Failed => {
                        &&& before.stage matches Stage::Working(flavor)
                        &&& action == WorkerAction::ShutDown(flavor)
                        &&& after == (Worker {
                            stage: Stage::ShuttingDown(flavor, Outcome::Failed),
                            ..before
                        })
                    },
                    WorkerEvent::TimedOut => {
                        &&& before.stage matches Stage::Working(flavor)
                        &&& action == WorkerAction::ShutDown(flavor)
                        &&& after == (Worker {
                            stage: Stage::ShuttingDown(flavor, Outcome::TimedOut),
                            ..before
                        })
                    },
                    WorkerEvent::EngineDown => {
                        &&& before.stage matches Stage::ShuttingDown(_, outcome)
                        &&& action == WorkerAction::Report(outcome)
                        &&& after == (Worker { stage: Stage::Reporting, ..before })
                    },
                    _ => action is Stop,
                }
            }),
{
}

/// When a worker stops: if nobody takes its report, if there will be no chunk, or
/// if the client is shutting down, and in no other case. It then shuts down just
/// the engines that it has, and stays stopped.
pub proof fn law_worker_stops(event: WorkerEvent)
    ensures
        forall|it: &mut Worker, action: WorkerAction| #[trigger]
            call_ensures(Worker::step, (it, event), action) && it.wf() && it.accepts(event) ==> ({
                let before = *it;
                let after = *final(it);
                &&& action is Stop <==> event is ReportRefused || event is NoChunk || event is Closed
                &&& action is Stop <==> after.stage is Stopped
                &&& action is Stop ==> {
                    &&& action == (WorkerAction::Stop {
                        working: before.stage is Working,
                        official: before.official,
                        multi_variant: before.multi_variant,
                    })
                    &&& !after.official && !after.multi_variant
                    &&& forall|next: WorkerEvent| !#[trigger] after.accepts(next)
                }
            }),
{
}

/// What can happen to a worker: its report is taken or not; while it waits for a
/// chunk, there is one, there will be none, or the client shuts down; while it
/// waits to start an engine, the time is over or the client shuts down; while an
/// engine works, it finishes, fails or is too slow, or the client shuts down; and
/// an engine that is shut down goes down.
pub proof fn law_what_can_happen_to_a_worker(worker: Worker, flavor: EngineFlavor)
    ensures
        worker.stage is Reporting <==> worker.accepts(WorkerEvent::ReportTaken),
        worker.stage is Reporting <==> worker.accepts(WorkerEvent::ReportRefused),
        worker.stage is Waiting <==> worker.accepts(WorkerEvent::NextChunk(flavor)),
        worker.stage is Waiting <==> worker.accepts(WorkerEvent::NoChunk),
        worker.stage is BackingOff <==> worker.accepts(WorkerEvent::BackoffOver),
        worker.stage is Working <==> worker.accepts(WorkerEvent::Finished),
        worker.stage is Working <==> worker.accepts(WorkerEvent::Failed),
        worker.stage is Working <==> worker.accepts(WorkerEvent::TimedOut),
        worker.stage is ShuttingDown <==> worker.accepts(WorkerEvent::EngineDown),
        worker.stage is Waiting || worker.stage is BackingOff || worker.stage is Working
            <==> worker.accepts(WorkerEvent::Closed),
{
}

/// A worker starts without engines, and asks for its first chunk.
pub proof fn law_worker_starts_by_asking(start: (Worker, WorkerAction))
    requires
        call_ensures(Worker::start, (), start),
    ensures
        !start.0.official && !start.0.multi_variant,
        start.0.stage is Reporting,
        start.1 == WorkerAction::Report(Outcome::Nothing),
        start == Worker::fresh(),
{
}

/// The engines that a worker has, wherever it stands: an engine that is to be
/// started, is working or is being shut down is never idle at the same time, and
/// a worker that has stopped has none. Nothing else is asked of a worker.
pub proof fn law_valid_workers(worker: Worker, flavor: EngineFlavor, outcome: Outcome)
    ensures
        worker.stage is Reporting || worker.stage is Waiting ==> worker.wf(),
        worker.stage is Stopped ==> (worker.wf() <==> !worker.official && !worker.multi_variant),
        worker.stage == Stage::BackingOff(EngineFlavor::Official) || worker.stage == Stage::Working(
            EngineFlavor::Official,
        ) ==> (worker.wf() <==> !worker.official),
        worker.stage == Stage::BackingOff(EngineFlavor::MultiVariant) || worker.stage
            == Stage::Working(EngineFlavor::MultiVariant) ==> (worker.wf() <==> !worker.multi_variant),
        worker.stage == Stage::ShuttingDown(flavor, outcome) ==> (worker.wf() <==> !worker.has(
            flavor,
        ) && (outcome is Failed || outcome is TimedOut)),
{
}

} // verus!
