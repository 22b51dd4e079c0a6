use fishnet::work::EngineFlavor::{MultiVariant, Official};
use fishnet::worker::{Outcome, Stage, Worker, WorkerAction, WorkerEvent};

fn waiting() -> Worker {
    let (mut worker, action) = Worker::start();
    assert_eq!(action, WorkerAction::Report(Outcome::Nothing));
    assert_eq!(worker.step(WorkerEvent::ReportTaken), WorkerAction::Await);
    worker
}

fn working() -> Worker {
    let mut worker = waiting();
    assert_eq!(worker.step(WorkerEvent::NextChunk(Official)), WorkerAction::BackOff);
    assert_eq!(worker.step(WorkerEvent::BackoffOver), WorkerAction::Start(Official));
    assert_eq!(worker.stage, Stage::Working(Official));
    worker
}

fn stop(working: bool, official: bool, multi_variant: bool) -> WorkerAction {
    WorkerAction::Stop { working, official, multi_variant }
}

#[test]
fn engine_is_kept_for_the_next_chunk() {
    let mut worker = working();
    assert_eq!(worker.step(WorkerEvent::Finished), WorkerAction::Report(Outcome::Responses));
    assert!(worker.official);
    assert_eq!(worker.step(WorkerEvent::ReportTaken), WorkerAction::Await);
    assert_eq!(
        worker.step(WorkerEvent::NextChunk(Official)),
        WorkerAction::Resume(Official)
    );
    assert!(!worker.official);
}

#[test]
fn each_flavor_has_its_engine() {
    let mut worker = working();
    worker.step(WorkerEvent::Finished);
    worker.step(WorkerEvent::ReportTaken);
    assert_eq!(worker.step(WorkerEvent::NextChunk(MultiVariant)), WorkerAction::BackOff);
    assert_eq!(worker.step(WorkerEvent::BackoffOver), WorkerAction::Start(MultiVariant));
    worker.step(WorkerEvent::Finished);
    assert_eq!(worker.step(WorkerEvent::ReportRefused), stop(false, true, true));
    assert_eq!(worker.stage, Stage::Stopped);
    assert!(!worker.official && !worker.multi_variant);
}

#[test]
fn failed_engine_is_started_again() {
    for (event, outcome) in [
        (WorkerEvent::Failed, Outcome::Failed),
        (WorkerEvent::TimedOut, Outcome::TimedOut),
    ] {
        let mut worker = working();
        assert_eq!(worker.step(event), WorkerAction::ShutDown(Official));
        assert_eq!(worker.stage, Stage::ShuttingDown(Official, outcome));
        assert_eq!(worker.step(WorkerEvent::EngineDown), WorkerAction::Report(outcome));
        assert!(!worker.official);
        worker.step(WorkerEvent::ReportTaken);
        assert_eq!(worker.step(WorkerEvent::NextChunk(Official)), WorkerAction::BackOff);
        assert_eq!(worker.step(WorkerEvent::BackoffOver), WorkerAction::Start(Official));
    }
}

#[test]
fn shutting_down_stops_a_worker_anywhere() {
    assert_eq!(waiting().step(WorkerEvent::Closed), stop(false, false, false));
    assert_eq!(waiting().step(WorkerEvent::NoChunk), stop(false, false, false));
    let mut worker = waiting();
    worker.step(WorkerEvent::NextChunk(MultiVariant));
    assert_eq!(worker.step(WorkerEvent::Closed), stop(false, false, false));
    assert_eq!(working().step(WorkerEvent::Closed), stop(true, false, false));
}

#[test]
fn engines_are_all_shut_down() {
    let mut worker = working();
    worker.step(WorkerEvent::Finished);
    worker.step(WorkerEvent::ReportTaken);
    worker.step(WorkerEvent::NextChunk(MultiVariant));
    worker.step(WorkerEvent::BackoffOver);
    assert_eq!(worker.step(WorkerEvent::Closed), stop(true, true, false));
}

#[test]
fn idle_engine_is_left_alone_when_the_other_fails() {
    let mut worker = working();
    worker.step(WorkerEvent::Finished);
    worker.step(WorkerEvent::ReportTaken);
    worker.step(WorkerEvent::NextChunk(MultiVariant));
    worker.step(WorkerEvent::BackoffOver);
    assert_eq!(worker.step(WorkerEvent::TimedOut), WorkerAction::ShutDown(MultiVariant));
    assert!(worker.official);
    worker.step(WorkerEvent::EngineDown);
    assert!(worker.official && !worker.multi_variant);
    assert_eq!(worker.step(WorkerEvent::ReportRefused), stop(false, true, false));
}
