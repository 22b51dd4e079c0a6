use fishnet::supervisor::{Action, Due, Event, Supervisor, SUMMARY_INTERVAL, UPDATE_INTERVAL};

#[test]
fn intervals() {
    assert_eq!(UPDATE_INTERVAL, std::time::Duration::from_secs(60 * 60 * 5).as_nanos());
    assert_eq!(SUMMARY_INTERVAL, std::time::Duration::from_secs(120).as_nanos());
}

#[test]
fn what_is_due() {
    let mut supervisor = Supervisor::start(true, 1000);
    assert_eq!(supervisor.tick(1000 + SUMMARY_INTERVAL - 1), Due { update: false, summary: false });
    assert_eq!(supervisor.tick(1000 + SUMMARY_INTERVAL), Due { update: false, summary: true });
    assert_eq!(supervisor.tick(1001 + SUMMARY_INTERVAL), Due { update: false, summary: false });
    assert_eq!(supervisor.tick(1000 + UPDATE_INTERVAL), Due { update: true, summary: true });
    assert_eq!(supervisor.tick(1000 + UPDATE_INTERVAL), Due { update: false, summary: false });
    assert_eq!(supervisor.tick(0), Due { update: false, summary: false });
}

#[test]
fn updates_are_not_looked_for_unless_wanted() {
    let mut supervisor = Supervisor::start(false, 0);
    assert_eq!(supervisor.tick(UPDATE_INTERVAL), Due { update: false, summary: true });
}

#[test]
fn two_interruptions() {
    let mut supervisor = Supervisor::start(true, 0);
    assert_eq!(supervisor.step(Event::Interrupt), Action::StopSoon);
    assert!(supervisor.shutdown_soon);
    assert_eq!(supervisor.step(Event::Pull), Action::Forward);
    assert!(!supervisor.tick(UPDATE_INTERVAL).update);
    assert_eq!(supervisor.step(Event::Interrupt), Action::StopNow);
    assert_eq!(supervisor.step(Event::NoWorkers), Action::Leave);
    assert!(!supervisor.restart);
}

#[test]
fn termination_stops_at_once() {
    let mut supervisor = Supervisor::start(true, 0);
    assert_eq!(supervisor.step(Event::Terminate), Action::StopNow);
    assert_eq!(supervisor.step(Event::Interrupt), Action::StopNow);
    assert!(supervisor.shutdown_soon);
}

#[test]
fn update_restarts_the_client() {
    let mut supervisor = Supervisor::start(true, 0);
    assert_eq!(supervisor.step(Event::Update { updated: false }), Action::Continue);
    assert!(!supervisor.restart && !supervisor.shutdown_soon);
    assert_eq!(supervisor.step(Event::Update { updated: true }), Action::StopSoon);
    assert!(supervisor.restart && supervisor.shutdown_soon);
    assert_eq!(supervisor.step(Event::Quiet), Action::Continue);
    assert_eq!(supervisor.step(Event::Interrupt), Action::StopNow);
    assert!(supervisor.restart);
}
