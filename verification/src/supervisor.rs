//! The main loop of the client: signals, updates from time to time, summaries
//! from time to time, and the way to shut down.

use vstd::prelude::*;

verus! {

/// The time between two looks for an update: five hours, in nanoseconds.
pub const UPDATE_INTERVAL: u128 = 18_000_000_000_000;

/// The time between two summaries: two minutes, in nanoseconds.
pub const SUMMARY_INTERVAL: u128 = 120_000_000_000;

/// The state of the main loop. Times are in nanoseconds since some moment.
#[derive(Clone, Copy, PartialEq, Eq, Debug, Structural)]
pub struct Supervisor {
    /// Updates are looked for.
    pub auto_update: bool,
    /// No more work is taken on.
    pub shutdown_soon: bool,
    /// The client has been updated, and is to be started again at the end.
    pub restart: bool,
    /// When an update was looked for.
    pub up_to_date: u128,
    /// When a summary was given.
    pub summarized: u128,
}

/// What is due.
#[derive(Clone, Copy, PartialEq, Eq, Debug, Structural)]
pub struct Due {
    /// To look for an update.
    pub update: bool,
    /// To give a summary.
    pub summary: bool,
}

/// What happens to the client.
#[derive(Clone, Copy, PartialEq, Eq, Debug, Structural)]
pub enum Event {
    /// The client has been updated, or found to be up to date or impossible to
    /// update.
    Update { updated: bool },
    /// The user wants to stop.
    Interrupt,
    /// The system wants the client to stop.
    Terminate,
    /// A worker hands in a report, and asks for more work.
    Pull,
    /// All workers have stopped.
    NoWorkers,
    /// Nothing has happened for a while.
    Quiet,
}

/// What the client does.
#[derive(Clone, Copy, PartialEq, Eq, Debug, Structural)]
pub enum Action {
    /// Nothing.
    Continue,
    /// Tell the queue to take on no more work.
    StopSoon,
    /// Take no more reports of workers, which makes them stop.
    StopNow,
    /// Pass the report on to the queue.
    Forward,
    /// Leave the main loop.
    Leave,
}

/// The time from `then` to `now`, or none if `now` is before.
pub open spec fn elapsed(then: u128, now: u128) -> int {
    if now >= then {
        now - then
    } else {
        0
    }
}

impl Supervisor {
    /// The client is started again only after it has been shut down.
    pub open spec fn wf(self) -> bool {
        self.restart ==> self.shutdown_soon
    }

    /// What is due at `now`. Updates are not looked for while shutting down.
    pub open spec fn due(self, now: u128) -> Due {
        Due {
            update: self.auto_update && !self.shutdown_soon && elapsed(self.up_to_date, now)
                >= UPDATE_INTERVAL,
            summary: elapsed(self.summarized, now) >= SUMMARY_INTERVAL,
        }
    }

    /// What follows an event.
    pub open spec fn after(self, event: Event) -> (Supervisor, Action) {
        match event {
            Event::Update { updated: true } => (
                Supervisor { restart: true, shutdown_soon: true, ..self },
                Action::StopSoon,
            ),
            Event::Update { updated: false } => (self, Action::Continue),
            Event::Interrupt => (
                Supervisor { shutdown_soon: true, ..self },
                if self.shutdown_soon {
                    Action::StopNow
                } else {
                    Action::StopSoon
                },
            ),
            Event::Terminate => (Supervisor { shutdown_soon: true, ..self }, Action::StopNow),
            Event::Pull => (self, Action::Forward),
            Event::NoWorkers => (self, Action::Leave),
            Event::Quiet => (self, Action::Continue),
        }
    }

    /// An update is looked for only when it is due, and thus not while shutting
    /// down.
    pub open spec fn accepts(self, event: Event) -> bool {
        event is Update ==> !self.shutdown_soon
    }

    /// Enters the main loop.
    pub fn start(auto_update: bool, now: u128) -> (supervisor: Supervisor)
        ensures
            supervisor == (Supervisor {
                auto_update,
                shutdown_soon: false,
                restart: false,
                up_to_date: now,
                summarized: now,
            }),
            supervisor.wf(),
    {
        Supervisor {
            auto_update,
            shutdown_soon: false,
            restart: false,
            up_to_date: now,
            summarized: now,
        }
    }

    /// Tells what is due, and counts it as done.
    pub fn tick(&mut self, now: u128) -> (due: Due)
        requires
            old(self).wf(),
        ensures
            due == old(self).due(now),
            *final(self) == (Supervisor {
                up_to_date: if due.update {
                    now
                } else {
                    old(self).up_to_date
                },
                summarized: if due.summary {
                    now
                } else {
                    old(self).summarized
                },
                ..*old(self)
            }),
            final(self).wf(),
            due.update ==> final(self).accepts(Event::Update { updated: true }),
    {
        let update: bool = self.auto_update && !self.shutdown_soon && now >= self.up_to_date && now
            - self.up_to_date >= UPDATE_INTERVAL;
        if update {
            self.up_to_date = now;
        }
        let summary: bool = now >= self.summarized && now - self.summarized >= SUMMARY_INTERVAL;
        if summary {
            self.summarized = now;
        }
        Due { update, summary }
    }

    /// Decides what to do about an event.
    pub fn step(&mut self, event: Event) -> (action: Action)
        requires
            old(self).wf(),
            old(self).accepts(event),
        ensures
            final(self).wf(),
            (*final(self), action) == old(self).after(event),
    {
        match event {
            Event::Update { updated } => {
                if updated {
                    self.restart = true;
                    self.shutdown_soon = true;
                    Action::StopSoon
                } else {
                    Action::Continue
                }
            },
            Event::Interrupt => {
                if self.shutdown_soon {
                    Action::StopNow
                } else {
                    self.shutdown_soon = true;
                    Action::StopSoon
                }
            },
            Event::Terminate => {
                self.shutdown_soon = true;
                Action::StopNow
            },
            Event::Pull => Action::Forward,
            Event::NoWorkers => Action::Leave,
            Event::Quiet => Action::Continue,
        }
    }
}

/// Every event is one that can happen where the client stands.
pub open spec fn possible(start: Supervisor, events: Seq<Event>) -> bool
    decreases events.len(),
{
    events.len() > 0 ==> possible(start, events.drop_last()) && state_after(
        start,
        events.drop_last(),
    ).accepts(events.last())
}

/// Where the client stands after `events`.
pub open spec fn state_after(start: Supervisor, events: Seq<Event>) -> Supervisor
    decreases events.len(),
{
    if events.len() == 0 {
        start
    } else {
        state_after(start, events.drop_last()).after(events.last()).0
    }
}

/// How often the queue has been told to take on no more work.
pub open spec fn stops_soon(start: Supervisor, events: Seq<Event>) -> int
    decreases events.len(),
{
    if events.len() == 0 {
        0
    } else {
        stops_soon(start, events.drop_last()) + if state_after(start, events.drop_last()).after(
            events.last(),
        ).1 == Action::StopSoon {
            1int
        } else {
            0int
        }
    }
}

/// The queue is told at most once to take on no more work, and not if the
/// client is shutting down already.
pub proof fn law_queue_is_stopped_once(start: Supervisor, events: Seq<Event>)
    requires
        possible(start, events),
    ensures
        stops_soon(start, events) <= if start.shutdown_soon {
            0int
        } else {
            1int
        },
        stops_soon(start, events) > 0 ==> state_after(start, events).shutdown_soon,
        start.shutdown_soon ==> state_after(start, events).shutdown_soon,
    decreases events.len(),
{
    if events.len() > 0 {
        law_queue_is_stopped_once(start, events.drop_last());
    }
}

/// Shutting down cannot be taken back, and no update is looked for from then on.
pub proof fn law_shutdown_is_final(state: Supervisor, event: Event, now: u128)
    requires
        state.shutdown_soon,
    ensures
        state.after(event).0.shutdown_soon,
        !state.due(now).update,
{
}

/// A second interruption stops the client at once, and so does a termination.
pub proof fn law_second_interrupt_stops_now(state: Supervisor, events: Seq<Event>)
    requires
        possible(state.after(Event::Interrupt).0, events),
    ensures
        state_after(state.after(Event::Interrupt).0, events).after(Event::Interrupt).1
            == Action::StopNow,
        state_after(state.after(Event::Interrupt).0, events).after(Event::Terminate).1
            == Action::StopNow,
{
    law_queue_is_stopped_once(state.after(Event::Interrupt).0, events);
}

/// The client is started again if and only if it has been updated.
pub proof fn law_restart_follows_update(start: Supervisor, events: Seq<Event>)
    requires
        !start.restart,
    ensures
        state_after(start, events).restart <==> events.contains(Event::Update { updated: true }),
    decreases events.len(),
{
    let update = Event::Update { updated: true };
    if events.len() > 0 {
        let before = events.drop_last();
        law_restart_follows_update(start, before);
        if before.contains(update) {
            let i = choose|i: int| 0 <= i < before.len() && before[i] == update;
            assert(events[i] == update);
        }
        if events.last() == update {
            assert(events[events.len() - 1] == update);
        }
        if events.contains(update) && events.last() != update {
            let i = choose|i: int| 0 <= i < events.len() && events[i] == update;
            assert(before[i] == update);
        }
    }
}

/// What each event leads to, in every state of the main loop. A report of a
/// worker is passed on to the queue, whether or not the client is shutting down;
/// a quiet while, or finding no update, leads to nothing; the loop is left when
/// no worker is left; and none of these changes anything. An update asks for a
/// soft stop and a restart, the first interruption for a soft stop, and a later
/// one or a termination for a hard one.
pub proof fn law_each_event_has_its_action(event: Event)
    ensures
        forall|it: &mut Supervisor, action: Action| #[trigger]
            call_ensures(Supervisor::step, (it, event), action) ==> ({
                let before = *it;
                let after = *final(it);
                let updated = event == (Event::Update { updated: true });
                let stops = event is Interrupt || event is Terminate || updated;
                &&& event is Pull ==> action is Forward
                &&& event is Quiet ==> action is Continue
                &&& event is NoWorkers ==> action is Leave
                &&& event is Update && !updated ==> action is Continue
                &&& updated ==> action is StopSoon
                &&& event is Interrupt && !before.shutdown_soon ==> action is StopSoon
                &&& event is Interrupt && before.shutdown_soon ==> action is StopNow
                &&& event is Terminate ==> action is StopNow
                &&& !stops ==> after == before
                &&& after.shutdown_soon == (before.shutdown_soon || stops)
                &&& after.restart == (before.restart || updated)
                &&& after.auto_update == before.auto_update
                &&& after.up_to_date == before.up_to_date
                &&& after.summarized == before.summarized
            }),
{
}

/// How many reports are handed in.
pub open spec fn pulls(events: Seq<Event>) -> int
    decreases events.len(),
{
    if events.len() == 0 {
        0
    } else {
        pulls(events.drop_last()) + if events.last() is Pull {
            1int
        } else {
            0int
        }
    }
}

/// How many reports are passed on to the queue.
pub open spec fn forwards(start: Supervisor, events: Seq<Event>) -> int
    decreases events.len(),
{
    if events.len() == 0 {
        0
    } else {
        forwards(start, events.drop_last()) + if state_after(start, events.drop_last()).after(
            events.last(),
        ).1 is Forward {
            1int
        } else {
            0int
        }
    }
}

/// No report of a worker is dropped: wherever the main loop starts and whatever
/// happens, as many reports are passed on to the queue as are handed in.
pub proof fn law_every_report_is_forwarded(start: Supervisor, events: Seq<Event>)
    ensures
        forwards(start, events) == pulls(events),
    decreases events.len(),
{
    if events.len() > 0 {
        law_every_report_is_forwarded(start, events.drop_last());
    }
}

/// An update is looked for five hours after the last look, if updates are wanted
/// and the client is not shutting down, and a summary is given two minutes after
/// the last one. What is due counts as done from then on, and nothing else
/// changes.
pub proof fn law_what_is_due(now: u128)
    ensures
        forall|it: &mut Supervisor, due: Due| #[trigger]
            call_ensures(Supervisor::tick, (it, now), due) ==> ({
                let before = *it;
                let after = *final(it);
                &&& due.update <==> before.auto_update && !before.shutdown_soon && now
                    >= before.up_to_date + 5 * 60 * 60 * 1_000_000_000
                &&& due.summary <==> now >= before.summarized + 2 * 60 * 1_000_000_000
                &&& due.update ==> after.up_to_date == now
                &&& !due.update ==> after.up_to_date == before.up_to_date
                &&& due.summary ==> after.summarized == now
                &&& !due.summary ==> after.summarized == before.summarized
                &&& after.auto_update == before.auto_update
                &&& after.shutdown_soon == before.shutdown_soon
                &&& after.restart == before.restart
            }),
{
}

/// The main loop starts without anything due, and does not shut down by itself.
pub proof fn law_start_of_the_main_loop(auto_update: bool, now: u128, start: Supervisor)
    requires
        call_ensures(Supervisor::start, (auto_update, now), start),
    ensures
        start.auto_update == auto_update,
        !start.shutdown_soon && !start.restart,
        start.up_to_date == now && start.summarized == now,
        !start.due(now).update && !start.due(now).summary,
{
}

/// The result of looking for an update can come only while the client is not
/// shutting down, and everything else at any time. A restart is only to come
/// while the client is shutting down.
pub proof fn law_what_can_happen_to_the_client(state: Supervisor, event: Event)
    ensures
        state.accepts(event) <==> !(state.shutdown_soon && event is Update),
        state.wf() <==> !(state.restart && !state.shutdown_soon),
{
}

} // verus!
