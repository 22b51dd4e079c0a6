//! The life of the task that owns an engine: it takes chunks, one at a time,
//! and ends with the engine, with its callers or with an error.

use vstd::prelude::*;

verus! {

/// Why the task ends.
#[derive(Clone, Copy, PartialEq, Eq, Debug, Structural)]
pub enum Exit {
    /// There is nothing left to do.
    Done,
    /// Nobody waits for the answers any longer.
    Shutdown,
    /// The engine cannot be used.
    Error,
}

/// What the task is doing.
#[derive(Clone, Copy, PartialEq, Eq, Debug, Structural)]
pub enum Actor {
    /// It is waiting for a chunk.
    Idle,
    /// The engine is working on a chunk.
    Busy,
    /// It has ended.
    Ended(Exit),
}

/// What happens to the task.
#[derive(Clone, Copy, PartialEq, Eq, Debug, Structural)]
pub enum ActorEvent {
    /// There is a chunk.
    Message,
    /// There will be no more chunks.
    NoMessages,
    /// The engine has ended.
    Exited,
    /// Nobody waits for the answers any longer.
    CallerGone,
    /// There are answers.
    Answered,
    /// The engine cannot be read or written, or writes what it should not.
    Broken,
}

/// What the task does next.
#[derive(Clone, Copy, PartialEq, Eq, Debug, Structural)]
pub enum ActorAction {
    /// Begin the chunk.
    Begin,
    /// Hand over the answers.
    Answer,
    /// End.
    End(Exit),
}

impl Actor {
    /// What can happen to the task depends on what it is doing.
    pub open spec fn accepts(self, event: ActorEvent) -> bool {
        match self {
            Actor::Idle => event is Message || event is NoMessages || event is Exited || event
                is Broken,
            Actor::Busy => event is CallerGone || event is Answered || event is Broken,
            Actor::Ended(_) => false,
        }
    }

    /// What follows an event.
    pub open spec fn after(self, event: ActorEvent) -> (Actor, ActorAction) {
        match event {
            ActorEvent::Message => (Actor::Busy, ActorAction::Begin),
            ActorEvent::Answered => (Actor::Idle, ActorAction::Answer),
            ActorEvent::NoMessages => (Actor::Ended(Exit::Done), ActorAction::End(Exit::Done)),
            ActorEvent::Exited => (Actor::Ended(Exit::Done), ActorAction::End(Exit::Done)),
            ActorEvent::CallerGone => (
                Actor::Ended(Exit::Shutdown),
                ActorAction::End(Exit::Shutdown),
            ),
            ActorEvent::Broken => (Actor::Ended(Exit::Error), ActorAction::End(Exit::Error)),
        }
    }

    /// Takes the next step after an event.
    pub fn step(&mut self, event: ActorEvent) -> (action: ActorAction)
        requires
            old(self).accepts(event),
        ensures
            (*final(self), action) == old(self).after(event),
    {
        match event {
            ActorEvent::Message => {
                *self = Actor::Busy;
                ActorAction::Begin
            },
            ActorEvent::Answered => {
                *self = Actor::Idle;
                ActorAction::Answer
            },
            ActorEvent::NoMessages => self.end(Exit::Done),
            ActorEvent::Exited => self.end(Exit::Done),
            ActorEvent::CallerGone => self.end(Exit::Shutdown),
            ActorEvent::Broken => self.end(Exit::Error),
        }
    }

    /// Ends the task.
    fn end(&mut self, exit: Exit) -> (action: ActorAction)
        ensures
            *final(self) == Actor::Ended(exit),
            action == ActorAction::End(exit),
    {
        *self = Actor::Ended(exit);
        ActorAction::End(exit)
    }
}

/// Every event is one that the task can meet where it stands.
pub open spec fn possible(events: Seq<ActorEvent>) -> bool
    decreases events.len(),
{
    events.len() > 0 ==> possible(events.drop_last()) && state_after(events.drop_last()).accepts(
        events.last(),
    )
}

/// Where a task stands after `events`.
pub open spec fn state_after(events: Seq<ActorEvent>) -> Actor
    decreases events.len(),
{
    if events.len() == 0 {
        Actor::Idle
    } else {
        state_after(events.drop_last()).after(events.last()).0
    }
}

/// How many of `events` are `event`.
pub open spec fn occurrences(events: Seq<ActorEvent>, event: ActorEvent) -> int
    decreases events.len(),
{
    if events.len() == 0 {
        0
    } else {
        occurrences(events.drop_last(), event) + if events.last() == event {
            1int
        } else {
            0int
        }
    }
}

/// Chunks are worked on one at a time, and each is answered at most once: the
/// answers are as many as the chunks, but for the last chunk while the engine
/// works on it or if the task has ended over it.
pub proof fn law_one_chunk_at_a_time(events: Seq<ActorEvent>)
    requires
        possible(events),
    ensures
        ({
            let taken = occurrences(events, ActorEvent::Message);
            let answered = occurrences(events, ActorEvent::Answered);
            match state_after(events) {
                Actor::Idle => answered == taken,
                Actor::Busy => answered == taken - 1,
                Actor::Ended(Exit::Done) => answered == taken,
                Actor::Ended(Exit::Shutdown) => answered == taken - 1,
                Actor::Ended(Exit::Error) => answered <= taken <= answered + 1,
            }
        }),
    decreases events.len(),
{
    if events.len() > 0 {
        law_one_chunk_at_a_time(events.drop_last());
    }
}

/// A chunk is begun when it comes, its answers are handed over when there are
/// any, and the task is then ready for the next chunk. It ends for good when there
/// are no more chunks or the engine has ended, when nobody waits for the answers,
/// or when the engine cannot be used, and it says which.
pub proof fn law_task_begins_answers_and_ends(event: ActorEvent)
    ensures
        forall|it: &mut Actor, action: ActorAction| #[trigger]
            call_ensures(Actor::step, (it, event), action) ==> ({
                let after = *final(it);
                &&& event is Message <==> action is Begin
                &&& event is Message <==> after is Busy
                &&& event is Answered <==> action is Answer
                &&& event is Answered <==> after is Idle
                &&& event is NoMessages || event is Exited <==> action == ActorAction::End(
                    Exit::Done,
                )
                &&& event is CallerGone <==> action == ActorAction::End(Exit::Shutdown)
                &&& event is Broken <==> action == ActorAction::End(Exit::Error)
                &&& action matches ActorAction::End(exit) ==> after == Actor::Ended(exit)
            }),
{
}

/// What can happen to a task: while it is idle, a chunk comes or there are no
/// more, or the engine ends or breaks; while it is busy, the engine answers or
/// breaks, or the caller goes; and nothing when it has ended.
pub proof fn law_what_can_happen_to_a_task(actor: Actor)
    ensures
        actor is Idle <==> actor.accepts(ActorEvent::Message),
        actor is Idle <==> actor.accepts(ActorEvent::NoMessages),
        actor is Idle <==> actor.accepts(ActorEvent::Exited),
        actor is Busy <==> actor.accepts(ActorEvent::CallerGone),
        actor is Busy <==> actor.accepts(ActorEvent::Answered),
        actor is Idle || actor is Busy <==> actor.accepts(ActorEvent::Broken),
{
}

} // verus!
