use fishnet::actor::{Actor, ActorAction, ActorEvent, Exit};

#[test]
fn chunks_one_at_a_time() {
    let mut actor = Actor::Idle;
    for _ in 0..2 {
        assert_eq!(actor.step(ActorEvent::Message), ActorAction::Begin);
        assert_eq!(actor, Actor::Busy);
        assert_eq!(actor.step(ActorEvent::Answered), ActorAction::Answer);
        assert_eq!(actor, Actor::Idle);
    }
    assert_eq!(actor.step(ActorEvent::NoMessages), ActorAction::End(Exit::Done));
    assert_eq!(actor, Actor::Ended(Exit::Done));
}

#[test]
fn ways_to_end() {
    for (state, event, exit) in [
        (Actor::Idle, ActorEvent::Exited, Exit::Done),
        (Actor::Idle, ActorEvent::Broken, Exit::Error),
        (Actor::Busy, ActorEvent::Broken, Exit::Error),
        (Actor::Busy, ActorEvent::CallerGone, Exit::Shutdown),
    ] {
        let mut actor = state;
        assert_eq!(actor.step(event), ActorAction::End(exit));
        assert_eq!(actor, Actor::Ended(exit));
    }
}
