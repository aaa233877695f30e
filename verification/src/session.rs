//! The order in which a session handles its messages, and which answer goes to which request.
use vstd::prelude::*;

verus! {

/// What came over the connection. `Id` is what the client tells its requests apart by.
#[derive(Debug, PartialEq, Eq)]
pub enum Incoming<Id> {
    Request { id: Id },
    Notification,
    /// An answer to a request of the server; it needs none.
    Response,
    /// The client is gone.
    Closed,
}

/// What just happened.
#[derive(Debug, PartialEq, Eq)]
pub enum SessionEvent<Id> {
    Received(Incoming<Id>),
    /// The request was looked at for the one to shut down, which the connection answers itself.
    ShutdownChecked { shutdown: bool },
    /// The request was worked on; `completed` unless that failed half-way.
    Worked { completed: bool },
    Replied,
    TakenIn,
    /// The queue of messages was looked at.
    QueueSeen { empty: bool },
    Published,
}

/// What to do next.
#[derive(Debug, PartialEq, Eq)]
pub enum SessionAction<Id> {
    Receive,
    CheckShutdown,
    /// Index what changed, then work on the request.
    Work,
    /// Send the answer to the request.
    Reply { id: Id },
    /// Send that the server failed on the request.
    ReplyInternalError { id: Id },
    /// Take the notification in.
    TakeIn,
    SeeQueue,
    /// Publish the diagnostics of open documents, then lint closed files.
    Publish,
    Stop,
}

/// The request that waits for an answer after an event.
pub open spec fn waiting_after<Id>(waiting: Option<Id>, event: SessionEvent<Id>) -> Option<Id> {
    match event {
        SessionEvent::Received(Incoming::Request { id }) => Some(id),
        SessionEvent::Worked { .. } => None,
        _ => waiting,
    }
}

/// What to do after an event, while a request may wait for an answer. Diagnostics wait until no
/// message does.
pub open spec fn action_after<Id>(waiting: Option<Id>, event: SessionEvent<Id>) -> SessionAction<
    Id,
> {
    match event {
        SessionEvent::Received(Incoming::Request { .. }) => SessionAction::CheckShutdown,
        SessionEvent::Received(Incoming::Notification) => SessionAction::TakeIn,
        SessionEvent::Received(Incoming::Response) => SessionAction::SeeQueue,
        SessionEvent::Received(Incoming::Closed) => SessionAction::Stop,
        SessionEvent::ShutdownChecked { shutdown } => if shutdown {
            SessionAction::Stop
        } else {
            SessionAction::Work
        },
        SessionEvent::Worked { completed } => match waiting {
            Some(id) => if completed {
                SessionAction::Reply { id }
            } else {
                SessionAction::ReplyInternalError { id }
            },
            None => SessionAction::SeeQueue,
        },
        SessionEvent::Replied => SessionAction::SeeQueue,
        SessionEvent::TakenIn => SessionAction::SeeQueue,
        SessionEvent::QueueSeen { empty } => if empty {
            SessionAction::Publish
        } else {
            SessionAction::Receive
        },
        SessionEvent::Published => SessionAction::Receive,
    }
}

/// A session with a client. It starts by receiving.
#[derive(Debug)]
pub struct Session<Id> {
    waiting: Option<Id>,
}

impl<Id> View for Session<Id> {
    type V = Option<Id>;

    /// The request that waits for an answer.
    closed spec fn view(&self) -> Option<Id> {
        self.waiting
    }
}

impl<Id> Session<Id> {
    /// A session in which no request waits.
    pub fn new() -> (session: Self)
        ensures
            session@ is None,
    {
        Session { waiting: None }
    }

    /// What to do after an event. The number of a request comes back with its answer.
    pub fn next_action(&mut self, event: SessionEvent<Id>) -> (action: SessionAction<Id>)
        ensures
            action == action_after(old(self)@, event),
            final(self)@ == waiting_after(old(self)@, event),
    {
        match event {
            SessionEvent::Received(incoming) => match incoming {
                Incoming::Request { id } => {
                    self.waiting = Some(id);
                    SessionAction::CheckShutdown
                },
                Incoming::Notification => SessionAction::TakeIn,
                Incoming::Response => SessionAction::SeeQueue,
                Incoming::Closed => SessionAction::Stop,
            },
            SessionEvent::ShutdownChecked { shutdown } => if shutdown {
                SessionAction::Stop
            } else {
                SessionAction::Work
            },
            SessionEvent::Worked { completed } => match self.waiting.take() {
                Some(id) => if completed {
                    SessionAction::Reply { id }
                } else {
                    SessionAction::ReplyInternalError { id }
                },
                None => SessionAction::SeeQueue,
            },
            SessionEvent::Replied => SessionAction::SeeQueue,
            SessionEvent::TakenIn => SessionAction::SeeQueue,
            SessionEvent::QueueSeen { empty } => if empty {
                SessionAction::Publish
            } else {
                SessionAction::Receive
            },
            SessionEvent::Published => SessionAction::Receive,
        }
    }
}

// Whole sessions.

/// The request that waits for an answer after these events.
pub open spec fn waiting<Id>(events: Seq<SessionEvent<Id>>) -> Option<Id>
    decreases events.len(),
{
    if events.len() == 0 {
        None
    } else {
        waiting_after(waiting(events.drop_last()), events.last())
    }
}

/// What to do after these events.
pub open spec fn action<Id>(events: Seq<SessionEvent<Id>>) -> SessionAction<Id> {
    if events.len() == 0 {
        SessionAction::Receive
    } else {
        action_after(waiting(events.drop_last()), events.last())
    }
}

/// Whether an event is what an action leads to.
pub open spec fn leads_to<Id>(action: SessionAction<Id>, event: SessionEvent<Id>) -> bool {
    match action {
        SessionAction::Receive => event is Received,
        SessionAction::CheckShutdown => event is ShutdownChecked,
        SessionAction::Work => event is Worked,
        SessionAction::Reply { .. } => event is Replied,
        SessionAction::ReplyInternalError { .. } => event is Replied,
        SessionAction::TakeIn => event is TakenIn,
        SessionAction::SeeQueue => event is QueueSeen,
        SessionAction::Publish => event is Published,
        SessionAction::Stop => false,
    }
}

/// Whether the events are those of a session: each is what the action before it leads to.
pub open spec fn is_session<Id>(events: Seq<SessionEvent<Id>>) -> bool
    decreases events.len(),
{
    events.len() == 0 || (is_session(events.drop_last()) && leads_to(
        action(events.drop_last()),
        events.last(),
    ))
}

/// The requests that came in, in order.
pub open spec fn requests<Id>(events: Seq<SessionEvent<Id>>) -> Seq<Id>
    decreases events.len(),
{
    if events.len() == 0 {
        Seq::empty()
    } else {
        match events.last() {
            SessionEvent::Received(Incoming::Request { id }) => requests(events.drop_last()).push(
                id,
            ),
            _ => requests(events.drop_last()),
        }
    }
}

/// The requests that answers were due to, in order.
pub open spec fn answered<Id>(events: Seq<SessionEvent<Id>>) -> Seq<Id>
    decreases events.len(),
{
    if events.len() == 0 {
        Seq::empty()
    } else {
        match action(events) {
            SessionAction::Reply { id } => answered(events.drop_last()).push(id),
            SessionAction::ReplyInternalError { id } => answered(events.drop_last()).push(id),
            _ => answered(events.drop_last()),
        }
    }
}

/// Every request gets exactly one answer, in order and under its own number; nothing else gets one.
/// Only the request in hand may lack its answer: while it is worked on, or for good if it is the one
/// to shut down, which the connection answers itself.
pub proof fn law_requests_are_answered_once<Id>(events: Seq<SessionEvent<Id>>)
    requires
        is_session(events),
    ensures
        waiting(events) is None ==> answered(events) == requests(events),
        waiting(events) matches Some(id) ==> answered(events).push(id) == requests(events),
        waiting(events) is Some <==> action(events) is CheckShutdown || action(events) is Work || (
        events.len() > 0 && events.last() == (SessionEvent::<Id>::ShutdownChecked {
            shutdown: true,
        })),
    decreases events.len(),
{
    if events.len() > 0 {
        law_requests_are_answered_once(events.drop_last());
    }
}

/// Work on a request that fails half-way is answered with an internal error, and the session goes on.
pub proof fn law_failed_work_is_answered<Id>(events: Seq<SessionEvent<Id>>, completed: bool)
    requires
        is_session(events),
        action(events) is Work,
    ensures
        ({
            let after = events.push(SessionEvent::Worked { completed });
            &&& is_session(after)
            &&& waiting(events) is Some
            &&& action(after) == if completed {
                SessionAction::Reply { id: waiting(events)->0 }
            } else {
                SessionAction::ReplyInternalError { id: waiting(events)->0 }
            }
            &&& action(after.push(SessionEvent::Replied)) == SessionAction::<Id>::SeeQueue
        }),
{
    let after = events.push(SessionEvent::Worked { completed });
    assert(after.drop_last() =~= events);
    assert(after.push(SessionEvent::Replied).drop_last() =~= after);
    law_requests_are_answered_once(events);
}

/// A request is held while it is looked at and worked on; a notification is taken in; an answer needs
/// nothing. After each the queue is looked at, and the session receives again when it is not empty or
/// diagnostics were published.
pub proof fn law_messages_are_handled<Id>(waiting: Option<Id>, id: Id, event: SessionEvent<Id>)
    ensures
        ({
            let asked = SessionEvent::Received(Incoming::Request { id });
            &&& action_after(waiting, asked) == SessionAction::<Id>::CheckShutdown
            &&& waiting_after(waiting, asked) == Some(id)
        }),
        action_after(waiting, SessionEvent::ShutdownChecked { shutdown: false }) == SessionAction::<
            Id,
        >::Work,
        action_after(waiting, SessionEvent::Received(Incoming::Notification)) == SessionAction::<
            Id,
        >::TakeIn,
        action_after(waiting, SessionEvent::Received(Incoming::Response)) == SessionAction::<
            Id,
        >::SeeQueue,
        action_after(waiting, SessionEvent::TakenIn) == SessionAction::<Id>::SeeQueue,
        action_after(waiting, SessionEvent::Replied) == SessionAction::<Id>::SeeQueue,
        action_after(waiting, SessionEvent::QueueSeen { empty: false }) == SessionAction::<
            Id,
        >::Receive,
        action_after(waiting, SessionEvent::Published) == SessionAction::<Id>::Receive,
        !(event is Worked) && !(event matches SessionEvent::Received(Incoming::Request { .. }))
            ==> waiting_after(waiting, event) == waiting,
        event is Worked ==> waiting_after(waiting, event) is None,
        event is Worked && waiting is None ==> action_after(waiting, event) == SessionAction::<
            Id,
        >::SeeQueue,
{
}

/// Diagnostics are published only when no message waits, and a session stops only when the client
/// is gone or asked for it.
pub proof fn law_when_to_publish_and_stop<Id>(waiting: Option<Id>, event: SessionEvent<Id>)
    ensures
        action_after(waiting, event) is Publish <==> event == (SessionEvent::<Id>::QueueSeen {
            empty: true,
        }),
        action_after(waiting, event) is Stop <==> event == SessionEvent::<Id>::Received(
            Incoming::Closed,
        ) || event == (SessionEvent::<Id>::ShutdownChecked { shutdown: true }),
{
}

} // verus!
