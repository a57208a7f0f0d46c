//! The event bus: three queues, one per priority, the handlers registered for
//! each event type, and the rules by which the bus starts and stops.
//!
//! Reading the queues and running the handlers is the caller's: `start` hands
//! it the three receiving ends, and it reports each event it takes off them.

use vstd::prelude::*;
use std::any::TypeId;
use tokio::sync::mpsc::{UnboundedReceiver, UnboundedSender};
use crate::error::{ErrorView, Result, VibeError};
use crate::table::Table;

verus! {

/// How urgently an event is to be handled.
#[derive(Debug, Clone, Copy, PartialEq, Eq, Structural, PartialOrd, Ord, Hash)]
pub enum Priority {
    High,
    Medium,
    Low,
}

impl Default for Priority {
    fn default() -> (p: Self)
        ensures
            p == Priority::Medium,
    {
        Priority::Medium
    }
}

/// A handler made of a name and a function.
pub struct ClosureHandler<F> {
    name: &'static str,
    f: F,
}

impl<F> ClosureHandler<F> {
    pub closed spec fn spec_name(&self) -> &'static str {
        self.name
    }

    pub closed spec fn spec_func(&self) -> F {
        self.f
    }

    /// The handler's name.
    pub fn name(&self) -> (n: &'static str)
        ensures
            n == self.spec_name(),
    {
        self.name
    }

    /// The function that handles the events.
    pub fn func(&self) -> (f: &F)
        ensures
            *f == self.spec_func(),
    {
        &self.f
    }
}

/// A handler named `name` that handles events with `f`.
pub fn handler<F>(name: &'static str, f: F) -> (h: ClosureHandler<F>)
    ensures
        h.spec_name() == name,
        h.spec_func() == f,
{
    ClosureHandler { name, f }
}

/// `tokio::sync::mpsc::UnboundedSender`, the sending end of an unbounded
/// channel, carried as an opaque value.
#[verifier::external_type_specification]
#[verifier::external_body]
#[verifier::reject_recursive_types(T)]
pub struct ExUnboundedSender<T>(UnboundedSender<T>);

/// `tokio::sync::mpsc::UnboundedReceiver`, the receiving end of an unbounded
/// channel, carried as an opaque value.
#[verifier::external_type_specification]
#[verifier::external_body]
#[verifier::reject_recursive_types(T)]
pub struct ExUnboundedReceiver<T>(UnboundedReceiver<T>);

/// A new unbounded channel, from `tokio::sync::mpsc::unbounded_channel`.
/// Nothing is stated of the two ends.
#[verifier::external_body]
fn new_unbounded_channel<T>() -> (UnboundedSender<T>, UnboundedReceiver<T>) {
    tokio::sync::mpsc::unbounded_channel()
}

/// Hands `value` to the channel of `sender`, from `UnboundedSender::send`:
/// `None` once it is queued, or the text of the error when the receiving end
/// is closed, together with a ghost record of the sending end and the value
/// the call was made with. The error text is always `channel closed`; when
/// the send fails is not stated (it depends on the receiving end).
#[verifier::external_body]
fn send_unbounded<T>(sender: &UnboundedSender<T>, value: T) -> (r: (Option<String>, Ghost<(UnboundedSender<T>, T)>))
    ensures
        r.0 matches Some(t) ==> t@ == "channel closed"@,
        r.1@ == (*sender, value),
{
    let handed = Ghost((*sender, value));
    let sent = match sender.send(value) {
        Ok(()) => None,
        Err(e) => Some(e.to_string()),
    };
    (sent, handed)
}

/// The message of the error that a failed publication gives: the reason,
/// after a fixed prefix.
pub open spec fn publish_failure_message(reason: Seq<char>) -> Seq<char> {
    "Failed to publish event: "@ + reason
}

/// What publishing answers, given what handing the event to its queue gave:
/// success when it was queued, else an event error that carries the reason.
pub fn publish_verdict(sent: Option<String>) -> (r: Result<()>)
    ensures
        sent is None <==> r is Ok,
        sent matches Some(reason) ==> (r matches Err(VibeError::EventError(m))
            && m@ == publish_failure_message(reason@)),
{
    match sent {
        None => Ok(()),
        Some(reason) => {
            let mut m = String::from_str("Failed to publish event: ");
            m.append(reason.as_str());
            Err(VibeError::EventError(m))
        },
    }
}

/// The answer to a request: a payload `A`, or the text of an error.
pub enum ErasedResponse<A> {
    Success(A),
    Error(String),
}

/// How waiting for the answer to a request ended.
pub enum ResponseWait<R> {
    /// An answer came; a payload is given as the expected type `R`, or
    /// `None` when it has another type.
    Answered(ErasedResponse<Option<R>>),
    /// The answering side went away without answering.
    ChannelClosed,
    /// No answer came within the time limit.
    TimedOut,
}

/// What a request answers, given how waiting for its answer ended.
pub fn response_verdict<R>(wait: ResponseWait<R>) -> (r: Result<R>)
    ensures
        match wait {
            ResponseWait::Answered(ErasedResponse::Success(Some(v))) => r == Ok::<R, VibeError>(v),
            ResponseWait::Answered(ErasedResponse::Success(None)) => r matches Err(e)
                && e@ == ErrorView::EventError("Invalid response type"@),
            ResponseWait::Answered(ErasedResponse::Error(m)) => r matches Err(e)
                && e@ == ErrorView::EventError(m@),
            ResponseWait::ChannelClosed => r matches Err(e)
                && e@ == ErrorView::EventError("Response channel closed"@),
            ResponseWait::TimedOut => r matches Err(e)
                && e@ == ErrorView::TimeoutError("Event response timeout"@),
        },
{
    match wait {
        ResponseWait::Answered(ErasedResponse::Success(Some(v))) => Ok(v),
        ResponseWait::Answered(ErasedResponse::Success(None)) => {
            Err(VibeError::EventError(String::from_str("Invalid response type")))
        },
        ResponseWait::Answered(ErasedResponse::Error(m)) => Err(VibeError::EventError(m)),
        ResponseWait::ChannelClosed => {
            Err(VibeError::EventError(String::from_str("Response channel closed")))
        },
        ResponseWait::TimedOut => Err(VibeError::TimeoutError(String::from_str("Event response timeout"))),
    }
}

/// What the bus knows, apart from its queues.
#[verifier::ext_equal]
pub struct BusState<H> {
    /// The handlers of each event type, in the order they were registered.
    pub handlers: Map<TypeId, Seq<H>>,
    /// Whether the receiving end of each queue (high, medium, low) is still
    /// held by the bus.
    pub high_rx: bool,
    pub medium_rx: bool,
    pub low_rx: bool,
    pub running: bool,
    /// How many events have been queued (modulo 2^64).
    pub processed: u64,
}

impl<H> BusState<H> {
    /// The handlers of `t`, none when none were registered.
    pub open spec fn handlers_of(self, t: TypeId) -> Seq<H> {
        if self.handlers.contains_key(t) {
            self.handlers[t]
        } else {
            Seq::empty()
        }
    }
}

/// The message of the error that `start` gives when the bus is running.
pub open spec fn already_running_message() -> Seq<char> {
    "Event bus already running"@
}

/// The message of the error that `start` gives when a receiving end is gone.
pub open spec fn receiver_taken_message(p: Priority) -> Seq<char> {
    match p {
        Priority::High => "High priority receiver already taken"@,
        Priority::Medium => "Medium priority receiver already taken"@,
        Priority::Low => "Low priority receiver already taken"@,
    }
}

/// An event bus whose events are `T`, handled by handlers `H`.
#[verifier::reject_recursive_types(T)]
pub struct EventBus<T, H> {
    high_queue: UnboundedSender<T>,
    medium_queue: UnboundedSender<T>,
    low_queue: UnboundedSender<T>,
    handlers: Table<TypeId, Vec<H>>,
    high_rx: Option<UnboundedReceiver<T>>,
    medium_rx: Option<UnboundedReceiver<T>>,
    low_rx: Option<UnboundedReceiver<T>>,
    is_running: bool,
    event_count: u64,
    /// Every event handed to a queue, with the sending end it was handed to.
    handed: Ghost<Seq<(UnboundedSender<T>, T)>>,
}

impl<T, H> View for EventBus<T, H> {
    type V = BusState<H>;

    closed spec fn view(&self) -> BusState<H> {
        BusState {
            handlers: self.handlers.map().map_values(|v: Vec<H>| v@),
            high_rx: self.high_rx is Some,
            medium_rx: self.medium_rx is Some,
            low_rx: self.low_rx is Some,
            running: self.is_running,
            processed: self.event_count,
        }
    }
}

impl<T, H> EventBus<T, H> {
    pub closed spec fn wf(&self) -> bool {
        self.handlers.wf()
    }

    /// Every event handed to a queue so far, in order, with the sending end
    /// it was handed to.
    pub closed spec fn handed(&self) -> Seq<(UnboundedSender<T>, T)> {
        self.handed@
    }

    /// The sending end of the queue of `p`.
    pub closed spec fn queue_of(&self, p: Priority) -> UnboundedSender<T> {
        match p {
            Priority::High => self.high_queue,
            Priority::Medium => self.medium_queue,
            Priority::Low => self.low_queue,
        }
    }

    /// The receiving end of the queue of `p`, while the bus holds it.
    pub closed spec fn receiver_of(&self, p: Priority) -> Option<UnboundedReceiver<T>> {
        match p {
            Priority::High => self.high_rx,
            Priority::Medium => self.medium_rx,
            Priority::Low => self.low_rx,
        }
    }

    /// The sending end of the queue of `p`.
    pub fn queue(&self, p: Priority) -> (q: &UnboundedSender<T>)
        ensures
            *q == self.queue_of(p),
    {
        match p {
            Priority::High => &self.high_queue,
            Priority::Medium => &self.medium_queue,
            Priority::Low => &self.low_queue,
        }
    }

    /// A stopped bus with its three queues, no handlers and no events
    /// processed.
    pub fn new() -> (b: Self)
        ensures
            b.wf(),
            b@ == (BusState::<H> {
                handlers: Map::empty(),
                high_rx: true,
                medium_rx: true,
                low_rx: true,
                running: false,
                processed: 0,
            }),
            b.handed() == Seq::<(UnboundedSender<T>, T)>::empty(),
    {
        let (high_tx, high_rx) = new_unbounded_channel();
        let (medium_tx, medium_rx) = new_unbounded_channel();
        let (low_tx, low_rx) = new_unbounded_channel();
        let b = EventBus {
            high_queue: high_tx,
            medium_queue: medium_tx,
            low_queue: low_tx,
            handlers: Table::new(),
            high_rx: Some(high_rx),
            medium_rx: Some(medium_rx),
            low_rx: Some(low_rx),
            is_running: false,
            event_count: 0,
            handed: Ghost(Seq::empty()),
        };
        assert(b@.handlers =~= Map::<TypeId, Seq<H>>::empty());
        b
    }

    /// Hands `event` to the queue of `priority` (the sender
    /// `queue_of(priority)`; `handed` records it), and counts it once it is
    /// queued. Fails with an event error, counting nothing, when that
    /// queue's receiving end is closed.
    pub fn publish_wrapper(&mut self, event: T, priority: Priority) -> (r: Result<()>)
        requires
            old(self).wf(),
        ensures
            final(self).wf(),
            forall|p: Priority| #[trigger] final(self).queue_of(p) == old(self).queue_of(p),
            forall|p: Priority| #[trigger] final(self).receiver_of(p) == old(self).receiver_of(p),
            final(self).handed() == old(self).handed().push((old(self).queue_of(priority), event)),
            r is Ok ==> final(self)@ == (BusState {
                processed: if old(self)@.processed == u64::MAX {
                    0
                } else {
                    (old(self)@.processed + 1) as u64
                },
                ..old(self)@
            }),
            r is Err ==> {
                &&& r matches Err(VibeError::EventError(m)) && m@ == publish_failure_message("channel closed"@)
                &&& final(self)@ == old(self)@
            },
    {
        let (sent, handed) = send_unbounded(self.queue(priority), event);
        proof {
            self.handed@ = self.handed@.push(handed@);
        }
        let r = publish_verdict(sent);
        if r.is_ok() {
            self.event_count = if self.event_count == u64::MAX {
                0
            } else {
                self.event_count + 1
            };
        }
        r
    }

    /// Registers `handler` for the events of type `event_type`, after those
    /// registered before it.
    pub fn subscribe_handler(&mut self, handler: H, event_type: TypeId) -> (r: Result<()>)
        requires
            old(self).wf(),
        ensures
            final(self).wf(),
            r is Ok,
            forall|p: Priority| #[trigger] final(self).queue_of(p) == old(self).queue_of(p),
            final(self).handed() == old(self).handed(),
            forall|p: Priority| #[trigger] final(self).receiver_of(p) == old(self).receiver_of(p),
            final(self)@ == (BusState {
                handlers: old(self)@.handlers.insert(
                    event_type,
                    old(self)@.handlers_of(event_type).push(handler),
                ),
                ..old(self)@
            }),
    {
        let ghost v = self@;
        let mut list = match self.handlers.remove(&event_type) {
            Some(list) => list,
            None => Vec::new(),
        };
        assert(list@ == v.handlers_of(event_type));
        list.push(handler);
        self.handlers.insert(event_type, list);
        assert(self@.handlers =~= v.handlers.insert(event_type, v.handlers_of(event_type).push(handler)));
        Ok(())
    }

    /// The handlers registered for `event_type`, in the order they were
    /// registered; `None` when there are none.
    pub fn handlers_for(&self, event_type: TypeId) -> (r: Option<&Vec<H>>)
        requires
            self.wf(),
        ensures
            match r {
                Some(list) => self@.handlers.contains_key(event_type)
                    && list@ == self@.handlers[event_type],
                None => !self@.handlers.contains_key(event_type),
            },
    {
        self.handlers.get(&event_type)
    }

    /// Starts the bus: it is then running, and the three receiving ends
    /// (high, medium, low) are handed out. A running bus is refused; a bus
    /// whose receiving ends were handed out before is refused once it is
    /// marked running, the ends still held being given up in priority order
    /// until the first one missing.
    pub fn start(&mut self) -> (r: Result<(UnboundedReceiver<T>, UnboundedReceiver<T>, UnboundedReceiver<T>)>)
        requires
            old(self).wf(),
        ensures
            final(self).wf(),
            final(self)@.handlers == old(self)@.handlers,
            final(self)@.processed == old(self)@.processed,
            forall|p: Priority| #[trigger] final(self).queue_of(p) == old(self).queue_of(p),
            final(self).handed() == old(self).handed(),
            r matches Ok((h, m, l)) ==> {
                &&& old(self).receiver_of(Priority::High) == Some(h)
                &&& old(self).receiver_of(Priority::Medium) == Some(m)
                &&& old(self).receiver_of(Priority::Low) == Some(l)
            },
            old(self)@.running ==> {
                &&& r matches Err(VibeError::RuntimeError(m)) && m@ == already_running_message()
                &&& final(self)@ == old(self)@
            },
            !old(self)@.running ==> {
                &&& final(self)@.running
                &&& !final(self)@.high_rx
                &&& !old(self)@.high_rx ==> {
                    &&& r matches Err(VibeError::RuntimeError(m))
                        && m@ == receiver_taken_message(Priority::High)
                    &&& final(self)@.medium_rx == old(self)@.medium_rx
                    &&& final(self)@.low_rx == old(self)@.low_rx
                }
                &&& old(self)@.high_rx ==> !final(self)@.medium_rx
                &&& old(self)@.high_rx && !old(self)@.medium_rx ==> {
                    &&& r matches Err(VibeError::RuntimeError(m))
                        && m@ == receiver_taken_message(Priority::Medium)
                    &&& final(self)@.low_rx == old(self)@.low_rx
                }
                &&& old(self)@.high_rx && old(self)@.medium_rx ==> {
                    &&& !final(self)@.low_rx
                    &&& !old(self)@.low_rx ==> (r matches Err(VibeError::RuntimeError(m))
                        && m@ == receiver_taken_message(Priority::Low))
                    &&& old(self)@.low_rx ==> r is Ok
                }
            },
    {
        if self.is_running {
            return Err(VibeError::RuntimeError(String::from_str("Event bus already running")));
        }
        self.is_running = true;
        let high = match self.high_rx.take() {
            Some(rx) => rx,
            None => {
                return Err(VibeError::RuntimeError(String::from_str("High priority receiver already taken")));
            },
        };
        let medium = match self.medium_rx.take() {
            Some(rx) => rx,
            None => {
                return Err(VibeError::RuntimeError(String::from_str("Medium priority receiver already taken")));
            },
        };
        let low = match self.low_rx.take() {
            Some(rx) => rx,
            None => {
                return Err(VibeError::RuntimeError(String::from_str("Low priority receiver already taken")));
            },
        };
        Ok((high, medium, low))
    }

    /// Marks the bus stopped (its receiving ends are not given back).
    pub fn stop(&mut self) -> (r: Result<()>)
        requires
            old(self).wf(),
        ensures
            final(self).wf(),
            r is Ok,
            forall|p: Priority| #[trigger] final(self).queue_of(p) == old(self).queue_of(p),
            final(self).handed() == old(self).handed(),
            forall|p: Priority| #[trigger] final(self).receiver_of(p) == old(self).receiver_of(p),
            final(self)@ == (BusState { running: false, ..old(self)@ }),
    {
        self.is_running = false;
        Ok(())
    }

    /// How many events have been queued.
    pub fn processed_events(&self) -> (n: u64)
        ensures
            n == self@.processed,
    {
        self.event_count
    }

    /// Whether the bus is running.
    pub fn is_running(&self) -> (b: bool)
        ensures
            b == self@.running,
    {
        self.is_running
    }
}

} // verus!
