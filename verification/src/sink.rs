//! The per-downstream event sink: a bounded, non-blocking channel to the
//! transport, together with a ghost log of every event handed to it.
//!
//! Delivery is best-effort: a full or disconnected channel drops the
//! event. The ghost log records what the delegate handed to the sink, in
//! order, whatever the channel then did with it.

use vstd::prelude::*;

use crate::errors::SendOutcome;
use crate::events::{Event, EventV};

verus! {

#[verifier::external_type_specification]
#[verifier::external_body]
#[verifier::reject_recursive_types(T)]
pub struct ExSender<T>(crossbeam::channel::Sender<T>);

/// Relies on crossbeam's Sender::try_send: it never blocks, and either
/// hands the message to the channel or drops it because the channel is
/// full or all receivers are gone.
#[verifier::external_body]
fn channel_try_send(s: &crossbeam::channel::Sender<Event>, ev: Event) -> (r: SendOutcome) {
    match s.try_send(ev) {
        Ok(()) => SendOutcome::Sent,
        Err(crossbeam::channel::TrySendError::Full(_)) => SendOutcome::Full,
        Err(crossbeam::channel::TrySendError::Disconnected(_)) => SendOutcome::Disconnected,
    }
}

/// A sink for one downstream, logging every event handed to it.
pub struct EventSink {
    sender: crossbeam::channel::Sender<Event>,
    sent: Ghost<Seq<EventV>>,
}

impl View for EventSink {
    type V = Seq<EventV>;

    closed spec fn view(&self) -> Seq<EventV> {
        self.sent@
    }
}

impl EventSink {
    /// Wraps a channel sender into a sink with an empty log.
    pub fn new(sender: crossbeam::channel::Sender<Event>) -> (r: EventSink)
        ensures
            r@ == Seq::<EventV>::empty(),
    {
        EventSink { sender, sent: Ghost(Seq::empty()) }
    }

    /// Hands one event to the channel, without blocking, and logs it.
    pub fn send(&mut self, ev: Event) -> (r: SendOutcome)
        ensures
            final(self)@ == old(self)@.push(ev@),
    {
        let ghost evv = ev@;
        let outcome = channel_try_send(&self.sender, ev);
        proof {
            self.sent@ = self.sent@.push(evv);
        }
        outcome
    }
}

} // verus!
