//! The router between the relays and the verifier: what to do with a frame
//! that a relay sent.

use vstd::prelude::*;
use crate::chain::{AdmissionView, ChainLog};
use crate::error::Error;
use crate::event::Event;
use crate::hash::EventId;
use crate::mmr::{Admission, Mmr};

verus! {

/// A frame received from a relay.
#[derive(Clone, Debug, PartialEq, Eq)]
pub enum RelayMessage {
    /// A note, sent for one of the client's subscriptions.
    Event { subscription_id: String, event: Event },
    /// A remark of the relay, for the human reader.
    Notice { message: String },
    /// The relay has sent all the notes it had stored for a subscription.
    EndOfStoredEvents(String),
    /// The relay's answer to a note that the client published.
    Acknowledged { event_id: EventId, status: bool, message: String },
    /// An empty frame.
    Empty,
    /// Any other frame.
    Unhandled,
}

/// What the router decided on what a relay delivered.
#[derive(Clone, Copy, Debug, PartialEq, Eq)]
pub enum Handled {
    /// The frame held a note that extends the log: the caller is to append
    /// the identifier to the accumulator and to report to [`Mmr::push`] with
    /// this leave.
    Append(Admission),
    /// Nothing is to be appended, for this reason. A refused note is dropped
    /// and a failed relay is left to the caller; the other relays and the log
    /// go on, unless the error is the fatal one.
    Dropped(Error),
    /// The frame held no note. It may be logged and has no effect on the log.
    Info,
}

/// The mathematical content of a decision of the router.
pub ghost enum HandledView {
    Append(AdmissionView),
    Dropped(Error),
    Info,
}

impl View for Handled {
    type V = HandledView;

    open spec fn view(&self) -> HandledView {
        match *self {
            Handled::Append(admission) => HandledView::Append(admission@),
            Handled::Dropped(e) => HandledView::Dropped(e),
            Handled::Info => HandledView::Info,
        }
    }
}

/// The decision on what a relay delivered, given the state of the log. `None`
/// stands for a relay that failed, or sent what cannot be read as a frame.
pub open spec fn route(log: ChainLog, received: Option<RelayMessage>) -> HandledView {
    match received {
        None => HandledView::Dropped(Error::TransportFailure),
        Some(RelayMessage::Event { subscription_id, event }) => match log.check_remote(
            event@.note(),
        ) {
            Ok(_) => HandledView::Append(log.admission(event@.id)),
            Err(e) => HandledView::Dropped(e),
        },
        Some(_) => HandledView::Info,
    }
}

/// Only a frame with a note can lead to an append: a failed relay and a frame
/// without a note leave the log alone, whatever its state.
pub proof fn lemma_only_notes_append(log: ChainLog, received: Option<RelayMessage>)
    ensures
        route(log, received) is Append ==> received is Some && received->0 is Event,
        received is None ==> route(log, received) == HandledView::Dropped(Error::TransportFailure),
        received is Some && !(received->0 is Event) ==> route(log, received) == HandledView::Info,
{
}

/// The client's side of its relay connections. The connections themselves
/// belong to the caller; the client keeps the subscriptions made on them and
/// decides on what they deliver.
pub struct Client {
    /// The identifiers of the subscriptions made, oldest first.
    pub subscriptions: Vec<String>,
}

impl Client {
    /// A client without subscriptions.
    pub fn new() -> (client: Client)
        ensures
            client.subscriptions@.len() == 0,
    {
        Client { subscriptions: Vec::new() }
    }

    /// Records a subscription that was sent to the relays.
    pub fn subscribe(&mut self, id: String)
        ensures
            final(self).subscriptions@ == old(self).subscriptions@.push(id),
    {
        self.subscriptions.push(id);
    }

    /// Decides on what one relay delivered: a frame, or `None` where the relay
    /// failed or sent what cannot be read. A note is put to the verifier as a
    /// note from a relay; every other frame is informational; a failure is
    /// reported for that relay alone. Nothing is changed: neither the client
    /// nor the log.
    pub fn socket_reader(&self, mmr: &Mmr, received: Option<&RelayMessage>) -> (handled: Handled)
        ensures
            handled@ == route(
                mmr@,
                match received {
                    Some(message) => Some(*message),
                    None => None,
                },
            ),
    {
        match received {
            None => Handled::Dropped(Error::TransportFailure),
            Some(RelayMessage::Event { subscription_id: _, event }) => match mmr.handle_event(event) {
                Ok(admission) => Handled::Append(admission),
                Err(e) => Handled::Dropped(e),
            },
            Some(_) => Handled::Info,
        }
    }
}

} // verus!
