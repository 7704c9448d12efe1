//! The two unidirectional channels of a run: inbound control messages and
//! outbound reports, carried by `std::sync::mpsc`.
//!
//! The loop-facing halves are wrapped in [`ControlReceiver`] and
//! [`ReportSender`], each carrying the ghost history of its real channel
//! traffic. The histories are private and only the wrappers' own
//! verified methods extend them, one real call per entry, so a contract
//! stated over them is grounded in what the channel actually did.

use crate::message::{IncomingQueueMessage, OutgoingQueueMessage};
use vstd::prelude::*;

verus! {

#[verifier::external_type_specification]
#[verifier::external_body]
#[verifier::reject_recursive_types(T)]
pub struct ExSender<T>(std::sync::mpsc::Sender<T>);

#[verifier::external_type_specification]
#[verifier::external_body]
#[verifier::reject_recursive_types(T)]
pub struct ExReceiver<T>(std::sync::mpsc::Receiver<T>);

/// Relies on std::sync::mpsc::channel: creates the inbound control
/// channel, external controller to loop.
#[verifier::external_body]
pub(crate) fn incoming_channel() -> (
    std::sync::mpsc::Sender<IncomingQueueMessage>,
    std::sync::mpsc::Receiver<IncomingQueueMessage>,
) {
    std::sync::mpsc::channel()
}

/// Relies on std::sync::mpsc::channel: creates the outbound report
/// channel, loop to external observer.
#[verifier::external_body]
pub(crate) fn outgoing_channel() -> (
    std::sync::mpsc::Sender<OutgoingQueueMessage>,
    std::sync::mpsc::Receiver<OutgoingQueueMessage>,
) {
    std::sync::mpsc::channel()
}

/// Relies on std::sync::mpsc::Receiver::try_recv: returns a pending
/// control message without blocking, or nothing when the channel is empty
/// or its sender is gone. What arrives depends on the controller, so
/// nothing is promised of the value.
#[verifier::external_body]
pub(crate) fn try_recv_incoming(
    receiver: &std::sync::mpsc::Receiver<IncomingQueueMessage>,
) -> Option<IncomingQueueMessage> {
    match receiver.try_recv() {
        Ok(message) => Some(message),
        Err(_) => None,
    }
}

/// Relies on std::sync::mpsc::Sender::send: hands one control message to
/// the loop. The result says whether the receiving half was still there;
/// delivery order is the senders' call order.
#[verifier::external_body]
pub(crate) fn send_incoming(
    sender: &std::sync::mpsc::Sender<IncomingQueueMessage>,
    message: IncomingQueueMessage,
) -> bool {
    sender.send(message).is_ok()
}

/// Relies on std::sync::mpsc::Sender::send: hands one report to the
/// observer. On failure the receiver is gone and the returned message is
/// the very one handed in, as the documentation promises.
#[verifier::external_body]
pub(crate) fn send_outgoing(
    sender: &std::sync::mpsc::Sender<OutgoingQueueMessage>,
    message: OutgoingQueueMessage,
) -> (r: Result<(), OutgoingQueueMessage>)
    ensures
        r matches Err(m) ==> m == message,
{
    match sender.send(message) {
        Ok(()) => Ok(()),
        Err(std::sync::mpsc::SendError(m)) => Err(m),
    }
}

/// The loop's half of the inbound control channel: the raw receiver
/// together with the history of what its polls yielded.
pub struct ControlReceiver {
    receiver: std::sync::mpsc::Receiver<IncomingQueueMessage>,
    polled: Ghost<Seq<Option<IncomingQueueMessage>>>,
}

impl ControlReceiver {
    /// What every poll of this receiver has yielded, in order.
    pub closed spec fn spec_polled(&self) -> Seq<Option<IncomingQueueMessage>> {
        self.polled@
    }

    /// Takes charge of the receiving half of a control channel; nothing
    /// was polled from it yet.
    pub fn new(receiver: std::sync::mpsc::Receiver<IncomingQueueMessage>) -> (r: ControlReceiver)
        ensures
            r.spec_polled() == Seq::<Option<IncomingQueueMessage>>::empty(),
    {
        ControlReceiver { receiver, polled: Ghost(Seq::empty()) }
    }

    /// One non-blocking poll of the channel; whatever it yielded is
    /// appended to the history.
    pub fn poll(&mut self) -> (r: Option<IncomingQueueMessage>)
        ensures
            final(self).spec_polled() == old(self).spec_polled().push(r),
    {
        let message = try_recv_incoming(&self.receiver);
        self.polled = Ghost(self.polled@.push(message));
        message
    }
}

/// The loop's half of the outbound report channel: the raw sender
/// together with the history of every send attempt and the channel's
/// verdict on it.
pub struct ReportSender {
    sender: std::sync::mpsc::Sender<OutgoingQueueMessage>,
    attempts: Ghost<Seq<(OutgoingQueueMessage, bool)>>,
}

impl ReportSender {
    /// Every message handed to this sender, in order, paired with
    /// whether the channel accepted it.
    pub closed spec fn spec_attempts(&self) -> Seq<(OutgoingQueueMessage, bool)> {
        self.attempts@
    }

    /// Takes charge of the sending half of a report channel; nothing was
    /// sent through it yet.
    pub fn new(sender: std::sync::mpsc::Sender<OutgoingQueueMessage>) -> (r: ReportSender)
        ensures
            r.spec_attempts() == Seq::<(OutgoingQueueMessage, bool)>::empty(),
    {
        ReportSender { sender, attempts: Ghost(Seq::empty()) }
    }

    /// One send attempt; the message and the channel's verdict are
    /// appended to the history, and on failure the unsent message comes
    /// back.
    pub fn send(&mut self, message: OutgoingQueueMessage) -> (r: Result<(), OutgoingQueueMessage>)
        ensures
            final(self).spec_attempts() == old(self).spec_attempts().push((message, r is Ok)),
            r matches Err(m) ==> m == message,
    {
        let result = send_outgoing(&self.sender, message);
        self.attempts = Ghost(self.attempts@.push((message, result.is_ok())));
        result
    }
}

} // verus!
