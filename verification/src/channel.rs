//! Channel ends that keep a ghost record of what went through them.
//!
//! Whether a message arrives, and when, is up to the thread at the other end. What is on record
//! at this end is true: a message in the record of an [`Outbox`] was handed to its channel, and a
//! look in the record of an [`Inbox`] was taken at its channel. That nothing else was handed over
//! or taken is not part of the record's meaning.
use vstd::prelude::*;
use crossbeam_channel::{Receiver, RecvError, SendError, Sender, TryRecvError};

verus! {

/// The sending end of a crossbeam channel. Nothing is known of its inside.
#[verifier::external_type_specification]
#[verifier::external_body]
#[verifier::reject_recursive_types(T)]
pub struct ExSender<T>(Sender<T>);

/// The receiving end of a crossbeam channel. Nothing is known of its inside.
#[verifier::external_type_specification]
#[verifier::external_body]
#[verifier::reject_recursive_types(T)]
pub struct ExReceiver<T>(Receiver<T>);

/// The error of `crossbeam_channel::Sender::send`. Nothing is known of its inside.
#[verifier::external_type_specification]
#[verifier::external_body]
#[verifier::reject_recursive_types(T)]
pub struct ExSendError<T>(SendError<T>);

/// The error of `crossbeam_channel::Receiver::recv`. It holds nothing.
#[verifier::external_type_specification]
#[verifier::external_body]
pub struct ExRecvError(RecvError);

/// `crossbeam_channel::bounded`: a channel that holds at most `cap` messages. It panics when
/// `cap` is too large to allocate, which a single slot never is. Nothing is claimed of the two
/// ends; contracts refer to them as what this call returned.
pub assume_specification<T>[ crossbeam_channel::bounded::<T> ](cap: usize) -> (ends: (
    Sender<T>,
    Receiver<T>,
))
    requires
        cap <= 1,
;

/// `crossbeam_channel::unbounded`: a channel that holds any number of messages. Nothing is
/// claimed of the two ends; contracts refer to them as what this call returned.
pub assume_specification<T>[ crossbeam_channel::unbounded::<T> ]() -> (ends: (
    Sender<T>,
    Receiver<T>,
));

/// `crossbeam_channel::Sender::send`: hands a message to the channel, waiting while the channel
/// is full, and fails when no receiver is left. Which of the two happens depends on the other
/// end, so nothing is claimed of the result.
pub assume_specification<T>[ Sender::<T>::send ](sender: &Sender<T>, msg: T) -> (result: Result<
    (),
    SendError<T>,
>);

/// `crossbeam_channel::Receiver::recv`: waits for the next message, and fails when the channel
/// is empty and no sender is left. What comes depends on the other end, so nothing is claimed
/// of the result.
pub assume_specification<T>[ Receiver::<T>::recv ](receiver: &Receiver<T>) -> (result: Result<
    T,
    RecvError,
>);

/// What one look at a channel brought.
pub enum Polled<T> {
    /// A message.
    Message(T),
    /// Nothing: the channel was empty at that moment.
    Empty,
    /// Nothing, ever again: the channel is empty and no sender is left.
    Disconnected,
}

/// `crossbeam_channel::Receiver::try_recv`, with its two errors told apart. What comes depends
/// on the other end, so nothing is claimed of the result.
#[verifier::external_body]
fn try_receive<T>(receiver: &Receiver<T>) -> (polled: Polled<T>) {
    match receiver.try_recv() {
        Ok(message) => Polled::Message(message),
        Err(TryRecvError::Empty) => Polled::Empty,
        Err(TryRecvError::Disconnected) => Polled::Disconnected,
    }
}

/// The message was passed to `send` on this sender.
pub open spec fn handed_to<T>(sender: Sender<T>, message: T) -> bool {
    exists|result: Result<(), SendError<T>>| #[trigger]
        call_ensures(Sender::<T>::send, (&sender, message), result)
}

/// A sending end with a record of the messages that it handed to the channel.
#[verifier::reject_recursive_types(T)]
pub struct Outbox<T> {
    sender: Sender<T>,
    sent: Ghost<Seq<T>>,
}

impl<T> Outbox<T> {
    /// The messages handed to the channel through this outbox, in order.
    pub closed spec fn sent(&self) -> Seq<T> {
        self.sent@
    }

    /// The channel end behind this outbox.
    pub closed spec fn sender(&self) -> Sender<T> {
        self.sender
    }

    /// Everything on record was really passed to the channel.
    #[verifier::type_invariant]
    pub open spec fn record_is_true(&self) -> bool {
        forall|i: int|
            0 <= i < self.sent().len() ==> handed_to(self.sender(), #[trigger] self.sent()[i])
    }

    /// Starts a record on a channel end.
    pub fn new(sender: Sender<T>) -> (outbox: Self)
        ensures
            outbox.sent() == Seq::<T>::empty(),
            outbox.sender() == sender,
    {
        Outbox { sender, sent: Ghost(Seq::empty()) }
    }

    /// Hands a message to the channel. A message that no receiver is left for is dropped there.
    pub fn send(&mut self, message: T)
        ensures
            final(self).sent() == old(self).sent().push(message),
            final(self).sender() == old(self).sender(),
            handed_to(old(self).sender(), message),
    {
        proof {
            use_type_invariant(&*self);
        }
        let ghost record = self.sent@.push(message);
        let _ = self.sender.send(message);
        proof {
            assert forall|i: int| 0 <= i < record.len() implies handed_to(
                self.sender,
                #[trigger] record[i],
            ) by {
                if i < self.sent().len() {
                    assert(record[i] == self.sent()[i]);
                }
            }
        }
        self.sent = Ghost(record);
    }
}

/// One look at a channel: whether it waited for a message, and what it brought.
pub struct Look<T> {
    pub waited: bool,
    pub brought: Polled<T>,
}

/// The look was really made at this receiver.
pub closed spec fn looked_at<T>(receiver: Receiver<T>, look: Look<T>) -> bool {
    if look.waited {
        exists|result: Result<T, RecvError>| #[trigger]
            call_ensures(Receiver::<T>::recv, (&receiver,), result) && look.brought == (
            match result {
                Ok(message) => Polled::Message(message),
                Err(_) => Polled::Disconnected,
            })
    } else {
        call_ensures(try_receive::<T>, (&receiver,), look.brought)
    }
}

/// A receiving end with a record of the looks at the channel.
#[verifier::reject_recursive_types(T)]
pub struct Inbox<T> {
    receiver: Receiver<T>,
    looks: Ghost<Seq<Look<T>>>,
}

impl<T> Inbox<T> {
    /// The looks at the channel through this inbox, in order.
    pub closed spec fn looks(&self) -> Seq<Look<T>> {
        self.looks@
    }

    /// The channel end behind this inbox.
    pub closed spec fn receiver(&self) -> Receiver<T> {
        self.receiver
    }

    /// Everything on record really came from the channel.
    #[verifier::type_invariant]
    pub open spec fn record_is_true(&self) -> bool {
        forall|i: int|
            0 <= i < self.looks().len() ==> looked_at(self.receiver(), #[trigger] self.looks()[i])
    }

    /// Starts a record on a channel end.
    pub fn new(receiver: Receiver<T>) -> (inbox: Self)
        ensures
            inbox.looks() == Seq::<Look<T>>::empty(),
            inbox.receiver() == receiver,
    {
        Inbox { receiver, looks: Ghost(Seq::empty()) }
    }

    /// Takes the next message if there is one now.
    pub fn poll(&mut self) -> (polled: Polled<T>)
        ensures
            final(self).looks() == old(self).looks().push(
                (Look { waited: false, brought: polled }),
            ),
            final(self).receiver() == old(self).receiver(),
            looked_at(old(self).receiver(), (Look { waited: false, brought: polled })),
    {
        proof {
            use_type_invariant(&*self);
        }
        let polled = try_receive(&self.receiver);
        let ghost record = self.looks@.push(Look { waited: false, brought: polled });
        proof {
            assert forall|i: int| 0 <= i < record.len() implies looked_at(
                self.receiver,
                #[trigger] record[i],
            ) by {
                if i < self.looks().len() {
                    assert(record[i] == self.looks()[i]);
                }
            }
        }
        self.looks = Ghost(record);
        polled
    }

    /// Waits for the next message.
    pub fn wait(&mut self) -> (polled: Polled<T>)
        ensures
            final(self).looks() == old(self).looks().push(
                (Look { waited: true, brought: polled }),
            ),
            final(self).receiver() == old(self).receiver(),
            looked_at(old(self).receiver(), (Look { waited: true, brought: polled })),
            polled !is Empty,
    {
        proof {
            use_type_invariant(&*self);
        }
        let polled = match self.receiver.recv() {
            Ok(message) => Polled::Message(message),
            Err(_) => Polled::Disconnected,
        };
        let ghost record = self.looks@.push(Look { waited: true, brought: polled });
        proof {
            assert forall|i: int| 0 <= i < record.len() implies looked_at(
                self.receiver,
                #[trigger] record[i],
            ) by {
                if i < self.looks().len() {
                    assert(record[i] == self.looks()[i]);
                }
            }
        }
        self.looks = Ghost(record);
        polled
    }
}

/// A look that waited and is really a look at this channel end was one receive from it.
pub proof fn law_look_that_waited_is_a_receive<T>(receiver: Receiver<T>, look: Look<T>)
    requires
        looked_at(receiver, look),
        look.waited,
    ensures
        exists|result: Result<T, RecvError>| #[trigger]
            call_ensures(Receiver::<T>::recv, (&receiver,), result) && look.brought == (
            match result {
                Ok(message) => Polled::Message(message),
                Err(_) => Polled::Disconnected,
            }),
{
}

/// Waiting is one receive from the channel behind the inbox: it brings the message that came, or
/// finds no sender left, and gets on record as that.
pub proof fn law_waiting_is_a_receive<T>(inbox: &mut Inbox<T>, polled: Polled<T>)
    requires
        call_ensures(Inbox::<T>::wait, (inbox,), polled),
    ensures
        exists|result: Result<T, RecvError>| #[trigger]
            call_ensures(Receiver::<T>::recv, (&old(inbox).receiver(),), result) && polled == (
            match result {
                Ok(message) => Polled::Message(message),
                Err(_) => Polled::Disconnected,
            }),
        final(inbox).looks() == old(inbox).looks().push((Look { waited: true, brought: polled })),
        final(inbox).receiver() == old(inbox).receiver(),
{
}

/// Polling gets on record as what it brought, on a channel that stays the same.
pub proof fn law_polling_is_recorded<T>(inbox: &mut Inbox<T>, polled: Polled<T>)
    requires
        call_ensures(Inbox::<T>::poll, (inbox,), polled),
    ensures
        final(inbox).looks() == old(inbox).looks().push((Look { waited: false, brought: polled })),
        final(inbox).receiver() == old(inbox).receiver(),
{
    lemma_polling_is_a_try(inbox, polled);
}

/// What polling brought is what one try to receive from the channel behind the inbox brought.
proof fn lemma_polling_is_a_try<T>(inbox: &mut Inbox<T>, polled: Polled<T>)
    requires
        call_ensures(Inbox::<T>::poll, (inbox,), polled),
    ensures
        call_ensures(try_receive::<T>, (&old(inbox).receiver(),), polled),
{
}

} // verus!
