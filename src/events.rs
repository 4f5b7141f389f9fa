//! Event channels: bounded broadcast channels over which systems publish values
//! and read them back, each reader with its own cursor.

use crate::storage::ResourceId;
use tokio::sync::broadcast::{Receiver, Sender};
use vstd::prelude::*;

verus! {

#[verifier::external_type_specification]
#[verifier::external_body]
#[verifier::reject_recursive_types(T)]
pub struct ExSender<T>(Sender<T>);

#[verifier::external_type_specification]
#[verifier::external_body]
#[verifier::reject_recursive_types(T)]
pub struct ExReceiver<T>(Receiver<T>);

/// The capacity an event channel is asked for. tokio rounds it up to the next
/// power of two, so a channel holds 128 values for a reader that has not caught up.
pub const EVENT_CAPACITY: usize = 100;

/// Why a non-blocking receive gave no value.
#[derive(Clone, Copy, PartialEq, Eq, Structural, Debug)]
pub enum TryRecvError {
    /// Nothing new has been sent.
    Empty,
    /// Every sender is gone.
    Closed,
    /// The reader fell behind; this many values were dropped and its cursor moved
    /// to the oldest value still held.
    Lagged(u64),
}

/// Relies on `tokio::sync::broadcast::channel`, which panics on a capacity of zero
/// or above `usize::MAX >> 1`.
#[verifier::external_body]
fn broadcast_channel<V: Clone>(capacity: usize) -> (r: (Sender<V>, Receiver<V>))
    requires
        0 < capacity <= usize::MAX / 2,
{
    tokio::sync::broadcast::channel(capacity)
}

/// Relies on `Sender::clone`: another handle on the same channel.
#[verifier::external_body]
fn clone_sender<V>(sender: &Sender<V>) -> (r: Sender<V>) {
    sender.clone()
}

/// Relies on `Sender::subscribe`: a receiver of the values sent after the call.
#[verifier::external_body]
fn subscribe<V>(sender: &Sender<V>) -> (r: Receiver<V>) {
    sender.subscribe()
}

/// Relies on `Receiver::resubscribe`: a fresh receiver starting at the channel's tail.
#[verifier::external_body]
fn resubscribe<V: Clone>(receiver: &Receiver<V>) -> (r: Receiver<V>) {
    receiver.resubscribe()
}

/// Relies on `Sender::send`: the number of receivers the value went to, which is
/// never zero, or the value back when there is no receiver.
#[verifier::external_body]
fn send_value<V>(sender: &Sender<V>, value: V) -> (r: Result<usize, V>)
    ensures
        match r {
            Ok(n) => n >= 1,
            Err(back) => back == value,
        },
{
    sender.send(value).map_err(|e| e.0)
}

/// Relies on `Receiver::try_recv`: a value, or why there was none; a lag always
/// counts at least one dropped value.
#[verifier::external_body]
fn try_recv_value<V: Clone>(receiver: &mut Receiver<V>) -> (r: Result<V, TryRecvError>)
    ensures
        match r {
            Err(TryRecvError::Lagged(n)) => n > 0,
            _ => true,
        },
{
    match receiver.try_recv() {
        Ok(v) => Ok(v),
        Err(tokio::sync::broadcast::error::TryRecvError::Empty) => Err(TryRecvError::Empty),
        Err(tokio::sync::broadcast::error::TryRecvError::Closed) => Err(TryRecvError::Closed),
        Err(tokio::sync::broadcast::error::TryRecvError::Lagged(n)) => Err(
            TryRecvError::Lagged(n),
        ),
    }
}

/// The number of deliveries a send reports: what the channel counted, or zero when
/// the value found no receiver.
pub fn deliveries<V>(outcome: Result<usize, V>) -> (r: usize)
    ensures
        r == match outcome {
            Ok(n) => n,
            Err(_) => 0,
        },
{
    match outcome {
        Ok(n) => n,
        Err(_) => 0,
    }
}

/// The channel of one event kind: a sender, and a receiver kept so that the
/// channel always has one.
#[verifier::reject_recursive_types(V)]
pub struct ChannelResource<V> {
    sender: Sender<V>,
    receiver: Receiver<V>,
    kind: ResourceId,
    capacity: usize,
}

impl<V> ChannelResource<V> {
    /// The event kind the channel carries.
    pub closed spec fn spec_kind(&self) -> ResourceId {
        self.kind
    }

    /// The capacity the channel was made with.
    pub closed spec fn spec_capacity(&self) -> usize {
        self.capacity
    }

    pub fn kind(&self) -> (r: ResourceId)
        ensures
            r == self.spec_kind(),
    {
        self.kind
    }

    pub fn capacity(&self) -> (r: usize)
        ensures
            r == self.spec_capacity(),
    {
        self.capacity
    }
}

impl<V: Clone> ChannelResource<V> {
    /// A channel for the event kind `kind` holding up to `capacity` values for a
    /// reader that has not caught up.
    pub fn new(kind: ResourceId, capacity: usize) -> (r: ChannelResource<V>)
        requires
            0 < capacity <= usize::MAX / 2,
        ensures
            r.spec_kind() == kind,
            r.spec_capacity() == capacity,
    {
        let (sender, receiver) = broadcast_channel(capacity);
        ChannelResource { sender, receiver, kind, capacity }
    }

    /// Publishes `value`; the number of receivers it reached, zero when none.
    pub fn send(&self, value: V) -> (r: usize) {
        deliveries(send_value(&self.sender, value))
    }

    /// A new reader with its own cursor, starting at the channel's tail.
    pub fn subscribe(&self) -> (r: EventReader<V>)
        ensures
            r.spec_kind() == self.spec_kind(),
    {
        EventReader { receiver: resubscribe(&self.receiver), kind: self.kind }
    }

    /// A writer on this channel.
    pub fn writer(&self) -> (r: EventWriter<V>)
        ensures
            r.spec_kind() == self.spec_kind(),
    {
        EventWriter::new(self.kind, &self.sender)
    }

    /// A reader on this channel, which sees what is sent from now on.
    pub fn reader(&self) -> (r: EventReader<V>)
        ensures
            r.spec_kind() == self.spec_kind(),
    {
        EventReader::new(self.kind, &self.sender)
    }
}

/// A reader of one event kind, with a cursor of its own.
#[verifier::reject_recursive_types(V)]
pub struct EventReader<V> {
    receiver: Receiver<V>,
    kind: ResourceId,
}

impl<V> EventReader<V> {
    /// The event kind the reader reads.
    pub closed spec fn spec_kind(&self) -> ResourceId {
        self.kind
    }

    pub fn kind(&self) -> (r: ResourceId)
        ensures
            r == self.spec_kind(),
    {
        self.kind
    }
}

impl<V: Clone> EventReader<V> {
    /// Subscribes to the channel of `sender`, which carries the event kind `kind`:
    /// the reader sees what is sent from now on.
    pub fn new(kind: ResourceId, sender: &Sender<V>) -> (r: EventReader<V>)
        ensures
            r.spec_kind() == kind,
    {
        EventReader { receiver: subscribe(sender), kind }
    }

    /// The next value, or why there is none; never waits.
    pub fn try_recv(&mut self) -> (r: Result<V, TryRecvError>)
        ensures
            match r {
                Err(TryRecvError::Lagged(n)) => n > 0,
                _ => true,
            },
    {
        try_recv_value(&mut self.receiver)
    }

    /// The underlying receiver, for a caller that waits for values.
    pub fn receiver_mut(&mut self) -> (r: &mut Receiver<V>) {
        &mut self.receiver
    }

    /// A second reader with its own cursor, starting at the channel's tail.
    pub fn resubscribe(&self) -> (r: EventReader<V>)
        ensures
            r.spec_kind() == self.spec_kind(),
    {
        EventReader { receiver: resubscribe(&self.receiver), kind: self.kind }
    }
}

/// A writer of one event kind.
#[verifier::reject_recursive_types(V)]
pub struct EventWriter<V> {
    sender: Sender<V>,
    kind: ResourceId,
}

impl<V> EventWriter<V> {
    /// The event kind the writer writes.
    pub closed spec fn spec_kind(&self) -> ResourceId {
        self.kind
    }

    pub fn kind(&self) -> (r: ResourceId)
        ensures
            r == self.spec_kind(),
    {
        self.kind
    }

    /// A writer on the channel of `sender`, which carries the event kind `kind`.
    pub fn new(kind: ResourceId, sender: &Sender<V>) -> (r: EventWriter<V>)
        ensures
            r.spec_kind() == kind,
    {
        EventWriter { sender: clone_sender(sender), kind }
    }

    /// Publishes `value`; the number of readers it reached, zero when none. Never waits.
    pub fn send(&self, value: V) -> (r: usize) {
        deliveries(send_value(&self.sender, value))
    }
}

} // verus!
