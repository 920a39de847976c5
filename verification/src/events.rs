//! Node event streaming.
//!
//! A [`NodeEventListener`] is a forward-looking subscription to the [`NodeEvent`]s that the
//! subsystems of a node publish through a [`NodeEventSender`].

use tokio::sync::broadcast;
use vstd::arithmetic::power2::is_pow2;
use vstd::prelude::*;

verus! {

/// Capacity of the node-event broadcast channel.
///
/// Slow consumers that fall this far behind are told so with [`TryRecvError::Lagged`].
pub const NODE_EVENT_CHANNEL_CAPACITY: usize = 256;

/// An event emitted by a running node.
#[derive(Debug, PartialEq, Eq)]
pub enum NodeEvent {
    /// A new block was accepted at the live main-chain tip via the incoming-block path, whether
    /// relayed by a peer or submitted locally.
    ///
    /// Not emitted for blocks applied during initial batch-sync or for blocks re-applied during a
    /// reorg.
    NewBlock {
        /// Height of the new block.
        height: usize,
        /// Hash of the new block.
        hash: [u8; 32],
    },
    /// The main chain was reorganized onto a heavier alternative chain.
    Reorg {
        /// Height of the first block that differs between the old and new chains.
        split_height: usize,
        /// Hash of the new main-chain tip after the reorg.
        new_top_hash: [u8; 32],
        /// Main-chain height after the reorg.
        new_chain_height: usize,
    },
}

impl Clone for NodeEvent {
    fn clone(&self) -> (copy: NodeEvent)
        ensures
            copy == *self,
    {
        match *self {
            NodeEvent::NewBlock { height, hash } => NodeEvent::NewBlock { height, hash },
            NodeEvent::Reorg { split_height, new_top_hash, new_chain_height } => NodeEvent::Reorg {
                split_height,
                new_top_hash,
                new_chain_height,
            },
        }
    }
}

/// Why there is no event to receive.
#[derive(Clone, Copy, Debug, PartialEq, Eq, Structural)]
pub enum TryRecvError {
    /// Every event that was published has been received.
    Empty,
    /// Every event has been received, and no sender is left.
    Closed,
    /// This many events were published and dropped before they were received; the next call goes
    /// on after them.
    Lagged(u64),
}

/// The sender of `tokio::sync::broadcast`.
#[verifier::external_type_specification]
#[verifier::external_body]
#[verifier::reject_recursive_types(T)]
pub struct ExSender<T>(broadcast::Sender<T>);

/// The receiver of `tokio::sync::broadcast`.
#[verifier::external_type_specification]
#[verifier::external_body]
#[verifier::reject_recursive_types(T)]
pub struct ExReceiver<T>(broadcast::Receiver<T>);

/// The events that the channel of this sender carries from its creation to its end, in the order
/// in which they are sent. Those that are sent while nobody listens are not among them.
pub uninterp spec fn sent_events(tx: broadcast::Sender<NodeEvent>) -> Seq<NodeEvent>;

/// The events that are handed back by the channel of this sender from its creation to its end,
/// because nobody listens when they are sent.
pub uninterp spec fn unheard_events(tx: broadcast::Sender<NodeEvent>) -> Seq<NodeEvent>;

/// The events that the channel of this receiver carries from its creation to its end.
pub uninterp spec fn channel_events(rx: broadcast::Receiver<NodeEvent>) -> Seq<NodeEvent>;

/// The place among the events of its channel that this receiver has come to.
pub uninterp spec fn position(rx: broadcast::Receiver<NodeEvent>) -> nat;

/// How many events the channel of this sender keeps for receivers that are behind.
pub uninterp spec fn channel_capacity(tx: broadcast::Sender<NodeEvent>) -> nat;

/// How many events the channel of this receiver keeps for receivers that are behind.
pub uninterp spec fn kept_events(rx: broadcast::Receiver<NodeEvent>) -> nat;

/// Opens a channel with `tokio::sync::broadcast::channel`, which panics where the capacity is zero
/// or more than half of `usize::MAX`. The contract says that the receiver belongs to the sender's
/// channel and stands at its first event, and that the channel keeps at least `capacity` events,
/// and exactly so many where that is a power of two.
#[verifier::external_body]
fn open_channel(capacity: usize) -> (channel: (
    broadcast::Sender<NodeEvent>,
    broadcast::Receiver<NodeEvent>,
))
    requires
        0 < capacity <= usize::MAX / 2,
    ensures
        channel_capacity(channel.0) >= capacity,
        is_pow2(capacity as int) ==> channel_capacity(channel.0) == capacity,
        channel_events(channel.1) == sent_events(channel.0),
        kept_events(channel.1) == channel_capacity(channel.0),
        position(channel.1) == 0,
{
    broadcast::channel(capacity)
}

/// Sends an event with `broadcast::Sender::send`. The contract says that an event that is sent
/// reaches a receiver at least and is among the events of the channel, and that one that is not
/// sent is handed back and is among the events that are. Which of the two happens depends on whether
/// there is a receiver at that moment, and is left open.
#[verifier::external_body]
fn send_event(
    tx: &broadcast::Sender<NodeEvent>,
    event: NodeEvent,
) -> (sent: Result<usize, NodeEvent>)
    ensures
        match sent {
            Ok(receivers) => receivers > 0 && sent_events(*tx).contains(event),
            Err(returned) => returned == event && unheard_events(*tx).contains(event),
        },
{
    tx.send(event).map_err(|error| error.0)
}

/// To how many listeners an event went by what came back for it: none where it was handed back.
pub open spec fn reached(sent: Result<usize, NodeEvent>) -> usize {
    match sent {
        Ok(receivers) => receivers,
        Err(_) => 0,
    }
}

/// To how many listeners an event went by what came back for it: none where it was handed back.
pub fn listeners_reached(sent: &Result<usize, NodeEvent>) -> (listeners: usize)
    ensures
        listeners == reached(*sent),
{
    match sent {
        Ok(receivers) => *receivers,
        Err(_) => 0,
    }
}

/// Makes a receiver with `broadcast::Sender::subscribe`. The contract says that it belongs to the
/// sender's channel and stands at most past the last event. Where exactly it stands depends on what
/// has been sent so far, and is left open. The call panics only where `usize::MAX / 4` receivers are there already, more than memory holds.
#[verifier::external_body]
fn new_receiver(tx: &broadcast::Sender<NodeEvent>) -> (rx: broadcast::Receiver<NodeEvent>)
    ensures
        channel_events(rx) == sent_events(*tx),
        kept_events(rx) == channel_capacity(*tx),
        position(rx) <= channel_events(rx).len(),
{
    tx.subscribe()
}

/// Makes a receiver with `broadcast::Receiver::resubscribe`. The contract says that it belongs to
/// the same channel, is not behind the receiver that it is made from, and stands at most past the
/// last event. As with
/// [`new_receiver`], memory ends before the number of receivers does.
#[verifier::external_body]
fn another_receiver(
    rx: &broadcast::Receiver<NodeEvent>,
) -> (another: broadcast::Receiver<NodeEvent>)
    ensures
        channel_events(another) == channel_events(*rx),
        kept_events(another) == kept_events(*rx),
        position(*rx) <= position(another) <= channel_events(another).len(),
{
    rx.resubscribe()
}

/// Makes a sender with the `Clone` of `broadcast::Sender`. The contract says that it sends to the
/// same channel.
#[verifier::external_body]
fn another_sender(tx: &broadcast::Sender<NodeEvent>) -> (another: broadcast::Sender<NodeEvent>)
    ensures
        sent_events(another) == sent_events(*tx),
        unheard_events(another) == unheard_events(*tx),
        channel_capacity(another) == channel_capacity(*tx),
{
    tx.clone()
}

/// What a receiver gives back, and where it stands then. An event is the one that it had come to.
/// Where there is none yet, it stays where it is; so it does where the channel is closed, and then
/// it has come past the last event that there ever is. Events that were dropped are counted, and
/// after them come as many as the channel keeps.
pub open spec fn received(
    before: broadcast::Receiver<NodeEvent>,
    after: broadcast::Receiver<NodeEvent>,
    result: Result<NodeEvent, TryRecvError>,
) -> bool {
    &&& channel_events(after) == channel_events(before)
    &&& kept_events(after) == kept_events(before)
    &&& match result {
        Ok(event) => {
            &&& position(before) < channel_events(before).len()
            &&& event == channel_events(before)[position(before) as int]
            &&& position(after) == position(before) + 1
        },
        Err(TryRecvError::Empty) => position(after) == position(before),
        Err(TryRecvError::Closed) => {
            &&& position(after) == position(before)
            &&& position(before) == channel_events(before).len()
        },
        Err(TryRecvError::Lagged(missed)) => {
            &&& missed > 0
            &&& position(after) == position(before) + missed
            &&& position(after) + kept_events(after) <= channel_events(after).len()
        },
    }
}

/// Takes the next event with `broadcast::Receiver::try_recv`, which makes a copy of it with
/// `Clone`. The contract says what [`received`] says. Whether there is an event depends on
/// what has been sent so far, and is left open.
#[verifier::external_body]
fn receive_event(
    rx: &mut broadcast::Receiver<NodeEvent>,
) -> (result: Result<NodeEvent, TryRecvError>)
    ensures
        received(*old(rx), *final(rx), result),
{
    rx.try_recv().map_err(|error| match error {
        broadcast::error::TryRecvError::Empty => TryRecvError::Empty,
        broadcast::error::TryRecvError::Closed => TryRecvError::Closed,
        broadcast::error::TryRecvError::Lagged(missed) => TryRecvError::Lagged(missed),
    })
}

/// The publishing half of the node-event channel. Cheaply cloneable.
pub struct NodeEventSender {
    tx: broadcast::Sender<NodeEvent>,
}

impl Clone for NodeEventSender {
    fn clone(&self) -> (copy: NodeEventSender)
        ensures
            copy.events() == self.events(),
            copy.unheard() == self.unheard(),
            copy.capacity() == self.capacity() == NODE_EVENT_CHANNEL_CAPACITY,
    {
        proof {
            use_type_invariant(self);
        }
        NodeEventSender { tx: another_sender(&self.tx) }
    }
}

impl NodeEventSender {
    /// The channel of a sender has the capacity of the node-event channel.
    #[verifier::type_invariant]
    spec fn wf(self) -> bool {
        channel_capacity(self.tx) == NODE_EVENT_CHANNEL_CAPACITY
    }

    /// The events that are published through this sender's channel, from first to last.
    pub closed spec fn events(self) -> Seq<NodeEvent> {
        sent_events(self.tx)
    }

    /// The events that are sent through this sender's channel while nobody listens.
    pub closed spec fn unheard(self) -> Seq<NodeEvent> {
        unheard_events(self.tx)
    }

    /// How many events are kept for listeners that are behind.
    pub closed spec fn capacity(self) -> nat {
        channel_capacity(self.tx)
    }

    /// Create a new sender backed by a fresh broadcast channel.
    pub fn new() -> (sender: NodeEventSender)
        ensures
            sender.capacity() == NODE_EVENT_CHANNEL_CAPACITY,
    {
        proof {
            assert(is_pow2(256)) by {
                reveal_with_fuel(is_pow2, 9);
            }
        }
        let (tx, _rx) = open_channel(NODE_EVENT_CHANNEL_CAPACITY);
        NodeEventSender { tx }
    }

    /// Publish an event, and say to how many listeners. With no active listeners the event is
    /// dropped, and nothing else happens.
    ///
    /// The event is handed to the channel once. The contract says that it is handed over; a call
    /// through a shared reference changes no value that a contract could count such calls by.
    pub fn publish(&self, event: NodeEvent) -> (listeners: usize)
        ensures
            listeners > 0 ==> self.events().contains(event),
            listeners == 0 ==> self.unheard().contains(event),
    {
        let sent = send_event(&self.tx, event);
        listeners_reached(&sent)
    }

    /// Publish an event, once. A send with no active listeners is a no-op (not an error). The
    /// contract says what that of [`NodeEventSender::publish`] does.
    pub fn send(&self, event: NodeEvent)
        ensures
            self.events().contains(event) || self.unheard().contains(event),
    {
        let _ = self.publish(event);
    }

    /// Subscribe a new, forward-looking listener.
    pub fn subscribe(&self) -> (listener: NodeEventListener)
        ensures
            listener.events() == self.events(),
            listener.capacity() == self.capacity() == NODE_EVENT_CHANNEL_CAPACITY,
            listener.next() <= listener.events().len(),
    {
        proof {
            use_type_invariant(self);
        }
        NodeEventListener { rx: new_receiver(&self.tx) }
    }
}

/// A subscription to [`NodeEvent`]s. Obtain one from [`NodeEventSender::subscribe`].
#[must_use]
pub struct NodeEventListener {
    pub rx: broadcast::Receiver<NodeEvent>,
}

impl NodeEventListener {
    /// The events that are published through this listener's channel, from first to last.
    pub open spec fn events(self) -> Seq<NodeEvent> {
        channel_events(self.rx)
    }

    /// How many events are kept for the listener where it is behind.
    pub open spec fn capacity(self) -> nat {
        kept_events(self.rx)
    }

    /// The place among the events that the listener has come to.
    pub open spec fn next(self) -> nat {
        position(self.rx)
    }

    /// Try to receive the next event without waiting.
    pub fn try_recv(&mut self) -> (result: Result<NodeEvent, TryRecvError>)
        ensures
            received(old(self).rx, final(self).rx, result),
    {
        receive_event(&mut self.rx)
    }

    /// Create a new listener that receives events from now on, sharing the same channel.
    pub fn resubscribe(&self) -> (listener: NodeEventListener)
        ensures
            listener.events() == self.events(),
            listener.capacity() == self.capacity(),
            self.next() <= listener.next() <= listener.events().len(),
    {
        NodeEventListener { rx: another_receiver(&self.rx) }
    }
}

/// `results` is what a receiver gives back on call after call, and `states` what becomes of it:
/// the state before each call, and the last.
pub open spec fn are_calls(
    states: Seq<broadcast::Receiver<NodeEvent>>,
    results: Seq<Result<NodeEvent, TryRecvError>>,
) -> bool {
    &&& states.len() == results.len() + 1
    &&& forall|i: int|
        #![trigger results[i]]
        0 <= i < results.len() ==> received(states[i], states[i + 1], results[i])
}

/// How far these results take a receiver: one event for each that was received, and those that it
/// was told to have missed.
pub open spec fn advance(results: Seq<Result<NodeEvent, TryRecvError>>) -> nat
    decreases results.len(),
{
    if results.len() == 0 {
        0
    } else {
        advance(results.drop_last()) + match results.last() {
            Ok(_) => 1,
            Err(TryRecvError::Lagged(missed)) => missed as nat,
            Err(_) => 0,
        }
    }
}

proof fn lemma_receivers_move_on(
    states: Seq<broadcast::Receiver<NodeEvent>>,
    results: Seq<Result<NodeEvent, TryRecvError>>,
    i: int,
    j: int,
)
    requires
        are_calls(states, results),
        0 <= i <= j < states.len(),
    ensures
        channel_events(states[j]) == channel_events(states[i]),
        position(states[j]) >= position(states[i]),
    decreases j - i,
{
    if i < j {
        lemma_receivers_move_on(states, results, i, j - 1);
        assert(received(states[j - 1], states[j], results[j - 1]));
    }
}

/// A listener receives events in the order in which they were published, and none twice: of two
/// events that it receives, the later one stands later among the events of the channel.
pub proof fn law_events_come_in_order(
    states: Seq<broadcast::Receiver<NodeEvent>>,
    results: Seq<Result<NodeEvent, TryRecvError>>,
    i: int,
    j: int,
)
    requires
        are_calls(states, results),
        0 <= i < j < results.len(),
        results[i] is Ok,
        results[j] is Ok,
    ensures
        position(states[i]) < position(states[j]) < channel_events(states[0]).len(),
        results[i] == Ok::<NodeEvent, TryRecvError>(
            channel_events(states[0])[position(states[i]) as int],
        ),
        results[j] == Ok::<NodeEvent, TryRecvError>(
            channel_events(states[0])[position(states[j]) as int],
        ),
{
    lemma_receivers_move_on(states, results, 0, i);
    lemma_receivers_move_on(states, results, 0, j);
    lemma_receivers_move_on(states, results, i + 1, j);
    assert(received(states[i], states[i + 1], results[i]));
    assert(received(states[j], states[j + 1], results[j]));
}

proof fn lemma_fewer_calls(
    states: Seq<broadcast::Receiver<NodeEvent>>,
    results: Seq<Result<NodeEvent, TryRecvError>>,
)
    requires
        are_calls(states, results),
        results.len() > 0,
    ensures
        are_calls(states.drop_last(), results.drop_last()),
        received(states[results.len() - 1], states.last(), results.last()),
{
    let last = results.len() - 1;
    assert(received(states[last], states[last + 1], results[last]));
    assert forall|i: int| 0 <= i < last implies received(
        states.drop_last()[i],
        states.drop_last()[i + 1],
        #[trigger] results.drop_last()[i],
    ) by {
        assert(results[i] == results.drop_last()[i]);
    }
}

/// A listener loses no event without being told: it moves on by the events that it receives and
/// those that it is told to have missed, and by no others.
pub proof fn law_lost_events_are_reported(
    states: Seq<broadcast::Receiver<NodeEvent>>,
    results: Seq<Result<NodeEvent, TryRecvError>>,
)
    requires
        are_calls(states, results),
    ensures
        position(states.last()) == position(states[0]) + advance(results),
    decreases results.len(),
{
    if results.len() > 0 {
        lemma_fewer_calls(states, results);
        law_lost_events_are_reported(states.drop_last(), results.drop_last());
    }
}

/// An event is lost to a listener only where as many later events as the channel keeps have been
/// published: `lost` is the place of an event that a listener is told to have missed.
pub proof fn law_events_are_lost_only_to_later_ones(
    before: broadcast::Receiver<NodeEvent>,
    after: broadcast::Receiver<NodeEvent>,
    missed: u64,
    lost: int,
)
    requires
        received(before, after, Err(TryRecvError::Lagged(missed))),
        position(before) <= lost < position(after),
    ensures
        lost + kept_events(before) < channel_events(before).len(),
{
}

/// The events among these results, in order.
pub open spec fn events_in(results: Seq<Result<NodeEvent, TryRecvError>>) -> Seq<NodeEvent>
    decreases results.len(),
{
    if results.len() == 0 {
        Seq::empty()
    } else {
        match results.last() {
            Ok(event) => events_in(results.drop_last()).push(event),
            Err(_) => events_in(results.drop_last()),
        }
    }
}

/// A listener after whose place no more events are published than the channel keeps loses none: it
/// receives them all, in order, as far as it has come, and it has come past the last when it is
/// told that the channel is closed.
pub proof fn law_listener_within_capacity_receives_everything(
    states: Seq<broadcast::Receiver<NodeEvent>>,
    results: Seq<Result<NodeEvent, TryRecvError>>,
)
    requires
        are_calls(states, results),
        position(states[0]) <= channel_events(states[0]).len() <= position(states[0])
            + kept_events(states[0]),
    ensures
        channel_events(states.last()) == channel_events(states[0]),
        kept_events(states.last()) == kept_events(states[0]),
        forall|i: int|
            0 <= i < results.len() ==> !(#[trigger] results[i] matches Err(TryRecvError::Lagged(_))),
        position(states[0]) <= position(states.last()) <= channel_events(states[0]).len(),
        events_in(results) == channel_events(states[0]).subrange(
            position(states[0]) as int,
            position(states.last()) as int,
        ),
        results.len() > 0 && results.last() == Err::<NodeEvent, TryRecvError>(TryRecvError::Closed)
            ==> position(states.last()) == channel_events(states[0]).len(),
    decreases results.len(),
{
    let first = position(states[0]) as int;
    let events = channel_events(states[0]);
    if results.len() > 0 {
        let last = results.len() - 1;
        lemma_fewer_calls(states, results);
        law_listener_within_capacity_receives_everything(states.drop_last(), results.drop_last());
        assert forall|i: int| 0 <= i < results.len() implies !(#[trigger] results[i] matches Err(
            TryRecvError::Lagged(_),
        )) by {
            if i < last {
                assert(results.drop_last()[i] == results[i]);
            }
        }
        if results.last() is Ok {
            let at = position(states[last]) as int;
            assert(events.subrange(first, at).push(events[at]) =~= events.subrange(first, at + 1));
        }
    } else {
        assert(events.subrange(first, first) =~= Seq::empty());
    }
}

/// An event that was sent reached as many listeners as the channel says, and one that was handed
/// back reached none.
pub proof fn law_reached(receivers: usize, event: NodeEvent)
    ensures
        reached(Ok(receivers)) == receivers,
        reached(Err(event)) == 0,
        NODE_EVENT_CHANNEL_CAPACITY == 256,
{
}

} // verus!
