//! The node-event channel.

use cuprate_core::events::{
    listeners_reached, NodeEvent, NodeEventSender, TryRecvError, NODE_EVENT_CHANNEL_CAPACITY,
};

fn new_block(height: usize) -> NodeEvent {
    NodeEvent::NewBlock { height, hash: [height as u8; 32] }
}

#[test]
fn events_are_received_in_order() {
    let sender = NodeEventSender::new();
    let mut listener = sender.subscribe();
    let reorg =
        NodeEvent::Reorg { split_height: 1, new_top_hash: [9; 32], new_chain_height: 3 };

    sender.send(new_block(1));
    sender.clone().send(reorg.clone());

    assert_eq!(listener.try_recv(), Ok(new_block(1)));
    assert_eq!(listener.try_recv(), Ok(reorg));
    assert_eq!(listener.try_recv(), Err(TryRecvError::Empty));
}

#[test]
fn send_without_listeners_is_no_error() {
    let sender = NodeEventSender::new();
    sender.send(new_block(1));
    assert_eq!(sender.publish(new_block(2)), 0);

    let mut listener = sender.subscribe();
    assert_eq!(listener.try_recv(), Err(TryRecvError::Empty));
}

#[test]
fn publish_counts_the_listeners() {
    let sender = NodeEventSender::new();
    let mut first = sender.subscribe();
    let mut second = sender.subscribe();

    assert_eq!(sender.publish(new_block(5)), 2);
    assert_eq!(first.try_recv(), Ok(new_block(5)));
    assert_eq!(second.try_recv(), Ok(new_block(5)));
}

#[test]
fn event_that_is_handed_back_reached_nobody() {
    assert_eq!(listeners_reached(&Ok(3)), 3);
    assert_eq!(listeners_reached(&Err(new_block(1))), 0);
}

#[test]
fn subscriptions_look_forward() {
    let sender = NodeEventSender::new();
    let mut early = sender.subscribe();
    sender.send(new_block(1));
    let mut late = sender.subscribe();
    let mut again = early.resubscribe();
    sender.send(new_block(2));

    assert_eq!(early.try_recv(), Ok(new_block(1)));
    assert_eq!(early.try_recv(), Ok(new_block(2)));
    assert_eq!(late.try_recv(), Ok(new_block(2)));
    assert_eq!(again.try_recv(), Ok(new_block(2)));
}

#[test]
fn slow_listeners_are_told_what_they_missed() {
    let sender = NodeEventSender::new();
    let mut listener = sender.subscribe();
    for height in 0..NODE_EVENT_CHANNEL_CAPACITY + 3 {
        sender.send(new_block(height));
    }

    assert_eq!(listener.try_recv(), Err(TryRecvError::Lagged(3)));
    for height in 3..NODE_EVENT_CHANNEL_CAPACITY + 3 {
        assert_eq!(listener.try_recv(), Ok(new_block(height)));
    }
    assert_eq!(listener.try_recv(), Err(TryRecvError::Empty));
}

#[test]
fn full_channel_loses_nothing() {
    let sender = NodeEventSender::new();
    let mut listener = sender.subscribe();
    for height in 0..NODE_EVENT_CHANNEL_CAPACITY {
        sender.send(new_block(height));
    }

    assert_eq!(NODE_EVENT_CHANNEL_CAPACITY, 256);
    assert_eq!(listener.try_recv(), Ok(new_block(0)));
}

#[test]
fn listeners_learn_that_the_channel_is_closed() {
    let sender = NodeEventSender::new();
    let mut listener = sender.subscribe();
    sender.send(new_block(4));
    drop(sender);

    assert_eq!(listener.try_recv(), Ok(new_block(4)));
    assert_eq!(listener.try_recv(), Err(TryRecvError::Closed));
}

#[test]
fn new_listener_receives_what_is_sent_after_it() {
    let sender = NodeEventSender::new();
    let keep = sender.subscribe();
    sender.send(new_block(1));
    let mut listener = sender.subscribe();
    for height in 0..NODE_EVENT_CHANNEL_CAPACITY {
        sender.clone().send(new_block(height));
    }
    drop(sender);
    drop(keep);

    for height in 0..NODE_EVENT_CHANNEL_CAPACITY {
        assert_eq!(listener.try_recv(), Ok(new_block(height)));
    }
    assert_eq!(listener.try_recv(), Err(TryRecvError::Closed));
    assert_eq!(listener.try_recv(), Err(TryRecvError::Closed));
}
