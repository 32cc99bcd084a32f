use console_bridge::bridge::{Bridge, Route, NO_REPLY};
use console_bridge::fanout::Broadcaster;

fn s(x: &str) -> String {
    x.to_string()
}

#[test]
fn fan_out_reaches_every_subscriber_in_order() {
    let mut b = Broadcaster::new(4);
    let one = b.attach();
    let two = b.attach();
    for l in ["l1", "l2", "l3"] {
        b.publish(&s(l));
    }
    for id in [one, two] {
        assert_eq!(b.recv(id), Some(s("l1")));
        assert_eq!(b.recv(id), Some(s("l2")));
        assert_eq!(b.recv(id), Some(s("l3")));
        assert_eq!(b.recv(id), None);
        assert_eq!(b.lagged(id), 0);
    }
}

#[test]
fn slow_subscriber_lags_without_blocking() {
    let mut b = Broadcaster::new(2);
    let slow = b.attach();
    let fast = b.attach();
    for l in ["l1", "l2", "l3", "l4", "l5"] {
        b.publish(&s(l));
        assert_eq!(b.recv(fast), Some(s(l)));
    }
    assert_eq!(b.lagged(slow), 3);
    assert_eq!(b.lagged(fast), 0);
    assert_eq!(b.recv(slow), Some(s("l4")));
    assert_eq!(b.recv(slow), Some(s("l5")));
    b.publish(&s("l6"));
    assert_eq!(b.recv(slow), Some(s("l6")));
}

#[test]
fn detached_subscriber_gets_nothing() {
    let mut b = Broadcaster::new(2);
    let id = b.attach();
    assert!(b.has_subscribers());
    b.detach(id);
    assert!(!b.has_subscribers());
    b.publish(&s("x"));
    assert_eq!(b.recv(id), None);
    assert_eq!(b.recv(99), None);
}

#[test]
fn detached_slot_is_reused() {
    let mut b = Broadcaster::new(2);
    let a = b.attach();
    let c = b.attach();
    b.publish(&s("old"));
    b.detach(a);
    assert_eq!(b.attach(), a);
    assert_eq!(b.recv(a), None);
    assert_eq!(b.recv(c), Some(s("old")));
    assert_eq!(b.attach(), 2);
}

#[test]
fn reply_is_next_chunk_after_request() {
    let mut b = Bridge::new(8);
    let viewer = b.subscribe();
    assert_eq!(b.route(&s("before")), Route::Relayed);
    let ticket = b.begin_request(u64::MAX);
    assert_eq!(b.skip_count(), 1);
    assert_eq!(b.take_reply(ticket), None);
    assert_eq!(b.route(&s("57 TPS / 274 MB / 7 PLAYERS")), Route::Diverted);
    assert_eq!(b.skip_count(), 0);
    assert_eq!(b.route(&s("after")), Route::Relayed);
    assert_eq!(b.take_reply(ticket), Some(s("57 TPS / 274 MB / 7 PLAYERS")));
    assert_eq!(b.take_reply(ticket), None);
    assert_eq!(b.recv(viewer), Some(s("before")));
    assert_eq!(b.recv(viewer), Some(s("after")));
    assert_eq!(b.recv(viewer), None);
}

#[test]
fn concurrent_requests_take_blocks_in_arrival_order() {
    let mut b = Bridge::new(8);
    let viewer = b.subscribe();
    let first = b.begin_request(u64::MAX);
    let second = b.begin_request(u64::MAX);
    assert_ne!(first, second);
    assert_eq!(b.route(&s("block one")), Route::Diverted);
    assert_eq!(b.route(&s("block two")), Route::Diverted);
    assert_eq!(b.route(&s("chat")), Route::Relayed);
    assert_eq!(b.take_reply(first), Some(s("block one")));
    assert_eq!(b.take_reply(second), Some(s("block two")));
    assert_eq!(b.recv(viewer), Some(s("chat")));
    assert_eq!(b.recv(viewer), None);
}

#[test]
fn cancelled_request_owes_nothing() {
    let mut b = Bridge::new(8);
    let viewer = b.subscribe();
    let ticket = b.begin_request(u64::MAX);
    b.cancel_request(ticket);
    assert_eq!(b.skip_count(), 0);
    assert_eq!(b.route(&s("line")), Route::Relayed);
    assert_eq!(b.recv(viewer), Some(s("line")));
    assert_eq!(b.take_reply(ticket), None);
}

#[test]
fn cancelling_the_middle_ticket_keeps_the_order() {
    let mut b = Bridge::new(8);
    let one = b.begin_request(u64::MAX);
    let two = b.begin_request(u64::MAX);
    let three = b.begin_request(u64::MAX);
    b.cancel_request(two);
    assert_eq!(b.route(&s("a")), Route::Diverted);
    assert_eq!(b.route(&s("b")), Route::Diverted);
    assert_eq!(b.take_reply(one), Some(s("a")));
    assert_eq!(b.take_reply(three), Some(s("b")));
    assert_eq!(b.begin_request(u64::MAX), one);
}

#[test]
fn overdue_requests_get_no_reply() {
    let mut b = Bridge::new(8);
    let early = b.begin_request(100);
    let late = b.begin_request(5000);
    b.expire(99);
    assert_eq!(b.take_reply(early), None);
    b.expire(100);
    assert_eq!(b.take_reply(early), Some(s(NO_REPLY)));
    assert_eq!(b.skip_count(), 1);
    assert_eq!(b.route(&s("reply")), Route::Diverted);
    assert_eq!(b.take_reply(late), Some(s("reply")));
}

#[test]
fn reconnection_keeps_subscribers_and_releases_waiters() {
    let mut b = Bridge::new(8);
    let viewer = b.subscribe();
    b.route(&s("L1"));
    b.route(&s("L2"));
    let ticket = b.begin_request(u64::MAX);
    let other = b.begin_request(u64::MAX);
    b.end_epoch();
    assert_eq!(b.take_reply(ticket), Some(s(NO_REPLY)));
    assert_eq!(b.take_reply(other), Some(s(NO_REPLY)));
    assert_eq!(b.route(&s("L3")), Route::Relayed);
    assert_eq!(b.recv(viewer), Some(s("L1")));
    assert_eq!(b.recv(viewer), Some(s("L2")));
    assert_eq!(b.recv(viewer), Some(s("L3")));
    assert!(b.has_subscribers());
    assert_eq!(b.lagged(viewer), 0);
}

#[test]
fn unsubscribed_viewer_misses_later_lines() {
    let mut b = Bridge::new(8);
    let viewer = b.subscribe();
    b.unsubscribe(viewer);
    b.route(&s("x"));
    assert_eq!(b.recv(viewer), None);
}
