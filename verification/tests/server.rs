use bytes::Bytes;
use resp_server::cmd::response::count_reply;
use resp_server::frame::Frame;
use resp_server::pubsub::{fan_out, Mailbox, Registry, Subscriber, Subscriptions};
use resp_server::server::{Permits, Shutdown};

#[test]
fn permits_hold_back_the_connection_beyond_the_limit() {
    let mut p = Permits::new(3);
    assert_eq!(p.available(), 3);
    assert!(p.try_acquire());
    assert!(p.try_acquire());
    assert!(p.try_acquire());
    assert_eq!(p.available(), 0);
    assert!(!p.try_acquire());
    assert!(!p.try_acquire());
    assert!(p.release());
    assert_eq!(p.available(), 1);
    assert!(p.try_acquire());
    assert!(!p.try_acquire());
}

#[test]
fn permits_release_nothing_that_is_not_out() {
    let mut p = Permits::new(1);
    assert!(!p.release());
    assert_eq!(p.available(), 1);
    let mut none = Permits::new(0);
    assert!(!none.try_acquire());
}

#[test]
fn shutdown_is_given_once_and_completes_when_all_tasks_are_done() {
    let mut s = Shutdown::new();
    assert!(!s.is_shutdown());
    assert!(!s.is_complete());
    assert!(s.task_started());
    assert!(s.task_started());
    s.notify_shutdown();
    assert!(s.is_shutdown());
    assert!(!s.is_complete());
    assert!(!s.task_started());
    s.notify_shutdown();
    assert!(s.is_shutdown());
    s.task_finished();
    assert!(!s.is_complete());
    s.task_finished();
    assert!(s.is_complete());
    s.task_finished();
    assert!(s.is_complete());
}

#[test]
fn publish_reaches_every_subscriber_of_the_channel() {
    let mut r = Registry::new();
    assert_eq!(r.receivers("ch"), 0);
    assert!(r.subscribe("ch"));
    assert!(r.subscribe("ch"));
    assert!(r.subscribe("other"));
    assert_eq!(r.receivers("ch"), 2);
    assert_eq!(r.receivers("other"), 1);
    assert_eq!(r.receivers("CH"), 0);
}

#[test]
fn channel_without_subscribers_has_no_receivers() {
    let mut r = Registry::new();
    assert!(r.subscribe("ch"));
    assert!(r.subscribe("ch"));
    assert!(r.subscribe("keep"));
    assert!(r.unsubscribe("ch"));
    assert_eq!(r.receivers("ch"), 1);
    assert!(r.unsubscribe("ch"));
    assert_eq!(r.receivers("ch"), 0);
    assert!(!r.unsubscribe("ch"));
    assert_eq!(r.receivers("keep"), 1);
    assert!(r.subscribe("ch"));
    assert_eq!(r.receivers("ch"), 1);
    assert!(!r.unsubscribe("never"));
}

#[test]
fn two_subscribers_both_see_the_message_in_order() {
    let mut r = Registry::new();
    assert!(r.subscribe("ch"));
    assert!(r.subscribe("ch"));
    let mut first = Mailbox::new(4);
    let mut second = Mailbox::new(4);
    let earlier = Bytes::copy_from_slice(b"earlier");
    let hello = Bytes::copy_from_slice(b"hello");
    for message in [earlier.clone(), hello.clone()] {
        assert_eq!(count_reply(r.receivers("ch")), Frame::Integer(2));
        assert!(!first.deliver(message.clone()));
        assert!(!second.deliver(message));
    }
    assert_eq!(first.take(), Some(earlier.clone()));
    assert_eq!(first.take(), Some(hello.clone()));
    assert_eq!(first.take(), None);
    assert_eq!(second.take(), Some(earlier));
    assert_eq!(second.take(), Some(hello));
    assert_eq!(second.take(), None);
}

#[test]
fn full_mailbox_drops_its_oldest_message() {
    let mut m = Mailbox::new(2);
    assert!(!m.deliver(Bytes::copy_from_slice(b"1")));
    assert!(!m.deliver(Bytes::copy_from_slice(b"2")));
    assert_eq!(m.len(), 2);
    assert!(m.deliver(Bytes::copy_from_slice(b"3")));
    assert_eq!(m.len(), 2);
    assert_eq!(m.take(), Some(Bytes::copy_from_slice(b"2")));
    assert!(!m.deliver(Bytes::copy_from_slice(b"4")));
    assert_eq!(m.take(), Some(Bytes::copy_from_slice(b"3")));
    assert_eq!(m.take(), Some(Bytes::copy_from_slice(b"4")));
    assert_eq!(m.take(), None);
    assert_eq!(m.len(), 0);
}

#[test]
fn connection_that_closes_releases_its_channels() {
    let mut registry = Registry::new();
    let mut one = Subscriptions::new();
    let mut two = Subscriptions::new();
    assert!(one.is_empty());
    assert!(one.subscribe("a", &mut registry));
    assert!(one.subscribe("b", &mut registry));
    assert!(!one.subscribe("a", &mut registry));
    assert!(two.subscribe("a", &mut registry));
    assert!(!one.is_empty());
    assert_eq!(registry.receivers("a"), 2);
    assert_eq!(registry.receivers("b"), 1);
    assert!(!two.unsubscribe("b", &mut registry));
    assert_eq!(registry.receivers("b"), 1);
    assert!(two.unsubscribe("a", &mut registry));
    assert!(two.is_empty());
    assert_eq!(registry.receivers("a"), 1);
    assert_eq!(one.unsubscribe_all(&mut registry), vec!["b".to_string(), "a".to_string()]);
    assert!(one.is_empty());
    assert_eq!(registry.receivers("a"), 0);
    assert_eq!(registry.receivers("b"), 0);
    assert!(one.unsubscribe_all(&mut registry).is_empty());
}

#[test]
fn publish_hands_the_message_to_each_subscriber_of_the_channel_once() {
    let mut receivers = vec![
        Subscriber::new("ch", 4),
        Subscriber::new("other", 4),
        Subscriber::new("ch", 4),
    ];
    let m1 = Bytes::copy_from_slice(b"m1");
    let hello = Bytes::copy_from_slice(b"hello");
    assert!(receivers[0].listens_on("ch"));
    assert!(!receivers[1].listens_on("ch"));
    assert_eq!(fan_out(&mut receivers, "ch", &m1), 2);
    assert_eq!(fan_out(&mut receivers, "ch", &hello), 2);
    assert_eq!(fan_out(&mut receivers, "nobody", &hello), 0);
    assert_eq!(fan_out(&mut receivers, "other", &hello), 1);
    assert_eq!(receivers[0].take(), Some(m1.clone()));
    assert_eq!(receivers[0].take(), Some(hello.clone()));
    assert_eq!(receivers[0].take(), None);
    assert_eq!(receivers[2].take(), Some(m1));
    assert_eq!(receivers[2].take(), Some(hello.clone()));
    assert_eq!(receivers[2].take(), None);
    assert_eq!(receivers[1].take(), Some(hello));
    assert_eq!(receivers[1].take(), None);
    let mut none: Vec<Subscriber> = Vec::new();
    assert_eq!(fan_out(&mut none, "ch", &Bytes::new()), 0);
}

#[test]
fn slow_subscriber_loses_its_oldest_message_and_holds_nobody_back() {
    let mut receivers = vec![Subscriber::new("ch", 2), Subscriber::new("ch", 3)];
    for word in ["1", "2", "3"] {
        assert_eq!(fan_out(&mut receivers, "ch", &Bytes::copy_from_slice(word.as_bytes())), 2);
    }
    assert_eq!(receivers[0].take(), Some(Bytes::copy_from_slice(b"2")));
    assert_eq!(receivers[0].take(), Some(Bytes::copy_from_slice(b"3")));
    assert_eq!(receivers[0].take(), None);
    assert_eq!(receivers[1].take(), Some(Bytes::copy_from_slice(b"1")));
    assert_eq!(receivers[1].take(), Some(Bytes::copy_from_slice(b"2")));
    assert_eq!(receivers[1].take(), Some(Bytes::copy_from_slice(b"3")));
}
