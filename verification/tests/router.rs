use tictactoe_server::router::{Channel, Delivery, Router};

fn message(d: Delivery) -> String {
    match d {
        Delivery::Message(s) => s,
        other => panic!("expected a message, found {:?}", other),
    }
}

#[test]
fn channels_are_numbered_in_order_of_opening() {
    let mut router = Router::new();
    assert_eq!(router.open(), Channel { id: 0 });
    assert_eq!(router.open(), Channel { id: 1 });
    assert_eq!(router.open(), Channel { id: 2 });
    assert_eq!(router.queues.len(), 3);
}

#[test]
fn messages_to_one_channel_arrive_in_the_order_sent() {
    let mut router = Router::new();
    let c = router.open();
    for i in 0..50 {
        router.send(c, format!("message {}", i));
    }
    assert_eq!(router.waiting(c), 50);
    for i in 0..50 {
        assert_eq!(message(router.recv(c)), format!("message {}", i));
    }
    assert!(matches!(router.recv(c), Delivery::Idle));
    assert_eq!(router.waiting(c), 0);
}

#[test]
fn order_holds_across_receives_in_between() {
    let mut router = Router::new();
    let c = router.open();
    router.send(c, "one".to_string());
    router.send(c, "two".to_string());
    assert_eq!(message(router.recv(c)), "one");
    router.send(c, "three".to_string());
    assert_eq!(message(router.recv(c)), "two");
    assert_eq!(message(router.recv(c)), "three");
    assert!(matches!(router.recv(c), Delivery::Idle));
}

#[test]
fn channels_do_not_mix() {
    let mut router = Router::new();
    let a = router.open();
    let b = router.open();
    router.send(a, "for a, first".to_string());
    router.send(b, "for b".to_string());
    router.send(a, "for a, second".to_string());
    assert_eq!(message(router.recv(b)), "for b");
    assert!(matches!(router.recv(b), Delivery::Idle));
    assert_eq!(message(router.recv(a)), "for a, first");
    assert_eq!(message(router.recv(a)), "for a, second");
}

#[test]
fn open_channel_without_messages_is_idle() {
    let mut router = Router::new();
    let c = router.open();
    assert!(router.is_open(c));
    assert!(matches!(router.recv(c), Delivery::Idle));
    assert!(matches!(router.recv(c), Delivery::Idle));
}

#[test]
fn unknown_channel_is_closed_and_drops_what_is_sent() {
    let mut router = Router::new();
    let stranger = Channel { id: 7 };
    assert!(!router.is_open(stranger));
    router.send(stranger, "lost".to_string());
    assert_eq!(router.waiting(stranger), 0);
    assert!(matches!(router.recv(stranger), Delivery::Closed));
    assert!(router.queues.is_empty());
}

#[test]
fn closed_channel_hands_out_what_waits_and_then_ends() {
    let mut router = Router::new();
    let c = router.open();
    router.send(c, "before".to_string());
    router.close(c);
    assert!(!router.is_open(c));
    router.send(c, "after".to_string());
    assert_eq!(router.waiting(c), 1);
    assert_eq!(message(router.recv(c)), "before");
    assert!(matches!(router.recv(c), Delivery::Closed));
}

#[test]
fn closing_one_channel_leaves_the_others_open() {
    let mut router = Router::new();
    let a = router.open();
    let b = router.open();
    router.close(a);
    router.close(Channel { id: 99 });
    router.send(b, "still here".to_string());
    assert!(router.is_open(b));
    assert_eq!(message(router.recv(b)), "still here");
    assert!(matches!(router.recv(a), Delivery::Closed));
}
