use chat_relay::{decimal, welcome_payload, ChatServer, ClientMessage, Connect, Delivery, Disconnect};

fn count_to(out: &[Delivery], id: usize) -> usize {
    out.iter().filter(|d| d.to == id).count()
}

fn server_with(n: usize) -> ChatServer<u32> {
    let mut s: ChatServer<u32> = ChatServer::new();
    for h in 0..n {
        s.register(h as u32 + 100);
    }
    s
}

#[test]
fn ids_start_at_one_and_increase() {
    let mut s: ChatServer<&str> = ChatServer::new();
    let (a, _) = s.register("a");
    let (b, _) = s.register("b");
    let (c, _) = s.register("c");
    assert_eq!((a, b, c), (1, 2, 3));
}

#[test]
fn many_registrations_give_distinct_ids() {
    let mut s: ChatServer<usize> = ChatServer::default();
    let mut ids = Vec::new();
    for h in 0..50 {
        if h % 3 == 0 && !ids.is_empty() {
            s.unregister(ids[0]);
        }
        let (id, _) = s.register(h);
        ids.push(id);
    }
    let mut sorted = ids.clone();
    sorted.sort();
    sorted.dedup();
    assert_eq!(sorted.len(), 50);
}

#[test]
fn removed_ids_are_not_reused() {
    let mut s = server_with(2);
    s.unregister(2);
    let (id, _) = s.register(7);
    assert_eq!(id, 3);
}

#[test]
fn welcome_names_the_returned_id() {
    let mut s: ChatServer<u8> = ChatServer::new();
    for expected in 1..=12usize {
        let (id, welcome) = s.register(0);
        assert_eq!(id, expected);
        assert_eq!(welcome.to, id);
        assert_eq!(welcome.msg.0, format!("id:{}", id));
    }
}

#[test]
fn handle_connect_registers_the_handle() {
    let mut s: ChatServer<u32> = ChatServer::new();
    let (id, welcome) = s.handle_connect(Connect { addr: 42 });
    assert_eq!(id, 1);
    assert_eq!(welcome.msg.0, "id:1");
    assert_eq!(s.handle_of(1), Some(&42));
    assert_eq!(s.handle_of(2), None);
}

#[test]
fn decimal_notation() {
    assert_eq!(decimal(0), "0");
    assert_eq!(decimal(7), "7");
    assert_eq!(decimal(10), "10");
    assert_eq!(decimal(1234567890), "1234567890");
    assert_eq!(decimal(usize::MAX), usize::MAX.to_string());
    assert_eq!(welcome_payload(305), "id:305");
}

#[test]
fn hello_from_two_reaches_one_and_three() {
    let mut s: ChatServer<&str> = ChatServer::new();
    let (_, w1) = s.register("one");
    let (_, w2) = s.register("two");
    let (_, w3) = s.register("three");
    assert_eq!(w1.msg.0, "id:1");
    assert_eq!(w2.msg.0, "id:2");
    assert_eq!(w3.msg.0, "id:3");
    let out = s.handle_client_message(ClientMessage { id: 2, msg: "hello".to_string() });
    assert_eq!(out.len(), 2);
    assert_eq!(count_to(&out, 1), 1);
    assert_eq!(count_to(&out, 3), 1);
    assert_eq!(count_to(&out, 2), 0);
    assert!(out.iter().all(|d| d.msg.0 == "hello"));
}

#[test]
fn unregistered_session_gets_no_broadcast() {
    let mut s = server_with(3);
    s.unregister(2);
    assert!(!s.is_registered(2));
    let out = s.broadcast_except(1, "msg");
    assert_eq!(count_to(&out, 2), 0);
    assert_eq!(count_to(&out, 3), 1);
    assert_eq!(out.len(), 1);
}

#[test]
fn unregister_twice_is_unregister_once() {
    let mut once = server_with(3);
    once.unregister(2);
    let mut twice = server_with(3);
    twice.handle_disconnect(Disconnect { id: 2 });
    twice.handle_disconnect(Disconnect { id: 2 });
    for id in 0..6 {
        assert_eq!(once.is_registered(id), twice.is_registered(id));
    }
    assert_eq!(once.register(0).0, twice.register(0).0);
}

#[test]
fn unregister_of_unknown_id_is_a_no_op() {
    let mut s = server_with(2);
    s.unregister(9);
    assert!(s.is_registered(1));
    assert!(s.is_registered(2));
}

#[test]
fn empty_payload_is_still_broadcast() {
    let s = server_with(3);
    let out = s.broadcast_except(3, "");
    assert_eq!(out.len(), 2);
    assert_eq!(count_to(&out, 1), 1);
    assert_eq!(count_to(&out, 2), 1);
    assert!(out.iter().all(|d| d.msg.0.is_empty()));
}

#[test]
fn removal_before_or_after_broadcast() {
    let before = server_with(4);
    let out_before = before.broadcast_except(2, "m");
    let mut after = server_with(4);
    after.unregister(3);
    let out_after = after.broadcast_except(2, "m");
    for k in [1usize, 4] {
        assert_eq!(count_to(&out_before, k), 1);
        assert_eq!(count_to(&out_after, k), 1);
    }
    assert_eq!(count_to(&out_before, 3), 1);
    assert_eq!(count_to(&out_after, 3), 0);
    assert_eq!(count_to(&out_before, 2), 0);
    assert_eq!(count_to(&out_after, 2), 0);
}

#[test]
fn broadcast_from_unknown_sender_reaches_everyone() {
    let s = server_with(3);
    let out = s.broadcast_except(0, "x");
    assert_eq!(out.len(), 3);
}

#[test]
fn broadcast_on_empty_registry_is_empty() {
    let s: ChatServer<u8> = ChatServer::new();
    assert!(s.broadcast_except(1, "x").is_empty());
    assert!(s.can_register());
}

#[test]
fn send_message_addresses_one_session() {
    let s: ChatServer<u8> = ChatServer::new();
    let d = s.send_message("payload", 5);
    assert_eq!(d.to, 5);
    assert_eq!(d.msg.0, "payload");
}

#[test]
fn handle_is_gone_after_unregister() {
    let mut s = server_with(2);
    assert_eq!(s.handle_of(2), Some(&101));
    s.unregister(2);
    assert_eq!(s.handle_of(2), None);
    assert_eq!(s.handle_of(1), Some(&100));
}
