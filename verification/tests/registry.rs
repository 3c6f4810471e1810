use signaling_relay::registry::ConnectionsHandler;

#[test]
fn can_handle_a_connection() {
    let mut connections: ConnectionsHandler<String> = ConnectionsHandler::new();

    // Create a connection
    let id = connections.create_connection();

    // Send message
    connections.send_message(id.clone(), String::from("hello"));

    // Verify message received
    assert_eq!(connections.recv_message(&id).unwrap(), String::from("hello"));
}

#[test]
fn can_handle_multiple_connections() {
    let mut connections: ConnectionsHandler<String> = ConnectionsHandler::new();

    // Create two connections
    let id1 = connections.create_connection();
    let id2 = connections.create_connection();

    // Send messages to both connections
    connections.send_message(id1.clone(), String::from("hello1"));
    connections.send_message(id2.clone(), String::from("hello2"));

    // Verify messages are received by correct receivers
    assert_eq!(connections.recv_message(&id1).unwrap(), String::from("hello1"));
    assert_eq!(connections.recv_message(&id2).unwrap(), String::from("hello2"));
}

#[test]
fn messages_preserve_order() {
    let mut connections: ConnectionsHandler<i32> = ConnectionsHandler::new();
    let id = connections.create_connection();

    // Send multiple messages
    for i in 0..5 {
        connections.send_message(id.clone(), i);
    }

    // Verify messages are received in order
    for i in 0..5 {
        assert_eq!(connections.recv_message(&id).expect("Could no receive channel message"), i);
    }
}

#[test]
fn nonexistent_id_message_is_ignored() {
    let mut connections: ConnectionsHandler<String> = ConnectionsHandler::new();

    // Send message to nonexistent connection
    connections.send_message(String::from("nonexistent"), String::from("hello"));

    // If we got here without panicking, the test passes; nothing was delivered
    assert!(connections.recv_message(&String::from("nonexistent")).is_none());
}

#[test]
fn can_handle_multiple_messages_multiple_connections() {
    let mut connections: ConnectionsHandler<String> = ConnectionsHandler::new();

    // Create three connections
    let id1 = connections.create_connection();
    let id2 = connections.create_connection();
    let id3 = connections.create_connection();

    // Send multiple messages to each connection
    for i in 0..3 {
        connections.send_message(id1.clone(), format!("conn1-msg-{}", i));
        connections.send_message(id2.clone(), format!("conn2-msg-{}", i));
        connections.send_message(id3.clone(), format!("conn3-msg-{}", i));
    }

    // Verify all messages are received in order for each connection
    for i in 0..3 {
        assert_eq!(connections.recv_message(&id1).unwrap(), format!("conn1-msg-{}", i));
        assert_eq!(connections.recv_message(&id2).unwrap(), format!("conn2-msg-{}", i));
        assert_eq!(connections.recv_message(&id3).unwrap(), format!("conn3-msg-{}", i));
    }
}

#[test]
fn connection_ids_have_uuid_length() {
    let mut connections: ConnectionsHandler<String> = ConnectionsHandler::new();
    let id = connections.create_connection();
    assert_eq!(id.chars().count(), 36);
}

#[test]
fn per_destination_order_survives_interleaving() {
    let mut connections: ConnectionsHandler<String> = ConnectionsHandler::new();
    let a = connections.create_connection();
    let b = connections.create_connection();

    // Routes to a and b interleaved, as two callers racing would produce
    connections.send_message(a.clone(), String::from("a-first"));
    connections.send_message(b.clone(), String::from("b-first"));
    connections.send_message(a.clone(), String::from("a-second"));
    connections.send_message(b.clone(), String::from("b-second"));

    assert_eq!(connections.recv_message(&a).unwrap(), "a-first");
    assert_eq!(connections.recv_message(&a).unwrap(), "a-second");
    assert!(connections.recv_message(&a).is_none());
    assert_eq!(connections.recv_message(&b).unwrap(), "b-first");
    assert_eq!(connections.recv_message(&b).unwrap(), "b-second");
}

#[test]
fn register_then_route_round_trip() {
    for n in [0usize, 1, 5, 1000] {
        let mut connections: ConnectionsHandler<String> = ConnectionsHandler::new();
        let id = connections.create_connection();
        for i in 0..n {
            connections.send_message(id.clone(), format!("msg-{}", i));
        }
        for i in 0..n {
            assert_eq!(connections.recv_message(&id).unwrap(), format!("msg-{}", i));
        }
        assert!(connections.recv_message(&id).is_none());
    }
}

#[test]
fn deregister_then_route_is_noop() {
    let mut connections: ConnectionsHandler<String> = ConnectionsHandler::new();
    let id = connections.create_connection();
    connections.send_message(id.clone(), String::from("before"));
    connections.remove_connection(id.clone());

    // Routing after deregistration delivers nothing, as if never registered;
    // what was already queued stays drainable by the consumer
    connections.send_message(id.clone(), String::from("after"));
    assert_eq!(connections.recv_message(&id).unwrap(), "before");
    assert!(connections.recv_message(&id).is_none());
}

#[test]
fn deregistration_leaves_queue_drainable() {
    let mut connections: ConnectionsHandler<String> = ConnectionsHandler::new();
    let id = connections.create_connection();
    connections.send_message(id.clone(), String::from("first"));
    connections.send_message(id.clone(), String::from("second"));
    connections.remove_connection(id.clone());

    // The send loop still drains in order what was routed before the
    // deregistration, then sees the end of its queue
    assert_eq!(connections.recv_message(&id).unwrap(), "first");
    assert_eq!(connections.recv_message(&id).unwrap(), "second");
    assert!(connections.recv_message(&id).is_none());
}

#[test]
fn reregistration_is_last_write_wins() {
    let mut registry: ConnectionsHandler<String> = ConnectionsHandler::new();
    let id = registry.create_connection();
    registry.send_message(id.clone(), String::from("stale"));
    registry.register(id.clone());

    // The overwriting registration starts from an empty queue
    assert!(registry.recv_message(&id).is_none());
    registry.send_message(id.clone(), String::from("fresh"));
    assert_eq!(registry.recv_message(&id).unwrap(), "fresh");
}
