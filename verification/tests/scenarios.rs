//! End-to-end scenarios over the verified core: each client connection is a
//! registry entry, an inbound frame goes through one receive-loop step, and
//! an outbound frame comes from one send-loop step.

use signaling_relay::messages::ServerMessage;
use signaling_relay::registry::ConnectionsHandler;
use signaling_relay::session::{
    session_handle_frame, session_next_outgoing, session_transition, SessionEvent, SessionState,
};

#[test]
fn get_my_id_returns_assigned_identifier() {
    let mut registry: ConnectionsHandler<ServerMessage> = ConnectionsHandler::new();
    let id = registry.create_connection();

    session_handle_frame(&mut registry, &id, "{\"type\":\"GetMyID\"}");

    let frame = session_next_outgoing(&mut registry, &id).expect("no ID response");
    assert_eq!(frame, format!("{{\"type\":\"ID\",\"id\":\"{}\"}}", id));
    assert!(session_next_outgoing(&mut registry, &id).is_none());
}

#[test]
fn offer_reaches_peer_stamped_with_sender_id() {
    let mut registry: ConnectionsHandler<ServerMessage> = ConnectionsHandler::new();

    // Client A connects and learns its id
    let a_id = registry.create_connection();
    session_handle_frame(&mut registry, &a_id, "{\"type\":\"GetMyID\"}");
    let a_learned = session_next_outgoing(&mut registry, &a_id).expect("no ID response");
    assert_eq!(a_learned, format!("{{\"type\":\"ID\",\"id\":\"{}\"}}", a_id));

    // Client B connects and offers to A by A's id
    let b_id = registry.create_connection();
    let offer = format!("{{\"type\":\"Offer\",\"to\":\"{}\",\"sdp\":\"x\"}}", a_id);
    session_handle_frame(&mut registry, &b_id, &offer);

    // A receives exactly the offer, stamped with B's id
    let frame = session_next_outgoing(&mut registry, &a_id).expect("no forwarded offer");
    assert_eq!(frame, format!("{{\"type\":\"Offer\",\"from\":\"{}\",\"sdp\":\"x\"}}", b_id));
    assert!(session_next_outgoing(&mut registry, &a_id).is_none());
    assert!(session_next_outgoing(&mut registry, &b_id).is_none());
}

#[test]
fn offer_to_unknown_id_is_dropped_and_connection_survives() {
    let mut registry: ConnectionsHandler<ServerMessage> = ConnectionsHandler::new();
    let id = registry.create_connection();

    session_handle_frame(
        &mut registry,
        &id,
        "{\"type\":\"Offer\",\"to\":\"nonexistent-id\",\"sdp\":\"x\"}",
    );

    // Nothing was delivered anywhere, and the sender still works
    assert!(session_next_outgoing(&mut registry, &id).is_none());
    session_handle_frame(&mut registry, &id, "{\"type\":\"GetMyID\"}");
    let frame = session_next_outgoing(&mut registry, &id).expect("no ID response");
    assert_eq!(frame, format!("{{\"type\":\"ID\",\"id\":\"{}\"}}", id));
}

#[test]
fn session_lifecycle_deregisters_once_whichever_loop_exits_first() {
    // Receive loop exits first: its exit carries the deregistration
    let (state, deregister) =
        session_transition(SessionState::Registering, SessionEvent::Registered);
    assert_eq!(state, SessionState::Active);
    assert!(!deregister);
    let (state, deregister) = session_transition(state, SessionEvent::ReceiveLoopExited);
    assert_eq!(state, SessionState::Draining { receive_exited: true });
    assert!(deregister);
    let (state, deregister) = session_transition(state, SessionEvent::SendLoopExited);
    assert_eq!(state, SessionState::Closed);
    assert!(!deregister);

    // Send loop exits first: the deregistration still comes from the
    // receive loop's exit, and only then
    let (state, _) = session_transition(SessionState::Registering, SessionEvent::Registered);
    let (state, deregister) = session_transition(state, SessionEvent::SendLoopExited);
    assert_eq!(state, SessionState::Draining { receive_exited: false });
    assert!(!deregister);
    let (state, deregister) = session_transition(state, SessionEvent::ReceiveLoopExited);
    assert_eq!(state, SessionState::Closed);
    assert!(deregister);
}

#[test]
fn malformed_frame_is_dropped_and_connection_survives() {
    let mut registry: ConnectionsHandler<ServerMessage> = ConnectionsHandler::new();
    let id = registry.create_connection();

    session_handle_frame(&mut registry, &id, "{\"type\":\"GetMyID\"");
    session_handle_frame(&mut registry, &id, "not json");

    // No response was produced for the malformed frames
    assert!(session_next_outgoing(&mut registry, &id).is_none());

    // A well-formed request on the same connection still succeeds
    session_handle_frame(&mut registry, &id, "{\"type\":\"GetMyID\"}");
    let frame = session_next_outgoing(&mut registry, &id).expect("no ID response");
    assert_eq!(frame, format!("{{\"type\":\"ID\",\"id\":\"{}\"}}", id));
}
