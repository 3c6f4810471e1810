//! The per-connection session steps: what one iteration of the receive loop
//! and one iteration of the send loop decide, with the registry as the only
//! state. Waiting on the wire — reading a frame, writing a frame, suspending
//! on an empty or full queue — is the transport's business and stays outside;
//! these functions take a frame in or hand a frame out as plain strings.

use crate::codec::{parse_client_message, serialize_server_message, spec_parse_client,
    spec_serialize_server};
use crate::messages::ServerMessage;
use crate::registry::{step, Command, ConnectionsHandler, DeliveryState};
use crate::router::{handle_client_message, spec_route};
use vstd::prelude::*;

verus! {

/// One receive-loop iteration: parse an inbound frame from the connection
/// `socket_id`, route it, and submit the one resulting `Route` command to the
/// registry. A malformed frame is dropped: the registry is untouched, no
/// response is produced, and the connection stays up.
pub fn session_handle_frame(
    registry: &mut ConnectionsHandler<ServerMessage>,
    socket_id: &String,
    frame: &str,
)
    requires
        old(registry).wf(),
    ensures
        final(registry).wf(),
        match spec_parse_client(frame@) {
            Some(request) => final(registry)@ == step(
                old(registry)@,
                Command::Route(
                    spec_route(request, socket_id@).0,
                    spec_route(request, socket_id@).1,
                ),
            ),
            None => final(registry)@ == old(registry)@,
        },
{
    match parse_client_message(frame) {
        Some(request) => {
            let (destination_id, message) = handle_client_message(request, socket_id.clone());
            registry.send_message(destination_id, message);
        },
        None => {
        },
    }
}

/// One send-loop iteration: take the oldest message routed to this
/// connection and not yet delivered, and hand back its frame text for the
/// transport to write. `None` when nothing is pending.
pub fn session_next_outgoing(
    registry: &mut ConnectionsHandler<ServerMessage>,
    socket_id: &String,
) -> (r: Option<String>)
    requires
        old(registry).wf(),
    ensures
        final(registry).wf(),
        match r {
            Some(frame) => old(registry)@.contains_key(socket_id@)
                && old(registry)@[socket_id@].queue.len() > 0
                && frame@ == spec_serialize_server(old(registry)@[socket_id@].queue[0])
                && final(registry)@ == old(registry)@.insert(
                    socket_id@,
                    (DeliveryState {
                        registered: old(registry)@[socket_id@].registered,
                        queue: old(registry)@[socket_id@].queue.drop_first(),
                    }),
                ),
            None => final(registry)@ == old(registry)@ && !(old(registry)@.contains_key(socket_id@)
                && old(registry)@[socket_id@].queue.len() > 0),
        },
{
    match registry.recv_message(socket_id) {
        Some(message) => Some(serialize_server_message(&message)),
        None => None,
    }
}

/// The lifecycle of one session. `Active` is the steady state with both
/// loops running; `Draining` begins when either loop exits and remembers
/// which, so that the deregistration side effect has exactly one owner.
#[derive(Clone, Copy, PartialEq, Eq, Structural, Debug)]
pub enum SessionState {
    Registering,
    Active,
    Draining { receive_exited: bool },
    Closed,
}

/// What can happen to a session: its registration command is accepted, or
/// one of its two loops exits.
#[derive(Clone, Copy, PartialEq, Eq, Structural, Debug)]
pub enum SessionEvent {
    Registered,
    SendLoopExited,
    ReceiveLoopExited,
}

/// The lifecycle transition: the state after an event, and whether this
/// event obliges the session to issue its `Deregister` command. Only the
/// receive loop's exit carries that obligation, so it is issued exactly once
/// however the two loops' exits interleave. An event that cannot occur in a
/// state changes nothing.
pub open spec fn spec_session_transition(state: SessionState, event: SessionEvent) -> (
    SessionState,
    bool,
) {
    match (state, event) {
        (SessionState::Registering, SessionEvent::Registered) => (SessionState::Active, false),
        (SessionState::Active, SessionEvent::SendLoopExited) => (
            SessionState::Draining { receive_exited: false },
            false,
        ),
        (SessionState::Active, SessionEvent::ReceiveLoopExited) => (
            SessionState::Draining { receive_exited: true },
            true,
        ),
        (SessionState::Draining { receive_exited: false }, SessionEvent::ReceiveLoopExited) => (
            SessionState::Closed,
            true,
        ),
        (SessionState::Draining { receive_exited: true }, SessionEvent::SendLoopExited) => (
            SessionState::Closed,
            false,
        ),
        _ => (state, false),
    }
}

/// Drive one lifecycle event. The second component of the result tells the
/// caller to issue this session's `Deregister` command now.
pub fn session_transition(state: SessionState, event: SessionEvent) -> (r: (SessionState, bool))
    ensures
        r == spec_session_transition(state, event),
{
    match (state, event) {
        (SessionState::Registering, SessionEvent::Registered) => (SessionState::Active, false),
        (SessionState::Active, SessionEvent::SendLoopExited) => (
            SessionState::Draining { receive_exited: false },
            false,
        ),
        (SessionState::Active, SessionEvent::ReceiveLoopExited) => (
            SessionState::Draining { receive_exited: true },
            true,
        ),
        (SessionState::Draining { receive_exited: false }, SessionEvent::ReceiveLoopExited) => (
            SessionState::Closed,
            true,
        ),
        (SessionState::Draining { receive_exited: true }, SessionEvent::SendLoopExited) => (
            SessionState::Closed,
            false,
        ),
        _ => (state, false),
    }
}

/// The state after a whole sequence of lifecycle events.
pub open spec fn run_session(state: SessionState, events: Seq<SessionEvent>) -> SessionState
    decreases events.len(),
{
    if events.len() == 0 {
        state
    } else {
        run_session(spec_session_transition(state, events[0]).0, events.drop_first())
    }
}

/// How many of the events oblige a deregistration, starting from `state`.
pub open spec fn deregistrations_in(state: SessionState, events: Seq<SessionEvent>) -> nat
    decreases events.len(),
{
    if events.len() == 0 {
        0
    } else {
        (if spec_session_transition(state, events[0]).1 {
            1nat
        } else {
            0nat
        }) + deregistrations_in(
            spec_session_transition(state, events[0]).0,
            events.drop_first(),
        )
    }
}

/// States that may still owe a deregistration; once the receive loop has
/// exited, none is ever owed again.
pub open spec fn may_still_deregister(state: SessionState) -> bool {
    match state {
        SessionState::Registering => true,
        SessionState::Active => true,
        SessionState::Draining { receive_exited } => !receive_exited,
        SessionState::Closed => false,
    }
}

proof fn lemma_deregistrations_bound(state: SessionState, events: Seq<SessionEvent>)
    ensures
        deregistrations_in(state, events) <= if may_still_deregister(state) {
            1nat
        } else {
            0nat
        },
    decreases events.len(),
{
    if events.len() > 0 {
        lemma_deregistrations_bound(spec_session_transition(state, events[0]).0, events.drop_first());
    }
}

/// One designated owner of the cleanup side effect: however a session's
/// lifecycle events interleave, it is never obliged to deregister twice, so
/// no route can race a stale second removal.
pub proof fn lemma_deregistration_at_most_once(events: Seq<SessionEvent>)
    ensures
        deregistrations_in(SessionState::Registering, events) <= 1,
{
    lemma_deregistrations_bound(SessionState::Registering, events);
}

/// Whichever loop exits first, the session reaches `Closed` and issues its
/// deregistration exactly once, from the receive loop's exit.
pub proof fn lemma_either_exit_order_closes_once()
    ensures
        run_session(
            SessionState::Registering,
            seq![
                SessionEvent::Registered,
                SessionEvent::SendLoopExited,
                SessionEvent::ReceiveLoopExited,
            ],
        ) == SessionState::Closed,
        deregistrations_in(
            SessionState::Registering,
            seq![
                SessionEvent::Registered,
                SessionEvent::SendLoopExited,
                SessionEvent::ReceiveLoopExited,
            ],
        ) == 1,
        run_session(
            SessionState::Registering,
            seq![
                SessionEvent::Registered,
                SessionEvent::ReceiveLoopExited,
                SessionEvent::SendLoopExited,
            ],
        ) == SessionState::Closed,
        deregistrations_in(
            SessionState::Registering,
            seq![
                SessionEvent::Registered,
                SessionEvent::ReceiveLoopExited,
                SessionEvent::SendLoopExited,
            ],
        ) == 1,
{
    reveal_with_fuel(run_session, 4);
    reveal_with_fuel(deregistrations_in, 4);
    let order_a = seq![
        SessionEvent::Registered,
        SessionEvent::SendLoopExited,
        SessionEvent::ReceiveLoopExited,
    ];
    let order_b = seq![
        SessionEvent::Registered,
        SessionEvent::ReceiveLoopExited,
        SessionEvent::SendLoopExited,
    ];
    assert(order_a.drop_first().drop_first().drop_first().len() == 0);
    assert(order_b.drop_first().drop_first().drop_first().len() == 0);
    assert(order_a.drop_first()[0] == SessionEvent::SendLoopExited);
    assert(order_a.drop_first().drop_first()[0] == SessionEvent::ReceiveLoopExited);
    assert(order_b.drop_first()[0] == SessionEvent::ReceiveLoopExited);
    assert(order_b.drop_first().drop_first()[0] == SessionEvent::SendLoopExited);
}

} // verus!
