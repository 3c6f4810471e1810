//! The router: a pure mapping from an inbound request plus the sender's
//! identity to the destination identifier and the outbound payload. No state,
//! no side effects; the `from` field of a forwarded payload is always the
//! sender's own identifier, never taken from the client.

use crate::messages::{
    ClientAnswer, ClientMessage, ClientMessageView, ClientOffer, IDView, ServerAnswer,
    ServerAnswerView, ServerMessage, ServerMessageView, ServerOffer, ServerOfferView, ID,
};
use vstd::prelude::*;

verus! {

/// What the router returns for each request: offers and answers go to the
/// client-named `to` with the sender stamped as `from`; a `GetMyID` is a
/// self-addressed `ID` response carrying the sender's own identifier.
pub open spec fn spec_route(m: ClientMessageView, sender: Seq<char>) -> (Seq<char>, ServerMessageView) {
    match m {
        ClientMessageView::Answer(a) => (
            a.to,
            ServerMessageView::Answer(ServerAnswerView { from: sender, sdp: a.sdp }),
        ),
        ClientMessageView::Offer(o) => (
            o.to,
            ServerMessageView::Offer(ServerOfferView { from: sender, sdp: o.sdp }),
        ),
        ClientMessageView::GetMyID => (sender, ServerMessageView::ID(IDView { id: sender })),
    }
}

/// Route one inbound request from the connection `socket_id`.
pub fn handle_client_message(value: ClientMessage, socket_id: String) -> (r: (String, ServerMessage))
    ensures
        (r.0@, r.1@) == spec_route(value@, socket_id@),
{
    match value {
        ClientMessage::Answer(answer) => handle_answer(answer, socket_id),
        ClientMessage::Offer(offer) => handle_offer(offer, socket_id),
        ClientMessage::GetMyID => handle_get_my_id(socket_id),
    }
}

/// Route an answer: destination is `answer.to`, payload carries the sender.
pub fn handle_answer(answer: ClientAnswer, socket_id: String) -> (r: (String, ServerMessage))
    ensures
        (r.0@, r.1@) == spec_route(ClientMessageView::Answer(answer@), socket_id@),
{
    (
        answer.to.clone(),
        ServerMessage::Answer(ServerAnswer { from: socket_id, sdp: answer.sdp }),
    )
}

/// Route an offer: destination is `offer.to`, payload carries the sender.
pub fn handle_offer(offer: ClientOffer, socket_id: String) -> (r: (String, ServerMessage))
    ensures
        (r.0@, r.1@) == spec_route(ClientMessageView::Offer(offer@), socket_id@),
{
    (
        offer.to.clone(),
        ServerMessage::Offer(ServerOffer { from: socket_id, sdp: offer.sdp }),
    )
}

/// Route a `GetMyID`: a self-addressed `ID` response with the sender's id.
pub fn handle_get_my_id(socket_id: String) -> (r: (String, ServerMessage))
    ensures
        (r.0@, r.1@) == spec_route(ClientMessageView::GetMyID, socket_id@),
{
    let destination = socket_id.clone();
    (destination, ServerMessage::ID(ID { id: socket_id }))
}

} // verus!
