//! The wire vocabulary of the relay: inbound requests from clients and
//! outbound responses from the server, together with their spec-level views.
//!
//! `sdp` payloads are opaque strings; `to` identifiers are supplied by the
//! client, `from` identifiers are filled in by the server and never trusted
//! from the client.

use vstd::prelude::*;

verus! {

/// Inbound: an offer to be forwarded to the connection named by `to`.
pub struct ClientOffer {
    pub to: String,
    pub sdp: String,
}

/// Inbound: an answer to be forwarded to the connection named by `to`.
pub struct ClientAnswer {
    pub to: String,
    pub sdp: String,
}

/// Inbound request: the closed set of messages a client may send.
pub enum ClientMessage {
    Answer(ClientAnswer),
    Offer(ClientOffer),
    GetMyID,
}

/// Outbound: an offer forwarded to its destination, stamped with the sender.
pub struct ServerOffer {
    pub from: String,
    pub sdp: String,
}

/// Outbound: an answer forwarded to its destination, stamped with the sender.
pub struct ServerAnswer {
    pub from: String,
    pub sdp: String,
}

/// Outbound: tells a connection its own identifier.
pub struct ID {
    pub id: String,
}

/// Outbound response: the closed set of messages the server may send.
pub enum ServerMessage {
    Answer(ServerAnswer),
    Offer(ServerOffer),
    ID(ID),
}

/// Spec-level image of `ClientOffer`.
pub struct ClientOfferView {
    pub to: Seq<char>,
    pub sdp: Seq<char>,
}

/// Spec-level image of `ClientAnswer`.
pub struct ClientAnswerView {
    pub to: Seq<char>,
    pub sdp: Seq<char>,
}

/// Spec-level image of `ClientMessage`.
pub enum ClientMessageView {
    Answer(ClientAnswerView),
    Offer(ClientOfferView),
    GetMyID,
}

/// Spec-level image of `ServerOffer`.
pub struct ServerOfferView {
    pub from: Seq<char>,
    pub sdp: Seq<char>,
}

/// Spec-level image of `ServerAnswer`.
pub struct ServerAnswerView {
    pub from: Seq<char>,
    pub sdp: Seq<char>,
}

/// Spec-level image of `ID`.
pub struct IDView {
    pub id: Seq<char>,
}

/// Spec-level image of `ServerMessage`.
pub enum ServerMessageView {
    Answer(ServerAnswerView),
    Offer(ServerOfferView),
    ID(IDView),
}

impl View for ClientOffer {
    type V = ClientOfferView;

    open spec fn view(&self) -> ClientOfferView {
        ClientOfferView { to: self.to@, sdp: self.sdp@ }
    }
}

impl View for ClientAnswer {
    type V = ClientAnswerView;

    open spec fn view(&self) -> ClientAnswerView {
        ClientAnswerView { to: self.to@, sdp: self.sdp@ }
    }
}

impl View for ClientMessage {
    type V = ClientMessageView;

    open spec fn view(&self) -> ClientMessageView {
        match self {
            ClientMessage::Answer(a) => ClientMessageView::Answer(a@),
            ClientMessage::Offer(o) => ClientMessageView::Offer(o@),
            ClientMessage::GetMyID => ClientMessageView::GetMyID,
        }
    }
}

impl View for ServerOffer {
    type V = ServerOfferView;

    open spec fn view(&self) -> ServerOfferView {
        ServerOfferView { from: self.from@, sdp: self.sdp@ }
    }
}

impl View for ServerAnswer {
    type V = ServerAnswerView;

    open spec fn view(&self) -> ServerAnswerView {
        ServerAnswerView { from: self.from@, sdp: self.sdp@ }
    }
}

impl View for ID {
    type V = IDView;

    open spec fn view(&self) -> IDView {
        IDView { id: self.id@ }
    }
}

impl View for ServerMessage {
    type V = ServerMessageView;

    open spec fn view(&self) -> ServerMessageView {
        match self {
            ServerMessage::Answer(a) => ServerMessageView::Answer(a@),
            ServerMessage::Offer(o) => ServerMessageView::Offer(o@),
            ServerMessage::ID(i) => ServerMessageView::ID(i@),
        }
    }
}

} // verus!
