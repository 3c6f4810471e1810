use signaling_relay::messages::{ClientAnswer, ClientMessage, ClientOffer, ServerMessage};
use signaling_relay::router::handle_client_message;

#[test]
fn routes_offer_to_named_peer_stamped_with_sender() {
    let request = ClientMessage::Offer(ClientOffer {
        to: String::from("dest"),
        sdp: String::from("v=0"),
    });
    let (destination, payload) = handle_client_message(request, String::from("me"));
    assert_eq!(destination, "dest");
    match payload {
        ServerMessage::Offer(offer) => {
            assert_eq!(offer.from, "me");
            assert_eq!(offer.sdp, "v=0");
        }
        _ => panic!("offer routed as a different payload"),
    }
}

#[test]
fn routes_answer_to_named_peer_stamped_with_sender() {
    let request = ClientMessage::Answer(ClientAnswer {
        to: String::from("caller"),
        sdp: String::from("v=1"),
    });
    let (destination, payload) = handle_client_message(request, String::from("callee"));
    assert_eq!(destination, "caller");
    match payload {
        ServerMessage::Answer(answer) => {
            assert_eq!(answer.from, "callee");
            assert_eq!(answer.sdp, "v=1");
        }
        _ => panic!("answer routed as a different payload"),
    }
}

#[test]
fn routes_get_my_id_back_to_sender() {
    let (destination, payload) = handle_client_message(ClientMessage::GetMyID, String::from("me"));
    assert_eq!(destination, "me");
    match payload {
        ServerMessage::ID(id) => assert_eq!(id.id, "me"),
        _ => panic!("GetMyID routed as a different payload"),
    }
}
