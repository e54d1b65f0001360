//! Responses to requests.

use vstd::prelude::*;
use vstd::slice::slice_to_vec;
use crate::message::header::{
    Header, MessageClass, MessageType, Responses, type_of, type_number, with_version, with_type_bits,
    with_token_length, version_of, token_length_of, lemma_set_version_get_version, lemma_set_type_get_type,
    lemma_set_token_length_get_token_length,
};
use crate::message::packet::Packet;

verus! {

/// The response codes, under the name responses use.
pub type Status = Responses;

/// A response message.
#[derive(Debug)]
pub struct CoAPResponse {
    pub message: Packet,
}

impl Clone for CoAPResponse {
    fn clone(&self) -> (r: CoAPResponse)
        ensures
            r.message@ == self.message@,
    {
        CoAPResponse { message: self.message.clone() }
    }
}

/// The message type of the response to a request of type `t`: an
/// acknowledgement for a confirmable request, non-confirmable for a
/// non-confirmable one, none for the others.
pub open spec fn response_type(t: MessageType) -> Option<MessageType> {
    match t {
        MessageType::Confirmable => Some(MessageType::Acknowledgement),
        MessageType::NonConfirmable => Some(MessageType::NonConfirmable),
        _ => None,
    }
}

/// The response to a confirmable request is an acknowledgement (piggybacked
/// on it), the response to a non-confirmable request is non-confirmable,
/// and acknowledgements and resets get none; the response header is of
/// version 1 with the request's token length.
pub proof fn lemma_response_header(request_type: MessageType, tkl: u8)
    requires
        tkl & 0xF0 == 0,
    ensures
        request_type == MessageType::Confirmable ==> response_type(request_type) == Some(MessageType::Acknowledgement),
        request_type == MessageType::NonConfirmable ==> response_type(request_type) == Some(MessageType::NonConfirmable),
        request_type != MessageType::Confirmable && request_type != MessageType::NonConfirmable ==> response_type(
            request_type,
        ) is None,
        response_type(request_type) matches Some(t) ==> {
            let b = with_token_length(with_type_bits(with_version(0, 1), type_number(t)), tkl);
            &&& type_of(b) == t
            &&& version_of(b) == 1
            &&& token_length_of(b) == tkl
        },
{
    if let Some(t) = response_type(request_type) {
        lemma_set_version_get_version(0, 1);
        lemma_set_type_get_type(with_version(0, 1), t);
        let v = with_type_bits(with_version(0, 1), type_number(t));
        lemma_set_token_length_get_token_length(v, tkl);
        assert(type_of(with_token_length(v, tkl)) == type_of(v));
    }
}

impl CoAPResponse {
    /// The response to `request`: version 1, the response type of the
    /// request's type, code 2.05 Content, and the request's message id, token
    /// and payload.  There is none for acknowledgements and resets.
    pub fn new(request: &Packet) -> (r: Option<CoAPResponse>)
        requires
            response_type(type_of(request.header.ver_type_tkl)) is Some ==> (request.token@.len() as u8) & 0xF0 == 0,
        ensures
            r is Some == response_type(type_of(request.header.ver_type_tkl)) is Some,
            r matches Some(resp) ==> {
                &&& resp.message.header == (Header {
                    ver_type_tkl: with_token_length(
                        with_type_bits(
                            with_version(0, 1),
                            type_number(response_type(type_of(request.header.ver_type_tkl)).unwrap()),
                        ),
                        request.token@.len() as u8,
                    ),
                    code: MessageClass::ResponseType(Responses::Content),
                    message_id: request.header.message_id,
                })
                &&& resp.message.token@ == request.token@
                &&& resp.message.options@ == Seq::<(usize, Seq<Seq<u8>>)>::empty()
                &&& resp.message.payload@ == request.payload@
            },
            type_of(request.header.ver_type_tkl) == MessageType::Confirmable ==> (r matches Some(resp) && type_of(
                resp.message.header.ver_type_tkl,
            ) == MessageType::Acknowledgement),
            type_of(request.header.ver_type_tkl) == MessageType::NonConfirmable ==> (r matches Some(resp) && type_of(
                resp.message.header.ver_type_tkl,
            ) == MessageType::NonConfirmable),
            r matches Some(resp) ==> version_of(resp.message.header.ver_type_tkl) == 1 && token_length_of(
                resp.message.header.ver_type_tkl,
            ) == request.token@.len() as u8,
    {
        let mut packet = Packet::new();
        packet.header.set_version(1);
        let response_type = match request.header.get_type() {
            MessageType::Confirmable => MessageType::Acknowledgement,
            MessageType::NonConfirmable => MessageType::NonConfirmable,
            _ => {
                return None;
            },
        };
        packet.header.set_type(response_type);
        packet.header.code = MessageClass::ResponseType(Responses::Content);
        packet.header.set_message_id(request.header.get_message_id());
        packet.set_token(slice_to_vec(request.get_token().as_slice()));
        packet.payload = slice_to_vec(request.payload.as_slice());
        proof {
            lemma_response_header(type_of(request.header.ver_type_tkl), request.token@.len() as u8);
        }
        Some(CoAPResponse { message: packet })
    }

    pub fn set_status(&mut self, status: Status)
        ensures
            final(self).message.header == (Header {
                code: MessageClass::ResponseType(status),
                ..old(self).message.header
            }),
            final(self).message.token@ == old(self).message.token@,
            final(self).message.options@ == old(self).message.options@,
            final(self).message.payload@ == old(self).message.payload@,
    {
        self.message.header.code = MessageClass::ResponseType(status);
    }

    /// The response code; `None` when the code is not a response code.
    pub fn get_status(&self) -> (s: Option<Status>)
        ensures
            s == match self.message.header.code {
                MessageClass::ResponseType(st) => Some(st),
                _ => None,
            },
    {
        match self.message.header.code {
            MessageClass::ResponseType(status) => Some(status),
            _ => None,
        }
    }
}

} // verus!
