//! CoAP messages: header, options, packets and responses.

pub mod header;
pub mod options;
pub mod packet;
pub mod response;
pub mod request;

use vstd::prelude::*;
use crate::message::header::{
    Header, MessageType, with_version, with_type_bits, type_number, with_token_length, version_of,
    type_of, code_text, spec_class_to_code, spec_code_to_class, parse_code_text,
};
use crate::message::packet::{Packet, PacketModel, CoAPOption, option_number, option_values, observe_in};
use crate::wire::{lookup, values_view};
use crate::message::response::CoAPResponse;

verus! {

/// A type that holds a message packet.
pub trait IsMessage {
    /// The packet that the value holds.
    spec fn message_of(&self) -> PacketModel;

    fn get_message(&self) -> (p: &Packet)
        ensures
            p@ == self.message_of(),
    ;

    fn get_mut_message(&mut self) -> (p: &mut Packet)
        ensures
            p@ == old(self).message_of(),
            final(self).message_of() == final(p)@,
    ;

    fn get_header(&self) -> (h: &Header)
        ensures
            *h == self.message_of().header,
    ;

    fn get_mut_header(&mut self) -> (h: &mut Header)
        ensures
            *h == old(self).message_of().header,
            final(self).message_of() == (PacketModel { header: *final(h), ..old(self).message_of() }),
    ;

    fn set_token(&mut self, token: Vec<u8>)
        requires
            (token@.len() as u8) & 0xF0 == 0,
        ensures
            final(self).message_of() == (PacketModel {
                header: Header {
                    ver_type_tkl: with_token_length(old(self).message_of().header.ver_type_tkl, token@.len() as u8),
                    ..old(self).message_of().header
                },
                token: token@,
                ..old(self).message_of()
            }),
    {
        self.get_mut_message().set_token(token);
    }

    fn get_token(&self) -> (t: &Vec<u8>)
        ensures
            t@ == self.message_of().token,
    {
        self.get_message().get_token()
    }

    fn set_option(&mut self, tp: CoAPOption, value: Vec<Vec<u8>>)
        ensures
            lookup(final(self).message_of().options, option_number(tp)) == Some(values_view(value)),
            forall|j: usize| j != option_number(tp) ==> lookup(final(self).message_of().options, j) == lookup(old(self).message_of().options, j),
            final(self).message_of().header == old(self).message_of().header,
            final(self).message_of().token == old(self).message_of().token,
            final(self).message_of().payload == old(self).message_of().payload,
    {
        self.get_mut_message().set_option(tp, value);
    }

    fn set_payload(&mut self, payload: Vec<u8>)
        ensures
            final(self).message_of() == (PacketModel { payload: payload@, ..old(self).message_of() }),
    {
        self.get_mut_message().set_payload(payload);
    }

    fn add_option(&mut self, tp: CoAPOption, value: Vec<u8>)
        ensures
            option_values(final(self).message_of().options, option_number(tp)) == option_values(
                old(self).message_of().options,
                option_number(tp),
            ).push(value@),
            lookup(final(self).message_of().options, option_number(tp)) is Some,
            forall|j: usize| j != option_number(tp) ==> lookup(final(self).message_of().options, j) == lookup(old(self).message_of().options, j),
            final(self).message_of().header == old(self).message_of().header,
            final(self).message_of().token == old(self).message_of().token,
            final(self).message_of().payload == old(self).message_of().payload,
    {
        self.get_mut_message().add_option(tp, value);
    }

    fn get_option(&self, tp: CoAPOption) -> (r: Option<&Vec<Vec<u8>>>)
        ensures
            r is Some == lookup(self.message_of().options, option_number(tp)) is Some,
            r matches Some(v) ==> values_view(*v) == lookup(self.message_of().options, option_number(tp)).unwrap(),
    {
        self.get_message().get_option(tp)
    }

    fn clear_option(&mut self, tp: CoAPOption)
        ensures
            lookup(final(self).message_of().options, option_number(tp)) == match lookup(old(self).message_of().options, option_number(tp)) {
                Some(_) => Some(Seq::<Seq<u8>>::empty()),
                None => None,
            },
            forall|j: usize| j != option_number(tp) ==> lookup(final(self).message_of().options, j) == lookup(old(self).message_of().options, j),
            final(self).message_of().header == old(self).message_of().header,
            final(self).message_of().token == old(self).message_of().token,
            final(self).message_of().payload == old(self).message_of().payload,
    {
        self.get_mut_message().clear_option(tp);
    }

    fn set_observe(&mut self, value: Vec<u8>)
        ensures
            lookup(final(self).message_of().options, 6) == Some(seq![value@]),
            forall|j: usize| j != 6 ==> lookup(final(self).message_of().options, j) == lookup(old(self).message_of().options, j),
            final(self).message_of().header == old(self).message_of().header,
            final(self).message_of().token == old(self).message_of().token,
            final(self).message_of().payload == old(self).message_of().payload,
    {
        self.get_mut_message().set_observe(value);
    }

    fn get_observe(&self) -> (r: Option<&Vec<u8>>)
        ensures
            r is Some == observe_in(self.message_of().options) is Some,
            r matches Some(v) ==> v@ == observe_in(self.message_of().options).unwrap(),
    {
        self.get_message().get_observe()
    }

    fn get_message_id(&self) -> (id: u16)
        ensures
            id == self.message_of().header.message_id,
    {
        self.get_message().header.get_message_id()
    }

    fn set_message_id(&mut self, message_id: u16)
        ensures
            final(self).message_of() == (PacketModel {
                header: Header { message_id: message_id, ..old(self).message_of().header },
                ..old(self).message_of()
            }),
    {
        self.get_mut_message().header.set_message_id(message_id);
    }

    fn set_version(&mut self, v: u8)
        ensures
            final(self).message_of() == (PacketModel {
                header: Header {
                    ver_type_tkl: with_version(old(self).message_of().header.ver_type_tkl, v),
                    ..old(self).message_of().header
                },
                ..old(self).message_of()
            }),
    {
        self.get_mut_message().header.set_version(v);
    }

    fn get_version(&self) -> (v: u8)
        ensures
            v == version_of(self.message_of().header.ver_type_tkl),
    {
        self.get_message().header.get_version()
    }

    fn set_type(&mut self, t: MessageType)
        requires
            t != MessageType::Invalid,
        ensures
            final(self).message_of() == (PacketModel {
                header: Header {
                    ver_type_tkl: with_type_bits(old(self).message_of().header.ver_type_tkl, type_number(t)),
                    ..old(self).message_of().header
                },
                ..old(self).message_of()
            }),
    {
        self.get_mut_message().header.set_type(t);
    }

    fn get_type(&self) -> (t: MessageType)
        ensures
            t == type_of(self.message_of().header.ver_type_tkl),
    {
        self.get_message().header.get_type()
    }

    fn get_code(&self) -> (s: String)
        ensures
            s@ == code_text(spec_class_to_code(self.message_of().header.code)),
    {
        self.get_message().header.get_code()
    }

    fn set_code(&mut self, code: &str)
        requires
            parse_code_text(code@) is Some,
        ensures
            final(self).message_of() == (PacketModel {
                header: Header {
                    code: spec_code_to_class(
                        ((parse_code_text(code@).unwrap().0 << 5) | parse_code_text(code@).unwrap().1) as u8,
                    ),
                    ..old(self).message_of().header
                },
                ..old(self).message_of()
            }),
    {
        self.get_mut_message().header.set_code(code);
    }
}

impl IsMessage for CoAPResponse {
    open spec fn message_of(&self) -> PacketModel {
        self.message@
    }

    fn get_message(&self) -> (p: &Packet) {
        &self.message
    }

    fn get_mut_message(&mut self) -> (p: &mut Packet) {
        &mut self.message
    }

    fn get_header(&self) -> (h: &Header) {
        &self.message.header
    }

    fn get_mut_header(&mut self) -> (h: &mut Header) {
        &mut self.message.header
    }
}

/// Encodes and decodes packets for a framed byte stream.
pub struct Codec {}

impl Codec {
    pub fn new() -> (c: Codec) {
        Codec {}
    }
}

} // verus!
