//! A packet type whose header keeps the raw code byte.

use vstd::prelude::*;
use vstd::slice::{slice_subrange, slice_to_vec};
use crate::message::header::{
    code_text, parse_code_text, parse_code_str, version_of, type_of, type_number, token_length_of,
    with_version, with_type_bits, with_token_length, MessageType, code_to_str,
};
use crate::wire::{
    OptionMap, OptionsView, OptionsError, lookup, decode_from, group, encode_options,
    sorted_numbers, encodable_options, lemma_options_roundtrip, append_bytes, values_view,
};
use crate::bytes_codec::{decode_header_bytes, encode_header_bytes};

verus! {

/// Message types.
pub type PacketType = MessageType;

/// The four-byte header with the raw code byte.
#[derive(Debug, Clone, Copy, PartialEq, Eq, Structural)]
pub struct PacketHeader {
    pub ver_type_tkl: u8,
    pub code: u8,
    pub message_id: u16,
}

impl Default for PacketHeader {
    fn default() -> (h: PacketHeader)
        ensures
            h == (PacketHeader { ver_type_tkl: 0, code: 0, message_id: 0 }),
    {
        PacketHeader { ver_type_tkl: 0, code: 0, message_id: 0 }
    }
}

impl PacketHeader {
    pub fn set_version(&mut self, v: u8)
        ensures
            *final(self) == (PacketHeader { ver_type_tkl: with_version(old(self).ver_type_tkl, v), ..*old(self) }),
    {
        let type_tkl = 0x3F & self.ver_type_tkl;
        self.ver_type_tkl = v << 6 | type_tkl;
        proof {
            let o = old(self).ver_type_tkl;
            assert((v << 6 | (0x3F & o)) == ((v << 6) | (o & 0x3F)) as u8) by (bit_vector);
        }
    }

    pub fn get_version(&self) -> (v: u8)
        ensures
            v == version_of(self.ver_type_tkl),
    {
        self.ver_type_tkl >> 6
    }

    pub fn set_type(&mut self, t: PacketType)
        requires
            t != MessageType::Invalid,
        ensures
            *final(self) == (PacketHeader {
                ver_type_tkl: with_type_bits(old(self).ver_type_tkl, type_number(t)),
                ..*old(self)
            }),
    {
        let tn: u8 = match t {
            MessageType::Confirmable => 0,
            MessageType::NonConfirmable => 1,
            MessageType::Acknowledgement => 2,
            _ => 3,
        };
        let ver_tkl = 0xCF & self.ver_type_tkl;
        self.ver_type_tkl = tn << 4 | ver_tkl;
        proof {
            let o = old(self).ver_type_tkl;
            assert((tn << 4 | (0xCF & o)) == ((tn << 4) | (o & 0xCF)) as u8) by (bit_vector);
        }
    }

    pub fn get_type(&self) -> (t: PacketType)
        ensures
            t == type_of(self.ver_type_tkl),
    {
        let tn = (0x30 & self.ver_type_tkl) >> 4;
        proof {
            let o = self.ver_type_tkl;
            assert((0x30 & o) >> 4 == (o & 0x30) >> 4) by (bit_vector);
        }
        match tn {
            0 => MessageType::Confirmable,
            1 => MessageType::NonConfirmable,
            2 => MessageType::Acknowledgement,
            3 => MessageType::Reset,
            _ => MessageType::Invalid,
        }
    }

    pub fn set_token_length(&mut self, tkl: u8)
        requires
            tkl & 0xF0 == 0,
        ensures
            *final(self) == (PacketHeader { ver_type_tkl: with_token_length(old(self).ver_type_tkl, tkl), ..*old(self) }),
    {
        let ver_type = 0xF0 & self.ver_type_tkl;
        self.ver_type_tkl = tkl | ver_type;
        proof {
            let o = old(self).ver_type_tkl;
            assert((tkl | (0xF0 & o)) == (tkl | (o & 0xF0)) as u8) by (bit_vector);
        }
    }

    pub fn get_token_length(&self) -> (tkl: u8)
        ensures
            tkl == token_length_of(self.ver_type_tkl),
    {
        let r = 0x0F & self.ver_type_tkl;
        proof {
            let o = self.ver_type_tkl;
            assert(0x0F & o == o & 0x0F) by (bit_vector);
        }
        r
    }

    /// Sets the code byte from its text, such as `"2.05"`.
    pub fn set_code(&mut self, code: &str)
        requires
            parse_code_text(code@) is Some,
        ensures
            *final(self) == (PacketHeader {
                code: ((parse_code_text(code@).unwrap().0 << 5) | parse_code_text(code@).unwrap().1) as u8,
                ..*old(self)
            }),
    {
        let (class_code, detail_code) = parse_code_str(code).unwrap();
        self.code = class_code << 5 | detail_code;
    }

    /// The text of the code byte, such as `"2.05"`.
    pub fn get_code(&self) -> (s: String)
        ensures
            s@ == code_text(self.code),
    {
        code_to_str(&self.code)
    }

    pub fn set_message_id(&mut self, message_id: u16)
        ensures
            *final(self) == (PacketHeader { message_id: message_id, ..*old(self) }),
    {
        self.message_id = message_id;
    }

    pub fn get_message_id(&self) -> (id: u16)
        ensures
            id == self.message_id,
    {
        self.message_id
    }
}

/// Why bytes could not be read as a packet.
#[derive(Debug, Clone, Copy, PartialEq, Eq, Structural)]
pub enum ParseError {
    InvalidHeader,
    InvalidTokenLength,
    InvalidOptionDelta,
    InvalidOptionLength,
}

/// Why a packet could not be written.
#[derive(Debug, Clone, Copy, PartialEq, Eq, Structural)]
pub enum PackageError {
    InvalidHeader,
    InvalidPacketLength,
}

/// Option kinds, each with its option number.
#[derive(Debug, Clone, Copy, PartialEq, Eq, Structural)]
pub enum OptionType {
    IfMatch,
    UriHost,
    ETag,
    IfNoneMatch,
    Observe,
    UriPort,
    LocationPath,
    UriPath,
    ContentFormat,
    MaxAge,
    UriQuery,
    Accept,
    LocationQuery,
    Block2,
    Block1,
    ProxyUri,
    ProxyScheme,
    Size1,
}

/// The option number of an option kind.
pub open spec fn option_type_number(tp: OptionType) -> usize {
    match tp {
        OptionType::IfMatch => 1,
        OptionType::UriHost => 3,
        OptionType::ETag => 4,
        OptionType::IfNoneMatch => 5,
        OptionType::Observe => 6,
        OptionType::UriPort => 7,
        OptionType::LocationPath => 8,
        OptionType::UriPath => 11,
        OptionType::ContentFormat => 12,
        OptionType::MaxAge => 14,
        OptionType::UriQuery => 15,
        OptionType::Accept => 17,
        OptionType::LocationQuery => 20,
        OptionType::Block2 => 23,
        OptionType::Block1 => 27,
        OptionType::ProxyUri => 35,
        OptionType::ProxyScheme => 39,
        OptionType::Size1 => 60,
    }
}

/// A message with a raw-code header.
#[derive(Debug)]
pub struct Packet {
    pub header: PacketHeader,
    pub token: Vec<u8>,
    pub options: OptionMap,
    pub payload: Vec<u8>,
}

/// What a packet holds, as plain values.
pub struct PacketModel {
    pub header: PacketHeader,
    pub token: Seq<u8>,
    pub options: OptionsView,
    pub payload: Seq<u8>,
}

impl View for Packet {
    type V = PacketModel;

    open spec fn view(&self) -> PacketModel {
        PacketModel { header: self.header, token: self.token@, options: self.options@, payload: self.payload@ }
    }
}

/// The packet that `from_bytes` reads from `buf`, or why it cannot.
pub open spec fn parse_packet(buf: Seq<u8>) -> Result<PacketModel, ParseError> {
    if buf.len() < 4 {
        Err(ParseError::InvalidHeader)
    } else {
        let header = PacketHeader {
            ver_type_tkl: buf[0],
            code: buf[1],
            message_id: (buf[2] as int * 256 + buf[3] as int) as u16,
        };
        let tkl = token_length_of(buf[0]);
        if tkl > 8 || 4 + tkl > buf.len() {
            Err(ParseError::InvalidTokenLength)
        } else {
            match decode_from(buf, 4 + tkl, 0) {
                Err(OptionsError::InvalidOptionDelta) => Err(ParseError::InvalidOptionDelta),
                Err(OptionsError::InvalidOptionLength) => Err(ParseError::InvalidOptionLength),
                Ok((flat, end)) => Ok(
                    PacketModel {
                        header: header,
                        token: buf.subrange(4, 4 + tkl),
                        options: group(flat),
                        payload: if end < buf.len() {
                            buf.subrange(end + 1, buf.len() as int)
                        } else {
                            Seq::empty()
                        },
                    },
                ),
            }
        }
    }
}

/// Whether a payload marker and the payload are written: only for a
/// non-empty payload of a message whose code is not 0.00.
pub open spec fn writes_payload(p: PacketModel) -> bool {
    p.header.code != 0 && p.payload.len() != 0
}

/// The bytes that `to_bytes` writes for a packet, or why it cannot.
pub open spec fn serialize_packet(p: PacketModel) -> Result<Seq<u8>, PackageError> {
    let opts = encode_options(p.options);
    let marker: nat = if writes_payload(p) { 1 } else { 0 };
    if 4 + p.payload.len() + p.token.len() + marker + opts.len() > 1280 {
        Err(PackageError::InvalidPacketLength)
    } else {
        Ok(
            seq![
                p.header.ver_type_tkl,
                p.header.code,
                (p.header.message_id / 256) as u8,
                (p.header.message_id % 256) as u8,
            ] + p.token + opts + if writes_payload(p) {
                seq![0xFFu8] + p.payload
            } else {
                Seq::empty()
            },
        )
    }
}

impl Packet {
    pub fn new() -> (p: Packet)
        ensures
            p.header == (PacketHeader { ver_type_tkl: 0, code: 0, message_id: 0 }),
            p.token@ == Seq::<u8>::empty(),
            p.options@ == Seq::<(usize, Seq<Seq<u8>>)>::empty(),
            p.payload@ == Seq::<u8>::empty(),
    {
        Packet { header: PacketHeader::default(), token: Vec::new(), options: OptionMap::new(), payload: Vec::new() }
    }

    /// Sets the token and the token length in the header.
    pub fn set_token(&mut self, token: Vec<u8>)
        requires
            (token@.len() as u8) & 0xF0 == 0,
        ensures
            final(self).header == (PacketHeader {
                ver_type_tkl: with_token_length(old(self).header.ver_type_tkl, token@.len() as u8),
                ..old(self).header
            }),
            final(self).token@ == token@,
            final(self).options@ == old(self).options@,
            final(self).payload@ == old(self).payload@,
    {
        self.header.set_token_length(token.len() as u8);
        self.token = token;
    }

    pub fn get_token(&self) -> (t: &Vec<u8>)
        ensures
            t@ == self.token@,
    {
        &self.token
    }

    /// Sets all values of an option, replacing those it had.
    pub fn set_option(&mut self, tp: OptionType, value: Vec<Vec<u8>>)
        ensures
            lookup(final(self).options@, option_type_number(tp)) == Some(values_view(value)),
            forall|j: usize| j != option_type_number(tp) ==> lookup(final(self).options@, j) == lookup(old(self).options@, j),
            final(self).header == old(self).header,
            final(self).token@ == old(self).token@,
            final(self).payload@ == old(self).payload@,
    {
        let num = Self::get_option_number(tp);
        self.options.insert(num, value);
    }

    /// Appends a value to an option.
    pub fn add_option(&mut self, tp: OptionType, value: Vec<u8>)
        ensures
            lookup(final(self).options@, option_type_number(tp)) == Some(
                match lookup(old(self).options@, option_type_number(tp)) {
                    Some(vs) => vs.push(value@),
                    None => seq![value@],
                },
            ),
            forall|j: usize| j != option_type_number(tp) ==> lookup(final(self).options@, j) == lookup(old(self).options@, j),
            final(self).header == old(self).header,
            final(self).token@ == old(self).token@,
            final(self).payload@ == old(self).payload@,
    {
        let num = Self::get_option_number(tp);
        self.options.push_value(num, value);
    }

    /// The values of an option, if the packet has the option.
    pub fn get_option(&self, tp: OptionType) -> (r: Option<&Vec<Vec<u8>>>)
        ensures
            r is Some == lookup(self.options@, option_type_number(tp)) is Some,
            r matches Some(v) ==> values_view(*v) == lookup(self.options@, option_type_number(tp)).unwrap(),
    {
        let num = Self::get_option_number(tp);
        self.options.get(num)
    }

    /// Decodes a byte slice and constructs the equivalent packet.
    pub fn from_bytes(buf: &[u8]) -> (r: Result<Packet, ParseError>)
        ensures
            match parse_packet(buf@) {
                Ok(m) => r matches Ok(p) && p@ == m,
                Err(e) => r matches Err(e2) && e2 == e,
            },
            r matches Ok(p) ==> p.token@.len() == token_length_of(p.header.ver_type_tkl),
    {
        let raw = match decode_header_bytes(buf) {
            Ok(t) => t,
            Err(_) => {
                return Err(ParseError::InvalidHeader);
            },
        };
        let header = PacketHeader { ver_type_tkl: raw.0, code: raw.1, message_id: raw.2 };
        let token_length = header.get_token_length();
        if token_length > 8 {
            return Err(ParseError::InvalidTokenLength);
        }
        let options_start: usize = 4 + token_length as usize;
        if options_start > buf.len() {
            return Err(ParseError::InvalidTokenLength);
        }
        let token = slice_to_vec(slice_subrange(buf, 4, options_start));
        let (options, idx) = match OptionMap::decode(buf, options_start) {
            Ok(p) => p,
            Err(OptionsError::InvalidOptionDelta) => {
                return Err(ParseError::InvalidOptionDelta);
            },
            Err(OptionsError::InvalidOptionLength) => {
                return Err(ParseError::InvalidOptionLength);
            },
        };
        let payload = if idx < buf.len() {
            slice_to_vec(slice_subrange(buf, idx + 1, buf.len()))
        } else {
            Vec::new()
        };
        let p = Packet { header, token, options, payload };
        assert(p@ =~= parse_packet(buf@).unwrap());
        Ok(p)
    }

    /// Returns the bytes of the packet.
    pub fn to_bytes(&self) -> (r: Result<Vec<u8>, PackageError>)
        ensures
            match serialize_packet(self@) {
                Ok(b) => r matches Ok(v) && v@ == b,
                Err(e) => r matches Err(e2) && e2 == e,
            },
    {
        let options_bytes = self.options.encode();
        let marker = self.header.code != 0 && self.payload.len() != 0;
        if self.payload.len() > 1280 || self.token.len() > 1280 || options_bytes.len() > 1280 {
            return Err(PackageError::InvalidPacketLength);
        }
        let mut buf_length = 4 + self.payload.len() + self.token.len();
        if marker {
            buf_length = buf_length + 1;
        }
        buf_length = buf_length + options_bytes.len();
        if buf_length > 1280 {
            return Err(PackageError::InvalidPacketLength);
        }
        let mut buf: Vec<u8> = Vec::with_capacity(buf_length);
        match encode_header_bytes(&mut buf, (self.header.ver_type_tkl, self.header.code, self.header.message_id)) {
            Ok(_) => {},
            Err(_) => {
                return Err(PackageError::InvalidHeader);
            },
        }
        append_bytes(&mut buf, self.token.as_slice());
        append_bytes(&mut buf, options_bytes.as_slice());
        if marker {
            buf.push(0xFF);
            append_bytes(&mut buf, self.payload.as_slice());
        }
        assert(buf@ =~= serialize_packet(self@).unwrap());
        Ok(buf)
    }

    pub fn get_option_number(tp: OptionType) -> (n: usize)
        ensures
            n == option_type_number(tp),
    {
        match tp {
            OptionType::IfMatch => 1,
            OptionType::UriHost => 3,
            OptionType::ETag => 4,
            OptionType::IfNoneMatch => 5,
            OptionType::Observe => 6,
            OptionType::UriPort => 7,
            OptionType::LocationPath => 8,
            OptionType::UriPath => 11,
            OptionType::ContentFormat => 12,
            OptionType::MaxAge => 14,
            OptionType::UriQuery => 15,
            OptionType::Accept => 17,
            OptionType::LocationQuery => 20,
            OptionType::Block2 => 23,
            OptionType::Block1 => 27,
            OptionType::ProxyUri => 35,
            OptionType::ProxyScheme => 39,
            OptionType::Size1 => 60,
        }
    }
}

/// Whether a packet is read back unchanged from the bytes it is written to:
/// its token length is the header's and at most 8, its options are sorted
/// and encodable, and a payload goes with a code other than 0.00.
pub open spec fn roundtrips(p: PacketModel) -> bool {
    &&& p.token.len() == token_length_of(p.header.ver_type_tkl)
    &&& p.token.len() <= 8
    &&& sorted_numbers(p.options)
    &&& encodable_options(p.options)
    &&& (p.payload.len() == 0 || p.header.code != 0)
}

/// Reading back what `to_bytes` wrote gives the same packet.
pub proof fn lemma_packet_roundtrip(p: PacketModel)
    requires
        roundtrips(p),
        serialize_packet(p) is Ok,
    ensures
        parse_packet(serialize_packet(p).unwrap()) == Ok::<PacketModel, ParseError>(p),
{
    let b = serialize_packet(p).unwrap();
    let head = seq![
        p.header.ver_type_tkl,
        p.header.code,
        (p.header.message_id / 256) as u8,
        (p.header.message_id % 256) as u8,
    ];
    let pre = head + p.token;
    let opts = encode_options(p.options);
    let tail: Seq<u8> = if writes_payload(p) { seq![0xFFu8] + p.payload } else { Seq::empty() };
    assert(b == pre + opts + tail);
    lemma_options_roundtrip(pre, p.options, tail);
    assert(b[0] == p.header.ver_type_tkl);
    assert(b[1] == p.header.code);
    assert(b[2] == (p.header.message_id / 256) as u8);
    assert(b[3] == (p.header.message_id % 256) as u8);
    let tkl = token_length_of(b[0]);
    assert(pre.len() == 4 + tkl);
    assert(b.subrange(4, 4 + tkl) =~= p.token);
    let end = (pre.len() + opts.len()) as int;
    if writes_payload(p) {
        assert(end < b.len());
        assert(b.subrange(end + 1, b.len() as int) =~= p.payload);
    } else {
        assert(end == b.len());
        assert(p.payload =~= Seq::<u8>::empty());
    }
    let m = parse_packet(b).unwrap();
    assert(m.header == p.header);
    assert(m.token == p.token);
}

} // verus!
