//! A CoAP message: header, token, options and payload, with its binary form.

use vstd::prelude::*;
use vstd::slice::{slice_subrange, slice_to_vec};
use crate::message::header::{
    Header, HeaderRaw, MessageClass, Responses, spec_class_to_code, spec_code_to_class,
    token_length_of, with_token_length, lemma_code_class_roundtrip, lemma_class_code_roundtrip,
};
use crate::wire::{
    OptionMap, OptionsView, OptionsError, lookup, decode_from, group, encode_options,
    sorted_numbers, encodable_options, flatten, lemma_options_roundtrip, append_bytes,
};
use crate::bytes_codec::{decode_header_bytes, encode_header_bytes};

verus! {

/// Option kinds, each with its option number.
#[derive(Debug, Clone, Copy, PartialEq, Eq, Structural)]
pub enum CoAPOption {
    IfMatch,
    UriHost,
    ETag,
    IfNoneMatch,
    Observe,
    UriPort,
    LocationPath,
    UriPath,
    ContentFormat,
    MaxAge,
    UriQuery,
    Accept,
    LocationQuery,
    Block2,
    Block1,
    ProxyUri,
    ProxyScheme,
    Size1,
    Size2,
    NoResponse,
}

/// Content formats, each with its registered number.
#[derive(Debug, Clone, Copy, PartialEq, Eq, Structural)]
pub enum ContentFormat {
    TextPlain,
    ApplicationLinkFormat,
    ApplicationXML,
    ApplicationOctetStream,
    ApplicationEXI,
    ApplicationJSON,
    ApplicationCBOR,
    ApplicationSenmlJSON,
    ApplicationSensmlJSON,
    ApplicationSenmlCBOR,
    ApplicationSensmlCBOR,
    ApplicationSenmlExi,
    ApplicationSensmlExi,
    ApplicationSenmlXML,
    ApplicationSensmlXML,
}

/// Values of the Observe option.
#[derive(Debug, Clone, Copy, PartialEq, Eq, Structural)]
pub enum ObserveOption {
    Register,
    Deregister,
}

/// Why a packet could not be written.
#[derive(Debug, Clone, Copy, PartialEq, Eq, Structural)]
pub enum PackageError {
    InvalidHeader,
    InvalidPacketLength,
}

/// Why bytes could not be read as a packet.
#[derive(Debug, Clone, Copy, PartialEq, Eq, Structural)]
pub enum ParseError {
    InvalidHeader,
    InvalidTokenLength,
    InvalidOptionDelta,
    InvalidOptionLength,
}

/// The option number of an option kind.
pub open spec fn option_number(tp: CoAPOption) -> usize {
    match tp {
        CoAPOption::IfMatch => 1,
        CoAPOption::UriHost => 3,
        CoAPOption::ETag => 4,
        CoAPOption::IfNoneMatch => 5,
        CoAPOption::Observe => 6,
        CoAPOption::UriPort => 7,
        CoAPOption::LocationPath => 8,
        CoAPOption::UriPath => 11,
        CoAPOption::ContentFormat => 12,
        CoAPOption::MaxAge => 14,
        CoAPOption::UriQuery => 15,
        CoAPOption::Accept => 17,
        CoAPOption::LocationQuery => 20,
        CoAPOption::Block2 => 23,
        CoAPOption::Block1 => 27,
        CoAPOption::ProxyUri => 35,
        CoAPOption::ProxyScheme => 39,
        CoAPOption::Size1 => 60,
        CoAPOption::Size2 => 28,
        CoAPOption::NoResponse => 258,
    }
}

/// The registered number of a content format.
pub open spec fn content_format_number(cf: ContentFormat) -> u16 {
    match cf {
        ContentFormat::TextPlain => 0,
        ContentFormat::ApplicationLinkFormat => 40,
        ContentFormat::ApplicationXML => 41,
        ContentFormat::ApplicationOctetStream => 42,
        ContentFormat::ApplicationEXI => 47,
        ContentFormat::ApplicationJSON => 50,
        ContentFormat::ApplicationCBOR => 60,
        ContentFormat::ApplicationSenmlJSON => 110,
        ContentFormat::ApplicationSensmlJSON => 111,
        ContentFormat::ApplicationSenmlCBOR => 112,
        ContentFormat::ApplicationSensmlCBOR => 113,
        ContentFormat::ApplicationSenmlExi => 114,
        ContentFormat::ApplicationSensmlExi => 115,
        ContentFormat::ApplicationSenmlXML => 310,
        ContentFormat::ApplicationSensmlXML => 311,
    }
}

/// Every content format has the number of the CoAP Content-Formats
/// registry (RFC 7252, 12.3; RFC 8428 for SenML), and that number reads back
/// as the format: text/plain 0, application/link-format 40, .../xml 41,
/// .../octet-stream 42, .../exi 47, .../json 50, .../cbor 60, and the SenML
/// and SenSML formats 110 to 115, 310 and 311.
pub proof fn lemma_registered_content_formats()
    ensures
        content_format_number(ContentFormat::TextPlain) == 0,
        content_format_of(0u16) == Some(ContentFormat::TextPlain),
        content_format_number(ContentFormat::ApplicationLinkFormat) == 40,
        content_format_of(40u16) == Some(ContentFormat::ApplicationLinkFormat),
        content_format_number(ContentFormat::ApplicationXML) == 41,
        content_format_of(41u16) == Some(ContentFormat::ApplicationXML),
        content_format_number(ContentFormat::ApplicationOctetStream) == 42,
        content_format_of(42u16) == Some(ContentFormat::ApplicationOctetStream),
        content_format_number(ContentFormat::ApplicationEXI) == 47,
        content_format_of(47u16) == Some(ContentFormat::ApplicationEXI),
        content_format_number(ContentFormat::ApplicationJSON) == 50,
        content_format_of(50u16) == Some(ContentFormat::ApplicationJSON),
        content_format_number(ContentFormat::ApplicationCBOR) == 60,
        content_format_of(60u16) == Some(ContentFormat::ApplicationCBOR),
        content_format_number(ContentFormat::ApplicationSenmlJSON) == 110,
        content_format_of(110u16) == Some(ContentFormat::ApplicationSenmlJSON),
        content_format_number(ContentFormat::ApplicationSensmlJSON) == 111,
        content_format_of(111u16) == Some(ContentFormat::ApplicationSensmlJSON),
        content_format_number(ContentFormat::ApplicationSenmlCBOR) == 112,
        content_format_of(112u16) == Some(ContentFormat::ApplicationSenmlCBOR),
        content_format_number(ContentFormat::ApplicationSensmlCBOR) == 113,
        content_format_of(113u16) == Some(ContentFormat::ApplicationSensmlCBOR),
        content_format_number(ContentFormat::ApplicationSenmlExi) == 114,
        content_format_of(114u16) == Some(ContentFormat::ApplicationSenmlExi),
        content_format_number(ContentFormat::ApplicationSensmlExi) == 115,
        content_format_of(115u16) == Some(ContentFormat::ApplicationSensmlExi),
        content_format_number(ContentFormat::ApplicationSenmlXML) == 310,
        content_format_of(310u16) == Some(ContentFormat::ApplicationSenmlXML),
        content_format_number(ContentFormat::ApplicationSensmlXML) == 311,
        content_format_of(311u16) == Some(ContentFormat::ApplicationSensmlXML),
{
}

/// The content format with number `n`, if one is registered.
pub open spec fn content_format_of(n: u16) -> Option<ContentFormat> {
    if n == 0 { Some(ContentFormat::TextPlain) }
    else if n == 40 { Some(ContentFormat::ApplicationLinkFormat) }
    else if n == 41 { Some(ContentFormat::ApplicationXML) }
    else if n == 42 { Some(ContentFormat::ApplicationOctetStream) }
    else if n == 47 { Some(ContentFormat::ApplicationEXI) }
    else if n == 50 { Some(ContentFormat::ApplicationJSON) }
    else if n == 60 { Some(ContentFormat::ApplicationCBOR) }
    else if n == 110 { Some(ContentFormat::ApplicationSenmlJSON) }
    else if n == 111 { Some(ContentFormat::ApplicationSensmlJSON) }
    else if n == 112 { Some(ContentFormat::ApplicationSenmlCBOR) }
    else if n == 113 { Some(ContentFormat::ApplicationSensmlCBOR) }
    else if n == 114 { Some(ContentFormat::ApplicationSenmlExi) }
    else if n == 115 { Some(ContentFormat::ApplicationSensmlExi) }
    else if n == 310 { Some(ContentFormat::ApplicationSenmlXML) }
    else if n == 311 { Some(ContentFormat::ApplicationSensmlXML) }
    else { None }
}

impl ContentFormat {
    /// The registered number of the content format.
    pub fn number(&self) -> (n: u16)
        ensures
            n == content_format_number(*self),
    {
        match self {
            ContentFormat::TextPlain => 0,
            ContentFormat::ApplicationLinkFormat => 40,
            ContentFormat::ApplicationXML => 41,
            ContentFormat::ApplicationOctetStream => 42,
            ContentFormat::ApplicationEXI => 47,
            ContentFormat::ApplicationJSON => 50,
            ContentFormat::ApplicationCBOR => 60,
            ContentFormat::ApplicationSenmlJSON => 110,
            ContentFormat::ApplicationSensmlJSON => 111,
            ContentFormat::ApplicationSenmlCBOR => 112,
            ContentFormat::ApplicationSensmlCBOR => 113,
            ContentFormat::ApplicationSenmlExi => 114,
            ContentFormat::ApplicationSensmlExi => 115,
            ContentFormat::ApplicationSenmlXML => 310,
            ContentFormat::ApplicationSensmlXML => 311,
        }
    }

    /// The content format with number `n`, if one is registered.
    pub fn from_u16(n: u16) -> (r: Option<ContentFormat>)
        ensures
            r == content_format_of(n),
    {
        match n {
            0 => Some(ContentFormat::TextPlain),
            40 => Some(ContentFormat::ApplicationLinkFormat),
            41 => Some(ContentFormat::ApplicationXML),
            42 => Some(ContentFormat::ApplicationOctetStream),
            47 => Some(ContentFormat::ApplicationEXI),
            50 => Some(ContentFormat::ApplicationJSON),
            60 => Some(ContentFormat::ApplicationCBOR),
            110 => Some(ContentFormat::ApplicationSenmlJSON),
            111 => Some(ContentFormat::ApplicationSensmlJSON),
            112 => Some(ContentFormat::ApplicationSenmlCBOR),
            113 => Some(ContentFormat::ApplicationSensmlCBOR),
            114 => Some(ContentFormat::ApplicationSenmlExi),
            115 => Some(ContentFormat::ApplicationSensmlExi),
            310 => Some(ContentFormat::ApplicationSenmlXML),
            311 => Some(ContentFormat::ApplicationSensmlXML),
            _ => None,
        }
    }
}

/// A CoAP message.
#[derive(Debug)]
pub struct Packet {
    pub header: Header,
    pub token: Vec<u8>,
    pub options: OptionMap,
    pub payload: Vec<u8>,
}

impl Clone for Packet {
    fn clone(&self) -> (p: Packet)
        ensures
            p@ == self@,
    {
        Packet {
            header: self.header,
            token: slice_to_vec(self.token.as_slice()),
            options: self.options.clone(),
            payload: slice_to_vec(self.payload.as_slice()),
        }
    }
}

/// What a packet holds, as plain values.
pub struct PacketModel {
    pub header: Header,
    pub token: Seq<u8>,
    pub options: OptionsView,
    pub payload: Seq<u8>,
}

impl View for Packet {
    type V = PacketModel;

    open spec fn view(&self) -> PacketModel {
        PacketModel {
            header: self.header,
            token: self.token@,
            options: self.options@,
            payload: self.payload@,
        }
    }
}

/// The header that the four header bytes decode to.
pub open spec fn header_of_bytes(b0: u8, b1: u8, b2: u8, b3: u8) -> Header {
    Header {
        ver_type_tkl: b0,
        code: spec_code_to_class(b1),
        message_id: (b2 as int * 256 + b3 as int) as u16,
    }
}

/// The packet that `from_bytes` reads from `buf`, or why it cannot.
pub open spec fn parse_packet(buf: Seq<u8>) -> Result<PacketModel, ParseError> {
    if buf.len() < 4 {
        Err(ParseError::InvalidHeader)
    } else {
        let header = header_of_bytes(buf[0], buf[1], buf[2], buf[3]);
        let tkl = token_length_of(buf[0]);
        if tkl > 8 || 4 + tkl > buf.len() {
            Err(ParseError::InvalidTokenLength)
        } else {
            match decode_from(buf, 4 + tkl, 0) {
                Err(OptionsError::InvalidOptionDelta) => Err(ParseError::InvalidOptionDelta),
                Err(OptionsError::InvalidOptionLength) => Err(ParseError::InvalidOptionLength),
                Ok((flat, end)) => Ok(
                    PacketModel {
                        header: header,
                        token: buf.subrange(4, 4 + tkl),
                        options: group(flat),
                        payload: if end < buf.len() {
                            buf.subrange(end + 1, buf.len() as int)
                        } else {
                            Seq::empty()
                        },
                    },
                ),
            }
        }
    }
}

/// Whether a payload marker and the payload are written: only for a
/// non-empty payload of a message whose code is not empty.
pub open spec fn writes_payload(p: PacketModel) -> bool {
    p.header.code != MessageClass::Empty && p.payload.len() != 0
}

/// The largest packet that `to_bytes` writes.
pub open spec fn max_packet_len() -> nat {
    1280
}

/// The bytes that `to_bytes` writes for a packet, or why it cannot.
pub open spec fn serialize_packet(p: PacketModel) -> Result<Seq<u8>, PackageError> {
    let opts = encode_options(p.options);
    let marker: nat = if writes_payload(p) { 1 } else { 0 };
    if 4 + p.payload.len() + p.token.len() + marker + opts.len() > max_packet_len() {
        Err(PackageError::InvalidPacketLength)
    } else {
        Ok(
            seq![
                p.header.ver_type_tkl,
                spec_class_to_code(p.header.code),
                (p.header.message_id / 256) as u8,
                (p.header.message_id % 256) as u8,
            ] + p.token + opts + if writes_payload(p) {
                seq![0xFFu8] + p.payload
            } else {
                Seq::empty()
            },
        )
    }
}

/// The values of the option with number `n`, empty when there are none.
pub open spec fn option_values(options: OptionsView, n: usize) -> Seq<Seq<u8>> {
    match lookup(options, n) {
        Some(vs) => vs,
        None => Seq::empty(),
    }
}

/// The content format that the first Content-Format value names.
pub open spec fn content_format_in(options: OptionsView) -> Option<ContentFormat> {
    let vs = option_values(options, 12);
    if vs.len() > 0 {
        content_format_of((vs[0][0] as int * 256 + vs[0][1] as int) as u16)
    } else {
        None
    }
}

/// Whether `get_content_format` can read the options: a first
/// Content-Format value, if there is one, has at least two bytes.
pub open spec fn content_format_readable(options: OptionsView) -> bool {
    option_values(options, 12).len() > 0 ==> option_values(options, 12)[0].len() >= 2
}

/// The first Observe value.
pub open spec fn observe_in(options: OptionsView) -> Option<Seq<u8>> {
    let vs = option_values(options, 6);
    if vs.len() > 0 {
        Some(vs[0])
    } else {
        None
    }
}

impl Packet {
    pub fn new() -> (p: Packet)
        ensures
            p.header == (Header { ver_type_tkl: 0, code: MessageClass::Empty, message_id: 0 }),
            p.token@ == Seq::<u8>::empty(),
            p.options@ == Seq::<(usize, Seq<Seq<u8>>)>::empty(),
            p.payload@ == Seq::<u8>::empty(),
    {
        Packet {
            header: Header::new(),
            token: Vec::new(),
            options: OptionMap::new(),
            payload: Vec::new(),
        }
    }

    /// Sets the token and the token length in the header.
    pub fn set_token(&mut self, token: Vec<u8>)
        requires
            (token@.len() as u8) & 0xF0 == 0,
        ensures
            final(self).header == (Header {
                ver_type_tkl: with_token_length(old(self).header.ver_type_tkl, token@.len() as u8),
                ..old(self).header
            }),
            final(self).token@ == token@,
            final(self).options@ == old(self).options@,
            final(self).payload@ == old(self).payload@,
    {
        self.header.set_token_length(token.len() as u8);
        self.token = token;
    }

    pub fn get_token(&self) -> (t: &Vec<u8>)
        ensures
            t@ == self.token@,
    {
        &self.token
    }

    pub fn get_option_number(tp: CoAPOption) -> (n: usize)
        ensures
            n == option_number(tp),
    {
        match tp {
            CoAPOption::IfMatch => 1,
            CoAPOption::UriHost => 3,
            CoAPOption::ETag => 4,
            CoAPOption::IfNoneMatch => 5,
            CoAPOption::Observe => 6,
            CoAPOption::UriPort => 7,
            CoAPOption::LocationPath => 8,
            CoAPOption::UriPath => 11,
            CoAPOption::ContentFormat => 12,
            CoAPOption::MaxAge => 14,
            CoAPOption::UriQuery => 15,
            CoAPOption::Accept => 17,
            CoAPOption::LocationQuery => 20,
            CoAPOption::Block2 => 23,
            CoAPOption::Block1 => 27,
            CoAPOption::ProxyUri => 35,
            CoAPOption::ProxyScheme => 39,
            CoAPOption::Size1 => 60,
            CoAPOption::Size2 => 28,
            CoAPOption::NoResponse => 258,
        }
    }

    /// Sets all values of an option, replacing those it had.
    pub fn set_option(&mut self, tp: CoAPOption, value: Vec<Vec<u8>>)
        ensures
            lookup(final(self).options@, option_number(tp)) == Some(crate::wire::values_view(value)),
            forall|j: usize| j != option_number(tp) ==> lookup(final(self).options@, j) == lookup(old(self).options@, j),
            final(self).header == old(self).header,
            final(self).token@ == old(self).token@,
            final(self).payload@ == old(self).payload@,
    {
        let num = Self::get_option_number(tp);
        self.options.insert(num, value);
    }

    /// Adds a Content-Format value (the format's number in two bytes,
    /// most significant first).
    pub fn set_content_format(&mut self, cf: ContentFormat)
        ensures
            option_values(final(self).options@, 12) == option_values(old(self).options@, 12).push(
                seq![(content_format_number(cf) / 256) as u8, (content_format_number(cf) % 256) as u8],
            ),
            forall|j: usize| j != 12 ==> lookup(final(self).options@, j) == lookup(old(self).options@, j),
            final(self).header == old(self).header,
            final(self).token@ == old(self).token@,
            final(self).payload@ == old(self).payload@,
    {
        let content_format = cf.number();
        let msb = (content_format / 256) as u8;
        let lsb = (content_format % 256) as u8;
        let mut v: Vec<u8> = Vec::new();
        v.push(msb);
        v.push(lsb);
        assert(v@ =~= seq![(content_format_number(cf) / 256) as u8, (content_format_number(cf) % 256) as u8]);
        self.add_option(CoAPOption::ContentFormat, v);
    }

    pub fn set_payload(&mut self, payload: Vec<u8>)
        ensures
            final(self).payload@ == payload@,
            final(self).header == old(self).header,
            final(self).token@ == old(self).token@,
            final(self).options@ == old(self).options@,
    {
        self.payload = payload;
    }

    /// Appends a value to an option.
    pub fn add_option(&mut self, tp: CoAPOption, value: Vec<u8>)
        ensures
            option_values(final(self).options@, option_number(tp)) == option_values(
                old(self).options@,
                option_number(tp),
            ).push(value@),
            lookup(final(self).options@, option_number(tp)) is Some,
            forall|j: usize| j != option_number(tp) ==> lookup(final(self).options@, j) == lookup(old(self).options@, j),
            final(self).header == old(self).header,
            final(self).token@ == old(self).token@,
            final(self).payload@ == old(self).payload@,
    {
        let num = Self::get_option_number(tp);
        self.options.push_value(num, value);
    }

    /// The values of an option, if the packet has the option.
    pub fn get_option(&self, tp: CoAPOption) -> (r: Option<&Vec<Vec<u8>>>)
        ensures
            r is Some == lookup(self.options@, option_number(tp)) is Some,
            r matches Some(v) ==> crate::wire::values_view(*v) == lookup(self.options@, option_number(tp)).unwrap(),
    {
        let num = Self::get_option_number(tp);
        self.options.get(num)
    }

    /// Removes all values of an option; the option stays, with no values.
    pub fn clear_option(&mut self, tp: CoAPOption)
        ensures
            lookup(final(self).options@, option_number(tp)) == match lookup(old(self).options@, option_number(tp)) {
                Some(_) => Some(Seq::<Seq<u8>>::empty()),
                None => None,
            },
            forall|j: usize| j != option_number(tp) ==> lookup(final(self).options@, j) == lookup(old(self).options@, j),
            final(self).header == old(self).header,
            final(self).token@ == old(self).token@,
            final(self).payload@ == old(self).payload@,
    {
        let num = Self::get_option_number(tp);
        self.options.clear_values(num);
    }

    /// The content format that the first Content-Format value names.
    pub fn get_content_format(&self) -> (r: Option<ContentFormat>)
        requires
            content_format_readable(self.options@),
        ensures
            r == content_format_in(self.options@),
    {
        if let Some(list) = self.get_option(CoAPOption::ContentFormat) {
            if list.len() > 0 {
                let vector = &list[0];
                assert(vector@ == option_values(self.options@, 12)[0]);
                let msb = vector[0] as u16;
                let lsb = vector[1] as u16;
                let number = msb * 256 + lsb;
                return ContentFormat::from_u16(number);
            }
        }
        None
    }

    /// Makes `value` the only Observe value.
    pub fn set_observe(&mut self, value: Vec<u8>)
        ensures
            lookup(final(self).options@, 6) == Some(seq![value@]),
            forall|j: usize| j != 6 ==> lookup(final(self).options@, j) == lookup(old(self).options@, j),
            final(self).header == old(self).header,
            final(self).token@ == old(self).token@,
            final(self).payload@ == old(self).payload@,
    {
        self.clear_option(CoAPOption::Observe);
        self.add_option(CoAPOption::Observe, value);
        assert(Seq::<Seq<u8>>::empty().push(value@) =~= seq![value@]);
    }

    /// The first Observe value.
    pub fn get_observe(&self) -> (r: Option<&Vec<u8>>)
        ensures
            r is Some == observe_in(self.options@) is Some,
            r matches Some(v) ==> v@ == observe_in(self.options@).unwrap(),
    {
        if let Some(list) = self.get_option(CoAPOption::Observe) {
            if list.len() > 0 {
                return Some(&list[0]);
            }
        }
        None
    }

    /// Decodes a byte slice and constructs the equivalent packet.
    pub fn from_bytes(buf: &[u8]) -> (r: Result<Packet, ParseError>)
        ensures
            match parse_packet(buf@) {
                Ok(m) => r matches Ok(p) && p@ == m,
                Err(e) => r matches Err(e2) && e2 == e,
            },
            r matches Ok(p) ==> p.token@.len() == token_length_of(p.header.ver_type_tkl),
    {
        let raw = match decode_header_bytes(buf) {
            Ok(t) => t,
            Err(_) => {
                return Err(ParseError::InvalidHeader);
            },
        };
        let header = Header::from_raw(&HeaderRaw { ver_type_tkl: raw.0, code: raw.1, message_id: raw.2 });
        let token_length = header.get_token_length();
        if token_length > 8 {
            return Err(ParseError::InvalidTokenLength);
        }
        let options_start: usize = 4 + token_length as usize;
        if options_start > buf.len() {
            return Err(ParseError::InvalidTokenLength);
        }
        let token = slice_to_vec(slice_subrange(buf, 4, options_start));
        let (options, idx) = match OptionMap::decode(buf, options_start) {
            Ok(p) => p,
            Err(OptionsError::InvalidOptionDelta) => {
                return Err(ParseError::InvalidOptionDelta);
            },
            Err(OptionsError::InvalidOptionLength) => {
                return Err(ParseError::InvalidOptionLength);
            },
        };
        let payload = if idx < buf.len() {
            slice_to_vec(slice_subrange(buf, idx + 1, buf.len()))
        } else {
            Vec::new()
        };
        let p = Packet { header, token, options, payload };
        assert(p@ =~= parse_packet(buf@).unwrap());
        Ok(p)
    }

    /// Returns the bytes of the packet.
    pub fn to_bytes(&self) -> (r: Result<Vec<u8>, PackageError>)
        ensures
            match serialize_packet(self@) {
                Ok(b) => r matches Ok(v) && v@ == b,
                Err(e) => r matches Err(e2) && e2 == e,
            },
    {
        let options_bytes = self.options.encode();
        let marker = self.header.code != MessageClass::Empty && self.payload.len() != 0;
        if self.payload.len() > 1280 || self.token.len() > 1280 || options_bytes.len() > 1280 {
            return Err(PackageError::InvalidPacketLength);
        }
        let mut buf_length = 4 + self.payload.len() + self.token.len();
        if marker {
            buf_length = buf_length + 1;
        }
        buf_length = buf_length + options_bytes.len();
        if buf_length > 1280 {
            return Err(PackageError::InvalidPacketLength);
        }
        let raw = self.header.to_raw();
        let mut buf: Vec<u8> = Vec::with_capacity(buf_length);
        match encode_header_bytes(&mut buf, (raw.ver_type_tkl, raw.code, raw.message_id)) {
            Ok(_) => {},
            Err(_) => {
                return Err(PackageError::InvalidHeader);
            },
        }
        append_bytes(&mut buf, self.token.as_slice());
        append_bytes(&mut buf, options_bytes.as_slice());
        if marker {
            buf.push(0xFF);
            append_bytes(&mut buf, self.payload.as_slice());
        }
        assert(buf@ =~= serialize_packet(self@).unwrap());
        Ok(buf)
    }
}

/// Whether a packet is read back unchanged from the bytes it is written to:
/// its token length is the header's and at most 8, its options are sorted
/// and encodable, and it has no payload that would be dropped (a payload
/// needs a non-empty code).
pub open spec fn roundtrips(p: PacketModel) -> bool {
    &&& p.token.len() == token_length_of(p.header.ver_type_tkl)
    &&& p.token.len() <= 8
    &&& sorted_numbers(p.options)
    &&& encodable_options(p.options)
    &&& (p.payload.len() == 0 || p.header.code != MessageClass::Empty)
}

/// Reading back what `to_bytes` wrote gives the same packet.
pub proof fn lemma_packet_roundtrip(p: PacketModel)
    requires
        roundtrips(p),
        serialize_packet(p) is Ok,
    ensures
        parse_packet(serialize_packet(p).unwrap()) == Ok::<PacketModel, ParseError>(p),
{
    let b = serialize_packet(p).unwrap();
    let head = seq![
        p.header.ver_type_tkl,
        spec_class_to_code(p.header.code),
        (p.header.message_id / 256) as u8,
        (p.header.message_id % 256) as u8,
    ];
    let pre = head + p.token;
    let opts = encode_options(p.options);
    let tail: Seq<u8> = if writes_payload(p) { seq![0xFFu8] + p.payload } else { Seq::empty() };
    assert(b == pre + opts + tail);
    lemma_options_roundtrip(pre, p.options, tail);
    lemma_class_code_roundtrip(p.header.code);
    assert(b[0] == p.header.ver_type_tkl);
    assert(b[1] == spec_class_to_code(p.header.code));
    assert(b[2] == (p.header.message_id / 256) as u8);
    assert(b[3] == (p.header.message_id % 256) as u8);
    let tkl = token_length_of(b[0]);
    assert(pre.len() == 4 + tkl);
    assert(b.subrange(4, 4 + tkl) =~= p.token);
    let end = (pre.len() + opts.len()) as int;
    if writes_payload(p) {
        assert(end < b.len());
        assert(b.subrange(end + 1, b.len() as int) =~= p.payload);
    } else {
        assert(end == b.len());
        assert(p.payload =~= Seq::<u8>::empty());
    }
    let m = parse_packet(b).unwrap();
    assert(m.header == p.header);
    assert(m.token == p.token);
}

/// A content format's number, written as two bytes and read back, names the
/// same content format: `get_content_format` after `set_content_format` on a
/// packet without a Content-Format value gives the format back.
pub proof fn lemma_content_format_roundtrip(before: OptionsView, after: OptionsView, cf: ContentFormat)
    requires
        option_values(before, 12).len() == 0,
        option_values(after, 12) == option_values(before, 12).push(
            seq![(content_format_number(cf) / 256) as u8, (content_format_number(cf) % 256) as u8],
        ),
    ensures
        content_format_readable(after),
        content_format_in(after) == Some(cf),
{
    let n = content_format_number(cf);
    let v = option_values(after, 12)[0];
    assert(v == seq![(n / 256) as u8, (n % 256) as u8]);
    assert((v[0] as int * 256 + v[1] as int) as u16 == n);
}

/// After `set_observe(v)`, `get_observe` gives `v`.
pub proof fn lemma_observe_roundtrip(options: OptionsView, v: Seq<u8>)
    requires
        lookup(options, 6) == Some(seq![v]),
    ensures
        observe_in(options) == Some(v),
{
}

} // verus!
