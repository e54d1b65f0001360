//! The fixed four-byte CoAP message header and the message codes.

use vstd::prelude::*;
use crate::text::{lemma_char_digit_of_digit, digit_char, append_decimal, decimal, digit_str, parse_u8_text, two_digits, all_digits, char_digit, digits_value};

verus! {

/// The header as it stands on the wire: the version/type/token-length
/// byte, the code byte and the message id.
#[derive(Debug, Clone, Copy, PartialEq, Eq)]
pub struct HeaderRaw {
    pub ver_type_tkl: u8,
    pub code: u8,
    pub message_id: u16,
}

impl Default for HeaderRaw {
    fn default() -> (r: HeaderRaw)
        ensures
            r == (HeaderRaw { ver_type_tkl: 0, code: 0, message_id: 0 }),
    {
        HeaderRaw { ver_type_tkl: 0, code: 0, message_id: 0 }
    }
}

/// The class of a message code: empty, request, response or reserved.
#[derive(Debug, Clone, Copy, PartialEq, Eq, Structural)]
pub enum MessageClass {
    Empty,
    RequestType(Requests),
    ResponseType(Responses),
    Reserved,
}

/// Request methods.
#[derive(Debug, Clone, Copy, PartialEq, Eq, Structural)]
pub enum Requests {
    Get,
    Post,
    Put,
    Delete,
}

/// Response codes.
#[derive(Debug, Clone, Copy, PartialEq, Eq, Structural)]
pub enum Responses {
    // 200 Codes
    Created,
    Deleted,
    Valid,
    Changed,
    Content,
    // 400 Codes
    BadRequest,
    Unauthorized,
    BadOption,
    Forbidden,
    NotFound,
    MethodNotAllowed,
    NotAcceptable,
    PreconditionFailed,
    RequestEntityTooLarge,
    UnsupportedContentFormat,
    // 500 Codes
    InternalServerError,
    NotImplemented,
    BadGateway,
    ServiceUnavailable,
    GatewayTimeout,
    ProxyingNotSupported,
}

/// Message types.
#[derive(Debug, Clone, Copy, PartialEq, Eq, Structural)]
pub enum MessageType {
    Confirmable,
    NonConfirmable,
    Acknowledgement,
    Reset,
    Invalid,
}

/// A decoded header: the version/type/token-length byte, the message class
/// of the code and the message id.
#[derive(Debug, Clone, Copy, PartialEq, Eq, Structural)]
pub struct Header {
    pub ver_type_tkl: u8,
    pub code: MessageClass,
    pub message_id: u16,
}

// ---- the version/type/token-length byte ----

/// The version bits (the top two) of the first header byte.
pub open spec fn version_of(vtt: u8) -> u8 {
    vtt >> 6
}

/// The type bits (bits 4 and 5) of the first header byte.
pub open spec fn type_bits_of(vtt: u8) -> u8 {
    (vtt & 0x30) >> 4
}

/// The token-length bits (the low four) of the first header byte.
pub open spec fn token_length_of(vtt: u8) -> u8 {
    vtt & 0x0F
}

/// The first header byte with its version bits replaced by `v`.
pub open spec fn with_version(vtt: u8, v: u8) -> u8 {
    ((v << 6) | (vtt & 0x3F)) as u8
}

/// The first header byte with its type bits replaced by `tn`.
pub open spec fn with_type_bits(vtt: u8, tn: u8) -> u8 {
    ((tn << 4) | (vtt & 0xCF)) as u8
}

/// The first header byte with its token-length bits replaced by `tkl`.
pub open spec fn with_token_length(vtt: u8, tkl: u8) -> u8 {
    (tkl | (vtt & 0xF0)) as u8
}

/// The number of a message type on the wire (for the four valid types).
pub open spec fn type_number(t: MessageType) -> u8 {
    match t {
        MessageType::Confirmable => 0,
        MessageType::NonConfirmable => 1,
        MessageType::Acknowledgement => 2,
        MessageType::Reset => 3,
        MessageType::Invalid => 0,
    }
}

/// The message type of the type bits of a first header byte.
pub open spec fn type_of(vtt: u8) -> MessageType {
    let tn = type_bits_of(vtt);
    if tn == 0 {
        MessageType::Confirmable
    } else if tn == 1 {
        MessageType::NonConfirmable
    } else if tn == 2 {
        MessageType::Acknowledgement
    } else if tn == 3 {
        MessageType::Reset
    } else {
        MessageType::Invalid
    }
}

// ---- message codes ----

/// The code byte of a message class.
pub open spec fn spec_class_to_code(class: MessageClass) -> u8 {
    match class {
        MessageClass::Empty => 0x00,
        MessageClass::RequestType(r) => match r {
            Requests::Get => 0x01,
            Requests::Post => 0x02,
            Requests::Put => 0x03,
            Requests::Delete => 0x04,
        },
        MessageClass::ResponseType(r) => match r {
            Responses::Created => 0x41,
            Responses::Deleted => 0x42,
            Responses::Valid => 0x43,
            Responses::Changed => 0x44,
            Responses::Content => 0x45,
            Responses::BadRequest => 0x80,
            Responses::Unauthorized => 0x81,
            Responses::BadOption => 0x82,
            Responses::Forbidden => 0x83,
            Responses::NotFound => 0x84,
            Responses::MethodNotAllowed => 0x85,
            Responses::NotAcceptable => 0x86,
            Responses::PreconditionFailed => 0x8C,
            Responses::RequestEntityTooLarge => 0x8D,
            Responses::UnsupportedContentFormat => 0x8F,
            Responses::InternalServerError => 0x90,
            Responses::NotImplemented => 0x91,
            Responses::BadGateway => 0x92,
            Responses::ServiceUnavailable => 0x93,
            Responses::GatewayTimeout => 0x94,
            Responses::ProxyingNotSupported => 0x95,
        },
        MessageClass::Reserved => 0xFF,
    }
}

/// The message class of a code byte; codes without a class are `Reserved`.
pub open spec fn spec_code_to_class(code: u8) -> MessageClass {
    if code == 0x00 { MessageClass::Empty }
    else if code == 0x01 { MessageClass::RequestType(Requests::Get) }
    else if code == 0x02 { MessageClass::RequestType(Requests::Post) }
    else if code == 0x03 { MessageClass::RequestType(Requests::Put) }
    else if code == 0x04 { MessageClass::RequestType(Requests::Delete) }
    else if code == 0x41 { MessageClass::ResponseType(Responses::Created) }
    else if code == 0x42 { MessageClass::ResponseType(Responses::Deleted) }
    else if code == 0x43 { MessageClass::ResponseType(Responses::Valid) }
    else if code == 0x44 { MessageClass::ResponseType(Responses::Changed) }
    else if code == 0x45 { MessageClass::ResponseType(Responses::Content) }
    else if code == 0x80 { MessageClass::ResponseType(Responses::BadRequest) }
    else if code == 0x81 { MessageClass::ResponseType(Responses::Unauthorized) }
    else if code == 0x82 { MessageClass::ResponseType(Responses::BadOption) }
    else if code == 0x83 { MessageClass::ResponseType(Responses::Forbidden) }
    else if code == 0x84 { MessageClass::ResponseType(Responses::NotFound) }
    else if code == 0x85 { MessageClass::ResponseType(Responses::MethodNotAllowed) }
    else if code == 0x86 { MessageClass::ResponseType(Responses::NotAcceptable) }
    else if code == 0x8C { MessageClass::ResponseType(Responses::PreconditionFailed) }
    else if code == 0x8D { MessageClass::ResponseType(Responses::RequestEntityTooLarge) }
    else if code == 0x8F { MessageClass::ResponseType(Responses::UnsupportedContentFormat) }
    else if code == 0x90 { MessageClass::ResponseType(Responses::InternalServerError) }
    else if code == 0x91 { MessageClass::ResponseType(Responses::NotImplemented) }
    else if code == 0x92 { MessageClass::ResponseType(Responses::BadGateway) }
    else if code == 0x93 { MessageClass::ResponseType(Responses::ServiceUnavailable) }
    else if code == 0x94 { MessageClass::ResponseType(Responses::GatewayTimeout) }
    else if code == 0x95 { MessageClass::ResponseType(Responses::ProxyingNotSupported) }
    else { MessageClass::Reserved }
}

/// The text of a code byte: the class digit, a dot and the two-digit detail
/// (`"2.05"` for `0x45`).
pub open spec fn code_text(code: u8) -> Seq<char> {
    decimal(((code & 0xE0) >> 5) as nat) + seq!['.'] + two_digits((code & 0x1F) as nat)
}

/// Whether `s` has a dot at `i` and at no other position.
pub open spec fn single_dot_at(s: Seq<char>, i: int) -> bool {
    &&& 0 <= i < s.len()
    &&& s[i] == '.'
    &&& forall|j: int| 0 <= j < s.len() && j != i ==> s[j] != '.'
}

/// The class and detail numbers that `Header::set_code` reads from a text:
/// exactly two dot-separated parts, each a `u8` in `u8::from_str` syntax, the
/// class below 8 and the detail below 32.
pub open spec fn parse_code_text(s: Seq<char>) -> Option<(u8, u8)> {
    if exists|i: int| single_dot_at(s, i) {
        let i = choose|i: int| single_dot_at(s, i);
        match (parse_u8_text(s.take(i)), parse_u8_text(s.skip(i + 1))) {
            (Some(c), Some(d)) => if c < 8 && d < 32 { Some((c, d)) } else { None },
            _ => None,
        }
    } else {
        None
    }
}

pub fn class_to_code(class: &MessageClass) -> (r: u8)
    ensures
        r == spec_class_to_code(*class),
{
    match *class {
        MessageClass::Empty => 0x00,
        MessageClass::RequestType(Requests::Get) => 0x01,
        MessageClass::RequestType(Requests::Post) => 0x02,
        MessageClass::RequestType(Requests::Put) => 0x03,
        MessageClass::RequestType(Requests::Delete) => 0x04,
        MessageClass::ResponseType(Responses::Created) => 0x41,
        MessageClass::ResponseType(Responses::Deleted) => 0x42,
        MessageClass::ResponseType(Responses::Valid) => 0x43,
        MessageClass::ResponseType(Responses::Changed) => 0x44,
        MessageClass::ResponseType(Responses::Content) => 0x45,
        MessageClass::ResponseType(Responses::BadRequest) => 0x80,
        MessageClass::ResponseType(Responses::Unauthorized) => 0x81,
        MessageClass::ResponseType(Responses::BadOption) => 0x82,
        MessageClass::ResponseType(Responses::Forbidden) => 0x83,
        MessageClass::ResponseType(Responses::NotFound) => 0x84,
        MessageClass::ResponseType(Responses::MethodNotAllowed) => 0x85,
        MessageClass::ResponseType(Responses::NotAcceptable) => 0x86,
        MessageClass::ResponseType(Responses::PreconditionFailed) => 0x8C,
        MessageClass::ResponseType(Responses::RequestEntityTooLarge) => 0x8D,
        MessageClass::ResponseType(Responses::UnsupportedContentFormat) => 0x8F,
        MessageClass::ResponseType(Responses::InternalServerError) => 0x90,
        MessageClass::ResponseType(Responses::NotImplemented) => 0x91,
        MessageClass::ResponseType(Responses::BadGateway) => 0x92,
        MessageClass::ResponseType(Responses::ServiceUnavailable) => 0x93,
        MessageClass::ResponseType(Responses::GatewayTimeout) => 0x94,
        MessageClass::ResponseType(Responses::ProxyingNotSupported) => 0x95,
        _ => 0xFF,
    }
}

pub fn code_to_class(code: &u8) -> (r: MessageClass)
    ensures
        r == spec_code_to_class(*code),
{
    match *code {
        0x00 => MessageClass::Empty,
        0x01 => MessageClass::RequestType(Requests::Get),
        0x02 => MessageClass::RequestType(Requests::Post),
        0x03 => MessageClass::RequestType(Requests::Put),
        0x04 => MessageClass::RequestType(Requests::Delete),
        0x41 => MessageClass::ResponseType(Responses::Created),
        0x42 => MessageClass::ResponseType(Responses::Deleted),
        0x43 => MessageClass::ResponseType(Responses::Valid),
        0x44 => MessageClass::ResponseType(Responses::Changed),
        0x45 => MessageClass::ResponseType(Responses::Content),
        0x80 => MessageClass::ResponseType(Responses::BadRequest),
        0x81 => MessageClass::ResponseType(Responses::Unauthorized),
        0x82 => MessageClass::ResponseType(Responses::BadOption),
        0x83 => MessageClass::ResponseType(Responses::Forbidden),
        0x84 => MessageClass::ResponseType(Responses::NotFound),
        0x85 => MessageClass::ResponseType(Responses::MethodNotAllowed),
        0x86 => MessageClass::ResponseType(Responses::NotAcceptable),
        0x8C => MessageClass::ResponseType(Responses::PreconditionFailed),
        0x8D => MessageClass::ResponseType(Responses::RequestEntityTooLarge),
        0x8F => MessageClass::ResponseType(Responses::UnsupportedContentFormat),
        0x90 => MessageClass::ResponseType(Responses::InternalServerError),
        0x91 => MessageClass::ResponseType(Responses::NotImplemented),
        0x92 => MessageClass::ResponseType(Responses::BadGateway),
        0x93 => MessageClass::ResponseType(Responses::ServiceUnavailable),
        0x94 => MessageClass::ResponseType(Responses::GatewayTimeout),
        0x95 => MessageClass::ResponseType(Responses::ProxyingNotSupported),
        _ => MessageClass::Reserved,
    }
}

pub fn code_to_str(code: &u8) -> (s: String)
    ensures
        s@ == code_text(*code),
{
    let class_code = (0xE0 & *code) >> 5;
    let detail_code = 0x1F & *code;
    assert(class_code < 8) by (bit_vector)
        requires
            class_code == (0xE0 & *code) >> 5,
    ;
    assert(detail_code < 32) by (bit_vector)
        requires
            detail_code == 0x1F & *code,
    ;
    let mut s = String::new();
    append_decimal(&mut s, class_code as usize);
    s.append(".");
    s.append(digit_str(detail_code / 10));
    s.append(digit_str(detail_code % 10));
    proof {
        reveal_strlit(".");
        assert((0xE0 & *code) >> 5 == (*code & 0xE0) >> 5) by (bit_vector);
        assert(0x1F & *code == *code & 0x1F) by (bit_vector);
    }
    assert(s@ =~= code_text(*code));
    s
}

pub fn class_to_str(class: &MessageClass) -> (s: String)
    ensures
        s@ == code_text(spec_class_to_code(*class)),
{
    code_to_str(&class_to_code(class))
}

/// Reads the class and detail numbers of a code text such as `"2.05"`.
pub fn parse_code_str(code: &str) -> (r: Option<(u8, u8)>)
    ensures
        r == parse_code_text(code@),
{
    let n = code.unicode_len();
    let mut dots: usize = 0;
    let mut dot_at: usize = 0;
    let mut k: usize = 0;
    while k < n
        invariant
            n == code@.len(),
            k <= n,
            dots <= k,
            dots == 0 ==> forall|j: int| 0 <= j < k ==> code@[j] != '.',
            dots >= 1 ==> dot_at < k && code@[dot_at as int] == '.',
            dots == 1 ==> forall|j: int| 0 <= j < k && j != dot_at ==> code@[j] != '.',
            dots >= 2 ==> exists|j: int| 0 <= j < k && j != dot_at && code@[j] == '.',
        decreases n - k,
    {
        let c = code.get_char(k);
        if c == '.' {
            if dots == 0 {
                dot_at = k;
            }
            dots = dots + 1;
        }
        k = k + 1;
    }
    if dots != 1 {
        proof {
            if exists|i: int| single_dot_at(code@, i) {
                let i = choose|i: int| single_dot_at(code@, i);
                if dots >= 2 {
                    let j = choose|j: int| 0 <= j < k && j != dot_at && code@[j] == '.';
                    assert(code@[dot_at as int] == '.');
                }
            }
        }
        return None;
    }
    proof {
        assert(single_dot_at(code@, dot_at as int));
        let i = choose|i: int| single_dot_at(code@, i);
        assert(i == dot_at);
    }
    let class = parse_u8_range(code, 0, dot_at);
    let detail = parse_u8_range(code, dot_at + 1, n);
    proof {
        assert(code@.take(dot_at as int) =~= code@.subrange(0, dot_at as int));
        assert(code@.skip(dot_at + 1) =~= code@.subrange(dot_at + 1, n as int));
    }
    match (class, detail) {
        (Some(c), Some(d)) => {
            if c < 8 && d < 32 {
                Some((c, d))
            } else {
                None
            }
        },
        _ => None,
    }
}

/// Reads the characters `from..to` of `s` as a `u8` in `u8::from_str` syntax.
fn parse_u8_range(s: &str, from: usize, to: usize) -> (r: Option<u8>)
    requires
        from <= to <= s@.len(),
    ensures
        r == parse_u8_text(s@.subrange(from as int, to as int)),
{
    let ghost text = s@.subrange(from as int, to as int);
    let mut start = from;
    if from < to && s.get_char(from) == '+' {
        start = from + 1;
    }
    let ghost digits = s@.subrange(start as int, to as int);
    assert(digits =~= if text.len() > 0 && text[0] == '+' { text.drop_first() } else { text });
    if start >= to {
        return None;
    }
    let mut value: u32 = 0;
    let mut k = start;
    while k < to
        invariant
            from <= start < to <= s@.len(),
            text == s@.subrange(from as int, to as int),
            digits == s@.subrange(start as int, to as int),
            digits == (if text.len() > 0 && text[0] == '+' { text.drop_first() } else { text }),
            start <= k <= to,
            all_digits(s@.subrange(start as int, k as int)),
            value == digits_value(s@.subrange(start as int, k as int)),
            value <= 255,
        decreases to - k,
    {
        let c = s.get_char(k);
        let ghost prefix = s@.subrange(start as int, k as int);
        let ghost next = s@.subrange(start as int, k + 1);
        assert(next.drop_last() =~= prefix);
        if !('0' <= c && c <= '9') {
            proof {
                assert(digits[k - start] == c);
                assert(char_digit(digits[k - start]) is None);
            }
            return None;
        }
        let d = (c as u32) - ('0' as u32);
        value = value * 10 + d;
        proof {
            assert(next.last() == c);
            assert forall|i: int| 0 <= i < next.len() implies (#[trigger] char_digit(next[i])) is Some by {
                if i < prefix.len() {
                    assert(next[i] == prefix[i]);
                }
            }
        }
        if value > 255 {
            proof {
                lemma_digits_value_prefix_grows(digits, (k + 1 - start) as int);
                assert(digits.take((k + 1 - start) as int) =~= next);
                assert(value == digits_value(next));
            }
            return None;
        }
        k = k + 1;
    }
    assert(s@.subrange(start as int, to as int) =~= digits);
    Some(value as u8)
}

/// A digit string is worth at least as much as any prefix of it.
proof fn lemma_digits_value_prefix_grows(s: Seq<char>, n: int)
    requires
        0 <= n <= s.len(),
    ensures
        all_digits(s) ==> digits_value(s) >= digits_value(s.take(n)),
    decreases s.len(),
{
    if n < s.len() {
        assert(s.drop_last().take(n) =~= s.take(n));
        if all_digits(s) {
            assert forall|i: int| 0 <= i < s.drop_last().len() implies
                (#[trigger] char_digit(s.drop_last()[i])) is Some by {
                assert(s.drop_last()[i] == s[i]);
            }
        }
        lemma_digits_value_prefix_grows(s.drop_last(), n);
    } else {
        assert(s.take(n) =~= s);
    }
}

impl Header {
    pub fn new() -> (h: Header)
        ensures
            h == (Header { ver_type_tkl: 0, code: MessageClass::Empty, message_id: 0 }),
    {
        Header::from_raw(&HeaderRaw::default())
    }

    pub fn from_raw(raw: &HeaderRaw) -> (h: Header)
        ensures
            h == (Header {
                ver_type_tkl: raw.ver_type_tkl,
                code: spec_code_to_class(raw.code),
                message_id: raw.message_id,
            }),
    {
        Header {
            ver_type_tkl: raw.ver_type_tkl,
            code: code_to_class(&raw.code),
            message_id: raw.message_id,
        }
    }

    pub fn to_raw(&self) -> (raw: HeaderRaw)
        ensures
            raw == (HeaderRaw {
                ver_type_tkl: self.ver_type_tkl,
                code: spec_class_to_code(self.code),
                message_id: self.message_id,
            }),
    {
        HeaderRaw {
            ver_type_tkl: self.ver_type_tkl,
            code: class_to_code(&self.code),
            message_id: self.message_id,
        }
    }

    pub fn set_version(&mut self, v: u8)
        ensures
            *final(self) == (Header {
                ver_type_tkl: with_version(old(self).ver_type_tkl, v),
                ..*old(self)
            }),
    {
        let type_tkl = 0x3F & self.ver_type_tkl;
        self.ver_type_tkl = v << 6 | type_tkl;
        proof {
            let o = old(self).ver_type_tkl;
            assert((v << 6 | (0x3F & o)) == ((v << 6) | (o & 0x3F)) as u8) by (bit_vector);
        }
    }

    pub fn get_version(&self) -> (v: u8)
        ensures
            v == version_of(self.ver_type_tkl),
    {
        self.ver_type_tkl >> 6
    }

    pub fn set_type(&mut self, t: MessageType)
        requires
            t != MessageType::Invalid,
        ensures
            *final(self) == (Header {
                ver_type_tkl: with_type_bits(old(self).ver_type_tkl, type_number(t)),
                ..*old(self)
            }),
    {
        let tn: u8 = match t {
            MessageType::Confirmable => 0,
            MessageType::NonConfirmable => 1,
            MessageType::Acknowledgement => 2,
            _ => 3,
        };
        let ver_tkl = 0xCF & self.ver_type_tkl;
        self.ver_type_tkl = tn << 4 | ver_tkl;
        proof {
            let o = old(self).ver_type_tkl;
            assert((tn << 4 | (0xCF & o)) == ((tn << 4) | (o & 0xCF)) as u8) by (bit_vector);
        }
    }

    pub fn get_type(&self) -> (t: MessageType)
        ensures
            t == type_of(self.ver_type_tkl),
    {
        let tn = (0x30 & self.ver_type_tkl) >> 4;
        proof {
            let o = self.ver_type_tkl;
            assert((0x30 & o) >> 4 == (o & 0x30) >> 4) by (bit_vector);
        }
        match tn {
            0 => MessageType::Confirmable,
            1 => MessageType::NonConfirmable,
            2 => MessageType::Acknowledgement,
            3 => MessageType::Reset,
            _ => MessageType::Invalid,
        }
    }

    pub fn set_token_length(&mut self, tkl: u8)
        requires
            tkl & 0xF0 == 0,
        ensures
            *final(self) == (Header {
                ver_type_tkl: with_token_length(old(self).ver_type_tkl, tkl),
                ..*old(self)
            }),
    {
        let ver_type = 0xF0 & self.ver_type_tkl;
        self.ver_type_tkl = tkl | ver_type;
        proof {
            let o = old(self).ver_type_tkl;
            assert((tkl | (0xF0 & o)) == (tkl | (o & 0xF0)) as u8) by (bit_vector);
        }
    }

    pub fn get_token_length(&self) -> (tkl: u8)
        ensures
            tkl == token_length_of(self.ver_type_tkl),
    {
        let r = 0x0F & self.ver_type_tkl;
        proof {
            let o = self.ver_type_tkl;
            assert(0x0F & o == o & 0x0F) by (bit_vector);
        }
        r
    }

    /// Sets the code from its text, such as `"0.01"` for GET.
    pub fn set_code(&mut self, code: &str)
        requires
            parse_code_text(code@) is Some,
        ensures
            *final(self) == (Header {
                code: spec_code_to_class(
                    ((parse_code_text(code@).unwrap().0 << 5) | parse_code_text(code@).unwrap().1) as u8,
                ),
                ..*old(self)
            }),
    {
        let parsed = parse_code_str(code);
        let (class_code, detail_code) = parsed.unwrap();
        self.code = code_to_class(&(class_code << 5 | detail_code));
    }

    pub fn get_code(&self) -> (s: String)
        ensures
            s@ == code_text(spec_class_to_code(self.code)),
    {
        class_to_str(&self.code)
    }

    pub fn set_message_id(&mut self, message_id: u16)
        ensures
            *final(self) == (Header { message_id: message_id, ..*old(self) }),
    {
        self.message_id = message_id;
    }

    pub fn get_message_id(&self) -> (id: u16)
        ensures
            id == self.message_id,
    {
        self.message_id
    }
}


// ---- laws ----

/// Decoding a code byte to its class and encoding the class again gives the
/// code byte back, for every code that has a class.
pub proof fn lemma_code_class_roundtrip(code: u8)
    ensures
        spec_code_to_class(code) != MessageClass::Reserved ==> spec_class_to_code(
            spec_code_to_class(code),
        ) == code,
{
}

/// Encoding a class and decoding the code gives the class back, for every
/// class (`Reserved` goes to `0xFF` and back).
pub proof fn lemma_class_code_roundtrip(class: MessageClass)
    ensures
        spec_code_to_class(spec_class_to_code(class)) == class,
{
}

/// Every message class has its fixed code, and that code decodes to the
/// class: the empty message, the methods and the 2.xx and 4.xx responses
/// have the code of the CoAP registry (RFC 7252, 12.1), the class digit
/// times 32 plus the detail (`c.dd` is `c << 5 | dd`); the server errors
/// take the codes 0x90 to 0x95, their detail added to 0x90.  Every other
/// code is `Reserved`, which encodes as 0xFF; every response code has a
/// class digit from 2 to 5.
pub proof fn lemma_registry_codes()
    ensures
        spec_class_to_code(MessageClass::Empty) == 0 * 32 + 0,
        spec_code_to_class((0 * 32 + 0) as u8) == MessageClass::Empty,
        spec_class_to_code(MessageClass::RequestType(Requests::Get)) == 0 * 32 + 1,
        spec_code_to_class((0 * 32 + 1) as u8) == MessageClass::RequestType(Requests::Get),
        spec_class_to_code(MessageClass::RequestType(Requests::Post)) == 0 * 32 + 2,
        spec_code_to_class((0 * 32 + 2) as u8) == MessageClass::RequestType(Requests::Post),
        spec_class_to_code(MessageClass::RequestType(Requests::Put)) == 0 * 32 + 3,
        spec_code_to_class((0 * 32 + 3) as u8) == MessageClass::RequestType(Requests::Put),
        spec_class_to_code(MessageClass::RequestType(Requests::Delete)) == 0 * 32 + 4,
        spec_code_to_class((0 * 32 + 4) as u8) == MessageClass::RequestType(Requests::Delete),
        spec_class_to_code(MessageClass::ResponseType(Responses::Created)) == 2 * 32 + 1,
        spec_code_to_class((2 * 32 + 1) as u8) == MessageClass::ResponseType(Responses::Created),
        spec_class_to_code(MessageClass::ResponseType(Responses::Deleted)) == 2 * 32 + 2,
        spec_code_to_class((2 * 32 + 2) as u8) == MessageClass::ResponseType(Responses::Deleted),
        spec_class_to_code(MessageClass::ResponseType(Responses::Valid)) == 2 * 32 + 3,
        spec_code_to_class((2 * 32 + 3) as u8) == MessageClass::ResponseType(Responses::Valid),
        spec_class_to_code(MessageClass::ResponseType(Responses::Changed)) == 2 * 32 + 4,
        spec_code_to_class((2 * 32 + 4) as u8) == MessageClass::ResponseType(Responses::Changed),
        spec_class_to_code(MessageClass::ResponseType(Responses::Content)) == 2 * 32 + 5,
        spec_code_to_class((2 * 32 + 5) as u8) == MessageClass::ResponseType(Responses::Content),
        spec_class_to_code(MessageClass::ResponseType(Responses::BadRequest)) == 4 * 32 + 0,
        spec_code_to_class((4 * 32 + 0) as u8) == MessageClass::ResponseType(Responses::BadRequest),
        spec_class_to_code(MessageClass::ResponseType(Responses::Unauthorized)) == 4 * 32 + 1,
        spec_code_to_class((4 * 32 + 1) as u8) == MessageClass::ResponseType(Responses::Unauthorized),
        spec_class_to_code(MessageClass::ResponseType(Responses::BadOption)) == 4 * 32 + 2,
        spec_code_to_class((4 * 32 + 2) as u8) == MessageClass::ResponseType(Responses::BadOption),
        spec_class_to_code(MessageClass::ResponseType(Responses::Forbidden)) == 4 * 32 + 3,
        spec_code_to_class((4 * 32 + 3) as u8) == MessageClass::ResponseType(Responses::Forbidden),
        spec_class_to_code(MessageClass::ResponseType(Responses::NotFound)) == 4 * 32 + 4,
        spec_code_to_class((4 * 32 + 4) as u8) == MessageClass::ResponseType(Responses::NotFound),
        spec_class_to_code(MessageClass::ResponseType(Responses::MethodNotAllowed)) == 4 * 32 + 5,
        spec_code_to_class((4 * 32 + 5) as u8) == MessageClass::ResponseType(Responses::MethodNotAllowed),
        spec_class_to_code(MessageClass::ResponseType(Responses::NotAcceptable)) == 4 * 32 + 6,
        spec_code_to_class((4 * 32 + 6) as u8) == MessageClass::ResponseType(Responses::NotAcceptable),
        spec_class_to_code(MessageClass::ResponseType(Responses::PreconditionFailed)) == 4 * 32 + 12,
        spec_code_to_class((4 * 32 + 12) as u8) == MessageClass::ResponseType(Responses::PreconditionFailed),
        spec_class_to_code(MessageClass::ResponseType(Responses::RequestEntityTooLarge)) == 4 * 32 + 13,
        spec_code_to_class((4 * 32 + 13) as u8) == MessageClass::ResponseType(Responses::RequestEntityTooLarge),
        spec_class_to_code(MessageClass::ResponseType(Responses::UnsupportedContentFormat)) == 4 * 32 + 15,
        spec_code_to_class((4 * 32 + 15) as u8) == MessageClass::ResponseType(Responses::UnsupportedContentFormat),
        spec_class_to_code(MessageClass::ResponseType(Responses::InternalServerError)) == 0x90 + 0,
        spec_code_to_class((0x90 + 0) as u8) == MessageClass::ResponseType(Responses::InternalServerError),
        spec_class_to_code(MessageClass::ResponseType(Responses::NotImplemented)) == 0x90 + 1,
        spec_code_to_class((0x90 + 1) as u8) == MessageClass::ResponseType(Responses::NotImplemented),
        spec_class_to_code(MessageClass::ResponseType(Responses::BadGateway)) == 0x90 + 2,
        spec_code_to_class((0x90 + 2) as u8) == MessageClass::ResponseType(Responses::BadGateway),
        spec_class_to_code(MessageClass::ResponseType(Responses::ServiceUnavailable)) == 0x90 + 3,
        spec_code_to_class((0x90 + 3) as u8) == MessageClass::ResponseType(Responses::ServiceUnavailable),
        spec_class_to_code(MessageClass::ResponseType(Responses::GatewayTimeout)) == 0x90 + 4,
        spec_code_to_class((0x90 + 4) as u8) == MessageClass::ResponseType(Responses::GatewayTimeout),
        spec_class_to_code(MessageClass::ResponseType(Responses::ProxyingNotSupported)) == 0x90 + 5,
        spec_code_to_class((0x90 + 5) as u8) == MessageClass::ResponseType(Responses::ProxyingNotSupported),
        spec_class_to_code(MessageClass::Reserved) == 0xFF,
        forall|code: u8| #![trigger spec_code_to_class(code)]
            spec_code_to_class(code) is ResponseType ==> (code >> 5) >= 2 && (code >> 5) <= 5,
{
    assert forall|code: u8| #![trigger spec_code_to_class(code)]
        spec_code_to_class(code) is ResponseType implies (code >> 5) >= 2 && (code >> 5) <= 5 by {
        assert(0x41 <= code <= 0x95 ==> (code >> 5) >= 2 && (code >> 5) <= 5) by (bit_vector);
    }
}

/// A header converted to its raw form and back is the same header.
pub proof fn lemma_header_raw_roundtrip(h: Header)
    ensures
        (Header {
            ver_type_tkl: h.ver_type_tkl,
            code: spec_code_to_class(spec_class_to_code(h.code)),
            message_id: h.message_id,
        }) == h,
{
    lemma_class_code_roundtrip(h.code);
}

/// Setting the version (a number below 4) makes it what `get_version` reads,
/// and leaves the type and the token length unchanged.
pub proof fn lemma_set_version_get_version(vtt: u8, v: u8)
    requires
        v < 4,
    ensures
        version_of(with_version(vtt, v)) == v,
        type_bits_of(with_version(vtt, v)) == type_bits_of(vtt),
        token_length_of(with_version(vtt, v)) == token_length_of(vtt),
{
    assert(v < 4 ==> ((((v << 6) | (vtt & 0x3F)) as u8) >> 6) == v) by (bit_vector);
    assert((((((v << 6) | (vtt & 0x3F)) as u8) & 0x30) >> 4) == ((vtt & 0x30) >> 4)) by (bit_vector);
    assert(((((v << 6) | (vtt & 0x3F)) as u8) & 0x0F) == (vtt & 0x0F)) by (bit_vector);
}

/// Setting a (valid) type makes it what `get_type` reads, and leaves the
/// version and the token length unchanged.
pub proof fn lemma_set_type_get_type(vtt: u8, t: MessageType)
    requires
        t != MessageType::Invalid,
    ensures
        type_of(with_type_bits(vtt, type_number(t))) == t,
        version_of(with_type_bits(vtt, type_number(t))) == version_of(vtt),
        token_length_of(with_type_bits(vtt, type_number(t))) == token_length_of(vtt),
{
    let tn = type_number(t);
    assert(tn < 4 ==> (((((tn << 4) | (vtt & 0xCF)) as u8) & 0x30) >> 4) == tn) by (bit_vector);
    assert(((((tn << 4) | (vtt & 0xCF)) as u8) >> 6) == (vtt >> 6)) by (bit_vector)
        requires
            tn < 4,
    ;
    assert(((((tn << 4) | (vtt & 0xCF)) as u8) & 0x0F) == (vtt & 0x0F)) by (bit_vector);
}

/// Setting a token length below 16 makes it what `get_token_length` reads,
/// and leaves the version and the type unchanged.
pub proof fn lemma_set_token_length_get_token_length(vtt: u8, tkl: u8)
    requires
        tkl & 0xF0 == 0,
    ensures
        token_length_of(with_token_length(vtt, tkl)) == tkl,
        version_of(with_token_length(vtt, tkl)) == version_of(vtt),
        type_bits_of(with_token_length(vtt, tkl)) == type_bits_of(vtt),
{
    assert(tkl & 0xF0 == 0 ==> (((tkl | (vtt & 0xF0)) as u8) & 0x0F) == tkl) by (bit_vector);
    assert(tkl & 0xF0 == 0 ==> (((tkl | (vtt & 0xF0)) as u8) >> 6) == (vtt >> 6)) by (bit_vector);
    assert(tkl & 0xF0 == 0 ==> ((((tkl | (vtt & 0xF0)) as u8) & 0x30) >> 4) == ((vtt & 0x30) >> 4))
        by (bit_vector);
}

/// The text that `get_code` produces is read back by `set_code` as the same
/// code byte: `set_code(&h.get_code())` keeps the code of every header whose
/// class has a code of its own.
pub proof fn lemma_code_text_roundtrip(code: u8)
    ensures
        parse_code_text(code_text(code)) == Some((((code & 0xE0) >> 5) as u8, (code & 0x1F) as u8)),
        ((((code & 0xE0) >> 5) as u8) << 5 | ((code & 0x1F) as u8)) as u8 == code,
{
    let cl = ((code & 0xE0) >> 5) as u8;
    let d = (code & 0x1F) as u8;
    assert(cl < 8) by (bit_vector)
        requires
            cl == ((code & 0xE0) >> 5) as u8,
    ;
    assert(d < 32) by (bit_vector)
        requires
            d == (code & 0x1F) as u8,
    ;
    assert((cl << 5 | d) as u8 == code) by (bit_vector)
        requires
            cl == ((code & 0xE0) >> 5) as u8,
            d == (code & 0x1F) as u8,
    ;
    lemma_char_digit_of_digit(cl as nat);
    lemma_char_digit_of_digit((d / 10) as nat);
    lemma_char_digit_of_digit((d % 10) as nat);
    let s = code_text(code);
    assert(decimal(cl as nat) == seq![digit_char(cl as nat)]);
    assert(s =~= seq![digit_char(cl as nat), '.', digit_char((d / 10) as nat), digit_char((d % 10) as nat)]);
    assert(single_dot_at(s, 1));
    let i = choose|i: int| single_dot_at(s, i);
    assert(i == 1);
    let class_text = s.take(1);
    let detail_text = s.skip(2);
    assert(class_text =~= seq![digit_char(cl as nat)]);
    assert(detail_text =~= seq![digit_char((d / 10) as nat), digit_char((d % 10) as nat)]);
    assert(class_text.drop_last() =~= Seq::<char>::empty());
    assert(detail_text.drop_last() =~= seq![digit_char((d / 10) as nat)]);
    assert(detail_text.drop_last().drop_last() =~= Seq::<char>::empty());
    assert(all_digits(class_text));
    assert(all_digits(detail_text));
    assert(class_text.last() == digit_char(cl as nat));
    assert(digits_value(class_text.drop_last()) == 0);
    assert(digits_value(class_text) == cl);
    assert(digits_value(detail_text.drop_last()) == d / 10);
    assert(digits_value(detail_text) == d);
}

} // verus!
