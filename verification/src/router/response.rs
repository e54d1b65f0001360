//! What a handler answers: a response code and a payload, each optional.

use vstd::prelude::*;
use crate::message::header::Responses;

verus! {

/// Response codes, as in the message header.
pub type StatusCode = Responses;

/// A handler's answer; what is `None` leaves the response as it was.
#[derive(Debug, Clone)]
pub struct Response {
    pub status_code: Option<StatusCode>,
    pub payload: Option<Vec<u8>>,
}

impl Response {
    /// An answer that changes nothing.
    pub fn new() -> (r: Response)
        ensures
            r.status_code is None,
            r.payload is None,
    {
        Response { status_code: None, payload: None }
    }

    /// The answer with the response code `status_code`.
    pub fn set_status_code(self, status_code: StatusCode) -> (r: Response)
        ensures
            r.status_code == Some(status_code),
            r.payload == self.payload,
    {
        Response { status_code: Some(status_code), payload: self.payload }
    }

    /// The answer with the payload `payload`.
    pub fn set_payload(self, payload: Vec<u8>) -> (r: Response)
        ensures
            r.status_code == self.status_code,
            r.payload == Some(payload),
    {
        Response { status_code: self.status_code, payload: Some(payload) }
    }
}

impl Default for Response {
    fn default() -> (r: Response)
        ensures
            r.status_code is None,
            r.payload is None,
    {
        Response::new()
    }
}

/// The UTF-8 bytes of `s`.
pub fn utf8_bytes(s: &str) -> (r: Vec<u8>)
    ensures
        r@ == vstd::utf8::encode_utf8(s@),
{
    let b = s.as_bytes();
    let mut r: Vec<u8> = Vec::new();
    let mut i: usize = 0;
    while i < b.len()
        invariant
            i <= b@.len(),
            r@ == b@.take(i as int),
        decreases b@.len() - i,
    {
        r.push(b[i]);
        i = i + 1;
        assert(r@ =~= b@.take(i as int));
    }
    assert(b@.take(b@.len() as int) =~= b@);
    r
}

/// The answer for a rejected request: the response code and the message
/// as payload.
pub fn error_response(status_code: StatusCode, message: &str) -> (r: Response)
    ensures
        r.status_code == Some(status_code),
        r.payload matches Some(p) && p@ == vstd::utf8::encode_utf8(message@),
{
    Response::new().set_status_code(status_code).set_payload(utf8_bytes(message))
}

} // verus!
