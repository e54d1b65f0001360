//! What the extractors give a handler, and why they reject a request.

use vstd::prelude::*;
use crate::router::response::{Response, StatusCode, error_response};
use crate::text::{append_str, decimal, decimal_string};
use crate::message::request::utf8_text;
use vstd::utf8::{valid_utf8, decode_utf8};

verus! {

/// Why a JSON body (read as a plain body) could not be extracted.
#[derive(Debug, Clone, Copy, PartialEq, Eq, Structural)]
pub enum BodyRejection {
    InvalidBody,
    DeserializationError,
    InvalidUtf8,
}

/// The message of a `BodyRejection`.
pub open spec fn body_rejection_message(e: BodyRejection) -> Seq<char> {
    match e {
        BodyRejection::InvalidBody => "Invalid body string"@,
        BodyRejection::DeserializationError => "Failed to deserialize JSON body"@,
        BodyRejection::InvalidUtf8 => "Invalid UTF-8 in body"@,
    }
}

impl BodyRejection {

    /// The payload read as UTF-8 text, the first step of extracting a body:
    /// `InvalidUtf8` exactly when the payload is not UTF-8.
    pub fn payload_text(payload: &[u8]) -> (r: Result<String, BodyRejection>)
        ensures
            r is Ok <==> valid_utf8(payload@),
            r matches Ok(s) ==> s@ == decode_utf8(payload@),
            r matches Err(e) ==> e == BodyRejection::InvalidUtf8,
    {
        match utf8_text(payload) {
            Some(s) => Ok(s),
            None => Err(BodyRejection::InvalidUtf8),
        }
    }
    /// The human-readable message of the rejection.
    pub fn message(&self) -> (r: &'static str)
        ensures
            r@ == body_rejection_message(*self),
    {
        match self {
            BodyRejection::InvalidBody => "Invalid body string",
            BodyRejection::DeserializationError => "Failed to deserialize JSON body",
            BodyRejection::InvalidUtf8 => "Invalid UTF-8 in body",
        }
    }

    /// The answer to the rejected request: BadRequest with the message.
    pub fn into_response(self) -> (r: Response)
        ensures
            r.status_code == Some(StatusCode::BadRequest),
            r.payload matches Some(p) && p@ == vstd::utf8::encode_utf8(body_rejection_message(self)),
    {
        error_response(StatusCode::BadRequest, self.message())
    }
}

/// Why a JSON body could not be extracted.
#[derive(Debug, Clone, Copy, PartialEq, Eq, Structural)]
pub enum JsonRejection {
    InvalidBody,
    DeserializationError,
    InvalidUtf8,
}

/// The message of a `JsonRejection`.
pub open spec fn json_rejection_message(e: JsonRejection) -> Seq<char> {
    match e {
        JsonRejection::InvalidBody => "Invalid JSON body string"@,
        JsonRejection::DeserializationError => "Failed to deserialize JSON body"@,
        JsonRejection::InvalidUtf8 => "Invalid UTF-8 in JSON body"@,
    }
}

impl JsonRejection {

    /// The payload read as UTF-8 text, the first step of extracting a JSON body:
    /// `InvalidUtf8` exactly when the payload is not UTF-8.
    pub fn payload_text(payload: &[u8]) -> (r: Result<String, JsonRejection>)
        ensures
            r is Ok <==> valid_utf8(payload@),
            r matches Ok(s) ==> s@ == decode_utf8(payload@),
            r matches Err(e) ==> e == JsonRejection::InvalidUtf8,
    {
        match utf8_text(payload) {
            Some(s) => Ok(s),
            None => Err(JsonRejection::InvalidUtf8),
        }
    }
    /// The human-readable message of the rejection.
    pub fn message(&self) -> (r: &'static str)
        ensures
            r@ == json_rejection_message(*self),
    {
        match self {
            JsonRejection::InvalidBody => "Invalid JSON body string",
            JsonRejection::DeserializationError => "Failed to deserialize JSON body",
            JsonRejection::InvalidUtf8 => "Invalid UTF-8 in JSON body",
        }
    }

    /// The answer to the rejected request: BadRequest with the message.
    pub fn into_response(self) -> (r: Response)
        ensures
            r.status_code == Some(StatusCode::BadRequest),
            r.payload matches Some(p) && p@ == vstd::utf8::encode_utf8(json_rejection_message(self)),
    {
        error_response(StatusCode::BadRequest, self.message())
    }
}

/// Why a query could not be extracted.
#[derive(Debug, Clone, Copy, PartialEq, Eq, Structural)]
pub enum QueryRejection {
    InvalidQuery,
    InvalidUtf8,
}

/// The message of a `QueryRejection`.
pub open spec fn query_rejection_message(e: QueryRejection) -> Seq<char> {
    match e {
        QueryRejection::InvalidQuery => "Invalid query string"@,
        QueryRejection::InvalidUtf8 => "Invalid UTF-8 in query"@,
    }
}

impl QueryRejection {
    /// The human-readable message of the rejection.
    pub fn message(&self) -> (r: &'static str)
        ensures
            r@ == query_rejection_message(*self),
    {
        match self {
            QueryRejection::InvalidQuery => "Invalid query string",
            QueryRejection::InvalidUtf8 => "Invalid UTF-8 in query",
        }
    }

    /// The answer to the rejected request: BadRequest with the message.
    pub fn into_response(self) -> (r: Response)
        ensures
            r.status_code == Some(StatusCode::BadRequest),
            r.payload matches Some(p) && p@ == vstd::utf8::encode_utf8(query_rejection_message(self)),
    {
        error_response(StatusCode::BadRequest, self.message())
    }
}

/// Why a CBOR body could not be extracted.
#[derive(Debug, Clone, Copy, PartialEq, Eq, Structural)]
pub enum CborRejection {
    InvalidBody,
    DeserializationError,
}

/// The message of a `CborRejection`.
pub open spec fn cbor_rejection_message(e: CborRejection) -> Seq<char> {
    match e {
        CborRejection::InvalidBody => "Invalid CBOR body"@,
        CborRejection::DeserializationError => "Failed to deserialize CBOR body"@,
    }
}

impl CborRejection {
    /// The human-readable message of the rejection.
    pub fn message(&self) -> (r: &'static str)
        ensures
            r@ == cbor_rejection_message(*self),
    {
        match self {
            CborRejection::InvalidBody => "Invalid CBOR body",
            CborRejection::DeserializationError => "Failed to deserialize CBOR body",
        }
    }

    /// The answer to the rejected request: BadRequest with the message.
    pub fn into_response(self) -> (r: Response)
        ensures
            r.status_code == Some(StatusCode::BadRequest),
            r.payload matches Some(p) && p@ == vstd::utf8::encode_utf8(cbor_rejection_message(self)),
    {
        error_response(StatusCode::BadRequest, self.message())
    }
}

/// A plain body read as JSON.
#[derive(Debug, Clone, Copy, Default)]
pub struct Body<T>(pub T);

/// A JSON body.
#[derive(Debug, Clone, Copy, Default)]
pub struct Json<T>(pub T);

/// The query, read as form data.
#[derive(Debug, Clone, Copy, Default)]
pub struct Query<T>(pub T);

/// A CBOR body.
#[derive(Debug, Clone, Copy, Default)]
pub struct Cbor<T>(pub T);

/// The path parameters.
#[derive(Debug)]
pub struct Path<T>(pub T);

/// A value made from a reference to a `T`; every cloneable type is made
/// from itself by cloning.
pub trait FromRef<T>: Sized {
    fn from_ref(input: &T) -> Self;
}

impl<T: Clone> FromRef<T> for T {
    /// A clone of `input`: what `T::clone` gives for it.
    fn from_ref(input: &T) -> (r: T)
        ensures
            vstd::pervasive::strictly_cloned(*input, r),
    {
        input.clone()
    }
}

/// Why the path parameters could not be extracted.
#[derive(Debug, Clone, PartialEq, Eq)]
pub enum PathDeserializationError {
    /// The URI held `got` parameters where `expected` were asked for.
    WrongNumberOfParameters { got: usize, expected: usize },
    /// The value at a key (of a type with named fields) did not parse.
    ParseErrorAtKey { key: String, value: String, expected_type: &'static str },
    /// The value at an index (of a sequence type) did not parse.
    ParseErrorAtIndex { index: usize, value: String, expected_type: &'static str },
    /// A value did not parse into a primitive type.
    ParseError { value: String, expected_type: &'static str },
    /// A parameter did not percent-decode to UTF-8.
    InvalidUtf8InPathParam { key: String },
    /// The target type is not supported (such as nested maps).
    UnsupportedType { name: &'static str },
    /// A custom deserialization error at a key.
    DeserializeError { key: String, value: String, message: String },
    /// Any other error.
    Message(String),
}

/// The message of a path error.
pub open spec fn path_error_message(e: PathDeserializationError) -> Seq<char> {
    match e {
        PathDeserializationError::Message(m) => m@,
        PathDeserializationError::InvalidUtf8InPathParam { key } => "Invalid UTF-8 in `"@ + key@ + "`"@,
        PathDeserializationError::WrongNumberOfParameters { got, expected } => "Wrong number of path arguments for `Path`. Expected "@
            + decimal(expected as nat) + " but got "@ + decimal(got as nat) + if expected == 1 {
            ". Note that multiple parameters must be extracted with a tuple `Path<(_, _)>` or a struct `Path<YourParams>`"@
        } else {
            Seq::empty()
        },
        PathDeserializationError::UnsupportedType { name } => "Unsupported type `"@ + name@ + "`"@,
        PathDeserializationError::ParseErrorAtKey { key, value, expected_type } => "Cannot parse `"@ + key@
            + "` with value `"@ + value@ + "` to a `"@ + expected_type@ + "`"@,
        PathDeserializationError::ParseError { value, expected_type } => "Cannot parse `"@ + value@ + "` to a `"@
            + expected_type@ + "`"@,
        PathDeserializationError::ParseErrorAtIndex { index, value, expected_type } => "Cannot parse value at index "@
            + decimal(index as nat) + " with value `"@ + value@ + "` to a `"@ + expected_type@ + "`"@,
        PathDeserializationError::DeserializeError { key, value, message } => "Cannot parse `"@ + key@ + "` with value `"@
            + value@ + "`: "@ + message@,
    }
}

impl PathDeserializationError {
    /// The human-readable message of the error.
    pub fn message(&self) -> (r: String)
        ensures
            r@ == path_error_message(*self),
    {
        let mut r = String::new();
        match self {
            PathDeserializationError::Message(m) => {
                append_str(&mut r, m.as_str());
            },
            PathDeserializationError::InvalidUtf8InPathParam { key } => {
                append_str(&mut r, "Invalid UTF-8 in `");
                append_str(&mut r, key.as_str());
                append_str(&mut r, "`");
            },
            PathDeserializationError::WrongNumberOfParameters { got, expected } => {
                append_str(&mut r, "Wrong number of path arguments for `Path`. Expected ");
                let e = decimal_string(*expected);
                append_str(&mut r, e.as_str());
                append_str(&mut r, " but got ");
                let g = decimal_string(*got);
                append_str(&mut r, g.as_str());
                if *expected == 1 {
                    append_str(
                        &mut r,
                        ". Note that multiple parameters must be extracted with a tuple `Path<(_, _)>` or a struct `Path<YourParams>`",
                    );
                }
            },
            PathDeserializationError::UnsupportedType { name } => {
                append_str(&mut r, "Unsupported type `");
                append_str(&mut r, name);
                append_str(&mut r, "`");
            },
            PathDeserializationError::ParseErrorAtKey { key, value, expected_type } => {
                append_str(&mut r, "Cannot parse `");
                append_str(&mut r, key.as_str());
                append_str(&mut r, "` with value `");
                append_str(&mut r, value.as_str());
                append_str(&mut r, "` to a `");
                append_str(&mut r, expected_type);
                append_str(&mut r, "`");
            },
            PathDeserializationError::ParseError { value, expected_type } => {
                append_str(&mut r, "Cannot parse `");
                append_str(&mut r, value.as_str());
                append_str(&mut r, "` to a `");
                append_str(&mut r, expected_type);
                append_str(&mut r, "`");
            },
            PathDeserializationError::ParseErrorAtIndex { index, value, expected_type } => {
                append_str(&mut r, "Cannot parse value at index ");
                let i = decimal_string(*index);
                append_str(&mut r, i.as_str());
                append_str(&mut r, " with value `");
                append_str(&mut r, value.as_str());
                append_str(&mut r, "` to a `");
                append_str(&mut r, expected_type);
                append_str(&mut r, "`");
            },
            PathDeserializationError::DeserializeError { key, value, message } => {
                append_str(&mut r, "Cannot parse `");
                append_str(&mut r, key.as_str());
                append_str(&mut r, "` with value `");
                append_str(&mut r, value.as_str());
                append_str(&mut r, "`: ");
                append_str(&mut r, message.as_str());
            },
        }
        assert(r@ =~= path_error_message(*self));
        r
    }

    /// The answer to the rejected request: BadRequest with the message.
    pub fn into_response(self) -> (r: Response)
        ensures
            r.status_code == Some(StatusCode::BadRequest),
            r.payload matches Some(p) && p@ == vstd::utf8::encode_utf8(path_error_message(self)),
    {
        let m = self.message();
        error_response(StatusCode::BadRequest, m.as_str())
    }
}

} // verus!
