use coap::router::extract::{
    BodyRejection, CborRejection, JsonRejection, PathDeserializationError, QueryRejection,
};
use coap::router::response::{Response, StatusCode};

#[test]
fn mod_test_into_response() {
    let error = PathDeserializationError::WrongNumberOfParameters { got: 2, expected: 3 };
    let response = error.into_response();
    assert_eq!(response.status_code, Some(StatusCode::BadRequest));
    let payload_str = String::from_utf8(response.payload.unwrap()).unwrap();
    assert_eq!(payload_str, "Wrong number of path arguments for `Path`. Expected 3 but got 2");

    let error = PathDeserializationError::UnsupportedType { name: "HashMap" };
    let response = error.into_response();
    assert_eq!(response.status_code, Some(StatusCode::BadRequest));
    let payload_str = String::from_utf8(response.payload.unwrap()).unwrap();
    assert_eq!(payload_str, "Unsupported type `HashMap`");

    let error = PathDeserializationError::ParseErrorAtKey {
        key: "id".to_string(),
        value: "abc".to_string(),
        expected_type: "u32",
    };
    let response = error.into_response();
    assert_eq!(response.status_code, Some(StatusCode::BadRequest));
    let payload_str = String::from_utf8(response.payload.unwrap()).unwrap();
    assert_eq!(payload_str, "Cannot parse `id` with value `abc` to a `u32`");

    let error = PathDeserializationError::ParseError { value: "abc".to_string(), expected_type: "u32" };
    let response = error.into_response();
    assert_eq!(response.status_code, Some(StatusCode::BadRequest));
    let payload_str = String::from_utf8(response.payload.unwrap()).unwrap();
    assert_eq!(payload_str, "Cannot parse `abc` to a `u32`");

    let error = PathDeserializationError::ParseErrorAtIndex {
        index: 0,
        value: "abc".to_string(),
        expected_type: "u32",
    };
    let response = error.into_response();
    assert_eq!(response.status_code, Some(StatusCode::BadRequest));
    let payload_str = String::from_utf8(response.payload.unwrap()).unwrap();
    assert_eq!(payload_str, "Cannot parse value at index 0 with value `abc` to a `u32`");

    let error = PathDeserializationError::DeserializeError {
        key: "id".to_string(),
        value: "abc".to_string(),
        message: "custom error message".to_string(),
    };
    let response = error.into_response();
    assert_eq!(response.status_code, Some(StatusCode::BadRequest));
    let payload_str = String::from_utf8(response.payload.unwrap()).unwrap();
    assert_eq!(payload_str, "Cannot parse `id` with value `abc`: custom error message");

    let error = PathDeserializationError::InvalidUtf8InPathParam { key: "id".to_string() };
    let response = error.into_response();
    assert_eq!(response.status_code, Some(StatusCode::BadRequest));
    let payload_str = String::from_utf8(response.payload.unwrap()).unwrap();
    assert_eq!(payload_str, "Invalid UTF-8 in `id`");

    let error = PathDeserializationError::Message("custom error".to_string());
    let response = error.into_response();
    assert_eq!(response.status_code, Some(StatusCode::BadRequest));
    let payload_str = String::from_utf8(response.payload.unwrap()).unwrap();
    assert_eq!(payload_str, "custom error");
}

#[test]
fn wrong_number_of_one_parameter_adds_a_hint() {
    let error = PathDeserializationError::WrongNumberOfParameters { got: 12, expected: 1 };
    assert_eq!(
        error.message(),
        "Wrong number of path arguments for `Path`. Expected 1 but got 12. Note that multiple parameters must be extracted with a tuple `Path<(_, _)>` or a struct `Path<YourParams>`"
    );
}

#[test]
fn rejection_messages() {
    let r = CborRejection::InvalidBody.into_response();
    assert_eq!(r.status_code, Some(StatusCode::BadRequest));
    assert_eq!(String::from_utf8(r.payload.unwrap()).unwrap(), "Invalid CBOR body");
    assert_eq!(CborRejection::DeserializationError.message(), "Failed to deserialize CBOR body");
    assert_eq!(JsonRejection::InvalidUtf8.message(), "Invalid UTF-8 in JSON body");
    assert_eq!(JsonRejection::InvalidBody.message(), "Invalid JSON body string");
    assert_eq!(BodyRejection::InvalidBody.message(), "Invalid body string");
    assert_eq!(BodyRejection::DeserializationError.message(), "Failed to deserialize JSON body");
    assert_eq!(QueryRejection::InvalidQuery.message(), "Invalid query string");
    let r = QueryRejection::InvalidUtf8.into_response();
    assert_eq!(r.payload, Some(b"Invalid UTF-8 in query".to_vec()));
}

#[test]
fn response_builders() {
    let r = Response::new();
    assert!(r.status_code.is_none() && r.payload.is_none());
    let r = Response::new().set_payload(vec![1]).set_status_code(StatusCode::Content);
    assert_eq!(r.status_code, Some(StatusCode::Content));
    assert_eq!(r.payload, Some(vec![1]));
}

#[test]
fn payload_text_reads_utf8_and_rejects_the_rest() {
    assert_eq!(JsonRejection::payload_text(b"{\"a\":1}"), Ok("{\"a\":1}".to_string()));
    assert_eq!(JsonRejection::payload_text(&[0xff, 0xfe]), Err(JsonRejection::InvalidUtf8));
    assert_eq!(BodyRejection::payload_text("héllo".as_bytes()), Ok("héllo".to_string()));
    assert_eq!(BodyRejection::payload_text(&[0x80]), Err(BodyRejection::InvalidUtf8));
    assert_eq!(BodyRejection::payload_text(&[]), Ok(String::new()));
}
