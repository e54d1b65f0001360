use coap::router::response::StatusCode;
use coap::router::route::{build_pattern, params_from_captures, Route, RouteError, RoutePatternError};
use coap::router::util::PercentDecodedStr;

fn route(pattern: &str) -> Route {
    match Route::try_new(pattern) {
        Ok(r) => r,
        Err(e) => panic!("{}", e.message(pattern)),
    }
}

#[test]
fn route_test_into_response() {
    let error = RouteError::DifferentMethod;
    let response = error.into_response();
    assert_eq!(response.status_code, Some(StatusCode::BadRequest));
    assert_eq!(response.payload, Some(b"Different method".to_vec()));

    let error = RouteError::NoUriPath;
    let response = error.into_response();
    assert_eq!(response.status_code, Some(StatusCode::BadRequest));
    assert_eq!(response.payload, Some(b"No URI path".to_vec()));

    let error = RouteError::DifferentPath;
    let response = error.into_response();
    assert_eq!(response.status_code, Some(StatusCode::BadRequest));
    assert_eq!(response.payload, Some(b"Different path".to_vec()));

    let error = RouteError::NotFound;
    let response = error.into_response();
    assert_eq!(response.status_code, Some(StatusCode::NotFound));
    assert_eq!(response.payload, Some(b"Not found".to_vec()));
}

#[test]
#[should_panic(expected = "Nested parameters are not allowed in route pattern: /sensors/{id{nested}}")]
fn test_nested_parameters() {
    let _route = route("/sensors/{id{nested}}");
}

#[test]
#[should_panic(expected = "Unmatched closing brace in route pattern: /sensors/{id}}")]
fn test_unmatched_closing_brace() {
    let _route = route("/sensors/{id}}");
}

#[test]
#[should_panic(expected = "Unclosed parameter in route pattern: /sensors/{id")]
fn test_unclosed_parameter() {
    let _route = route("/sensors/{id");
}

#[test]
fn test_build_regex() {
    let route = route("/sensors/{id}/readings/{type}");
    assert_eq!(*route.param_names(), vec!["id".to_string(), "type".to_string()]);
    assert!(route.match_path("sensors/123/readings/temperature").is_ok());
    assert!(route.match_path("sensors/abc/readings/humidity").is_ok());
    assert!(route.match_path("sensors/123/readings").is_err());
    assert!(route.match_path("sensors/123/readings/temperature/extra").is_err());
}

#[test]
fn test_match_path() {
    let route = route("/sensors/{id}/readings/{type}");
    let params = route.match_path("sensors/123/readings/temperature").expect("Path should match");
    assert_eq!(params.len(), 2);
    assert_eq!(params[0].0.as_str(), "id");
    assert_eq!(params[0].1.as_str(), "123");
    assert_eq!(params[1].0.as_str(), "type");
    assert_eq!(params[1].1.as_str(), "temperature");
}

#[test]
fn test_no_match_path() {
    let route = route("/sensors/{id}/readings/{type}");
    assert!(route.match_path("sensors/123/readings").is_err());
    assert!(route.match_path("sensors/123/readings/temperature/extra").is_err());
    assert!(route.match_path("devices/123/readings/temperature").is_err());
}

#[test]
fn test_preceding_literal_text() {
    let route1 = route("/sensors/{id}abc");
    let params = route1.match_path("sensors/123abc").expect("Path should match");
    assert_eq!(params.len(), 1);
    assert_eq!(params[0].0.as_str(), "id");
    assert_eq!(params[0].1.as_str(), "123");

    let route2 = route("/sensors/abc{id}");
    let params = route2.match_path("sensors/abc123").expect("Path should match");
    assert_eq!(params.len(), 1);
    assert_eq!(params[0].0.as_str(), "id");
    assert_eq!(params[0].1.as_str(), "123");
}

#[test]
fn test_empty_segments() {
    let route = route("/sensors/{id}//readings/{type}/");
    let params = route.match_path("/sensors/123//readings/temperature/").expect("Path should match");
    assert_eq!(params.len(), 2);
    assert_eq!(params[0].0.as_str(), "id");
    assert_eq!(params[0].1.as_str(), "123");
    assert_eq!(params[1].0.as_str(), "type");
    assert_eq!(params[1].1.as_str(), "temperature");
}

#[test]
fn pattern_text_is_anchored_and_escaped() {
    let (p, names) = build_pattern("/a.b/{x}-{y}/").unwrap();
    assert_eq!(p, "^a\\.b/([^/]+)\\-([^/]+)$");
    assert_eq!(names, vec!["x".to_string(), "y".to_string()]);
    let (p, names) = build_pattern("///").unwrap();
    assert_eq!(p, "^$");
    assert!(names.is_empty());
    let (p, _) = build_pattern("/a//b").unwrap();
    assert_eq!(p, "^a//b$");
}

#[test]
fn pattern_errors_come_in_order() {
    assert_eq!(build_pattern("/a}/{b"), Err(RoutePatternError::UnmatchedClosingBrace));
    assert_eq!(build_pattern("/{a/b}"), Err(RoutePatternError::UnclosedParameter));
    assert_eq!(build_pattern("/{a{b}}"), Err(RoutePatternError::NestedParameters));
    assert_eq!(
        RoutePatternError::InvalidPattern("bad".to_string()).message("/x"),
        "Invalid route pattern: /x (bad)"
    );
}

#[test]
fn path_values_are_percent_decoded() {
    let route = route("/files/{name}");
    let params = route.match_path("files/a%20b%2Fc").unwrap();
    assert_eq!(params[0].1.as_str(), "a b/c");
    // a value that does not decode to UTF-8 is refused
    assert_eq!(route.match_path("files/%FF"), Err(RouteError::FailedToDecodePath));
}

#[test]
fn captures_to_params() {
    let names = vec!["a".to_string(), "b".to_string()];
    assert_eq!(params_from_captures(&names, None), Err(RouteError::DifferentPath));
    let caps = Some(vec![Some("x/y".to_string()), Some("x".to_string()), None]);
    assert_eq!(params_from_captures(&names, caps), Ok(vec![("a".to_string(), "x".to_string())]));
    let caps = Some(vec![Some("all".to_string()), Some("%E2%82%AC".to_string()), Some("%zz".to_string())]);
    assert_eq!(
        params_from_captures(&names, caps),
        Ok(vec![("a".to_string(), "\u{20ac}".to_string()), ("b".to_string(), "%zz".to_string())])
    );
}

#[test]
fn percent_decoding() {
    assert_eq!(PercentDecodedStr::new("foo%20bar%3f").unwrap().as_str(), "foo bar?");
    assert_eq!(PercentDecodedStr::new("100%").unwrap().as_str(), "100%");
    assert!(PercentDecodedStr::new("%C3").is_none());
}

#[test]
fn route_new_on_well_formed_patterns() {
    let r = Route::new("/sensors/{id}/readings/{type}");
    assert_eq!(*r.param_names(), vec!["id".to_string(), "type".to_string()]);
    assert_eq!(
        r.match_path("sensors/123/readings/temperature"),
        Ok(vec![("id".to_string(), "123".to_string()), ("type".to_string(), "temperature".to_string())])
    );
    assert_eq!(r.match_path("sensors/123/readings"), Err(RouteError::DifferentPath));
    assert_eq!(r.match_path("sensors/123/readings/temperature/extra"), Err(RouteError::DifferentPath));
    assert_eq!(r.match_path("devices/123/readings/temperature"), Err(RouteError::DifferentPath));
    assert!(Route::try_new("/a/{b").is_err());
    assert!(Route::try_new("/a/{b}").is_ok());
}
