use krabdex::error::{classify_http_error, ApiError, ApiErrorKind, Error, ErrorClass};
use krabdex::http::{Headers, HttpResponse};

fn make_resp(status: u16, body: &[u8], headers: &[(&str, &str)]) -> HttpResponse {
    let mut h = Headers::new();
    for (k, v) in headers {
        h.insert(k, v);
    }
    HttpResponse { status, headers: h, body: body.to_vec() }
}

#[test]
fn classify_404_returns_not_found() {
    let resp = make_resp(404, b"", &[]);
    let err = classify_http_error(404, "pokemon/ghost".into(), &resp);

    match err {
        Error::Api(api) => match api.kind {
            ApiErrorKind::NotFound { resource, .. } => assert_eq!(resource, "resource"),
            other => panic!("unexpected api kind: {other:?}"),
        },
        other => panic!("unexpected error: {other:?}"),
    }
}

#[test]
fn classify_429_extracts_retry_after() {
    let resp = make_resp(429, b"", &[("retry-after", "5")]);
    let err = classify_http_error(429, "pokemon/overload".into(), &resp);

    match err {
        Error::Api(api) => match api.kind {
            ApiErrorKind::RateLimited { retry_after } => assert_eq!(retry_after, Some(5)),
            other => panic!("unexpected api kind: {other:?}"),
        },
        other => panic!("unexpected error: {other:?}"),
    }
}

#[test]
fn classify_generic_includes_snippet() {
    let resp = make_resp(500, b"oops", &[]);
    let err = classify_http_error(500, "pokemon/boom".into(), &resp);

    match err {
        Error::Api(api) => match api.kind {
            ApiErrorKind::HttpStatus { body_snippet } => {
                assert_eq!(body_snippet.as_deref(), Some("oops"))
            }
            other => panic!("unexpected api kind: {other:?}"),
        },
        other => panic!("unexpected error: {other:?}"),
    }
}

fn api_of(err: Error) -> ApiError {
    match err {
        Error::Api(api) => api,
        other => panic!("unexpected error: {other:?}"),
    }
}

#[test]
fn not_found_keeps_status_and_url() {
    let api = api_of(classify_http_error(404, "pokemon/missingno".into(), &make_resp(404, b"gone", &[])));
    assert_eq!(api.status, 404);
    assert_eq!(api.url, "pokemon/missingno");
    match api.kind {
        ApiErrorKind::NotFound { resource, identifier } => {
            assert_eq!(resource, "resource");
            assert_eq!(identifier, "<unknown>");
        }
        other => panic!("unexpected api kind: {other:?}"),
    }
}

#[test]
fn rate_limit_without_readable_header_has_no_delay() {
    for headers in [
        vec![],
        vec![("retry-after", "soon")],
        vec![("retry-after", "-5")],
        vec![("retry-after", " 5")],
        vec![("retry-after", "")],
        vec![("retry-after", "+")],
        vec![("retry-after", "18446744073709551616")],
        vec![("Retry-After", "5")],
    ] {
        let api = api_of(classify_http_error(429, "x".into(), &make_resp(429, b"", &headers)));
        match api.kind {
            ApiErrorKind::RateLimited { retry_after } => assert_eq!(retry_after, None, "{headers:?}"),
            other => panic!("unexpected api kind: {other:?}"),
        }
    }
}

#[test]
fn rate_limit_reads_seconds_as_std_does() {
    for (text, secs) in [("0", 0), ("+7", 7), ("0042", 42), ("18446744073709551615", u64::MAX)] {
        let api = api_of(classify_http_error(429, "x".into(), &make_resp(429, b"", &[("retry-after", text)])));
        match api.kind {
            ApiErrorKind::RateLimited { retry_after } => assert_eq!(retry_after, Some(secs)),
            other => panic!("unexpected api kind: {other:?}"),
        }
    }
}

#[test]
fn other_statuses_carry_a_snippet() {
    for status in [100, 301, 400, 401, 403, 418, 500, 502, 503, 599] {
        let api = api_of(classify_http_error(status, "x".into(), &make_resp(status, b"", &[])));
        assert_eq!(api.status, status);
        match api.kind {
            ApiErrorKind::HttpStatus { body_snippet } => assert_eq!(body_snippet, None),
            other => panic!("unexpected api kind: {other:?}"),
        }
    }
}

#[test]
fn snippet_is_cut_to_three_hundred_characters() {
    let long = "é".repeat(301);
    let api = api_of(classify_http_error(500, "x".into(), &make_resp(500, long.as_bytes(), &[])));
    match api.kind {
        ApiErrorKind::HttpStatus { body_snippet: Some(s) } => {
            assert_eq!(s.chars().count(), 300);
            assert_eq!(s, "é".repeat(300));
        }
        other => panic!("unexpected api kind: {other:?}"),
    }
    let api = api_of(classify_http_error(500, "x".into(), &make_resp(500, b"bad \xc3 byte", &[])));
    match api.kind {
        ApiErrorKind::HttpStatus { body_snippet } => {
            assert_eq!(body_snippet.as_deref(), Some("bad \u{fffd} byte"))
        }
        other => panic!("unexpected api kind: {other:?}"),
    }
}

#[test]
fn messages_describe_each_error() {
    let e = classify_http_error(404, "p".into(), &make_resp(404, b"", &[]));
    assert_eq!(e.message(), "api error: resource `<unknown>` not found (status 404)");
    let e = classify_http_error(429, "p".into(), &make_resp(429, b"", &[("retry-after", "12")]));
    assert_eq!(e.message(), "api error: rate limited (retry after 12s) (status 429)");
    let e = classify_http_error(429, "p".into(), &make_resp(429, b"", &[]));
    assert_eq!(e.message(), "api error: rate limited (status 429)");
    let e = classify_http_error(503, "p".into(), &make_resp(503, b"down", &[]));
    assert_eq!(e.message(), "api error: http error (status 503)");
    assert_eq!(Error::Internal("invalid path join").message(), "internal error: invalid path join");
    assert_eq!(Error::Transport { cause: "refused".into() }.message(), "transport error");
    let e = Error::Deserialize { url: "https://pokeapi.co/api/v2/pokemon/1".into(), cause: "eof".into() };
    assert_eq!(e.message(), "failed to deserialize response from https://pokeapi.co/api/v2/pokemon/1");
    let e = Error::InvalidArgument { field: "limit", reason: "must be > 0".into() };
    assert_eq!(e.message(), "invalid argument `limit`: must be > 0");
}

#[test]
fn errors_map_to_adapter_classes() {
    let invalid = Error::InvalidArgument { field: "limit", reason: "must be > 0".into() };
    assert_eq!((invalid.class(), invalid.summary()), (ErrorClass::BadRequest, "Invalid arguments"));
    let nf = classify_http_error(404, "p".into(), &make_resp(404, b"", &[]));
    assert_eq!((nf.class(), nf.summary()), (ErrorClass::NotFound, "Not found"));
    let up = classify_http_error(500, "p".into(), &make_resp(500, b"", &[]));
    assert_eq!((up.class(), up.summary()), (ErrorClass::Internal, "Upstream API error"));
    let t = Error::Transport { cause: "reset".into() };
    assert_eq!((t.class(), t.summary()), (ErrorClass::Internal, "Network/transport error"));
    let d = Error::Deserialize { url: "u".into(), cause: "c".into() };
    assert_eq!((d.class(), d.summary()), (ErrorClass::Internal, "Deserialize error"));
    let i = Error::Internal("invalid base url join");
    assert_eq!((i.class(), i.summary()), (ErrorClass::Internal, "Unexpected error"));
}
