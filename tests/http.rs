use krabdex::error::Error;
use krabdex::http::{join_base, Body, Headers, HttpRequest, HttpResponse, Method, Query, Url};

fn expect_trims_slashes_and_preserves_segments() {
    let base = Url::parse("https://pokeapi.co/").unwrap();

    let cases = [
        ("/api/v2/", "/pokemon/pikachu/", "https://pokeapi.co/api/v2/pokemon/pikachu"),
        ("api/v2", "pokemon", "https://pokeapi.co/api/v2/pokemon"),
        ("api/v2/", "pokemon/ditto", "https://pokeapi.co/api/v2/pokemon/ditto"),
    ];

    for (api_prefix, path, expected) in cases {
        let url = join_base(&base, api_prefix, path).unwrap();
        assert_eq!(url.as_str(), expected);
    }
}

fn expect_allows_empty_api_prefix() {
    let base = Url::parse("https://pokeapi.co/").unwrap();

    let url = join_base(&base, "", "pokemon").unwrap();

    assert_eq!(url.as_str(), "https://pokeapi.co/pokemon");
}

fn expect_rejects_non_base_urls() {
    let base = Url::parse("mailto:pokeapi").unwrap();

    let err = join_base(&base, "api/v2", "pokemon").unwrap_err();

    assert!(matches!(err, Error::Internal(_)));
}

#[test]
fn tests_join_base_trims_slashes_and_preserves_segments() {
    expect_trims_slashes_and_preserves_segments();
}

#[test]
fn tests_join_base_allows_empty_api_prefix() {
    expect_allows_empty_api_prefix();
}

#[test]
fn tests_join_base_rejects_non_base_urls() {
    expect_rejects_non_base_urls();
}

#[test]
fn join_base_join_base_trims_slashes_and_preserves_segments() {
    expect_trims_slashes_and_preserves_segments();
}

#[test]
fn join_base_join_base_allows_empty_api_prefix() {
    expect_allows_empty_api_prefix();
}

#[test]
fn join_base_join_base_rejects_non_base_urls() {
    expect_rejects_non_base_urls();
}

#[test]
fn headers_insert_and_iter_are_sorted() {
    let mut headers = Headers::new();
    headers.insert("z-last", "2");
    headers.insert("a-first", "1");

    assert_eq!(headers.get("a-first"), Some("1"));
    assert_eq!(headers.get("z-last"), Some("2"));

    let collected: Vec<_> = headers.iter();
    assert_eq!(collected, vec![("a-first", "1"), ("z-last", "2")]);
}

#[test]
fn query_overwrites_existing_keys() {
    let mut q = Query::new();
    q.set("limit", "10");
    q.set("limit", "20");

    let collected: Vec<_> = q.iter();
    assert_eq!(collected, vec![("limit", "20")]);
}

#[test]
fn http_request_defaults_to_empty_headers_and_query() {
    let url = Url::parse("https://pokeapi.co/ping").unwrap();
    let req = HttpRequest::new(Method::Get, url.clone());

    assert_eq!(req.method, Method::Get);
    assert_eq!(req.url, url);
    assert_eq!(req.headers.iter().len(), 0);
    assert_eq!(req.query.iter().len(), 0);
    assert!(matches!(req.body, Body::Empty));
}

#[test]
fn join_base_keeps_a_base_path() {
    let base = Url::parse("https://example.org/mirror/").unwrap();
    let url = join_base(&base, "api/v2", "pokemon/1").unwrap();
    assert_eq!(url.as_str(), "https://example.org/mirror/api/v2/pokemon/1");
    let url = join_base(&base, "///", "//generation//").unwrap();
    assert_eq!(url.as_str(), "https://example.org/generation");
}

#[test]
fn join_base_internal_error_names_the_join() {
    let base = Url::parse("mailto:pokeapi").unwrap();
    match join_base(&base, "api/v2", "pokemon") {
        Err(Error::Internal(reason)) => assert_eq!(reason, "invalid base url join"),
        other => panic!("unexpected result: {other:?}"),
    }
}

#[test]
fn url_parse_normalises_and_rejects() {
    assert_eq!(Url::parse("https://pokeapi.co").unwrap().as_str(), "https://pokeapi.co/");
    assert_eq!(Url::parse("HTTPS://PokeAPI.co/a/../b").unwrap().as_str(), "https://pokeapi.co/b");
    assert!(Url::parse("not a url").is_err());
    assert!(Url::parse("/relative/only").is_err());
    let base = Url::parse("https://pokeapi.co/api/v2/").unwrap();
    assert_eq!(base.join("pokemon").unwrap().as_str(), "https://pokeapi.co/api/v2/pokemon");
}

#[test]
fn set_order_does_not_change_the_query() {
    let mut a = Query::new();
    a.set("limit", "2");
    a.set("offset", "10");
    let mut b = Query::new();
    b.set("offset", "10");
    b.set("limit", "2");
    assert_eq!(a.iter(), b.iter());
    assert_eq!(a.iter(), vec![("limit", "2"), ("offset", "10")]);
}

#[test]
fn headers_sort_by_bytes_and_replace_values() {
    let mut h = Headers::default();
    h.insert("b", "1");
    h.insert("B", "2");
    h.insert("ab", "3");
    h.insert("a", "4");
    h.insert("é", "5");
    h.insert("b", "6");
    assert_eq!(h.iter(), vec![("B", "2"), ("a", "4"), ("ab", "3"), ("b", "6"), ("é", "5")]);
    assert_eq!(h.get("b"), Some("6"));
    assert_eq!(h.get("c"), None);
    assert_eq!(h.get(""), None);
    let c = h.copied();
    assert_eq!(c.iter(), h.iter());
}

#[test]
fn body_is_decoded_permissively() {
    let resp = HttpResponse { status: 200, headers: Headers::new(), body: b"ok \xff!".to_vec() };
    assert_eq!(resp.body_as_str_lossy(), "ok \u{fffd}!");
    let resp = HttpResponse { status: 200, headers: Headers::new(), body: "héllo".as_bytes().to_vec() };
    assert_eq!(resp.body_as_str_lossy(), "héllo");
    let resp = HttpResponse { status: 200, headers: Headers::new(), body: Vec::new() };
    assert_eq!(resp.body_as_str_lossy(), "");
}
