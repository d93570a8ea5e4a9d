use krabdex::client::{generation_path, page_query, pokemon_path, ClientConfig, PokeApiClient, PokeApiClientBuilder};
use krabdex::error::{ApiErrorKind, Error};
use krabdex::http::{Headers, HttpRequest, HttpResponse, Method, Url};
use krabdex::identifiers::{GenerationName, GenerationRef, PokemonName, PokemonRef};
use krabdex::pagination::{Limit, Offset, PageRequest};
use std::time::Duration;

/// Runs one call through the pipeline with `transport` standing in for the network.
fn run(
    client: &PokeApiClient,
    req: Result<HttpRequest, Error>,
    path: &str,
    transport: &mut dyn FnMut(HttpRequest) -> HttpResponse,
) -> Result<Vec<u8>, Error> {
    let req = req?;
    let resp = transport(req);
    let _ = client;
    PokeApiClient::accept(path, resp)
}

fn respond(status: u16, body: &[u8], headers: &[(&str, &str)]) -> HttpResponse {
    let mut h = Headers::new();
    for (k, v) in headers {
        h.insert(k, v);
    }
    HttpResponse { status, headers: h, body: body.to_vec() }
}

fn local_client() -> PokeApiClient {
    PokeApiClient::builder()
        .base_url(Url::parse("http://127.0.0.1:8080").unwrap())
        .api_prefix("api/v2")
        .build()
}

#[test]
fn default_config_points_at_the_public_api() {
    let c = ClientConfig::default();
    assert_eq!(c.base_url.as_str(), "https://pokeapi.co/");
    assert_eq!(c.api_prefix, "api/v2");
    assert_eq!(c.default_headers.iter(), vec![("accept", "application/json")]);
    let client = PokeApiClient::new();
    assert_eq!(client.user_agent(), Some("krabdex/0.1.0"));
    assert_eq!(client.timeout(), Some(Duration::from_secs(10)));
}

#[test]
fn builder_overrides_settings() {
    let client = PokeApiClientBuilder::from_config(ClientConfig::default())
        .api_prefix("/v3/")
        .default_header("x-trace", "1")
        .default_header("accept", "text/plain")
        .timeout(Duration::from_millis(250))
        .user_agent("tester/1")
        .build();
    assert_eq!(client.config().api_prefix, "/v3/");
    assert_eq!(
        client.config().default_headers.iter(),
        vec![("accept", "text/plain"), ("x-trace", "1")]
    );
    assert_eq!(client.timeout(), Some(Duration::from_millis(250)));
    assert_eq!(client.user_agent(), Some("tester/1"));
    let req = client.pokemon_by_id(1).unwrap();
    assert_eq!(req.url.as_str(), "https://pokeapi.co/v3/pokemon/1");
}

#[test]
fn requests_carry_url_headers_and_no_query() {
    let client = PokeApiClient::new();
    let req = client.pokemon(PokemonRef::Id(25)).unwrap();
    assert_eq!(req.method, Method::Get);
    assert_eq!(req.url.as_str(), "https://pokeapi.co/api/v2/pokemon/25");
    assert_eq!(req.headers.iter(), vec![("accept", "application/json")]);
    assert!(req.query.iter().is_empty());

    let name = GenerationName::new("generation-i").unwrap();
    let req = client.generation(GenerationRef::Name(name)).unwrap();
    assert_eq!(req.url.as_str(), "https://pokeapi.co/api/v2/generation/generation-i");
    let req = client.generation_by_id(3).unwrap();
    assert_eq!(req.url.as_str(), "https://pokeapi.co/api/v2/generation/3");
}

#[test]
fn list_request_sets_exactly_limit_and_offset() {
    let client = local_client();
    let page = PageRequest::new(Limit::new(2).unwrap(), Offset::new(10).unwrap());
    let req = client.pokemon_list(page).unwrap();
    assert_eq!(req.url.as_str(), "http://127.0.0.1:8080/api/v2/pokemon");
    assert_eq!(req.query.iter(), vec![("limit", "2"), ("offset", "10")]);
    let req = client.generation_list(PageRequest::first_page(Limit::default())).unwrap();
    assert_eq!(req.url.as_str(), "http://127.0.0.1:8080/api/v2/generation");
    assert_eq!(req.query.iter(), vec![("limit", "20"), ("offset", "0")]);
    assert_eq!(page_query(page).iter(), vec![("limit", "2"), ("offset", "10")]);
}

#[test]
fn success_hands_the_body_on() {
    let client = local_client();
    let mut seen = Vec::new();
    let body = run(&client, client.pokemon(PokemonRef::Id(25)), "pokemon/25", &mut |req| {
        seen.push(req.url.as_str().to_string());
        respond(200, b"{\"id\":25}", &[])
    })
    .unwrap();
    assert_eq!(body, b"{\"id\":25}");
    assert_eq!(seen, vec!["http://127.0.0.1:8080/api/v2/pokemon/25".to_string()]);
}

#[test]
fn mocked_statuses_are_classified() {
    let client = local_client();
    for id in [1, 2, 999] {
        let err = run(&client, client.pokemon_by_id(id), "pokemon/x", &mut |_| respond(404, b"", &[]))
            .unwrap_err();
        assert!(matches!(err, Error::Api(ref api) if matches!(api.kind, ApiErrorKind::NotFound { .. })));
    }
    let err = run(&client, client.pokemon_by_id(1), "pokemon/1", &mut |_| {
        respond(429, b"", &[("retry-after", "5")])
    })
    .unwrap_err();
    match err {
        Error::Api(api) => {
            assert!(matches!(api.kind, ApiErrorKind::RateLimited { retry_after: Some(5) }));
            assert_eq!(api.url, "pokemon/1");
        }
        other => panic!("unexpected error: {other:?}"),
    }
    let err = run(&client, client.pokemon_by_id(1), "pokemon/1", &mut |_| respond(429, b"", &[]))
        .unwrap_err();
    assert!(matches!(err, Error::Api(ref api) if matches!(api.kind, ApiErrorKind::RateLimited { retry_after: None })));
    let err = run(&client, client.pokemon_by_id(1), "pokemon/1", &mut |_| respond(500, b"oops", &[]))
        .unwrap_err();
    match err {
        Error::Api(api) => match api.kind {
            ApiErrorKind::HttpStatus { body_snippet } => assert_eq!(body_snippet.as_deref(), Some("oops")),
            other => panic!("unexpected api kind: {other:?}"),
        },
        other => panic!("unexpected error: {other:?}"),
    }
    let err = run(&client, client.pokemon_by_id(1), "pokemon/1", &mut |_| respond(500, b"", &[]))
        .unwrap_err();
    assert!(matches!(err, Error::Api(ref api) if matches!(api.kind, ApiErrorKind::HttpStatus { body_snippet: None })));
    for status in [199, 300] {
        assert!(PokeApiClient::accept("p", respond(status, b"", &[])).is_err());
    }
    for status in [200, 204, 299] {
        assert!(PokeApiClient::accept("p", respond(status, b"", &[])).is_ok());
    }
}

#[test]
fn ambiguous_reference_never_reaches_the_transport() {
    let client = local_client();
    let mut calls = 0;
    for (id, name) in [(Some(1), Some("pikachu")), (None, None)] {
        let req = PokemonRef::from_id_or_name(id, name).and_then(|r| client.pokemon(r));
        let err = run(&client, req, "pokemon", &mut |_| {
            calls += 1;
            respond(200, b"{}", &[])
        })
        .unwrap_err();
        assert!(matches!(err, Error::InvalidArgument { field: "pokemon_get", .. }));
    }
    assert_eq!(calls, 0);
}

#[test]
fn bad_base_fails_before_the_transport() {
    let client = PokeApiClient::builder().base_url(Url::parse("mailto:pokeapi").unwrap()).build();
    assert!(matches!(client.pokemon_by_id(1), Err(Error::Internal("invalid base url join"))));
}

#[test]
fn resource_paths_use_id_or_name() {
    assert_eq!(pokemon_path(PokemonRef::Id(25)), "pokemon/25");
    assert_eq!(pokemon_path(PokemonRef::Name(PokemonName::new("mr-mime").unwrap())), "pokemon/mr-mime");
    assert_eq!(generation_path(GenerationRef::Id(0)), "generation/0");
    let name = GenerationName::new("generation-ii").unwrap();
    assert_eq!(generation_path(GenerationRef::Name(name)), "generation/generation-ii");
    assert_eq!(pokemon_path(PokemonRef::Id(u32::MAX)), "pokemon/4294967295");
}
