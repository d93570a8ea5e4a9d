use vstd::prelude::*;
use crate::error::{classified, classify_http_error, Error};
use crate::http::{
    joined_base, join_base, lemma_sorted_pairs_determined, lookup, sorted_by_key, Headers,
    HttpRequest, HttpResponse, Method, PairView, Query, Url,
};
use crate::identifiers::{GenerationName, GenerationRef, PokemonName, PokemonRef};
use crate::pagination::PageRequest;
use crate::text::{decimal, decimal_text};
use core::time::Duration;

verus! {

/// Relies on `Duration::from_secs` returning, without panicking, for every
/// `u64`; nothing is claimed of the value.
pub assume_specification[ core::time::Duration::from_secs ](secs: u64) -> Duration;

/// Where requests go and what every request carries.
#[derive(Debug)]
pub struct ClientConfig {
    /// The root of the API instance.
    pub base_url: Url,
    /// The path segment after the root, such as `api/v2`.
    pub api_prefix: String,
    /// Headers set on every request.
    pub default_headers: Headers,
}

/// The headers set on every request unless changed: `accept: application/json`.
pub open spec fn default_headers_view() -> Seq<PairView> {
    seq![("accept"@, "application/json"@)]
}

/// The configuration of the public API.
pub open spec fn is_default_config(c: ClientConfig) -> bool {
    &&& c.base_url@ == "https://pokeapi.co/"@
    &&& c.api_prefix@ == "api/v2"@
    &&& c.default_headers@ == default_headers_view()
}

impl Default for ClientConfig {
    fn default() -> (r: Self)
        ensures
            is_default_config(r),
    {
        let mut headers = Headers::new();
        headers.insert("accept", "application/json");
        proof {
            let want = default_headers_view();
            assert forall|k: Seq<char>| #[trigger] lookup(headers@, k) == lookup(want, k) by {
                if k == "accept"@ {
                    crate::http::lemma_lookup_at(want, k, 0);
                }
            }
            lemma_sorted_pairs_determined(headers@, want);
        }
        ClientConfig {
            base_url: Url::default_base(),
            api_prefix: "api/v2".to_owned(),
            default_headers: headers,
        }
    }
}

impl ClientConfig {
    /// A copy of this configuration.
    pub fn copied(&self) -> (r: Self)
        ensures
            r.base_url@ == self.base_url@,
            r.api_prefix@ == self.api_prefix@,
            r.default_headers@ == self.default_headers@,
    {
        ClientConfig {
            base_url: self.base_url.copied(),
            api_prefix: self.api_prefix.clone(),
            default_headers: self.default_headers.copied(),
        }
    }
}

/// The user agent sent unless the caller names another.
pub open spec fn default_user_agent() -> Seq<char> {
    "krabdex/0.1.0"@
}

/// Collects the configuration of a client, and the settings its transport
/// is built with.
#[derive(Debug)]
pub struct PokeApiClientBuilder {
    config: ClientConfig,
    timeout: Option<Duration>,
    user_agent: Option<String>,
}

impl PokeApiClientBuilder {
    pub closed spec fn spec_config(&self) -> ClientConfig {
        self.config
    }

    pub closed spec fn spec_timeout(&self) -> Option<Duration> {
        self.timeout
    }

    pub closed spec fn spec_user_agent(&self) -> Option<Seq<char>> {
        match self.user_agent {
            Some(u) => Some(u@),
            None => None,
        }
    }

    /// The default configuration, a 10 s timeout and the default user agent.
    pub fn new() -> (r: Self)
        ensures
            is_default_config(r.spec_config()),
            r.spec_timeout() is Some,
            r.spec_user_agent() == Some(default_user_agent()),
    {
        Self::from_config(ClientConfig::default())
    }

    /// Starts from `config`, with a 10 s timeout and the default user agent.
    pub fn from_config(config: ClientConfig) -> (r: Self)
        ensures
            r.spec_config() == config,
            r.spec_timeout() is Some,
            r.spec_user_agent() == Some(default_user_agent()),
    {
        PokeApiClientBuilder {
            config,
            timeout: Some(Duration::from_secs(10)),
            user_agent: Some("krabdex/0.1.0".to_owned()),
        }
    }

    pub fn base_url(self, url: Url) -> (r: Self)
        ensures
            r.spec_config().base_url == url,
            r.spec_config().api_prefix == self.spec_config().api_prefix,
            r.spec_config().default_headers == self.spec_config().default_headers,
            r.spec_timeout() == self.spec_timeout(),
            r.spec_user_agent() == self.spec_user_agent(),
    {
        let mut b = self;
        b.config.base_url = url;
        b
    }

    pub fn api_prefix(self, prefix: &str) -> (r: Self)
        ensures
            r.spec_config().base_url == self.spec_config().base_url,
            r.spec_config().api_prefix@ == prefix@,
            r.spec_config().default_headers == self.spec_config().default_headers,
            r.spec_timeout() == self.spec_timeout(),
            r.spec_user_agent() == self.spec_user_agent(),
    {
        let mut b = self;
        b.config.api_prefix = prefix.to_owned();
        b
    }

    /// Adds or replaces a header sent with every request.
    pub fn default_header(self, key: &str, value: &str) -> (r: Self)
        ensures
            forall|k: Seq<char>| #[trigger] lookup(r.spec_config().default_headers@, k) == if k
                == key@ {
                Some(value@)
            } else {
                lookup(self.spec_config().default_headers@, k)
            },
            r.spec_config().base_url == self.spec_config().base_url,
            r.spec_config().api_prefix == self.spec_config().api_prefix,
            r.spec_timeout() == self.spec_timeout(),
            r.spec_user_agent() == self.spec_user_agent(),
    {
        let mut b = self;
        b.config.default_headers.insert(key, value);
        b
    }

    pub fn timeout(self, d: Duration) -> (r: Self)
        ensures
            r.spec_config() == self.spec_config(),
            r.spec_timeout() == Some(d),
            r.spec_user_agent() == self.spec_user_agent(),
    {
        let mut b = self;
        b.timeout = Some(d);
        b
    }

    pub fn user_agent(self, ua: &str) -> (r: Self)
        ensures
            r.spec_config() == self.spec_config(),
            r.spec_timeout() == self.spec_timeout(),
            r.spec_user_agent() == Some(ua@),
    {
        let mut b = self;
        b.user_agent = Some(ua.to_owned());
        b
    }

    /// The client with the collected configuration and transport settings.
    pub fn build(self) -> (r: PokeApiClient)
        ensures
            r.spec_config() == self.spec_config(),
            r.spec_timeout() == self.spec_timeout(),
            r.spec_user_agent() == self.spec_user_agent(),
    {
        PokeApiClient { config: self.config, timeout: self.timeout, user_agent: self.user_agent }
    }
}

/// The request/response pipeline of the API: it builds each request from
/// the stored configuration and judges each response. Performing the
/// exchange is left to a transport, which hands the response back.
#[derive(Debug)]
pub struct PokeApiClient {
    config: ClientConfig,
    timeout: Option<Duration>,
    user_agent: Option<String>,
}

/// What `prepare` gives for `path` and `query` under `config`.
pub open spec fn prepared(
    config: ClientConfig,
    path: Seq<char>,
    query: Seq<PairView>,
    r: Result<HttpRequest, Error>,
) -> bool {
    match joined_base(config.base_url@, config.api_prefix@, path) {
        Ok(full) => r matches Ok(req) && req.method == Method::Get && req.url@ == full
            && req.headers@ == config.default_headers@ && req.query@ == query && req.body is Empty,
        Err(first) => r matches Err(Error::Internal(m)) && m@ == if first {
            "invalid base url join"@
        } else {
            "invalid path join"@
        },
    }
}

/// The query of a list request: `limit` and `offset`, in decimal.
pub open spec fn page_query_view(page: PageRequest) -> Seq<PairView> {
    seq![("limit"@, decimal(page.limit@ as nat)), ("offset"@, decimal(page.offset@ as nat))]
}

/// The path of a resource kind followed by an id or a name.
pub open spec fn resource_path(kind: Seq<char>, key: Seq<char>) -> Seq<char> {
    kind + "/"@ + key
}

pub open spec fn pokemon_key(r: PokemonRef) -> Seq<char> {
    match r {
        PokemonRef::Id(id) => decimal(id as nat),
        PokemonRef::Name(n) => n@,
    }
}

pub open spec fn generation_key(r: GenerationRef) -> Seq<char> {
    match r {
        GenerationRef::Id(id) => decimal(id as nat),
        GenerationRef::Name(n) => n@,
    }
}

/// `kind/key`.
fn resource_path_text(kind: &str, key: &str) -> (r: String)
    ensures
        r@ == resource_path(kind@, key@),
{
    let mut p = kind.to_owned();
    p.append("/");
    p.append(key);
    p
}

/// The path of a Pokemon: `pokemon/{id}` or `pokemon/{name}`.
pub fn pokemon_path(pokemon: PokemonRef) -> (r: String)
    ensures
        r@ == resource_path("pokemon"@, pokemon_key(pokemon)),
{
    match pokemon {
        PokemonRef::Id(id) => {
            let key = decimal_text(id as u64);
            resource_path_text("pokemon", key.as_str())
        },
        PokemonRef::Name(name) => resource_path_text("pokemon", name.as_str()),
    }
}

/// The path of a Generation: `generation/{id}` or `generation/{name}`.
pub fn generation_path(gen: GenerationRef) -> (r: String)
    ensures
        r@ == resource_path("generation"@, generation_key(gen)),
{
    match gen {
        GenerationRef::Id(id) => {
            let key = decimal_text(id as u64);
            resource_path_text("generation", key.as_str())
        },
        GenerationRef::Name(name) => resource_path_text("generation", name.as_str()),
    }
}

/// The query of a list request, with `limit` and `offset` set.
pub fn page_query(pr: PageRequest) -> (r: Query)
    ensures
        r@ == page_query_view(pr),
        sorted_by_key(r@),
{
    let mut q = Query::new();
    let limit = decimal_text(pr.limit.get() as u64);
    let offset = decimal_text(pr.offset.get() as u64);
    q.set("limit", limit.as_str());
    q.set("offset", offset.as_str());
    proof {
        let want = page_query_view(pr);
        reveal_strlit("limit");
        reveal_strlit("offset");
        assert("limit"@ != "offset"@) by {
            assert("limit"@[0] != "offset"@[0]);
        }
        assert(sorted_by_key(want)) by {
            assert(crate::text::key_lt("limit"@, "offset"@)) by {
                crate::text::lemma_ascii_first_order("limit"@, "offset"@);
            }
        }
        assert forall|k: Seq<char>| #[trigger] lookup(q@, k) == lookup(want, k) by {
            if k == "limit"@ {
                crate::http::lemma_lookup_at(want, k, 0);
            } else if k == "offset"@ {
                crate::http::lemma_lookup_at(want, k, 1);
            } else {
                assert(!crate::http::has_key(want, k));
            }
        }
        lemma_sorted_pairs_determined(q@, want);
    }
    q
}

impl PokeApiClient {
    pub closed spec fn spec_config(&self) -> ClientConfig {
        self.config
    }

    pub closed spec fn spec_timeout(&self) -> Option<Duration> {
        self.timeout
    }

    pub closed spec fn spec_user_agent(&self) -> Option<Seq<char>> {
        match self.user_agent {
            Some(u) => Some(u@),
            None => None,
        }
    }

    /// A client for the public API with the default settings.
    pub fn new() -> (r: Self)
        ensures
            is_default_config(r.spec_config()),
            r.spec_user_agent() == Some(default_user_agent()),
    {
        Self::builder().build()
    }

    pub fn builder() -> (r: PokeApiClientBuilder)
        ensures
            is_default_config(r.spec_config()),
            r.spec_timeout() is Some,
            r.spec_user_agent() == Some(default_user_agent()),
    {
        PokeApiClientBuilder::new()
    }

    pub fn config(&self) -> (r: &ClientConfig)
        ensures
            *r == self.spec_config(),
    {
        &self.config
    }

    /// The timeout the transport is to apply.
    pub fn timeout(&self) -> (r: Option<Duration>)
        ensures
            r == self.spec_timeout(),
    {
        self.timeout
    }

    /// The user agent the transport is to send.
    pub fn user_agent(&self) -> (r: Option<&str>)
        ensures
            match r {
                Some(u) => self.spec_user_agent() == Some(u@),
                None => self.spec_user_agent() is None,
            },
    {
        match &self.user_agent {
            Some(u) => Some(u.as_str()),
            None => None,
        }
    }

    /// Builds the `GET` request for `path`: the configured base and prefix
    /// joined with `path`, the default headers, and `query` if given.
    pub fn prepare(&self, path: &str, query: Option<Query>) -> (r: Result<HttpRequest, Error>)
        ensures
            prepared(
                self.spec_config(),
                path@,
                match query {
                    Some(q) => q@,
                    None => Seq::<PairView>::empty(),
                },
                r,
            ),
    {
        let url = match join_base(&self.config.base_url, self.config.api_prefix.as_str(), path) {
            Ok(u) => u,
            Err(e) => {
                return Err(e);
            },
        };
        let mut req = HttpRequest::new(Method::Get, url);
        req.headers = self.config.default_headers.copied();
        match query {
            Some(q) => {
                req.query = q;
            },
            None => {},
        }
        Ok(req)
    }

    /// Judges a response to a request for `path`: a status in `200..=299`
    /// hands the body on, any other is classified into an error.
    pub fn accept(path: &str, resp: HttpResponse) -> (r: Result<Vec<u8>, Error>)
        ensures
            200 <= resp.status <= 299 ==> (r matches Ok(body) && body@ == resp.body@),
            !(200 <= resp.status <= 299) ==> (r matches Err(e) && classified(
                resp.status,
                path@,
                resp,
                e,
            )),
    {
        if 200 <= resp.status && resp.status <= 299 {
            Ok(resp.body)
        } else {
            Err(classify_http_error(resp.status, path.to_owned(), &resp))
        }
    }

    /// The request for a Pokemon by numeric id: `pokemon/{id}`.
    pub fn pokemon_by_id(&self, id: u32) -> (r: Result<HttpRequest, Error>)
        ensures
            prepared(
                self.spec_config(),
                resource_path("pokemon"@, decimal(id as nat)),
                Seq::empty(),
                r,
            ),
    {
        let path = pokemon_path(PokemonRef::Id(id));
        self.prepare(path.as_str(), None)
    }

    /// The request for a Pokemon by validated name: `pokemon/{name}`.
    pub fn pokemon_by_name(&self, name: PokemonName) -> (r: Result<HttpRequest, Error>)
        ensures
            prepared(self.spec_config(), resource_path("pokemon"@, name@), Seq::empty(), r),
    {
        let path = pokemon_path(PokemonRef::Name(name));
        self.prepare(path.as_str(), None)
    }

    /// The request for a Pokemon by id or by name.
    pub fn pokemon(&self, pokemon: PokemonRef) -> (r: Result<HttpRequest, Error>)
        ensures
            prepared(
                self.spec_config(),
                resource_path("pokemon"@, pokemon_key(pokemon)),
                Seq::empty(),
                r,
            ),
    {
        match pokemon {
            PokemonRef::Id(id) => self.pokemon_by_id(id),
            PokemonRef::Name(name) => self.pokemon_by_name(name),
        }
    }

    /// The request for one page of Pokemon: `pokemon?limit=..&offset=..`.
    pub fn pokemon_list(&self, page: PageRequest) -> (r: Result<HttpRequest, Error>)
        ensures
            prepared(self.spec_config(), "pokemon"@, page_query_view(page), r),
    {
        self.prepare("pokemon", Some(page_query(page)))
    }

    /// The request for a Generation by numeric id: `generation/{id}`.
    pub fn generation_by_id(&self, id: u32) -> (r: Result<HttpRequest, Error>)
        ensures
            prepared(
                self.spec_config(),
                resource_path("generation"@, decimal(id as nat)),
                Seq::empty(),
                r,
            ),
    {
        let path = generation_path(GenerationRef::Id(id));
        self.prepare(path.as_str(), None)
    }

    /// The request for a Generation by validated name: `generation/{name}`.
    pub fn generation_by_name(&self, name: GenerationName) -> (r: Result<HttpRequest, Error>)
        ensures
            prepared(self.spec_config(), resource_path("generation"@, name@), Seq::empty(), r),
    {
        let path = generation_path(GenerationRef::Name(name));
        self.prepare(path.as_str(), None)
    }

    /// The request for a Generation by id or by name.
    pub fn generation(&self, gen: GenerationRef) -> (r: Result<HttpRequest, Error>)
        ensures
            prepared(
                self.spec_config(),
                resource_path("generation"@, generation_key(gen)),
                Seq::empty(),
                r,
            ),
    {
        match gen {
            GenerationRef::Id(id) => self.generation_by_id(id),
            GenerationRef::Name(name) => self.generation_by_name(name),
        }
    }

    /// The request for one page of Generations: `generation?limit=..&offset=..`.
    pub fn generation_list(&self, page: PageRequest) -> (r: Result<HttpRequest, Error>)
        ensures
            prepared(self.spec_config(), "generation"@, page_query_view(page), r),
    {
        self.prepare("generation", Some(page_query(page)))
    }
}

} // verus!
