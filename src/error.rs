use vstd::prelude::*;
use crate::http::{lookup, utf8_lossy, HttpResponse, PairView};
use crate::text::{decimal, decimal_text, parse_u64, parsed_u64, prefix_chars};

verus! {

/// The single error type of every fallible operation of this library.
#[derive(Debug)]
pub enum Error {
    /// A bug in configuration or URL construction, not caused by caller input.
    Internal(&'static str),
    /// A network or I/O failure below HTTP; `cause` describes it.
    Transport { cause: String },
    /// The server answered with a status outside `200..=299`.
    Api(ApiError),
    /// A success body did not have the expected shape.
    Deserialize { url: String, cause: String },
    /// Caller input failed local validation before any request was made.
    InvalidArgument { field: &'static str, reason: String },
}

/// A non-success answer of the server.
#[derive(Debug)]
pub struct ApiError {
    pub status: u16,
    pub url: String,
    pub kind: ApiErrorKind,
}

/// What a non-success status means to a caller.
#[derive(Debug)]
pub enum ApiErrorKind {
    NotFound { resource: &'static str, identifier: String },
    RateLimited { retry_after: Option<u64> },
    HttpStatus { body_snippet: Option<String> },
}

/// The longest body snippet kept, in characters.
pub const SNIPPET_CHARS: usize = 300;

/// The `retry-after` header read as whole seconds, if present and readable.
pub open spec fn retry_after_of(headers: Seq<PairView>) -> Option<u64> {
    match lookup(headers, "retry-after"@) {
        Some(v) => parsed_u64(v),
        None => None,
    }
}

/// The body decoded permissively and cut to 300 characters; none when empty.
pub open spec fn snippet_of(body: Seq<u8>) -> Option<Seq<char>> {
    if body.len() == 0 {
        None
    } else {
        let text = utf8_lossy(body);
        Some(text.take(if text.len() < 300 { text.len() as int } else { 300 }))
    }
}

/// The view of an optional text.
pub open spec fn opt_view(o: Option<String>) -> Option<Seq<char>> {
    match o {
        Some(s) => Some(s@),
        None => None,
    }
}

/// What the classifier gives for a non-success `status` on `url`.
pub open spec fn classified(status: u16, url: Seq<char>, resp: HttpResponse, e: Error) -> bool {
    e matches Error::Api(api) && api.status == status && api.url@ == url && match api.kind {
        ApiErrorKind::NotFound { resource, identifier } => status == 404 && resource@
            == "resource"@ && identifier@ == "<unknown>"@,
        ApiErrorKind::RateLimited { retry_after } => status == 429 && retry_after
            == retry_after_of(resp.headers@),
        ApiErrorKind::HttpStatus { body_snippet } => status != 404 && status != 429 && opt_view(
            body_snippet,
        ) == snippet_of(resp.body@),
    }
}

/// Turns a non-success answer into the error the caller sees: 404 is
/// `NotFound`, 429 is `RateLimited` with the `retry-after` seconds, and any
/// other status is `HttpStatus` with a snippet of the body.
pub fn classify_http_error(status: u16, url: String, resp: &HttpResponse) -> (r: Error)
    ensures
        classified(status, url@, *resp, r),
{
    if status == 404 {
        Error::Api(
            ApiError {
                status,
                url,
                kind: ApiErrorKind::NotFound {
                    resource: "resource",
                    identifier: "<unknown>".to_owned(),
                },
            },
        )
    } else if status == 429 {
        let retry_after = match resp.headers.get("retry-after") {
            Some(v) => parse_u64(v),
            None => None,
        };
        Error::Api(ApiError { status, url, kind: ApiErrorKind::RateLimited { retry_after } })
    } else {
        let body_snippet = if resp.body.len() == 0 {
            None
        } else {
            let text = resp.body_as_str_lossy();
            Some(prefix_chars(text.as_str(), SNIPPET_CHARS))
        };
        Error::Api(ApiError { status, url, kind: ApiErrorKind::HttpStatus { body_snippet } })
    }
}

/// The one-line summary of an API error.
pub open spec fn api_message(e: ApiError) -> Seq<char> {
    let status = decimal(e.status as nat);
    match e.kind {
        ApiErrorKind::NotFound { resource, identifier } => resource@ + " `"@ + identifier@
            + "` not found (status "@ + status + ")"@,
        ApiErrorKind::RateLimited { retry_after } => match retry_after {
            Some(secs) => "rate limited (retry after "@ + decimal(secs as nat) + "s) (status "@
                + status + ")"@,
            None => "rate limited (status "@ + status + ")"@,
        },
        ApiErrorKind::HttpStatus { .. } => "http error (status "@ + status + ")"@,
    }
}

/// The one-line summary of an error.
pub open spec fn error_message(e: Error) -> Seq<char> {
    match e {
        Error::Internal(reason) => "internal error: "@ + reason@,
        Error::Transport { .. } => "transport error"@,
        Error::Api(api) => "api error: "@ + api_message(api),
        Error::Deserialize { url, .. } => "failed to deserialize response from "@ + url@,
        Error::InvalidArgument { field, reason } => "invalid argument `"@ + field@ + "`: "@
            + reason@,
    }
}

impl ApiError {
    /// A short, stable description of this error.
    pub fn message(&self) -> (r: String)
        ensures
            r@ == api_message(*self),
    {
        let status = decimal_text(self.status as u64);
        let mut out: String;
        match &self.kind {
            ApiErrorKind::NotFound { resource, identifier } => {
                out = (*resource).to_owned();
                out.append(" `");
                out.append(identifier.as_str());
                out.append("` not found (status ");
            },
            ApiErrorKind::RateLimited { retry_after } => match retry_after {
                Some(secs) => {
                    out = "rate limited (retry after ".to_owned();
                    let s = decimal_text(*secs);
                    out.append(s.as_str());
                    out.append("s) (status ");
                },
                None => {
                    out = "rate limited (status ".to_owned();
                },
            },
            ApiErrorKind::HttpStatus { .. } => {
                out = "http error (status ".to_owned();
            },
        }
        out.append(status.as_str());
        out.append(")");
        proof {
            assert(out@ =~= api_message(*self));
        }
        out
    }
}

impl Error {
    /// A short, stable description of this error.
    pub fn message(&self) -> (r: String)
        ensures
            r@ == error_message(*self),
    {
        match self {
            Error::Internal(reason) => {
                let mut out = "internal error: ".to_owned();
                out.append(reason);
                out
            },
            Error::Transport { .. } => "transport error".to_owned(),
            Error::Api(api) => {
                let mut out = "api error: ".to_owned();
                let m = api.message();
                out.append(m.as_str());
                out
            },
            Error::Deserialize { url, .. } => {
                let mut out = "failed to deserialize response from ".to_owned();
                out.append(url.as_str());
                out
            },
            Error::InvalidArgument { field, reason } => {
                let mut out = "invalid argument `".to_owned();
                out.append(field);
                out.append("`: ");
                out.append(reason.as_str());
                proof { assert(out@ =~= error_message(*self)); }
                out
            },
        }
    }
}

/// How a protocol adapter reports an error to its own callers.
#[derive(Debug, Clone, Copy, PartialEq, Eq)]
pub enum ErrorClass {
    /// The caller's arguments were rejected.
    BadRequest,
    /// The resource does not exist.
    NotFound,
    /// Anything else: upstream, network, decoding or internal failures.
    Internal,
}

/// The class an adapter reports `e` under.
pub open spec fn class_of(e: Error) -> ErrorClass {
    match e {
        Error::InvalidArgument { .. } => ErrorClass::BadRequest,
        Error::Api(api) => if api.status == 404 {
            ErrorClass::NotFound
        } else {
            ErrorClass::Internal
        },
        _ => ErrorClass::Internal,
    }
}

/// The short message an adapter reports `e` with.
pub open spec fn summary_of(e: Error) -> Seq<char> {
    match e {
        Error::InvalidArgument { .. } => "Invalid arguments"@,
        Error::Api(api) => if api.status == 404 {
            "Not found"@
        } else {
            "Upstream API error"@
        },
        Error::Transport { .. } => "Network/transport error"@,
        Error::Deserialize { .. } => "Deserialize error"@,
        Error::Internal(_) => "Unexpected error"@,
    }
}

impl Error {
    /// The class a protocol adapter reports this error under.
    pub fn class(&self) -> (r: ErrorClass)
        ensures
            r == class_of(*self),
    {
        match self {
            Error::InvalidArgument { .. } => ErrorClass::BadRequest,
            Error::Api(api) => if api.status == 404 {
                ErrorClass::NotFound
            } else {
                ErrorClass::Internal
            },
            _ => ErrorClass::Internal,
        }
    }

    /// The short, stable message a protocol adapter reports this error with;
    /// the full description goes with it as diagnostic data.
    pub fn summary(&self) -> (r: &'static str)
        ensures
            r@ == summary_of(*self),
    {
        match self {
            Error::InvalidArgument { .. } => "Invalid arguments",
            Error::Api(api) => if api.status == 404 {
                "Not found"
            } else {
                "Upstream API error"
            },
            Error::Transport { .. } => "Network/transport error",
            Error::Deserialize { .. } => "Deserialize error",
            Error::Internal(_) => "Unexpected error",
        }
    }
}

} // verus!
