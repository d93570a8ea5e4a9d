//! A typed client core for a versioned, read-only REST API: validated
//! identifiers, URL and query construction, and the classification of
//! non-success responses into one closed error type.

pub mod client;
pub mod error;
pub mod http;
pub mod identifiers;
pub mod pagination;
pub mod text;

pub use client::PokeApiClient;
pub use error::Error;
pub use identifiers::{GenerationName, GenerationRef, PokemonName, PokemonRef};
pub use pagination::{Limit, Offset, PageRequest};
