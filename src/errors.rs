//! Error types of the fetch layer, the models and the configuration.
use vstd::prelude::*;

verus! {

/// Why a request to an upstream API did not produce an entity.
#[derive(Debug, Clone)]
pub enum ApiClientError {
    /// A terminal failure of the request, with a description.
    RequestFailed(String),
    /// The response body could not be decoded; terminal for this item.
    DeserializationError(String),
    /// The upstream refused the request for its rate.
    RateLimitExceeded,
    /// The upstream answered 404; terminal.
    NotFound,
    /// The upstream kept answering with a server error.
    ServerError,
    /// The upstream kept timing out.
    Timeout,
    /// Every allowed attempt was spent.
    MaxRetriesExceeded,
}

/// Errors of the persisted models.
#[derive(Debug, Clone)]
pub enum ModelError {
    Database(String),
    Serialization(String),
    NotFound(String),
    InvalidData(String),
}

/// Errors of loading the process configuration.
#[derive(Debug, Clone, Copy, PartialEq, Eq)]
pub enum ConfigError {
    /// A variable without a default was not set.
    MissingEnvVar(&'static str),
    /// The port was not a number in range.
    InvalidPort,
}

} // verus!
