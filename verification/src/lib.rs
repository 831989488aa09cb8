//! Client library for an Apollo-style remote configuration service.
//!
//! The library holds the deterministic core of the client: building the
//! request URL for a namespace's latest release, decoding the JSON release
//! payload (including the doubly JSON-encoded `configurations` field),
//! computing the cache file path, serializing a configuration mapping for
//! the cache file, and tracking the last-seen release key.  The HTTP round
//! trip and the disk write themselves are performed by a thin layer around
//! this crate.

pub mod client;
pub mod config;
pub mod json;

pub use client::is_success_status;
pub use client::ApolloClient;
pub use client::ApolloClientBuilder;
pub use client::ApolloClientBuilderError;
pub use config::decode_config;
pub use config::decode_configurations;
pub use config::Config;
pub use config::DecodeError;
pub use json::encode_configurations;
