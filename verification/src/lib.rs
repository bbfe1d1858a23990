//! Verified core of an npm dependency-resolution CDN: request decoding,
//! specifier parsing, the retry policy of the resolver, package-store
//! bookkeeping and the error replies that the HTTP layer sends back.

pub mod text;
pub mod error;
pub mod strmap;
pub mod package;
pub mod document;
pub mod query;
pub mod deps;
pub mod error_reply;
pub mod store;
pub mod cache;
