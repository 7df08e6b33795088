//! Stateless request handlers in front of a key-value table: routing, payload
//! decoding, record expiry, the storage interface and the mapping from storage
//! outcomes to HTTP responses.

pub mod config;
pub mod expiry;
pub mod handler;
pub mod item;
pub mod json;
pub mod json_scan;
pub mod json_utf8;
pub mod laws;
pub mod payload;
pub mod record;
pub mod request;
pub mod response;
pub mod router;
pub mod storage;
pub mod store;
pub mod text;
