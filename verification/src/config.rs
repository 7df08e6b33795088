//! Handler configuration: what tells one handler of the family from another. It is
//! resolved once and handed to every invocation.

use vstd::prelude::*;
use vstd::string::*;

verus! {

/// How the body of a write request is taken.
#[derive(Debug)]
pub enum WriteMode {
    /// The body is stored as it arrived, under the payload attribute, where it
    /// is a JSON text. The empty object is stored in its place where it is not.
    FreeForm,
    /// The body is a JSON object with one expected member, `field`, whose value
    /// is a string. That string is stored under `field`.
    Shaped { field: String },
}

/// What a read request reports.
#[derive(Debug)]
pub enum ReadMode {
    /// Whether a record exists under the key.
    Existence,
    /// The payload of the record under the key.
    Payload,
    /// How many records carry the key as the text of `field`, up to `limit`.
    Count { field: String, limit: u64 },
}

/// The configuration of one handler.
#[derive(Debug)]
pub struct HandlerConfig {
    /// The table that holds the records.
    pub table_name: String,
    /// The name of the identifier, in responses and as an attribute.
    pub id_field: String,
    /// The name of the backend, in the response to a write.
    pub backend: String,
    /// Length in bytes of the path prefix of a write request.
    pub write_prefix_len: usize,
    /// Length in bytes of the path prefix of a read request.
    pub read_prefix_len: usize,
    /// How the body of a write request is taken.
    pub write_mode: WriteMode,
    /// What a read request reports.
    pub read_mode: ReadMode,
    /// Whether the records that are written expire.
    pub expiring: bool,
}

impl HandlerConfig {
    /// The handler that keeps the payloads of clients: a write stores the body
    /// as it arrived under the client's identifier, for a limited time, and a
    /// read reports the stored payload.
    pub fn client_payloads(table_name: &str) -> (config: HandlerConfig)
        ensures
            config.table_name@ == table_name@,
            config.id_field@ == "client_id"@,
            config.backend@ == "DDB"@,
            config.write_prefix_len == 9,
            config.read_prefix_len == 1,
            config.write_mode is FreeForm,
            config.read_mode is Payload,
            config.expiring,
    {
        HandlerConfig {
            table_name: String::from_str(table_name),
            id_field: String::from_str("client_id"),
            backend: String::from_str("DDB"),
            write_prefix_len: 9,
            read_prefix_len: 1,
            write_mode: WriteMode::FreeForm,
            read_mode: ReadMode::Payload,
            expiring: true,
        }
    }
}

} // verus!
