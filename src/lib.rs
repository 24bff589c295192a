//! Raw (non-transactional) key-value access for a sharded key-value store:
//! request construction and validation, column-family scoping of client
//! handles, and shaping of what the execution layer sends back.
pub mod client;
pub mod error;
pub mod kv;
pub mod laws;
pub mod memory;
pub mod request;
pub mod shape;
pub mod store;
