//! Encoding and decoding of DNS messages (RFC 1034 / RFC 1035) with
//! machine-checked contracts.
pub mod types;
pub mod message;
pub mod from_wire;
pub mod wire;
pub mod laws;
pub mod layout;

