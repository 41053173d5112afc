//! Support layer for a contract-binding generator: identifier sanitization,
//! fixed-length address parsing, and resolution of the namespace paths that
//! emitted code should reference.

pub mod address;
pub mod idents;
pub mod resolve;
