//! Field payloads: PostgreSQL binary send format to IR values and back.
pub mod array;
pub mod decode;
pub mod encode;
pub mod oid;
