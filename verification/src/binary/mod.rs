//! Byte-level layer of the COPY binary format.
pub mod be;
pub mod buffer_view;
pub mod constants;
pub mod field;
pub mod header;
pub mod reader;
pub mod text;
pub mod writer;
