//! A sans-I/O HTTP/1.1 request parser with machine-checked contracts.
//!
//! The crate reads one request (request line, header block, body) and offers
//! read-only views over it: query parameters, headers, content type, cookies,
//! form fields and a JSON body.  Reading from a connection is left to the
//! caller: [`parser::Parser`] says what to read next and is fed what was read;
//! [`buffer::read_request`] runs it over a request held in memory.

pub mod buffer;
pub mod fields;
pub mod headers;
pub mod json;
pub mod maps;
pub mod number;
pub mod octets;
pub mod parser;
pub mod request;
pub mod text;
pub mod version;

pub use crate::buffer::ReadError;
pub use crate::request::Cerial;
pub use crate::version::HttpVersion;
