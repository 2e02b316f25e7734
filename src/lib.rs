//! Parsing of a raw textual HTTP response (status line, header lines, a blank line, body)
//! into typed fields: a version, a status code and a reason phrase out of fixed vocabularies,
//! a mapping of headers, and the body line.
pub mod laws;
pub mod response;
pub mod text;
pub mod vocabulary;

pub use response::{process_header_line, process_response_line, HttpResponse, ParseError};
pub use vocabulary::{ReasonPharse, Status, Version};
