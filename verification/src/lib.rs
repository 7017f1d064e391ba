//! Core of a minimal, one-connection-at-a-time HTTP file server: a verified
//! request-line parser, verified response framing, and the per-connection
//! protocol state machine. Transport and filesystem access live outside this
//! crate; they hand lines of bytes in and take framed response bytes out.

mod parser;
mod response;
mod session;

pub use parser::Method;
pub use parser::ParseError;
pub use parser::Request;
pub use parser::parse_http1;
pub use parser::parse_method;
pub use response::not_found_response;
pub use response::ok_response;
pub use session::LineStep;
pub use session::Session;
