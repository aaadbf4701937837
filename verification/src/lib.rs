//! An HTTP/1.1 server's request parsing, routing and response framing.
pub mod encoding;
pub mod error;
pub mod client;
pub mod headers;
pub mod request;
pub mod response;
pub mod text;
