//! A small HTTP/1.1 request-serving library: request-head parsing, URI
//! decomposition, a first-match route table and response framing.
pub mod head;
pub mod header;
pub mod request;
pub mod response;
pub mod routing;
pub mod server;
pub mod text;
pub mod uri;
