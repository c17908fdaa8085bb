//! The protocol core of a small HTTP/1.x server: wire tokens, request parsing,
//! chunked response framing, exact-match routing, and the shared argument store.
//! Sockets and threads live with the program that uses this library.
pub mod args;
pub mod request;
pub mod response;
pub mod router;
pub mod table;
pub mod text;
pub mod wire;

pub use args::Args;
pub use request::HTTPRequest;
pub use response::HTTPResponse;
pub use router::Router;
pub use table::TextMap;
pub use wire::{HttpError, Method, StatusCode, Version};
