//! A minimal HTTP/1.1 server core: a request parser, an ordered route table
//! and a response encoder, each with a machine-checked contract.
//!
//! Bytes become a [`Request`] (module `request`), a [`Router`] picks the
//! first [`Route`] that accepts it and calls its handler (module `router`),
//! and the handler's [`Response`] becomes bytes again (module `response`).
//! One request is answered per connection; reading and writing the socket is
//! left to the caller.
//!
//! The contracts speak of a small vocabulary of their own: lines and pieces
//! of a byte stream (module `wire`), text and its encoding (module `text`),
//! header fields as an ordered mapping (module `headers`). Module `laws`
//! states what holds across the parts.

pub mod handlers;
pub mod headers;
pub mod http;
pub mod laws;
pub mod request;
pub mod response;
pub mod router;
pub mod text;
pub mod wire;

pub use headers::Headers;
pub use http::{HttpCode, HttpVersion, Method};
pub use request::{ParseError, Request, RequestBuffer};
pub use response::Response;
pub use router::{ComparePath, Route, Router};
