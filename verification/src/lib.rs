//! A minimal HTTP/1.1 request/response engine for a single-socket
//! TLS-terminating server.
//!
//! The crate covers the protocol core: incremental parsing of a request
//! head (request line plus a bounded list of headers), resolution of the
//! body expectation (`Content-Length` and `Expect: 100-continue`),
//! framing of responses into wire bytes, and the per-connection decision
//! logic that ties them together.  Socket and TLS plumbing live outside
//! the crate; everything here is pure computation on bytes.

pub mod ascii;
pub mod grammar;
pub mod parser;
pub mod resolver;
pub mod framer;
pub mod engine;
