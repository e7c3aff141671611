//! A minimal multi-threaded HTTP/1.1 server library.
//!
//! The crate provides the verified core of such a server: a request
//! parser over raw bytes, an exact-match route table, a response
//! builder that serializes to the wire format, and the bookkeeping
//! and placement logic of a fixed-capacity worker pool.  The pieces
//! that touch the operating system (sockets, threads) live outside
//! the library and drive it with plain values.

pub mod http;
pub mod parser;
pub mod response;
pub mod server;
pub mod text;
pub mod thread_pool;

pub use http::HttpMethod;
pub use http::HttpStatus;
pub use parser::{parse_http_request, parse_http_response, ParseError, RequestModel};
pub use response::{MissingStatusError, Response};
pub use server::{LookupResult, Request, Route, RouteConflictError, Server};
pub use thread_pool::{Placement, PoolStep, ThreadPool, WorkerStatus};
