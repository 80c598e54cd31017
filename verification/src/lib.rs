//! Buffer management and HTTP/2 framing for an io_uring-oriented HTTP server.
//!
//! - `bufpool`: a reference-counted pool of fixed-size buffers
//! - `frame`: the HTTP/2 frame layer (frame headers, flags, settings, payloads)
//! - `h2`: the state of an HTTP/2 server connection
//! - `process`: what the server does with each frame it reads
//! - `request`, `http1`: requests and HTTP/1 heads
//! - `service`, `driver`, `harness`, `testgen`: the conformance test servers'
//!   routes and handler, their listen line, and the test catalogue
use vstd::prelude::*;

pub mod bufpool;
pub mod bytes;
pub mod chan;
pub mod driver;
pub mod encoder;
pub mod frame;
pub mod h2;
pub mod harness;
pub mod headers;
pub mod hpack;
pub mod http1;
pub mod piece;
pub mod process;
pub mod read;
pub mod request;
pub mod roll;
pub mod send;
pub mod service;
pub mod testgen;
pub mod types;

verus! {

} // verus!
