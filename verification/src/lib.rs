//! A verified core for a small static-content HTTP/1.x server.
//!
//! The library holds the protocol logic: request parsing, response
//! building and serialization, media-type selection, and the route
//! table that maps request URIs to filesystem paths.  Socket and file
//! I/O, TLS, and the worker pool live outside the library and hand it
//! plain byte values.

pub mod config;
pub mod content_type;
pub mod handler;
pub mod pct;
pub mod request;
pub mod response;
pub mod routing;
pub mod statuses;
pub mod scan;
pub mod table;
pub mod text;
pub mod timefmt;
