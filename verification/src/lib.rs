//! An HTTP/1.1 origin server core without I/O: the wire codec, the host
//! router's decisions, and the readiness-multiplexed event loop as a state
//! machine. The embedding program owns the sockets, the file system and the
//! poller; this crate decides what to do with what they report.
//!
//! - `http` reads requests incrementally and writes responses, whole or in
//!   chunks; `http_laws` states what holds of both.
//! - `host`, `files` and `cgi` route a request to a static file or a CGI
//!   program. The router asks for what only the file system knows
//!   (`host::Lookup`) and goes on with the answer (`host::Found`).
//! - `select` is the event loop: sources by token, the commands that alone
//!   change what is registered, and the handlers of listener, connections
//!   and operator input. The program reports a `select::Event` and is told
//!   what to do next, a `select::Next`.
//! - `seq` and `pool` hold the decisions of the variants that serve one
//!   connection at a time.
//! - `config` reads the configuration text, `time` the dates of HTTP.
//! - `fields`, `text`, `numeric` and `parse` are the octet-string tools
//!   underneath.

pub mod cgi;
pub mod config;
pub mod error;
pub mod fields;
pub mod files;
pub mod host;
pub mod http;
pub mod http_laws;
pub mod numeric;
pub mod parse;
pub mod pool;
pub mod select;
pub mod seq;
pub mod text;
pub mod time;
