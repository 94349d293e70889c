//! A minimal HTTP/1.1 server library.
//!
//! The crate models the wire format of one request/response cycle over raw
//! bytes: request parsing off a buffered byte stream, route dispatch for a
//! small fixed set of endpoints, response building with automatic
//! `Content-Length`, and the persistent-connection close decision.
//! Socket and file-system work is left to the surrounding program, which
//! hands the library plain byte buffers and takes byte buffers back.

pub mod bytes;
pub mod cli;
pub mod connection;
pub mod handler;
pub mod http;
pub mod wire;
