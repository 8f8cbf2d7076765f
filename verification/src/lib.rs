//! A verified core for a forward HTTP proxy gated by HTTP Basic
//! authentication.
//!
//! The library holds the per-connection decision logic: checking a
//! `Proxy-Authorization` header against configured credentials, resolving
//! the outbound target from a CONNECT authority or an absolute request
//! URI, rewriting the request head for forwarding, and choosing what to
//! send back to the client. Socket handling lives outside the library;
//! callers hand in the parsed request head as plain bytes and receive
//! plain bytes and addresses back.

pub mod auth;
pub mod bytes;
pub mod header;
pub mod rewrite;
pub mod route;
pub mod target;
