//! A verified core for a minimal HTTP/1.1 server.
//!
//! The crate turns the bytes of one connection into what is left to do
//! for it, and a response into the bytes to send. It does no I/O: the
//! server around it reads, writes and touches the file system.
//!
//! - `bytes`, `decimal`: byte-string primitives and decimal numerals.
//! - `request`, `parser`: the structured request, header lookup, and the
//!   parser from wire bytes, with the reader's `progress`.
//! - `route`: the ordered route table and first-match dispatch.
//! - `files`, `handler`: the handlers of the routes, the file routes'
//!   path rules, and the policy that answers every error.
//! - `response`: the structured response and its serialization.
//! - `wire`: theorems about whole exchanges.

pub mod bytes;
pub mod decimal;
pub mod error;
pub mod request;
pub mod parser;
pub mod response;
pub mod route;
pub mod files;
pub mod handler;
pub mod wire;
