//! An ephemeral content store: clients hand in an opaque byte payload and get
//! back a short random identifier; whoever holds the identifier can fetch the
//! payload until it expires.
//!
//! The crate covers the storage abstraction (an in-process backend and a model
//! of the keyspace that a networked, TTL-based backend maintains), the bounded
//! multipart ingestion pipeline that turns a raw request body into a validated
//! payload, and the request-handling decisions that tie the two together.
//! The HTTP routing and the network I/O around these parts live outside the
//! library and hand it plain values.

pub mod config;
pub mod db;
pub mod handlers;
pub mod ingest;
pub mod persistent;
pub mod utils;
