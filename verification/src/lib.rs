//! A lightweight typed publish/subscribe broker library.
//!
//! Clients publish and subscribe to named topics over a small line-framed
//! wire protocol carrying a JSON envelope; each topic may be bound to a
//! message type whose payloads are validated against a JSON Schema before
//! delivery.  This crate holds the verified core: the JSON payload codec,
//! the framing codec, the topic registry, the per-connection request
//! handler, the schema store and the client-side operation planners.
//! Socket, file and process handling live in the surrounding binary.

pub mod json;
pub mod parse;
pub mod text;
pub mod envelope;
pub mod frame;
pub mod registry;
pub mod schema;
pub mod handler;
pub mod snapshot;
pub mod client;
pub mod package;
pub mod node;
