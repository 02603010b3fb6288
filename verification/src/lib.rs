//! State-mutation core of a ledger transaction handler.
//!
//! Given an opaque transaction payload, the library derives the fixed
//! namespace prefix identifying this handler's portion of global state,
//! decodes and validates the payload into a typed request, and merges a
//! single key/value fact into an address-keyed state entry using a
//! canonical, deterministic binary encoding.

pub mod codec;
pub mod errors;
pub mod field_map;
pub mod handler;
pub mod namespace;
pub mod order;
pub mod payload;
pub mod state;
