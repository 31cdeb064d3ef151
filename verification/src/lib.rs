//! Read side of a ledger history kept in a key-value store.
//!
//! The store maps byte strings to byte strings. This crate decides which keys a
//! query reads and what the records read mean; fetching them is the caller's part.
//!
//! - [`block`]: identifiers, headers, bodies and sections of blocks.
//! - [`codec`]: the byte layout of keys and sections.
//! - [`store`]: the store as a mathematical map, and what a history in it is.
//! - [`sections`]: queries answered from a fixed set of keys.
//! - [`walk`]: queries answered by walking the best chain from its tip.
//! - [`laws`]: what holds between the queries of one history.
pub mod block;
pub mod codec;
pub mod laws;
pub mod sections;
pub mod store;
pub mod walk;
