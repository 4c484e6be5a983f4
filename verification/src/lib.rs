//! A sharded, append-only transaction history: buckets that hold a certified
//! log, a router that binds applications to buckets, an index that resolves an
//! application to the root of its bucket chain, and the client layer on top.

pub mod identity;
pub mod event;
pub mod encoding;
pub mod certified;
pub mod bucket;
pub mod registry;
pub mod rejection;
pub mod router;
pub mod index;
pub mod chain;
pub mod history;
pub mod env;
pub mod client;
pub mod token;
pub mod transaction;
pub mod transactions;
pub mod walk;
