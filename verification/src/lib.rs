//! An inventory-tracking storage library.
//!
//! The crate persists products, components, stock movements, orders and
//! related records in an embedded transactional store, one keyed table per
//! record kind.  Records are stored under their caller-chosen string id as a
//! fixed binary encoding, and every operation on the store is specified
//! against a mathematical model of the ten tables.

pub mod codec;
pub mod records;
pub mod record_codec;
pub mod movement;
pub mod store;
