//! Core of a Datalog-style, schema-aware, append-only, transactional
//! entity-attribute-value database: the value model, the identifier
//! registry, attribute metadata and its invariants, schema-directed type
//! checking, query algebrization, and a transactor over an in-memory
//! datom store.
//!
//! The surrounding program supplies what the core deliberately leaves
//! out: parsing of symbolic text, persistence, and the clock.

pub mod algebrize;
pub mod alpha;
pub mod attributes;
pub mod entids;
pub mod errors;
pub mod metadata;
pub mod projector;
pub mod query;
pub mod render;
pub mod schema;
pub mod store;
pub mod values;
