//! Core of an Iceberg-style REST catalog: warehouses, namespaces and tables
//! backed by an in-memory relational state, with the protocol's correctness
//! rules (staged vs. committed tables, optimistic-concurrency requirement
//! checks, atomic multi-table commits, rename with namespace move,
//! location-prefix lookup) stated as contracts and proved.


pub mod catalog;
pub mod commit;
pub mod error;
pub mod ident;
pub mod laws;
pub mod metadata;
pub mod namespace;
pub mod properties;
pub mod storage;
pub mod table;
pub mod types;
pub mod uuids;
pub mod warehouse;
