//! A provenance ledger: identifiers, the provenance model and its deterministic apply
//! algorithm, the linked-data form of operations and resources, state addresses, the
//! transaction envelope, the transaction processor and the command pipeline.
pub mod address;
pub mod codec;
pub mod graph;
pub mod ids;
pub mod json;
pub mod ledger;
pub mod model;
pub mod ops;
pub mod order;
pub mod pipeline;
pub mod processor;
pub mod projection;
pub mod protocol;
pub mod signing;
pub mod table;
pub mod text;
pub mod time;
