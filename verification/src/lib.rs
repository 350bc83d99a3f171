//! A multi-tenant application container: it hosts isolated compute instances
//! (each a bytecode module bound to an agent plus storage), wires them
//! together through declared call bridges, and exposes callable surfaces over
//! JSON-RPC front-ends.
//!
//! The library holds the container core: the configuration validator (with
//! the bridge-acyclicity check and deterministic topological ordering), the
//! instance lifecycle manager, the per-instance context builder, the RPC
//! dispatch fabric, and the decision logic of the networking sidecar
//! supervisor and the entry-retrieval workflows. Transports, process
//! spawning and file reading live outside the library and hand it plain
//! values.

pub mod config;
pub mod container;
pub mod context;
pub mod dna;
pub mod error;
pub mod instance;
pub mod rpc;
pub mod strutil;
pub mod topo;
pub mod workflow;
