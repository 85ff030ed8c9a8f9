//! A floorplan graph model and topology compiler.
//!
//! A cluster-like resource inventory (namespaces, resource kinds, resources,
//! nested containers and mount points) is compiled into a navigable directed
//! graph of rooms connected by paired doors.  The graph store, the resource
//! extractors and the compiler live here; rendering and I/O stay outside.

pub mod compiler;
pub mod floorplan;
pub mod graph_store;
pub mod cli;
pub mod integration;
pub mod jsonval;
pub mod k8s_api;
pub mod k8s_json;
pub mod test_mode;
pub mod text;
pub mod world;
