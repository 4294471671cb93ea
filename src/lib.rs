//! Client-side core of a container log-tailing agent: canonical container
//! identifiers, reconciliation of the running-container set against the
//! runtime's snapshots, and the per-container log session state machine.

pub mod hex_text;
pub mod container_id;
pub mod reconcile;
pub mod snapshot;
pub mod session;

pub use reconcile::DockerSystem;
