//! Client-side service discovery and self-registration.
//!
//! Nodes announce themselves to a central lookup service, keep a local
//! registry of the other live nodes grouped by node type, and pick a
//! destination for outbound calls by uid pinning or per-type round robin.

pub mod app_status;
pub mod config;

pub mod node_types;
pub mod order;
pub mod reconcile;
pub mod redis_api;
pub mod registry;
pub mod rr_pool;

pub mod session;
pub mod trigger;
