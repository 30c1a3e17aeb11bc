//! Verified core of a control plane for the aria2 download daemon: the
//! JSON-RPC correlator and token injector, the connection state machine,
//! the history projector and the per-user history table.

pub mod text;
pub mod json;
pub mod rpc;
pub mod worker;
pub mod model;
pub mod extract;
pub mod store;
pub mod projector;
pub mod proxy;
pub mod auth;
pub mod status;
