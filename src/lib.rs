//! The particle processing core of a peer-to-peer execution node: particles are
//! grouped per (particle, peer) key, each key runs at most one interpreter
//! invocation at a time over a bounded pool of interpreter slots, and the results
//! of each run become prev-data, sends to other peers and host calls.

pub mod particle;
pub mod plumber;
pub mod vm_pool;
pub mod data_store;
pub mod effects;
pub mod registry;
pub mod stats;
pub mod dispatcher;
pub mod dir_config;
pub mod events;
pub mod layout;
