//! The logic of a raft-store proxy.
//!
//! The proxy takes part in raft groups on behalf of an engine store. It forwards what raft
//! executes and the snapshots that raft applies, decides when a region's state is made
//! durable, keeps raft logs in a page storage, and adds peers the fast way by copying a
//! region from another store. An engine store that lives in memory stands beside it.

pub mod admin_laws;
pub mod bootstrap;
pub mod bytes;
pub mod bytes_map;
pub mod cached_region;
pub mod cluster;
pub mod cluster_laws;
pub mod command;
pub mod demand_laws;
pub mod encryption;
pub mod engine_store;
pub mod engine_store_laws;
pub mod fast_add_peer;
pub mod ffi;
pub mod ffi_snapshot;
pub mod file_laws;
pub mod forward_laws;
pub mod forwarder;
pub mod hash;
pub mod keys;
pub mod log_laws;
pub mod message_laws;
pub mod messages;
pub mod observer;
pub mod page_storage;
pub mod peer_laws;
pub mod ps_engine;
pub mod ps_engine_laws;
pub mod raft_entry;
pub mod region;
pub mod resource;
pub mod restart_laws;
pub mod router;
pub mod server_helper;
pub mod serverless;
pub mod simple_laws;
pub mod simple_store;
pub mod snapshot;
pub mod snapshot_laws;
pub mod sst_reader;
pub mod store_laws;
pub mod write_batch;
