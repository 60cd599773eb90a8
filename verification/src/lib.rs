//! The rules of a replicated SQLite service.
//!
//! SQLite writes through a virtual file system ([`vfs`]). What it writes is committed
//! as a batch of file operations through a Raft group, and applied on every node to the
//! pages of the file in a key-value store ([`page_batch`]). The modules of this crate
//! decide what is stored, sent, refused and locked; the stores and the network are
//! reached by the caller, who hands in what was read and carries out what is handed
//! back.

use vstd::prelude::*;

pub mod apply;
pub mod apply_law;
pub mod authorizer;
pub mod bytes;
pub mod checkpoint;
pub mod checkpoint_law;
pub mod client_law;
pub mod codec;
pub mod commit;
pub mod count_law;
pub mod delta_law;
pub mod dirty_page;
pub mod file_lock;
pub mod file_model;
pub mod file_store;
pub mod hlc;
pub mod holders;
pub mod large_payload;
pub mod lock_law;
pub mod log_law;
pub mod log_store;
pub mod manifest;
pub mod message_law;
pub mod node_map;
pub mod ordered;
pub mod page_batch;
pub mod page_keys;
pub mod page_law;
pub mod page_purge;
pub mod page_read;
pub mod page_record_law;
pub mod page_snapshot;
pub mod page_snapshot_law;
pub mod page_sync;
pub mod page_sync_law;
pub mod pending;
pub mod raft_client;
pub mod raft_metrics;
pub mod raft_snapshot;
pub mod raft_snapshot_law;
pub mod read_cache;
pub mod request;
pub mod runtime;
pub mod runtime_law;
pub mod shm;
pub mod snapshot_send;
pub mod snapshot_stream;
pub mod snapshot_stream_law;
pub mod staging;
pub mod staging_law;
pub mod state;
pub mod state_law;
pub mod storage_law;
pub mod text;
pub mod transport;
pub mod types;
pub mod upload;
pub mod upload_law;
pub mod upload_plan_law;
pub mod upload_step;
pub mod vfs;
pub mod vfs_law;
pub mod vfs_model;
pub mod vfs_shared;
pub mod vfs_state;
pub mod vfs_types;

verus! {

} // verus!
