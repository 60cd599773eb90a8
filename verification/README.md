# Orion

Orion replicates SQLite databases. SQLite runs unmodified on a virtual file system
whose writes are collected until SQLite syncs a file. The collected operations then
go through a Raft group as one batch, and every node applies the batch to the pages of
the file in its own store.

The library in `src/` holds the rules of this: what is written where, what is
refused, who may lock what, what a snapshot contains. Each function states in its
contract what it returns or changes, and Verus proves it. The library does no input or
output; a function that needs stored records or a reply takes them as arguments, and
hands back the records to write or the step to take.

## Layout of the library

- `bytes`, `text`, `ordered`, `node_map`, `holders`: byte strings, texts and the small
  ordered collections that the rest is built on.
- `codec`: numbers in their stored form.
- `hlc`: the hybrid clock that stamps every commit.
- `commit`, `types`, `request`: batches of file operations, and the requests that
  carry them through a group.
- `dirty_page`, `page_keys`, `manifest`, `file_model`, `page_batch`, `page_read`,
  `read_cache`, `page_law`: a file as pages in a key-value store, and how operations,
  reads, truncations and deletions act on it.
- `page_sync`, `page_snapshot`, `page_purge`, `page_sync_law`, `page_snapshot_law`:
  moving a database between stores, and purging one.
- `large_payload`, `upload`, `upload_law`, `staging`, `staging_law`, `upload_step`:
  requests that are too large for one entry of the log.
- `apply`, `log_store`, `log_law`, `raft_snapshot`, `state`, `checkpoint`: the log, the
  state machine and its snapshots.
- `transport`, `snapshot_stream`, `snapshot_send`, `snapshot_stream_law`,
  `raft_client`, `raft_metrics`: what nodes and clients send each other.
- `vfs_types`, `file_lock`, `shm`, `pending`, `file_store`, `vfs_state`, `vfs_shared`,
  `vfs_model`, `vfs`, `vfs_law`: the virtual file system.
- `authorizer`, `runtime`: what SQL may do, and the rules of the system database.

Functions named `law_...` are proofs about several functions at once: that an upload
commits what was uploaded, that an acknowledged sync was committed, that a sent
snapshot arrives.

The page records of a file lie under
`sqlite/pages/<database>/<path>/`: `size`, `current/<page>`, `manifests/<version>` and
`latest_manifest`.

`tests/` runs the library on concrete values. `app/` is the service around it:
SlateDB, Fjall, OpenRaft, gRPC and SQLite. The one gRPC message is written by hand in
`app/raft_proto.rs`, over `prost`, so that no code has to be generated when the service is
built.
