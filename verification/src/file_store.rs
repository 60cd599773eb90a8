//! Where the bytes of database files are kept.

use vstd::prelude::*;

use crate::commit::SyncBatchModel;
use crate::commit::VfsSyncBatch;

verus! {

/// A call of a file store together with its reply. A failed call has no reply.
#[verifier::ext_equal]
pub enum StoreCall {
    Exists { path: Seq<char>, reply: Option<bool> },
    Delete { path: Seq<char>, done: bool },
    FileSize { path: Seq<char>, reply: Option<usize> },
    Truncate { path: Seq<char>, size: usize, done: bool },
    ReadAt { path: Seq<char>, offset: u64, len: usize, reply: Option<Seq<u8>> },
    ApplyBatch { batch: SyncBatchModel, done: bool },
    Sync { path: Seq<char>, done: bool },
}

/// What a store said to whether a file exists.
pub open spec fn said_exists(call: StoreCall) -> Option<bool> {
    match call {
        StoreCall::Exists { reply, .. } => reply,
        _ => None,
    }
}

/// What a store said to how large a file is.
pub open spec fn said_size(call: StoreCall) -> Option<usize> {
    match call {
        StoreCall::FileSize { reply, .. } => reply,
        _ => None,
    }
}

/// What a store said to what a file holds.
pub open spec fn said_bytes(call: StoreCall) -> Option<Seq<u8>> {
    match call {
        StoreCall::ReadAt { reply, .. } => reply,
        _ => None,
    }
}

/// Whether a store did what it was asked for.
pub open spec fn said_done(call: StoreCall) -> bool {
    match call {
        StoreCall::Delete { done, .. } => done,
        StoreCall::Truncate { done, .. } => done,
        StoreCall::ApplyBatch { done, .. } => done,
        StoreCall::Sync { done, .. } => done,
        _ => false,
    }
}

/// The reply of a call that may have failed.
pub open spec fn reply_of<T>(result: Result<T, String>) -> Option<T> {
    match result {
        Ok(value) => Some(value),
        Err(_) => None,
    }
}

/// The bytes that a call read, if it did not fail.
pub open spec fn bytes_reply(result: Result<Vec<u8>, String>) -> Option<Seq<u8>> {
    match result {
        Ok(bytes) => Some(bytes@),
        Err(_) => None,
    }
}

/// Keeps the bytes of files.
pub trait SqliteFileStore: Sized {
    /// The calls of the store so far, each with its reply. A store of which nothing is
    /// proved need not say what they are.
    open spec fn calls(&self) -> Seq<StoreCall> {
        arbitrary()
    }

    /// Whether a file is there.
    fn file_exists(&mut self, path: &str) -> (reply: Result<bool, String>)
        ensures
            final(self).calls() == old(self).calls().push(
                StoreCall::Exists { path: path@, reply: reply_of(reply) },
            ),
    ;

    /// Removes a file; to remove one that is not there is no failure.
    fn delete(&mut self, path: &str) -> (reply: Result<(), String>)
        ensures
            final(self).calls() == old(self).calls().push(
                StoreCall::Delete { path: path@, done: reply is Ok },
            ),
    ;

    /// The size of a file; one that is not there has none.
    fn file_size(&mut self, path: &str) -> (reply: Result<usize, String>)
        ensures
            final(self).calls() == old(self).calls().push(
                StoreCall::FileSize { path: path@, reply: reply_of(reply) },
            ),
    ;

    /// Sets the size of a file, and makes it where it is not there.
    fn truncate(&mut self, path: &str, size: usize) -> (reply: Result<(), String>)
        ensures
            final(self).calls() == old(self).calls().push(
                StoreCall::Truncate { path: path@, size, done: reply is Ok },
            ),
    ;

    /// The bytes of a file at an offset, at most `len` of them.
    fn read_at(&mut self, path: &str, offset: u64, len: usize) -> (reply: Result<Vec<u8>, String>)
        ensures
            final(self).calls() == old(self).calls().push(
                StoreCall::ReadAt { path: path@, offset, len, reply: bytes_reply(reply) },
            ),
    ;

    /// Applies the operations of a batch to its file.
    fn apply_batch(&mut self, batch: &VfsSyncBatch) -> (reply: Result<(), String>)
        ensures
            final(self).calls() == old(self).calls().push(
                StoreCall::ApplyBatch { batch: batch@, done: reply is Ok },
            ),
    ;

    /// Makes a file durable.
    fn sync(&mut self, path: &str) -> (reply: Result<(), String>)
        ensures
            final(self).calls() == old(self).calls().push(
                StoreCall::Sync { path: path@, done: reply is Ok },
            ),
    ;
}

} // verus!
