//! The records of uploads that are staged, and how a commit puts an upload together.

use vstd::prelude::*;
use vstd::slice::*;
use vstd::string::*;

use crate::bytes;
use crate::bytes::append_bytes;
use crate::bytes::append_decimal20;
use crate::bytes::copy_bytes;
use crate::bytes::ends_with;
use crate::bytes::starts_with;
use crate::commit;
use crate::commit::VfsFileOp;
use crate::file_model::FileOp;
use crate::large_payload;
use crate::large_payload::large_payload_label;
use crate::large_payload::LargePayloadError;
use crate::large_payload::LargePayloadErrorKind;
use crate::large_payload::LargePayloadKind;
use crate::ordered::SqliteDatabasePageSyncEntry;
use crate::page_batch;
use crate::page_batch::append_delete;
use crate::page_batch::append_put;
use crate::page_batch::StoreWrite;
use crate::page_batch::WriteModel;
use crate::page_sync::SqliteDatabasePageSyncDelta;
use crate::request::LargeSqliteBatchManifest;
use crate::request::LargeSqlitePageDeltaManifest;
use crate::text;
use crate::text::append_number;
use crate::types;
use crate::types::convert_sqlite_ops;
use crate::types::sqlite_ops_payload_bytes;
use crate::types::SqliteVfsOp;

verus! {

broadcast use {group_string_axioms, group_slice_axioms};

/// The prefix of every staged record of a kind of payload.
pub open spec fn area_of(kind: LargePayloadKind) -> Seq<u8> {
    match kind {
        LargePayloadKind::SqliteBatch => bytes::text("openraft/large_sqlite_batch/"),
        LargePayloadKind::SqlitePageDelta => bytes::text("openraft/large_sqlite_page_delta/"),
    }
}

/// The prefix of every record of an upload.
pub open spec fn upload_prefix_of(kind: LargePayloadKind, upload_id: Seq<u8>) -> Seq<u8> {
    area_of(kind) + upload_id + bytes::text("/")
}

/// The record of what an upload announces.
pub open spec fn manifest_key_of(kind: LargePayloadKind, upload_id: Seq<u8>) -> Seq<u8> {
    upload_prefix_of(kind, upload_id) + bytes::text("manifest")
}

/// The record of one chunk of an upload.
pub open spec fn chunk_key_of(kind: LargePayloadKind, upload_id: Seq<u8>, chunk_index: u32) -> Seq<
    u8,
> {
    upload_prefix_of(kind, upload_id) + bytes::text("chunk/") + bytes::decimal20(chunk_index as u64)
}

/// The prefix of every staged record of a kind of payload.
pub fn large_payload_area(kind: LargePayloadKind) -> (prefix: Vec<u8>)
    ensures
        prefix@ == area_of(kind),
{
    match kind {
        LargePayloadKind::SqliteBatch => copy_bytes("openraft/large_sqlite_batch/".as_bytes()),
        LargePayloadKind::SqlitePageDelta => copy_bytes(
            "openraft/large_sqlite_page_delta/".as_bytes(),
        ),
    }
}

/// The prefix of every record of an upload.
pub fn large_payload_prefix(kind: LargePayloadKind, upload_id: &str) -> (prefix: Vec<u8>)
    ensures
        prefix@ == upload_prefix_of(kind, bytes::text(upload_id)),
{
    let mut prefix = large_payload_area(kind);
    append_bytes(&mut prefix, upload_id.as_bytes());
    append_bytes(&mut prefix, "/".as_bytes());
    prefix
}

/// The record of what an upload announces.
pub fn large_payload_manifest_key(kind: LargePayloadKind, upload_id: &str) -> (key: Vec<u8>)
    ensures
        key@ == manifest_key_of(kind, bytes::text(upload_id)),
{
    let mut key = large_payload_prefix(kind, upload_id);
    append_bytes(&mut key, "manifest".as_bytes());
    key
}

/// The record of one chunk of an upload.
pub fn large_payload_chunk_key(kind: LargePayloadKind, upload_id: &str, chunk_index: u32) -> (key:
    Vec<u8>)
    ensures
        key@ == chunk_key_of(kind, bytes::text(upload_id), chunk_index),
{
    let mut key = large_payload_prefix(kind, upload_id);
    append_bytes(&mut key, "chunk/".as_bytes());
    append_decimal20(&mut key, chunk_index as u64);
    key
}

/// Whether a staged record says what an upload announces.
pub fn large_payload_is_manifest_key(key: &[u8]) -> (is_manifest: bool)
    ensures
        is_manifest == bytes::has_suffix(key@, bytes::text("/manifest")),
{
    ends_with(key, "/manifest".as_bytes())
}

/// The removals of those keys that lie under a prefix.
pub open spec fn drop_writes(keys: Seq<Vec<u8>>, prefix: Seq<u8>) -> Seq<WriteModel>
    decreases keys.len(),
{
    if keys.len() == 0 {
        Seq::empty()
    } else if bytes::has_prefix(keys.last()@, prefix) {
        drop_writes(keys.drop_last(), prefix).push(WriteModel { key: keys.last()@, value: None })
    } else {
        drop_writes(keys.drop_last(), prefix)
    }
}

/// Drops every record of an upload, given the stored keys under its prefix.
pub fn drop_large_payload(kind: LargePayloadKind, upload_id: &str, stored_keys: &Vec<Vec<u8>>) -> (writes:
    Vec<StoreWrite>)
    ensures
        page_batch::write_models(writes@) == drop_writes(
            stored_keys@,
            upload_prefix_of(kind, bytes::text(upload_id)),
        ),
{
    let prefix = large_payload_prefix(kind, upload_id);
    let mut writes: Vec<StoreWrite> = Vec::new();
    let mut i: usize = 0;
    assert(page_batch::write_models(writes@) =~= drop_writes(stored_keys@.take(0), prefix@));
    while i < stored_keys.len()
        invariant
            i <= stored_keys.len(),
            page_batch::write_models(writes@) == drop_writes(stored_keys@.take(i as int), prefix@),
        decreases stored_keys.len() - i,
    {
        assert(stored_keys@.take(i + 1).drop_last() =~= stored_keys@.take(i as int));
        if starts_with(stored_keys[i].as_slice(), prefix.as_slice()) {
            append_delete(&mut writes, copy_bytes(stored_keys[i].as_slice()));
        }
        i = i + 1;
    }
    assert(stored_keys@.take(stored_keys@.len() as int) =~= stored_keys@);
    writes
}

/// Stages what an upload announces, in place of whatever an earlier upload of that
/// name left behind.
pub fn stage_manifest(
    kind: LargePayloadKind,
    upload_id: &str,
    manifest: Vec<u8>,
    stored_keys: &Vec<Vec<u8>>,
) -> (writes: Vec<StoreWrite>)
    ensures
        page_batch::write_models(writes@) == drop_writes(
            stored_keys@,
            upload_prefix_of(kind, bytes::text(upload_id)),
        ).push(
            WriteModel {
                key: manifest_key_of(kind, bytes::text(upload_id)),
                value: Some(manifest@),
            },
        ),
{
    let mut writes = drop_large_payload(kind, upload_id, stored_keys);
    append_put(&mut writes, large_payload_manifest_key(kind, upload_id), manifest);
    writes
}

/// The message for an upload that was not announced.
pub open spec fn missing_manifest_message(label: Seq<char>, upload_id: Seq<char>) -> Seq<char> {
    "missing "@ + label + " manifest "@ + upload_id
}

fn missing_manifest_error(label: &str, upload_id: &str) -> (error: LargePayloadError)
    ensures
        error@ == (
            LargePayloadErrorKind::NotFound,
            missing_manifest_message(label@, upload_id@),
        ),
{
    let mut message: String = "missing ".to_owned();
    message.append(label);
    message.append(" manifest ");
    message.append(upload_id);
    LargePayloadError { kind: LargePayloadErrorKind::NotFound, message }
}

/// Stages a chunk of an upload, provided that the upload was announced.
pub fn stage_chunk(
    kind: LargePayloadKind,
    upload_id: &str,
    chunk_index: u32,
    announced: bool,
    chunk: Vec<u8>,
) -> (write: Result<StoreWrite, LargePayloadError>)
    ensures
        announced ==> (write matches Ok(put) && put@ == (WriteModel {
            key: chunk_key_of(kind, bytes::text(upload_id), chunk_index),
            value: Some(chunk@),
        })),
        !announced ==> (write matches Err(error) && error@ == (
            LargePayloadErrorKind::NotFound,
            missing_manifest_message(large_payload::label_of(kind), upload_id@),
        )),
{
    if announced {
        Ok(
            StoreWrite::Put {
                key: large_payload_chunk_key(kind, upload_id, chunk_index),
                value: chunk,
            },
        )
    } else {
        Err(missing_manifest_error(large_payload_label(kind), upload_id))
    }
}

/// The message for a chunk that is not staged.
pub open spec fn missing_chunk_message(
    label: Seq<char>,
    upload_id: Seq<char>,
    chunk_index: nat,
) -> Seq<char> {
    "missing "@ + label + " chunk "@ + upload_id + "/"@ + text::number_text(chunk_index)
}

/// The message for chunks that do not hold what was announced.
pub open spec fn mismatch_message(
    label: Seq<char>,
    upload_id: Seq<char>,
    expected: u64,
    got: u64,
) -> Seq<char> {
    label + " "@ + upload_id + " byte count mismatch: expected "@ + text::number_text(
        expected as nat,
    ) + ", got "@ + text::number_text(got as nat)
}

/// The message for an upload that announces no chunks, with its kind.
pub open spec fn no_chunks_refusal(kind: LargePayloadKind, upload_id: Seq<char>) -> (
    LargePayloadErrorKind,
    Seq<char>,
) {
    (
        LargePayloadErrorKind::InvalidData,
        large_payload::no_chunks_message(large_payload::label_of(kind), upload_id),
    )
}

/// Walks through the chunks of an upload that is to be committed.
#[derive(Debug, Clone, Copy, PartialEq, Eq, Structural)]
pub struct LargePayloadCommit {
    pub kind: LargePayloadKind,
    pub total_chunks: u32,
    pub total_bytes: u64,
    pub next_chunk: u32,
    pub bytes_seen: u64,
}

/// How a missing chunk is reported. The operations of a batch are read while they are
/// applied, so that what goes wrong there is a failure to apply them.
pub open spec fn missing_chunk_kind(kind: LargePayloadKind) -> LargePayloadErrorKind {
    match kind {
        LargePayloadKind::SqliteBatch => LargePayloadErrorKind::Other,
        LargePayloadKind::SqlitePageDelta => LargePayloadErrorKind::NotFound,
    }
}

/// How chunks that hold another number of bytes than was announced are reported.
pub open spec fn mismatch_kind(kind: LargePayloadKind) -> LargePayloadErrorKind {
    match kind {
        LargePayloadKind::SqliteBatch => LargePayloadErrorKind::Other,
        LargePayloadKind::SqlitePageDelta => LargePayloadErrorKind::InvalidData,
    }
}

impl LargePayloadCommit {
    /// Starts with what the upload announced: its number of chunks and of bytes.
    pub fn open(kind: LargePayloadKind, upload_id: &str, announced: Option<(u32, u64)>) -> (opened:
        Result<LargePayloadCommit, LargePayloadError>)
        ensures
            match announced {
                None => opened matches Err(error) && error@ == (
                    LargePayloadErrorKind::NotFound,
                    missing_manifest_message(large_payload::label_of(kind), upload_id@),
                ),
                Some((total_chunks, total_bytes)) => if total_chunks == 0 {
                    opened matches Err(error) && error@ == no_chunks_refusal(kind, upload_id@)
                } else {
                    opened == Ok::<LargePayloadCommit, LargePayloadError>(
                        LargePayloadCommit {
                            kind,
                            total_chunks,
                            total_bytes,
                            next_chunk: 0,
                            bytes_seen: 0,
                        },
                    )
                },
            },
    {
        match announced {
            None => Err(missing_manifest_error(large_payload_label(kind), upload_id)),
            Some((total_chunks, total_bytes)) => {
                if total_chunks == 0 {
                    let mut message: String = large_payload_label(kind).to_owned();
                    message.append(" ");
                    message.append(upload_id);
                    message.append(" has no chunks");
                    return Err(
                        LargePayloadError { kind: LargePayloadErrorKind::InvalidData, message },
                    );
                }
                Ok(
                    LargePayloadCommit {
                        kind,
                        total_chunks,
                        total_bytes,
                        next_chunk: 0,
                        bytes_seen: 0,
                    },
                )
            },
        }
    }

    /// The chunk that has to be read next.
    pub fn wanted(&self) -> (chunk_index: Option<u32>)
        ensures
            chunk_index == if self.next_chunk < self.total_chunks {
                Some(self.next_chunk)
            } else {
                None
            },
    {
        if self.next_chunk < self.total_chunks {
            Some(self.next_chunk)
        } else {
            None
        }
    }

    /// Takes in the chunk that was wanted: the bytes that it carries, or that it is
    /// not there.
    pub fn accept(&mut self, upload_id: &str, payload: Option<u64>) -> (accepted: Result<
        (),
        LargePayloadError,
    >)
        requires
            old(self).next_chunk < old(self).total_chunks,
        ensures
            match payload {
                None => *final(self) == *old(self) && (accepted matches Err(error) && error@ == (
                    missing_chunk_kind(old(self).kind),
                    missing_chunk_message(
                        large_payload::label_of(old(self).kind),
                        upload_id@,
                        old(self).next_chunk as nat,
                    ),
                )),
                Some(bytes) => accepted is Ok && *final(self) == (LargePayloadCommit {
                    next_chunk: (old(self).next_chunk + 1) as u32,
                    bytes_seen: large_payload::as_far_as_u64(
                        old(self).bytes_seen as nat + bytes as nat,
                    ),
                    ..*old(self)
                }),
            },
    {
        match payload {
            None => {
                let mut message: String = "missing ".to_owned();
                message.append(large_payload_label(self.kind));
                message.append(" chunk ");
                message.append(upload_id);
                message.append("/");
                append_number(&mut message, self.next_chunk as u64);
                let kind = match self.kind {
                    LargePayloadKind::SqliteBatch => LargePayloadErrorKind::Other,
                    LargePayloadKind::SqlitePageDelta => LargePayloadErrorKind::NotFound,
                };
                Err(LargePayloadError { kind, message })
            },
            Some(bytes) => {
                self.next_chunk = self.next_chunk + 1;
                self.bytes_seen = self.bytes_seen.saturating_add(bytes);
                Ok(())
            },
        }
    }

    /// Ends the walk: the chunks must hold what was announced.
    pub fn close(&self, upload_id: &str) -> (closed: Result<(), LargePayloadError>)
        ensures
            self.bytes_seen == self.total_bytes ==> closed is Ok,
            self.bytes_seen != self.total_bytes ==> (closed matches Err(error) && error@ == (
                mismatch_kind(self.kind),
                mismatch_message(
                    large_payload::label_of(self.kind),
                    upload_id@,
                    self.total_bytes,
                    self.bytes_seen,
                ),
            )),
    {
        if self.bytes_seen == self.total_bytes {
            return Ok(());
        }
        let mut message: String = large_payload_label(self.kind).to_owned();
        message.append(" ");
        message.append(upload_id);
        message.append(" byte count mismatch: expected ");
        append_number(&mut message, self.total_bytes);
        message.append(", got ");
        append_number(&mut message, self.bytes_seen);
        let kind = match self.kind {
            LargePayloadKind::SqliteBatch => LargePayloadErrorKind::Other,
            LargePayloadKind::SqlitePageDelta => LargePayloadErrorKind::InvalidData,
        };
        Err(LargePayloadError { kind, message })
    }
}

/// The first chunk that is not there.
pub open spec fn first_missing(payloads: Seq<Option<nat>>) -> Option<nat>
    decreases payloads.len(),
{
    if payloads.len() == 0 {
        None
    } else if first_missing(payloads.drop_last()) is Some {
        first_missing(payloads.drop_last())
    } else if payloads.last() is None {
        Some((payloads.len() - 1) as nat)
    } else {
        None
    }
}

/// No chunk is missing if all are there.
pub proof fn lemma_none_missing(payloads: Seq<Option<nat>>)
    ensures
        first_missing(payloads) is None <==> forall|i: int|
            0 <= i < payloads.len() ==> (#[trigger] payloads[i]) is Some,
    decreases payloads.len(),
{
    if payloads.len() > 0 {
        let front = payloads.drop_last();
        lemma_none_missing(front);
        if forall|i: int| 0 <= i < payloads.len() ==> (#[trigger] payloads[i]) is Some {
            assert forall|i: int| 0 <= i < front.len() implies (#[trigger] front[i]) is Some by {
                assert(payloads[i] is Some);
            }
            assert(payloads[payloads.len() - 1] is Some);
        }
        if first_missing(payloads) is None {
            assert forall|i: int| 0 <= i < payloads.len() implies (#[trigger] payloads[i]) is Some by {
                if i < front.len() {
                    assert(front[i] is Some);
                }
            }
        }
    }
}

/// The bytes that the chunks carry together.
pub open spec fn payload_sum(payloads: Seq<Option<nat>>) -> nat
    decreases payloads.len(),
{
    if payloads.len() == 0 {
        0
    } else {
        payload_sum(payloads.drop_last()) + match payloads.last() {
            Some(bytes) => bytes,
            None => 0,
        }
    }
}

/// Why an upload cannot be committed, if it cannot: it was not announced, it
/// announced no chunks, a chunk is missing, or the chunks do not hold as many bytes
/// as were announced.
pub open spec fn commit_refusal(
    kind: LargePayloadKind,
    upload_id: Seq<char>,
    announced: Option<(u32, u64)>,
    payloads: Seq<Option<nat>>,
) -> Option<(LargePayloadErrorKind, Seq<char>)> {
    let label = large_payload::label_of(kind);
    match announced {
        None => Some(
            (LargePayloadErrorKind::NotFound, missing_manifest_message(label, upload_id)),
        ),
        Some((total_chunks, total_bytes)) => if total_chunks == 0 {
            Some(no_chunks_refusal(kind, upload_id))
        } else if first_missing(payloads) is Some {
            Some(
                (
                    missing_chunk_kind(kind),
                    missing_chunk_message(label, upload_id, first_missing(payloads)->0),
                ),
            )
        } else {
            let seen = large_payload::as_far_as_u64(payload_sum(payloads));
            if seen != total_bytes {
                Some(
                    (
                        mismatch_kind(kind),
                        mismatch_message(label, upload_id, total_bytes, seen),
                    ),
                )
            } else {
                None
            }
        },
    }
}

proof fn lemma_missing_stays(payloads: Seq<Option<nat>>, upto: int)
    requires
        0 <= upto <= payloads.len(),
        first_missing(payloads.take(upto)) is Some,
    ensures
        first_missing(payloads) == first_missing(payloads.take(upto)),
    decreases payloads.len(),
{
    if upto == payloads.len() {
        assert(payloads.take(upto) =~= payloads);
    } else {
        assert(payloads.drop_last().take(upto) =~= payloads.take(upto));
        lemma_missing_stays(payloads.drop_last(), upto);
    }
}

/// The payloads of chunks of operations.
pub open spec fn op_payloads(chunks: Seq<Option<Vec<SqliteVfsOp>>>) -> Seq<Option<nat>> {
    Seq::new(
        chunks.len(),
        |i: int|
            match chunks[i] {
                Some(ops) => Some(types::ops_payload(types::logged_ops(ops@))),
                None => None,
            },
    )
}

/// The operations of chunks, one after the other.
pub open spec fn joined_ops(chunks: Seq<Option<Vec<SqliteVfsOp>>>) -> Seq<FileOp>
    decreases chunks.len(),
{
    if chunks.len() == 0 {
        Seq::empty()
    } else {
        joined_ops(chunks.drop_last()) + match chunks.last() {
            Some(ops) => types::logged_ops(ops@),
            None => Seq::empty(),
        }
    }
}

/// What a manifest of a batch announces.
pub open spec fn batch_announces(manifest: Option<LargeSqliteBatchManifest>) -> Option<(u32, u64)> {
    match manifest {
        Some(announced) => Some((announced.total_chunks, announced.total_bytes)),
        None => None,
    }
}

/// Puts a batch together from the chunks that were found, in the order of their
/// numbers.
pub fn assemble_large_sqlite_batch(
    upload_id: &str,
    manifest: &Option<LargeSqliteBatchManifest>,
    chunks: &Vec<Option<Vec<SqliteVfsOp>>>,
) -> (assembled: Result<Vec<VfsFileOp>, LargePayloadError>)
    requires
        manifest matches Some(announced) ==> chunks.len() == announced.total_chunks,
        forall|i: int|
            0 <= i < chunks@.len() ==> (#[trigger] op_payloads(chunks@)[i] matches Some(payload)
                ==> payload <= usize::MAX),
    ensures
        match commit_refusal(
            LargePayloadKind::SqliteBatch,
            upload_id@,
            batch_announces(*manifest),
            op_payloads(chunks@),
        ) {
            Some(refusal) => assembled matches Err(error) && error@ == refusal,
            None => assembled matches Ok(ops) && commit::op_models(ops@) == joined_ops(chunks@),
        },
{
    let announced: Option<(u32, u64)> = match manifest {
        Some(found) => Some((found.total_chunks, found.total_bytes)),
        None => None,
    };
    let mut walk = match LargePayloadCommit::open(
        LargePayloadKind::SqliteBatch,
        upload_id,
        announced,
    ) {
        Ok(walk) => walk,
        Err(error) => return Err(error),
    };
    let mut ops: Vec<VfsFileOp> = Vec::new();
    let ghost payloads = op_payloads(chunks@);
    let mut i: usize = 0;
    assert(commit::op_models(ops@) =~= joined_ops(chunks@.take(0)));
    while i < chunks.len()
        invariant
            i <= chunks.len(),
            payloads == op_payloads(chunks@),
            walk.kind == LargePayloadKind::SqliteBatch,
            walk.total_chunks == chunks.len(),
            walk.next_chunk == i,
            announced == batch_announces(*manifest),
            announced == Some((walk.total_chunks, walk.total_bytes)),
            walk.total_chunks != 0,
            first_missing(payloads.take(i as int)) is None,
            walk.bytes_seen == large_payload::as_far_as_u64(payload_sum(payloads.take(i as int))),
            commit::op_models(ops@) == joined_ops(chunks@.take(i as int)),
            forall|k: int|
                0 <= k < chunks@.len() ==> (#[trigger] op_payloads(chunks@)[k] matches Some(payload)
                    ==> payload <= usize::MAX),
        decreases chunks.len() - i,
    {
        assert(payloads.take(i + 1).drop_last() =~= payloads.take(i as int));
        assert(chunks@.take(i + 1).drop_last() =~= chunks@.take(i as int));
        let payload: Option<u64> = match &chunks[i] {
            Some(chunk) => {
                assert(op_payloads(chunks@)[i as int] is Some);
                Some(sqlite_ops_payload_bytes(chunk) as u64)
            },
            None => None,
        };
        if let Err(error) = walk.accept(upload_id, payload) {
            proof {
                assert(payloads.take(i + 1).last() is None);
                lemma_missing_stays(payloads, i + 1);
            }
            return Err(error);
        }
        if let Some(chunk) = &chunks[i] {
            let ghost before = ops@;
            let mut converted = convert_sqlite_ops(chunk);
            let ghost added = converted@;
            ops.append(&mut converted);
            assert(commit::op_models(ops@) =~= commit::op_models(before) + commit::op_models(
                added,
            ));
        }
        i = i + 1;
    }
    assert(payloads.take(payloads.len() as int) =~= payloads);
    assert(chunks@.take(chunks@.len() as int) =~= chunks@);
    match walk.close(upload_id) {
        Ok(()) => Ok(ops),
        Err(error) => Err(error),
    }
}

/// The bytes that records carry.
pub open spec fn entries_payload(entries: Seq<SqliteDatabasePageSyncEntry>) -> nat
    decreases entries.len(),
{
    if entries.len() == 0 {
        0
    } else {
        entries_payload(entries.drop_last()) + entries.last().key@.len()
            + entries.last().value@.len()
    }
}

/// A part of the records carries no more than the whole.
pub proof fn lemma_entries_part(entries: Seq<SqliteDatabasePageSyncEntry>, upto: int)
    requires
        0 <= upto <= entries.len(),
    ensures
        entries_payload(entries.take(upto)) <= entries_payload(entries),
    decreases entries.len(),
{
    if upto == entries.len() {
        assert(entries.take(upto) =~= entries);
    } else {
        lemma_entries_part(entries.drop_last(), upto);
        assert(entries.drop_last().take(upto) =~= entries.take(upto));
    }
}

/// Records carry together what their concatenation carries.
pub proof fn lemma_entries_of_both(
    left: Seq<SqliteDatabasePageSyncEntry>,
    right: Seq<SqliteDatabasePageSyncEntry>,
)
    ensures
        entries_payload(left + right) == entries_payload(left) + entries_payload(right),
    decreases right.len(),
{
    if right.len() == 0 {
        assert(left + right =~= left);
    } else {
        lemma_entries_of_both(left, right.drop_last());
        assert((left + right).drop_last() =~= left + right.drop_last());
    }
}

/// The bytes that records carry.
pub fn sqlite_page_delta_entries_payload_bytes(entries: &Vec<SqliteDatabasePageSyncEntry>) -> (payload:
    usize)
    requires
        entries_payload(entries@) <= usize::MAX,
    ensures
        payload == entries_payload(entries@),
{
    let mut payload: usize = 0;
    let mut i: usize = 0;
    while i < entries.len()
        invariant
            i <= entries.len(),
            entries_payload(entries@) <= usize::MAX,
            payload == entries_payload(entries@.take(i as int)),
        decreases entries.len() - i,
    {
        proof {
            lemma_entries_part(entries@, i + 1);
            assert(entries@.take(i + 1).drop_last() =~= entries@.take(i as int));
        }
        payload = payload + (entries[i].key.len() + entries[i].value.len());
        i = i + 1;
    }
    assert(entries@.take(entries@.len() as int) =~= entries@);
    payload
}

/// The payloads of chunks of records.
pub open spec fn entry_payloads(chunks: Seq<Option<Vec<SqliteDatabasePageSyncEntry>>>) -> Seq<
    Option<nat>,
> {
    Seq::new(
        chunks.len(),
        |i: int|
            match chunks[i] {
                Some(entries) => Some(entries_payload(entries@)),
                None => None,
            },
    )
}

/// The records of chunks, one after the other.
pub open spec fn joined_entries(chunks: Seq<Option<Vec<SqliteDatabasePageSyncEntry>>>) -> Seq<
    SqliteDatabasePageSyncEntry,
>
    decreases chunks.len(),
{
    if chunks.len() == 0 {
        Seq::empty()
    } else {
        joined_entries(chunks.drop_last()) + match chunks.last() {
            Some(entries) => entries@,
            None => Seq::empty(),
        }
    }
}

/// What a manifest of a delta announces.
pub open spec fn page_delta_announces(manifest: Option<LargeSqlitePageDeltaManifest>) -> Option<
    (u32, u64),
> {
    match manifest {
        Some(announced) => Some((announced.total_chunks, announced.total_bytes)),
        None => None,
    }
}

/// Whether a delta of pages is what an upload announced and what its chunks hold, one
/// after the other; or whether it is refused, and why.
pub open spec fn assembles_page_delta(
    upload_id: Seq<char>,
    manifest: Option<LargeSqlitePageDeltaManifest>,
    chunks: Seq<Option<Vec<SqliteDatabasePageSyncEntry>>>,
    assembled: Result<SqliteDatabasePageSyncDelta, LargePayloadError>,
) -> bool {
    match commit_refusal(
        LargePayloadKind::SqlitePageDelta,
        upload_id,
        page_delta_announces(manifest),
        entry_payloads(chunks),
    ) {
        Some(refusal) => assembled matches Err(error) && error@ == refusal,
        None => assembled matches Ok(delta) && manifest matches Some(announced)
            && delta.min_exclusive_version == announced.min_exclusive_version && delta.entries@
            == joined_entries(chunks) && delta.metadata_deletes == announced.metadata_deletes
            && delta.current_page_deletes == announced.current_page_deletes,
    }
}

/// Puts a delta of pages together from the chunks that were found, in the order of
/// their numbers.
pub fn assemble_large_sqlite_page_delta(
    upload_id: &str,
    manifest: Option<LargeSqlitePageDeltaManifest>,
    chunks: Vec<Option<Vec<SqliteDatabasePageSyncEntry>>>,
) -> (assembled: Result<SqliteDatabasePageSyncDelta, LargePayloadError>)
    requires
        manifest matches Some(announced) ==> chunks.len() == announced.total_chunks,
        forall|i: int|
            0 <= i < chunks@.len() ==> (#[trigger] entry_payloads(chunks@)[i] matches Some(payload)
                ==> payload <= usize::MAX),
    ensures
        assembles_page_delta(upload_id@, manifest, chunks@, assembled),
{
    let announced: Option<(u32, u64)> = match &manifest {
        Some(found) => Some((found.total_chunks, found.total_bytes)),
        None => None,
    };
    let mut walk = match LargePayloadCommit::open(
        LargePayloadKind::SqlitePageDelta,
        upload_id,
        announced,
    ) {
        Ok(walk) => walk,
        Err(error) => return Err(error),
    };
    let mut rest = chunks;
    let mut entries: Vec<SqliteDatabasePageSyncEntry> = Vec::new();
    let ghost all = chunks@;
    let ghost payloads = entry_payloads(all);
    let ghost mut taken: int = 0;
    assert(entries@ =~= joined_entries(all.take(0)));
    assert(rest@ =~= all.skip(0));
    while rest.len() > 0
        invariant
            0 <= taken <= all.len(),
            rest@ == all.skip(taken),
            payloads == entry_payloads(all),
            walk.kind == LargePayloadKind::SqlitePageDelta,
            walk.total_chunks == all.len(),
            walk.next_chunk == taken,
            announced == page_delta_announces(manifest),
            announced == Some((walk.total_chunks, walk.total_bytes)),
            walk.total_chunks != 0,
            first_missing(payloads.take(taken)) is None,
            walk.bytes_seen == large_payload::as_far_as_u64(payload_sum(payloads.take(taken))),
            entries@ == joined_entries(all.take(taken)),
            all == chunks@,
            forall|k: int|
                0 <= k < all.len() ==> (#[trigger] entry_payloads(all)[k] matches Some(payload)
                    ==> payload <= usize::MAX),
        decreases rest.len(),
    {
        assert(payloads.take(taken + 1).drop_last() =~= payloads.take(taken));
        assert(all.take(taken + 1).drop_last() =~= all.take(taken));
        let next = rest.remove(0);
        assert(next == all[taken]);
        assert(rest@ =~= all.skip(taken + 1));
        let payload: Option<u64> = match &next {
            Some(chunk) => {
                assert(entry_payloads(all)[taken] is Some);
                Some(sqlite_page_delta_entries_payload_bytes(chunk) as u64)
            },
            None => None,
        };
        if let Err(error) = walk.accept(upload_id, payload) {
            proof {
                assert(payloads.take(taken + 1).last() is None);
                lemma_missing_stays(payloads, taken + 1);
            }
            return Err(error);
        }
        if let Some(chunk) = next {
            let mut chunk_entries = chunk;
            entries.append(&mut chunk_entries);
        }
        proof {
            taken = taken + 1;
        }
    }
    assert(payloads.take(payloads.len() as int) =~= payloads);
    assert(all.take(all.len() as int) =~= all);
    match walk.close(upload_id) {
        Err(error) => Err(error),
        Ok(()) => match manifest {
            Some(found) => Ok(
                SqliteDatabasePageSyncDelta {
                    min_exclusive_version: found.min_exclusive_version,
                    entries,
                    metadata_deletes: found.metadata_deletes,
                    current_page_deletes: found.current_page_deletes,
                },
            ),
            None => Err(missing_manifest_error("large SQLite page delta", upload_id)),
        },
    }
}

} // verus!
