//! How a request that is too large for one log entry is cut into several.

use vstd::prelude::*;
use vstd::string::*;

use crate::bytes::copy_range;
use crate::file_model::FileOp;
use crate::hlc;
use crate::hlc::HybridClock;
use crate::ordered::SqliteDatabasePageSyncEntry;
use crate::page_sync::SqliteDatabasePageSyncDelta;
use crate::request::LargeSqliteBatchChunk;
use crate::request::LargeSqliteBatchManifest;
use crate::request::LargeSqliteBatchRequest;
use crate::request::LargeSqlitePageDeltaChunk;
use crate::request::LargeSqlitePageDeltaManifest;
use crate::request::LargeSqlitePageDeltaRequest;
use crate::request::OrionRaftRequest;
use crate::request::OrionRaftRequestMeta;
use crate::staging;
use crate::staging::sqlite_page_delta_entries_payload_bytes;
use crate::types;
use crate::types::copy_sqlite_op;
use crate::types::sqlite_op_payload_bytes;
use crate::types::SqliteVfsBatch;
use crate::types::SqliteVfsOp;
use crate::types::SqliteVfsWrite;

verus! {

/// The payload above which a request is cut, unless configured otherwise.
pub const DEFAULT_LARGE_BATCH_THRESHOLD_BYTES: usize = 512 * 1024;

/// The payload of a piece, unless configured otherwise.
pub const DEFAULT_LARGE_BATCH_CHUNK_BYTES: usize = 512 * 1024;

/// When a request is cut, and into what pieces.
#[derive(Debug, Clone, Copy, PartialEq, Eq, Structural)]
pub struct LargeBatchOptions {
    pub threshold_bytes: usize,
    pub chunk_bytes: usize,
}

impl Default for LargeBatchOptions {
    fn default() -> (options: LargeBatchOptions)
        ensures
            options.threshold_bytes == DEFAULT_LARGE_BATCH_THRESHOLD_BYTES,
            options.chunk_bytes == DEFAULT_LARGE_BATCH_CHUNK_BYTES,
    {
        LargeBatchOptions {
            threshold_bytes: DEFAULT_LARGE_BATCH_THRESHOLD_BYTES,
            chunk_bytes: DEFAULT_LARGE_BATCH_CHUNK_BYTES,
        }
    }
}

/// A number that is at least one.
pub open spec fn at_least_one(n: usize) -> usize {
    if n == 0 {
        1
    } else {
        n
    }
}

fn raised(n: usize) -> (raised: usize)
    ensures
        raised == at_least_one(n),
{
    if n == 0 {
        1
    } else {
        n
    }
}

impl LargeBatchOptions {
    /// The options with both sizes at least one.
    pub fn sanitized(&self) -> (sane: LargeBatchOptions)
        ensures
            sane.threshold_bytes == at_least_one(self.threshold_bytes),
            sane.chunk_bytes == at_least_one(self.chunk_bytes),
    {
        LargeBatchOptions {
            threshold_bytes: raised(self.threshold_bytes),
            chunk_bytes: raised(self.chunk_bytes),
        }
    }

    /// Whether a payload has to be cut.
    pub fn is_large(&self, payload: usize) -> (large: bool)
        ensures
            large == (payload > self.threshold_bytes),
    {
        payload > self.threshold_bytes
    }
}

/// Whether a text is an upload's name: hexadecimal digits and hyphens.
pub open spec fn is_upload_name(name: Seq<char>) -> bool {
    name.len() == 36 && forall|i: int|
        0 <= i < name.len() ==> (#[trigger] name[i] == '-' || '0' <= name[i] <= '9' || 'a' <= name[i]
            <= 'f')
}

/// Wraps `uuid::Uuid::new_v4` written as text: thirty-six lower-case hexadecimal
/// digits and hyphens. Which ones is left to chance.
#[verifier::external_body]
fn random_uuid() -> (name: String)
    ensures
        is_upload_name(name@),
{
    uuid::Uuid::new_v4().to_string()
}

/// A new name for an upload.
pub fn new_upload_id() -> (name: String)
    ensures
        is_upload_name(name@),
{
    random_uuid()
}

/// The names of uploads hold no slash, so that uploads never meet.
pub proof fn law_upload_names_hold_no_slash(name: Seq<char>)
    requires
        is_upload_name(name),
    ensures
        !vstd::utf8::encode_utf8(name).contains(47u8),
{
    assert forall|i: int| 0 <= i < name.len() implies (#[trigger] name[i] as u32) < 128 by {}
    vstd::utf8::is_ascii_chars_encode_utf8(name);
    assert forall|i: int| 0 <= i < name.len() implies #[trigger] vstd::utf8::encode_utf8(name)[i]
        != 47 by {
        assert(vstd::utf8::encode_utf8(name)[i] == name[i] as u8);
        assert(name[i] as u32 != 47);
    }
}

/// A write in pieces of at most `size` bytes, one after the other.
pub open spec fn write_pieces(offset: int, bytes: Seq<u8>, size: int) -> Seq<FileOp>
    decreases bytes.len(),
{
    if size <= 0 || bytes.len() <= size {
        seq![FileOp::Write { offset, bytes }]
    } else {
        seq![FileOp::Write { offset, bytes: bytes.take(size) }] + write_pieces(
            offset + size,
            bytes.skip(size),
            size,
        )
    }
}

/// Operations that are being cut: the pieces that are done, and the one that is
/// growing.
#[verifier::ext_equal]
pub struct CutModel {
    pub done: Seq<Seq<FileOp>>,
    pub current: Seq<FileOp>,
}

/// The pieces once the growing one is closed.
pub open spec fn closed_pieces(cut: CutModel) -> Seq<Seq<FileOp>> {
    if cut.current.len() > 0 {
        cut.done.push(cut.current)
    } else {
        cut.done
    }
}

/// Every operation as a piece of its own.
pub open spec fn singles(ops: Seq<FileOp>) -> Seq<Seq<FileOp>> {
    Seq::new(ops.len(), |i: int| seq![ops[i]])
}

/// One more operation: a write that is larger than a piece becomes pieces of its own,
/// any other goes into the growing piece unless that would become too large.
pub open spec fn cut_step(cut: CutModel, op: FileOp, size: int) -> CutModel {
    if op_is_large(op, size) {
        CutModel {
            done: closed_pieces(cut) + singles(
                write_pieces(op->offset, op->bytes, size),
            ),
            current: Seq::empty(),
        }
    } else if cut.current.len() > 0 && types::ops_payload(cut.current) + types::op_payload(op)
        > size {
        CutModel { done: cut.done.push(cut.current), current: seq![op] }
    } else {
        CutModel { done: cut.done, current: cut.current.push(op) }
    }
}

/// Whether an operation is a write that is larger than a piece.
pub open spec fn op_is_large(op: FileOp, size: int) -> bool {
    op is Write && types::op_payload(op) > size
}

/// Operations that are being cut, after all of them.
pub open spec fn cut_all(ops: Seq<FileOp>, size: int) -> CutModel
    decreases ops.len(),
{
    if ops.len() == 0 {
        CutModel { done: Seq::empty(), current: Seq::empty() }
    } else {
        cut_step(cut_all(ops.drop_last(), size), ops.last(), size)
    }
}

/// The pieces into which operations are cut.
pub open spec fn pieces_of(ops: Seq<FileOp>, target: usize) -> Seq<Seq<FileOp>> {
    closed_pieces(cut_all(ops, at_least_one(target) as int))
}

/// The models of pieces.
pub open spec fn piece_models(chunks: Seq<Vec<SqliteVfsOp>>) -> Seq<Seq<FileOp>> {
    Seq::new(chunks.len(), |i: int| types::logged_ops(chunks[i]@))
}

/// Whether the end of every write is an offset.
pub open spec fn writes_fit(ops: Seq<FileOp>) -> bool {
    forall|i: int|
        0 <= i < ops.len() ==> (#[trigger] ops[i] matches FileOp::Write { offset, bytes } ==> offset
            + bytes.len() <= u64::MAX)
}

fn push_piece(chunks: &mut Vec<Vec<SqliteVfsOp>>, chunk: Vec<SqliteVfsOp>)
    ensures
        piece_models(final(chunks)@) == piece_models(old(chunks)@).push(
            types::logged_ops(chunk@),
        ),
{
    chunks.push(chunk);
    assert(piece_models(chunks@) =~= piece_models(old(chunks)@).push(types::logged_ops(chunk@)));
}

fn push_write_pieces(chunks: &mut Vec<Vec<SqliteVfsOp>>, write: &SqliteVfsWrite, size: usize)
    requires
        size > 0,
        write.offset + write.bytes@.len() <= u64::MAX,
    ensures
        piece_models(final(chunks)@) == piece_models(old(chunks)@) + singles(
            write_pieces(write.offset as int, write.bytes@, size as int),
        ),
{
    let ghost whole = write_pieces(write.offset as int, write.bytes@, size as int);
    let ghost before = piece_models(chunks@);
    let len: usize = write.bytes.len();
    let mut at: usize = 0;
    let mut closed = false;
    assert(write.bytes@.skip(0) =~= write.bytes@);
    assert(piece_models(chunks@) + singles(whole) =~= before + singles(whole));
    while !closed
        invariant
            size > 0,
            len == write.bytes@.len(),
            write.offset + len <= u64::MAX,
            at <= len,
            !closed ==> piece_models(chunks@) + singles(
                write_pieces(write.offset + at, write.bytes@.skip(at as int), size as int),
            ) == before + singles(whole),
            closed ==> piece_models(chunks@) == before + singles(whole),
        decreases (len - at) + (if closed {
            0int
        } else {
            1int
        }),
    {
        let ghost rest = write.bytes@.skip(at as int);
        let ghost so_far = piece_models(chunks@);
        let last = len - at <= size;
        let end: usize = if last {
            len
        } else {
            at + size
        };
        let mut chunk: Vec<SqliteVfsOp> = Vec::new();
        let bytes = copy_range(write.bytes.as_slice(), at, end);
        let ghost piece = bytes@;
        chunk.push(SqliteVfsOp::Write(SqliteVfsWrite { offset: write.offset + at as u64, bytes }));
        let ghost op = FileOp::Write { offset: write.offset + at, bytes: piece };
        assert(types::logged_ops(chunk@) =~= seq![op]);
        push_piece(chunks, chunk);
        proof {
            let here = write_pieces(write.offset + at, rest, size as int);
            if last {
                assert(piece =~= rest);
                assert(here =~= seq![op]);
                assert(singles(here) =~= seq![seq![op]]);
                assert(so_far + singles(here) =~= so_far.push(seq![op]));
            } else {
                assert(piece =~= rest.take(size as int));
                assert(rest.skip(size as int) =~= write.bytes@.skip(end as int));
                let next = write_pieces(
                    write.offset + end,
                    write.bytes@.skip(end as int),
                    size as int,
                );
                assert(here =~= seq![op] + next);
                assert(singles(here) =~= seq![seq![op]] + singles(next));
                assert(so_far + singles(here) =~= so_far.push(seq![op]) + singles(next));
            }
        }
        at = end;
        closed = last;
    }
}

/// Cuts operations into pieces.
pub fn split_large_batch_ops(ops: &Vec<SqliteVfsOp>, target_chunk_bytes: usize) -> (chunks: Vec<
    Vec<SqliteVfsOp>,
>)
    requires
        writes_fit(types::logged_ops(ops@)),
    ensures
        piece_models(chunks@) == pieces_of(types::logged_ops(ops@), target_chunk_bytes),
{
    let size: usize = raised(target_chunk_bytes);
    let ghost models = types::logged_ops(ops@);
    let mut chunks: Vec<Vec<SqliteVfsOp>> = Vec::new();
    let mut current: Vec<SqliteVfsOp> = Vec::new();
    let mut current_bytes: usize = 0;
    let mut i: usize = 0;
    assert(piece_models(chunks@) =~= Seq::empty());
    assert(types::logged_ops(current@) =~= Seq::empty());
    assert(models.take(0) =~= Seq::empty());
    while i < ops.len()
        invariant
            i <= ops@.len(),
            size > 0,
            models == types::logged_ops(ops@),
            writes_fit(models),
            piece_models(chunks@) == cut_all(models.take(i as int), size as int).done,
            types::logged_ops(current@) == cut_all(models.take(i as int), size as int).current,
            current_bytes == types::ops_payload(types::logged_ops(current@)),
            current_bytes <= size,
        decreases ops@.len() - i,
    {
        let ghost cut = cut_all(models.take(i as int), size as int);
        let ghost op_model = models[i as int];
        proof {
            assert(models.take(i + 1).drop_last() =~= models.take(i as int));
            assert(models.take(i + 1).last() == op_model);
            assert(types::logged_ops(current@).len() == current@.len());
        }
        let op = &ops[i];
        let op_bytes: usize = sqlite_op_payload_bytes(op);
        let split = match op {
            SqliteVfsOp::Write(write) => write.bytes.len() > size,
            _ => false,
        };
        if split {
            if current.len() > 0 {
                push_piece(&mut chunks, current);
                current = Vec::new();
            }
            assert(piece_models(chunks@) =~= closed_pieces(cut));
            if let SqliteVfsOp::Write(write) = op {
                push_write_pieces(&mut chunks, write, size);
            }
            current_bytes = 0;
            assert(types::logged_ops(current@) =~= Seq::empty());
            assert(types::ops_payload(types::logged_ops(current@)) == 0);
        } else {
            if current.len() > 0 && op_bytes > size - current_bytes {
                push_piece(&mut chunks, current);
                current = Vec::new();
                current_bytes = 0;
                assert(types::logged_ops(current@) =~= Seq::empty());
                assert(types::ops_payload(types::logged_ops(current@)) == 0);
            }
            let ghost before = types::logged_ops(current@);
            current.push(copy_sqlite_op(op));
            current_bytes = current_bytes + op_bytes;
            proof {
                assert(types::logged_ops(current@) =~= before.push(op_model));
                assert(before.push(op_model).drop_last() =~= before);
                assert(types::ops_payload(before.push(op_model)) == types::ops_payload(before)
                    + types::op_payload(op_model));
                assert(types::logged_ops(current@) =~= cut_step(cut, op_model, size as int).current);
            }
        }
        i = i + 1;
    }
    assert(models.take(ops@.len() as int) =~= models);
    assert(types::logged_ops(current@).len() == current@.len());
    if current.len() > 0 {
        push_piece(&mut chunks, current);
    }
    assert(piece_models(chunks@) =~= pieces_of(models, target_chunk_bytes));
    chunks
}

/// Whether requests announce a batch, carry its pieces in order, and commit it.
pub open spec fn is_batch_upload(
    requests: Seq<LargeSqliteBatchRequest>,
    batch: SqliteVfsBatch,
    chunks: Seq<Vec<SqliteVfsOp>>,
    upload_id: Seq<char>,
    total_bytes: u64,
    created_at_ms: u64,
) -> bool {
    &&& requests.len() == chunks.len() + 2
    &&& requests[0] matches LargeSqliteBatchRequest::Begin(manifest) && manifest.upload_id@
        == upload_id && manifest.database == batch.database && manifest.file_path == batch.file_path
        && manifest.file_kind == batch.file_kind && manifest.total_chunks == chunks.len()
        && manifest.total_bytes == total_bytes && manifest.created_at_ms == created_at_ms
    &&& forall|i: int|
        0 <= i < chunks.len() ==> (#[trigger] requests[i + 1] matches LargeSqliteBatchRequest::Chunk(
            chunk,
        ) && chunk.upload_id@ == upload_id && chunk.chunk_index == i && chunk.ops == chunks[i])
    &&& requests.last() matches LargeSqliteBatchRequest::Commit { upload_id: name } && name@
        == upload_id
}

/// The requests that carry a batch in pieces.
pub fn plan_large_batch(
    batch: SqliteVfsBatch,
    chunks: Vec<Vec<SqliteVfsOp>>,
    upload_id: &str,
    total_bytes: u64,
    created_at_ms: u64,
) -> (requests: Vec<LargeSqliteBatchRequest>)
    requires
        chunks@.len() <= u32::MAX,
    ensures
        is_batch_upload(requests@, batch, chunks@, upload_id@, total_bytes, created_at_ms),
{
    let ghost all = chunks@;
    let mut requests: Vec<LargeSqliteBatchRequest> = Vec::new();
    requests.push(
        LargeSqliteBatchRequest::Begin(
            LargeSqliteBatchManifest {
                upload_id: upload_id.to_owned(),
                database: batch.database,
                file_path: batch.file_path,
                file_kind: batch.file_kind,
                total_chunks: chunks.len() as u32,
                total_bytes,
                created_at_ms,
            },
        ),
    );
    let mut rest = chunks;
    let mut taken: u32 = 0;
    assert(rest@ =~= all.skip(0));
    while rest.len() > 0
        invariant
            all.len() <= u32::MAX,
            taken <= all.len(),
            rest@ == all.skip(taken as int),
            requests@.len() == taken + 1,
            requests@[0] matches LargeSqliteBatchRequest::Begin(manifest) && manifest.upload_id@
                == upload_id@ && manifest.database == batch.database && manifest.file_path
                == batch.file_path && manifest.file_kind == batch.file_kind
                && manifest.total_chunks == all.len() && manifest.total_bytes == total_bytes
                && manifest.created_at_ms == created_at_ms,
            forall|i: int|
                0 <= i < taken ==> (
                #[trigger] requests@[i + 1] matches LargeSqliteBatchRequest::Chunk(chunk)
                    && chunk.upload_id@ == upload_id@ && chunk.chunk_index == i && chunk.ops
                    == all[i]),
        decreases rest.len(),
    {
        let ops = rest.remove(0);
        assert(ops == all[taken as int]);
        assert(rest@ =~= all.skip(taken + 1));
        requests.push(
            LargeSqliteBatchRequest::Chunk(
                LargeSqliteBatchChunk { upload_id: upload_id.to_owned(), chunk_index: taken, ops },
            ),
        );
        taken = taken + 1;
    }
    requests.push(LargeSqliteBatchRequest::Commit { upload_id: upload_id.to_owned() });
    requests
}

/// Records that are being cut.
#[verifier::ext_equal]
pub struct EntryCut {
    pub done: Seq<Seq<SqliteDatabasePageSyncEntry>>,
    pub current: Seq<SqliteDatabasePageSyncEntry>,
}

/// One more record: it goes into the growing piece unless that would become too
/// large.
pub open spec fn entry_step(
    cut: EntryCut,
    entry: SqliteDatabasePageSyncEntry,
    size: int,
) -> EntryCut {
    if cut.current.len() > 0 && staging::entries_payload(cut.current) + entry.key@.len()
        + entry.value@.len() > size {
        EntryCut { done: cut.done.push(cut.current), current: seq![entry] }
    } else {
        EntryCut { done: cut.done, current: cut.current.push(entry) }
    }
}

/// Records that are being cut, after all of them.
pub open spec fn entry_cut(entries: Seq<SqliteDatabasePageSyncEntry>, size: int) -> EntryCut
    decreases entries.len(),
{
    if entries.len() == 0 {
        EntryCut { done: Seq::empty(), current: Seq::empty() }
    } else {
        entry_step(entry_cut(entries.drop_last(), size), entries.last(), size)
    }
}

/// The pieces into which records are cut: at least one, though it may be empty.
pub open spec fn entry_pieces(
    entries: Seq<SqliteDatabasePageSyncEntry>,
    target: usize,
) -> Seq<Seq<SqliteDatabasePageSyncEntry>> {
    let cut = entry_cut(entries, at_least_one(target) as int);
    if cut.current.len() > 0 || cut.done.len() == 0 {
        cut.done.push(cut.current)
    } else {
        cut.done
    }
}

/// The models of pieces of records.
pub open spec fn entry_models(chunks: Seq<Vec<SqliteDatabasePageSyncEntry>>) -> Seq<
    Seq<SqliteDatabasePageSyncEntry>,
> {
    Seq::new(chunks.len(), |i: int| chunks[i]@)
}

/// Cuts records into pieces.
pub fn split_page_delta_entries(
    entries: Vec<SqliteDatabasePageSyncEntry>,
    target_chunk_bytes: usize,
) -> (chunks: Vec<Vec<SqliteDatabasePageSyncEntry>>)
    requires
        staging::entries_payload(entries@) <= usize::MAX,
    ensures
        entry_models(chunks@) == entry_pieces(entries@, target_chunk_bytes),
{
    let size: usize = raised(target_chunk_bytes);
    let ghost all = entries@;
    let mut chunks: Vec<Vec<SqliteDatabasePageSyncEntry>> = Vec::new();
    let mut current: Vec<SqliteDatabasePageSyncEntry> = Vec::new();
    let mut current_bytes: usize = 0;
    assert(entry_models(chunks@) =~= Seq::empty());
    assert(all.take(0) =~= Seq::empty());
    for entry in it: entries
        invariant
            it.seq() == all,
            staging::entries_payload(all) <= usize::MAX,
            entry_models(chunks@) == entry_cut(all.take(it.index() as int), size as int).done,
            current@ == entry_cut(all.take(it.index() as int), size as int).current,
            current_bytes == staging::entries_payload(current@),
            staging::entries_payload(current@) <= staging::entries_payload(
                all.take(it.index() as int),
            ),
    {
        let ghost taken = it.index() as int;
        let ghost cut = entry_cut(all.take(taken), size as int);
        proof {
            assert(entry == all[taken]);
            assert(all.take(taken + 1).drop_last() =~= all.take(taken));
            assert(all.take(taken + 1).last() == entry);
            staging::lemma_entries_part(all, taken + 1);
        }
        let entry_bytes: usize = entry.key.len() + entry.value.len();
        if current.len() > 0 && current_bytes.saturating_add(entry_bytes) > size {
            let ghost before = entry_models(chunks@);
            chunks.push(current);
            assert(entry_models(chunks@) =~= before.push(cut.current));
            current = Vec::new();
            current_bytes = 0;
            assert(staging::entries_payload(current@) == 0);
        }
        let ghost before = current@;
        current.push(entry);
        current_bytes = current_bytes + entry_bytes;
        proof {
            assert(current@ =~= before.push(entry));
            assert(before.push(entry).drop_last() =~= before);
            assert(staging::entries_payload(current@) == staging::entries_payload(before)
                + entry.key@.len() + entry.value@.len());
            assert(current@ =~= entry_step(cut, entry, size as int).current);
        }
    }
    assert(all.take(all.len() as int) =~= all);
    if current.len() > 0 || chunks.len() == 0 {
        chunks.push(current);
    }
    assert(entry_models(chunks@) =~= entry_pieces(all, target_chunk_bytes));
    chunks
}

/// The bytes that keys hold together.
pub open spec fn keys_payload(keys: Seq<Vec<u8>>) -> nat
    decreases keys.len(),
{
    if keys.len() == 0 {
        0
    } else {
        keys_payload(keys.drop_last()) + keys.last()@.len()
    }
}

/// The bytes that ranges take together: their prefixes and a page each.
pub open spec fn ranges_payload(
    ranges: Seq<crate::ordered::SqliteCurrentPageDeleteRange>,
) -> nat
    decreases ranges.len(),
{
    if ranges.len() == 0 {
        0
    } else {
        ranges_payload(ranges.drop_last()) + ranges.last().current_pages_prefix@.len() + 8
    }
}

/// The bytes that a delta carries.
pub open spec fn delta_payload(delta: SqliteDatabasePageSyncDelta) -> nat {
    staging::entries_payload(delta.entries@) + keys_payload(delta.metadata_deletes@)
        + ranges_payload(delta.current_page_deletes@)
}

proof fn lemma_keys_part(keys: Seq<Vec<u8>>, upto: int)
    requires
        0 <= upto <= keys.len(),
    ensures
        keys_payload(keys.take(upto)) <= keys_payload(keys),
    decreases keys.len(),
{
    if upto == keys.len() {
        assert(keys.take(upto) =~= keys);
    } else {
        lemma_keys_part(keys.drop_last(), upto);
        assert(keys.drop_last().take(upto) =~= keys.take(upto));
    }
}

proof fn lemma_ranges_part(ranges: Seq<crate::ordered::SqliteCurrentPageDeleteRange>, upto: int)
    requires
        0 <= upto <= ranges.len(),
    ensures
        ranges_payload(ranges.take(upto)) <= ranges_payload(ranges),
    decreases ranges.len(),
{
    if upto == ranges.len() {
        assert(ranges.take(upto) =~= ranges);
    } else {
        lemma_ranges_part(ranges.drop_last(), upto);
        assert(ranges.drop_last().take(upto) =~= ranges.take(upto));
    }
}

/// The bytes that a delta carries.
pub fn sqlite_page_delta_payload_bytes(delta: &SqliteDatabasePageSyncDelta) -> (payload: usize)
    requires
        delta_payload(*delta) <= usize::MAX,
    ensures
        payload == delta_payload(*delta),
{
    let entries: usize = sqlite_page_delta_entries_payload_bytes(&delta.entries);
    let mut keys: usize = 0;
    let mut i: usize = 0;
    while i < delta.metadata_deletes.len()
        invariant
            i <= delta.metadata_deletes@.len(),
            delta_payload(*delta) <= usize::MAX,
            keys == keys_payload(delta.metadata_deletes@.take(i as int)),
        decreases delta.metadata_deletes@.len() - i,
    {
        proof {
            lemma_keys_part(delta.metadata_deletes@, i + 1);
            assert(delta.metadata_deletes@.take(i + 1).drop_last()
                =~= delta.metadata_deletes@.take(i as int));
        }
        keys = keys + delta.metadata_deletes[i].len();
        i = i + 1;
    }
    assert(delta.metadata_deletes@.take(i as int) =~= delta.metadata_deletes@);
    let mut ranges: usize = 0;
    let mut k: usize = 0;
    while k < delta.current_page_deletes.len()
        invariant
            k <= delta.current_page_deletes@.len(),
            delta_payload(*delta) <= usize::MAX,
            ranges == ranges_payload(delta.current_page_deletes@.take(k as int)),
        decreases delta.current_page_deletes@.len() - k,
    {
        proof {
            lemma_ranges_part(delta.current_page_deletes@, k + 1);
            assert(delta.current_page_deletes@.take(k + 1).drop_last()
                =~= delta.current_page_deletes@.take(k as int));
        }
        ranges = ranges + (delta.current_page_deletes[k].current_pages_prefix.len() + 8);
        k = k + 1;
    }
    assert(delta.current_page_deletes@.take(k as int) =~= delta.current_page_deletes@);
    entries + keys + ranges
}

/// Whether requests announce a delta of pages, carry its pieces in order, and commit
/// it.
pub open spec fn is_page_delta_upload(
    requests: Seq<LargeSqlitePageDeltaRequest>,
    database: Seq<char>,
    delta: SqliteDatabasePageSyncDelta,
    chunks: Seq<Vec<SqliteDatabasePageSyncEntry>>,
    upload_id: Seq<char>,
    created_at_ms: u64,
) -> bool {
    &&& requests.len() == chunks.len() + 2
    &&& requests[0] matches LargeSqlitePageDeltaRequest::Begin(manifest) && manifest.upload_id@
        == upload_id && manifest.database@ == database && manifest.min_exclusive_version
        == delta.min_exclusive_version && manifest.total_chunks == chunks.len()
        && manifest.total_bytes == staging::entries_payload(delta.entries@)
        && manifest.metadata_deletes == delta.metadata_deletes && manifest.current_page_deletes
        == delta.current_page_deletes && manifest.created_at_ms == created_at_ms
    &&& forall|i: int|
        0 <= i < chunks.len() ==> (
        #[trigger] requests[i + 1] matches LargeSqlitePageDeltaRequest::Chunk(chunk)
            && chunk.upload_id@ == upload_id && chunk.chunk_index == i && chunk.entries@
            == chunks[i]@)
    &&& requests.last() matches LargeSqlitePageDeltaRequest::Commit { upload_id: name } && name@
        == upload_id
}

/// The requests that carry a delta of pages in pieces, unless there are more pieces
/// than can be numbered.
pub fn plan_large_page_delta(
    database: &str,
    delta: SqliteDatabasePageSyncDelta,
    upload_id: &str,
    chunk_bytes: usize,
    created_at_ms: u64,
) -> (requests: Option<Vec<LargeSqlitePageDeltaRequest>>)
    requires
        staging::entries_payload(delta.entries@) <= usize::MAX,
    ensures
        match requests {
            Some(list) => entry_pieces(delta.entries@, chunk_bytes).len() <= u32::MAX && exists|
                chunks: Seq<Vec<SqliteDatabasePageSyncEntry>>,
            |
                #![trigger entry_models(chunks)]
                entry_models(chunks) == entry_pieces(delta.entries@, chunk_bytes)
                    && is_page_delta_upload(
                    list@,
                    database@,
                    delta,
                    chunks,
                    upload_id@,
                    created_at_ms,
                ),
            None => entry_pieces(delta.entries@, chunk_bytes).len() > u32::MAX,
        },
{
    let total_bytes: u64 = sqlite_page_delta_entries_payload_bytes(&delta.entries) as u64;
    let chunks = split_page_delta_entries(delta.entries, chunk_bytes);
    assert(entry_models(chunks@).len() == chunks@.len());
    if chunks.len() > u32::MAX as usize {
        return None;
    }
    let ghost all = chunks@;
    let mut requests: Vec<LargeSqlitePageDeltaRequest> = Vec::new();
    requests.push(
        LargeSqlitePageDeltaRequest::Begin(
            LargeSqlitePageDeltaManifest {
                upload_id: upload_id.to_owned(),
                database: database.to_owned(),
                min_exclusive_version: delta.min_exclusive_version,
                total_chunks: chunks.len() as u32,
                total_bytes,
                metadata_deletes: delta.metadata_deletes,
                current_page_deletes: delta.current_page_deletes,
                created_at_ms,
            },
        ),
    );
    let ghost begin = requests@[0];
    let mut rest = chunks;
    let mut taken: u32 = 0;
    assert(rest@ =~= all.skip(0));
    while rest.len() > 0
        invariant
            all.len() <= u32::MAX,
            taken <= all.len(),
            rest@ == all.skip(taken as int),
            requests@.len() == taken + 1,
            requests@[0] == begin,
            forall|i: int|
                0 <= i < taken ==> (
                #[trigger] requests@[i + 1] matches LargeSqlitePageDeltaRequest::Chunk(chunk)
                    && chunk.upload_id@ == upload_id@ && chunk.chunk_index == i && chunk.entries@
                    == all[i]@),
        decreases rest.len(),
    {
        let entries = rest.remove(0);
        assert(entries == all[taken as int]);
        assert(rest@ =~= all.skip(taken + 1));
        requests.push(
            LargeSqlitePageDeltaRequest::Chunk(
                LargeSqlitePageDeltaChunk {
                    upload_id: upload_id.to_owned(),
                    chunk_index: taken,
                    entries,
                },
            ),
        );
        taken = taken + 1;
    }
    requests.push(LargeSqlitePageDeltaRequest::Commit { upload_id: upload_id.to_owned() });
    assert(entry_models(all) == entry_pieces(delta.entries@, chunk_bytes));
    assert(is_page_delta_upload(
        requests@,
        database@,
        delta,
        all,
        upload_id@,
        created_at_ms,
    ));
    Some(requests)
}

/// Whether an upload has to be dropped when one of its requests fails: not when it
/// could not even be announced.
pub fn drops_on_failure(step: usize) -> (drops: bool)
    ensures
        drops == (step > 0),
{
    step > 0
}

/// The request that drops a batch that was announced.
pub fn abort_large_batch(upload_id: &str) -> (request: LargeSqliteBatchRequest)
    ensures
        request matches LargeSqliteBatchRequest::Abort { upload_id: name } && name@ == upload_id@,
{
    LargeSqliteBatchRequest::Abort { upload_id: upload_id.to_owned() }
}

/// The request that drops a delta of pages that was announced.
pub fn abort_large_sqlite_page_delta(upload_id: &str) -> (request: LargeSqlitePageDeltaRequest)
    ensures
        request matches LargeSqlitePageDeltaRequest::Abort { upload_id: name } && name@
            == upload_id@,
{
    LargeSqlitePageDeltaRequest::Abort { upload_id: upload_id.to_owned() }
}

/// A log entry with a step of a large batch, stamped with the next time of the clock.
pub fn large_sqlite_batch_request(request: LargeSqliteBatchRequest, clock: &mut HybridClock) -> (entry:
    OrionRaftRequest)
    requires
        old(clock)@.logical < u32::MAX,
    ensures
        entry.committed_at() == Some(final(clock)@),
        hlc::follows(old(clock)@, final(clock)@),
        entry.sqlite_batches@.len() == 0,
        entry.sqlite_page_deltas@.len() == 0,
        entry.large_sqlite_page_delta is None,
        entry.large_sqlite_batch == Some(request),
{
    OrionRaftRequest {
        meta: Some(OrionRaftRequestMeta::new(clock.next())),
        sqlite_batches: Vec::new(),
        sqlite_page_deltas: Vec::new(),
        large_sqlite_page_delta: None,
        large_sqlite_batch: Some(request),
    }
}

/// A log entry with a step of a large delta of pages, stamped with the next time of
/// the clock.
pub fn large_sqlite_page_delta_request(
    request: LargeSqlitePageDeltaRequest,
    clock: &mut HybridClock,
) -> (entry: OrionRaftRequest)
    requires
        old(clock)@.logical < u32::MAX,
    ensures
        entry.committed_at() == Some(final(clock)@),
        hlc::follows(old(clock)@, final(clock)@),
        entry.sqlite_batches@.len() == 0,
        entry.sqlite_page_deltas@.len() == 0,
        entry.large_sqlite_page_delta == Some(request),
        entry.large_sqlite_batch is None,
{
    OrionRaftRequest {
        meta: Some(OrionRaftRequestMeta::new(clock.next())),
        sqlite_batches: Vec::new(),
        sqlite_page_deltas: Vec::new(),
        large_sqlite_page_delta: Some(request),
        large_sqlite_batch: None,
    }
}

} // verus!
