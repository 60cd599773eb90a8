//! What holds of requests that are cut into pieces.

use vstd::prelude::*;

use crate::file_model;
use crate::file_model::FileOp;
use crate::large_payload::LargePayloadKind;
use crate::ordered::SqliteDatabasePageSyncEntry;
use crate::staging;
use crate::types;
use crate::types::SqliteVfsOp;
use crate::upload;
use crate::upload::CutModel;
use crate::upload::EntryCut;

verus! {

/// Pieces, one after the other.
pub open spec fn flat<T>(pieces: Seq<Seq<T>>) -> Seq<T>
    decreases pieces.len(),
{
    if pieces.len() == 0 {
        Seq::empty()
    } else {
        flat(pieces.drop_last()) + pieces.last()
    }
}

proof fn lemma_flat_push<T>(pieces: Seq<Seq<T>>, piece: Seq<T>)
    ensures
        flat(pieces.push(piece)) == flat(pieces) + piece,
{
    assert(pieces.push(piece).drop_last() =~= pieces);
}

proof fn lemma_flat_singles(pieces: Seq<Seq<FileOp>>, ops: Seq<FileOp>)
    ensures
        flat(pieces + upload::singles(ops)) == flat(pieces) + ops,
    decreases ops.len(),
{
    let all = pieces + upload::singles(ops);
    if ops.len() == 0 {
        assert(all =~= pieces);
        assert(flat(pieces) + ops =~= flat(pieces));
    } else {
        lemma_flat_singles(pieces, ops.drop_last());
        assert(all =~= (pieces + upload::singles(ops.drop_last())).push(seq![ops.last()]));
        lemma_flat_push(pieces + upload::singles(ops.drop_last()), seq![ops.last()]);
        assert(flat(pieces) + ops.drop_last() + seq![ops.last()] =~= flat(pieces) + ops);
    }
}

/// A file after two sequences of operations is the file after their concatenation.
pub proof fn lemma_content_after_both(
    content: Option<Seq<u8>>,
    first: Seq<FileOp>,
    second: Seq<FileOp>,
)
    ensures
        file_model::content_after_all(content, first + second) == file_model::content_after_all(
            file_model::content_after_all(content, first),
            second,
        ),
    decreases second.len(),
{
    if second.len() == 0 {
        assert(first + second =~= first);
    } else {
        lemma_content_after_both(content, first, second.drop_last());
        assert((first + second).drop_last() =~= first + second.drop_last());
        assert((first + second).last() == second.last());
    }
}

/// A write in pieces does to a file what the write does.
pub proof fn law_write_pieces_write_the_same(
    content: Option<Seq<u8>>,
    offset: int,
    bytes: Seq<u8>,
    size: int,
)
    requires
        offset >= 0,
        size > 0,
    ensures
        file_model::content_after_all(content, upload::write_pieces(offset, bytes, size))
            == file_model::content_after(content, FileOp::Write { offset, bytes }),
    decreases bytes.len(),
{
    let pieces = upload::write_pieces(offset, bytes, size);
    if bytes.len() <= size {
        assert(pieces.drop_last() =~= Seq::empty());
        assert(file_model::content_after_all(content, Seq::empty()) == content);
    } else {
        let head = FileOp::Write { offset, bytes: bytes.take(size) };
        let rest = bytes.skip(size);
        let first = seq![head];
        assert(first.drop_last() =~= Seq::empty());
        assert(file_model::content_after_all(content, Seq::empty()) == content);
        let between = file_model::content_after_all(content, first);
        assert(between == file_model::content_after(content, head));
        lemma_content_after_both(
            content,
            first,
            upload::write_pieces(offset + size, rest, size),
        );
        law_write_pieces_write_the_same(between, offset + size, rest, size);
        let old = match content {
            Some(found) => found,
            None => Seq::empty(),
        };
        assert(file_model::overwrite(
            file_model::overwrite(old, offset, bytes.take(size)),
            offset + size,
            rest,
        ) =~= file_model::overwrite(old, offset, bytes));
    }
}

proof fn lemma_pieces_payload(offset: int, bytes: Seq<u8>, size: int)
    requires
        size > 0,
    ensures
        types::ops_payload(upload::write_pieces(offset, bytes, size)) == bytes.len(),
        forall|i: int|
            0 <= i < upload::write_pieces(offset, bytes, size).len() ==> types::op_payload(
                #[trigger] upload::write_pieces(offset, bytes, size)[i],
            ) <= size,
    decreases bytes.len(),
{
    let pieces = upload::write_pieces(offset, bytes, size);
    if bytes.len() <= size {
        assert(pieces.drop_last() =~= Seq::empty());
        assert(types::ops_payload(Seq::empty()) == 0);
    } else {
        let first = seq![FileOp::Write { offset, bytes: bytes.take(size) }];
        let next = upload::write_pieces(offset + size, bytes.skip(size), size);
        lemma_pieces_payload(offset + size, bytes.skip(size), size);
        types::lemma_payload_of_both(first, next);
        assert(first.drop_last() =~= Seq::empty());
        assert(types::ops_payload(Seq::empty()) == 0);
        assert(types::ops_payload(first) == size);
        assert forall|i: int| 0 <= i < pieces.len() implies types::op_payload(#[trigger] pieces[i])
            <= size by {
            if i > 0 {
                assert(pieces[i] == next[i - 1]);
            }
        }
    }
}

/// Whether pieces hold something and none is larger than allowed.
pub open spec fn are_small(pieces: Seq<Seq<FileOp>>, size: int) -> bool {
    forall|i: int|
        0 <= i < pieces.len() ==> (#[trigger] pieces[i]).len() > 0 && types::ops_payload(pieces[i])
            <= size
}

/// Whether writes begin within files.
pub open spec fn offsets_are_valid(ops: Seq<FileOp>) -> bool {
    forall|i: int|
        0 <= i < ops.len() ==> (#[trigger] ops[i] matches FileOp::Write { offset, bytes } ==> offset
            >= 0)
}

/// All operations of a cut so far.
spec fn so_far(cut: CutModel) -> Seq<FileOp> {
    flat(cut.done) + cut.current
}

proof fn lemma_cut(ops: Seq<FileOp>, size: int, content: Option<Seq<u8>>)
    requires
        size > 0,
        offsets_are_valid(ops),
    ensures
        ({
            let cut = upload::cut_all(ops, size);
            &&& file_model::content_after_all(content, so_far(cut)) == file_model::content_after_all(
                content,
                ops,
            )
            &&& types::ops_payload(so_far(cut)) == types::ops_payload(ops)
            &&& are_small(cut.done, size)
            &&& types::ops_payload(cut.current) <= size
        }),
    decreases ops.len(),
{
    let cut = upload::cut_all(ops, size);
    if ops.len() == 0 {
        assert(so_far(cut) =~= Seq::empty());
        assert(types::ops_payload(Seq::empty()) == 0);
    } else {
        let earlier = ops.drop_last();
        let op = ops.last();
        assert forall|i: int| 0 <= i < earlier.len() implies (
        #[trigger] earlier[i] matches FileOp::Write { offset, bytes } ==> offset >= 0) by {
            assert(earlier[i] == ops[i]);
        }
        assert(ops[ops.len() - 1] == op);
        lemma_cut(earlier, size, content);
        let before = upload::cut_all(earlier, size);
        let all = so_far(before);
        assert(cut == upload::cut_step(before, op, size));
        assert(seq![op].drop_last() =~= Seq::empty());
        assert(types::ops_payload(Seq::empty()) == 0);
        assert(types::ops_payload(seq![op]) == types::op_payload(op));
        if upload::op_is_large(op, size) {
            let pieces = upload::write_pieces(op->offset, op->bytes, size);
            let closed = upload::closed_pieces(before);
            lemma_flat_push(before.done, before.current);
            assert(flat(closed) =~= all);
            lemma_flat_singles(closed, pieces);
            assert(so_far(cut) =~= all + pieces);
            lemma_content_after_both(content, all, pieces);
            let between = file_model::content_after_all(content, all);
            law_write_pieces_write_the_same(between, op->offset, op->bytes, size);
            types::lemma_payload_of_both(all, pieces);
            lemma_pieces_payload(op->offset, op->bytes, size);
            assert forall|i: int| 0 <= i < cut.done.len() implies (#[trigger] cut.done[i]).len() > 0
                && types::ops_payload(cut.done[i]) <= size by {
                if i >= closed.len() {
                    let piece = pieces[i - closed.len()];
                    assert(cut.done[i] == seq![piece]);
                    assert(seq![piece].drop_last() =~= Seq::empty());
                    assert(types::ops_payload(seq![piece]) == types::op_payload(piece));
                } else {
                    assert(cut.done[i] == closed[i]);
                    if i < before.done.len() {
                        assert(closed[i] == before.done[i]);
                    }
                }
            }
        } else if before.current.len() > 0 && types::ops_payload(before.current) + types::op_payload(
            op,
        ) > size {
            lemma_flat_push(before.done, before.current);
            assert(so_far(cut) =~= all.push(op));
            assert(all.push(op).drop_last() =~= all);
            assert forall|i: int| 0 <= i < cut.done.len() implies (#[trigger] cut.done[i]).len() > 0
                && types::ops_payload(cut.done[i]) <= size by {
                if i < before.done.len() {
                    assert(cut.done[i] == before.done[i]);
                }
            }
        } else {
            assert(so_far(cut) =~= all.push(op));
            assert(all.push(op).drop_last() =~= all);
            assert(cut.current.drop_last() =~= before.current);
        }
    }
}

proof fn lemma_closed(cut: CutModel)
    ensures
        flat(upload::closed_pieces(cut)) == so_far(cut),
{
    lemma_flat_push(cut.done, cut.current);
    if cut.current.len() == 0 {
        assert(so_far(cut) =~= flat(cut.done));
    }
}

/// Cutting operations changes nothing of what they do to a file, nor of what they
/// carry, and no piece is empty or larger than allowed.
pub proof fn law_cut_operations_do_the_same(
    ops: Seq<FileOp>,
    target: usize,
    content: Option<Seq<u8>>,
)
    requires
        offsets_are_valid(ops),
    ensures
        file_model::content_after_all(content, flat(upload::pieces_of(ops, target)))
            == file_model::content_after_all(content, ops),
        types::ops_payload(flat(upload::pieces_of(ops, target))) == types::ops_payload(ops),
        are_small(upload::pieces_of(ops, target), upload::at_least_one(target) as int),
        ops.len() > 0 ==> upload::pieces_of(ops, target).len() > 0,
{
    let size = upload::at_least_one(target) as int;
    let cut = upload::cut_all(ops, size);
    lemma_cut(ops, size, content);
    lemma_closed(cut);
    let pieces = upload::pieces_of(ops, target);
    assert forall|i: int| 0 <= i < pieces.len() implies (#[trigger] pieces[i]).len() > 0
        && types::ops_payload(pieces[i]) <= size by {
        if i < cut.done.len() {
            assert(pieces[i] == cut.done[i]);
        }
    }
    if ops.len() > 0 {
        let before = upload::cut_all(ops.drop_last(), size);
        let op = ops.last();
        if upload::op_is_large(op, size) {
            assert(upload::singles(upload::write_pieces(op->offset, op->bytes, size)).len() > 0);
        }
    }
}

/// Pieces as a commit finds them when all are staged.
pub open spec fn all_found<T>(chunks: Seq<T>) -> Seq<Option<T>> {
    Seq::new(chunks.len(), |i: int| Some(chunks[i]))
}

proof fn lemma_ops_found(chunks: Seq<Vec<SqliteVfsOp>>)
    ensures
        staging::first_missing(staging::op_payloads(all_found(chunks))) is None,
        staging::payload_sum(staging::op_payloads(all_found(chunks))) == types::ops_payload(
            flat(upload::piece_models(chunks)),
        ),
        staging::joined_ops(all_found(chunks)) == flat(upload::piece_models(chunks)),
    decreases chunks.len(),
{
    let found = all_found(chunks);
    let payloads = staging::op_payloads(found);
    let models = upload::piece_models(chunks);
    if chunks.len() == 0 {
        assert(types::ops_payload(Seq::empty()) == 0);
    } else {
        lemma_ops_found(chunks.drop_last());
        assert(found.drop_last() =~= all_found(chunks.drop_last()));
        assert(payloads.drop_last() =~= staging::op_payloads(found.drop_last()));
        assert(models.drop_last() =~= upload::piece_models(chunks.drop_last()));
        assert(payloads.last() == Some(
            types::ops_payload(types::logged_ops(chunks.last()@)),
        ));
        types::lemma_payload_of_both(flat(models.drop_last()), models.last());
    }
}

/// A batch that is cut, uploaded and committed is applied as it was: the commit finds
/// what was announced, and what it puts together does to a file what the batch does.
pub proof fn law_uploaded_batch_commits(
    upload_id: Seq<char>,
    ops: Seq<FileOp>,
    target: usize,
    chunks: Seq<Vec<SqliteVfsOp>>,
    content: Option<Seq<u8>>,
)
    requires
        offsets_are_valid(ops),
        ops.len() > 0,
        types::ops_payload(ops) <= u64::MAX,
        upload::piece_models(chunks) == upload::pieces_of(ops, target),
        chunks.len() <= u32::MAX,
    ensures
        staging::commit_refusal(
            LargePayloadKind::SqliteBatch,
            upload_id,
            Some((chunks.len() as u32, types::ops_payload(ops) as u64)),
            staging::op_payloads(all_found(chunks)),
        ) is None,
        file_model::content_after_all(content, staging::joined_ops(all_found(chunks)))
            == file_model::content_after_all(content, ops),
{
    law_cut_operations_do_the_same(ops, target, content);
    lemma_ops_found(chunks);
    assert(upload::piece_models(chunks).len() == chunks.len());
}

/// Cutting records keeps them and their order; a piece that holds more than one
/// record is no larger than allowed.
pub proof fn law_cut_records_are_the_records(
    entries: Seq<SqliteDatabasePageSyncEntry>,
    target: usize,
)
    ensures
        flat(upload::entry_pieces(entries, target)) == entries,
        upload::entry_pieces(entries, target).len() > 0,
        forall|i: int|
            0 <= i < upload::entry_pieces(entries, target).len() ==> entry_piece_is_small(
                #[trigger] upload::entry_pieces(entries, target)[i],
                upload::at_least_one(target) as int,
            ),
{
    let size = upload::at_least_one(target) as int;
    let cut = upload::entry_cut(entries, size);
    lemma_entry_cut(entries, size);
    lemma_flat_push(cut.done, cut.current);
    let pieces = upload::entry_pieces(entries, target);
    if !(cut.current.len() > 0 || cut.done.len() == 0) {
        assert(flat(cut.done) + cut.current =~= flat(cut.done));
    }
    assert forall|i: int| 0 <= i < pieces.len() implies entry_piece_is_small(
        #[trigger] pieces[i],
        size,
    ) by {
        if i < cut.done.len() {
            assert(pieces[i] == cut.done[i]);
        }
    }
}

/// Whether a piece of records is no larger than allowed, or cannot be smaller.
pub open spec fn entry_piece_is_small(
    piece: Seq<SqliteDatabasePageSyncEntry>,
    size: int,
) -> bool {
    piece.len() <= 1 || staging::entries_payload(piece) <= size
}

proof fn lemma_entry_cut(entries: Seq<SqliteDatabasePageSyncEntry>, size: int)
    requires
        size > 0,
    ensures
        ({
            let cut = upload::entry_cut(entries, size);
            &&& flat(cut.done) + cut.current == entries
            &&& entry_piece_is_small(cut.current, size)
            &&& forall|i: int|
                0 <= i < cut.done.len() ==> entry_piece_is_small(#[trigger] cut.done[i], size)
        }),
    decreases entries.len(),
{
    let cut = upload::entry_cut(entries, size);
    if entries.len() == 0 {
        assert(flat(cut.done) + cut.current =~= entries);
    } else {
        let earlier = entries.drop_last();
        let entry = entries.last();
        lemma_entry_cut(earlier, size);
        let before = upload::entry_cut(earlier, size);
        lemma_flat_push(before.done, before.current);
        assert(flat(cut.done) + cut.current =~= earlier.push(entry));
        assert(earlier.push(entry) =~= entries);
        assert forall|i: int| 0 <= i < cut.done.len() implies entry_piece_is_small(
            #[trigger] cut.done[i],
            size,
        ) by {
            if i < before.done.len() {
                assert(cut.done[i] == before.done[i]);
            }
        }
        if cut.current.len() > 1 {
            assert(cut.current.drop_last() =~= before.current);
        }
    }
}

proof fn lemma_entries_found(chunks: Seq<Vec<SqliteDatabasePageSyncEntry>>)
    ensures
        staging::first_missing(staging::entry_payloads(all_found(chunks))) is None,
        staging::payload_sum(staging::entry_payloads(all_found(chunks)))
            == staging::entries_payload(flat(upload::entry_models(chunks))),
        staging::joined_entries(all_found(chunks)) == flat(upload::entry_models(chunks)),
    decreases chunks.len(),
{
    let found = all_found(chunks);
    let payloads = staging::entry_payloads(found);
    let models = upload::entry_models(chunks);
    if chunks.len() > 0 {
        lemma_entries_found(chunks.drop_last());
        assert(found.drop_last() =~= all_found(chunks.drop_last()));
        assert(payloads.drop_last() =~= staging::entry_payloads(found.drop_last()));
        assert(models.drop_last() =~= upload::entry_models(chunks.drop_last()));
        assert(payloads.last() == Some(staging::entries_payload(chunks.last()@)));
        staging::lemma_entries_of_both(flat(models.drop_last()), models.last());
    }
}

/// A delta of pages that is cut, uploaded and committed is applied as it was.
pub proof fn law_uploaded_page_delta_commits(
    upload_id: Seq<char>,
    entries: Seq<SqliteDatabasePageSyncEntry>,
    target: usize,
    chunks: Seq<Vec<SqliteDatabasePageSyncEntry>>,
)
    requires
        staging::entries_payload(entries) <= u64::MAX,
        upload::entry_models(chunks) == upload::entry_pieces(entries, target),
        chunks.len() <= u32::MAX,
    ensures
        staging::commit_refusal(
            LargePayloadKind::SqlitePageDelta,
            upload_id,
            Some((chunks.len() as u32, staging::entries_payload(entries) as u64)),
            staging::entry_payloads(all_found(chunks)),
        ) is None,
        staging::joined_entries(all_found(chunks)) == entries,
{
    law_cut_records_are_the_records(entries, target);
    lemma_entries_found(chunks);
    assert(upload::entry_models(chunks).len() == chunks.len());
}

/// A piece grows as long as the next operation fits into it: only one that does not fit
/// begins a new piece, and only a write that is larger than a piece is cut.
pub proof fn law_pieces_are_filled(cut: CutModel, op: FileOp, size: int)
    requires
        size > 0,
    ensures
        ({
            let after = upload::cut_step(cut, op, size);
            let payload = match op {
                FileOp::Write { offset: _, bytes } => bytes.len() as int,
                _ => 0int,
            };
            let held = types::ops_payload(cut.current);
            &&& payload <= size && (cut.current.len() == 0 || held + payload <= size)
                ==> after.done == cut.done && after.current == cut.current.push(op)
            &&& payload <= size && cut.current.len() > 0 && held + payload > size ==> after.done
                == cut.done.push(cut.current) && after.current == seq![op]
            &&& payload > size ==> after.current.len() == 0 && after.done.len() >= cut.done.len()
                && after.done.take(cut.done.len() as int) == cut.done
        }),
{
    let after = upload::cut_step(cut, op, size);
    if upload::op_is_large(op, size) {
        assert(after.done.take(cut.done.len() as int) =~= cut.done);
    }
}

/// A piece of records grows as long as the next record fits into it; a record is never cut.
pub proof fn law_pieces_of_records_are_filled(
    cut: EntryCut,
    entry: SqliteDatabasePageSyncEntry,
    size: int,
)
    ensures
        ({
            let after = upload::entry_step(cut, entry, size);
            let held = staging::entries_payload(cut.current) + entry.key@.len()
                + entry.value@.len();
            &&& cut.current.len() == 0 || held <= size ==> after.done == cut.done && after.current
                == cut.current.push(entry)
            &&& cut.current.len() > 0 && held > size ==> after.done == cut.done.push(cut.current)
                && after.current == seq![entry]
        }),
{
}

} // verus!
