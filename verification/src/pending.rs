//! What a handle sees of its file before its operations are synced.

use vstd::prelude::*;

use crate::commit;
use crate::commit::VfsFileOp;
use crate::file_model;
use crate::file_model::FileOp;

verus! {

/// The size of a file after an operation.
pub open spec fn size_after(size: int, op: FileOp) -> int {
    match op {
        FileOp::Delete => 0,
        FileOp::Truncate { size: cut } => cut,
        FileOp::Write { offset, bytes } => if size < offset + bytes.len() {
            offset + bytes.len()
        } else {
            size
        },
    }
}

/// The size of a file after a sequence of operations.
pub open spec fn size_after_all(size: int, ops: Seq<FileOp>) -> int
    decreases ops.len(),
{
    if ops.len() == 0 {
        size
    } else {
        size_after(size_after_all(size, ops.drop_last()), ops.last())
    }
}

/// The bytes that were read at an offset, after an operation.
pub open spec fn shown(window: Seq<u8>, offset: int, op: FileOp) -> Seq<u8> {
    Seq::new(
        window.len(),
        |i: int|
            match op {
                FileOp::Delete => 0u8,
                FileOp::Truncate { size } => if offset + i < size {
                    window[i]
                } else {
                    0u8
                },
                FileOp::Write { offset: start, bytes } => if start <= offset + i < start
                    + bytes.len() {
                    bytes[offset + i - start]
                } else {
                    window[i]
                },
            },
    )
}

/// The bytes that were read at an offset, after a sequence of operations.
pub open spec fn shown_all(window: Seq<u8>, offset: int, ops: Seq<FileOp>) -> Seq<u8>
    decreases ops.len(),
{
    if ops.len() == 0 {
        window
    } else {
        shown(shown_all(window, offset, ops.drop_last()), offset, ops.last())
    }
}

/// Whether the end of every operation is a number of a file's size.
pub open spec fn ops_fit(ops: Seq<FileOp>) -> bool {
    forall|i: int| 0 <= i < ops.len() ==> op_fits(#[trigger] ops[i])
}

/// Whether the end of an operation is a number of a file's size.
pub open spec fn op_fits(op: FileOp) -> bool {
    match op {
        FileOp::Delete => true,
        FileOp::Truncate { size } => 0 <= size <= usize::MAX,
        FileOp::Write { offset, bytes } => 0 <= offset && offset + bytes.len() <= usize::MAX,
    }
}

proof fn lemma_one_more(ops: Seq<VfsFileOp>, i: int)
    requires
        0 <= i < ops.len(),
    ensures
        commit::op_models(ops).take(i + 1).drop_last() == commit::op_models(ops).take(i),
        commit::op_models(ops).take(i + 1).last() == ops[i]@,
{
    let models = commit::op_models(ops);
    assert(models.take(i + 1).drop_last() =~= models.take(i));
}

/// The size that a handle sees, from the size that the store knows.
pub fn overlay_file_size(pending: &Vec<VfsFileOp>, base_size: usize) -> (size: usize)
    requires
        ops_fit(commit::op_models(pending@)),
    ensures
        size == size_after_all(base_size as int, commit::op_models(pending@)),
{
    let ghost models = commit::op_models(pending@);
    let mut size: usize = base_size;
    let mut i: usize = 0;
    while i < pending.len()
        invariant
            i <= pending@.len(),
            models == commit::op_models(pending@),
            ops_fit(models),
            size == size_after_all(base_size as int, models.take(i as int)),
        decreases pending@.len() - i,
    {
        proof {
            lemma_one_more(pending@, i as int);
            assert(op_fits(models[i as int]));
        }
        match &pending[i] {
            VfsFileOp::Delete => {
                size = 0;
            },
            VfsFileOp::Truncate { size: cut } => {
                size = *cut as usize;
            },
            VfsFileOp::Write(write) => {
                let end: usize = write.offset as usize + write.bytes.len();
                if size < end {
                    size = end;
                }
            },
        }
        i = i + 1;
    }
    assert(models.take(i as int) =~= models);
    size
}

fn fill_zeros(data: &mut Vec<u8>, from: usize)
    requires
        from <= old(data)@.len(),
    ensures
        final(data)@ == Seq::new(
            old(data)@.len(),
            |i: int|
                if i < from {
                    old(data)@[i]
                } else {
                    0u8
                },
        ),
{
    let ghost before = data@;
    let mut at: usize = from;
    while at < data.len()
        invariant
            from <= at <= data@.len(),
            data@.len() == before.len(),
            forall|k: int| 0 <= k < from ==> data@[k] == before[k],
            forall|k: int| from <= k < at ==> data@[k] == 0u8,
        decreases data@.len() - at,
    {
        data[at] = 0;
        at = at + 1;
    }
}

fn copy_into(data: &mut Vec<u8>, at: usize, bytes: &Vec<u8>, from: usize, len: usize)
    requires
        at + len <= old(data)@.len(),
        from + len <= bytes@.len(),
    ensures
        final(data)@ == Seq::new(
            old(data)@.len(),
            |i: int|
                if at <= i < at + len {
                    bytes@[from + i - at]
                } else {
                    old(data)@[i]
                },
        ),
{
    let ghost before = data@;
    let mut k: usize = 0;
    while k < len
        invariant
            k <= len,
            at + len <= data.len(),
            from + len <= bytes.len(),
            data@.len() == before.len(),
            forall|i: int|
                0 <= i < data@.len() ==> data@[i] == if at <= i < at + k {
                    bytes@[from + i - at]
                } else {
                    before[i]
                },
        decreases len - k,
    {
        data[at + k] = bytes[from + k];
        k = k + 1;
    }
}

/// Puts the operations of a handle on top of bytes that were read from the store.
pub fn overlay_pending_ops(pending: &Vec<VfsFileOp>, read_offset: u64, data: &mut Vec<u8>)
    requires
        ops_fit(commit::op_models(pending@)),
        read_offset + old(data)@.len() <= u64::MAX,
    ensures
        final(data)@ == shown_all(
            old(data)@,
            read_offset as int,
            commit::op_models(pending@),
        ),
{
    let ghost models = commit::op_models(pending@);
    let ghost before = data@;
    let read_end: u64 = read_offset + data.len() as u64;
    let mut i: usize = 0;
    while i < pending.len()
        invariant
            i <= pending@.len(),
            models == commit::op_models(pending@),
            ops_fit(models),
            read_end == read_offset + data@.len(),
            data@ == shown_all(before, read_offset as int, models.take(i as int)),
        decreases pending@.len() - i,
    {
        let ghost so_far = data@;
        proof {
            lemma_one_more(pending@, i as int);
            assert(op_fits(models[i as int]));
        }
        match &pending[i] {
            VfsFileOp::Delete => {
                fill_zeros(data, 0);
            },
            VfsFileOp::Truncate { size } => {
                if *size < read_end {
                    let fill_start: usize = if *size < read_offset {
                        0
                    } else {
                        (*size - read_offset) as usize
                    };
                    fill_zeros(data, fill_start);
                }
            },
            VfsFileOp::Write(write) => {
                let write_end: u64 = write.offset + write.bytes.len() as u64;
                if read_offset < write_end && write.offset < read_end {
                    let copy_start: u64 = if write.offset < read_offset {
                        read_offset
                    } else {
                        write.offset
                    };
                    let copy_end: u64 = if write_end < read_end {
                        write_end
                    } else {
                        read_end
                    };
                    copy_into(
                        data,
                        (copy_start - read_offset) as usize,
                        &write.bytes,
                        (copy_start - write.offset) as usize,
                        (copy_end - copy_start) as usize,
                    );
                }
            },
        }
        assert(data@ =~= shown(so_far, read_offset as int, pending@[i as int]@));
        i = i + 1;
    }
    assert(models.take(i as int) =~= models);
}

/// What a handle reads: the bytes, and how many of them count as read.
#[derive(Debug, Clone, PartialEq, Eq)]
pub struct VisibleRead {
    pub data: Vec<u8>,
    pub read: usize,
}

/// The bytes of a read of a given length: what the store gave, then zeros.
pub open spec fn filled(bytes: Seq<u8>, len: int) -> Seq<u8> {
    Seq::new(
        len as nat,
        |i: int|
            if i < bytes.len() {
                bytes[i]
            } else {
                0u8
            },
    )
}

/// How many bytes of a read count as read.
pub open spec fn read_count(given: int, offset: int, len: int, visible_size: int) -> int {
    if offset + len <= visible_size {
        len
    } else if given < len {
        given
    } else {
        len
    }
}

/// What a handle reads, from the bytes that the store gave and the size that it knows.
pub fn visible_read(
    pending: &Vec<VfsFileOp>,
    offset: usize,
    len: usize,
    stored: Vec<u8>,
    base_size: usize,
) -> (seen: VisibleRead)
    requires
        ops_fit(commit::op_models(pending@)),
        offset + len <= usize::MAX,
    ensures
        seen.data@ == shown_all(
            filled(stored@, len as int),
            offset as int,
            commit::op_models(pending@),
        ),
        seen.read == read_count(
            stored@.len() as int,
            offset as int,
            len as int,
            size_after_all(base_size as int, commit::op_models(pending@)),
        ),
{
    let given: usize = if stored.len() < len {
        stored.len()
    } else {
        len
    };
    let ghost bytes = stored@;
    let mut data = stored;
    data.resize(len, 0);
    assert(data@ =~= filled(bytes, len as int));
    overlay_pending_ops(pending, offset as u64, &mut data);
    let visible_size: usize = overlay_file_size(pending, base_size);
    let read: usize = if offset + len <= visible_size {
        len
    } else {
        given
    };
    VisibleRead { data, read }
}

/// The bytes of a file at an offset; zeros behind its end.
pub open spec fn window_of(content: Seq<u8>, offset: int, len: int) -> Seq<u8> {
    Seq::new(
        len as nat,
        |i: int|
            if offset + i < content.len() {
                content[offset + i]
            } else {
                0u8
            },
    )
}

/// The bytes of a file that may not be there.
pub open spec fn bytes_of(content: Option<Seq<u8>>) -> Seq<u8> {
    match content {
        Some(bytes) => bytes,
        None => Seq::empty(),
    }
}

/// A handle sees its file as if its operations had been applied: the bytes that it
/// reads and the size are those of the file after the operations.
pub proof fn law_handle_sees_its_operations(
    content: Seq<u8>,
    ops: Seq<FileOp>,
    offset: int,
    len: int,
)
    requires
        ops_fit(ops),
        0 <= offset,
        0 <= len,
    ensures
        ({
            let after = bytes_of(file_model::content_after_all(Some(content), ops));
            &&& shown_all(window_of(content, offset, len), offset, ops) == window_of(
                after,
                offset,
                len,
            )
            &&& size_after_all(content.len() as int, ops) == after.len()
        }),
    decreases ops.len(),
{
    if ops.len() > 0 {
        let front = ops.drop_last();
        let op = ops.last();
        assert forall|i: int| 0 <= i < front.len() implies op_fits(#[trigger] front[i]) by {
            assert(front[i] == ops[i]);
        }
        assert(op_fits(ops[ops.len() - 1]));
        law_handle_sees_its_operations(content, front, offset, len);
        let before = bytes_of(file_model::content_after_all(Some(content), front));
        let after = bytes_of(file_model::content_after_all(Some(content), ops));
        assert(file_model::content_after_all(Some(content), ops) == file_model::content_after(
            file_model::content_after_all(Some(content), front),
            op,
        ));
        assert(shown(window_of(before, offset, len), offset, op) =~= window_of(
            after,
            offset,
            len,
        ));
    }
}

/// After a sync has applied the operations to the file, every handle without operations
/// of its own reads what the handle that wrote them saw.
pub proof fn law_synced_operations_are_seen_by_all(
    content: Seq<u8>,
    ops: Seq<FileOp>,
    offset: int,
    len: int,
)
    requires
        ops_fit(ops),
        0 <= offset,
        0 <= len,
    ensures
        ({
            let synced = bytes_of(file_model::content_after_all(Some(content), ops));
            &&& shown_all(window_of(synced, offset, len), offset, Seq::empty()) == shown_all(
                window_of(content, offset, len),
                offset,
                ops,
            )
            &&& size_after_all(synced.len() as int, Seq::empty()) == size_after_all(
                content.len() as int,
                ops,
            )
        }),
{
    law_handle_sees_its_operations(content, ops, offset, len);
}

} // verus!
