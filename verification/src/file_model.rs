//! What the operations on a database file do to the bytes of the file.

use vstd::prelude::*;

verus! {

/// The bytes of a file after `bytes` were written at `offset`. A gap between the
/// old end and `offset` reads as zeros.
pub open spec fn overwrite(content: Seq<u8>, offset: int, bytes: Seq<u8>) -> Seq<u8> {
    Seq::new(
        (if content.len() < offset + bytes.len() {
            offset + bytes.len()
        } else {
            content.len() as int
        }) as nat,
        |i: int|
            if offset <= i < offset + bytes.len() {
                bytes[i - offset]
            } else if i < content.len() {
                content[i]
            } else {
                0u8
            },
    )
}

/// The bytes of a file after its size was set. Growth reads as zeros.
pub open spec fn resized(content: Seq<u8>, size: int) -> Seq<u8> {
    Seq::new(
        size as nat,
        |i: int|
            if i < content.len() {
                content[i]
            } else {
                0u8
            },
    )
}

/// One operation on a file.
#[verifier::ext_equal]
pub ghost enum FileOp {
    Write { offset: int, bytes: Seq<u8> },
    Truncate { size: int },
    Delete,
}

/// A file: `None` where there is none, otherwise its bytes.
pub open spec fn content_after(content: Option<Seq<u8>>, op: FileOp) -> Option<Seq<u8>> {
    let bytes = match content {
        Some(bytes) => bytes,
        None => Seq::empty(),
    };
    match op {
        FileOp::Delete => None,
        FileOp::Truncate { size } => Some(resized(bytes, size)),
        FileOp::Write { offset, bytes: written } => Some(overwrite(bytes, offset, written)),
    }
}

/// A file after a sequence of operations.
pub open spec fn content_after_all(content: Option<Seq<u8>>, ops: Seq<FileOp>) -> Option<Seq<u8>>
    decreases ops.len(),
{
    if ops.len() == 0 {
        content
    } else {
        content_after(content_after_all(content, ops.drop_last()), ops.last())
    }
}

} // verus!
