//! The manifest record that a batch leaves for a file.

use vstd::prelude::*;

use crate::bytes::append_bytes;
use crate::codec;
use crate::codec::encode_u32;
use crate::codec::encode_u64;
use crate::codec::take_u32;
use crate::codec::take_u64;

verus! {

/// What a batch did to a file.
#[derive(Debug, Clone, Copy, PartialEq, Eq, Structural)]
pub enum FileManifestKind {
    Write,
    Truncate,
    Delete,
}

/// The state in which a version left a file.
#[derive(Debug, Clone, Copy, PartialEq, Eq, Structural)]
pub struct FileManifest {
    pub version: u64,
    pub kind: FileManifestKind,
    pub size: u64,
}

/// The number that a kind is stored as.
pub open spec fn kind_number(kind: FileManifestKind) -> u32 {
    match kind {
        FileManifestKind::Write => 0u32,
        FileManifestKind::Truncate => 1u32,
        FileManifestKind::Delete => 2u32,
    }
}

/// The kind that a number stands for.
pub open spec fn kind_of_number(number: u32) -> Option<FileManifestKind> {
    if number == 0 {
        Some(FileManifestKind::Write)
    } else if number == 1 {
        Some(FileManifestKind::Truncate)
    } else if number == 2 {
        Some(FileManifestKind::Delete)
    } else {
        None
    }
}

/// The stored form of a manifest: its version, the number of its kind and its size, one
/// after the other.
pub open spec fn encoded_manifest(manifest: FileManifest) -> Seq<u8> {
    codec::varint(manifest.version as nat) + codec::varint(kind_number(manifest.kind) as nat)
        + codec::varint(manifest.size as nat)
}

/// The message for a kind that no manifest has.
pub open spec fn unknown_kind_message() -> Seq<char> {
    "Serde Deserialization Error"@
}

/// The manifest that bytes stand for, or why they stand for none. The kind is judged
/// before the size is read.
pub open spec fn manifest_reading(bytes: Seq<u8>) -> Result<FileManifest, Seq<char>> {
    match codec::u64_reading(bytes) {
        Err(text) => Err(text),
        Ok((version, tail)) => match codec::u32_reading(tail) {
            Err(text) => Err(text),
            Ok((number, rest)) => match kind_of_number(number) {
                None => Err(unknown_kind_message()),
                Some(kind) => match codec::u64_reading(rest) {
                    Err(text) => Err(text),
                    Ok((size, _)) => Ok(FileManifest { version, kind, size }),
                },
            },
        },
    }
}

/// The manifest that stored bytes hold, if they hold one.
pub open spec fn decoded_manifest(bytes: Seq<u8>) -> Option<FileManifest> {
    match manifest_reading(bytes) {
        Ok(manifest) => Some(manifest),
        Err(_) => None,
    }
}

/// Encodes a manifest. The bytes decode to the same manifest.
pub fn encode_manifest(manifest: &FileManifest) -> (bytes: Vec<u8>)
    ensures
        bytes@ == encoded_manifest(*manifest),
        manifest_reading(bytes@) == Ok::<FileManifest, Seq<char>>(*manifest),
{
    let number: u32 = match manifest.kind {
        FileManifestKind::Write => 0,
        FileManifestKind::Truncate => 1,
        FileManifestKind::Delete => 2,
    };
    let mut bytes: Vec<u8> = encode_u64(manifest.version);
    let kind: Vec<u8> = encode_u32(number);
    let size: Vec<u8> = encode_u64(manifest.size);
    let ghost first = bytes@;
    append_bytes(&mut bytes, kind.as_slice());
    append_bytes(&mut bytes, size.as_slice());
    proof {
        assert(bytes@ =~= first + (kind@ + size@));
        assert(size@ + Seq::<u8>::empty() =~= size@);
        codec::law_u64_reads_back(manifest.version, kind@ + size@);
        codec::law_u32_reads_back(number, size@);
        codec::law_u64_reads_back(manifest.size, Seq::empty());
    }
    bytes
}

/// Gives the number of a stored kind its meaning.
pub fn manifest_kind_from_number(number: u32) -> (kind: Option<FileManifestKind>)
    ensures
        kind == kind_of_number(number),
{
    if number == 0 {
        Some(FileManifestKind::Write)
    } else if number == 1 {
        Some(FileManifestKind::Truncate)
    } else if number == 2 {
        Some(FileManifestKind::Delete)
    } else {
        None
    }
}

/// Decodes a manifest.
pub fn decode_manifest(bytes: &[u8]) -> (manifest: Result<FileManifest, String>)
    ensures
        match manifest {
            Ok(read) => manifest_reading(bytes@) == Ok::<FileManifest, Seq<char>>(read),
            Err(text) => manifest_reading(bytes@) == Err::<FileManifest, Seq<char>>(text@),
        },
{
    let (version, tail) = match take_u64(bytes) {
        Ok(read) => read,
        Err(text) => return Err(text),
    };
    let (number, rest) = match take_u32(tail.as_slice()) {
        Ok(read) => read,
        Err(text) => return Err(text),
    };
    let kind = match manifest_kind_from_number(number) {
        Some(kind) => kind,
        None => return Err("Serde Deserialization Error".to_owned()),
    };
    match take_u64(rest.as_slice()) {
        Ok((size, _)) => Ok(FileManifest { version, kind, size }),
        Err(text) => Err(text),
    }
}

} // verus!
