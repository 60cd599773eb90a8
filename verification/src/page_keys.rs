//! The keys under which the pages of a database file are stored.
//!
//! A file has one size record, one record per current page, one manifest record
//! per version and one record naming the latest manifest:
//!
//! ```text
//! sqlite/pages/<database>/<path>/size
//! sqlite/pages/<database>/<path>/current/<page>
//! sqlite/pages/<database>/<path>/manifests/<version>
//! sqlite/pages/<database>/<path>/latest_manifest
//! ```

use vstd::prelude::*;
use vstd::slice::*;
use vstd::string::*;
use vstd::utf8::*;

use crate::bytes;
use crate::bytes::append_bytes;
use crate::bytes::append_decimal20;
use crate::bytes::copy_bytes;
use crate::bytes::copy_range;
use crate::bytes::ends_with;
use crate::bytes::find_subslice;
use crate::bytes::parse_u64;
use crate::bytes::read_u64_be;
use crate::bytes::starts_with;
use crate::commit::FileKind;
use crate::text::text_from_utf8;

verus! {

broadcast use {group_string_axioms, group_slice_axioms};

/// The prefix of every page record.
pub open spec fn page_prefix() -> Seq<u8> {
    bytes::text("sqlite/pages/")
}

/// The position of the first slash, or the length where there is none.
pub open spec fn first_slash(path: Seq<u8>) -> int
    decreases path.len(),
{
    if path.len() == 0 || path[0] == 47 {
        0
    } else {
        1 + first_slash(path.skip(1))
    }
}

/// Whether a part of a path names an entry: not empty, `.` or `..`.
pub open spec fn is_normal_part(part: Seq<u8>) -> bool {
    part.len() > 0 && part != seq![46u8] && part != seq![46u8, 46u8]
}

/// What follows the first part of a path and its slash.
pub open spec fn after_first_part(path: Seq<u8>) -> Seq<u8> {
    if first_slash(path) < path.len() {
        path.skip(first_slash(path) + 1)
    } else {
        Seq::empty()
    }
}

/// The first slash of a path, and what comes before it.
pub proof fn lemma_first_slash_bound(path: Seq<u8>)
    ensures
        0 <= first_slash(path) <= path.len(),
        forall|k: int| 0 <= k < first_slash(path) ==> path[k] != 47,
        first_slash(path) < path.len() ==> path[first_slash(path)] == 47,
    decreases path.len(),
{
    if path.len() > 0 && path[0] != 47 {
        lemma_first_slash_bound(path.skip(1));
        assert forall|k: int| 0 <= k < first_slash(path) implies path[k] != 47 by {
            if k > 0 {
                assert(path[k] == path.skip(1)[k - 1]);
            }
        }
    }
}

/// The named parts of a path, each followed by a slash.
pub open spec fn joined_parts(path: Seq<u8>) -> Seq<u8>
    decreases path.len(),
{
    if path.len() == 0 {
        Seq::empty()
    } else {
        proof {
            lemma_first_slash_bound(path);
        }
        let part = path.take(first_slash(path));
        (if is_normal_part(part) {
            part.push(47u8)
        } else {
            Seq::empty()
        }) + joined_parts(after_first_part(path))
    }
}

/// The prefix of every page record of a database.
pub open spec fn database_prefix_of(database: Seq<u8>) -> Seq<u8> {
    page_prefix() + database + bytes::text("/")
}

/// The prefix of every record of a file.
pub open spec fn file_prefix_of(database: Seq<u8>, path: Seq<u8>) -> Seq<u8> {
    database_prefix_of(database) + joined_parts(path)
}

/// The size record of the file with this prefix.
pub open spec fn size_key_of(file_prefix: Seq<u8>) -> Seq<u8> {
    file_prefix + bytes::text("size")
}

/// The prefix of the page records of the file with this prefix.
pub open spec fn current_prefix_of(file_prefix: Seq<u8>) -> Seq<u8> {
    file_prefix + bytes::text("current/")
}

/// The record of one page of the file with this prefix.
pub open spec fn current_key_of(file_prefix: Seq<u8>, page_index: u64) -> Seq<u8> {
    current_prefix_of(file_prefix) + bytes::decimal20(page_index)
}

/// The manifest record of one version of the file with this prefix.
pub open spec fn manifest_key_of(file_prefix: Seq<u8>, version: u64) -> Seq<u8> {
    file_prefix + bytes::text("manifests/") + bytes::decimal20(version)
}

/// The record that names the latest manifest of the file with this prefix.
pub open spec fn latest_manifest_key_of(file_prefix: Seq<u8>) -> Seq<u8> {
    file_prefix + bytes::text("latest_manifest")
}

/// Where the path of a file starts in a key: behind the name of the database. A key
/// that names no database is all path.
pub open spec fn path_start(key: Seq<u8>) -> int {
    let named = key.skip(page_prefix().len() as int);
    if bytes::has_prefix(key, page_prefix()) && first_slash(named) < named.len() {
        page_prefix().len() + first_slash(named) + 1
    } else {
        0
    }
}

/// Splits a key at the first occurrence of a marker behind the name of the database,
/// and reads the number behind the marker.
pub open spec fn split_numbered_key(key: Seq<u8>, marker: Seq<u8>) -> Option<(Seq<u8>, u64)> {
    match bytes::first_occurrence(key.skip(path_start(key)), marker) {
        None => None,
        Some(at) => match bytes::parsed_u64(key.skip(path_start(key) + at + marker.len())) {
            None => None,
            Some(number) => Some((key.take(path_start(key) + at), number)),
        },
    }
}

/// The file prefix and page that a page record's key names.
pub open spec fn current_key_parts(key: Seq<u8>) -> Option<(Seq<u8>, u64)> {
    split_numbered_key(key, bytes::text("current/"))
}

/// The file prefix and version that a manifest record's key names.
pub open spec fn manifest_key_parts(key: Seq<u8>) -> Option<(Seq<u8>, u64)> {
    split_numbered_key(key, bytes::text("manifests/"))
}

/// The file prefix of the record that names the latest manifest.
pub open spec fn latest_manifest_file(key: Seq<u8>) -> Option<Seq<u8>> {
    if bytes::has_suffix(key, bytes::text("latest_manifest")) {
        Some(key.take(key.len() - bytes::text("latest_manifest").len()))
    } else {
        None
    }
}

/// The page that a key under `prefix` names.
pub open spec fn index_under(prefix: Seq<u8>, key: Seq<u8>) -> Option<u64> {
    if bytes::has_prefix(key, prefix) {
        bytes::parsed_u64(key.skip(prefix.len() as int))
    } else {
        None
    }
}

/// The message for a metadata record that does not hold eight bytes.
pub open spec fn invalid_metadata(label: Seq<char>) -> Seq<char> {
    "invalid SQLite "@ + label + " metadata"@
}

/// The path that the prefix of a database's file stands for.
pub open spec fn path_of_prefix(database: Seq<u8>, file_prefix: Seq<u8>) -> Option<Seq<char>> {
    if bytes::has_prefix(file_prefix, database_prefix_of(database)) {
        let tail = file_prefix.skip(database_prefix_of(database).len() as int);
        let path = if tail.len() > 0 && tail.last() == 47 {
            tail.drop_last()
        } else {
            tail
        };
        if valid_utf8(path) {
            Some(decode_utf8(path))
        } else {
            None
        }
    } else {
        None
    }
}

/// Appends the named parts of a path, each followed by a slash.
pub fn append_normal_parts(key: &mut Vec<u8>, path: &[u8])
    ensures
        final(key)@ == old(key)@ + joined_parts(path@),
{
    let mut start: usize = 0;
    assert(path@.skip(0) =~= path@);
    while start < path.len()
        invariant
            start <= path.len(),
            key@ + joined_parts(path@.skip(start as int)) == old(key)@ + joined_parts(path@),
        decreases path.len() - start,
    {
        let ghost rest = path@.skip(start as int);
        let mut end: usize = start;
        while end < path.len() && path[end] != 47
            invariant
                start <= end <= path.len(),
                rest == path@.skip(start as int),
                forall|k: int| 0 <= k < end - start ==> rest[k] != 47,
            decreases path.len() - end,
        {
            assert(rest[end - start] == path@[end as int]);
            end = end + 1;
        }
        let part = slice_subrange(path, start, end);
        proof {
            lemma_first_slash_bound(rest);
            assert(first_slash(rest) == end - start) by {
                if first_slash(rest) < end - start {
                    assert(rest[first_slash(rest)] == 47);
                }
                if end - start < first_slash(rest) {
                    assert(rest[end - start] == path@[end as int]);
                }
            }
            assert(part@ =~= rest.take(end - start));
        }
        let ghost before = key@;
        if is_named_part(part) {
            append_bytes(key, part);
            key.push(47);
            assert(key@ =~= before + part@.push(47u8));
        } else {
            assert(key@ =~= before + Seq::<u8>::empty());
        }
        let next: usize = if end < path.len() {
            end + 1
        } else {
            end
        };
        proof {
            assert(after_first_part(rest) =~= path@.skip(next as int));
            assert(key@ + joined_parts(path@.skip(next as int)) =~= before + joined_parts(rest));
        }
        start = next;
    }
    assert(path@.skip(start as int) =~= Seq::empty());
    assert(key@ =~= key@ + joined_parts(Seq::empty()));
}

/// Whether a part of a path names an entry.
fn is_named_part(part: &[u8]) -> (named: bool)
    ensures
        named == is_normal_part(part@),
{
    if part.len() == 0 {
        return false;
    }
    let dot: bool = part.len() == 1 && part[0] == 46;
    let dots: bool = part.len() == 2 && part[0] == 46 && part[1] == 46;
    proof {
        assert(dot == (part@ == seq![46u8])) by {
            if dot {
                assert(part@ =~= seq![46u8]);
            }
        }
        assert(dots == (part@ == seq![46u8, 46u8])) by {
            if dots {
                assert(part@ =~= seq![46u8, 46u8]);
            }
        }
    }
    !dot && !dots
}

/// The prefix of every page record, whatever its database.
pub fn all_pages_prefix() -> (key: Vec<u8>)
    ensures
        key@ == page_prefix(),
{
    copy_bytes("sqlite/pages/".as_bytes())
}

/// The prefix of every page record of a database.
pub fn database_pages_prefix(database: &str) -> (key: Vec<u8>)
    ensures
        key@ == database_prefix_of(bytes::text(database)),
{
    let mut key: Vec<u8> = copy_bytes("sqlite/pages/".as_bytes());
    append_bytes(&mut key, database.as_bytes());
    append_bytes(&mut key, "/".as_bytes());
    key
}

/// The prefix of every record of a file.
pub fn page_file_prefix(database: &str, path: &str) -> (key: Vec<u8>)
    ensures
        key@ == page_prefix() + bytes::text(database) + bytes::text("/") + joined_parts(
            bytes::text(path),
        ),
        key@ == file_prefix_of(bytes::text(database), bytes::text(path)),
{
    let mut key: Vec<u8> = database_pages_prefix(database);
    append_normal_parts(&mut key, path.as_bytes());
    key
}

/// The size record of a file, by the file's prefix.
pub fn size_key_from_file_prefix(file_prefix: &[u8]) -> (key: Vec<u8>)
    ensures
        key@ == size_key_of(file_prefix@),
{
    let mut key: Vec<u8> = copy_bytes(file_prefix);
    append_bytes(&mut key, "size".as_bytes());
    key
}

/// The size record of a file.
pub fn size_key(database: &str, path: &str) -> (key: Vec<u8>)
    ensures
        key@ == size_key_of(file_prefix_of(bytes::text(database), bytes::text(path))),
{
    size_key_from_file_prefix(page_file_prefix(database, path).as_slice())
}

/// The prefix of the page records of a file, by the file's prefix.
pub fn current_pages_prefix_from_file_prefix(file_prefix: &[u8]) -> (key: Vec<u8>)
    ensures
        key@ == current_prefix_of(file_prefix@),
{
    let mut key: Vec<u8> = copy_bytes(file_prefix);
    append_bytes(&mut key, "current/".as_bytes());
    key
}

/// The prefix of the page records of a file.
pub fn current_pages_prefix(database: &str, path: &str) -> (key: Vec<u8>)
    ensures
        key@ == current_prefix_of(file_prefix_of(bytes::text(database), bytes::text(path))),
{
    current_pages_prefix_from_file_prefix(page_file_prefix(database, path).as_slice())
}

/// The record of one page, by the file's prefix.
pub fn current_page_key_from_file_prefix(file_prefix: &[u8], page_index: u64) -> (key: Vec<u8>)
    ensures
        key@ == current_key_of(file_prefix@, page_index),
{
    let mut key: Vec<u8> = current_pages_prefix_from_file_prefix(file_prefix);
    append_decimal20(&mut key, page_index);
    key
}

/// The record of one page.
pub fn current_page_key(database: &str, path: &str, page_index: u64) -> (key: Vec<u8>)
    ensures
        key@ == current_key_of(file_prefix_of(bytes::text(database), bytes::text(path)), page_index),
{
    current_page_key_from_file_prefix(page_file_prefix(database, path).as_slice(), page_index)
}

/// The manifest record of one version, by the file's prefix.
pub fn file_manifest_key_from_file_prefix(file_prefix: &[u8], version: u64) -> (key: Vec<u8>)
    ensures
        key@ == manifest_key_of(file_prefix@, version),
{
    let mut key: Vec<u8> = copy_bytes(file_prefix);
    append_bytes(&mut key, "manifests/".as_bytes());
    append_decimal20(&mut key, version);
    key
}

/// The manifest record of one version of a file.
pub fn file_manifest_key(database: &str, path: &str, version: u64) -> (key: Vec<u8>)
    ensures
        key@ == manifest_key_of(file_prefix_of(bytes::text(database), bytes::text(path)), version),
{
    file_manifest_key_from_file_prefix(page_file_prefix(database, path).as_slice(), version)
}

/// The record that names the latest manifest, by the file's prefix.
pub fn latest_manifest_key_from_file_prefix(file_prefix: &[u8]) -> (key: Vec<u8>)
    ensures
        key@ == latest_manifest_key_of(file_prefix@),
{
    let mut key: Vec<u8> = copy_bytes(file_prefix);
    append_bytes(&mut key, "latest_manifest".as_bytes());
    key
}

/// The record that names the latest manifest of a file.
pub fn latest_manifest_key(database: &str, path: &str) -> (key: Vec<u8>)
    ensures
        key@ == latest_manifest_key_of(file_prefix_of(bytes::text(database), bytes::text(path))),
{
    latest_manifest_key_from_file_prefix(page_file_prefix(database, path).as_slice())
}

/// Finds where the path of a file starts in a key.
fn find_path_start(key: &[u8]) -> (start: usize)
    ensures
        start == path_start(key@),
        start <= key.len(),
{
    let prefix = "sqlite/pages/".as_bytes();
    if !starts_with(key, prefix) {
        return 0;
    }
    let ghost named = key@.skip(prefix@.len() as int);
    proof {
        lemma_first_slash_bound(named);
    }
    let mut end: usize = prefix.len();
    while end < key.len() && key[end] != 47
        invariant
            prefix@.len() <= end <= key.len(),
            named == key@.skip(prefix@.len() as int),
            forall|k: int| 0 <= k < end - prefix@.len() ==> named[k] != 47,
        decreases key.len() - end,
    {
        assert(named[end - prefix@.len()] == key@[end as int]);
        end = end + 1;
    }
    proof {
        let at = end - prefix@.len();
        if first_slash(named) < at {
            assert(named[first_slash(named)] == 47);
        }
        if at < first_slash(named) {
            assert(named[at] == key@[end as int]);
        }
    }
    if end < key.len() {
        end + 1
    } else {
        0
    }
}

fn parse_numbered_key(key: &[u8], marker: &[u8]) -> (parts: Option<(Vec<u8>, u64)>)
    requires
        marker.len() > 0,
    ensures
        parts is Some <==> split_numbered_key(key@, marker@) is Some,
        parts matches Some((file_prefix, number)) ==> split_numbered_key(key@, marker@) == Some(
            (file_prefix@, number),
        ),
{
    let start: usize = find_path_start(key);
    let end: usize = key.len();
    let path = slice_subrange(key, start, end);
    assert(path@ =~= key@.skip(start as int));
    match find_subslice(path, marker) {
        None => None,
        Some(at) => {
            let tail = slice_subrange(key, start + at + marker.len(), end);
            assert(tail@ =~= key@.skip(start + at + marker.len()));
            match parse_u64(tail) {
                None => None,
                Some(number) => {
                    let file_prefix: Vec<u8> = copy_range(key, 0, start + at);
                    assert(file_prefix@ =~= key@.take(start + at));
                    Some((file_prefix, number))
                },
            }
        },
    }
}

/// Reads the file prefix and page out of a page record's key.
pub fn parse_current_page_key(key: &[u8]) -> (parts: Option<(Vec<u8>, u64)>)
    ensures
        parts is Some <==> current_key_parts(key@) is Some,
        parts matches Some((file_prefix, page)) ==> current_key_parts(key@) == Some(
            (file_prefix@, page),
        ),
{
    proof {
        lemma_markers();
    }
    parse_numbered_key(key, "current/".as_bytes())
}

/// Reads the file prefix and version out of a manifest record's key.
pub fn parse_file_manifest_key(key: &[u8]) -> (parts: Option<(Vec<u8>, u64)>)
    ensures
        parts is Some <==> manifest_key_parts(key@) is Some,
        parts matches Some((file_prefix, version)) ==> manifest_key_parts(key@) == Some(
            (file_prefix@, version),
        ),
{
    proof {
        lemma_markers();
    }
    parse_numbered_key(key, "manifests/".as_bytes())
}

/// Reads the file prefix and version out of the record that names the latest
/// manifest. Another key gives `None`; a value that is not eight bytes is an error.
pub fn parse_latest_manifest_key(key: &[u8], value: &[u8]) -> (parts: Result<
    Option<(Vec<u8>, u64)>,
    String,
>)
    ensures
        parts matches Err(message) ==> latest_manifest_file(key@) is Some && value.len() != 8
            && message@ == invalid_metadata("latest manifest version"@),
        parts matches Ok(None) ==> latest_manifest_file(key@) is None,
        parts matches Ok(Some((file_prefix, version))) ==> latest_manifest_file(key@) == Some(
            file_prefix@,
        ) && value@ == bytes::u64_be(version) && value.len() == 8,
{
    let marker = "latest_manifest".as_bytes();
    if !ends_with(key, marker) {
        return Ok(None);
    }
    let file_prefix: Vec<u8> = copy_range(key, 0, key.len() - marker.len());
    assert(file_prefix@ =~= key@.take(key@.len() - marker@.len()));
    match u64_from_be_bytes(value, "latest manifest version") {
        Err(message) => Err(message),
        Ok(version) => Ok(Some((file_prefix, version))),
    }
}

/// Reads an eight-byte record.
pub fn u64_from_be_bytes(bytes: &[u8], label: &str) -> (value: Result<u64, String>)
    ensures
        value is Ok <==> bytes.len() == 8,
        value matches Ok(n) ==> bytes@ == bytes::u64_be(n) && n == bytes::be_value(
            bytes@,
        ),
        value matches Err(message) ==> message@ == invalid_metadata(label@),
{
    match read_u64_be(bytes) {
        Some(n) => Ok(n),
        None => {
            let mut message: String = "invalid SQLite ".to_owned();
            message.append(label);
            message.append(" metadata");
            Err(message)
        },
    }
}

/// Reads the page out of a key under the prefix of a file's page records.
pub fn page_index_from_key(prefix: &[u8], key: &[u8]) -> (index: Option<u64>)
    ensures
        index == index_under(prefix@, key@),
{
    if starts_with(key, prefix) {
        let tail = slice_subrange(key, prefix.len(), key.len());
        assert(tail@ =~= key@.skip(prefix@.len() as int));
        parse_u64(tail)
    } else {
        None
    }
}

/// The path that the prefix of a database's file stands for.
pub fn file_path_from_file_prefix(database: &str, file_prefix: &[u8]) -> (path: Option<String>)
    ensures
        path is Some <==> path_of_prefix(bytes::text(database), file_prefix@) is Some,
        path matches Some(text) ==> path_of_prefix(bytes::text(database), file_prefix@) == Some(
            text@,
        ),
{
    let prefix: Vec<u8> = database_pages_prefix(database);
    if !starts_with(file_prefix, prefix.as_slice()) {
        return None;
    }
    let tail = slice_subrange(file_prefix, prefix.len(), file_prefix.len());
    assert(tail@ =~= file_prefix@.skip(prefix@.len() as int));
    let end: usize = if tail.len() > 0 && tail[tail.len() - 1] == 47 {
        tail.len() - 1
    } else {
        tail.len()
    };
    let path = slice_subrange(tail, 0, end);
    proof {
        if end < tail@.len() {
            assert(path@ =~= tail@.drop_last());
        } else {
            assert(path@ =~= tail@);
        }
    }
    text_from_utf8(path)
}

/// The kind of a database file, by the end of its path.
pub open spec fn file_kind_by_path(path: Seq<u8>) -> FileKind {
    if bytes::has_suffix(path, bytes::text("-wal")) {
        FileKind::Wal
    } else if bytes::has_suffix(path, bytes::text("-journal")) {
        FileKind::Journal
    } else if bytes::has_suffix(path, bytes::text(".db")) {
        FileKind::MainDb
    } else {
        FileKind::Other
    }
}

/// The kind of a database file, by the end of its path.
pub fn sqlite_file_kind_from_path(path: &str) -> (kind: FileKind)
    ensures
        kind == file_kind_by_path(bytes::text(path)),
{
    let bytes = path.as_bytes();
    if ends_with(bytes, "-wal".as_bytes()) {
        FileKind::Wal
    } else if ends_with(bytes, "-journal".as_bytes()) {
        FileKind::Journal
    } else if ends_with(bytes, ".db".as_bytes()) {
        FileKind::MainDb
    } else {
        FileKind::Other
    }
}

/// The bytes of the markers that the keys are made of.
proof fn lemma_markers()
    ensures
        bytes::text("current/").len() == 8,
        bytes::text("manifests/").len() == 10,
        bytes::text("latest_manifest").len() == 15,
        bytes::text("size").len() == 4,
        bytes::text("current/")[0] == 99,
        bytes::text("manifests/")[0] == 109,
        bytes::text("latest_manifest")[0] == 108,
        bytes::text("size")[0] == 115,
{
    reveal_strlit("current/");
    reveal_strlit("manifests/");
    reveal_strlit("latest_manifest");
    reveal_strlit("size");
    assert(is_ascii("current/"));
    assert(is_ascii("manifests/"));
    assert(is_ascii("latest_manifest"));
    assert(is_ascii("size"));
}

/// The bytes of the markers that tell the records of different files apart.
pub proof fn lemma_marker_bytes()
    ensures
        bytes::text("current/") == seq![99u8, 117u8, 114u8, 114u8, 101u8, 110u8, 116u8, 47u8],
        bytes::text("manifests/").len() == 10,
        bytes::text("manifests/")[8] == 115,
        bytes::text("latest_manifest").len() == 15,
        bytes::text("latest_manifest")[14] == 116,
        bytes::text("size").len() == 4,
        bytes::text("size")[3] == 101,
{
    lemma_markers();
    reveal_strlit("current/");
    reveal_strlit("manifests/");
    reveal_strlit("latest_manifest");
    reveal_strlit("size");
    assert(is_ascii("current/"));
    assert(is_ascii("manifests/"));
    assert(is_ascii("latest_manifest"));
    assert(is_ascii("size"));
    assert(bytes::text("current/") =~= seq![
        99u8,
        117u8,
        114u8,
        114u8,
        101u8,
        110u8,
        116u8,
        47u8,
    ]);
}

/// The markers of the records that are not pages hold no slash but at their end.
pub proof fn lemma_tail_bytes()
    ensures
        forall|i: int| 0 <= i < 4 ==> #[trigger] bytes::text("size")[i] != 47,
        forall|i: int| 0 <= i < 15 ==> #[trigger] bytes::text("latest_manifest")[i] != 47,
        forall|i: int| 0 <= i < 9 ==> #[trigger] bytes::text("manifests/")[i] != 47,
{
    lemma_markers();
    reveal_strlit("manifests/");
    reveal_strlit("latest_manifest");
    reveal_strlit("size");
    assert(is_ascii("manifests/"));
    assert(is_ascii("latest_manifest"));
    assert(is_ascii("size"));
}

/// Page records of different pages have different keys, and a page record's key
/// names its page.
pub proof fn law_page_key_names_its_page(file_prefix: Seq<u8>, page: u64, other: u64)
    ensures
        index_under(current_prefix_of(file_prefix), current_key_of(file_prefix, page)) == Some(page),
        current_key_of(file_prefix, page) == current_key_of(file_prefix, other) ==> page == other,
{
    let prefix = current_prefix_of(file_prefix);
    bytes::lemma_decimal20_round_trip(page);
    bytes::lemma_decimal20_round_trip(other);
    let key = current_key_of(file_prefix, page);
    assert(key.subrange(0, prefix.len() as int) =~= prefix);
    assert(key.skip(prefix.len() as int) =~= bytes::decimal20(page));
    let other_key = current_key_of(file_prefix, other);
    assert(other_key.skip(prefix.len() as int) =~= bytes::decimal20(other));
}

/// The size record, the page records, the manifest records and the record of the
/// latest manifest of one file never share a key.
pub proof fn law_records_of_a_file_are_apart(file_prefix: Seq<u8>, page: u64, version: u64)
    ensures
        size_key_of(file_prefix) != current_key_of(file_prefix, page),
        size_key_of(file_prefix) != manifest_key_of(file_prefix, version),
        size_key_of(file_prefix) != latest_manifest_key_of(file_prefix),
        current_key_of(file_prefix, page) != manifest_key_of(file_prefix, version),
        current_key_of(file_prefix, page) != latest_manifest_key_of(file_prefix),
        manifest_key_of(file_prefix, version) != latest_manifest_key_of(file_prefix),
        !bytes::has_prefix(size_key_of(file_prefix), current_prefix_of(file_prefix)),
        !bytes::has_prefix(manifest_key_of(file_prefix, version), current_prefix_of(file_prefix)),
        !bytes::has_prefix(latest_manifest_key_of(file_prefix), current_prefix_of(file_prefix)),
{
    lemma_markers();
    let at = file_prefix.len() as int;
    assert(size_key_of(file_prefix)[at] == 115);
    assert(current_key_of(file_prefix, page)[at] == 99);
    assert(current_prefix_of(file_prefix)[at] == 99);
    assert(manifest_key_of(file_prefix, version)[at] == 109);
    assert(latest_manifest_key_of(file_prefix)[at] == 108);
    lemma_prefix_byte(size_key_of(file_prefix), current_prefix_of(file_prefix), at);
    lemma_prefix_byte(manifest_key_of(file_prefix, version), current_prefix_of(file_prefix), at);
    lemma_prefix_byte(latest_manifest_key_of(file_prefix), current_prefix_of(file_prefix), at);
}

proof fn lemma_prefix_byte(bytes: Seq<u8>, prefix: Seq<u8>, at: int)
    requires
        0 <= at < prefix.len(),
        0 <= at < bytes.len(),
    ensures
        bytes::has_prefix(bytes, prefix) ==> bytes[at] == prefix[at],
{
    if bytes::has_prefix(bytes, prefix) {
        assert(bytes.subrange(0, prefix.len() as int)[at] == prefix[at]);
    }
}

/// Whether a marker stands in the path of a file prefix followed by that marker
/// nowhere but at its end.
pub open spec fn marker_is_unambiguous(file_prefix: Seq<u8>, marker: Seq<u8>) -> bool {
    path_start(file_prefix) > 0 && forall|k: int|
        path_start(file_prefix) <= k < file_prefix.len() ==> !bytes::occurs_at(
            file_prefix + marker,
            marker,
            k,
        )
}

/// What follows a file prefix does not move the start of the path.
pub proof fn lemma_path_start_stays(file_prefix: Seq<u8>, tail: Seq<u8>)
    requires
        path_start(file_prefix) > 0,
    ensures
        path_start(file_prefix + tail) == path_start(file_prefix),
        path_start(file_prefix) <= file_prefix.len(),
{
    let key = file_prefix + tail;
    let skipped = page_prefix().len() as int;
    assert(file_prefix.len() >= skipped);
    assert(key.subrange(0, skipped) =~= file_prefix.subrange(0, skipped));
    let short = file_prefix.skip(skipped);
    let long = key.skip(skipped);
    lemma_first_slash_bound(short);
    lemma_first_slash_bound(long);
    let at = first_slash(short);
    assert(long[at] == short[at]);
    if first_slash(long) < at {
        assert(long[first_slash(long)] == short[first_slash(long)]);
    }
}

/// The path of a database's file starts behind the name of the database.
pub proof fn lemma_path_start_of_file(database: Seq<u8>, path: Seq<u8>)
    requires
        !database.contains(47u8),
    ensures
        path_start(database_prefix_of(database)) == database_prefix_of(database).len(),
        path_start(file_prefix_of(database, path)) == database_prefix_of(database).len(),
{
    let prefix = database_prefix_of(database);
    let skipped = page_prefix().len() as int;
    assert(prefix.subrange(0, skipped) =~= page_prefix());
    let named = prefix.skip(skipped);
    lemma_slash();
    assert(named =~= database.push(47u8));
    lemma_first_slash_bound(named);
    if first_slash(named) < database.len() {
        assert(database[first_slash(named)] == 47u8);
    }
    assert(named[database.len() as int] == 47u8);
    lemma_path_start_stays(prefix, joined_parts(path));
}

proof fn lemma_slash()
    ensures
        bytes::text("/") == seq![47u8],
{
    reveal_strlit("/");
    assert(is_ascii("/"));
    assert(bytes::text("/") =~= seq![47u8]);
}

proof fn lemma_split_numbered_key(file_prefix: Seq<u8>, marker: Seq<u8>, number: u64)
    requires
        marker.len() > 0,
        marker_is_unambiguous(file_prefix, marker),
    ensures
        split_numbered_key(file_prefix + marker + bytes::decimal20(number), marker) == Some(
            (file_prefix, number),
        ),
{
    let key = file_prefix + marker + bytes::decimal20(number);
    let start = path_start(file_prefix);
    assert(key =~= file_prefix + (marker + bytes::decimal20(number)));
    lemma_path_start_stays(file_prefix, marker + bytes::decimal20(number));
    let path = key.skip(start);
    let at = file_prefix.len() - start;
    assert(path.subrange(at, at + marker.len()) =~= marker);
    assert forall|k: int| 0 <= k < at implies !bytes::occurs_at(path, marker, k) by {
        if bytes::occurs_at(path, marker, k) {
            assert((file_prefix + marker).subrange(start + k, start + k + marker.len())
                =~= path.subrange(k, k + marker.len()));
            assert(bytes::occurs_at(file_prefix + marker, marker, start + k));
        }
    }
    bytes::lemma_first_occurrence(path, marker, at);
    bytes::lemma_decimal20_round_trip(number);
    assert(key.skip(start + at + marker.len()) =~= bytes::decimal20(number));
    assert(key.take(start + at) =~= file_prefix);
}

/// A page record's key reads back as its file and page, whatever the database is
/// called, unless the path of the file already holds the marker.
pub proof fn law_current_page_key_reads_back(file_prefix: Seq<u8>, page: u64)
    requires
        marker_is_unambiguous(file_prefix, bytes::text("current/")),
    ensures
        current_key_parts(current_key_of(file_prefix, page)) == Some((file_prefix, page)),
{
    lemma_markers();
    lemma_split_numbered_key(file_prefix, bytes::text("current/"), page);
}

/// A manifest record's key reads back as its file and version, whatever the database
/// is called, unless the path of the file already holds the marker.
pub proof fn law_manifest_key_reads_back(file_prefix: Seq<u8>, version: u64)
    requires
        marker_is_unambiguous(file_prefix, bytes::text("manifests/")),
    ensures
        manifest_key_parts(manifest_key_of(file_prefix, version)) == Some((file_prefix, version)),
{
    lemma_markers();
    lemma_split_numbered_key(file_prefix, bytes::text("manifests/"), version);
}

/// The key of the record that names the latest manifest reads back as its file.
pub proof fn law_latest_manifest_key_reads_back(file_prefix: Seq<u8>)
    ensures
        latest_manifest_file(latest_manifest_key_of(file_prefix)) == Some(file_prefix),
{
    let marker = bytes::text("latest_manifest");
    let key = latest_manifest_key_of(file_prefix);
    let at = file_prefix.len() as int;
    assert(key.subrange(at, at + marker.len()) =~= marker);
    assert(key.take(at) =~= file_prefix);
}

/// Whether a path is made of named parts joined by single slashes.
pub open spec fn is_normal_path(path: Seq<u8>) -> bool
    decreases path.len(),
{
    proof {
        lemma_first_slash_bound(path);
    }
    path.len() > 0 && is_normal_part(path.take(first_slash(path))) && (first_slash(path)
        == path.len() || is_normal_path(after_first_part(path)))
}

/// A plain path is kept, with a slash behind it.
pub proof fn lemma_joined_normal_path(path: Seq<u8>)
    requires
        is_normal_path(path),
    ensures
        joined_parts(path) == path.push(47u8),
    decreases path.len(),
{
    lemma_first_slash_bound(path);
    let cut = first_slash(path);
    if cut == path.len() {
        assert(path.take(cut) =~= path);
        assert(joined_parts(Seq::empty()) =~= Seq::<u8>::empty());
        assert(joined_parts(path) =~= path.push(47u8));
    } else {
        lemma_joined_normal_path(after_first_part(path));
        assert(path.take(cut).push(47u8) + path.skip(cut + 1) =~= path);
        assert(joined_parts(path) =~= path.push(47u8));
    }
}

/// The prefix of a file with a plain relative path gives that path back.
pub proof fn law_file_prefix_reads_back(database: Seq<u8>, path: &str)
    requires
        is_normal_path(bytes::text(path)),
    ensures
        path_of_prefix(database, file_prefix_of(database, bytes::text(path))) == Some(path@),
{
    let tail = bytes::text(path).push(47u8);
    lemma_joined_normal_path(bytes::text(path));
    let under = database_prefix_of(database);
    let prefix = file_prefix_of(database, bytes::text(path));
    assert(prefix.subrange(0, under.len() as int) =~= under);
    assert(prefix.skip(under.len() as int) =~= tail);
    assert(tail.drop_last() =~= bytes::text(path));
    encode_utf8_valid_utf8(path@);
    encode_utf8_decode_utf8(path@);
}

/// Two databases share no page record: names hold no slash, so that no key lies under
/// the prefixes of both.
pub proof fn law_databases_share_no_page(a: Seq<u8>, b: Seq<u8>, key: Seq<u8>)
    requires
        !a.contains(47u8),
        !b.contains(47u8),
        bytes::has_prefix(key, database_prefix_of(a)),
        bytes::has_prefix(key, database_prefix_of(b)),
    ensures
        a == b,
{
    lemma_slash();
    lemma_path_start_of_file(a, Seq::empty());
    lemma_path_start_of_file(b, Seq::empty());
    let under_a = database_prefix_of(a);
    let under_b = database_prefix_of(b);
    assert(key =~= under_a + key.skip(under_a.len() as int));
    assert(key =~= under_b + key.skip(under_b.len() as int));
    lemma_path_start_stays(under_a, key.skip(under_a.len() as int));
    lemma_path_start_stays(under_b, key.skip(under_b.len() as int));
    let skipped = page_prefix().len() as int;
    assert(a =~= under_a.subrange(skipped, under_a.len() - 1));
    assert(b =~= under_b.subrange(skipped, under_b.len() - 1));
}

} // verus!
