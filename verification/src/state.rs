//! The names under which a node keeps its databases, and its watermarks.

use vstd::prelude::*;
use vstd::slice::*;
use vstd::string::*;
use vstd::utf8::*;

use crate::bytes;
use crate::bytes::append_bytes;
use crate::bytes::copy_bytes;
use crate::bytes::read_u64_be;
use crate::hlc;
use crate::hlc::decode_timestamp;
use crate::hlc::HybridTimestamp;
use crate::ordered;
use crate::ordered::put_text;
use crate::text::text_from_utf8;

verus! {

broadcast use {group_string_axioms, group_slice_axioms};

/// Whether a byte may stand in a database's name: a letter, a digit, `-`, `_` or `.`.
pub open spec fn is_name_byte(byte: u8) -> bool {
    ||| 48 <= byte <= 57
    ||| 65 <= byte <= 90
    ||| 97 <= byte <= 122
    ||| byte == 45
    ||| byte == 95
    ||| byte == 46
}

fn may_stand_in_name(byte: u8) -> (may: bool)
    ensures
        may == is_name_byte(byte),
{
    (48 <= byte && byte <= 57) || (65 <= byte && byte <= 90) || (97 <= byte && byte <= 122) || byte
        == 45 || byte == 95 || byte == 46
}

/// Whether every byte may stand in a database's name.
pub open spec fn all_name_bytes(bytes: Seq<u8>) -> bool {
    forall|i: int| 0 <= i < bytes.len() ==> is_name_byte(#[trigger] bytes[i])
}

/// Whether a text is a database's name.
pub open spec fn is_database_name(name: Seq<u8>) -> bool {
    name.len() > 0 && all_name_bytes(name)
}

/// Why a text is no database's name.
pub open spec fn name_refusal(name: Seq<u8>) -> Option<Seq<char>> {
    if name.len() == 0 {
        Some("sqlite database name must not be empty"@)
    } else if !all_name_bytes(name) {
        Some("sqlite database name contains unsupported characters"@)
    } else {
        None
    }
}

/// Whether a text is a database's name.
pub fn validate_sqlite_database_name(database: &str) -> (valid: Result<(), String>)
    ensures
        match name_refusal(bytes::text(database)) {
            None => valid is Ok,
            Some(refusal) => valid matches Err(message) && message@ == refusal,
        },
{
    let name = database.as_bytes();
    if name.len() == 0 {
        return Err("sqlite database name must not be empty".to_owned());
    }
    let mut i: usize = 0;
    while i < name.len()
        invariant
            i <= name.len(),
            name@ == bytes::text(database),
            name@.len() > 0,
            forall|k: int| 0 <= k < i ==> is_name_byte(#[trigger] name@[k]),
        decreases name.len() - i,
    {
        if !may_stand_in_name(name[i]) {
            assert(!is_name_byte(name@[i as int]));
            return Err("sqlite database name contains unsupported characters".to_owned());
        }
        i = i + 1;
    }
    Ok(())
}

/// The byte that stands for a byte in a path.
pub open spec fn path_byte(byte: u8) -> u8 {
    if is_name_byte(byte) {
        byte
    } else {
        95
    }
}

/// The bytes that stand for a text in a path.
pub open spec fn path_bytes(text: Seq<u8>) -> Seq<u8> {
    Seq::new(text.len(), |i: int| path_byte(text[i]))
}

/// The characters that stand for a text in a path: one for each byte, and `_` for
/// every byte that may not stand there.
pub open spec fn path_segment(text: Seq<u8>) -> Seq<char> {
    Seq::new(text.len(), |i: int| path_byte(text[i]) as char)
}

/// The text that stands for another one in a path.
pub fn sanitize_path_segment(value: &str) -> (segment: String)
    ensures
        segment@ == path_segment(bytes::text(value)),
        encode_utf8(segment@) == path_bytes(bytes::text(value)),
{
    let bytes = value.as_bytes();
    let mut segment: String = String::new();
    let mut i: usize = 0;
    while i < bytes.len()
        invariant
            i <= bytes.len(),
            segment@.len() == i,
            forall|k: int|
                0 <= k < i ==> #[trigger] segment@[k] == path_byte(bytes@[k]) as char,
        decreases bytes.len() - i,
    {
        let byte: u8 = bytes[i];
        if may_stand_in_name(byte) {
            segment.push(byte as char);
        } else {
            segment.push('_');
        }
        i = i + 1;
    }
    proof {
        assert(segment@ =~= path_segment(bytes@));
        assert forall|k: int| 0 <= k < segment@.len() implies #[trigger] segment@[k] as u32
            == path_byte(bytes@[k]) as u32 && (segment@[k] as u32) < 128 by {}
        is_ascii_chars_encode_utf8(segment@);
        assert(encode_utf8(segment@) =~= path_bytes(bytes@));
    }
    segment
}

/// Where a database's own store lies, below the path of the node's store.
pub open spec fn database_path_of(path: Seq<char>, database: Seq<u8>) -> Seq<char> {
    path + "__sqlite/databases/"@ + path_segment(database) + "/state"@
}

/// Where a database's own store lies, below the path of the node's store.
pub fn sqlite_database_path(path: &str, database: &str) -> (child: String)
    ensures
        child@ == database_path_of(path@, bytes::text(database)),
{
    let mut child: String = path.to_owned();
    child.append("__sqlite/databases/");
    child.append(sanitize_path_segment(database).as_str());
    child.append("/state");
    child
}

/// The record that marks a database as known.
pub open spec fn marker_key_of(database: Seq<u8>) -> Seq<u8> {
    bytes::text("sys/sqlite_databases/") + path_bytes(database)
}

/// The record that marks a database as ready.
pub open spec fn ready_key_of(database: Seq<u8>) -> Seq<u8> {
    bytes::text("sys/sqlite_database_ready/") + path_bytes(database)
}

/// The record that marks a database as known.
pub fn sqlite_database_marker_key(database: &str) -> (key: Vec<u8>)
    ensures
        key@ == marker_key_of(bytes::text(database)),
{
    let mut key: Vec<u8> = copy_bytes("sys/sqlite_databases/".as_bytes());
    append_bytes(&mut key, sanitize_path_segment(database).as_str().as_bytes());
    key
}

/// The record that marks a database as ready.
pub fn sqlite_database_ready_key(database: &str) -> (key: Vec<u8>)
    ensures
        key@ == ready_key_of(bytes::text(database)),
{
    let mut key: Vec<u8> = copy_bytes("sys/sqlite_database_ready/".as_bytes());
    append_bytes(&mut key, sanitize_path_segment(database).as_str().as_bytes());
    key
}

/// Why a marker's value names no database.
pub open spec fn marker_refusal(value: Seq<u8>) -> Option<Seq<char>> {
    if !valid_utf8(value) {
        Some("invalid sqlite database marker value"@)
    } else {
        name_refusal(value)
    }
}

/// Whether one of the first so many markers names a database.
pub open spec fn is_marked(values: Seq<Vec<u8>>, upto: int, name: Seq<char>) -> bool {
    exists|i: int| 0 <= i < upto && decode_utf8((#[trigger] values[i])@) == name
}

/// The databases that markers name, each once, in ascending order. The first marker
/// that names none is refused.
pub fn list_sqlite_databases(values: &Vec<Vec<u8>>) -> (names: Result<Vec<String>, String>)
    ensures
        match names {
            Ok(list) => (forall|i: int|
                0 <= i < values@.len() ==> marker_refusal((#[trigger] values@[i])@) is None)
                && ordered::ordered_texts(list@) && (forall|name: Seq<char>| #[trigger]
                ordered::lists_text(list@, name) <==> is_marked(
                    values@,
                    values@.len() as int,
                    name,
                )),
            Err(message) => exists|n: int|
                0 <= n < values@.len() && marker_refusal((#[trigger] values@[n])@) == Some(message@)
                    && forall|i: int|
                    0 <= i < n ==> marker_refusal((#[trigger] values@[i])@) is None,
        },
        names matches Ok(list) ==> forall|i: int|
            0 <= i < values@.len() ==> ordered::lists_text(
                list@,
                decode_utf8((#[trigger] values@[i])@),
            ),
        names matches Ok(list) ==> forall|name: Seq<char>|
            (forall|i: int|
                0 <= i < values@.len() ==> decode_utf8((#[trigger] values@[i])@) != name)
                ==> !#[trigger] ordered::lists_text(list@, name),
{
    let mut names: Vec<String> = Vec::new();
    let mut i: usize = 0;
    while i < values.len()
        invariant
            i <= values.len(),
            forall|k: int| 0 <= k < i ==> marker_refusal((#[trigger] values@[k])@) is None,
            ordered::ordered_texts(names@),
            forall|name: Seq<char>| #[trigger]
                ordered::lists_text(names@, name) <==> is_marked(values@, i as int, name),
        decreases values.len() - i,
    {
        match text_from_utf8(values[i].as_slice()) {
            None => {
                assert(marker_refusal(values@[i as int]@) is Some);
                return Err("invalid sqlite database marker value".to_owned());
            },
            Some(name) => {
                proof {
                    decode_utf8_encode_utf8(values@[i as int]@);
                }
                match validate_sqlite_database_name(name.as_str()) {
                    Err(message) => {
                        assert(marker_refusal(values@[i as int]@) == Some(message@));
                        return Err(message);
                    },
                    Ok(()) => {
                        let ghost before = names@;
                        let ghost added = name@;
                        put_text(&mut names, name);
                        assert forall|wanted: Seq<char>| #[trigger]
                            ordered::lists_text(names@, wanted) <==> is_marked(
                            values@,
                            i + 1,
                            wanted,
                        ) by {
                            if is_marked(values@, i as int, wanted) {
                                let k = choose|k: int|
                                    0 <= k < i && decode_utf8((#[trigger] values@[k])@) == wanted;
                                assert(decode_utf8(values@[k]@) == wanted);
                            }
                            if wanted == added {
                                assert(decode_utf8(values@[i as int]@) == wanted);
                            }
                            if is_marked(values@, i + 1, wanted) {
                                let k = choose|k: int|
                                    0 <= k < i + 1 && decode_utf8((#[trigger] values@[k])@)
                                        == wanted;
                                if k < i {
                                    assert(is_marked(values@, i as int, wanted));
                                }
                            }
                            assert(ordered::lists_text(before, wanted) == is_marked(
                                values@,
                                i as int,
                                wanted,
                            ));
                        }
                    },
                }
            },
        }
        i = i + 1;
    }
    Ok(names)
}

/// The index up to which the log is applied: zero before anything is.
pub fn applied_index(record: &Option<Vec<u8>>) -> (index: Result<u64, String>)
    ensures
        match *record {
            None => index == Ok::<u64, String>(0u64),
            Some(bytes) => if bytes@.len() == 8 {
                index == Ok::<u64, String>(bytes::be_value(bytes@) as u64)
            } else {
                index matches Err(message) && message@ == "invalid applied index watermark"@
            },
        },
{
    match record {
        None => Ok(0),
        Some(bytes) => match read_u64_be(bytes.as_slice()) {
            Some(index) => Ok(index),
            None => Err("invalid applied index watermark".to_owned()),
        },
    }
}

/// When the last applied request was committed, if one was applied.
pub fn applied_commit_timestamp(record: &Option<Vec<u8>>) -> (committed: Result<
    Option<HybridTimestamp>,
    String,
>)
    ensures
        match *record {
            None => committed matches Ok(None),
            Some(bytes) => match committed {
                Ok(read) => read matches Some(timestamp) && hlc::timestamp_decoding(bytes@) == Ok::<
                    (u64, u32),
                    Seq<char>,
                >((timestamp.physical_ms, timestamp.logical)),
                Err(text) => hlc::timestamp_decoding(bytes@) == Err::<(u64, u32), Seq<char>>(text@),
            },
        },
{
    match record {
        None => Ok(None),
        Some(bytes) => match decode_timestamp(bytes.as_slice()) {
            Ok(timestamp) => Ok(Some(timestamp)),
            Err(text) => Err(text),
        },
    }
}

/// The names of databases stand for themselves in paths and keys, so different
/// databases have different markers, and different stores.
pub proof fn law_databases_keep_apart(path: Seq<char>, database: Seq<u8>, other: Seq<u8>)
    requires
        is_database_name(database),
        is_database_name(other),
    ensures
        path_bytes(database) == database,
        marker_key_of(database) == marker_key_of(other) ==> database == other,
        ready_key_of(database) == ready_key_of(other) ==> database == other,
        marker_key_of(database) != ready_key_of(other),
        database_path_of(path, database) == database_path_of(path, other) ==> database == other,
{
    assert(path_bytes(database) =~= database);
    assert(path_bytes(other) =~= other);
    let marker = bytes::text("sys/sqlite_databases/");
    let ready = bytes::text("sys/sqlite_database_ready/");
    assert(marker_key_of(database).skip(marker.len() as int) =~= database);
    assert(marker_key_of(other).skip(marker.len() as int) =~= other);
    assert(ready_key_of(database).skip(ready.len() as int) =~= database);
    assert(ready_key_of(other).skip(ready.len() as int) =~= other);
    reveal_strlit("sys/sqlite_databases/");
    reveal_strlit("sys/sqlite_database_ready/");
    assert(is_ascii("sys/sqlite_databases/"));
    assert(is_ascii("sys/sqlite_database_ready/"));
    assert(marker_key_of(database)[19] == 115);
    assert(ready_key_of(other)[19] == 95);
    if database_path_of(path, database) == database_path_of(path, other) {
        let front = path + "__sqlite/databases/"@;
        let one = database_path_of(path, database);
        let two = database_path_of(path, other);
        assert(one.len() == two.len());
        assert forall|i: int| 0 <= i < database.len() implies database[i] == other[i] by {
            assert(one[front.len() + i] == path_byte(database[i]) as char);
            assert(two[front.len() + i] == path_byte(other[i]) as char);
            assert((path_byte(database[i]) as char) as u32 == path_byte(database[i]) as u32);
            assert((path_byte(other[i]) as char) as u32 == path_byte(other[i]) as u32);
        }
        assert(database =~= other);
    }
}

} // verus!
