//! Checkpoints of a store: which objects they consist of, and how they are copied.

use vstd::prelude::*;
use vstd::slice::*;
use vstd::string::*;

use crate::bytes;
use crate::bytes::bytes_equal;
use crate::bytes::copy_bytes;
use crate::bytes::starts_with;
use crate::bytes::str_equal;
use crate::ordered;
use crate::ordered::put_text;
use crate::text;
use crate::text::append_number20;
use crate::text::trim_end_slashes;

verus! {

broadcast use {group_string_axioms, group_slice_axioms};

/// A checkpoint of a store, and where its objects lie.
#[derive(Debug, Clone, PartialEq, Eq)]
pub struct SlateDbCheckpointArtifact {
    pub db_path: String,
    pub checkpoint_id: String,
    pub checkpoint_manifest_id: u64,
    pub object_prefix: String,
}

/// One object of a checkpoint.
#[derive(Debug, Clone, PartialEq, Eq)]
pub struct SlateDbCheckpointObjectRef {
    pub path: String,
    pub size: u64,
}

/// What copying a checkpoint did.
#[derive(Debug, Clone, Copy, PartialEq, Eq, Structural)]
pub struct SlateDbCheckpointMaterializeMetrics {
    pub objects_seen: usize,
    pub objects_copied: usize,
    pub objects_reused: usize,
    pub bytes_seen: u64,
    pub bytes_copied: u64,
}

impl Default for SlateDbCheckpointMaterializeMetrics {
    fn default() -> (metrics: SlateDbCheckpointMaterializeMetrics)
        ensures
            metrics == (SlateDbCheckpointMaterializeMetrics {
                objects_seen: 0,
                objects_copied: 0,
                objects_reused: 0,
                bytes_seen: 0,
                bytes_copied: 0,
            }),
    {
        SlateDbCheckpointMaterializeMetrics {
            objects_seen: 0,
            objects_copied: 0,
            objects_reused: 0,
            bytes_seen: 0,
            bytes_copied: 0,
        }
    }
}

/// What `object_store::path::Path::from` makes of a text.
pub uninterp spec fn object_path_of(text: Seq<char>) -> Seq<char>;

/// Wraps `object_store::path::Path::from`, which writes a text as the path of an
/// object: empty parts are left out and troublesome ones are percent-encoded.
#[verifier::external_body]
fn object_path(path: &str) -> (written: String)
    ensures
        written@ == object_path_of(path@),
{
    slatedb::object_store::path::Path::from(path).to_string()
}

/// What `object_store::path::Path::parse` reads from a text: the path of an object, or
/// the text of its error.
pub uninterp spec fn object_path_reading(text: Seq<char>) -> Result<Seq<char>, Seq<char>>;

/// A result with its two texts taken by what they hold.
pub open spec fn path_or_text(read: Result<String, String>) -> Result<Seq<char>, Seq<char>> {
    match read {
        Ok(path) => Ok(path@),
        Err(message) => Err(message@),
    }
}

/// Wraps `object_store::path::Path::parse`, which takes a text that already is the
/// path of an object and refuses any other; the error is given as its text.
#[verifier::external_body]
fn parse_object_path(path: &str) -> (read: Result<String, String>)
    ensures
        path_or_text(read) == object_path_reading(path@),
{
    slatedb::object_store::path::Path::parse(path)
        .map(|location| location.to_string())
        .map_err(|error| error.to_string())
}

/// Reads the path of an object.
pub fn read_object_path(path: &str) -> (read: Result<String, String>)
    ensures
        path_or_text(read) == object_path_reading(path@),
{
    parse_object_path(path)
}

/// What `uuid::Uuid::parse_str` reads from a text: the number that the identifier is,
/// or the text of its error.
pub uninterp spec fn uuid_reading(text: Seq<char>) -> Result<u128, Seq<char>>;

/// A result with its error taken as text.
pub open spec fn uuid_or_text(read: Result<u128, String>) -> Result<u128, Seq<char>> {
    match read {
        Ok(uuid) => Ok(uuid),
        Err(message) => Err(message@),
    }
}

/// Wraps `uuid::Uuid::parse_str`; the identifier is given as a number, and the error
/// as its text.
#[verifier::external_body]
fn parse_uuid(text: &str) -> (read: Result<u128, String>)
    ensures
        uuid_or_text(read) == uuid_reading(text@),
{
    uuid::Uuid::parse_str(text).map(|uuid| uuid.as_u128()).map_err(|error| error.to_string())
}

/// Reads the identifier of a checkpoint.
pub fn read_checkpoint_id(checkpoint_id: &str) -> (read: Result<u128, String>)
    ensures
        uuid_or_text(read) == uuid_reading(checkpoint_id@),
{
    parse_uuid(checkpoint_id)
}

impl SlateDbCheckpointArtifact {
    /// The checkpoint of the store at a path; its objects lie under that path.
    pub fn of_store(path: &str, checkpoint_id: &str, checkpoint_manifest_id: u64) -> (artifact:
        SlateDbCheckpointArtifact)
        ensures
            artifact.db_path@ == path@,
            artifact.checkpoint_id@ == checkpoint_id@,
            artifact.checkpoint_manifest_id == checkpoint_manifest_id,
            artifact.object_prefix@ == path@,
    {
        SlateDbCheckpointArtifact {
            db_path: path.to_owned(),
            checkpoint_id: checkpoint_id.to_owned(),
            checkpoint_manifest_id,
            object_prefix: path.to_owned(),
        }
    }

    /// The path under which the objects lie.
    pub fn object_prefix_path(&self) -> (path: String)
        ensures
            path@ == object_path_of(self.object_prefix@),
    {
        object_path(self.object_prefix.as_str())
    }
}

/// Whether a path is a prefix or lies below it.
pub open spec fn lies_under(prefix: Seq<u8>, path: Seq<u8>) -> bool {
    path == prefix || bytes::has_prefix(path, prefix + bytes::text("/"))
}

fn is_under(prefix: &str, path: &str) -> (under: bool)
    ensures
        under == lies_under(bytes::text(prefix), bytes::text(path)),
{
    let mut below: Vec<u8> = copy_bytes(prefix.as_bytes());
    bytes::append_bytes(&mut below, "/".as_bytes());
    bytes_equal(path.as_bytes(), prefix.as_bytes()) || starts_with(
        path.as_bytes(),
        below.as_slice(),
    )
}

/// The message for an object outside the place where it is expected.
pub open spec fn outside_message(prefix: Seq<char>, path: Seq<char>) -> Seq<char> {
    "checkpoint object path "@ + path + " is outside expected prefix "@ + prefix
}

/// Whether an object lies under a prefix.
pub fn ensure_checkpoint_object_path_has_prefix(prefix: &str, object_path: &str) -> (checked: Result<
    (),
    String,
>)
    ensures
        checked is Ok <==> lies_under(bytes::text(prefix), bytes::text(object_path)),
        checked matches Err(message) ==> message@ == outside_message(prefix@, object_path@),
{
    if is_under(prefix, object_path) {
        return Ok(());
    }
    let mut message: String = "checkpoint object path ".to_owned();
    message.append(object_path);
    message.append(" is outside expected prefix ");
    message.append(prefix);
    Err(message)
}

/// Whether an object may belong to a checkpoint.
pub fn ensure_checkpoint_object_path_allowed(
    artifact: &SlateDbCheckpointArtifact,
    object_path: &str,
) -> (checked: Result<(), String>)
    ensures
        checked is Ok <==> lies_under(
            ordered::text_bytes(artifact.object_prefix@),
            bytes::text(object_path),
        ),
        checked matches Err(message) ==> message@ == outside_message(
            artifact.object_prefix@,
            object_path@,
        ),
{
    ensure_checkpoint_object_path_has_prefix(artifact.object_prefix.as_str(), object_path)
}

/// A table of a store.
#[derive(Debug, Clone, PartialEq, Eq)]
pub enum TableId {
    Wal(u64),
    Compacted(String),
}

/// The tables of a part of a store: those of the first level, and the sorted runs.
#[derive(Debug, Clone, PartialEq, Eq)]
pub struct TableLevels {
    pub l0: Vec<TableId>,
    pub compacted: Vec<Vec<TableId>>,
}

/// What a checkpoint's manifest says of the tables that the checkpoint consists of.
#[derive(Debug, Clone, PartialEq, Eq)]
pub struct CheckpointTables {
    pub levels: TableLevels,
    pub segments: Vec<TableLevels>,
    pub replay_after_wal_id: u64,
    pub next_wal_sst_id: u64,
}

/// The object of a checkpoint's manifest.
pub open spec fn manifest_path_of(root: Seq<char>, manifest_id: u64) -> Seq<char> {
    object_path_of(
        text::without_end_slashes(root) + "/manifest/"@ + text::padded_text(manifest_id as nat, 20)
            + ".manifest"@,
    )
}

/// The object of a table of the write-ahead log.
pub open spec fn wal_path_of(root: Seq<char>, id: u64) -> Seq<char> {
    object_path_of(
        text::without_end_slashes(root) + "/wal/"@ + text::padded_text(id as nat, 20) + ".sst"@,
    )
}

/// The object of a table.
pub open spec fn table_path_of(root: Seq<char>, table: TableId) -> Seq<char> {
    match table {
        TableId::Wal(id) => wal_path_of(root, id),
        TableId::Compacted(id) => object_path_of(
            text::without_end_slashes(root) + "/compacted/"@ + id@ + ".sst"@,
        ),
    }
}

/// The object of a checkpoint's manifest.
pub fn manifest_object_path(root_path: &str, manifest_id: u64) -> (path: String)
    ensures
        path@ == manifest_path_of(root_path@, manifest_id),
{
    let mut path = trim_end_slashes(root_path);
    path.append("/manifest/");
    append_number20(&mut path, manifest_id);
    path.append(".manifest");
    object_path(path.as_str())
}

/// The object of a table.
pub fn sstable_object_path(root_path: &str, table: &TableId) -> (path: String)
    ensures
        path@ == table_path_of(root_path@, *table),
{
    let mut path = trim_end_slashes(root_path);
    match table {
        TableId::Wal(id) => {
            path.append("/wal/");
            append_number20(&mut path, *id);
        },
        TableId::Compacted(id) => {
            path.append("/compacted/");
            path.append(id.as_str());
        },
    }
    path.append(".sst");
    object_path(path.as_str())
}

/// Whether one of the first so many tables has this object.
pub open spec fn has_table(root: Seq<char>, tables: Seq<TableId>, upto: int, path: Seq<char>) -> bool {
    exists|i: int| 0 <= i < upto && table_path_of(root, #[trigger] tables[i]) == path
}

/// Whether one of the first so many runs has a table with this object.
pub open spec fn has_run(root: Seq<char>, runs: Seq<Vec<TableId>>, upto: int, path: Seq<char>) -> bool {
    exists|i: int|
        0 <= i < upto && has_table(root, (#[trigger] runs[i])@, runs[i]@.len() as int, path)
}

/// Whether a part of a store has a table with this object.
pub open spec fn levels_need(root: Seq<char>, levels: TableLevels, path: Seq<char>) -> bool {
    has_table(root, levels.l0@, levels.l0@.len() as int, path) || has_run(
        root,
        levels.compacted@,
        levels.compacted@.len() as int,
        path,
    )
}

/// Whether one of the first so many segments has a table with this object.
pub open spec fn segments_need(
    root: Seq<char>,
    segments: Seq<TableLevels>,
    upto: int,
    path: Seq<char>,
) -> bool {
    exists|i: int| 0 <= i < upto && levels_need(root, #[trigger] segments[i], path)
}

/// Whether a table of the write-ahead log with a number from `from` up to but not
/// including `to` has this object.
pub open spec fn wal_needs(root: Seq<char>, from: int, to: int, path: Seq<char>) -> bool {
    exists|id: u64| from <= id < to && #[trigger] wal_path_of(root, id) == path
}

/// The first table of the write-ahead log that a checkpoint needs.
pub open spec fn first_wal(tables: CheckpointTables) -> int {
    if tables.replay_after_wal_id < u64::MAX {
        tables.replay_after_wal_id + 1
    } else {
        u64::MAX as int
    }
}

/// Whether a checkpoint consists of this object, among others: its manifest, the
/// tables that the manifest names, and the part of the write-ahead log that has to
/// be replayed.
pub open spec fn checkpoint_needs(
    artifact: SlateDbCheckpointArtifact,
    tables: CheckpointTables,
    path: Seq<char>,
) -> bool {
    let root = artifact.object_prefix@;
    ||| path == manifest_path_of(root, artifact.checkpoint_manifest_id)
    ||| levels_need(root, tables.levels, path)
    ||| segments_need(root, tables.segments@, tables.segments@.len() as int, path)
    ||| wal_needs(root, first_wal(tables), tables.next_wal_sst_id as int, path)
}

/// Whether every text is listed that was before or that is wanted, and no other.
pub open spec fn lists_also(
    before: Seq<String>,
    after: Seq<String>,
    wanted: spec_fn(Seq<char>) -> bool,
) -> bool {
    forall|path: Seq<char>| #[trigger]
        ordered::lists_text(after, path) <==> ordered::lists_text(before, path) || wanted(path)
}

fn put_tables(paths: &mut Vec<String>, root: &str, tables: &Vec<TableId>)
    requires
        ordered::ordered_texts(old(paths)@),
    ensures
        ordered::ordered_texts(final(paths)@),
        lists_also(
            old(paths)@,
            final(paths)@,
            |path: Seq<char>| has_table(root@, tables@, tables@.len() as int, path),
        ),
{
    let mut i: usize = 0;
    while i < tables.len()
        invariant
            i <= tables.len(),
            ordered::ordered_texts(paths@),
            lists_also(
                old(paths)@,
                paths@,
                |path: Seq<char>| has_table(root@, tables@, i as int, path),
            ),
        decreases tables.len() - i,
    {
        let ghost before = paths@;
        let path = sstable_object_path(root, &tables[i]);
        let ghost added = path@;
        put_text(paths, path);
        assert forall|wanted: Seq<char>| #[trigger] ordered::lists_text(paths@, wanted)
            <==> ordered::lists_text(old(paths)@, wanted) || has_table(
            root@,
            tables@,
            i + 1,
            wanted,
        ) by {
            assert(ordered::lists_text(before, wanted) <==> ordered::lists_text(old(paths)@, wanted)
                || has_table(root@, tables@, i as int, wanted));
            if has_table(root@, tables@, i as int, wanted) {
                let k = choose|k: int|
                    0 <= k < i && table_path_of(root@, #[trigger] tables@[k]) == wanted;
                assert(table_path_of(root@, tables@[k]) == wanted);
            }
            if wanted == added {
                assert(table_path_of(root@, tables@[i as int]) == wanted);
            }
            if has_table(root@, tables@, i + 1, wanted) {
                let k = choose|k: int|
                    0 <= k < i + 1 && table_path_of(root@, #[trigger] tables@[k]) == wanted;
                if k < i {
                    assert(has_table(root@, tables@, i as int, wanted));
                }
            }
        }
        i = i + 1;
    }
}

fn put_levels(paths: &mut Vec<String>, root: &str, levels: &TableLevels)
    requires
        ordered::ordered_texts(old(paths)@),
    ensures
        ordered::ordered_texts(final(paths)@),
        lists_also(
            old(paths)@,
            final(paths)@,
            |path: Seq<char>| levels_need(root@, *levels, path),
        ),
{
    put_tables(paths, root, &levels.l0);
    let ghost with_l0 = paths@;
    let runs = &levels.compacted;
    let mut i: usize = 0;
    while i < runs.len()
        invariant
            i <= runs.len(),
            ordered::ordered_texts(paths@),
            lists_also(with_l0, paths@, |path: Seq<char>| has_run(root@, runs@, i as int, path)),
        decreases runs.len() - i,
    {
        let ghost before = paths@;
        put_tables(paths, root, &runs[i]);
        assert forall|wanted: Seq<char>| #[trigger] ordered::lists_text(paths@, wanted)
            <==> ordered::lists_text(with_l0, wanted) || has_run(
            root@,
            runs@,
            i + 1,
            wanted,
        ) by {
            let here = has_table(root@, runs@[i as int]@, runs@[i as int]@.len() as int, wanted);
            assert(ordered::lists_text(paths@, wanted) <==> ordered::lists_text(before, wanted)
                || here);
            assert(ordered::lists_text(before, wanted) <==> ordered::lists_text(with_l0, wanted)
                || has_run(root@, runs@, i as int, wanted));
            if has_run(root@, runs@, i as int, wanted) {
                let k = choose|k: int|
                    0 <= k < i && has_table(
                        root@,
                        (#[trigger] runs@[k])@,
                        runs@[k]@.len() as int,
                        wanted,
                    );
                assert(has_table(root@, runs@[k]@, runs@[k]@.len() as int, wanted));
            }
            if has_run(root@, runs@, i + 1, wanted) {
                let k = choose|k: int|
                    0 <= k < i + 1 && has_table(
                        root@,
                        (#[trigger] runs@[k])@,
                        runs@[k]@.len() as int,
                        wanted,
                    );
                if k < i {
                    assert(has_run(root@, runs@, i as int, wanted));
                }
            }
        }
        i = i + 1;
    }
    assert forall|wanted: Seq<char>| #[trigger] ordered::lists_text(paths@, wanted)
        <==> ordered::lists_text(old(paths)@, wanted) || levels_need(root@, *levels, wanted) by {
        assert(ordered::lists_text(with_l0, wanted) <==> ordered::lists_text(old(paths)@, wanted)
            || has_table(root@, levels.l0@, levels.l0@.len() as int, wanted));
    }
}

fn put_segments(paths: &mut Vec<String>, root: &str, segments: &Vec<TableLevels>)
    requires
        ordered::ordered_texts(old(paths)@),
    ensures
        ordered::ordered_texts(final(paths)@),
        lists_also(
            old(paths)@,
            final(paths)@,
            |path: Seq<char>| segments_need(root@, segments@, segments@.len() as int, path),
        ),
{
    let mut i: usize = 0;
    while i < segments.len()
        invariant
            i <= segments.len(),
            ordered::ordered_texts(paths@),
            lists_also(
                old(paths)@,
                paths@,
                |path: Seq<char>| segments_need(root@, segments@, i as int, path),
            ),
        decreases segments.len() - i,
    {
        let ghost before = paths@;
        put_levels(paths, root, &segments[i]);
        assert forall|wanted: Seq<char>| #[trigger] ordered::lists_text(paths@, wanted)
            <==> ordered::lists_text(old(paths)@, wanted) || segments_need(
            root@,
            segments@,
            i + 1,
            wanted,
        ) by {
            assert(ordered::lists_text(paths@, wanted) <==> ordered::lists_text(before, wanted)
                || levels_need(root@, segments@[i as int], wanted));
            assert(ordered::lists_text(before, wanted) <==> ordered::lists_text(old(paths)@, wanted)
                || segments_need(root@, segments@, i as int, wanted));
            if segments_need(root@, segments@, i as int, wanted) {
                let k = choose|k: int|
                    0 <= k < i && levels_need(root@, #[trigger] segments@[k], wanted);
                assert(levels_need(root@, segments@[k], wanted));
            }
            if segments_need(root@, segments@, i + 1, wanted) {
                let k = choose|k: int|
                    0 <= k < i + 1 && levels_need(root@, #[trigger] segments@[k], wanted);
                if k < i {
                    assert(segments_need(root@, segments@, i as int, wanted));
                }
            }
        }
        i = i + 1;
    }
}

fn put_wal(paths: &mut Vec<String>, root: &str, from: u64, to: u64)
    requires
        ordered::ordered_texts(old(paths)@),
    ensures
        ordered::ordered_texts(final(paths)@),
        lists_also(
            old(paths)@,
            final(paths)@,
            |path: Seq<char>| wal_needs(root@, from as int, to as int, path),
        ),
{
    let mut id: u64 = from;
    while id < to
        invariant
            from <= id,
            from <= to ==> id <= to,
            from > to ==> id == from,
            ordered::ordered_texts(paths@),
            lists_also(
                old(paths)@,
                paths@,
                |path: Seq<char>| wal_needs(root@, from as int, id as int, path),
            ),
        decreases to - id,
    {
        let ghost before = paths@;
        let path = sstable_object_path(root, &TableId::Wal(id));
        let ghost added = path@;
        put_text(paths, path);
        assert forall|wanted: Seq<char>| #[trigger] ordered::lists_text(paths@, wanted)
            <==> ordered::lists_text(old(paths)@, wanted) || wal_needs(
            root@,
            from as int,
            id + 1,
            wanted,
        ) by {
            assert(ordered::lists_text(before, wanted) <==> ordered::lists_text(old(paths)@, wanted)
                || wal_needs(root@, from as int, id as int, wanted));
            if wal_needs(root@, from as int, id as int, wanted) {
                let k = choose|k: u64| from <= k < id && #[trigger] wal_path_of(root@, k) == wanted;
                assert(wal_path_of(root@, k) == wanted);
            }
            if wanted == added {
                assert(wal_path_of(root@, id) == wanted);
            }
            if wal_needs(root@, from as int, id + 1, wanted) {
                let k = choose|k: u64|
                    from <= k < id + 1 && #[trigger] wal_path_of(root@, k) == wanted;
                if k < id {
                    assert(wal_needs(root@, from as int, id as int, wanted));
                }
            }
        }
        id = id + 1;
    }
    assert forall|wanted: Seq<char>| #[trigger] ordered::lists_text(paths@, wanted)
        <==> ordered::lists_text(old(paths)@, wanted) || wal_needs(
        root@,
        from as int,
        to as int,
        wanted,
    ) by {
        assert(ordered::lists_text(paths@, wanted) <==> ordered::lists_text(old(paths)@, wanted)
            || wal_needs(root@, from as int, id as int, wanted));
    }
}

/// The objects that a checkpoint consists of, each once, in ascending order.
pub fn checkpoint_manifest_required_paths(
    artifact: &SlateDbCheckpointArtifact,
    tables: &CheckpointTables,
) -> (paths: Vec<String>)
    ensures
        ordered::ordered_texts(paths@),
        forall|path: Seq<char>| #[trigger]
            ordered::lists_text(paths@, path) <==> checkpoint_needs(*artifact, *tables, path),
{
    let root = artifact.object_prefix.as_str();
    let mut paths: Vec<String> = Vec::new();
    assert forall|path: Seq<char>| !#[trigger] ordered::lists_text(paths@, path) by {}
    put_text(&mut paths, manifest_object_path(root, artifact.checkpoint_manifest_id));
    let ghost with_manifest = paths@;
    put_levels(&mut paths, root, &tables.levels);
    let ghost with_levels = paths@;
    put_segments(&mut paths, root, &tables.segments);
    let ghost with_segments = paths@;
    put_wal(
        &mut paths,
        root,
        tables.replay_after_wal_id.saturating_add(1),
        tables.next_wal_sst_id,
    );
    assert forall|path: Seq<char>| #[trigger] ordered::lists_text(paths@, path)
        <==> checkpoint_needs(*artifact, *tables, path) by {
        assert(ordered::lists_text(paths@, path) <==> ordered::lists_text(with_segments, path)
            || wal_needs(root@, first_wal(*tables), tables.next_wal_sst_id as int, path));
        assert(ordered::lists_text(with_segments, path) <==> ordered::lists_text(with_levels, path)
            || segments_need(root@, tables.segments@, tables.segments@.len() as int, path));
        assert(ordered::lists_text(with_levels, path) <==> ordered::lists_text(with_manifest, path)
            || levels_need(root@, tables.levels, path));
    }
    paths
}

/// The message for a checkpoint that names no objects.
pub open spec fn no_referenced_objects_message(checkpoint_id: Seq<char>) -> Seq<char> {
    "checkpoint artifact "@ + checkpoint_id + " has no referenced objects"@
}

/// Whether a checkpoint names any objects.
pub fn check_referenced_objects(checkpoint_id: &str, count: usize) -> (checked: Result<(), String>)
    ensures
        checked is Ok <==> count > 0,
        checked matches Err(message) ==> message@ == no_referenced_objects_message(checkpoint_id@),
{
    if count > 0 {
        return Ok(());
    }
    let mut message: String = "checkpoint artifact ".to_owned();
    message.append(checkpoint_id);
    message.append(" has no referenced objects");
    Err(message)
}

/// A number as far as 64 bits reach.
pub open spec fn as_far_as_u64(n: int) -> u64 {
    if n <= u64::MAX {
        n as u64
    } else {
        u64::MAX
    }
}

/// What copying a checkpoint has done after one more object, which is left as it is
/// when the target holds an object of the same size there.
pub open spec fn after_object(
    metrics: SlateDbCheckpointMaterializeMetrics,
    size: u64,
    found: Option<u64>,
) -> SlateDbCheckpointMaterializeMetrics {
    let reused = found == Some(size);
    SlateDbCheckpointMaterializeMetrics {
        objects_seen: (metrics.objects_seen + 1) as usize,
        objects_copied: if reused {
            metrics.objects_copied
        } else {
            (metrics.objects_copied + 1) as usize
        },
        objects_reused: if reused {
            (metrics.objects_reused + 1) as usize
        } else {
            metrics.objects_reused
        },
        bytes_seen: as_far_as_u64(metrics.bytes_seen + size),
        bytes_copied: if reused {
            metrics.bytes_copied
        } else {
            as_far_as_u64(metrics.bytes_copied + size)
        },
    }
}

/// Decides whether an object of a checkpoint has to be copied, given the size of what
/// the target holds there, and counts it.
pub fn plan_object_copy(
    metrics: &mut SlateDbCheckpointMaterializeMetrics,
    size: u64,
    found: Option<u64>,
) -> (copy: bool)
    requires
        old(metrics).objects_seen < usize::MAX,
        old(metrics).objects_copied < usize::MAX,
        old(metrics).objects_reused < usize::MAX,
    ensures
        copy == (found != Some(size)),
        *final(metrics) == after_object(*old(metrics), size, found),
{
    metrics.objects_seen = metrics.objects_seen + 1;
    metrics.bytes_seen = metrics.bytes_seen.saturating_add(size);
    let reused = match found {
        Some(held) => held == size,
        None => false,
    };
    if reused {
        metrics.objects_reused = metrics.objects_reused + 1;
        return false;
    }
    metrics.objects_copied = metrics.objects_copied + 1;
    metrics.bytes_copied = metrics.bytes_copied.saturating_add(size);
    true
}

/// The message for a checkpoint of which nothing was there to copy.
pub open spec fn nothing_to_materialize_message(checkpoint_id: Seq<char>) -> Seq<char> {
    "checkpoint artifact "@ + checkpoint_id + " has no objects to materialize"@
}

/// Ends copying a checkpoint: it must have had objects.
pub fn finish_object_copy(
    checkpoint_id: &str,
    metrics: SlateDbCheckpointMaterializeMetrics,
) -> (finished: Result<SlateDbCheckpointMaterializeMetrics, String>)
    ensures
        metrics.objects_seen > 0 ==> finished == Ok::<SlateDbCheckpointMaterializeMetrics, String>(
            metrics,
        ),
        metrics.objects_seen == 0 ==> (finished matches Err(message) && message@
            == nothing_to_materialize_message(checkpoint_id@)),
{
    if metrics.objects_seen > 0 {
        return Ok(metrics);
    }
    let mut message: String = "checkpoint artifact ".to_owned();
    message.append(checkpoint_id);
    message.append(" has no objects to materialize");
    Err(message)
}

/// The message for a checkpoint that is to be cloned onto its own store.
pub open spec fn same_path_message(target: Seq<char>, source: Seq<char>) -> Seq<char> {
    "checkpoint clone target path "@ + target + " matches source path "@ + source
}

/// Decides whether a checkpoint may be cloned to a path, and reads its identifier.
pub fn plan_checkpoint_clone(artifact: &SlateDbCheckpointArtifact, target_path: &str) -> (plan: Result<
    u128,
    String,
>)
    ensures
        uuid_or_text(plan) == if target_path@ == artifact.db_path@ {
            Err::<u128, Seq<char>>(same_path_message(target_path@, artifact.db_path@))
        } else {
            uuid_reading(artifact.checkpoint_id@)
        },
{
    if str_equal(target_path, artifact.db_path.as_str()) {
        let mut message: String = "checkpoint clone target path ".to_owned();
        message.append(target_path);
        message.append(" matches source path ");
        message.append(artifact.db_path.as_str());
        return Err(message);
    }
    read_checkpoint_id(artifact.checkpoint_id.as_str())
}

/// The objects at or below a path, in the order in which they are listed.
pub fn objects_under_path(locations: &Vec<String>, target_path: &str) -> (positions: Vec<usize>)
    ensures
        forall|k: int|
            0 <= k < positions@.len() ==> (#[trigger] positions@[k]) < locations@.len()
                && lies_under(
                bytes::text(target_path),
                ordered::text_bytes(locations@[positions@[k] as int]@),
            ),
        forall|k: int, m: int| 0 <= k < m < positions@.len() ==> positions@[k] < positions@[m],
        forall|i: int|
            0 <= i < locations@.len() && lies_under(
                bytes::text(target_path),
                ordered::text_bytes((#[trigger] locations@[i])@),
            ) ==> positions@.contains(i as usize),
{
    let mut positions: Vec<usize> = Vec::new();
    let mut i: usize = 0;
    while i < locations.len()
        invariant
            i <= locations.len(),
            forall|k: int|
                0 <= k < positions@.len() ==> (#[trigger] positions@[k]) < i && lies_under(
                    bytes::text(target_path),
                    ordered::text_bytes(locations@[positions@[k] as int]@),
                ),
            forall|k: int, m: int| 0 <= k < m < positions@.len() ==> positions@[k] < positions@[m],
            forall|n: int|
                0 <= n < i && lies_under(
                    bytes::text(target_path),
                    ordered::text_bytes((#[trigger] locations@[n])@),
                ) ==> positions@.contains(n as usize),
        decreases locations.len() - i,
    {
        if is_under(target_path, locations[i].as_str()) {
            let ghost before = positions@;
            positions.push(i);
            assert(positions@[before.len() as int] == i);
            assert forall|n: int|
                0 <= n < i + 1 && lies_under(
                    bytes::text(target_path),
                    ordered::text_bytes((#[trigger] locations@[n])@),
                ) implies positions@.contains(n as usize) by {
                if n < i {
                    assert(before.contains(n as usize));
                    let k = choose|k: int| 0 <= k < before.len() && before[k] == n as usize;
                    assert(positions@[k] == n as usize);
                } else {
                    assert(positions@[before.len() as int] == n as usize);
                }
            }
        }
        i = i + 1;
    }
    positions
}

/// The size of what a store holds at a place.
pub open spec fn size_held(target: Map<Seq<char>, u64>, place: Seq<char>) -> Option<u64> {
    if target.dom().contains(place) {
        Some(target[place])
    } else {
        None
    }
}

/// What has been copied of a checkpoint, and what the target then holds.
pub struct CheckpointCopy {
    pub metrics: SlateDbCheckpointMaterializeMetrics,
    /// The positions of the objects that were written, in order.
    pub written: Seq<int>,
    /// The sizes of the objects of the target, by their places.
    pub target: Map<Seq<char>, u64>,
}

/// Copying the objects of a checkpoint, each with its place and its size, one after the
/// other. An object that is written has its size in the target.
pub open spec fn checkpoint_copy(
    objects: Seq<(Seq<char>, u64)>,
    target: Map<Seq<char>, u64>,
) -> CheckpointCopy
    decreases objects.len(),
{
    if objects.len() == 0 {
        CheckpointCopy {
            metrics: SlateDbCheckpointMaterializeMetrics {
                objects_seen: 0,
                objects_copied: 0,
                objects_reused: 0,
                bytes_seen: 0,
                bytes_copied: 0,
            },
            written: Seq::empty(),
            target,
        }
    } else {
        let before = checkpoint_copy(objects.drop_last(), target);
        let (place, size) = objects.last();
        let found = size_held(before.target, place);
        CheckpointCopy {
            metrics: after_object(before.metrics, size, found),
            written: if found != Some(size) {
                before.written.push(objects.len() - 1)
            } else {
                before.written
            },
            target: if found != Some(size) {
                before.target.insert(place, size)
            } else {
                before.target
            },
        }
    }
}

/// Whether a listing gives every place one size.
pub open spec fn sizes_agree(objects: Seq<(Seq<char>, u64)>) -> bool {
    forall|i: int, j: int|
        0 <= i < objects.len() && 0 <= j < objects.len() && (#[trigger] objects[i]).0 == (
        #[trigger] objects[j]).0 ==> objects[i].1 == objects[j].1
}

/// The sizes of the objects of a checkpoint taken together.
pub open spec fn total_size(objects: Seq<(Seq<char>, u64)>) -> int
    decreases objects.len(),
{
    if objects.len() == 0 {
        0
    } else {
        total_size(objects.drop_last()) + objects.last().1
    }
}

/// Every object of a checkpoint is either copied or found in place, the objects that are
/// copied are those that are counted, and no more bytes are copied than there are.
pub proof fn law_objects_are_copied_or_reused(
    objects: Seq<(Seq<char>, u64)>,
    target: Map<Seq<char>, u64>,
)
    requires
        objects.len() <= usize::MAX,
    ensures
        ({
            let copy = checkpoint_copy(objects, target);
            &&& copy.metrics.objects_seen == objects.len()
            &&& copy.metrics.objects_copied + copy.metrics.objects_reused == objects.len()
            &&& copy.metrics.objects_copied == copy.written.len()
            &&& copy.metrics.bytes_seen == as_far_as_u64(total_size(objects))
            &&& copy.metrics.bytes_copied <= copy.metrics.bytes_seen
            &&& total_size(objects) >= 0
        }),
    decreases objects.len(),
{
    if objects.len() > 0 {
        law_objects_are_copied_or_reused(objects.drop_last(), target);
    }
}

/// A target to which a checkpoint was copied holds every object with the size that it has
/// in the source. An object that was there with this size is not written again, and what
/// the checkpoint does not name is left as it was.
pub proof fn law_copied_checkpoint_is_there(
    objects: Seq<(Seq<char>, u64)>,
    target: Map<Seq<char>, u64>,
)
    requires
        sizes_agree(objects),
    ensures
        ({
            let copy = checkpoint_copy(objects, target);
            &&& forall|i: int|
                0 <= i < objects.len() ==> size_held(copy.target, (#[trigger] objects[i]).0)
                    == Some(objects[i].1)
            &&& forall|k: int|
                0 <= k < copy.written.len() ==> 0 <= (#[trigger] copy.written[k]) < objects.len()
                    && size_held(target, objects[copy.written[k]].0) != Some(
                    objects[copy.written[k]].1,
                )
            &&& forall|place: Seq<char>|
                (forall|i: int| 0 <= i < objects.len() ==> (#[trigger] objects[i]).0 != place)
                    ==> #[trigger] size_held(copy.target, place) == size_held(target, place)
        }),
    decreases objects.len(),
{
    let copy = checkpoint_copy(objects, target);
    if objects.len() > 0 {
        let earlier = objects.drop_last();
        let n = earlier.len() as int;
        assert forall|i: int| 0 <= i < n implies #[trigger] earlier[i] == objects[i] by {}
        assert(sizes_agree(earlier));
        law_copied_checkpoint_is_there(earlier, target);
        let before = checkpoint_copy(earlier, target);
        let (place, size) = objects.last();
        assert(objects[n] == (place, size));
        assert forall|i: int| 0 <= i < objects.len() implies size_held(
            copy.target,
            (#[trigger] objects[i]).0,
        ) == Some(objects[i].1) by {
            if i < n {
                assert(earlier[i] == objects[i]);
            }
        }
        if size_held(before.target, place) != Some(size) {
            assert(size_held(target, place) != Some(size)) by {
                if forall|i: int| 0 <= i < n ==> (#[trigger] earlier[i]).0 != place {
                    assert(size_held(before.target, place) == size_held(target, place));
                } else {
                    let i = choose|i: int| 0 <= i < n && (#[trigger] earlier[i]).0 == place;
                    assert(objects[i].1 == objects[n].1);
                }
            }
        }
        assert forall|k: int| 0 <= k < copy.written.len() implies 0 <= (#[trigger] copy.written[k])
            < objects.len() && size_held(target, objects[copy.written[k]].0) != Some(
            objects[copy.written[k]].1,
        ) by {
            if k < before.written.len() {
                assert(copy.written[k] == before.written[k]);
                assert(earlier[before.written[k]] == objects[before.written[k]]);
            }
        }
        assert forall|other: Seq<char>|
            (forall|i: int| 0 <= i < objects.len() ==> (#[trigger] objects[i]).0
                != other) implies #[trigger] size_held(copy.target, other) == size_held(
            target,
            other,
        ) by {
            assert(objects[n].0 != other);
            assert forall|i: int| 0 <= i < n implies (#[trigger] earlier[i]).0 != other by {
                assert(objects[i].0 != other);
            }
            assert(size_held(before.target, other) == size_held(target, other));
        }
    }
}

/// Nothing is written where every object is in place.
proof fn lemma_nothing_to_copy(objects: Seq<(Seq<char>, u64)>, target: Map<Seq<char>, u64>)
    requires
        objects.len() <= usize::MAX,
        forall|i: int|
            0 <= i < objects.len() ==> size_held(target, (#[trigger] objects[i]).0) == Some(
                objects[i].1,
            ),
    ensures
        ({
            let copy = checkpoint_copy(objects, target);
            &&& copy.metrics.objects_seen == objects.len()
            &&& copy.metrics.objects_reused == objects.len()
            &&& copy.metrics.objects_copied == 0
            &&& copy.metrics.bytes_copied == 0
            &&& copy.written.len() == 0
            &&& copy.target == target
        }),
    decreases objects.len(),
{
    if objects.len() > 0 {
        let earlier = objects.drop_last();
        assert forall|i: int| 0 <= i < earlier.len() implies size_held(
            target,
            (#[trigger] earlier[i]).0,
        ) == Some(earlier[i].1) by {
            assert(earlier[i] == objects[i]);
        }
        lemma_nothing_to_copy(earlier, target);
        assert(objects.last() == objects[objects.len() - 1]);
    }
}

/// A checkpoint that is copied to a store a second time finds every object in place:
/// nothing is copied again, and the store stays as it was.
pub proof fn law_copied_objects_are_reused(
    objects: Seq<(Seq<char>, u64)>,
    target: Map<Seq<char>, u64>,
)
    requires
        objects.len() <= usize::MAX,
        sizes_agree(objects),
    ensures
        ({
            let first = checkpoint_copy(objects, target);
            let second = checkpoint_copy(objects, first.target);
            &&& second.metrics.objects_seen == objects.len()
            &&& second.metrics.objects_reused == objects.len()
            &&& second.metrics.objects_copied == 0
            &&& second.metrics.bytes_copied == 0
            &&& second.written.len() == 0
            &&& second.target == first.target
        }),
{
    law_copied_checkpoint_is_there(objects, target);
    lemma_nothing_to_copy(objects, checkpoint_copy(objects, target).target);
}

} // verus!
