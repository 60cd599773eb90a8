//! Snapshots of whole database files, in chunks.

use vstd::prelude::*;
use vstd::string::*;

use crate::bytes;
use crate::bytes::bytes_equal;
use crate::bytes::bytes_less;
use crate::bytes::copy_bytes;
use crate::bytes::str_equal;
use crate::bytes::zero_bytes;
use crate::commit;
use crate::commit::FileKind;
use crate::commit::VfsFileOp;
use crate::commit::VfsWrite;
use crate::dirty_page::SQLITE_PAGE_SIZE;
use crate::file_model;
use crate::file_model::FileOp;
use crate::ordered;
use crate::ordered::find_entry;
use crate::ordered::put_key;
use crate::ordered::put_text;
use crate::ordered::SqliteDatabasePageSyncEntry;
use crate::page_batch;
use crate::page_batch::StoredPage;
use crate::page_keys;
use crate::page_keys::file_path_from_file_prefix;
use crate::page_keys::page_file_prefix;
use crate::page_keys::parse_current_page_key;
use crate::page_keys::parse_latest_manifest_key;
use crate::page_keys::size_key_from_file_prefix;
use crate::page_keys::sqlite_file_kind_from_path;
use crate::page_keys::u64_from_be_bytes;
use crate::page_law;
use crate::page_sync::SqliteDatabasePageSyncMetrics;

verus! {

broadcast use group_string_axioms;

/// Some bytes of a file.
#[derive(Debug, Clone, PartialEq, Eq)]
pub struct SqliteDatabaseFileSnapshotChunk {
    pub offset: u64,
    pub bytes: Vec<u8>,
}

/// A file in chunks.
#[derive(Debug, Clone, PartialEq, Eq)]
pub struct SqliteDatabaseFileSnapshotFile {
    pub path: String,
    pub kind: FileKind,
    pub size: u64,
    pub chunks: Vec<SqliteDatabaseFileSnapshotChunk>,
}

/// The files of a database.
#[derive(Debug, Clone, PartialEq, Eq)]
pub struct SqliteDatabaseFileSnapshot {
    pub files: Vec<SqliteDatabaseFileSnapshotFile>,
}

/// Whether a path is one under which a database's files are looked for first.
pub open spec fn is_candidate_path(database: Seq<char>, path: Seq<char>) -> bool {
    ||| path == "main.db"@
    ||| path == "main.db-wal"@
    ||| path == "main.db-journal"@
    ||| database != "main"@ && {
        ||| path == database
        ||| path == database + "-wal"@
        ||| path == database + "-journal"@
        ||| path == database + ".db"@
        ||| path == database + ".db-wal"@
        ||| path == database + ".db-journal"@
    }
}

fn with_suffix(text: &str, suffix: &str) -> (joined: String)
    ensures
        joined@ == text@ + suffix@,
{
    let mut joined: String = text.to_owned();
    joined.append(suffix);
    joined
}

/// The paths under which a database's files are looked for first, in order.
pub fn sqlite_snapshot_candidate_paths(database: &str) -> (paths: Vec<String>)
    ensures
        ordered::ordered_texts(paths@),
        forall|path: Seq<char>| #[trigger]
            ordered::lists_text(paths@, path) <==> is_candidate_path(database@, path),
{
    let mut paths: Vec<String> = Vec::new();
    put_text(&mut paths, "main.db".to_owned());
    put_text(&mut paths, "main.db-wal".to_owned());
    put_text(&mut paths, "main.db-journal".to_owned());
    if !str_equal(database, "main") {
        put_text(&mut paths, database.to_owned());
        put_text(&mut paths, with_suffix(database, "-wal"));
        put_text(&mut paths, with_suffix(database, "-journal"));
        put_text(&mut paths, with_suffix(database, ".db"));
        put_text(&mut paths, with_suffix(database, ".db-wal"));
        put_text(&mut paths, with_suffix(database, ".db-journal"));
    }
    paths
}

/// The pages of a file among the first `upto` records of a scan.
pub open spec fn page_records(
    scan: Seq<SqliteDatabasePageSyncEntry>,
    upto: int,
    file: Seq<u8>,
) -> Seq<(u64, Seq<u8>)>
    decreases upto,
{
    if upto <= 0 {
        Seq::empty()
    } else {
        let earlier = page_records(scan, upto - 1, file);
        match page_keys::current_key_parts(scan[upto - 1].key@) {
            Some((of, page)) => if of == file {
                earlier.push((page, scan[upto - 1].value@))
            } else {
                earlier
            },
            None => earlier,
        }
    }
}

/// One byte of a file, by the last page record that reaches it.
pub open spec fn snapshot_byte(records: Seq<(u64, Seq<u8>)>, position: int) -> u8
    decreases records.len(),
{
    if records.len() == 0 {
        0u8
    } else {
        let (page, bytes) = records.last();
        let start = page * SQLITE_PAGE_SIZE;
        if start <= position < start + bytes.len() {
            bytes[position - start]
        } else {
            snapshot_byte(records.drop_last(), position)
        }
    }
}

/// The models of page records.
pub open spec fn record_models(pages: Seq<StoredPage>) -> Seq<(u64, Seq<u8>)> {
    Seq::new(pages.len(), |i: int| (pages[i].index, pages[i].bytes@))
}

/// Collects the pages of a file, in the order of the scan.
fn collect_pages(scan: &Vec<SqliteDatabasePageSyncEntry>, file: &[u8]) -> (pages: Vec<StoredPage>)
    ensures
        record_models(pages@) == page_records(scan@, scan@.len() as int, file@),
{
    let mut pages: Vec<StoredPage> = Vec::new();
    let mut i: usize = 0;
    assert(record_models(pages@) =~= page_records(scan@, 0, file@));
    while i < scan.len()
        invariant
            i <= scan.len(),
            record_models(pages@) == page_records(scan@, i as int, file@),
        decreases scan.len() - i,
    {
        let ghost before = pages@;
        if let Some((of, page)) = parse_current_page_key(scan[i].key.as_slice()) {
            if bytes_equal(of.as_slice(), file) {
                pages.push(
                    StoredPage { index: page, bytes: copy_bytes(scan[i].value.as_slice()) },
                );
                assert(record_models(pages@) =~= record_models(before).push(
                    (page, scan@[i as int].value@),
                ));
            }
        }
        i = i + 1;
    }
    pages
}

/// Fills one chunk from the pages of a file.
fn fill_chunk(pages: &Vec<StoredPage>, offset: u64, len: usize) -> (chunk: Vec<u8>)
    requires
        offset + len <= u64::MAX,
    ensures
        chunk@ == Seq::new(
            len as nat,
            |i: int| snapshot_byte(record_models(pages@), offset + i),
        ),
{
    let mut chunk: Vec<u8> = zero_bytes(len);
    let end: u64 = offset + len as u64;
    let unit: u64 = SQLITE_PAGE_SIZE as u64;
    let ghost models = record_models(pages@);
    let mut k: usize = 0;
    while k < pages.len()
        invariant
            k <= pages.len(),
            unit == SQLITE_PAGE_SIZE,
            end == offset + len,
            models == record_models(pages@),
            chunk@.len() == len,
            forall|i: int|
                0 <= i < len ==> #[trigger] chunk@[i] == snapshot_byte(
                    models.take(k as int),
                    offset + i,
                ),
        decreases pages.len() - k,
    {
        let page: &StoredPage = &pages[k];
        let ghost before = chunk@;
        proof {
            assert(models.take(k + 1).drop_last() =~= models.take(k as int));
            assert(models.take(k + 1).last() == (page.index, page.bytes@));
        }
        match page.index.checked_mul(unit) {
            Some(start) => {
                let count: usize = page.bytes.len();
                let stop: u64 = start.saturating_add(count as u64);
                let from: u64 = if start < offset {
                    offset
                } else {
                    start
                };
                let to: u64 = if stop < end {
                    stop
                } else {
                    end
                };
                let mut position: u64 = from;
                while position < to
                    invariant
                        from <= position,
                        position <= to || position == from,
                        to <= end,
                        count == page.bytes@.len(),
                        to <= start + count,
                        before.len() == len,
                        from >= offset,
                        from >= start,
                        end == offset + len,
                        chunk@.len() == len,
                        forall|i: int|
                            0 <= i < len ==> #[trigger] chunk@[i] == (if from <= offset + i
                                < position {
                                page.bytes@[offset + i - start]
                            } else {
                                before[i]
                            }),
                    decreases to - position,
                {
                    chunk.set((position - offset) as usize, page.bytes[(position - start) as usize]);
                    position = position + 1;
                }
                proof {
                    assert forall|i: int| 0 <= i < len implies #[trigger] chunk@[i]
                        == snapshot_byte(models.take(k + 1), offset + i) by {
                        assert(before[i] == snapshot_byte(models.take(k as int), offset + i));
                        assert(start == page.index * SQLITE_PAGE_SIZE);
                    }
                }
            },
            None => {
                proof {
                    assert forall|i: int| 0 <= i < len implies #[trigger] chunk@[i]
                        == snapshot_byte(models.take(k + 1), offset + i) by {
                        assert(before[i] == snapshot_byte(models.take(k as int), offset + i));
                        assert(page.index * SQLITE_PAGE_SIZE > u64::MAX);
                    }
                }
            },
        }
        k = k + 1;
    }
    assert(models.take(k as int) =~= models);
    assert(chunk@ =~= Seq::new(len as nat, |i: int| snapshot_byte(models, offset + i)));
    chunk
}

/// Whether chunks hold the bytes of a file one after the other, `step` bytes each
/// but for the last.
pub open spec fn chunks_hold(
    chunks: Seq<SqliteDatabaseFileSnapshotChunk>,
    records: Seq<(u64, Seq<u8>)>,
    size: int,
    step: int,
) -> bool {
    &&& size == 0 ==> chunks.len() == 0
    &&& size > 0 ==> (chunks.len() - 1) * step < size <= chunks.len() * step
    &&& forall|j: int|
        0 <= j < chunks.len() ==> {
            &&& (#[trigger] chunks[j]).offset == j * step
            &&& chunks[j].bytes@ == Seq::new(
                (if size - j * step < step {
                    size - j * step
                } else {
                    step
                }) as nat,
                |i: int| snapshot_byte(records, j * step + i),
            )
        }
}

/// Cuts a file into chunks.
fn cut_chunks(pages: &Vec<StoredPage>, size: u64, step: usize) -> (chunks: Vec<
    SqliteDatabaseFileSnapshotChunk,
>)
    requires
        step > 0,
    ensures
        chunks_hold(chunks@, record_models(pages@), size as int, step as int),
{
    let mut chunks: Vec<SqliteDatabaseFileSnapshotChunk> = Vec::new();
    let ghost records = record_models(pages@);
    let mut offset: u64 = 0;
    let mut left: u64 = size;
    assert(chunks@.len() * step == 0) by (nonlinear_arith)
        requires
            chunks@.len() == 0,
    ;
    while left > 0
        invariant
            step > 0,
            left <= size,
            records == record_models(pages@),
            left > 0 ==> offset == chunks@.len() * step && offset + left == size,
            left == 0 ==> size == 0 && chunks@.len() == 0 || (chunks@.len() - 1) * step < size
                <= chunks@.len() * step,
            forall|j: int|
                0 <= j < chunks@.len() ==> {
                    &&& (#[trigger] chunks@[j]).offset == j * step
                    &&& chunks@[j].bytes@ == Seq::new(
                        (if size - j * step < step {
                            size - j * step
                        } else {
                            step as int
                        }) as nat,
                        |i: int| snapshot_byte(records, j * step + i),
                    )
                },
        decreases left,
    {
        let len: usize = if left < step as u64 {
            left as usize
        } else {
            step
        };
        let ghost count = chunks@.len() as int;
        let bytes: Vec<u8> = fill_chunk(pages, offset, len);
        assert(bytes@ =~= Seq::new(
            (if size - count * step < step {
                size - count * step
            } else {
                step as int
            }) as nat,
            |i: int| snapshot_byte(records, count * step + i),
        ));
        chunks.push(SqliteDatabaseFileSnapshotChunk { offset, bytes });
        left = left - len as u64;
        assert((count + 1) * step == count * step + step) by (nonlinear_arith);
        assert((count + 1 - 1) * step == count * step) by (nonlinear_arith);
        if left > 0 {
            offset = offset + step as u64;
        }
    }
    proof {
        if size == 0 {
            assert(chunks@.len() == 0) by {
                if chunks@.len() > 0 {
                    assert(chunks@.len() * step >= step) by (nonlinear_arith)
                        requires
                            chunks@.len() >= 1,
                            step > 0,
                    ;
                    assert((chunks@.len() - 1) * step >= 0) by (nonlinear_arith)
                        requires
                            chunks@.len() >= 1,
                            step > 0,
                    ;
                }
            }
        }
    }
    chunks
}

/// The least size of a chunk is that of a page.
pub open spec fn chunk_step(target_chunk_bytes: usize) -> int {
    if target_chunk_bytes < SQLITE_PAGE_SIZE {
        SQLITE_PAGE_SIZE as int
    } else {
        target_chunk_bytes as int
    }
}

/// Whether a store holds the size of a candidate file.
pub open spec fn is_candidate_file(
    scan: Seq<SqliteDatabasePageSyncEntry>,
    database: Seq<char>,
    file: Seq<u8>,
) -> bool {
    ordered::entry_map(scan).dom().contains(page_keys::size_key_of(file)) && exists|path: Seq<char>| #[trigger]
        is_candidate_path(database, path) && file == page_keys::file_prefix_of(
            ordered::text_bytes(database),
            ordered::text_bytes(path),
        )
}

/// Whether a scan holds a candidate file.
pub open spec fn has_candidate_file(
    scan: Seq<SqliteDatabasePageSyncEntry>,
    database: Seq<char>,
) -> bool {
    exists|file: Seq<u8>| is_candidate_file(scan, database, file)
}

/// Whether a file has a record of its latest manifest.
pub open spec fn has_latest(scan: Seq<SqliteDatabasePageSyncEntry>, upto: int, file: Seq<u8>) -> bool {
    exists|k: int|
        0 <= k < upto && page_keys::latest_manifest_file((#[trigger] scan[k]).key@) == Some(file)
}

/// The files that a snapshot looks at: the candidates or, where there is none, every
/// file with a latest manifest.
pub open spec fn is_source_file(
    scan: Seq<SqliteDatabasePageSyncEntry>,
    database: Seq<char>,
    file: Seq<u8>,
) -> bool {
    if has_candidate_file(scan, database) {
        is_candidate_file(scan, database, file)
    } else {
        has_latest(scan, scan.len() as int, file)
    }
}

/// The files that a snapshot holds: those with a readable path and a size.
pub open spec fn is_snapshot_file(
    scan: Seq<SqliteDatabasePageSyncEntry>,
    database: Seq<char>,
    file: Seq<u8>,
) -> bool {
    is_source_file(scan, database, file) && page_keys::path_of_prefix(
        ordered::text_bytes(database),
        file,
    ) is Some
        && ordered::entry_map(scan).dom().contains(page_keys::size_key_of(file))
}

/// Whether a latest manifest record has to be read and cannot be.
pub open spec fn latest_is_bad(
    scan: Seq<SqliteDatabasePageSyncEntry>,
    database: Seq<char>,
) -> bool {
    !has_candidate_file(scan, database) && exists|k: int|
        0 <= k < scan.len() && page_keys::latest_manifest_file((#[trigger] scan[k]).key@) is Some
            && scan[k].value@.len() != 8
}

/// Whether a size has to be read and cannot be.
pub open spec fn size_is_bad(
    scan: Seq<SqliteDatabasePageSyncEntry>,
    database: Seq<char>,
    file: Seq<u8>,
) -> bool {
    is_snapshot_file(scan, database, file) && ordered::entry_map(scan)[page_keys::size_key_of(
        file,
    )].len() != 8
}

/// Whether a snapshot's file is that of a prefix.
pub open spec fn is_snapshot_of(
    made: SqliteDatabaseFileSnapshotFile,
    scan: Seq<SqliteDatabasePageSyncEntry>,
    database: Seq<char>,
    file: Seq<u8>,
    step: int,
) -> bool {
    &&& page_keys::path_of_prefix(ordered::text_bytes(database), file) == Some(made.path@)
    &&& made.kind == page_keys::file_kind_by_path(ordered::text_bytes(made.path@))
    &&& made.size == bytes::be_value(ordered::entry_map(scan)[page_keys::size_key_of(file)])
    &&& chunks_hold(
        made.chunks@,
        page_records(scan, scan.len() as int, file),
        made.size as int,
        step,
    )
}

/// Whether a snapshot's files are those of `origins`, one for one, in order of their
/// paths, and then of their prefixes.
pub open spec fn files_match(
    files: Seq<SqliteDatabaseFileSnapshotFile>,
    scan: Seq<SqliteDatabasePageSyncEntry>,
    database: Seq<char>,
    origins: Seq<Seq<u8>>,
    step: int,
) -> bool {
    &&& files.len() == origins.len()
    &&& forall|i: int| 0 <= i < files.len() ==> is_snapshot_of(
        #[trigger] files[i],
        scan,
        database,
        origins[i],
        step,
    )
    &&& forall|i: int, j: int|
        0 <= i < j < files.len() ==> #[trigger] comes_before(files, origins, i, j)
}

/// Whether a snapshot holds the files of `origins`, and those are all that it should
/// hold.
pub open spec fn is_snapshot_from(
    snapshot: SqliteDatabaseFileSnapshot,
    scan: Seq<SqliteDatabasePageSyncEntry>,
    database: Seq<char>,
    origins: Seq<Seq<u8>>,
    step: int,
) -> bool {
    &&& files_match(snapshot.files@, scan, database, origins, step)
    &&& forall|file: Seq<u8>| #[trigger]
        origins.contains(file) <==> is_snapshot_file(scan, database, file)
}

/// Whether a snapshot is one of the files of a database.
pub open spec fn is_snapshot_in(
    snapshot: SqliteDatabaseFileSnapshot,
    scan: Seq<SqliteDatabasePageSyncEntry>,
    database: Seq<char>,
    step: int,
) -> bool {
    exists|origins: Seq<Seq<u8>>| #[trigger]
        is_snapshot_from(snapshot, scan, database, origins, step)
}

/// Whether one file of a snapshot comes before another: by path, then by prefix.
pub open spec fn comes_before(
    files: Seq<SqliteDatabaseFileSnapshotFile>,
    origins: Seq<Seq<u8>>,
    i: int,
    j: int,
) -> bool {
    ||| bytes::lex_less(ordered::text_bytes(files[i].path@), ordered::text_bytes(files[j].path@))
    ||| files[i].path@ == files[j].path@ && bytes::lex_less(origins[i], origins[j])
}

/// Finds the files that a snapshot looks at.
fn source_files(scan: &Vec<SqliteDatabasePageSyncEntry>, database: &str) -> (files: Result<
    Vec<Vec<u8>>,
    String,
>)
    requires
        ordered::ordered_entries(scan@),
    ensures
        files is Err <==> latest_is_bad(scan@, database@),
        files matches Err(message) ==> message@ == page_keys::invalid_metadata(
            "latest manifest version"@,
        ),
        files matches Ok(found) ==> ordered::ordered_keys(found@) && forall|file: Seq<u8>| #[trigger]
            ordered::lists_key(found@, file) <==> is_source_file(scan@, database@, file),
{
    let mut found: Vec<Vec<u8>> = Vec::new();
    let paths: Vec<String> = sqlite_snapshot_candidate_paths(database);
    let ghost store = ordered::entry_map(scan@);
    let mut p: usize = 0;
    while p < paths.len()
        invariant
            p <= paths.len(),
            ordered::ordered_entries(scan@),
            store == ordered::entry_map(scan@),
            ordered::ordered_keys(found@),
            forall|file: Seq<u8>| #[trigger]
                ordered::lists_key(found@, file) <==> store.dom().contains(
                    page_keys::size_key_of(file),
                ) && from_paths(database@, paths@, p as int, file),
        decreases paths.len() - p,
    {
        let file: Vec<u8> = page_file_prefix(database, paths[p].as_str());
        proof {
            lemma_from_paths_step(database@, paths@, p as int);
        }
        let size_key: Vec<u8> = size_key_from_file_prefix(file.as_slice());
        if find_entry(scan, size_key.as_slice()).is_some() {
            put_key(&mut found, file);
        }
        p = p + 1;
    }
    proof {
        assert forall|file: Seq<u8>| #[trigger] ordered::lists_key(found@, file)
            <==> is_candidate_file(scan@, database@, file) by {
            if from_paths(database@, paths@, p as int, file) {
                let k = choose|k: int|
                    0 <= k < p && file == page_keys::file_prefix_of(
            ordered::text_bytes(database@),
            ordered::text_bytes((#[trigger] paths@[k])@),
                    );
                assert(ordered::lists_text(paths@, paths@[k]@));
                assert(is_candidate_path(database@, paths@[k]@));
            }
            if exists|path: Seq<char>| #[trigger]
                is_candidate_path(database@, path) && file == page_keys::file_prefix_of(
            ordered::text_bytes(database@),
            ordered::text_bytes(path),
                ) {
                let path = choose|path: Seq<char>| #[trigger]
                    is_candidate_path(database@, path) && file == page_keys::file_prefix_of(
            ordered::text_bytes(database@),
            ordered::text_bytes(path),
                    );
                assert(ordered::lists_text(paths@, path));
                let k = choose|k: int| 0 <= k < paths@.len() && (#[trigger] paths@[k])@ == path;
                assert(from_paths(database@, paths@, p as int, file));
            }
        }
    }
    if found.len() > 0 {
        assert(ordered::lists_key(found@, found@[0]@));
        assert(is_candidate_file(scan@, database@, found@[0]@));
        return Ok(found);
    }
    proof {
        assert forall|file: Seq<u8>| !is_candidate_file(scan@, database@, file) by {
            assert(!ordered::lists_key(found@, file));
        }
    }
    let mut i: usize = 0;
    while i < scan.len()
        invariant
            i <= scan.len(),
            ordered::ordered_keys(found@),
            !has_candidate_file(scan@, database@),
            forall|k: int|
                0 <= k < i && page_keys::latest_manifest_file((#[trigger] scan@[k]).key@) is Some
                    ==> scan@[k].value@.len() == 8,
            forall|file: Seq<u8>| #[trigger]
                ordered::lists_key(found@, file) <==> has_latest(scan@, i as int, file),
        decreases scan.len() - i,
    {
        proof {
            lemma_has_latest_step(scan@, i as int);
        }
        match parse_latest_manifest_key(scan[i].key.as_slice(), scan[i].value.as_slice()) {
            Err(message) => {
                assert(page_keys::latest_manifest_file(scan@[i as int].key@) is Some
                    && scan@[i as int].value@.len() != 8);
                return Err(message);
            },
            Ok(None) => {},
            Ok(Some((file, _version))) => {
                put_key(&mut found, file);
            },
        }
        i = i + 1;
    }
    Ok(found)
}

spec fn from_paths(
    database: Seq<char>,
    paths: Seq<String>,
    upto: int,
    file: Seq<u8>,
) -> bool {
    exists|k: int|
        0 <= k < upto && file == page_keys::file_prefix_of(
            ordered::text_bytes(database),
            ordered::text_bytes((#[trigger] paths[k])@),
        )
}

proof fn lemma_from_paths_step(database: Seq<char>, paths: Seq<String>, p: int)
    requires
        0 <= p < paths.len(),
    ensures
        forall|file: Seq<u8>| #[trigger]
            from_paths(database, paths, p + 1, file) <==> from_paths(database, paths, p, file) || file
                == page_keys::file_prefix_of(
            ordered::text_bytes(database),
            ordered::text_bytes(paths[p]@)),
{
    assert forall|file: Seq<u8>| #[trigger] from_paths(database, paths, p + 1, file) <==> from_paths(
        database,
        paths,
        p,
        file,
    ) || file == page_keys::file_prefix_of(
            ordered::text_bytes(database),
            ordered::text_bytes(paths[p]@)) by {
        if from_paths(database, paths, p + 1, file) {
            let k = choose|k: int|
                0 <= k < p + 1 && file == page_keys::file_prefix_of(
            ordered::text_bytes(database),
            ordered::text_bytes((#[trigger] paths[k])@),
                );
            assert(k == p || from_paths(database, paths, p, file));
        }
        if from_paths(database, paths, p, file) {
            let k = choose|k: int|
                0 <= k < p && file == page_keys::file_prefix_of(
            ordered::text_bytes(database),
            ordered::text_bytes((#[trigger] paths[k])@),
                );
            assert(0 <= k < p + 1);
        }
    }
}

proof fn lemma_has_latest_step(scan: Seq<SqliteDatabasePageSyncEntry>, i: int)
    requires
        0 <= i < scan.len(),
    ensures
        forall|file: Seq<u8>| #[trigger]
            has_latest(scan, i + 1, file) <==> has_latest(scan, i, file)
                || page_keys::latest_manifest_file(scan[i].key@) == Some(file),
{
    assert forall|file: Seq<u8>| #[trigger] has_latest(scan, i + 1, file) <==> has_latest(
        scan,
        i,
        file,
    ) || page_keys::latest_manifest_file(scan[i].key@) == Some(file) by {
        if has_latest(scan, i + 1, file) {
            let k = choose|k: int|
                0 <= k < i + 1 && page_keys::latest_manifest_file((#[trigger] scan[k]).key@) == Some(
                    file,
                );
            assert(k == i || has_latest(scan, i, file));
        }
        if has_latest(scan, i, file) {
            let k = choose|k: int|
                0 <= k < i && page_keys::latest_manifest_file((#[trigger] scan[k]).key@) == Some(
                    file,
                );
            assert(0 <= k < i + 1);
        }
    }
}

/// Puts a file behind all files whose path is not greater.
fn place_file(
    files: &mut Vec<SqliteDatabaseFileSnapshotFile>,
    file: SqliteDatabaseFileSnapshotFile,
    Ghost(scan): Ghost<Seq<SqliteDatabasePageSyncEntry>>,
    Ghost(database): Ghost<Seq<char>>,
    Ghost(origins): Ghost<Seq<Seq<u8>>>,
    Ghost(origin): Ghost<Seq<u8>>,
    Ghost(step): Ghost<int>,
) -> (at: Ghost<int>)
    requires
        files_match(old(files)@, scan, database, origins, step),
        is_snapshot_of(file, scan, database, origin, step),
        forall|i: int| 0 <= i < origins.len() ==> bytes::lex_less(#[trigger] origins[i], origin),
    ensures
        0 <= at@ <= origins.len(),
        files_match(final(files)@, scan, database, origins.insert(at@, origin), step),
{
    let ghost before = files@;
    let ghost key = ordered::text_bytes(file.path@);
    let mut at: usize = files.len();
    while at > 0 && bytes_less(file.path.as_str().as_bytes(), files[at - 1].path.as_str().as_bytes())
        invariant
            at <= files.len(),
            files@ == before,
            key == ordered::text_bytes(file.path@),
            forall|k: int|
                at <= k < files@.len() ==> bytes::lex_less(
                    key,
                    ordered::text_bytes((#[trigger] files@[k]).path@),
                ),
        decreases at,
    {
        at = at - 1;
    }
    let ghost added = file;
    files.insert(at, file);
    proof {
        let after = files@;
        let placed = origins.insert(at as int, origin);
        assert forall|i: int| 0 <= i < after.len() implies is_snapshot_of(
            #[trigger] after[i],
            scan,
            database,
            placed[i],
            step,
        ) by {
            if i < at {
                assert(after[i] == before[i]);
            } else if i > at {
                assert(after[i] == before[i - 1]);
            }
        }
        if at > 0 {
            let last = ordered::text_bytes(before[at - 1].path@);
            bytes::lemma_lex_less_total(last, key);
            vstd::utf8::encode_utf8_decode_utf8(before[at - 1].path@);
            vstd::utf8::encode_utf8_decode_utf8(added.path@);
        }
        assert forall|i: int, j: int| 0 <= i < j < after.len() implies #[trigger] comes_before(
            after,
            placed,
            i,
            j,
        ) by {
            if j < at {
                assert(comes_before(before, origins, i, j));
                assert(after[i] == before[i] && after[j] == before[j]);
                assert(placed[i] == origins[i] && placed[j] == origins[j]);
            } else if i > at {
                assert(comes_before(before, origins, i - 1, j - 1));
                assert(after[i] == before[i - 1] && after[j] == before[j - 1]);
                assert(placed[i] == origins[i - 1] && placed[j] == origins[j - 1]);
            } else if i < at && j > at {
                assert(comes_before(before, origins, i, j - 1));
                assert(after[i] == before[i] && after[j] == before[j - 1]);
                assert(placed[i] == origins[i] && placed[j] == origins[j - 1]);
            } else if i == at {
                assert(after[j] == before[j - 1]);
            } else {
                assert(j == at && i < at);
                assert(after[i] == before[i] && placed[i] == origins[i]);
                let last = ordered::text_bytes(before[at - 1].path@);
                if i < at - 1 {
                    assert(comes_before(before, origins, i, at - 1));
                    if before[i].path@ != before[at - 1].path@ {
                        if bytes::lex_less(last, key) {
                            bytes::lemma_lex_less_transitive(
                                ordered::text_bytes(before[i].path@),
                                last,
                                key,
                            );
                        }
                    }
                }
            }
        }
    }
    Ghost(at as int)
}

/// Makes a snapshot of the files of a database. `scan` holds the page records of the
/// source, in order of their keys.
pub fn export_sqlite_database_file_snapshot(
    scan: &Vec<SqliteDatabasePageSyncEntry>,
    database: &str,
    target_chunk_bytes: usize,
) -> (snapshot: Result<SqliteDatabaseFileSnapshot, String>)
    requires
        ordered::ordered_entries(scan@),
    ensures
        snapshot is Ok <==> !latest_is_bad(scan@, database@) && !exists|file: Seq<u8>|
            size_is_bad(scan@, database@, file),
        snapshot matches Err(message) ==> message@ == page_keys::invalid_metadata(
            if latest_is_bad(scan@, database@) {
                "latest manifest version"@
            } else {
                "file size"@
            },
        ),
        snapshot matches Ok(made) ==> is_snapshot_in(
            made,
            scan@,
            database@,
            chunk_step(target_chunk_bytes),
        ),
{
    let step: usize = if target_chunk_bytes < SQLITE_PAGE_SIZE {
        SQLITE_PAGE_SIZE
    } else {
        target_chunk_bytes
    };
    let found: Vec<Vec<u8>> = match source_files(scan, database) {
        Ok(found) => found,
        Err(message) => {
            return Err(message);
        },
    };
    let mut files: Vec<SqliteDatabaseFileSnapshotFile> = Vec::new();
    let ghost mut origins: Seq<Seq<u8>> = Seq::empty();
    let ghost store = ordered::entry_map(scan@);
    let mut m: usize = 0;
    while m < found.len()
        invariant
            m <= found.len(),
            step == chunk_step(target_chunk_bytes),
            step > 0,
            store == ordered::entry_map(scan@),
            ordered::ordered_entries(scan@),
            ordered::ordered_keys(found@),
            !latest_is_bad(scan@, database@),
            forall|file: Seq<u8>| #[trigger]
                ordered::lists_key(found@, file) <==> is_source_file(scan@, database@, file),
            files_match(files@, scan@, database@, origins, step as int),
            forall|file: Seq<u8>| #[trigger]
                origins.contains(file) <==> is_snapshot_file(scan@, database@, file)
                    && among(found@, m as int, file),
            forall|j: int|
                0 <= j < m ==> !size_is_bad(scan@, database@, (#[trigger] found@[j])@),
        decreases found.len() - m,
    {
        let prefix: &Vec<u8> = &found[m];
        proof {
            lemma_among_step(found@, m as int);
            assert(ordered::lists_key(found@, prefix@));
        }
        if let Some(path) = file_path_from_file_prefix(database, prefix.as_slice()) {
            let size_key: Vec<u8> = size_key_from_file_prefix(prefix.as_slice());
            if let Some(at) = find_entry(scan, size_key.as_slice()) {
                assert(is_snapshot_file(scan@, database@, prefix@));
                let size: u64 = match u64_from_be_bytes(scan[at].value.as_slice(), "file size") {
                    Ok(size) => size,
                    Err(message) => {
                        assert(size_is_bad(scan@, database@, prefix@));
                        return Err(message);
                    },
                };
                let pages: Vec<StoredPage> = collect_pages(scan, prefix.as_slice());
                let chunks: Vec<SqliteDatabaseFileSnapshotChunk> = cut_chunks(&pages, size, step);
                let kind: FileKind = sqlite_file_kind_from_path(path.as_str());
                let file = SqliteDatabaseFileSnapshotFile { path, kind, size, chunks };
                proof {
                    assert forall|i: int| 0 <= i < origins.len() implies bytes::lex_less(
                        #[trigger] origins[i],
                        prefix@,
                    ) by {
                        assert(origins.contains(origins[i]));
                        let j = choose|j: int| 0 <= j < m && (#[trigger] found@[j])@ == origins[i];
                        assert(bytes::lex_less(found@[j]@, found@[m as int]@));
                    }
                }
                let placed: Ghost<int> = place_file(
                    &mut files,
                    file,
                    Ghost(scan@),
                    Ghost(database@),
                    Ghost(origins),
                    Ghost(prefix@),
                    Ghost(step as int),
                );
                proof {
                    let before = origins;
                    origins = before.insert(placed@, prefix@);
                    assert forall|file: Seq<u8>| #[trigger] origins.contains(file)
                        <==> before.contains(file) || file == prefix@ by {
                        if origins.contains(file) {
                            let k = choose|k: int| 0 <= k < origins.len() && origins[k] == file;
                            if k < placed@ {
                                assert(before[k] == file);
                            } else if k > placed@ {
                                assert(before[k - 1] == file);
                            }
                        }
                        if before.contains(file) {
                            let k = choose|k: int| 0 <= k < before.len() && before[k] == file;
                            if k < placed@ {
                                assert(origins[k] == file);
                            } else {
                                assert(origins[k + 1] == file);
                            }
                        }
                        if file == prefix@ {
                            assert(origins[placed@] == file);
                        }
                    }
                }
            }
        }
        m = m + 1;
    }
    proof {
        assert forall|file: Seq<u8>| #[trigger] origins.contains(file) <==> is_snapshot_file(
            scan@,
            database@,
            file,
        ) by {
            if is_snapshot_file(scan@, database@, file) {
                assert(ordered::lists_key(found@, file));
                let j = choose|j: int| 0 <= j < found@.len() && (#[trigger] found@[j])@ == file;
                assert(among(found@, m as int, file));
            }
        }
        assert forall|file: Seq<u8>| !size_is_bad(scan@, database@, file) by {
            if size_is_bad(scan@, database@, file) {
                assert(ordered::lists_key(found@, file));
                let j = choose|j: int| 0 <= j < found@.len() && (#[trigger] found@[j])@ == file;
                assert(!size_is_bad(scan@, database@, found@[j]@));
            }
        }
    }
    let made = SqliteDatabaseFileSnapshot { files };
    assert(is_snapshot_from(made, scan@, database@, origins, chunk_step(target_chunk_bytes)));
    assert(is_snapshot_in(made, scan@, database@, chunk_step(target_chunk_bytes)));
    Ok(made)
}

spec fn among(keys: Seq<Vec<u8>>, upto: int, key: Seq<u8>) -> bool {
    exists|j: int| 0 <= j < upto && (#[trigger] keys[j])@ == key
}

proof fn lemma_among_step(keys: Seq<Vec<u8>>, m: int)
    requires
        0 <= m < keys.len(),
    ensures
        forall|key: Seq<u8>| #[trigger]
            among(keys, m + 1, key) <==> among(keys, m, key) || keys[m]@ == key,
{
    assert forall|key: Seq<u8>| #[trigger] among(keys, m + 1, key) <==> among(keys, m, key)
        || keys[m]@ == key by {
        if among(keys, m + 1, key) {
            let j = choose|j: int| 0 <= j < m + 1 && (#[trigger] keys[j])@ == key;
            assert(j == m || among(keys, m, key));
        }
        if among(keys, m, key) {
            let j = choose|j: int| 0 <= j < m && (#[trigger] keys[j])@ == key;
            assert(0 <= j < m + 1);
        }
    }
}

/// The operations that write a snapshot's file into an empty store: its size, then
/// its chunks.
pub open spec fn snapshot_ops(file: SqliteDatabaseFileSnapshotFile) -> Seq<FileOp> {
    seq![FileOp::Truncate { size: file.size as int }] + Seq::new(
        file.chunks@.len(),
        |i: int|
            FileOp::Write {
                offset: file.chunks@[i].offset as int,
                bytes: file.chunks@[i].bytes@,
            },
    )
}

/// The number of pages that the first `upto` chunks take.
pub open spec fn chunk_pages(chunks: Seq<SqliteDatabaseFileSnapshotChunk>, upto: int) -> int
    decreases upto,
{
    if upto <= 0 {
        0
    } else {
        chunk_pages(chunks, upto - 1) + page_batch::page_count(
            chunks[upto - 1].bytes@.len() as int,
        )
    }
}

/// Gives the operations that write a snapshot's file into an empty store.
pub fn snapshot_file_ops(file: &SqliteDatabaseFileSnapshotFile) -> (ops: Vec<VfsFileOp>)
    ensures
        commit::op_models(ops@) == snapshot_ops(*file),
{
    let mut ops: Vec<VfsFileOp> = Vec::new();
    ops.push(VfsFileOp::Truncate { size: file.size });
    let ghost wanted = snapshot_ops(*file);
    let mut i: usize = 0;
    while i < file.chunks.len()
        invariant
            i <= file.chunks.len(),
            wanted == snapshot_ops(*file),
            ops@.len() == i + 1,
            forall|k: int| 0 <= k <= i ==> (#[trigger] ops@[k])@ == wanted[k],
        decreases file.chunks.len() - i,
    {
        ops.push(
            VfsFileOp::Write(
                VfsWrite {
                    offset: file.chunks[i].offset,
                    bytes: copy_bytes(file.chunks[i].bytes.as_slice()),
                },
            ),
        );
        i = i + 1;
    }
    assert(commit::op_models(ops@) =~= wanted);
    ops
}

/// Counts a snapshot's file into what was copied so far: a key per chunk, the pages
/// of the chunks, and one size.
pub fn count_snapshot_file(
    copied: SqliteDatabasePageSyncMetrics,
    file: &SqliteDatabaseFileSnapshotFile,
) -> (counted: SqliteDatabasePageSyncMetrics)
    requires
        copied.keys_copied + file.chunks@.len() <= usize::MAX,
        copied.pages_copied + chunk_pages(file.chunks@, file.chunks@.len() as int) <= usize::MAX,
        copied.metadata_copied < usize::MAX,
    ensures
        counted == (SqliteDatabasePageSyncMetrics {
            keys_copied: (copied.keys_copied + file.chunks@.len()) as usize,
            pages_copied: (copied.pages_copied + chunk_pages(
                file.chunks@,
                file.chunks@.len() as int,
            )) as usize,
            metadata_copied: (copied.metadata_copied + 1) as usize,
            ..copied
        }),
{
    let mut pages: usize = copied.pages_copied;
    let mut i: usize = 0;
    while i < file.chunks.len()
        invariant
            i <= file.chunks.len(),
            pages == copied.pages_copied + chunk_pages(file.chunks@, i as int),
            copied.pages_copied + chunk_pages(file.chunks@, file.chunks@.len() as int)
                <= usize::MAX,
        decreases file.chunks.len() - i,
    {
        proof {
            lemma_chunk_pages_monotone(file.chunks@, i + 1, file.chunks@.len() as int);
            page_law::lemma_page_count(file.chunks@[i as int].bytes@.len() as int);
        }
        let len: usize = file.chunks[i].bytes.len();
        let whole: usize = len / SQLITE_PAGE_SIZE;
        let count: usize = if len % SQLITE_PAGE_SIZE == 0 {
            whole
        } else {
            whole + 1
        };
        pages = pages + count;
        i = i + 1;
    }
    SqliteDatabasePageSyncMetrics {
        keys_scanned: copied.keys_scanned,
        keys_copied: copied.keys_copied + file.chunks.len(),
        keys_deleted: copied.keys_deleted,
        pages_copied: pages,
        metadata_copied: copied.metadata_copied + 1,
    }
}

proof fn lemma_chunk_pages_monotone(
    chunks: Seq<SqliteDatabaseFileSnapshotChunk>,
    low: int,
    high: int,
)
    requires
        0 <= low <= high <= chunks.len(),
    ensures
        chunk_pages(chunks, low) <= chunk_pages(chunks, high),
    decreases high,
{
    if low < high {
        lemma_chunk_pages_monotone(chunks, low, high - 1);
        page_law::lemma_page_count(chunks[high - 1].bytes@.len() as int);
    }
}

/// The number of chunks of the first `upto` files.
pub open spec fn total_chunks(files: Seq<SqliteDatabaseFileSnapshotFile>, upto: int) -> int
    decreases upto,
{
    if upto <= 0 {
        0
    } else {
        total_chunks(files, upto - 1) + files[upto - 1].chunks@.len()
    }
}

/// The number of pages that the chunks of the first `upto` files take.
pub open spec fn total_pages(files: Seq<SqliteDatabaseFileSnapshotFile>, upto: int) -> int
    decreases upto,
{
    if upto <= 0 {
        0
    } else {
        total_pages(files, upto - 1) + chunk_pages(
            files[upto - 1].chunks@,
            files[upto - 1].chunks@.len() as int,
        )
    }
}

proof fn lemma_totals_monotone(files: Seq<SqliteDatabaseFileSnapshotFile>, low: int, high: int)
    requires
        0 <= low <= high <= files.len(),
    ensures
        total_chunks(files, low) <= total_chunks(files, high),
        total_pages(files, low) <= total_pages(files, high),
    decreases high,
{
    if low < high {
        lemma_totals_monotone(files, low, high - 1);
        let chunks = files[high - 1].chunks@;
        lemma_chunk_pages_monotone(chunks, 0, chunks.len() as int);
    }
}

/// Counts what a snapshot copies into a store without pages: a key per chunk, the pages
/// of the chunks, and one size per file.
pub fn count_snapshot(snapshot: &SqliteDatabaseFileSnapshot) -> (
counted: SqliteDatabasePageSyncMetrics)
    requires
        total_chunks(snapshot.files@, snapshot.files@.len() as int) <= usize::MAX,
        total_pages(snapshot.files@, snapshot.files@.len() as int) <= usize::MAX,
    ensures
        counted.keys_scanned == 0,
        counted.keys_copied == total_chunks(snapshot.files@, snapshot.files@.len() as int),
        counted.keys_deleted == 0,
        counted.pages_copied == total_pages(snapshot.files@, snapshot.files@.len() as int),
        counted.metadata_copied == snapshot.files@.len(),
{
    let mut counted = SqliteDatabasePageSyncMetrics::default();
    let count: usize = snapshot.files.len();
    let mut i: usize = 0;
    while i < count
        invariant
            i <= count,
            count == snapshot.files@.len(),
            total_chunks(snapshot.files@, count as int) <= usize::MAX,
            total_pages(snapshot.files@, count as int) <= usize::MAX,
            counted.keys_scanned == 0,
            counted.keys_copied == total_chunks(snapshot.files@, i as int),
            counted.keys_deleted == 0,
            counted.pages_copied == total_pages(snapshot.files@, i as int),
            counted.metadata_copied == i,
        decreases count - i,
    {
        proof {
            let chunks = snapshot.files@[i as int].chunks@;
            lemma_totals_monotone(snapshot.files@, i + 1, count as int);
            lemma_chunk_pages_monotone(chunks, 0, chunks.len() as int);
        }
        counted = count_snapshot_file(counted, &snapshot.files[i]);
        i = i + 1;
    }
    counted
}

/// Writing a snapshot's file into an empty store gives the bytes that were exported.
pub proof fn law_snapshot_file_writes_back(
    file: SqliteDatabaseFileSnapshotFile,
    records: Seq<(u64, Seq<u8>)>,
    step: int,
)
    requires
        step > 0,
        chunks_hold(file.chunks@, records, file.size as int, step),
    ensures
        file_model::content_after_all(None, snapshot_ops(file)) == Some(
            Seq::new(file.size as nat, |i: int| snapshot_byte(records, i)),
        ),
{
    let ops = snapshot_ops(file);
    let count = file.chunks@.len() as int;
    assert(ops.take(ops.len() as int) =~= ops);
    lemma_written_prefix(file, records, step, count);
    let got = file_model::content_after_all(None, ops)->0;
    assert forall|i: int| 0 <= i < file.size implies got[i] == snapshot_byte(records, i) by {
        assert(i < count * step);
    }
    assert(got =~= Seq::new(file.size as nat, |i: int| snapshot_byte(records, i)));
}

proof fn lemma_written_prefix(
    file: SqliteDatabaseFileSnapshotFile,
    records: Seq<(u64, Seq<u8>)>,
    step: int,
    upto: int,
)
    requires
        step > 0,
        chunks_hold(file.chunks@, records, file.size as int, step),
        0 <= upto <= file.chunks@.len(),
    ensures
        ({
            let content = file_model::content_after_all(None, snapshot_ops(file).take(upto + 1));
            &&& content is Some
            &&& content->0.len() == file.size
            &&& forall|i: int|
                0 <= i < file.size ==> #[trigger] content->0[i] == (if i < upto * step {
                    snapshot_byte(records, i)
                } else {
                    0u8
                })
        }),
    decreases upto,
{
    let ops = snapshot_ops(file);
    let size = file.size as int;
    if upto == 0 {
        let first = ops.take(1);
        assert(first.drop_last() =~= Seq::empty());
        assert(first.last() == FileOp::Truncate { size });
        assert(file_model::content_after_all(None, Seq::empty()) is None);
        assert(0 * step == 0) by (nonlinear_arith);
    } else {
        let j = upto - 1;
        lemma_written_prefix(file, records, step, j);
        let all = ops.take(upto + 1);
        assert(all.drop_last() =~= ops.take(j + 1));
        let chunk = file.chunks@[j];
        assert(all.last() == FileOp::Write { offset: chunk.offset as int, bytes: chunk.bytes@ });
        assert(upto * step == j * step + step) by (nonlinear_arith)
            requires
                upto == j + 1,
        ;
        assert(j * step < size) by {
            assert(j * step <= (file.chunks@.len() - 1) * step) by (nonlinear_arith)
                requires
                    j <= file.chunks@.len() - 1,
                    step > 0,
            ;
        }
        let before = file_model::content_after_all(None, ops.take(j + 1))->0;
        let after = file_model::content_after_all(None, all)->0;
        assert(after == file_model::overwrite(before, chunk.offset as int, chunk.bytes@));
        assert(chunk.offset + chunk.bytes@.len() <= size);
        assert forall|i: int| 0 <= i < size implies #[trigger] after[i] == (if i < upto * step {
            snapshot_byte(records, i)
        } else {
            0u8
        }) by {
            if chunk.offset <= i < chunk.offset + chunk.bytes@.len() {
                assert(chunk.bytes@[i - chunk.offset] == snapshot_byte(records, i));
            } else {
                assert(after[i] == before[i]);
            }
        }
    }
}

/// Where the page records of a file are its stored pages, none longer than a page, a
/// snapshot holds the bytes of the file.
pub proof fn law_snapshot_holds_the_file(
    records: Seq<(u64, Seq<u8>)>,
    pages: Map<int, Seq<u8>>,
    position: int,
)
    requires
        position >= 0,
        forall|i: int|
            0 <= i < records.len() ==> (#[trigger] records[i]).1.len() <= SQLITE_PAGE_SIZE
                && pages.dom().contains(records[i].0 as int) && pages[records[i].0 as int]
                == records[i].1,
        forall|page: int| #[trigger]
            pages.dom().contains(page) ==> exists|i: int|
                0 <= i < records.len() && (#[trigger] records[i]).0 == page,
    ensures
        snapshot_byte(records, position) == page_law::byte_at(pages, position),
{
    let page = position / SQLITE_PAGE_SIZE as int;
    let at = position % SQLITE_PAGE_SIZE as int;
    page_law::lemma_position(position);
    lemma_snapshot_byte(records, pages, position, records.len() as int);
    assert(records.take(records.len() as int) =~= records);
    if pages.dom().contains(page) {
        let i = choose|i: int| 0 <= i < records.len() && (#[trigger] records[i]).0 == page;
        assert(is_recorded(records, records.len() as int, page));
    } else if is_recorded(records, records.len() as int, page) {
        let i = choose|i: int| 0 <= i < records.len() && (#[trigger] records[i]).0 == page;
        assert(pages.dom().contains(records[i].0 as int));
    }
}

/// Whether one of the first so many records is of a page.
spec fn is_recorded(records: Seq<(u64, Seq<u8>)>, upto: int, page: int) -> bool {
    exists|i: int| 0 <= i < upto && (#[trigger] records[i]).0 == page
}

proof fn lemma_recorded_step(records: Seq<(u64, Seq<u8>)>, upto: int, page: int)
    requires
        0 <= upto < records.len(),
    ensures
        is_recorded(records, upto + 1, page) <==> is_recorded(records, upto, page)
            || records[upto].0 == page,
{
    if is_recorded(records, upto, page) {
        let i = choose|i: int| 0 <= i < upto && (#[trigger] records[i]).0 == page;
        assert(records[i].0 == page);
    }
}

proof fn lemma_snapshot_byte(
    records: Seq<(u64, Seq<u8>)>,
    pages: Map<int, Seq<u8>>,
    position: int,
    upto: int,
)
    requires
        position >= 0,
        0 <= upto <= records.len(),
        forall|i: int|
            0 <= i < records.len() ==> (#[trigger] records[i]).1.len() <= SQLITE_PAGE_SIZE
                && pages.dom().contains(records[i].0 as int) && pages[records[i].0 as int]
                == records[i].1,
    ensures
        snapshot_byte(records.take(upto), position) == (if is_recorded(
            records,
            upto,
            position / SQLITE_PAGE_SIZE as int,
        ) {
            page_law::byte_at(pages, position)
        } else {
            0u8
        }),
    decreases upto,
{
    let unit = SQLITE_PAGE_SIZE as int;
    let page = position / unit;
    let at = position % unit;
    page_law::lemma_position(position);
    if upto > 0 {
        lemma_snapshot_byte(records, pages, position, upto - 1);
        lemma_recorded_step(records, upto - 1, page);
        assert(records.take(upto).drop_last() =~= records.take(upto - 1));
        let (last, bytes) = records[upto - 1];
        assert(records.take(upto).last() == (last, bytes));
        let start = last * unit;
        if last == page {
            assert(start + at == position);
            assert(pages[page] == bytes);
        } else {
            assert(position < start || start + unit <= position) by (nonlinear_arith)
                requires
                    start == last * unit,
                    position == page * unit + at,
                    0 <= at < unit,
                    last != page,
                    unit > 0,
            ;
        }
    }
}

} // verus!
