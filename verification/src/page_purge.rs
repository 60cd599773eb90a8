//! Removing the pages of dropped databases, and measuring what the pages take.

use vstd::prelude::*;

use crate::bytes;
use crate::bytes::copy_bytes;
use crate::bytes::str_equal;
use crate::ordered;
use crate::ordered::put_key;
use crate::ordered::SqliteDatabasePageSyncEntry;
use crate::page_batch;
use crate::page_batch::append_delete;
use crate::page_batch::StoreWrite;
use crate::page_batch::WriteModel;
use crate::page_keys;
use crate::page_keys::parse_current_page_key;
use crate::page_law;

verus! {

/// How long a dropped database is kept.
pub const DEFAULT_DATABASE_PURGE_RETENTION_MS: u64 = 7 * 24 * 60 * 60 * 1000;

/// How many keys one pass of a purge removes.
pub const DEFAULT_DATABASE_PURGE_MAX_KEYS_PER_PASS: usize = 10_000;

/// What a purge did.
#[derive(Debug, Clone, PartialEq, Eq)]
pub struct SqliteDatabasePurgeMetrics {
    pub database: String,
    pub keys_scanned: usize,
    pub keys_deleted: usize,
    pub bytes_deleted: u64,
    pub retention_elapsed_ms: Option<u64>,
    pub skipped_for_retention: bool,
    pub complete: bool,
}

/// When and how fast dropped databases are purged.
#[derive(Debug, Clone, PartialEq, Eq)]
pub struct SqliteDatabasePurgePolicy {
    pub retention_ms: u64,
    pub max_keys_per_pass: usize,
}

impl Default for SqliteDatabasePurgePolicy {
    fn default() -> (policy: SqliteDatabasePurgePolicy)
        ensures
            policy.retention_ms == 604_800_000,
            policy.max_keys_per_pass == 10_000,
    {
        SqliteDatabasePurgePolicy {
            retention_ms: DEFAULT_DATABASE_PURGE_RETENTION_MS,
            max_keys_per_pass: DEFAULT_DATABASE_PURGE_MAX_KEYS_PER_PASS,
        }
    }
}

/// The metrics of a purge that has done nothing.
pub open spec fn is_idle_purge(metrics: SqliteDatabasePurgeMetrics, database: Seq<char>) -> bool {
    &&& metrics.database@ == database
    &&& metrics.keys_scanned == 0
    &&& metrics.keys_deleted == 0
    &&& metrics.bytes_deleted == 0
    &&& metrics.retention_elapsed_ms is None
    &&& !metrics.skipped_for_retention
    &&& !metrics.complete
}

/// The metrics of a purge that has done nothing.
pub fn idle_purge(database: &str) -> (metrics: SqliteDatabasePurgeMetrics)
    ensures
        is_idle_purge(metrics, database@),
{
    SqliteDatabasePurgeMetrics {
        database: database.to_owned(),
        keys_scanned: 0,
        keys_deleted: 0,
        bytes_deleted: 0,
        retention_elapsed_ms: None,
        skipped_for_retention: false,
        complete: false,
    }
}

/// The bytes in the values of the first `upto` records, held at the largest number.
pub open spec fn value_bytes(scan: Seq<SqliteDatabasePageSyncEntry>, upto: int) -> int
    decreases upto,
{
    if upto <= 0 {
        0
    } else {
        let sum = value_bytes(scan, upto - 1) + scan[upto - 1].value@.len();
        if sum > u64::MAX {
            u64::MAX as int
        } else {
            sum
        }
    }
}

/// The number of records that one pass removes.
pub open spec fn purged_keys(records: int, max_keys: int) -> int {
    if records < max_keys {
        records
    } else {
        max_keys
    }
}

/// What one pass writes.
pub open spec fn purge_writes(scan: Seq<SqliteDatabasePageSyncEntry>, max_keys: int) -> Seq<
    WriteModel,
> {
    Seq::new(
        purged_keys(scan.len() as int, max_keys) as nat,
        |i: int| WriteModel { key: scan[i].key@, value: None },
    )
}

/// Plans one pass of a purge: removes the first records, at most `max_keys`. The
/// pass is complete when it leaves none.
pub fn purge_sqlite_database_in_state(
    scan: &Vec<SqliteDatabasePageSyncEntry>,
    database: &str,
    max_keys: usize,
) -> (purge: (SqliteDatabasePurgeMetrics, Vec<StoreWrite>))
    ensures
        max_keys == 0 ==> is_idle_purge(purge.0, database@) && purge.1@.len() == 0,
        max_keys > 0 ==> {
            let deleted = purged_keys(scan@.len() as int, max_keys as int);
            &&& purge.0.database@ == database@
            &&& purge.0.keys_deleted == deleted
            &&& purge.0.keys_scanned == (if scan@.len() > max_keys {
                deleted + 1
            } else {
                deleted
            })
            &&& purge.0.bytes_deleted == value_bytes(scan@, deleted)
            &&& purge.0.retention_elapsed_ms is None
            &&& !purge.0.skipped_for_retention
            &&& purge.0.complete == (scan@.len() <= max_keys)
            &&& page_batch::write_models(purge.1@) == purge_writes(scan@, max_keys as int)
        },
{
    let mut metrics: SqliteDatabasePurgeMetrics = idle_purge(database);
    let mut writes: Vec<StoreWrite> = Vec::new();
    if max_keys == 0 {
        return (metrics, writes);
    }
    let ghost wanted = |upto: int|
        Seq::new(upto as nat, |i: int| WriteModel { key: scan@[i].key@, value: None });
    let mut bytes: u64 = 0;
    let mut i: usize = 0;
    assert(page_batch::write_models(writes@) =~= wanted(0));
    while i < scan.len() && i < max_keys
        invariant
            i <= scan.len(),
            i <= max_keys,
            bytes == value_bytes(scan@, i as int),
            wanted == (|upto: int|
                Seq::new(upto as nat, |i: int| WriteModel { key: scan@[i].key@, value: None })),
            page_batch::write_models(writes@) == wanted(i as int),
        decreases scan.len() - i,
    {
        bytes = bytes.saturating_add(scan[i].value.len() as u64);
        append_delete(&mut writes, copy_bytes(scan[i].key.as_slice()));
        assert(page_batch::write_models(writes@) =~= wanted(i + 1));
        i = i + 1;
    }
    metrics.keys_deleted = i;
    metrics.keys_scanned =
    if scan.len() > max_keys {
        i + 1
    } else {
        i
    };
    metrics.bytes_deleted = bytes;
    metrics.complete = metrics.keys_scanned == metrics.keys_deleted;
    (metrics, writes)
}

/// Where the pages of a database are to be purged.
#[derive(Debug, Clone, Copy, PartialEq, Eq, Structural)]
pub enum PurgeTarget {
    /// There is no such database.
    Nowhere,
    /// In the database's own store.
    Database,
    /// In the shared store, which keeps no databases apart.
    Shared,
}

/// Decides where the pages of a database are to be purged.
pub fn purge_target(databases: &Vec<String>, database: &str) -> (target: PurgeTarget)
    ensures
        target == (if databases@.len() == 0 {
            PurgeTarget::Shared
        } else if ordered::lists_text(databases@, database@) {
            PurgeTarget::Database
        } else {
            PurgeTarget::Nowhere
        }),
        match target {
            PurgeTarget::Shared => databases@.len() == 0,
            PurgeTarget::Database => exists|i: int|
                0 <= i < databases@.len() && (#[trigger] databases@[i])@ == database@,
            PurgeTarget::Nowhere => databases@.len() > 0 && forall|i: int|
                0 <= i < databases@.len() ==> (#[trigger] databases@[i])@ != database@,
        },
{
    if databases.len() == 0 {
        return PurgeTarget::Shared;
    }
    let mut i: usize = 0;
    while i < databases.len()
        invariant
            i <= databases.len(),
            databases@.len() > 0,
            forall|k: int| 0 <= k < i ==> (#[trigger] databases@[k])@ != database@,
        decreases databases.len() - i,
    {
        if str_equal(databases[i].as_str(), database) {
            return PurgeTarget::Database;
        }
        i = i + 1;
    }
    PurgeTarget::Nowhere
}

/// The metrics of a purge of a database that does not exist: nothing is left of it.
pub fn purge_nowhere(database: &str) -> (metrics: SqliteDatabasePurgeMetrics)
    ensures
        metrics.complete,
        is_idle_purge(
            SqliteDatabasePurgeMetrics { complete: false, ..metrics },
            database@,
        ),
{
    let mut metrics: SqliteDatabasePurgeMetrics = idle_purge(database);
    metrics.complete = true;
    metrics
}

/// A sum held at the largest number.
pub open spec fn capped_usize(sum: int) -> usize {
    if sum > usize::MAX {
        usize::MAX
    } else {
        sum as usize
    }
}

/// A sum held at the largest number.
pub open spec fn capped_u64(sum: int) -> u64 {
    if sum > u64::MAX {
        u64::MAX
    } else {
        sum as u64
    }
}

/// Adds a pass to a purge that goes on until nothing is left. Says whether it is
/// over: when a pass was complete, or removed nothing.
pub fn add_purge_pass(
    total: &mut SqliteDatabasePurgeMetrics,
    pass: &SqliteDatabasePurgeMetrics,
) -> (over: bool)
    ensures
        over == (pass.complete || pass.keys_deleted == 0),
        final(total).database == old(total).database,
        final(total).keys_scanned == capped_usize(old(total).keys_scanned + pass.keys_scanned),
        final(total).keys_deleted == capped_usize(old(total).keys_deleted + pass.keys_deleted),
        final(total).bytes_deleted == capped_u64(old(total).bytes_deleted + pass.bytes_deleted),
        final(total).retention_elapsed_ms == old(total).retention_elapsed_ms,
        final(total).skipped_for_retention == old(total).skipped_for_retention,
        final(total).complete == (if pass.complete || pass.keys_deleted == 0 {
            pass.complete
        } else {
            old(total).complete
        }),
        pass.complete ==> over && final(total).complete,
        !pass.complete && pass.keys_deleted > 0 ==> !over,
        !pass.complete && pass.keys_deleted == 0 ==> over && !final(total).complete,
        old(total).keys_deleted <= final(total).keys_deleted,
        final(total).keys_deleted < usize::MAX ==> final(total).keys_deleted - old(
            total,
        ).keys_deleted == pass.keys_deleted,
        final(total).keys_scanned < usize::MAX ==> final(total).keys_scanned - old(
            total,
        ).keys_scanned == pass.keys_scanned,
        final(total).bytes_deleted < u64::MAX ==> final(total).bytes_deleted - old(
            total,
        ).bytes_deleted == pass.bytes_deleted,
{
    total.keys_scanned = total.keys_scanned.saturating_add(pass.keys_scanned);
    total.keys_deleted = total.keys_deleted.saturating_add(pass.keys_deleted);
    total.bytes_deleted = total.bytes_deleted.saturating_add(pass.bytes_deleted);
    if pass.complete || pass.keys_deleted == 0 {
        total.complete = pass.complete;
        true
    } else {
        false
    }
}

/// A pass removes page records of the database and nothing else, and a complete one
/// leaves none of them behind.
pub proof fn law_purge_removes_only_pages(
    store: Map<Seq<u8>, Seq<u8>>,
    database: Seq<u8>,
    scan: Seq<SqliteDatabasePageSyncEntry>,
    max_keys: int,
)
    requires
        max_keys > 0,
        forall|key: Seq<u8>| #[trigger]
            ordered::has_key(scan, key) <==> store.dom().contains(key) && bytes::has_prefix(
                key,
                page_keys::database_prefix_of(database),
            ),
    ensures
        forall|key: Seq<u8>|
            (#[trigger] page_batch::store_after_all(
                store,
                purge_writes(scan, max_keys),
            ).dom().contains(key)) ==> store.dom().contains(key) && page_batch::store_after_all(
                store,
                purge_writes(scan, max_keys),
            )[key] == store[key],
        forall|key: Seq<u8>|
            store.dom().contains(key) && !bytes::has_prefix(key, page_keys::database_prefix_of(database))
                ==> #[trigger] page_batch::store_after_all(
                store,
                purge_writes(scan, max_keys),
            ).dom().contains(key),
        scan.len() <= max_keys ==> forall|key: Seq<u8>|
            (#[trigger] page_batch::store_after_all(
                store,
                purge_writes(scan, max_keys),
            ).dom().contains(key)) ==> !bytes::has_prefix(key, page_keys::database_prefix_of(database)),
{
    let writes = purge_writes(scan, max_keys);
    let after = page_batch::store_after_all(store, writes);
    assert forall|key: Seq<u8>|
        (#[trigger] after.dom().contains(key) ==> store.dom().contains(key) && after[key]
            == store[key]) && (store.dom().contains(key) && !bytes::has_prefix(
            key,
            page_keys::database_prefix_of(database),
        ) ==> after.dom().contains(key)) && (scan.len() <= max_keys && after.dom().contains(key)
            ==> !bytes::has_prefix(key, page_keys::database_prefix_of(database))) by {
        page_law::lemma_store_after_lookup(store, writes, key);
        if exists|i: int| 0 <= i < writes.len() && (#[trigger] writes[i]).key == key {
            let i = choose|i: int| 0 <= i < writes.len() && (#[trigger] writes[i]).key == key;
            page_law::lemma_removed_key(store, writes, key);
            assert(scan[i].key@ == key);
            assert(ordered::has_key(scan, key));
        } else if scan.len() <= max_keys && ordered::has_key(scan, key) {
            let k = ordered::key_position(scan, key);
            assert(writes[k].key == key);
        }
    }
}

/// A purge that keeps removing up to `max_keys` records makes progress as long as any
/// are left, and is over when none is.
pub proof fn law_purge_makes_progress(records: int, max_keys: int)
    requires
        records >= 0,
        max_keys > 0,
    ensures
        records > 0 ==> purged_keys(records, max_keys) > 0,
        0 <= records - purged_keys(records, max_keys),
        records <= max_keys <==> records - purged_keys(records, max_keys) == 0,
{
}

/// What a purge of a tombstoned database may do.
#[derive(Debug, Clone, PartialEq, Eq)]
pub enum TombstonePurge {
    /// The database is still kept; these are the metrics to report.
    Keep(SqliteDatabasePurgeMetrics),
    /// The database may be purged.
    Purge { retention_elapsed_ms: u64 },
}

/// The time since a database was dropped.
pub open spec fn elapsed(deleted_at_ms: u64, now_ms: u64) -> int {
    if now_ms > deleted_at_ms {
        now_ms - deleted_at_ms
    } else {
        0
    }
}

/// Decides whether a tombstoned database may be purged.
pub fn purge_tombstoned_sqlite_database(
    database: &str,
    deleted_at_ms: u64,
    now_ms: u64,
    policy: &SqliteDatabasePurgePolicy,
) -> (decision: Result<TombstonePurge, String>)
    ensures
        decision is Err <==> database@.len() == 0 || policy.max_keys_per_pass == 0,
        decision matches Err(message) ==> message@ == (if database@.len() == 0 {
            "database name must not be empty"@
        } else {
            "SQLite database purge max_keys_per_pass must be greater than zero"@
        }),
        decision matches Ok(TombstonePurge::Keep(metrics)) ==> elapsed(deleted_at_ms, now_ms)
            < policy.retention_ms && metrics.retention_elapsed_ms == Some(
            elapsed(deleted_at_ms, now_ms) as u64,
        ) && metrics.skipped_for_retention && is_idle_purge(
            (SqliteDatabasePurgeMetrics {
                retention_elapsed_ms: None,
                skipped_for_retention: false,
                ..metrics
            }),
            database@,
        ),
        decision matches Ok(TombstonePurge::Purge { retention_elapsed_ms }) ==> elapsed(
            deleted_at_ms,
            now_ms,
        ) >= policy.retention_ms && retention_elapsed_ms == elapsed(deleted_at_ms, now_ms),
{
    if database.is_empty() {
        return Err("database name must not be empty".to_owned());
    }
    if policy.max_keys_per_pass == 0 {
        return Err("SQLite database purge max_keys_per_pass must be greater than zero".to_owned());
    }
    let retention_elapsed_ms: u64 = now_ms.saturating_sub(deleted_at_ms);
    if retention_elapsed_ms < policy.retention_ms {
        let mut metrics: SqliteDatabasePurgeMetrics = idle_purge(database);
        metrics.retention_elapsed_ms = Some(retention_elapsed_ms);
        metrics.skipped_for_retention = true;
        return Ok(TombstonePurge::Keep(metrics));
    }
    Ok(TombstonePurge::Purge { retention_elapsed_ms })
}

/// What the pages of databases take.
#[derive(Debug, Clone, Copy, PartialEq, Eq, Structural)]
pub struct SqliteStoragePressureMetrics {
    pub databases: usize,
    pub files: usize,
    pub current_pages: usize,
    pub obsolete_page_versions: usize,
    pub obsolete_versions: usize,
    pub bytes_scanned: u64,
    pub obsolete_bytes: u64,
    pub compaction_eligible_files: usize,
}

impl Default for SqliteStoragePressureMetrics {
    fn default() -> (metrics: SqliteStoragePressureMetrics)
        ensures
            metrics == no_pressure(),
    {
        SqliteStoragePressureMetrics {
            databases: 0,
            files: 0,
            current_pages: 0,
            obsolete_page_versions: 0,
            obsolete_versions: 0,
            bytes_scanned: 0,
            obsolete_bytes: 0,
            compaction_eligible_files: 0,
        }
    }
}

/// Metrics of nothing.
pub open spec fn no_pressure() -> SqliteStoragePressureMetrics {
    SqliteStoragePressureMetrics {
        databases: 0,
        files: 0,
        current_pages: 0,
        obsolete_page_versions: 0,
        obsolete_versions: 0,
        bytes_scanned: 0,
        obsolete_bytes: 0,
        compaction_eligible_files: 0,
    }
}

/// Whether a record is a page.
pub open spec fn is_page(key: Seq<u8>) -> bool {
    page_keys::current_key_parts(key) is Some
}

/// The number of pages among the first `upto` records.
pub open spec fn page_total(scan: Seq<SqliteDatabasePageSyncEntry>, upto: int) -> int
    decreases upto,
{
    if upto <= 0 {
        0
    } else {
        page_total(scan, upto - 1) + if is_page(scan[upto - 1].key@) {
            1int
        } else {
            0int
        }
    }
}

/// The bytes in the pages among the first `upto` records, held at the largest number.
pub open spec fn page_bytes_total(scan: Seq<SqliteDatabasePageSyncEntry>, upto: int) -> int
    decreases upto,
{
    if upto <= 0 {
        0
    } else if is_page(scan[upto - 1].key@) {
        capped_u64(page_bytes_total(scan, upto - 1) + scan[upto - 1].value@.len()) as int
    } else {
        page_bytes_total(scan, upto - 1)
    }
}

/// The file of a page record.
pub open spec fn paged_file(key: Seq<u8>) -> Option<Seq<u8>> {
    match page_keys::current_key_parts(key) {
        Some((file, _)) => Some(file),
        None => None,
    }
}

/// Whether a file has a page among the first `upto` records.
pub open spec fn has_page(scan: Seq<SqliteDatabasePageSyncEntry>, upto: int, file: Seq<u8>) -> bool {
    exists|k: int| 0 <= k < upto && paged_file((#[trigger] scan[k]).key@) == Some(file)
}

/// Whether `files` lists the files that have pages, each once.
pub open spec fn lists_paged_files(
    files: Seq<Vec<u8>>,
    scan: Seq<SqliteDatabasePageSyncEntry>,
    upto: int,
) -> bool {
    ordered::ordered_keys(files) && forall|file: Seq<u8>| #[trigger]
        ordered::lists_key(files, file) <==> has_page(scan, upto, file)
}

/// Measures the pages of one store.
pub fn sqlite_storage_pressure_in_state(
    scan: &Vec<SqliteDatabasePageSyncEntry>,
    database_count_when_non_empty: usize,
) -> (metrics: SqliteStoragePressureMetrics)
    ensures
        exists|files: Seq<Vec<u8>>| #[trigger]
            lists_paged_files(files, scan@, scan@.len() as int) && metrics == (
            SqliteStoragePressureMetrics {
                databases: if files.len() == 0 {
                    0
                } else {
                    database_count_when_non_empty
                },
                files: files.len() as usize,
                current_pages: page_total(scan@, scan@.len() as int) as usize,
                bytes_scanned: page_bytes_total(scan@, scan@.len() as int) as u64,
                ..no_pressure()
            }),
{
    let mut files: Vec<Vec<u8>> = Vec::new();
    let mut pages: usize = 0;
    let mut bytes: u64 = 0;
    let mut i: usize = 0;
    while i < scan.len()
        invariant
            i <= scan.len(),
            pages <= i,
            pages == page_total(scan@, i as int),
            bytes == page_bytes_total(scan@, i as int),
            lists_paged_files(files@, scan@, i as int),
        decreases scan.len() - i,
    {
        proof {
            lemma_has_page_step(scan@, i as int);
        }
        if let Some((file, _page)) = parse_current_page_key(scan[i].key.as_slice()) {
            bytes = bytes.saturating_add(scan[i].value.len() as u64);
            pages = pages + 1;
            put_key(&mut files, file);
        }
        i = i + 1;
    }
    let mut metrics: SqliteStoragePressureMetrics = SqliteStoragePressureMetrics::default();
    metrics.databases =
    if files.len() == 0 {
        0
    } else {
        database_count_when_non_empty
    };
    metrics.files = files.len();
    metrics.current_pages = pages;
    metrics.bytes_scanned = bytes;
    assert(lists_paged_files(files@, scan@, scan@.len() as int));
    metrics
}

proof fn lemma_has_page_step(scan: Seq<SqliteDatabasePageSyncEntry>, i: int)
    requires
        0 <= i < scan.len(),
    ensures
        forall|file: Seq<u8>| #[trigger]
            has_page(scan, i + 1, file) <==> has_page(scan, i, file) || paged_file(scan[i].key@)
                == Some(file),
{
    assert forall|file: Seq<u8>| #[trigger] has_page(scan, i + 1, file) <==> has_page(
        scan,
        i,
        file,
    ) || paged_file(scan[i].key@) == Some(file) by {
        if has_page(scan, i + 1, file) {
            let k = choose|k: int|
                0 <= k < i + 1 && paged_file((#[trigger] scan[k]).key@) == Some(file);
            assert(k == i || has_page(scan, i, file));
        }
        if has_page(scan, i, file) {
            let k = choose|k: int| 0 <= k < i && paged_file((#[trigger] scan[k]).key@) == Some(file);
            assert(0 <= k < i + 1);
        }
    }
}

/// Adds what one database takes to what many take. The number of databases is known
/// beforehand and stays.
pub fn add_storage_pressure(
    total: &mut SqliteStoragePressureMetrics,
    part: &SqliteStoragePressureMetrics,
)
    requires
        old(total).files + part.files <= usize::MAX,
        old(total).current_pages + part.current_pages <= usize::MAX,
        old(total).obsolete_page_versions + part.obsolete_page_versions <= usize::MAX,
        old(total).obsolete_versions + part.obsolete_versions <= usize::MAX,
        old(total).bytes_scanned + part.bytes_scanned <= u64::MAX,
        old(total).obsolete_bytes + part.obsolete_bytes <= u64::MAX,
        old(total).compaction_eligible_files + part.compaction_eligible_files <= usize::MAX,
    ensures
        *final(total) == (SqliteStoragePressureMetrics {
            databases: old(total).databases,
            files: (old(total).files + part.files) as usize,
            current_pages: (old(total).current_pages + part.current_pages) as usize,
            obsolete_page_versions: (old(total).obsolete_page_versions
                + part.obsolete_page_versions) as usize,
            obsolete_versions: (old(total).obsolete_versions + part.obsolete_versions) as usize,
            bytes_scanned: (old(total).bytes_scanned + part.bytes_scanned) as u64,
            obsolete_bytes: (old(total).obsolete_bytes + part.obsolete_bytes) as u64,
            compaction_eligible_files: (old(total).compaction_eligible_files
                + part.compaction_eligible_files) as usize,
        }),
{
    total.files = total.files + part.files;
    total.current_pages = total.current_pages + part.current_pages;
    total.obsolete_page_versions = total.obsolete_page_versions + part.obsolete_page_versions;
    total.obsolete_versions = total.obsolete_versions + part.obsolete_versions;
    total.bytes_scanned = total.bytes_scanned + part.bytes_scanned;
    total.obsolete_bytes = total.obsolete_bytes + part.obsolete_bytes;
    total.compaction_eligible_files =
    total.compaction_eligible_files + part.compaction_eligible_files;
}

/// What a compaction did.
#[derive(Debug, Clone, Copy, PartialEq, Eq, Structural)]
pub struct SqlitePageCompactionMetrics {
    pub files_scanned: usize,
    pub files_compacted: usize,
    pub versions_scanned: usize,
    pub obsolete_versions: usize,
    pub deleted_versions: usize,
    pub highest_deleted_version: Option<u64>,
    pub bytes_scanned: u64,
    pub obsolete_bytes: u64,
    pub deleted_bytes: u64,
    pub duration_ms: u64,
}

/// Metrics of a compaction that found nothing to do in `duration_ms`.
pub open spec fn idle_compaction(duration_ms: u64) -> SqlitePageCompactionMetrics {
    SqlitePageCompactionMetrics {
        files_scanned: 0,
        files_compacted: 0,
        versions_scanned: 0,
        obsolete_versions: 0,
        deleted_versions: 0,
        highest_deleted_version: None,
        bytes_scanned: 0,
        obsolete_bytes: 0,
        deleted_bytes: 0,
        duration_ms,
    }
}

impl Default for SqlitePageCompactionMetrics {
    fn default() -> (metrics: SqlitePageCompactionMetrics)
        ensures
            metrics == idle_compaction(0),
    {
        compact_sqlite_page_versions_in_state(0)
    }
}

/// Compacts one store. Current pages have no obsolete versions, so there is never
/// anything to do but to report the time that it took.
pub fn compact_sqlite_page_versions_in_state(duration_ms: u64) -> (metrics:
    SqlitePageCompactionMetrics)
    ensures
        metrics == idle_compaction(duration_ms),
{
    SqlitePageCompactionMetrics {
        files_scanned: 0,
        files_compacted: 0,
        versions_scanned: 0,
        obsolete_versions: 0,
        deleted_versions: 0,
        highest_deleted_version: None,
        bytes_scanned: 0,
        obsolete_bytes: 0,
        deleted_bytes: 0,
        duration_ms,
    }
}

/// The higher of two versions; no version is below any.
pub open spec fn higher_version(left: Option<u64>, right: Option<u64>) -> Option<u64> {
    match (left, right) {
        (Some(a), Some(b)) => Some(
            if a < b {
                b
            } else {
                a
            },
        ),
        (Some(a), None) => Some(a),
        (None, other) => other,
    }
}

/// Adds what a compaction did in one database to what it did in many.
pub fn add_compaction(total: &mut SqlitePageCompactionMetrics, part: &SqlitePageCompactionMetrics)
    requires
        old(total).files_scanned + part.files_scanned <= usize::MAX,
        old(total).files_compacted + part.files_compacted <= usize::MAX,
        old(total).versions_scanned + part.versions_scanned <= usize::MAX,
        old(total).obsolete_versions + part.obsolete_versions <= usize::MAX,
        old(total).deleted_versions + part.deleted_versions <= usize::MAX,
        old(total).bytes_scanned + part.bytes_scanned <= u64::MAX,
        old(total).obsolete_bytes + part.obsolete_bytes <= u64::MAX,
        old(total).deleted_bytes + part.deleted_bytes <= u64::MAX,
        old(total).duration_ms + part.duration_ms <= u64::MAX,
    ensures
        *final(total) == (SqlitePageCompactionMetrics {
            files_scanned: (old(total).files_scanned + part.files_scanned) as usize,
            files_compacted: (old(total).files_compacted + part.files_compacted) as usize,
            versions_scanned: (old(total).versions_scanned + part.versions_scanned) as usize,
            obsolete_versions: (old(total).obsolete_versions + part.obsolete_versions) as usize,
            deleted_versions: (old(total).deleted_versions + part.deleted_versions) as usize,
            highest_deleted_version: higher_version(
                old(total).highest_deleted_version,
                part.highest_deleted_version,
            ),
            bytes_scanned: (old(total).bytes_scanned + part.bytes_scanned) as u64,
            obsolete_bytes: (old(total).obsolete_bytes + part.obsolete_bytes) as u64,
            deleted_bytes: (old(total).deleted_bytes + part.deleted_bytes) as u64,
            duration_ms: (old(total).duration_ms + part.duration_ms) as u64,
        }),
{
    total.files_scanned = total.files_scanned + part.files_scanned;
    total.files_compacted = total.files_compacted + part.files_compacted;
    total.versions_scanned = total.versions_scanned + part.versions_scanned;
    total.obsolete_versions = total.obsolete_versions + part.obsolete_versions;
    total.deleted_versions = total.deleted_versions + part.deleted_versions;
    total.highest_deleted_version =
    match (total.highest_deleted_version, part.highest_deleted_version) {
        (Some(a), Some(b)) => Some(
            if a < b {
                b
            } else {
                a
            },
        ),
        (Some(a), None) => Some(a),
        (None, other) => other,
    };
    total.bytes_scanned = total.bytes_scanned + part.bytes_scanned;
    total.obsolete_bytes = total.obsolete_bytes + part.obsolete_bytes;
    total.deleted_bytes = total.deleted_bytes + part.deleted_bytes;
    total.duration_ms = total.duration_ms + part.duration_ms;
}

/// Whether a name is among some names.
pub open spec fn names_it(names: Seq<String>, name: Seq<char>) -> bool {
    exists|i: int| 0 <= i < names.len() && (#[trigger] names[i])@ == name
}

/// The databases that are compacted, in their order: all but the excluded ones.
pub open spec fn targets_of(databases: Seq<String>, excluded: Seq<String>) -> Seq<Seq<char>>
    decreases databases.len(),
{
    if databases.len() == 0 {
        Seq::empty()
    } else {
        let front = targets_of(databases.drop_last(), excluded);
        if names_it(excluded, databases.last()@) {
            front
        } else {
            front.push(databases.last()@)
        }
    }
}

/// The databases that are compacted.
pub fn compaction_targets(databases: &Vec<String>, excluded: &Vec<String>) -> (targets: Vec<String>)
    ensures
        targets@.len() == targets_of(databases@, excluded@).len(),
        forall|i: int|
            0 <= i < targets@.len() ==> (#[trigger] targets@[i])@ == targets_of(
                databases@,
                excluded@,
            )[i],
{
    let mut targets: Vec<String> = Vec::new();
    let mut i: usize = 0;
    while i < databases.len()
        invariant
            i <= databases@.len(),
            targets@.len() == targets_of(databases@.take(i as int), excluded@).len(),
            forall|k: int|
                0 <= k < targets@.len() ==> (#[trigger] targets@[k])@ == targets_of(
                    databases@.take(i as int),
                    excluded@,
                )[k],
        decreases databases@.len() - i,
    {
        assert(databases@.take(i + 1).drop_last() =~= databases@.take(i as int));
        let mut left_out: bool = false;
        let mut k: usize = 0;
        while k < excluded.len() && !left_out
            invariant
                i < databases@.len(),
                k <= excluded@.len(),
                left_out == names_it(excluded@.take(k as int), databases@[i as int]@),
            decreases excluded@.len() - k,
        {
            let ghost name = databases@[i as int]@;
            if str_equal(excluded[k].as_str(), databases[i].as_str()) {
                left_out = true;
                assert(excluded@.take(k + 1)[k as int]@ == name);
            } else {
                assert forall|m: int| 0 <= m < k + 1 implies (#[trigger] excluded@.take(
                    k + 1,
                )[m])@ != name by {
                    if m < k {
                        assert(excluded@.take(k as int)[m]@ != name);
                    }
                }
            }
            k = k + 1;
        }
        proof {
            let name = databases@[i as int]@;
            if left_out {
                let m = choose|m: int|
                    0 <= m < k && (#[trigger] excluded@.take(k as int)[m])@ == name;
                assert(excluded@[m]@ == name);
            } else {
                assert(excluded@.take(k as int) =~= excluded@);
            }
        }
        if !left_out {
            targets.push(databases[i].clone());
        }
        i = i + 1;
    }
    assert(databases@.take(i as int) =~= databases@);
    targets
}

} // verus!
