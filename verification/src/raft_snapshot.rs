//! Snapshots of a group: what their manifest says, and how they are installed.

use vstd::prelude::*;
use vstd::slice::*;
use vstd::string::*;

use crate::apply;
use crate::bytes::bytes_equal;
use crate::bytes::copy_bytes;
use crate::bytes::str_equal;
use crate::checkpoint;
use crate::checkpoint::read_checkpoint_id;
use crate::checkpoint::SlateDbCheckpointArtifact;
use crate::ordered;
use crate::page_batch;
use crate::page_batch::append_delete;
use crate::page_batch::append_put;
use crate::page_batch::StoreWrite;
use crate::page_batch::WriteModel;
use crate::page_law;
use crate::state;
use crate::state::sanitize_path_segment;
use crate::state::sqlite_database_path;
use crate::text;
use crate::text::append_number;

verus! {

broadcast use {group_string_axioms, group_slice_axioms};

/// The version of the manifests that are written.
pub const SNAPSHOT_MANIFEST_FORMAT_VERSION: u16 = 2;

/// The oldest version of a manifest that can be read.
pub const MIN_SUPPORTED_SNAPSHOT_MANIFEST_FORMAT_VERSION: u16 = 1;

/// What a snapshot stands for: the last log entry and the members, in their stored
/// form, and the snapshot's name.
#[derive(Debug, Clone, PartialEq, Eq)]
pub struct SnapshotIdentity {
    pub last_log_id: Option<Vec<u8>>,
    pub last_membership: Vec<u8>,
    pub snapshot_id: String,
}

/// The model of what a snapshot stands for.
#[verifier::ext_equal]
pub struct IdentityModel {
    pub last_log_id: Option<Seq<u8>>,
    pub last_membership: Seq<u8>,
    pub snapshot_id: Seq<char>,
}

impl View for SnapshotIdentity {
    type V = IdentityModel;

    open spec fn view(&self) -> IdentityModel {
        IdentityModel {
            last_log_id: apply::optional_bytes(self.last_log_id),
            last_membership: self.last_membership@,
            snapshot_id: self.snapshot_id@,
        }
    }
}

/// The checkpoint of one database in a snapshot.
#[derive(Debug, Clone, PartialEq, Eq)]
pub struct OrionSnapshotSqliteDatabase {
    pub database: String,
    pub slate_db_path: String,
    pub checkpoint_id: String,
    pub checkpoint_manifest_id: u64,
    pub checkpoint_artifact: Option<SlateDbCheckpointArtifact>,
}

/// What a snapshot consists of: the checkpoint of the node's store and one of each
/// database's store.
#[derive(Debug, Clone, PartialEq, Eq)]
pub struct OrionSnapshotManifest {
    pub format_version: u16,
    pub meta: SnapshotIdentity,
    pub slate_db_path: String,
    pub checkpoint_id: String,
    pub checkpoint_manifest_id: u64,
    pub checkpoint_artifact: Option<SlateDbCheckpointArtifact>,
    pub sqlite_databases: Vec<OrionSnapshotSqliteDatabase>,
}

/// The name of a snapshot, by the leader and the index of the last entry.
pub open spec fn snapshot_name(last: Option<(Seq<char>, u64)>) -> Seq<char> {
    match last {
        Some((leader, index)) => leader + "-"@ + text::number_text(index as nat),
        None => "empty"@,
    }
}

/// The name of the snapshot of a group that has applied nothing.
pub fn empty_snapshot_id() -> (id: String)
    ensures
        id@ == snapshot_name(None),
{
    "empty".to_owned()
}

/// The name of a snapshot, by the leader and the index of the last entry.
pub fn snapshot_id(leader: &str, index: u64) -> (id: String)
    ensures
        id@ == snapshot_name(Some((leader@, index))),
{
    let mut id: String = leader.to_owned();
    id.append("-");
    append_number(&mut id, index);
    id
}

/// The name of the checkpoint of the node's store.
pub fn snapshot_checkpoint_name(snapshot_id: &str) -> (name: String)
    ensures
        name@ == "openraft-snapshot-"@ + snapshot_id@,
{
    let mut name: String = "openraft-snapshot-".to_owned();
    name.append(snapshot_id);
    name
}

/// The name of the checkpoint of a database's store.
pub fn database_checkpoint_name(snapshot_id: &str, database: &str) -> (name: String)
    ensures
        name@ == "openraft-snapshot-"@ + snapshot_id@ + "-"@ + database@,
{
    let mut name = snapshot_checkpoint_name(snapshot_id);
    name.append("-");
    name.append(database);
    name
}

/// Whether an artifact is the checkpoint of the store at a path.
pub open spec fn is_artifact_of(
    artifact: Option<SlateDbCheckpointArtifact>,
    path: Seq<char>,
    checkpoint_id: Seq<char>,
    manifest_id: u64,
) -> bool {
    artifact matches Some(found) && found.db_path@ == path && found.checkpoint_id@ == checkpoint_id
        && found.checkpoint_manifest_id == manifest_id && found.object_prefix@ == path
}

/// Whether an entry of a manifest is the checkpoint of a database's store.
pub open spec fn is_database_entry(
    entry: OrionSnapshotSqliteDatabase,
    database: Seq<char>,
    path: Seq<char>,
    checkpoint_id: Seq<char>,
    manifest_id: u64,
) -> bool {
    &&& entry.database@ == database
    &&& entry.slate_db_path@ == path
    &&& entry.checkpoint_id@ == checkpoint_id
    &&& entry.checkpoint_manifest_id == manifest_id
    &&& is_artifact_of(entry.checkpoint_artifact, path, checkpoint_id, manifest_id)
}

/// The entry of a manifest for a database.
pub fn database_entry(database: String, path: &str, checkpoint_id: &str, manifest_id: u64) -> (entry:
    OrionSnapshotSqliteDatabase)
    ensures
        is_database_entry(entry, database@, path@, checkpoint_id@, manifest_id),
{
    OrionSnapshotSqliteDatabase {
        database,
        slate_db_path: path.to_owned(),
        checkpoint_id: checkpoint_id.to_owned(),
        checkpoint_manifest_id: manifest_id,
        checkpoint_artifact: Some(
            SlateDbCheckpointArtifact::of_store(path, checkpoint_id, manifest_id),
        ),
    }
}

/// The manifest of a snapshot.
pub fn build_manifest(
    meta: SnapshotIdentity,
    path: &str,
    checkpoint_id: &str,
    manifest_id: u64,
    sqlite_databases: Vec<OrionSnapshotSqliteDatabase>,
) -> (manifest: OrionSnapshotManifest)
    ensures
        manifest.format_version == SNAPSHOT_MANIFEST_FORMAT_VERSION,
        manifest.meta == meta,
        manifest.slate_db_path@ == path@,
        manifest.checkpoint_id@ == checkpoint_id@,
        manifest.checkpoint_manifest_id == manifest_id,
        is_artifact_of(manifest.checkpoint_artifact, path@, checkpoint_id@, manifest_id),
        manifest.sqlite_databases == sqlite_databases,
{
    OrionSnapshotManifest {
        format_version: SNAPSHOT_MANIFEST_FORMAT_VERSION,
        meta,
        slate_db_path: path.to_owned(),
        checkpoint_id: checkpoint_id.to_owned(),
        checkpoint_manifest_id: manifest_id,
        checkpoint_artifact: Some(
            SlateDbCheckpointArtifact::of_store(path, checkpoint_id, manifest_id),
        ),
        sqlite_databases,
    }
}

/// Whether a manifest of this version can be read.
pub open spec fn is_supported(format_version: u16) -> bool {
    MIN_SUPPORTED_SNAPSHOT_MANIFEST_FORMAT_VERSION <= format_version
        <= SNAPSHOT_MANIFEST_FORMAT_VERSION
}

/// Whether a manifest of this version can be read.
pub fn supported_snapshot_manifest_format(format_version: u16) -> (supported: bool)
    ensures
        supported == is_supported(format_version),
{
    MIN_SUPPORTED_SNAPSHOT_MANIFEST_FORMAT_VERSION <= format_version && format_version
        <= SNAPSHOT_MANIFEST_FORMAT_VERSION
}

/// The message for a manifest of another version.
pub open spec fn unsupported_manifest_message(format_version: u16) -> Seq<char> {
    "unsupported snapshot manifest version "@ + text::number_text(format_version as nat)
}

/// Checks that a manifest of this version can be read.
pub fn check_manifest_format(format_version: u16) -> (checked: Result<(), String>)
    ensures
        checked is Ok <==> is_supported(format_version),
        checked matches Err(message) ==> message@ == unsupported_manifest_message(format_version),
{
    if supported_snapshot_manifest_format(format_version) {
        return Ok(());
    }
    let mut message: String = "unsupported snapshot manifest version ".to_owned();
    append_number(&mut message, format_version as u64);
    Err(message)
}

fn same_record(left: &Option<Vec<u8>>, right: &Option<Vec<u8>>) -> (same: bool)
    ensures
        same == (apply::optional_bytes(*left) == apply::optional_bytes(*right)),
{
    match (left, right) {
        (None, None) => true,
        (Some(one), Some(two)) => bytes_equal(one.as_slice(), two.as_slice()),
        _ => false,
    }
}

/// Whether two identities are the same.
pub fn same_identity(left: &SnapshotIdentity, right: &SnapshotIdentity) -> (same: bool)
    ensures
        same == (left@ == right@),
{
    same_record(&left.last_log_id, &right.last_log_id) && bytes_equal(
        left.last_membership.as_slice(),
        right.last_membership.as_slice(),
    ) && str_equal(left.snapshot_id.as_str(), right.snapshot_id.as_str())
}

/// Why a snapshot is not installed.
pub open spec fn install_refusal(
    format_version: u16,
    found: IdentityModel,
    wanted: IdentityModel,
) -> Option<Seq<char>> {
    if !is_supported(format_version) {
        Some(unsupported_manifest_message(format_version))
    } else if found != wanted {
        Some("snapshot metadata does not match payload"@)
    } else {
        None
    }
}

/// Decides whether the snapshot that arrived may be installed as the one that was
/// announced.
pub fn check_install(manifest: &OrionSnapshotManifest, meta: &SnapshotIdentity) -> (checked: Result<
    (),
    String,
>)
    ensures
        match install_refusal(manifest.format_version, manifest.meta@, meta@) {
            None => checked is Ok,
            Some(refusal) => checked matches Err(message) && message@ == refusal,
        },
{
    if let Err(message) = check_manifest_format(manifest.format_version) {
        return Err(message);
    }
    if !same_identity(&manifest.meta, meta) {
        return Err("snapshot metadata does not match payload".to_owned());
    }
    Ok(())
}

/// A store that has to be cloned from a checkpoint.
#[derive(Debug, Clone, PartialEq, Eq)]
pub struct CheckpointClone {
    pub target_path: String,
    pub source_path: String,
    pub checkpoint: u128,
}

/// The checkpoint to clone from: that of the artifact where there is one.
pub open spec fn clone_source(
    artifact: Option<SlateDbCheckpointArtifact>,
    path: Seq<char>,
    checkpoint_id: Seq<char>,
) -> (Seq<char>, Seq<char>) {
    match artifact {
        Some(found) => (found.db_path@, found.checkpoint_id@),
        None => (path, checkpoint_id),
    }
}

/// Where a snapshot is installed.
pub open spec fn install_path_of(
    state_path: Seq<char>,
    snapshot_id: Seq<char>,
    checkpoint_id: Seq<char>,
) -> Seq<char> {
    state_path + "/installed-snapshot-"@ + state::path_segment(ordered::text_bytes(snapshot_id))
        + "-"@ + state::path_segment(ordered::text_bytes(checkpoint_id))
}

/// Whether a plan clones a checkpoint to a path, or else gives the error of the
/// checkpoint's identifier.
pub open spec fn clones(
    plan: Result<CheckpointClone, String>,
    target: Seq<char>,
    source: (Seq<char>, Seq<char>),
) -> bool {
    match (plan, checkpoint::uuid_reading(source.1)) {
        (Ok(step), Ok(id)) => step.target_path@ == target && step.source_path@ == source.0
            && step.checkpoint == id,
        (Err(message), Err(text)) => message@ == text,
        _ => false,
    }
}

fn pick_source<'a>(
    artifact: &'a Option<SlateDbCheckpointArtifact>,
    path: &'a String,
    checkpoint_id: &'a String,
) -> (source: (&'a String, &'a String))
    ensures
        (source.0@, source.1@) == clone_source(*artifact, path@, checkpoint_id@),
{
    match artifact {
        Some(found) => (&found.db_path, &found.checkpoint_id),
        None => (path, checkpoint_id),
    }
}

/// Plans the clone of the node's store.
pub fn plan_root_clone(state_path: &str, meta: &SnapshotIdentity, manifest: &OrionSnapshotManifest) -> (plan:
    Result<CheckpointClone, String>)
    ensures
        ({
            let source = clone_source(
                manifest.checkpoint_artifact,
                manifest.slate_db_path@,
                manifest.checkpoint_id@,
            );
            clones(plan, install_path_of(state_path@, meta.snapshot_id@, source.1), source)
        }),
{
    let (source_path, checkpoint_id) = pick_source(
        &manifest.checkpoint_artifact,
        &manifest.slate_db_path,
        &manifest.checkpoint_id,
    );
    let checkpoint: u128 = match read_checkpoint_id(checkpoint_id.as_str()) {
        Ok(id) => id,
        Err(message) => return Err(message),
    };
    let mut target_path: String = state_path.to_owned();
    target_path.append("/installed-snapshot-");
    target_path.append(sanitize_path_segment(meta.snapshot_id.as_str()).as_str());
    target_path.append("-");
    target_path.append(sanitize_path_segment(checkpoint_id.as_str()).as_str());
    Ok(CheckpointClone { target_path, source_path: source_path.clone(), checkpoint })
}

/// Plans the clone of a database's store below the node's cloned store, where the
/// node will look for it.
pub fn plan_database_clone(install_path: &str, database: &OrionSnapshotSqliteDatabase) -> (plan: Result<
    CheckpointClone,
    String,
>)
    ensures
        clones(
            plan,
            state::database_path_of(install_path@, ordered::text_bytes(database.database@)),
            clone_source(
                database.checkpoint_artifact,
                database.slate_db_path@,
                database.checkpoint_id@,
            ),
        ),
{
    let (source_path, checkpoint_id) = pick_source(
        &database.checkpoint_artifact,
        &database.slate_db_path,
        &database.checkpoint_id,
    );
    let checkpoint: u128 = match read_checkpoint_id(checkpoint_id.as_str()) {
        Ok(id) => id,
        Err(message) => return Err(message),
    };
    let target_path = sqlite_database_path(install_path, database.database.as_str());
    Ok(CheckpointClone { target_path, source_path: source_path.clone(), checkpoint })
}

/// Checks that a cloned store holds the state that the snapshot stands for.
pub fn check_cloned_snapshot(
    last_log_id: &Option<Vec<u8>>,
    membership: &Vec<u8>,
    meta: &SnapshotIdentity,
) -> (checked: Result<(), String>)
    ensures
        match checked {
            Ok(()) => apply::optional_bytes(*last_log_id) == meta@.last_log_id && membership@
                == meta@.last_membership,
            Err(message) => if apply::optional_bytes(*last_log_id) != meta@.last_log_id {
                message@ == "cloned snapshot last log id does not match metadata"@
            } else {
                membership@ != meta@.last_membership && message@
                    == "cloned snapshot membership does not match metadata"@
            },
        },
{
    if !same_record(last_log_id, &meta.last_log_id) {
        return Err("cloned snapshot last log id does not match metadata".to_owned());
    }
    if !bytes_equal(membership.as_slice(), meta.last_membership.as_slice()) {
        return Err("cloned snapshot membership does not match metadata".to_owned());
    }
    Ok(())
}

/// What is recorded once a snapshot is installed.
pub open spec fn install_writes(meta: IdentityModel, payload: Seq<u8>) -> Seq<WriteModel> {
    seq![
        WriteModel { key: apply::last_log_id_key(), value: meta.last_log_id },
        WriteModel { key: apply::membership_key(), value: Some(meta.last_membership) },
        WriteModel { key: apply::snapshot_key(), value: Some(payload) },
    ]
}

/// The records of an installed snapshot: the last entry, the members, and the
/// snapshot itself as the current one.
pub fn installed_records(meta: &SnapshotIdentity, payload: Vec<u8>) -> (writes: Vec<StoreWrite>)
    ensures
        page_batch::write_models(writes@) == install_writes(meta@, payload@),
{
    let mut writes: Vec<StoreWrite> = Vec::new();
    assert(page_batch::write_models(writes@) =~= Seq::empty());
    let last_key = copy_bytes("openraft/sm/last_log_id".as_bytes());
    match &meta.last_log_id {
        Some(log_id) => append_put(&mut writes, last_key, copy_bytes(log_id.as_slice())),
        None => append_delete(&mut writes, last_key),
    }
    append_put(
        &mut writes,
        copy_bytes("openraft/sm/membership".as_bytes()),
        copy_bytes(meta.last_membership.as_slice()),
    );
    append_put(&mut writes, copy_bytes("openraft/sm/current_snapshot".as_bytes()), payload);
    assert(page_batch::write_models(writes@) =~= install_writes(meta@, payload@));
    writes
}

/// The artifacts of a manifest: that of the node's store, then those of the
/// databases' stores, in order. Older manifests may lack some of them.
pub open spec fn artifacts_of(databases: Seq<OrionSnapshotSqliteDatabase>) -> Seq<
    SlateDbCheckpointArtifact,
>
    decreases databases.len(),
{
    if databases.len() == 0 {
        Seq::empty()
    } else {
        match databases.last().checkpoint_artifact {
            Some(artifact) => artifacts_of(databases.drop_last()).push(artifact),
            None => artifacts_of(databases.drop_last()),
        }
    }
}

/// All artifacts of a manifest.
pub open spec fn manifest_artifacts(manifest: OrionSnapshotManifest) -> Seq<
    SlateDbCheckpointArtifact,
> {
    (match manifest.checkpoint_artifact {
        Some(artifact) => seq![artifact],
        None => Seq::empty(),
    }) + artifacts_of(manifest.sqlite_databases@)
}

/// The artifacts whose objects make up a snapshot.
pub fn snapshot_checkpoint_artifacts(manifest: OrionSnapshotManifest) -> (artifacts: Result<
    Vec<SlateDbCheckpointArtifact>,
    String,
>)
    ensures
        match artifacts {
            Ok(list) => is_supported(manifest.format_version) && list@ == manifest_artifacts(
                manifest,
            ),
            Err(message) => !is_supported(manifest.format_version) && message@
                == unsupported_manifest_message(manifest.format_version),
        },
{
    if let Err(message) = check_manifest_format(manifest.format_version) {
        return Err(message);
    }
    let mut artifacts: Vec<SlateDbCheckpointArtifact> = Vec::new();
    if let Some(artifact) = manifest.checkpoint_artifact {
        artifacts.push(artifact);
    }
    let ghost root = artifacts@;
    let ghost all = manifest.sqlite_databases@;
    let mut rest = manifest.sqlite_databases;
    let ghost mut taken: int = 0;
    assert(rest@ =~= all.skip(0));
    assert(artifacts@ =~= root + artifacts_of(all.take(0)));
    while rest.len() > 0
        invariant
            0 <= taken <= all.len(),
            rest@ == all.skip(taken),
            artifacts@ == root + artifacts_of(all.take(taken)),
        decreases rest.len(),
    {
        let ghost before = artifacts@;
        let database = rest.remove(0);
        assert(database == all[taken]);
        assert(rest@ =~= all.skip(taken + 1));
        assert(all.take(taken + 1).drop_last() =~= all.take(taken));
        if let Some(artifact) = database.checkpoint_artifact {
            artifacts.push(artifact);
        }
        assert(artifacts@ =~= root + artifacts_of(all.take(taken + 1)));
        proof {
            taken = taken + 1;
        }
    }
    assert(all.take(taken) =~= all);
    assert(artifacts@ =~= manifest_artifacts(manifest));
    Ok(artifacts)
}

/// A manifest that was built lists the checkpoint of the node's store and that of
/// every database, and installing it clones from exactly these.
pub proof fn law_built_snapshot_installs_its_checkpoints(
    manifest: OrionSnapshotManifest,
    path: Seq<char>,
    checkpoint_id: Seq<char>,
    manifest_id: u64,
    paths: Seq<Seq<char>>,
    checkpoint_ids: Seq<Seq<char>>,
    manifest_ids: Seq<u64>,
    at: int,
)
    requires
        is_artifact_of(manifest.checkpoint_artifact, path, checkpoint_id, manifest_id),
        paths.len() == manifest.sqlite_databases@.len(),
        checkpoint_ids.len() == paths.len(),
        manifest_ids.len() == paths.len(),
        forall|i: int|
            0 <= i < paths.len() ==> is_artifact_of(
                (#[trigger] manifest.sqlite_databases@[i]).checkpoint_artifact,
                paths[i],
                checkpoint_ids[i],
                manifest_ids[i],
            ),
    ensures
        manifest_artifacts(manifest).len() == 1 + paths.len(),
        Some(manifest_artifacts(manifest)[0]) == manifest.checkpoint_artifact,
        clone_source(manifest.checkpoint_artifact, manifest.slate_db_path@, manifest.checkpoint_id@)
            == (path, checkpoint_id),
        0 <= at < paths.len() ==> Some(manifest_artifacts(manifest)[at + 1])
            == manifest.sqlite_databases@[at].checkpoint_artifact,
        0 <= at < paths.len() ==> clone_source(
            manifest.sqlite_databases@[at].checkpoint_artifact,
            manifest.sqlite_databases@[at].slate_db_path@,
            manifest.sqlite_databases@[at].checkpoint_id@,
        ) == (paths[at], checkpoint_ids[at]),
{
    let databases = manifest.sqlite_databases@;
    assert forall|i: int| 0 <= i < databases.len() implies (
    #[trigger] databases[i]).checkpoint_artifact is Some by {
        assert(is_artifact_of(
            databases[i].checkpoint_artifact,
            paths[i],
            checkpoint_ids[i],
            manifest_ids[i],
        ));
    }
    lemma_artifacts_of_all(databases);
    if 0 <= at < paths.len() {
        assert(is_artifact_of(
            databases[at].checkpoint_artifact,
            paths[at],
            checkpoint_ids[at],
            manifest_ids[at],
        ));
        assert(manifest_artifacts(manifest)[at + 1] == artifacts_of(databases)[at]);
    }
}

/// Once a snapshot is installed, the store is at the entry and has the members that
/// the snapshot stands for, and holds the snapshot as the current one.
pub proof fn law_installed_snapshot_is_recorded(
    store: Map<Seq<u8>, Seq<u8>>,
    meta: IdentityModel,
    payload: Seq<u8>,
)
    ensures
        ({
            let after = page_batch::store_after_all(store, install_writes(meta, payload));
            &&& after.dom().contains(apply::last_log_id_key()) == (meta.last_log_id is Some)
            &&& meta.last_log_id matches Some(log_id) ==> after[apply::last_log_id_key()] == log_id
            &&& after.dom().contains(apply::membership_key()) && after[apply::membership_key()]
                == meta.last_membership
            &&& after.dom().contains(apply::snapshot_key()) && after[apply::snapshot_key()]
                == payload
        }),
{
    apply::lemma_metadata_keys();
    let writes = install_writes(meta, payload);
    page_law::lemma_store_after_last(store, writes, 0);
    page_law::lemma_store_after_last(store, writes, 1);
    page_law::lemma_store_after_last(store, writes, 2);
}

proof fn lemma_artifacts_of_all(databases: Seq<OrionSnapshotSqliteDatabase>)
    requires
        forall|i: int|
            0 <= i < databases.len() ==> (#[trigger] databases[i]).checkpoint_artifact is Some,
    ensures
        artifacts_of(databases).len() == databases.len(),
        forall|i: int|
            0 <= i < databases.len() ==> Some(#[trigger] artifacts_of(databases)[i])
                == databases[i].checkpoint_artifact,
    decreases databases.len(),
{
    if databases.len() > 0 {
        let earlier = databases.drop_last();
        assert forall|i: int| 0 <= i < earlier.len() implies (
        #[trigger] earlier[i]).checkpoint_artifact is Some by {
            assert(databases[i].checkpoint_artifact is Some);
        }
        lemma_artifacts_of_all(earlier);
        assert(databases[databases.len() - 1].checkpoint_artifact is Some);
        assert forall|i: int| 0 <= i < databases.len() implies Some(
            #[trigger] artifacts_of(databases)[i],
        ) == databases[i].checkpoint_artifact by {
            if i < earlier.len() {
                assert(artifacts_of(databases)[i] == artifacts_of(earlier)[i]);
            }
        }
    }
}

} // verus!
