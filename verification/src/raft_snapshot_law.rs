//! What a snapshot is named, what it consists of, and which one is installed.

use vstd::prelude::*;
use vstd::string::*;

use crate::bytes;
use crate::checkpoint;
use crate::checkpoint::SlateDbCheckpointArtifact;
use crate::ordered;
use crate::raft_snapshot;
use crate::raft_snapshot::CheckpointClone;
use crate::raft_snapshot::IdentityModel;
use crate::raft_snapshot::OrionSnapshotManifest;
use crate::raft_snapshot::OrionSnapshotSqliteDatabase;
use crate::snapshot_send;
use crate::snapshot_send::SentObject;
use crate::snapshot_stream;
use crate::snapshot_stream::ArrivalModel;
use crate::snapshot_stream::FrameModel;
use crate::state;
use crate::text;

verus! {

broadcast use group_string_axioms;

/// Snapshots of one leader's term at different entries have different names, and each name
/// begins with the leader's.
pub proof fn law_snapshots_have_their_own_names(leader: Seq<char>, index: u64, other: u64)
    ensures
        ({
            let name = raft_snapshot::snapshot_name(Some((leader, index)));
            &&& name.len() > leader.len() && name.take(leader.len() as int) == leader
            &&& name == raft_snapshot::snapshot_name(Some((leader, other))) ==> index == other
        }),
{
    let front = leader + "-"@;
    let one = raft_snapshot::snapshot_name(Some((leader, index)));
    let two = raft_snapshot::snapshot_name(Some((leader, other)));
    reveal_strlit("-");
    assert(one.skip(front.len() as int) =~= text::number_text(index as nat));
    assert(two.skip(front.len() as int) =~= text::number_text(other as nat));
    assert(one.take(leader.len() as int) =~= leader);
    text::lemma_number_text(index as nat, other as nat);
}

/// The checkpoint that a snapshot names is that of the store: its path, its checkpoint, its
/// manifest, and the store's path as the place of its objects.
pub proof fn law_artifact_names_its_checkpoint(
    artifact: Option<SlateDbCheckpointArtifact>,
    path: Seq<char>,
    checkpoint_id: Seq<char>,
    manifest_id: u64,
)
    requires
        raft_snapshot::is_artifact_of(artifact, path, checkpoint_id, manifest_id),
    ensures
        artifact is Some,
        artifact->0.db_path@ == path,
        artifact->0.checkpoint_id@ == checkpoint_id,
        artifact->0.checkpoint_manifest_id == manifest_id,
        artifact->0.object_prefix@ == path,
{
}

/// The entry of a database in a snapshot names the database, its store and its checkpoint.
pub proof fn law_entry_names_its_database(
    entry: OrionSnapshotSqliteDatabase,
    database: Seq<char>,
    path: Seq<char>,
    checkpoint_id: Seq<char>,
    manifest_id: u64,
)
    requires
        raft_snapshot::is_database_entry(entry, database, path, checkpoint_id, manifest_id),
    ensures
        entry.database@ == database,
        entry.slate_db_path@ == path,
        entry.checkpoint_id@ == checkpoint_id,
        entry.checkpoint_manifest_id == manifest_id,
        entry.checkpoint_artifact is Some,
        entry.checkpoint_artifact->0.db_path@ == path,
        entry.checkpoint_artifact->0.checkpoint_id@ == checkpoint_id,
        entry.checkpoint_artifact->0.checkpoint_manifest_id == manifest_id,
        entry.checkpoint_artifact->0.object_prefix@ == path,
{
}

/// A snapshot is installed if and only if its form is known and it is the one that was
/// announced: the same last entry, the same members and the same name. What this node
/// builds, it installs; what a later version builds, it does not.
pub proof fn law_only_the_announced_snapshot_is_installed(
    format_version: u16,
    found: IdentityModel,
    wanted: IdentityModel,
)
    ensures
        raft_snapshot::install_refusal(
            raft_snapshot::SNAPSHOT_MANIFEST_FORMAT_VERSION,
            wanted,
            wanted,
        ) is None,
        raft_snapshot::install_refusal(format_version, found, wanted) is None <==> 1
            <= format_version <= raft_snapshot::SNAPSHOT_MANIFEST_FORMAT_VERSION
            && found.last_log_id == wanted.last_log_id && found.last_membership
            == wanted.last_membership && found.snapshot_id == wanted.snapshot_id,
        format_version > raft_snapshot::SNAPSHOT_MANIFEST_FORMAT_VERSION
            ==> !raft_snapshot::is_supported(format_version),
        raft_snapshot::is_supported(raft_snapshot::SNAPSHOT_MANIFEST_FORMAT_VERSION),
        !raft_snapshot::is_supported(0),
{
    if found.last_log_id == wanted.last_log_id && found.last_membership == wanted.last_membership
        && found.snapshot_id == wanted.snapshot_id {
        assert(found == wanted);
    }
}

/// A clone is made from the store and the checkpoint that it is planned from, to the path
/// that it is planned for; it is planned whenever the checkpoint's identifier can be read.
pub proof fn law_clone_copies_its_source(
    plan: Result<CheckpointClone, String>,
    target: Seq<char>,
    source: (Seq<char>, Seq<char>),
)
    requires
        raft_snapshot::clones(plan, target, source),
    ensures
        plan is Ok <==> checkpoint::uuid_reading(source.1) is Ok,
        plan matches Ok(step) ==> {
            &&& step.target_path@ == target
            &&& step.source_path@ == source.0
            &&& checkpoint::uuid_reading(source.1) == Ok::<u128, Seq<char>>(step.checkpoint)
        },
        plan matches Err(message) ==> checkpoint::uuid_reading(source.1) == Err::<
            u128,
            Seq<char>,
        >(message@),
{
}

/// What is cloned is the checkpoint that the snapshot describes, and in a snapshot without
/// a description the one that it names.
pub proof fn law_clone_source_is_the_described_one(
    artifact: SlateDbCheckpointArtifact,
    path: Seq<char>,
    checkpoint_id: Seq<char>,
)
    ensures
        raft_snapshot::clone_source(Some(artifact), path, checkpoint_id) == (
            artifact.db_path@,
            artifact.checkpoint_id@,
        ),
        raft_snapshot::clone_source(None, path, checkpoint_id) == (path, checkpoint_id),
{
}

/// A snapshot is installed below the path of the node's store, so that the store that is in
/// use is not touched; snapshots with different names or checkpoints that stand for
/// themselves in paths go to different places.
pub proof fn law_snapshots_are_installed_apart(
    state_path: Seq<char>,
    snapshot: Seq<char>,
    other: Seq<char>,
    checkpoint_id: Seq<char>,
)
    requires
        state::all_name_bytes(ordered::text_bytes(snapshot)),
        state::all_name_bytes(ordered::text_bytes(other)),
    ensures
        ({
            let path = raft_snapshot::install_path_of(state_path, snapshot, checkpoint_id);
            &&& path.len() > state_path.len()
            &&& path.take(state_path.len() as int) == state_path
            &&& path[state_path.len() as int] == '/'
            &&& path == raft_snapshot::install_path_of(state_path, other, checkpoint_id)
                ==> ordered::text_bytes(snapshot) == ordered::text_bytes(other)
        }),
{
    reveal_strlit("/installed-snapshot-");
    reveal_strlit("-");
    let front = state_path + "/installed-snapshot-"@;
    let one = raft_snapshot::install_path_of(state_path, snapshot, checkpoint_id);
    let two = raft_snapshot::install_path_of(state_path, other, checkpoint_id);
    let left = ordered::text_bytes(snapshot);
    let right = ordered::text_bytes(other);
    assert(one.take(state_path.len() as int) =~= state_path);
    if one == two {
        assert(one.len() == two.len());
        assert forall|i: int| 0 <= i < left.len() implies left[i] == right[i] by {
            assert(one[front.len() + i] == state::path_byte(left[i]) as char);
            assert(two[front.len() + i] == state::path_byte(right[i]) as char);
            assert((state::path_byte(left[i]) as char) as u32 == state::path_byte(left[i]) as u32);
            assert((state::path_byte(right[i]) as char) as u32 == state::path_byte(
                right[i],
            ) as u32);
        }
        assert(left =~= right);
    }
}

proof fn lemma_artifacts_listed(databases: Seq<OrionSnapshotSqliteDatabase>)
    ensures
        forall|i: int|
            0 <= i < databases.len() ==> ((#[trigger] databases[i]).checkpoint_artifact matches Some(
                artifact,
            ) ==> raft_snapshot::artifacts_of(databases).contains(artifact)),
        forall|k: int|
            0 <= k < raft_snapshot::artifacts_of(databases).len() ==> exists|i: int|
                0 <= i < databases.len() && (#[trigger] databases[i]).checkpoint_artifact == Some(
                    #[trigger] raft_snapshot::artifacts_of(databases)[k],
                ),
    decreases databases.len(),
{
    if databases.len() > 0 {
        let earlier = databases.drop_last();
        lemma_artifacts_listed(earlier);
        let before = raft_snapshot::artifacts_of(earlier);
        let all = raft_snapshot::artifacts_of(databases);
        assert forall|i: int| 0 <= i < databases.len() implies ((
        #[trigger] databases[i]).checkpoint_artifact matches Some(artifact) ==> all.contains(
            artifact,
        )) by {
            if let Some(artifact) = databases[i].checkpoint_artifact {
                if i < earlier.len() {
                    assert(earlier[i] == databases[i]);
                    let k = choose|k: int| 0 <= k < before.len() && before[k] == artifact;
                    assert(all[k] == artifact);
                } else {
                    assert(all[all.len() - 1] == artifact);
                }
            }
        }
        assert forall|k: int| 0 <= k < all.len() implies exists|i: int|
            0 <= i < databases.len() && (#[trigger] databases[i]).checkpoint_artifact == Some(
                #[trigger] all[k],
            ) by {
            if k < before.len() {
                assert(all[k] == before[k]);
                let i = choose|i: int|
                    0 <= i < earlier.len() && (#[trigger] earlier[i]).checkpoint_artifact == Some(
                        before[k],
                    );
                assert(databases[i] == earlier[i]);
            } else {
                assert(databases[databases.len() - 1].checkpoint_artifact == Some(all[k]));
            }
        }
    }
}

/// The checkpoints of a snapshot are that of the node's store and that of every database,
/// as far as the snapshot describes them, and no other.
pub proof fn law_snapshot_lists_its_checkpoints(manifest: OrionSnapshotManifest)
    ensures
        ({
            let artifacts = raft_snapshot::manifest_artifacts(manifest);
            let databases = manifest.sqlite_databases@;
            &&& manifest.checkpoint_artifact matches Some(artifact) ==> artifacts.contains(artifact)
            &&& forall|i: int|
                0 <= i < databases.len() ==> ((
                #[trigger] databases[i]).checkpoint_artifact matches Some(artifact)
                    ==> artifacts.contains(artifact))
            &&& forall|k: int|
                0 <= k < artifacts.len() ==> manifest.checkpoint_artifact == Some(
                    #[trigger] artifacts[k],
                ) || exists|i: int|
                    0 <= i < databases.len() && (#[trigger] databases[i]).checkpoint_artifact
                        == Some(artifacts[k])
        }),
{
    let artifacts = raft_snapshot::manifest_artifacts(manifest);
    let databases = manifest.sqlite_databases@;
    let rest = raft_snapshot::artifacts_of(databases);
    let first: int = if manifest.checkpoint_artifact is Some {
        1
    } else {
        0
    };
    lemma_artifacts_listed(databases);
    if let Some(artifact) = manifest.checkpoint_artifact {
        assert(artifacts[0] == artifact);
    }
    assert forall|i: int| 0 <= i < databases.len() implies ((
    #[trigger] databases[i]).checkpoint_artifact matches Some(artifact) ==> artifacts.contains(
        artifact,
    )) by {
        if let Some(artifact) = databases[i].checkpoint_artifact {
            let k = choose|k: int| 0 <= k < rest.len() && rest[k] == artifact;
            assert(artifacts[first + k] == artifact);
        }
    }
    assert forall|k: int| 0 <= k < artifacts.len() implies manifest.checkpoint_artifact == Some(
        #[trigger] artifacts[k],
    ) || exists|i: int|
        0 <= i < databases.len() && (#[trigger] databases[i]).checkpoint_artifact == Some(
            artifacts[k],
        ) by {
        if k >= first {
            assert(artifacts[k] == rest[k - first]);
        }
    }
}

/// An object belongs to a checkpoint exactly when it is the place of the checkpoint's
/// objects or lies below it, part by part: a longer name with the same beginning does not.
pub proof fn law_objects_lie_below_their_checkpoint(prefix: Seq<u8>, rest: Seq<u8>, path: Seq<u8>)
    ensures
        checkpoint::lies_under(prefix, prefix),
        checkpoint::lies_under(prefix, prefix + seq![47u8] + rest),
        checkpoint::lies_under(prefix, prefix + rest) ==> rest.len() == 0 || rest[0] == 47,
        checkpoint::lies_under(prefix, path) ==> path.len() >= prefix.len() && path.take(
            prefix.len() as int,
        ) == prefix && (path.len() > prefix.len() ==> path[prefix.len() as int] == 47),
{
    reveal_strlit("/");
    assert(is_ascii("/"));
    let slash = bytes::text("/");
    assert(slash =~= seq![47u8]);
    let below = prefix + seq![47u8] + rest;
    assert(below.subrange(0, prefix.len() as int + 1) =~= prefix + slash);
    if checkpoint::lies_under(prefix, path) && path != prefix {
        assert(path.subrange(0, prefix.len() as int + 1) == prefix + slash);
        assert(path.subrange(0, prefix.len() as int + 1)[prefix.len() as int] == 47);
        assert(path.take(prefix.len() as int) =~= path.subrange(0, prefix.len() as int + 1).take(
            prefix.len() as int,
        ));
        assert((prefix + slash).take(prefix.len() as int) =~= prefix);
    }
    let other = prefix + rest;
    if checkpoint::lies_under(prefix, other) && rest.len() > 0 {
        assert(other.len() != prefix.len());
        assert(other.subrange(0, prefix.len() as int + 1)[prefix.len() as int] == (prefix + slash)[
            prefix.len() as int]);
        assert(other[prefix.len() as int] == rest[0]);
    }
    if checkpoint::lies_under(prefix, path) && path == prefix {
        assert(path.take(prefix.len() as int) =~= prefix);
    }
}

/// An object may be received exactly when it lies below one of the snapshot's checkpoints.
pub proof fn law_objects_of_a_snapshot_are_allowed(
    artifacts: Seq<SlateDbCheckpointArtifact>,
    path: Seq<char>,
    at: int,
)
    ensures
        0 <= at < artifacts.len() && checkpoint::lies_under(
            ordered::text_bytes(artifacts[at].object_prefix@),
            ordered::text_bytes(path),
        ) ==> snapshot_stream::is_allowed(artifacts, path),
        artifacts.len() == 0 ==> !snapshot_stream::is_allowed(artifacts, path),
        snapshot_stream::is_allowed(artifacts, path) ==> exists|i: int|
            0 <= i < artifacts.len() && checkpoint::lies_under(
                ordered::text_bytes((#[trigger] artifacts[i]).object_prefix@),
                ordered::text_bytes(path),
            ),
{
}

/// Which frames of a snapshot are refused: a second header, an object that the snapshot does
/// not hold, a piece that belongs to no object or is more than the object was announced to
/// hold, and whatever follows an object that did not arrive whole. A piece of the manifest
/// is always taken.
pub proof fn law_refused_frames(
    arrival: ArrivalModel,
    artifacts: Seq<SlateDbCheckpointArtifact>,
    path: Seq<char>,
    size: u64,
    bytes: Seq<u8>,
)
    ensures
        ({
            let whole = match arrival.current {
                Some(object) => object.bytes.len() == object.size,
                None => true,
            };
            let refused = |frame: FrameModel|
                snapshot_stream::frame_refusal(arrival, artifacts, frame) is Some;
            &&& refused(FrameModel::Header)
            &&& !refused(FrameModel::Manifest(bytes))
            &&& refused(FrameModel::Object(path, size)) <==> !whole || !snapshot_stream::is_allowed(
                artifacts,
                path,
            )
            &&& refused(FrameModel::Chunk(bytes)) <==> match arrival.current {
                Some(object) => object.bytes.len() + bytes.len() > object.size,
                None => true,
            }
            &&& refused(FrameModel::End) <==> !whole
        }),
{
}

/// What a frame brings: a piece is added behind what arrived before, of the manifest or of
/// the object that is arriving, an object is begun with the path and the size that were
/// announced, and what arrived before is kept.
pub proof fn law_frames_add_to_what_arrived(
    arrival: ArrivalModel,
    path: Seq<char>,
    size: u64,
    bytes: Seq<u8>,
)
    ensures
        ({
            let after = snapshot_stream::after_frame(arrival, FrameModel::Manifest(bytes));
            &&& after.manifest == arrival.manifest + bytes
            &&& after.objects == arrival.objects && after.current == arrival.current
        }),
        ({
            let after = snapshot_stream::after_frame(arrival, FrameModel::Object(path, size));
            &&& after.manifest == arrival.manifest
            &&& after.current is Some && after.current->0.path == path && after.current->0.size
                == size && after.current->0.bytes.len() == 0
            &&& arrival.current matches Some(object) ==> after.objects == arrival.objects.push(
                object,
            )
            &&& arrival.current is None ==> after.objects == arrival.objects
        }),
        arrival.current matches Some(object) ==> {
            let after = snapshot_stream::after_frame(arrival, FrameModel::Chunk(bytes));
            &&& after.manifest == arrival.manifest && after.objects == arrival.objects
            &&& after.current is Some && after.current->0.path == object.path
                && after.current->0.size == object.size && after.current->0.bytes == object.bytes
                + bytes
        },
        ({
            let after = snapshot_stream::after_frame(arrival, FrameModel::End);
            &&& after.manifest == arrival.manifest && after.current is None
            &&& arrival.current matches Some(object) ==> after.objects == arrival.objects.push(
                object,
            )
            &&& arrival.current is None ==> after.objects == arrival.objects
        }),
{
}

/// The name of a database consists of letters, digits, hyphens, underscores and dots, at
/// least one; so it holds no slash and no character of another alphabet. Every such name is
/// accepted.
pub proof fn law_database_names_are_plain(name: Seq<u8>)
    ensures
        state::name_refusal(name) is None <==> name.len() > 0 && forall|i: int|
            0 <= i < name.len() ==> {
                let c = #[trigger] name[i];
                ('a' as u32 <= c <= 'z' as u32) || ('A' as u32 <= c <= 'Z' as u32) || ('0' as u32
                    <= c <= '9' as u32) || c == '-' as u32 || c == '_' as u32 || c == '.' as u32
            },
        state::name_refusal(name) is None <==> state::is_database_name(name),
        state::is_database_name(name) ==> !name.contains(47u8) && !name.contains(0u8)
            && !name.contains(58u8),
{
}

/// What stands for a name in paths has its length, keeps what may stand in a name and puts
/// an underscore in place of anything else; it is never more than one part of a path, and
/// stands for itself.
pub proof fn law_path_segments_are_one_part(text: Seq<u8>, i: int)
    requires
        0 <= i < text.len(),
    ensures
        state::path_bytes(text).len() == text.len(),
        state::path_segment(text).len() == text.len(),
        state::path_bytes(text)[i] != 47,
        state::path_segment(text)[i] as u32 == state::path_bytes(text)[i] as u32,
        ('a' as u32 <= text[i] <= 'z' as u32) || ('A' as u32 <= text[i] <= 'Z' as u32) || ('0' as u32
            <= text[i] <= '9' as u32) || text[i] == 45 || text[i] == 95 || text[i] == 46
            ==> state::path_bytes(text)[i] == text[i],
        text[i] == 47 || text[i] == 58 || text[i] == 32 || text[i] >= 128 ==> state::path_bytes(
            text,
        )[i] == 95,
        state::path_bytes(state::path_bytes(text)) == state::path_bytes(text),
{
    assert((state::path_byte(text[i]) as char) as u32 == state::path_byte(text[i]) as u32);
    assert(state::path_bytes(state::path_bytes(text)) =~= state::path_bytes(text));
}

/// The store of a database lies beside the node's store, below a path of its own.
pub proof fn law_database_store_lies_beside(path: Seq<char>, database: Seq<u8>)
    ensures
        ({
            let child = state::database_path_of(path, database);
            let front = path + "__sqlite/databases/"@;
            &&& child.len() == front.len() + database.len() + "/state"@.len()
            &&& child.take(front.len() as int) == front
            &&& child.skip((front.len() + database.len()) as int) == "/state"@
            &&& child.subrange(front.len() as int, (front.len() + database.len()) as int)
                == state::path_segment(database)
        }),
{
    let child = state::database_path_of(path, database);
    let front = path + "__sqlite/databases/"@;
    assert(child.take(front.len() as int) =~= front);
    assert(child.skip((front.len() + database.len()) as int) =~= "/state"@);
    assert(child.subrange(front.len() as int, (front.len() + database.len()) as int)
        =~= state::path_segment(database));
}

/// A marker names a database exactly when it is the text of a database's name.
pub proof fn law_markers_hold_names(value: Seq<u8>)
    ensures
        state::marker_refusal(value) is None <==> vstd::utf8::valid_utf8(value)
            && state::is_database_name(value),
{
    law_database_names_are_plain(value);
}

/// The messages of a stream all name the group. The first one is the header and carries the
/// metrics, and the frames follow it one by one, without metrics.
pub proof fn law_messages_carry_the_frames(
    group_id: Seq<char>,
    metrics: Seq<u8>,
    frames: Seq<FrameModel>,
    i: int,
)
    requires
        0 <= i < frames.len(),
    ensures
        ({
            let messages = snapshot_send::stream_messages(group_id, metrics, frames);
            &&& messages.len() == frames.len() + 1
            &&& messages[0].frame == FrameModel::Header
            &&& messages[0].group_id == group_id && messages[0].metrics_payload == metrics
            &&& messages[i + 1].frame == frames[i]
            &&& messages[i + 1].group_id == group_id
            &&& messages[i + 1].metrics_payload.len() == 0
        }),
{
}

/// The frames of a stream carry the manifest first and the objects behind it: each object
/// is announced with its path and its size, and its pieces follow in order.
pub proof fn law_frames_carry_the_objects(
    manifest: Seq<Seq<u8>>,
    objects: Seq<SentObject>,
    object: SentObject,
    i: int,
)
    requires
        snapshot_send::joined(object.chunks).len() <= u64::MAX,
    ensures
        ({
            let before = snapshot_send::objects_frames(objects);
            let after = snapshot_send::objects_frames(objects.push(object));
            let n = before.len() as int;
            &&& after.len() == n + 1 + object.chunks.len()
            &&& after.take(n) == before
            &&& after[n] == FrameModel::Object(
                object.path,
                snapshot_send::joined(object.chunks).len() as u64,
            )
            &&& 0 <= i < object.chunks.len() ==> after[n + 1 + i] == FrameModel::Chunk(
                object.chunks[i],
            )
        }),
        ({
            let frames = snapshot_send::stream_frames(manifest, objects);
            &&& 0 <= i < manifest.len() ==> frames[i] == FrameModel::Manifest(manifest[i])
            &&& frames.len() == manifest.len() + snapshot_send::objects_frames(objects).len() + 1
            &&& frames[frames.len() - 1] == FrameModel::End
        }),
{
    let before = snapshot_send::objects_frames(objects);
    let after = snapshot_send::objects_frames(objects.push(object));
    assert(objects.push(object).drop_last() =~= objects);
    assert(after.take(before.len() as int) =~= before);
}

} // verus!
