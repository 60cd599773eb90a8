//! What holds of snapshots on their way between nodes.

use vstd::prelude::*;

use crate::checkpoint::SlateDbCheckpointArtifact;
use crate::snapshot_send::can_be_sent;
use crate::snapshot_send::joined;
use crate::snapshot_send::object_frames;
use crate::snapshot_send::objects_frames;
use crate::snapshot_send::stream_frames;
use crate::snapshot_send::SentObject;
use crate::snapshot_stream;
use crate::snapshot_stream::ArrivalModel;
use crate::snapshot_stream::FrameModel;
use crate::snapshot_stream::ObjectModel;

verus! {

/// What has arrived once all frames were taken, provided that none was refused.
pub open spec fn received_all(
    arrival: ArrivalModel,
    artifacts: Seq<SlateDbCheckpointArtifact>,
    frames: Seq<FrameModel>,
) -> Option<ArrivalModel>
    decreases frames.len(),
{
    if frames.len() == 0 {
        Some(arrival)
    } else {
        match received_all(arrival, artifacts, frames.drop_last()) {
            None => None,
            Some(before) => if snapshot_stream::frame_refusal(before, artifacts, frames.last()) is Some {
                None
            } else {
                Some(snapshot_stream::after_frame(before, frames.last()))
            },
        }
    }
}

/// The model of an object that has arrived whole.
pub open spec fn whole(object: SentObject) -> ObjectModel {
    ObjectModel {
        path: object.path,
        size: joined(object.chunks).len() as u64,
        bytes: joined(object.chunks),
    }
}

/// The models of objects that have arrived whole.
pub open spec fn all_whole(objects: Seq<SentObject>) -> Seq<ObjectModel> {
    Seq::new(objects.len(), |i: int| whole(objects[i]))
}

proof fn lemma_received_both(
    arrival: ArrivalModel,
    artifacts: Seq<SlateDbCheckpointArtifact>,
    first: Seq<FrameModel>,
    second: Seq<FrameModel>,
)
    requires
        received_all(arrival, artifacts, first) is Some,
    ensures
        received_all(arrival, artifacts, first + second) == received_all(
            received_all(arrival, artifacts, first)->0,
            artifacts,
            second,
        ),
    decreases second.len(),
{
    if second.len() == 0 {
        assert(first + second =~= first);
    } else {
        lemma_received_both(arrival, artifacts, first, second.drop_last());
        assert((first + second).drop_last() =~= first + second.drop_last());
        assert((first + second).last() == second.last());
    }
}

proof fn lemma_manifest_arrives(
    artifacts: Seq<SlateDbCheckpointArtifact>,
    manifest: Seq<Seq<u8>>,
)
    ensures
        received_all(
            snapshot_stream::nothing_arrived(),
            artifacts,
            snapshot_stream::manifest_frames_of(manifest),
        ) == Some(
            ArrivalModel { manifest: joined(manifest), ..snapshot_stream::nothing_arrived() },
        ),
    decreases manifest.len(),
{
    let frames = snapshot_stream::manifest_frames_of(manifest);
    if manifest.len() > 0 {
        lemma_manifest_arrives(artifacts, manifest.drop_last());
        assert(frames.drop_last() =~= snapshot_stream::manifest_frames_of(manifest.drop_last()));
        assert(frames.last() == FrameModel::Manifest(manifest.last()));
    }
}

proof fn lemma_part_is_smaller(chunks: Seq<Seq<u8>>, upto: int)
    requires
        0 <= upto <= chunks.len(),
    ensures
        joined(chunks.take(upto)).len() <= joined(chunks).len(),
    decreases chunks.len(),
{
    if upto == chunks.len() {
        assert(chunks.take(upto) =~= chunks);
    } else {
        lemma_part_is_smaller(chunks.drop_last(), upto);
        assert(chunks.drop_last().take(upto) =~= chunks.take(upto));
    }
}

proof fn lemma_chunks_arrive(
    arrival: ArrivalModel,
    artifacts: Seq<SlateDbCheckpointArtifact>,
    object: SentObject,
    upto: int,
)
    requires
        0 <= upto <= object.chunks.len(),
        joined(object.chunks).len() <= u64::MAX,
        arrival.current == Some(
            ObjectModel {
                path: object.path,
                size: joined(object.chunks).len() as u64,
                bytes: Seq::empty(),
            },
        ),
    ensures
        received_all(
            arrival,
            artifacts,
            snapshot_stream::chunk_frames_of(object.chunks).take(upto),
        ) == Some(
            ArrivalModel {
                current: Some(
                    ObjectModel {
                        path: object.path,
                        size: joined(object.chunks).len() as u64,
                        bytes: joined(object.chunks.take(upto)),
                    },
                ),
                ..arrival
            },
        ),
    decreases upto,
{
    let frames = snapshot_stream::chunk_frames_of(object.chunks);
    if upto == 0 {
        assert(frames.take(0) =~= Seq::empty());
        assert(object.chunks.take(0) =~= Seq::empty());
    } else {
        lemma_chunks_arrive(arrival, artifacts, object, upto - 1);
        assert(frames.take(upto).drop_last() =~= frames.take(upto - 1));
        assert(frames.take(upto).last() == FrameModel::Chunk(object.chunks[upto - 1]));
        assert(object.chunks.take(upto).drop_last() =~= object.chunks.take(upto - 1));
        lemma_part_is_smaller(object.chunks, upto);
    }
}

/// What has arrived before the end of a stream: the last object still counts as
/// arriving.
spec fn before_end(manifest: Seq<u8>, objects: Seq<SentObject>) -> ArrivalModel {
    if objects.len() == 0 {
        ArrivalModel { manifest, objects: Seq::empty(), current: None }
    } else {
        ArrivalModel {
            manifest,
            objects: all_whole(objects.drop_last()),
            current: Some(whole(objects.last())),
        }
    }
}

proof fn lemma_objects_arrive(
    manifest: Seq<u8>,
    artifacts: Seq<SlateDbCheckpointArtifact>,
    objects: Seq<SentObject>,
)
    requires
        can_be_sent(artifacts, objects),
    ensures
        received_all(
            ArrivalModel { manifest, objects: Seq::empty(), current: None },
            artifacts,
            objects_frames(objects),
        ) == Some(before_end(manifest, objects)),
    decreases objects.len(),
{
    if objects.len() > 0 {
        let earlier = objects.drop_last();
        let object = objects.last();
        let start = ArrivalModel { manifest, objects: Seq::empty(), current: None };
        assert forall|i: int| 0 <= i < earlier.len() implies snapshot_stream::is_allowed(
            artifacts,
            (#[trigger] earlier[i]).path,
        ) && joined(earlier[i].chunks).len() <= u64::MAX by {
            assert(earlier[i] == objects[i]);
        }
        lemma_objects_arrive(manifest, artifacts, earlier);
        let before = before_end(manifest, earlier);
        lemma_received_both(
            start,
            artifacts,
            objects_frames(earlier),
            object_frames(object),
        );
        let header = FrameModel::Object(object.path, joined(object.chunks).len() as u64);
        let opened = snapshot_stream::after_frame(before, header);
        assert(objects[objects.len() - 1] == object);
        assert(snapshot_stream::is_allowed(artifacts, object.path));
        if earlier.len() > 0 {
            assert(objects[earlier.len() - 1] == earlier.last());
            assert(snapshot_stream::ended(before) =~= all_whole(earlier));
        } else {
            assert(snapshot_stream::ended(before) =~= all_whole(earlier));
        }
        assert(seq![header].drop_last() =~= Seq::empty());
        assert(received_all(before, artifacts, Seq::empty()) == Some(before));
        assert(received_all(before, artifacts, seq![header]) == Some(opened));
        lemma_received_both(
            before,
            artifacts,
            seq![header],
            snapshot_stream::chunk_frames_of(object.chunks),
        );
        let frames = snapshot_stream::chunk_frames_of(object.chunks);
        lemma_chunks_arrive(opened, artifacts, object, object.chunks.len() as int);
        assert(frames.take(object.chunks.len() as int) =~= frames);
        assert(object.chunks.take(object.chunks.len() as int) =~= object.chunks);
        assert(opened.objects =~= all_whole(earlier));
    }
}

/// A snapshot that is sent arrives whole, in whatever pieces it is sent: no frame is
/// refused, the manifest is the one that was sent, and so is every object, under its
/// path and with all of its bytes.
pub proof fn law_sent_snapshot_arrives(
    artifacts: Seq<SlateDbCheckpointArtifact>,
    manifest: Seq<Seq<u8>>,
    objects: Seq<SentObject>,
)
    requires
        can_be_sent(artifacts, objects),
    ensures
        received_all(
            snapshot_stream::nothing_arrived(),
            artifacts,
            stream_frames(manifest, objects),
        ) == Some(
            ArrivalModel {
                manifest: joined(manifest),
                objects: all_whole(objects),
                current: None,
            },
        ),
{
    let nothing = snapshot_stream::nothing_arrived();
    let manifest_frames = snapshot_stream::manifest_frames_of(manifest);
    lemma_manifest_arrives(artifacts, manifest);
    let start = ArrivalModel { manifest: joined(manifest), objects: Seq::empty(), current: None };
    lemma_received_both(nothing, artifacts, manifest_frames, objects_frames(objects));
    lemma_objects_arrive(joined(manifest), artifacts, objects);
    let before = before_end(joined(manifest), objects);
    let frames = manifest_frames + objects_frames(objects);
    assert(received_all(nothing, artifacts, frames) == Some(before));
    lemma_received_both(nothing, artifacts, frames, seq![FrameModel::End]);
    assert(seq![FrameModel::End].drop_last() =~= Seq::empty());
    assert(received_all(before, artifacts, Seq::empty()) == Some(before));
    if objects.len() > 0 {
        assert(objects[objects.len() - 1] == objects.last());
        assert(snapshot_stream::ended(before) =~= all_whole(objects));
    } else {
        assert(snapshot_stream::ended(before) =~= all_whole(objects));
    }
    assert(received_all(before, artifacts, seq![FrameModel::End]) == Some(
        snapshot_stream::after_frame(before, FrameModel::End),
    ));
}

/// A stream whose end has not come is never taken for a whole one: as long as an
/// object is incomplete, neither the next object nor the end is taken.
pub proof fn law_incomplete_object_is_refused(
    arrival: ArrivalModel,
    artifacts: Seq<SlateDbCheckpointArtifact>,
    path: Seq<char>,
    size: u64,
)
    requires
        arrival.current matches Some(object) && object.bytes.len() != object.size,
    ensures
        snapshot_stream::frame_refusal(arrival, artifacts, FrameModel::End) is Some,
        snapshot_stream::frame_refusal(arrival, artifacts, FrameModel::Object(path, size)) is Some,
{
}

} // verus!
