//! How a snapshot travels to another node: as a stream of frames that carries its
//! manifest and then the objects of its checkpoints.

use vstd::prelude::*;
use vstd::slice::*;
use vstd::string::*;

use crate::bytes::copy_range;
use crate::checkpoint;
use crate::checkpoint::ensure_checkpoint_object_path_allowed;
use crate::checkpoint::read_object_path;
use crate::checkpoint::SlateDbCheckpointArtifact;
use crate::ordered;
use crate::raft_metrics::SnapshotStreamStats;
use crate::text;
use crate::text::append_number;
use crate::transport::refuse;
use crate::transport::StatusCode;
use crate::transport::TransportError;

verus! {

broadcast use {group_string_axioms, group_slice_axioms};

/// One frame of a stream.
#[derive(Debug, Clone, PartialEq, Eq)]
pub enum SnapshotFrame {
    /// The first frame.
    Header,
    /// A piece of the manifest.
    ManifestChunk(Vec<u8>),
    /// The beginning of an object.
    CheckpointObjectHeader { path: String, size: u64 },
    /// A piece of the object that has begun.
    CheckpointObjectChunk(Vec<u8>),
    /// The last frame.
    End,
}

/// The model of a frame.
#[verifier::ext_equal]
pub enum FrameModel {
    Header,
    Manifest(Seq<u8>),
    Object(Seq<char>, u64),
    Chunk(Seq<u8>),
    End,
}

impl View for SnapshotFrame {
    type V = FrameModel;

    open spec fn view(&self) -> FrameModel {
        match self {
            SnapshotFrame::Header => FrameModel::Header,
            SnapshotFrame::ManifestChunk(bytes) => FrameModel::Manifest(bytes@),
            SnapshotFrame::CheckpointObjectHeader { path, size } => FrameModel::Object(path@, *size),
            SnapshotFrame::CheckpointObjectChunk(bytes) => FrameModel::Chunk(bytes@),
            SnapshotFrame::End => FrameModel::End,
        }
    }
}

/// Bytes cut into pieces of one size; the last piece may be shorter.
pub open spec fn pieces(bytes: Seq<u8>, size: int) -> Seq<Seq<u8>>
    decreases bytes.len(),
{
    if size <= 0 || bytes.len() == 0 {
        Seq::empty()
    } else if bytes.len() <= size {
        seq![bytes]
    } else {
        seq![bytes.take(size)] + pieces(bytes.skip(size), size)
    }
}

/// The models of byte strings.
pub open spec fn byte_models(list: Seq<Vec<u8>>) -> Seq<Seq<u8>> {
    Seq::new(list.len(), |i: int| list[i]@)
}

/// Cuts bytes into pieces.
pub fn split_pieces(bytes: &[u8], size: usize) -> (list: Vec<Vec<u8>>)
    requires
        size > 0,
    ensures
        byte_models(list@) == pieces(bytes@, size as int),
{
    let mut list: Vec<Vec<u8>> = Vec::new();
    let mut at: usize = 0;
    let len: usize = bytes.len();
    assert(bytes@.skip(0) =~= bytes@);
    assert(byte_models(list@) + pieces(bytes@.skip(0), size as int) =~= pieces(
        bytes@,
        size as int,
    ));
    while at < len
        invariant
            size > 0,
            at <= len,
            len == bytes@.len(),
            byte_models(list@) + pieces(bytes@.skip(at as int), size as int) == pieces(
                bytes@,
                size as int,
            ),
        decreases len - at,
    {
        let ghost before = byte_models(list@);
        let ghost rest = bytes@.skip(at as int);
        let end: usize = if len - at <= size {
            len
        } else {
            at + size
        };
        list.push(copy_range(bytes, at, end));
        proof {
            let piece = list@.last()@;
            assert(byte_models(list@) =~= before.push(piece));
            if end == len {
                assert(piece =~= rest);
                assert(bytes@.skip(end as int) =~= Seq::empty());
                assert(byte_models(list@) + pieces(bytes@.skip(end as int), size as int)
                    =~= before + pieces(rest, size as int));
            } else {
                assert(piece =~= rest.take(size as int));
                assert(rest.skip(size as int) =~= bytes@.skip(end as int));
                assert(byte_models(list@) + pieces(bytes@.skip(end as int), size as int)
                    =~= before + pieces(rest, size as int));
            }
        }
        at = end;
    }
    assert(bytes@.skip(at as int) =~= Seq::empty());
    assert(byte_models(list@) =~= pieces(bytes@, size as int));
    list
}

/// The frames that carry pieces of a manifest.
pub open spec fn manifest_frames_of(list: Seq<Seq<u8>>) -> Seq<FrameModel> {
    Seq::new(list.len(), |i: int| FrameModel::Manifest(list[i]))
}

/// The frames that carry pieces of an object.
pub open spec fn chunk_frames_of(list: Seq<Seq<u8>>) -> Seq<FrameModel> {
    Seq::new(list.len(), |i: int| FrameModel::Chunk(list[i]))
}

/// The models of frames.
pub open spec fn frame_models(frames: Seq<SnapshotFrame>) -> Seq<FrameModel> {
    Seq::new(frames.len(), |i: int| frames[i]@)
}

/// The frames that carry a manifest.
pub fn manifest_frames(manifest: &[u8], chunk_size: usize) -> (frames: Vec<SnapshotFrame>)
    requires
        chunk_size > 0,
    ensures
        frame_models(frames@) == manifest_frames_of(pieces(manifest@, chunk_size as int)),
{
    let mut rest = split_pieces(manifest, chunk_size);
    let ghost all = rest@;
    let ghost mut taken: int = 0;
    let mut frames: Vec<SnapshotFrame> = Vec::new();
    assert(rest@ =~= all.skip(0));
    while rest.len() > 0
        invariant
            0 <= taken <= all.len(),
            rest@ == all.skip(taken),
            frames@.len() == taken,
            forall|i: int|
                0 <= i < taken ==> (#[trigger] frames@[i])@ == FrameModel::Manifest(all[i]@),
        decreases rest.len(),
    {
        let piece = rest.remove(0);
        assert(piece == all[taken]);
        assert(rest@ =~= all.skip(taken + 1));
        frames.push(SnapshotFrame::ManifestChunk(piece));
        proof {
            taken = taken + 1;
        }
    }
    assert(byte_models(all) == pieces(manifest@, chunk_size as int));
    assert forall|i: int| 0 <= i < all.len() implies pieces(manifest@, chunk_size as int)[i]
        == all[i]@ by {
        assert(byte_models(all)[i] == all[i]@);
    }
    assert(frame_models(frames@) =~= manifest_frames_of(pieces(manifest@, chunk_size as int)));
    frames
}

/// An object of a checkpoint that is being sent.
#[derive(Debug, Clone, PartialEq, Eq)]
pub struct SendingCheckpointObject {
    pub path: String,
    pub size: u64,
    pub streamed: u64,
}

/// The message for an object that is larger than it was listed.
pub open spec fn exceeded_listed_message(path: Seq<char>, size: u64) -> Seq<char> {
    "checkpoint object "@ + path + " exceeded listed size "@ + text::number_text(size as nat)
}

/// The message for an object that is not as large as it was listed.
pub open spec fn streamed_message(path: Seq<char>, streamed: u64, size: u64) -> Seq<char> {
    "checkpoint object "@ + path + " streamed "@ + text::number_text(streamed as nat)
        + " bytes but listed "@ + text::number_text(size as nat)
}

/// A sum as far as 64 bits reach.
pub open spec fn saturating_sum(left: u64, right: int) -> u64 {
    if left + right <= u64::MAX {
        (left + right) as u64
    } else {
        u64::MAX
    }
}

impl SendingCheckpointObject {
    /// Begins an object of a checkpoint: it must lie where the checkpoint's objects
    /// lie, and is announced by a frame.
    pub fn begin(
        artifact: &SlateDbCheckpointArtifact,
        path: &str,
        size: u64,
        stats: &mut SnapshotStreamStats,
    ) -> (begun: Result<(SendingCheckpointObject, SnapshotFrame), String>)
        requires
            old(stats).checkpoint_objects < u64::MAX,
        ensures
            match begun {
                Ok((object, frame)) => checkpoint::lies_under(
                    ordered::text_bytes(artifact.object_prefix@),
                    ordered::text_bytes(path@),
                ) && object.path@ == path@ && object.size == size && object.streamed == 0 && frame@
                    == FrameModel::Object(path@, size) && *final(stats) == (SnapshotStreamStats {
                    checkpoint_objects: (old(stats).checkpoint_objects + 1) as u64,
                    ..*old(stats)
                }),
                Err(message) => !checkpoint::lies_under(
                    ordered::text_bytes(artifact.object_prefix@),
                    ordered::text_bytes(path@),
                ) && message@ == checkpoint::outside_message(artifact.object_prefix@, path@)
                    && *final(stats) == *old(stats),
            },
    {
        if let Err(message) = ensure_checkpoint_object_path_allowed(artifact, path) {
            return Err(message);
        }
        stats.checkpoint_objects = stats.checkpoint_objects + 1;
        let frame = SnapshotFrame::CheckpointObjectHeader { path: path.to_owned(), size };
        Ok((SendingCheckpointObject { path: path.to_owned(), size, streamed: 0 }, frame))
    }

    /// Sends more bytes of the object.
    pub fn stream(&mut self, bytes: &[u8], chunk_size: usize, stats: &mut SnapshotStreamStats) -> (sent:
        Result<Vec<SnapshotFrame>, String>)
        requires
            chunk_size > 0,
            old(stats).checkpoint_object_bytes + bytes@.len() <= u64::MAX,
        ensures
            final(self).path == old(self).path,
            final(self).size == old(self).size,
            final(self).streamed == saturating_sum(old(self).streamed, bytes@.len() as int),
            *final(stats) == (SnapshotStreamStats {
                checkpoint_object_bytes: (old(stats).checkpoint_object_bytes + bytes@.len()) as u64,
                ..*old(stats)
            }),
            match sent {
                Ok(frames) => final(self).streamed <= final(self).size && frame_models(frames@)
                    == chunk_frames_of(pieces(bytes@, chunk_size as int)),
                Err(message) => final(self).streamed > final(self).size && message@
                    == exceeded_listed_message(old(self).path@, old(self).size),
            },
    {
        let len: usize = bytes.len();
        self.streamed = self.streamed.saturating_add(len as u64);
        stats.checkpoint_object_bytes = stats.checkpoint_object_bytes + len as u64;
        if self.streamed > self.size {
            let mut message: String = "checkpoint object ".to_owned();
            message.append(self.path.as_str());
            message.append(" exceeded listed size ");
            append_number(&mut message, self.size);
            return Err(message);
        }
        let mut rest = split_pieces(bytes, chunk_size);
        let ghost all = rest@;
        let ghost mut taken: int = 0;
        let mut frames: Vec<SnapshotFrame> = Vec::new();
        assert(rest@ =~= all.skip(0));
        while rest.len() > 0
            invariant
                0 <= taken <= all.len(),
                rest@ == all.skip(taken),
                frames@.len() == taken,
                forall|i: int|
                    0 <= i < taken ==> (#[trigger] frames@[i])@ == FrameModel::Chunk(all[i]@),
            decreases rest.len(),
        {
            let piece = rest.remove(0);
            assert(piece == all[taken]);
            assert(rest@ =~= all.skip(taken + 1));
            frames.push(SnapshotFrame::CheckpointObjectChunk(piece));
            proof {
                taken = taken + 1;
            }
        }
        assert forall|i: int| 0 <= i < all.len() implies pieces(bytes@, chunk_size as int)[i]
            == all[i]@ by {
            assert(byte_models(all)[i] == all[i]@);
        }
        assert(byte_models(all) == pieces(bytes@, chunk_size as int));
        assert(frame_models(frames@) =~= chunk_frames_of(pieces(bytes@, chunk_size as int)));
        Ok(frames)
    }

    /// Ends the object: all of it must have been sent.
    pub fn finish(&self) -> (finished: Result<(), String>)
        ensures
            finished is Ok <==> self.streamed == self.size,
            finished matches Err(message) ==> message@ == streamed_message(
                self.path@,
                self.streamed,
                self.size,
            ),
    {
        if self.streamed == self.size {
            return Ok(());
        }
        let mut message: String = "checkpoint object ".to_owned();
        message.append(self.path.as_str());
        message.append(" streamed ");
        append_number(&mut message, self.streamed);
        message.append(" bytes but listed ");
        append_number(&mut message, self.size);
        Err(message)
    }
}

/// Decides what the first frame of a stream begins.
pub fn check_first_frame(frame: &SnapshotFrame) -> (checked: Result<(), TransportError>)
    ensures
        checked is Ok <==> frame@ is Header,
        checked matches Err(error) ==> error@ == (
            StatusCode::InvalidArgument,
            "first snapshot frame must be a header"@,
        ),
{
    match frame {
        SnapshotFrame::Header => Ok(()),
        _ => Err(
            refuse(
                StatusCode::InvalidArgument,
                "first snapshot frame must be a header".to_owned(),
            ),
        ),
    }
}

/// An object that is arriving.
#[derive(Debug, Clone, PartialEq, Eq)]
pub struct ReceivingCheckpointObject {
    pub path: String,
    pub expected_size: u64,
    pub received_size: u64,
}

/// The model of an object that has arrived or is arriving: its path, its size as
/// announced, and its bytes so far.
#[verifier::ext_equal]
pub struct ObjectModel {
    pub path: Seq<char>,
    pub size: u64,
    pub bytes: Seq<u8>,
}

/// The model of what has arrived: the manifest, the objects that are complete, and
/// the one that is arriving.
#[verifier::ext_equal]
pub struct ArrivalModel {
    pub manifest: Seq<u8>,
    pub objects: Seq<ObjectModel>,
    pub current: Option<ObjectModel>,
}

/// Nothing has arrived.
pub open spec fn nothing_arrived() -> ArrivalModel {
    ArrivalModel { manifest: Seq::empty(), objects: Seq::empty(), current: None }
}

/// Whether an object may belong to one of the checkpoints.
pub open spec fn is_allowed(artifacts: Seq<SlateDbCheckpointArtifact>, path: Seq<char>) -> bool {
    exists|i: int|
        0 <= i < artifacts.len() && checkpoint::lies_under(
            ordered::text_bytes((#[trigger] artifacts[i]).object_prefix@),
            ordered::text_bytes(path),
        )
}

/// The message for an object that belongs to none of the checkpoints.
pub open spec fn not_allowed_message(path: Seq<char>) -> Seq<char> {
    "checkpoint object path "@ + path + " does not match snapshot artifacts"@
}

/// Whether an object may belong to one of the checkpoints of a snapshot.
pub fn ensure_snapshot_object_path_allowed(
    artifacts: &Vec<SlateDbCheckpointArtifact>,
    object_path: &str,
) -> (checked: Result<(), TransportError>)
    ensures
        checked is Ok <==> is_allowed(artifacts@, object_path@),
        checked matches Err(error) ==> error@ == (
            StatusCode::InvalidArgument,
            not_allowed_message(object_path@),
        ),
{
    let mut i: usize = 0;
    while i < artifacts.len()
        invariant
            i <= artifacts@.len(),
            forall|k: int|
                0 <= k < i ==> !checkpoint::lies_under(
                    ordered::text_bytes((#[trigger] artifacts@[k]).object_prefix@),
                    ordered::text_bytes(object_path@),
                ),
        decreases artifacts@.len() - i,
    {
        if ensure_checkpoint_object_path_allowed(&artifacts[i], object_path).is_ok() {
            return Ok(());
        }
        i = i + 1;
    }
    let mut message: String = "checkpoint object path ".to_owned();
    message.append(object_path);
    message.append(" does not match snapshot artifacts");
    Err(refuse(StatusCode::InvalidArgument, message))
}

/// The message for an object that is larger than it was announced.
pub open spec fn exceeded_message(path: Seq<char>, expected: u64) -> Seq<char> {
    "checkpoint object "@ + path + " exceeded expected size "@ + text::number_text(expected as nat)
}

/// The message for an object that is not as large as it was announced.
pub open spec fn mismatch_message(path: Seq<char>, received: nat, expected: u64) -> Seq<char> {
    "checkpoint object "@ + path + " byte count mismatch: received "@ + text::number_text(received)
        + ", expected "@ + text::number_text(expected as nat)
}

/// Why the object that is arriving cannot end here, if it cannot.
pub open spec fn end_refusal(arrival: ArrivalModel) -> Option<Seq<char>> {
    match arrival.current {
        Some(object) if object.bytes.len() != object.size => Some(
            mismatch_message(object.path, object.bytes.len(), object.size),
        ),
        _ => None,
    }
}

/// Why a frame is refused, if it is.
pub open spec fn frame_refusal(
    arrival: ArrivalModel,
    artifacts: Seq<SlateDbCheckpointArtifact>,
    frame: FrameModel,
) -> Option<Seq<char>> {
    match frame {
        FrameModel::Header => Some("snapshot stream contained duplicate header frame"@),
        FrameModel::Manifest(_) => None,
        FrameModel::Object(path, _) => if !is_allowed(artifacts, path) {
            Some(not_allowed_message(path))
        } else {
            end_refusal(arrival)
        },
        FrameModel::Chunk(bytes) => match arrival.current {
            None => Some("checkpoint object chunk arrived before object header"@),
            Some(object) => if object.bytes.len() + bytes.len() > object.size {
                Some(exceeded_message(object.path, object.size))
            } else {
                None
            },
        },
        FrameModel::End => end_refusal(arrival),
    }
}

/// The objects that are complete once the object that is arriving has ended.
pub open spec fn ended(arrival: ArrivalModel) -> Seq<ObjectModel> {
    match arrival.current {
        Some(object) => arrival.objects.push(object),
        None => arrival.objects,
    }
}

/// What has arrived after a frame that is not refused.
pub open spec fn after_frame(arrival: ArrivalModel, frame: FrameModel) -> ArrivalModel {
    match frame {
        FrameModel::Header => arrival,
        FrameModel::Manifest(bytes) => ArrivalModel {
            manifest: arrival.manifest + bytes,
            ..arrival
        },
        FrameModel::Object(path, size) => ArrivalModel {
            manifest: arrival.manifest,
            objects: ended(arrival),
            current: Some(ObjectModel { path, size, bytes: Seq::empty() }),
        },
        FrameModel::Chunk(bytes) => ArrivalModel {
            manifest: arrival.manifest,
            objects: arrival.objects,
            current: match arrival.current {
                Some(object) => Some(ObjectModel { bytes: object.bytes + bytes, ..object }),
                None => None,
            },
        },
        FrameModel::End => ArrivalModel {
            manifest: arrival.manifest,
            objects: ended(arrival),
            current: None,
        },
    }
}

/// The bytes of objects.
pub open spec fn total_bytes(objects: Seq<ObjectModel>) -> nat
    decreases objects.len(),
{
    if objects.len() == 0 {
        0
    } else {
        total_bytes(objects.drop_last()) + objects.last().bytes.len()
    }
}

/// What has to be done about a frame.
#[derive(Debug, Clone, PartialEq, Eq)]
pub enum ReceiveStep {
    /// Nothing.
    Continue,
    /// Complete the object that was arriving, if one was, and open the next one.
    NextObject { complete: bool, path: String, size: u64 },
    /// Append these bytes to the object that is arriving.
    Write(Vec<u8>),
    /// Complete the object that was arriving, if one was; the stream is at its end.
    Done { complete: bool },
}

/// Why a frame is refused, and whether the object that is arriving has to be given
/// up.
#[derive(Debug, Clone, PartialEq, Eq)]
pub struct ReceiveRefusal {
    pub error: TransportError,
    /// An object was arriving that is too large.
    pub aborted: bool,
    /// An object was arriving that is incomplete.
    pub failed: bool,
}

/// Takes a stream in, frame by frame.
pub struct SnapshotReceiver {
    payload: Vec<u8>,
    artifacts: Option<Vec<SlateDbCheckpointArtifact>>,
    object: Option<ReceivingCheckpointObject>,
    stats: SnapshotStreamStats,
    arrival: Ghost<ArrivalModel>,
}

impl View for SnapshotReceiver {
    type V = ArrivalModel;

    closed spec fn view(&self) -> ArrivalModel {
        self.arrival@
    }
}

impl SnapshotReceiver {
    /// Whether the state of the receiver is that of what has arrived.
    pub closed spec fn wf(&self) -> bool {
        &&& self.payload@ == self.arrival@.manifest
        &&& match (self.object, self.arrival@.current) {
            (Some(object), Some(model)) => object.path@ == model.path && object.expected_size
                == model.size && object.received_size == model.bytes.len() && model.bytes.len()
                <= model.size,
            (None, None) => true,
            _ => false,
        }
        &&& self.stats.manifest_bytes == self.arrival@.manifest.len()
        &&& self.stats.checkpoint_objects == self.arrival@.objects.len()
        &&& self.stats.checkpoint_object_bytes == total_bytes(ended(self.arrival@))
    }

    /// The checkpoints of the snapshot, once they are known.
    pub closed spec fn allowed(&self) -> Option<Seq<SlateDbCheckpointArtifact>> {
        match self.artifacts {
            Some(artifacts) => Some(artifacts@),
            None => None,
        }
    }

    /// A receiver that has seen the first frame.
    pub fn new() -> (receiver: SnapshotReceiver)
        ensures
            receiver.wf(),
            receiver@ == nothing_arrived(),
            receiver.allowed() is None,
    {
        SnapshotReceiver {
            payload: Vec::new(),
            artifacts: None,
            object: None,
            stats: SnapshotStreamStats {
                manifest_bytes: 0,
                checkpoint_objects: 0,
                checkpoint_object_bytes: 0,
            },
            arrival: Ghost(nothing_arrived()),
        }
    }

    /// Whether the checkpoints of the snapshot have to be read from the manifest
    /// before a frame can be taken.
    pub fn wants_artifacts(&self, frame: &SnapshotFrame) -> (wants: bool)
        ensures
            wants == (frame@ is Object && self.allowed() is None),
    {
        match frame {
            SnapshotFrame::CheckpointObjectHeader { path, size } => self.artifacts.is_none(),
            _ => false,
        }
    }

    /// Tells the receiver the checkpoints of the snapshot.
    pub fn set_artifacts(&mut self, artifacts: Vec<SlateDbCheckpointArtifact>)
        requires
            old(self).wf(),
        ensures
            final(self).wf(),
            final(self)@ == old(self)@,
            final(self).allowed() == Some(artifacts@),
    {
        self.artifacts = Some(artifacts);
    }

    /// The manifest so far.
    pub fn manifest(&self) -> (payload: &Vec<u8>)
        requires
            self.wf(),
        ensures
            payload@ == self@.manifest,
    {
        &self.payload
    }

    fn check_end(&self) -> (checked: Result<(), TransportError>)
        requires
            self.wf(),
        ensures
            match end_refusal(self@) {
                None => checked is Ok,
                Some(message) => checked matches Err(error) && error@ == (
                    StatusCode::InvalidArgument,
                    message,
                ),
            },
    {
        match &self.object {
            None => Ok(()),
            Some(object) => {
                if object.received_size == object.expected_size {
                    return Ok(());
                }
                let mut message: String = "checkpoint object ".to_owned();
                message.append(object.path.as_str());
                message.append(" byte count mismatch: received ");
                append_number(&mut message, object.received_size);
                message.append(", expected ");
                append_number(&mut message, object.expected_size);
                Err(refuse(StatusCode::InvalidArgument, message))
            },
        }
    }

    /// Takes a frame in.
    pub fn accept(&mut self, frame: SnapshotFrame) -> (step: Result<ReceiveStep, ReceiveRefusal>)
        requires
            old(self).wf(),
            frame@ is Object ==> old(self).allowed() is Some,
            old(self)@.manifest.len() + (match frame@ {
                FrameModel::Manifest(bytes) => bytes.len(),
                _ => 0,
            }) <= u64::MAX,
            total_bytes(ended(old(self)@)) + (match frame@ {
                FrameModel::Chunk(bytes) => bytes.len(),
                _ => 0,
            }) <= u64::MAX,
            old(self)@.objects.len() < u64::MAX,
        ensures
            final(self).wf(),
            final(self).allowed() == old(self).allowed(),
            match frame_refusal(
                old(self)@,
                match old(self).allowed() {
                    Some(artifacts) => artifacts,
                    None => Seq::empty(),
                },
                frame@,
            ) {
                Some(message) => final(self)@ == old(self)@ && (step matches Err(refusal)
                    && refusal.error@ == (StatusCode::InvalidArgument, message) && refusal.aborted
                    == (frame@ is Chunk && old(self)@.current is Some) && refusal.failed == ((
                frame@ matches FrameModel::Object(path, size) ==> is_allowed(
                    old(self).allowed()->0,
                    path,
                )) && (frame@ is Object || frame@ is End))),
                None => final(self)@ == after_frame(old(self)@, frame@) && (step matches Ok(taken)
                    && match frame@ {
                    FrameModel::Header => false,
                    FrameModel::Manifest(bytes) => taken is Continue,
                    FrameModel::Object(path, size) => taken matches ReceiveStep::NextObject {
                        complete,
                        path: opened,
                        size: announced,
                    } && complete == (old(self)@.current is Some) && opened@ == path && announced
                        == size,
                    FrameModel::Chunk(bytes) => taken matches ReceiveStep::Write(data) && data@
                        == bytes,
                    FrameModel::End => taken matches ReceiveStep::Done { complete } && complete
                        == (old(self)@.current is Some),
                }),
            },
    {
        let ghost before = self@;
        let ghost model = frame@;
        match frame {
            SnapshotFrame::Header => Err(
                ReceiveRefusal {
                    error: refuse(
                        StatusCode::InvalidArgument,
                        "snapshot stream contained duplicate header frame".to_owned(),
                    ),
                    aborted: false,
                    failed: false,
                },
            ),
            SnapshotFrame::ManifestChunk(chunk) => {
                let mut bytes = chunk;
                self.stats.manifest_bytes = self.stats.manifest_bytes + bytes.len() as u64;
                self.payload.append(&mut bytes);
                self.arrival = Ghost(after_frame(before, model));
                Ok(ReceiveStep::Continue)
            },
            SnapshotFrame::CheckpointObjectHeader { path, size } => {
                if let Some(artifacts) = &self.artifacts {
                    if let Err(error) = ensure_snapshot_object_path_allowed(
                        artifacts,
                        path.as_str(),
                    ) {
                        return Err(ReceiveRefusal { error, aborted: false, failed: false });
                    }
                }
                if let Err(error) = self.check_end() {
                    return Err(ReceiveRefusal { error, aborted: false, failed: true });
                }
                let complete = self.object.is_some();
                if complete {
                    self.stats.checkpoint_objects = self.stats.checkpoint_objects + 1;
                }
                self.object = Some(
                    ReceivingCheckpointObject {
                        path: path.clone(),
                        expected_size: size,
                        received_size: 0,
                    },
                );
                self.arrival = Ghost(after_frame(before, model));
                proof {
                    let objects = ended(after_frame(before, model));
                    assert(objects.drop_last() =~= ended(before));
                }
                Ok(ReceiveStep::NextObject { complete, path, size })
            },
            SnapshotFrame::CheckpointObjectChunk(chunk) => {
                let (path, expected, received): (String, u64, u64) = match &self.object {
                    None => {
                        return Err(
                            ReceiveRefusal {
                                error: refuse(
                                    StatusCode::InvalidArgument,
                                    "checkpoint object chunk arrived before object header".to_owned(),
                                ),
                                aborted: false,
                                failed: false,
                            },
                        );
                    },
                    Some(object) => (
                        object.path.clone(),
                        object.expected_size,
                        object.received_size.saturating_add(chunk.len() as u64),
                    ),
                };
                proof {
                    let object = before.current->0;
                    assert(ended(before).drop_last() =~= before.objects);
                    assert(total_bytes(ended(before)) == total_bytes(before.objects)
                        + object.bytes.len());
                    assert(received == object.bytes.len() + chunk@.len());
                }
                if received > expected {
                    let mut message: String = "checkpoint object ".to_owned();
                    message.append(path.as_str());
                    message.append(" exceeded expected size ");
                    append_number(&mut message, expected);
                    return Err(
                        ReceiveRefusal {
                            error: refuse(StatusCode::InvalidArgument, message),
                            aborted: true,
                            failed: false,
                        },
                    );
                }
                self.stats.checkpoint_object_bytes =
                self.stats.checkpoint_object_bytes + chunk.len() as u64;
                self.object = Some(
                    ReceivingCheckpointObject {
                        path,
                        expected_size: expected,
                        received_size: received,
                    },
                );
                self.arrival = Ghost(after_frame(before, model));
                proof {
                    let after = after_frame(before, model);
                    assert(ended(after).drop_last() =~= before.objects);
                }
                Ok(ReceiveStep::Write(chunk))
            },
            SnapshotFrame::End => {
                if let Err(error) = self.check_end() {
                    return Err(ReceiveRefusal { error, aborted: false, failed: true });
                }
                let complete = self.object.is_some();
                if complete {
                    self.stats.checkpoint_objects = self.stats.checkpoint_objects + 1;
                }
                self.object = None;
                self.arrival = Ghost(after_frame(before, model));
                Ok(ReceiveStep::Done { complete })
            },
        }
    }

    /// The refusal of a stream that ends without its last frame, and whether an
    /// object was arriving that has to be given up.
    pub fn cut_off(&self) -> (refusal: ReceiveRefusal)
        requires
            self.wf(),
        ensures
            refusal.aborted == (self@.current is Some),
            !refusal.failed,
            refusal.error@ == (
                StatusCode::InvalidArgument,
                if self@.current is Some {
                    "snapshot stream ended before checkpoint object completed"@
                } else {
                    "snapshot stream ended before end frame"@
                },
            ),
    {
        if self.object.is_some() {
            ReceiveRefusal {
                error: refuse(
                    StatusCode::InvalidArgument,
                    "snapshot stream ended before checkpoint object completed".to_owned(),
                ),
                aborted: true,
                failed: false,
            }
        } else {
            ReceiveRefusal {
                error: refuse(
                    StatusCode::InvalidArgument,
                    "snapshot stream ended before end frame".to_owned(),
                ),
                aborted: false,
                failed: false,
            }
        }
    }

    /// The manifest and the counts of what has arrived.
    pub fn finish(self) -> (finished: (Vec<u8>, SnapshotStreamStats))
        requires
            self.wf(),
        ensures
            finished.0@ == self@.manifest,
            finished.1.manifest_bytes == self@.manifest.len(),
            finished.1.checkpoint_objects == self@.objects.len(),
            finished.1.checkpoint_object_bytes == total_bytes(ended(self@)),
    {
        (self.payload, self.stats)
    }
}

/// Where an object that is opened has to be written.
pub fn open_object_location(path: &str) -> (location: Result<String, TransportError>)
    ensures
        match checkpoint::object_path_reading(path@) {
            Ok(read) => location matches Ok(found) && found@ == read,
            Err(text) => location matches Err(error) && error@ == (
                StatusCode::InvalidArgument,
                "invalid checkpoint object path: "@ + text,
            ),
        },
{
    match read_object_path(path) {
        Ok(found) => Ok(found),
        Err(text) => {
            let mut message: String = "invalid checkpoint object path: ".to_owned();
            message.append(text.as_str());
            Err(refuse(StatusCode::InvalidArgument, message))
        },
    }
}

/// The message for an object that was stored with another size.
pub open spec fn completed_message(location: Seq<char>, size: u64, expected: u64) -> Seq<char> {
    "checkpoint object "@ + location + " completed with size "@ + text::number_text(size as nat)
        + ", expected "@ + text::number_text(expected as nat)
}

/// Checks the size with which an object was stored.
pub fn check_completed_object(location: &str, size: u64, expected: u64) -> (checked: Result<
    (),
    TransportError,
>)
    ensures
        checked is Ok <==> size == expected,
        checked matches Err(error) ==> error@ == (
            StatusCode::Internal,
            completed_message(location@, size, expected),
        ),
{
    if size == expected {
        return Ok(());
    }
    let mut message: String = "checkpoint object ".to_owned();
    message.append(location);
    message.append(" completed with size ");
    append_number(&mut message, size);
    message.append(", expected ");
    append_number(&mut message, expected);
    Err(refuse(StatusCode::Internal, message))
}

/// The counts of a stream that carries the manifest alone, without frames.
pub fn unframed_stats(payload: &Vec<u8>) -> (stats: SnapshotStreamStats)
    ensures
        stats.manifest_bytes == payload@.len(),
        stats.checkpoint_objects == 0,
        stats.checkpoint_object_bytes == 0,
{
    SnapshotStreamStats {
        manifest_bytes: payload.len() as u64,
        checkpoint_objects: 0,
        checkpoint_object_bytes: 0,
    }
}

} // verus!
