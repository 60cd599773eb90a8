//! Sending a snapshot: the messages of a stream, in their order.

use vstd::prelude::*;
use vstd::string::*;

use crate::checkpoint;
use crate::checkpoint::SlateDbCheckpointArtifact;
use crate::ordered;
use crate::raft_metrics::SnapshotStreamStats;
use crate::snapshot_stream;
use crate::snapshot_stream::manifest_frames;
use crate::snapshot_stream::FrameModel;
use crate::snapshot_stream::SendingCheckpointObject;
use crate::snapshot_stream::SnapshotFrame;

verus! {

broadcast use group_string_axioms;

/// Byte strings, one after the other.
pub open spec fn joined(list: Seq<Seq<u8>>) -> Seq<u8>
    decreases list.len(),
{
    if list.len() == 0 {
        Seq::empty()
    } else {
        joined(list.drop_last()) + list.last()
    }
}

/// An object that is sent: its path, and the pieces in which it is sent.
pub struct SentObject {
    pub path: Seq<char>,
    pub chunks: Seq<Seq<u8>>,
}

/// The frames that carry an object.
pub open spec fn object_frames(object: SentObject) -> Seq<FrameModel> {
    seq![FrameModel::Object(object.path, joined(object.chunks).len() as u64)]
        + snapshot_stream::chunk_frames_of(object.chunks)
}

/// The frames that carry objects.
pub open spec fn objects_frames(objects: Seq<SentObject>) -> Seq<FrameModel>
    decreases objects.len(),
{
    if objects.len() == 0 {
        Seq::empty()
    } else {
        objects_frames(objects.drop_last()) + object_frames(objects.last())
    }
}

/// The frames of a stream behind its first one: the manifest, the objects, and the
/// end.
pub open spec fn stream_frames(manifest: Seq<Seq<u8>>, objects: Seq<SentObject>) -> Seq<FrameModel> {
    snapshot_stream::manifest_frames_of(manifest) + objects_frames(objects) + seq![FrameModel::End]
}

/// Whether objects may belong to a snapshot, and none is larger than a stream can
/// announce.
pub open spec fn can_be_sent(
    artifacts: Seq<SlateDbCheckpointArtifact>,
    objects: Seq<SentObject>,
) -> bool {
    forall|i: int|
        0 <= i < objects.len() ==> snapshot_stream::is_allowed(
            artifacts,
            (#[trigger] objects[i]).path,
        ) && joined(objects[i].chunks).len() <= u64::MAX
}

/// A message of a stream.
#[derive(Debug, Clone, PartialEq, Eq)]
pub struct SnapshotMessage {
    pub group_id: String,
    pub metrics_payload: Vec<u8>,
    pub frame: SnapshotFrame,
}

/// The model of a message.
#[verifier::ext_equal]
pub struct MessageModel {
    pub group_id: Seq<char>,
    pub metrics_payload: Seq<u8>,
    pub frame: FrameModel,
}

impl View for SnapshotMessage {
    type V = MessageModel;

    open spec fn view(&self) -> MessageModel {
        MessageModel {
            group_id: self.group_id@,
            metrics_payload: self.metrics_payload@,
            frame: self.frame@,
        }
    }
}

/// The models of messages.
pub open spec fn message_models(messages: Seq<SnapshotMessage>) -> Seq<MessageModel> {
    Seq::new(messages.len(), |i: int| messages[i]@)
}

/// The messages that carry frames, without metrics.
pub open spec fn plain_messages(group_id: Seq<char>, frames: Seq<FrameModel>) -> Seq<MessageModel> {
    Seq::new(
        frames.len(),
        |i: int| MessageModel { group_id, metrics_payload: Seq::empty(), frame: frames[i] },
    )
}

/// The messages of a stream: the first one carries the header and the metrics, the
/// others carry the frames behind the header.
pub open spec fn stream_messages(
    group_id: Seq<char>,
    metrics_payload: Seq<u8>,
    frames: Seq<FrameModel>,
) -> Seq<MessageModel> {
    seq![MessageModel { group_id, metrics_payload, frame: FrameModel::Header }] + plain_messages(
        group_id,
        frames,
    )
}

/// An object of which not all has been sent: its path, its size as announced, and the
/// pieces so far.
pub struct OpenObject {
    pub path: Seq<char>,
    pub size: u64,
    pub chunks: Seq<Seq<u8>>,
}

/// What has been sent of a snapshot.
pub struct SendingModel {
    pub manifest: Seq<Seq<u8>>,
    pub objects: Seq<SentObject>,
    pub current: Option<OpenObject>,
    pub ended: bool,
}

/// The frames that have been sent behind the header.
pub open spec fn frames_so_far(sending: SendingModel) -> Seq<FrameModel> {
    snapshot_stream::manifest_frames_of(sending.manifest) + objects_frames(sending.objects) + (
    match sending.current {
        Some(object) => seq![FrameModel::Object(object.path, object.size)]
            + snapshot_stream::chunk_frames_of(object.chunks),
        None => Seq::empty(),
    }) + if sending.ended {
        seq![FrameModel::End]
    } else {
        Seq::empty()
    }
}

/// The bytes of objects, together.
pub open spec fn objects_size(objects: Seq<SentObject>) -> nat
    decreases objects.len(),
{
    if objects.len() == 0 {
        0
    } else {
        objects_size(objects.drop_last()) + joined(objects.last().chunks).len()
    }
}

/// The number of objects that were begun.
pub open spec fn objects_begun(sending: SendingModel) -> nat {
    sending.objects.len() + if sending.current is Some {
        1nat
    } else {
        0nat
    }
}

/// The bytes of objects that were sent.
pub open spec fn object_bytes_sent(sending: SendingModel) -> nat {
    objects_size(sending.objects) + match sending.current {
        Some(object) => joined(object.chunks).len(),
        None => 0,
    }
}

/// The pieces of two lists, one after the other, are their bytes one after the other.
pub proof fn lemma_joined_both(first: Seq<Seq<u8>>, second: Seq<Seq<u8>>)
    ensures
        joined(first + second) == joined(first) + joined(second),
    decreases second.len(),
{
    if second.len() == 0 {
        assert(first + second =~= first);
        assert(joined(first) + joined(second) =~= joined(first));
    } else {
        lemma_joined_both(first, second.drop_last());
        assert((first + second).drop_last() =~= first + second.drop_last());
        assert(joined(first + second) =~= joined(first) + joined(second));
    }
}

/// The pieces into which bytes are cut are those bytes.
pub proof fn law_pieces_are_the_whole(bytes: Seq<u8>, size: int)
    requires
        size > 0,
    ensures
        joined(snapshot_stream::pieces(bytes, size)) == bytes,
        forall|i: int|
            0 <= i < snapshot_stream::pieces(bytes, size).len() ==> 0 < (
            #[trigger] snapshot_stream::pieces(bytes, size)[i]).len() <= size,
    decreases bytes.len(),
{
    let list = snapshot_stream::pieces(bytes, size);
    assert(joined(Seq::empty()) == Seq::<u8>::empty());
    if bytes.len() == 0 {
        assert(joined(list) =~= bytes);
    } else if bytes.len() <= size {
        assert(list.drop_last() =~= Seq::empty());
        assert(joined(list) =~= bytes);
    } else {
        let first = bytes.take(size);
        let rest = bytes.skip(size);
        law_pieces_are_the_whole(rest, size);
        lemma_joined_both(seq![first], snapshot_stream::pieces(rest, size));
        assert(seq![first].drop_last() =~= Seq::empty());
        assert(joined(seq![first]) =~= first);
        assert(first + rest =~= bytes);
        assert forall|i: int| 0 <= i < list.len() implies 0 < (#[trigger] list[i]).len()
            <= size by {
            if i > 0 {
                assert(list[i] == snapshot_stream::pieces(rest, size)[i - 1]);
            }
        }
    }
}

/// Turns frames into messages.
fn carry_frames(group_id: &String, frames: Vec<SnapshotFrame>) -> (messages: Vec<SnapshotMessage>)
    ensures
        message_models(messages@) == plain_messages(
            group_id@,
            snapshot_stream::frame_models(frames@),
        ),
{
    let ghost all = frames@;
    let mut rest = frames;
    let ghost mut taken: int = 0;
    let mut messages: Vec<SnapshotMessage> = Vec::new();
    assert(rest@ =~= all.skip(0));
    while rest.len() > 0
        invariant
            0 <= taken <= all.len(),
            rest@ == all.skip(taken),
            messages@.len() == taken,
            forall|i: int|
                0 <= i < taken ==> (#[trigger] messages@[i])@ == (MessageModel {
                    group_id: group_id@,
                    metrics_payload: Seq::empty(),
                    frame: all[i]@,
                }),
        decreases rest.len(),
    {
        let frame = rest.remove(0);
        assert(frame == all[taken]);
        assert(rest@ =~= all.skip(taken + 1));
        let message = SnapshotMessage {
            group_id: group_id.clone(),
            metrics_payload: Vec::new(),
            frame,
        };
        assert(message.metrics_payload@ =~= Seq::<u8>::empty());
        messages.push(message);
        proof {
            taken = taken + 1;
        }
    }
    assert(message_models(messages@) =~= plain_messages(
        group_id@,
        snapshot_stream::frame_models(all),
    ));
    messages
}

/// A snapshot that is being sent.
pub struct SnapshotSender {
    group_id: String,
    chunk_size: usize,
    object: Option<SendingCheckpointObject>,
    ended: bool,
    stats: SnapshotStreamStats,
    metrics_payload: Ghost<Seq<u8>>,
    artifacts: Ghost<Seq<SlateDbCheckpointArtifact>>,
    sending: Ghost<SendingModel>,
}

impl View for SnapshotSender {
    type V = SendingModel;

    closed spec fn view(&self) -> SendingModel {
        self.sending@
    }
}

impl SnapshotSender {
    /// Whether the sender keeps to what has been sent.
    pub closed spec fn wf(&self) -> bool {
        &&& self.chunk_size > 0
        &&& self.ended == self@.ended
        &&& self.ended ==> self@.current is None
        &&& self.stats.checkpoint_objects == objects_begun(self@)
        &&& self.stats.checkpoint_object_bytes == object_bytes_sent(self@)
        &&& self.stats.manifest_bytes == joined(self@.manifest).len()
        &&& can_be_sent(self.artifacts@, self@.objects)
        &&& match (self.object, self@.current) {
            (Some(object), Some(current)) => {
                &&& object.path@ == current.path
                &&& object.size == current.size
                &&& object.streamed == joined(current.chunks).len()
                &&& object.streamed <= object.size
                &&& snapshot_stream::is_allowed(self.artifacts@, current.path)
            },
            (None, None) => true,
            _ => false,
        }
    }

    /// The largest piece that is sent.
    pub closed spec fn piece_size(&self) -> int {
        self.chunk_size as int
    }

    /// The checkpoints whose objects were begun, once for each object.
    pub closed spec fn begun_of(&self) -> Seq<SlateDbCheckpointArtifact> {
        self.artifacts@
    }

    /// The messages that have been sent.
    pub open spec fn sent(&self) -> Seq<MessageModel> {
        stream_messages(self.addressed().0, self.addressed().1, frames_so_far(self@))
    }

    /// The group that the messages are for, and the metrics that the first one carries.
    pub closed spec fn addressed(&self) -> (Seq<char>, Seq<u8>) {
        (self.group_id@, self.metrics_payload@)
    }

    /// What the sender has counted.
    pub closed spec fn counted(&self) -> SnapshotStreamStats {
        self.stats
    }

    /// Begins with the header, which alone carries the metrics, and the manifest in
    /// pieces.
    pub fn begin(group_id: String, metrics_payload: Vec<u8>, manifest: &[u8], chunk_size: usize) -> (
    begun: (SnapshotSender, Vec<SnapshotMessage>))
        requires
            chunk_size > 0,
        ensures
            begun.0.wf(),
            begun.0.addressed() == (group_id@, metrics_payload@),
            begun.0.piece_size() == chunk_size,
            begun.0.begun_of().len() == 0,
            begun.0@ == (SendingModel {
                manifest: snapshot_stream::pieces(manifest@, chunk_size as int),
                objects: Seq::empty(),
                current: None,
                ended: false,
            }),
            message_models(begun.1@) == begun.0.sent(),
            begun.0.counted() == (SnapshotStreamStats {
                manifest_bytes: manifest@.len() as u64,
                checkpoint_objects: 0,
                checkpoint_object_bytes: 0,
            }),
    {
        let ghost metrics = metrics_payload@;
        let mut messages: Vec<SnapshotMessage> = Vec::new();
        messages.push(
            SnapshotMessage {
                group_id: group_id.clone(),
                metrics_payload,
                frame: SnapshotFrame::Header,
            },
        );
        let ghost first = messages@;
        let len: usize = manifest.len();
        let mut rest = carry_frames(&group_id, manifest_frames(manifest, chunk_size));
        let ghost others = rest@;
        messages.append(&mut rest);
        let stats = SnapshotStreamStats {
            manifest_bytes: len as u64,
            checkpoint_objects: 0,
            checkpoint_object_bytes: 0,
        };
        let sender = SnapshotSender {
            group_id,
            chunk_size,
            object: None,
            ended: false,
            stats,
            metrics_payload: Ghost(metrics),
            artifacts: Ghost(Seq::empty()),
            sending: Ghost(
                SendingModel {
                    manifest: snapshot_stream::pieces(manifest@, chunk_size as int),
                    objects: Seq::empty(),
                    current: None,
                    ended: false,
                },
            ),
        };
        proof {
            law_pieces_are_the_whole(manifest@, chunk_size as int);
            assert(frames_so_far(sender@) =~= snapshot_stream::manifest_frames_of(
                sender@.manifest,
            ));
            assert(message_models(messages@) =~= message_models(first) + message_models(others));
            assert(message_models(first) =~= seq![
                MessageModel {
                    group_id: sender.group_id@,
                    metrics_payload: metrics,
                    frame: FrameModel::Header,
                },
            ]);
        }
        (sender, messages)
    }

    /// What was counted so far.
    pub fn stats(&self) -> (stats: SnapshotStreamStats)
        requires
            self.wf(),
        ensures
            stats == self.counted(),
            stats.manifest_bytes == joined(self@.manifest).len(),
            stats.checkpoint_objects == objects_begun(self@),
            stats.checkpoint_object_bytes == object_bytes_sent(self@),
    {
        self.stats
    }

    proof fn lemma_more_frames(&self, before: SendingModel, more: Seq<FrameModel>)
        requires
            frames_so_far(self@) == frames_so_far(before) + more,
        ensures
            self.sent() == stream_messages(
                self.group_id@,
                self.metrics_payload@,
                frames_so_far(before),
            ) + plain_messages(self.group_id@, more),
    {
        assert(self.sent() =~= stream_messages(
            self.group_id@,
            self.metrics_payload@,
            frames_so_far(before),
        ) + plain_messages(self.group_id@, more));
    }

    /// Begins an object of a checkpoint: it must lie where the checkpoint's objects lie.
    pub fn begin_object(&mut self, artifact: &SlateDbCheckpointArtifact, path: &str, size: u64) -> (
    begun: Result<SnapshotMessage, String>)
        requires
            old(self).wf(),
            !old(self)@.ended,
            old(self)@.current is None,
            objects_begun(old(self)@) < u64::MAX,
        ensures
            final(self).wf(),
            final(self).addressed() == old(self).addressed(),
            final(self).piece_size() == old(self).piece_size(),
            match begun {
                Ok(message) => {
                    &&& checkpoint::lies_under(
                        ordered::text_bytes(artifact.object_prefix@),
                        ordered::text_bytes(path@),
                    )
                    &&& final(self)@ == (SendingModel {
                        current: Some(OpenObject { path: path@, size, chunks: Seq::empty() }),
                        ..old(self)@
                    })
                    &&& final(self).begun_of() == old(self).begun_of().push(*artifact)
                    &&& final(self).sent() == old(self).sent().push(message@)
                },
                Err(text) => {
                    &&& !checkpoint::lies_under(
                        ordered::text_bytes(artifact.object_prefix@),
                        ordered::text_bytes(path@),
                    )
                    &&& text@ == checkpoint::outside_message(artifact.object_prefix@, path@)
                    &&& *final(self) == *old(self)
                },
            },
    {
        let ghost before = self@;
        let ghost known = self.artifacts@;
        let (object, frame) = match SendingCheckpointObject::begin(
            artifact,
            path,
            size,
            &mut self.stats,
        ) {
            Ok(begun) => begun,
            Err(text) => return Err(text),
        };
        self.object = Some(object);
        let message = SnapshotMessage {
            group_id: self.group_id.clone(),
            metrics_payload: Vec::new(),
            frame,
        };
        self.artifacts = Ghost(known.push(*artifact));
        self.sending = Ghost(
            SendingModel {
                current: Some(OpenObject { path: path@, size, chunks: Seq::empty() }),
                ..before
            },
        );
        proof {
            let more = seq![FrameModel::Object(path@, size)];
            assert(snapshot_stream::chunk_frames_of(Seq::empty()) =~= Seq::empty());
            assert(frames_so_far(self@) =~= frames_so_far(before) + more);
            self.lemma_more_frames(before, more);
            assert(message.metrics_payload@ =~= Seq::<u8>::empty());
            assert(self.sent() =~= old(self).sent().push(message@));
            lemma_allowed_stays(known, *artifact);
            assert(self.artifacts@[known.len() as int] == *artifact);
        }
        Ok(message)
    }

    /// Sends more bytes of the object.
    pub fn stream(&mut self, bytes: &[u8]) -> (sent: Result<Vec<SnapshotMessage>, String>)
        requires
            old(self).wf(),
            old(self)@.current is Some,
            object_bytes_sent(old(self)@) + bytes@.len() <= u64::MAX,
        ensures
            final(self).addressed() == old(self).addressed(),
            final(self).piece_size() == old(self).piece_size(),
            final(self).begun_of() == old(self).begun_of(),
            ({
                let object = old(self)@.current->0;
                match sent {
                    Ok(messages) => {
                        &&& joined(object.chunks).len() + bytes@.len() <= object.size
                        &&& final(self).wf()
                        &&& final(self)@ == (SendingModel {
                            current: Some(
                                OpenObject {
                                    chunks: object.chunks + snapshot_stream::pieces(
                                        bytes@,
                                        old(self).piece_size(),
                                    ),
                                    ..object
                                },
                            ),
                            ..old(self)@
                        })
                        &&& final(self).sent() == old(self).sent() + message_models(messages@)
                    },
                    Err(text) => {
                        &&& joined(object.chunks).len() + bytes@.len() > object.size
                        &&& text@ == snapshot_stream::exceeded_listed_message(
                            object.path,
                            object.size,
                        )
                        &&& final(self)@ == old(self)@
                    },
                }
            }),
    {
        let ghost before = self@;
        let ghost open = before.current->0;
        let ghost added = snapshot_stream::pieces(bytes@, self.chunk_size as int);
        let mut object = match self.object.take() {
            Some(object) => object,
            None => return Ok(Vec::new()),
        };
        let outcome = object.stream(bytes, self.chunk_size, &mut self.stats);
        self.object = Some(object);
        let frames = match outcome {
            Ok(frames) => frames,
            Err(text) => return Err(text),
        };
        let messages = carry_frames(&self.group_id, frames);
        self.sending = Ghost(
            SendingModel {
                current: Some(OpenObject { chunks: open.chunks + added, ..open }),
                ..before
            },
        );
        proof {
            let more = snapshot_stream::chunk_frames_of(added);
            law_pieces_are_the_whole(bytes@, self.chunk_size as int);
            lemma_joined_both(open.chunks, added);
            assert(snapshot_stream::chunk_frames_of(open.chunks + added)
                =~= snapshot_stream::chunk_frames_of(open.chunks) + more);
            assert(frames_so_far(self@) =~= frames_so_far(before) + more);
            self.lemma_more_frames(before, more);
        }
        Ok(messages)
    }

    /// Ends the object: all of it must have been sent.
    pub fn finish_object(&mut self) -> (finished: Result<(), String>)
        requires
            old(self).wf(),
            old(self)@.current is Some,
        ensures
            final(self).wf(),
            final(self).addressed() == old(self).addressed(),
            final(self).piece_size() == old(self).piece_size(),
            final(self).begun_of() == old(self).begun_of(),
            final(self).sent() == old(self).sent(),
            ({
                let object = old(self)@.current->0;
                match finished {
                    Ok(()) => {
                        &&& joined(object.chunks).len() == object.size
                        &&& final(self)@ == (SendingModel {
                            objects: old(self)@.objects.push(
                                SentObject { path: object.path, chunks: object.chunks },
                            ),
                            current: None,
                            ..old(self)@
                        })
                    },
                    Err(text) => {
                        &&& joined(object.chunks).len() != object.size
                        &&& text@ == snapshot_stream::streamed_message(
                            object.path,
                            joined(object.chunks).len() as u64,
                            object.size,
                        )
                        &&& final(self)@ == old(self)@
                    },
                }
            }),
    {
        let ghost before = self@;
        let ghost open = before.current->0;
        let object = match self.object.take() {
            Some(object) => object,
            None => return Ok(()),
        };
        if let Err(text) = object.finish() {
            self.object = Some(object);
            return Err(text);
        }
        let ghost whole = SentObject { path: open.path, chunks: open.chunks };
        self.sending = Ghost(
            SendingModel { objects: before.objects.push(whole), current: None, ..before },
        );
        proof {
            assert(self@.objects.drop_last() =~= before.objects);
            assert(frames_so_far(self@) =~= frames_so_far(before));
        }
        Ok(())
    }

    /// Ends the stream, and says what was counted.
    pub fn end(&mut self) -> (ended: (SnapshotMessage, SnapshotStreamStats))
        requires
            old(self).wf(),
            !old(self)@.ended,
            old(self)@.current is None,
        ensures
            final(self).wf(),
            final(self).addressed() == old(self).addressed(),
            final(self).piece_size() == old(self).piece_size(),
            final(self).begun_of() == old(self).begun_of(),
            final(self)@ == (SendingModel { ended: true, ..old(self)@ }),
            final(self).sent() == old(self).sent().push(ended.0@),
            final(self).sent() == stream_messages(
                old(self).addressed().0,
                old(self).addressed().1,
                stream_frames(old(self)@.manifest, old(self)@.objects),
            ),
            can_be_sent(final(self).begun_of(), final(self)@.objects),
            ended.1 == final(self).counted(),
            ended.1.manifest_bytes == joined(old(self)@.manifest).len(),
            ended.1.checkpoint_objects == old(self)@.objects.len(),
            ended.1.checkpoint_object_bytes == objects_size(old(self)@.objects),
    {
        let ghost before = self@;
        let message = SnapshotMessage {
            group_id: self.group_id.clone(),
            metrics_payload: Vec::new(),
            frame: SnapshotFrame::End,
        };
        self.ended = true;
        self.sending = Ghost(SendingModel { ended: true, ..before });
        proof {
            let more = seq![FrameModel::End];
            assert(frames_so_far(self@) =~= frames_so_far(before) + more);
            self.lemma_more_frames(before, more);
            assert(message.metrics_payload@ =~= Seq::<u8>::empty());
            assert(self.sent() =~= old(self).sent().push(message@));
            assert(frames_so_far(self@) =~= stream_frames(before.manifest, before.objects));
        }
        (message, self.stats)
    }
}

/// What may belong to one of some checkpoints may belong to one of more.
proof fn lemma_allowed_stays(
    artifacts: Seq<SlateDbCheckpointArtifact>,
    artifact: SlateDbCheckpointArtifact,
)
    ensures
        forall|path: Seq<char>|
            snapshot_stream::is_allowed(artifacts, path) ==> #[trigger] snapshot_stream::is_allowed(
                artifacts.push(artifact),
                path,
            ),
{
    let more = artifacts.push(artifact);
    assert forall|path: Seq<char>| snapshot_stream::is_allowed(artifacts, path) implies
        #[trigger] snapshot_stream::is_allowed(more, path) by {
        let i = choose|i: int|
            0 <= i < artifacts.len() && checkpoint::lies_under(
                ordered::text_bytes((#[trigger] artifacts[i]).object_prefix@),
                ordered::text_bytes(path),
            );
        assert(more[i] == artifacts[i]);
    }
}

} // verus!
