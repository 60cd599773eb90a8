//! What holds of the messages: a refusal names what it refuses.

use vstd::prelude::*;
use vstd::string::*;

use crate::checkpoint;
use crate::large_payload;
use crate::log_store;
use crate::raft_client;
use crate::raft_client::LeaderHint;
use crate::raft_snapshot;
use crate::request;
use crate::snapshot_stream;
use crate::staging;
use crate::text;
use crate::transport;

verus! {

broadcast use group_string_axioms;

/// Whether a message holds a part from a position on.
pub open spec fn holds_at(message: Seq<char>, part: Seq<char>, at: int) -> bool {
    0 <= at <= message.len() - part.len() && message.subrange(at, at + part.len()) == part
}

/// Whether a message names something.
pub open spec fn names(message: Seq<char>, part: Seq<char>) -> bool {
    exists|at: int| #[trigger] holds_at(message, part, at)
}

/// Whether a message ends with something.
pub open spec fn ends_with(message: Seq<char>, part: Seq<char>) -> bool {
    holds_at(message, part, message.len() - part.len())
}

proof fn lemma_named(front: Seq<char>, part: Seq<char>, back: Seq<char>)
    ensures
        names(front + part + back, part),
        ends_with(front + part, part),
        names(front + part, part),
{
    let at = front.len() as int;
    let whole = front + part + back;
    assert(whole.subrange(at, at + part.len()) =~= part);
    assert(holds_at(whole, part, at));
    let short = front + part;
    assert(short.subrange(at, at + part.len()) =~= part);
    assert(holds_at(short, part, at));
}

/// A version that is not supported is named, and so every such version has a message of
/// its own.
pub proof fn law_unsupported_versions_are_named(version: u16, other: u16)
    ensures
        ends_with(transport::unsupported_wire_message(version), text::number_text(version as nat)),
        ends_with(log_store::unsupported_store_message(version), text::number_text(version as nat)),
        ends_with(
            raft_snapshot::unsupported_manifest_message(version),
            text::number_text(version as nat),
        ),
        transport::unsupported_wire_message(version) == transport::unsupported_wire_message(other)
            ==> version == other,
        log_store::unsupported_store_message(version) == log_store::unsupported_store_message(other)
            ==> version == other,
        raft_snapshot::unsupported_manifest_message(version)
            == raft_snapshot::unsupported_manifest_message(other) ==> version == other,
{
    let one = text::number_text(version as nat);
    let two = text::number_text(other as nat);
    let wire = "unsupported raft transport wire version "@;
    let store = "unsupported raft store format version "@;
    let manifest = "unsupported snapshot manifest version "@;
    lemma_named(wire, one, Seq::empty());
    lemma_named(store, one, Seq::empty());
    lemma_named(manifest, one, Seq::empty());
    assert((wire + one).skip(wire.len() as int) =~= one);
    assert((wire + two).skip(wire.len() as int) =~= two);
    assert((store + one).skip(store.len() as int) =~= one);
    assert((store + two).skip(store.len() as int) =~= two);
    assert((manifest + one).skip(manifest.len() as int) =~= one);
    assert((manifest + two).skip(manifest.len() as int) =~= two);
    text::lemma_number_text(version as nat, other as nat);
}

/// A message about a group or a node names it.
pub proof fn law_groups_and_nodes_are_named(group_id: Seq<char>, found: Seq<char>, target: u64)
    ensures
        names(transport::not_loaded_message(group_id), group_id),
        names(transport::other_group_message(found, group_id), found),
        ends_with(transport::other_group_message(found, group_id), group_id),
        ends_with(transport::missing_endpoint_message(target), text::number_text(target as nat)),
{
    lemma_named("raft group "@, group_id, " is not loaded"@);
    lemma_named(
        "snapshot chunk group_id "@,
        found,
        " does not match header group_id "@ + group_id,
    );
    assert("snapshot chunk group_id "@ + found + (" does not match header group_id "@ + group_id)
        =~= transport::other_group_message(found, group_id));
    lemma_named(
        "snapshot chunk group_id "@ + found + " does not match header group_id "@,
        group_id,
        Seq::empty(),
    );
    lemma_named("missing endpoint for node "@, text::number_text(target as nat), Seq::empty());
}

/// A message about an object of a checkpoint names its path, and what it was held against.
pub proof fn law_objects_are_named(path: Seq<char>, other: Seq<char>, expected: u64)
    ensures
        names(checkpoint::outside_message(other, path), path),
        ends_with(checkpoint::outside_message(other, path), other),
        names(checkpoint::no_referenced_objects_message(path), path),
        names(checkpoint::nothing_to_materialize_message(path), path),
        names(checkpoint::same_path_message(path, other), path),
        ends_with(checkpoint::same_path_message(path, other), other),
        names(snapshot_stream::not_allowed_message(path), path),
        names(snapshot_stream::exceeded_listed_message(path, expected), path),
        ends_with(
            snapshot_stream::exceeded_listed_message(path, expected),
            text::number_text(expected as nat),
        ),
{
    let size = text::number_text(expected as nat);
    let none = Seq::<char>::empty();
    lemma_named("checkpoint object path "@, path, " is outside expected prefix "@ + other);
    assert("checkpoint object path "@ + path + (" is outside expected prefix "@ + other)
        =~= checkpoint::outside_message(other, path));
    lemma_named(
        "checkpoint object path "@ + path + " is outside expected prefix "@,
        other,
        none,
    );
    lemma_named("checkpoint artifact "@, path, " has no referenced objects"@);
    lemma_named("checkpoint artifact "@, path, " has no objects to materialize"@);
    lemma_named("checkpoint clone target path "@, path, " matches source path "@ + other);
    assert("checkpoint clone target path "@ + path + (" matches source path "@ + other)
        =~= checkpoint::same_path_message(path, other));
    lemma_named("checkpoint clone target path "@ + path + " matches source path "@, other, none);
    lemma_named("checkpoint object path "@, path, " does not match snapshot artifacts"@);
    lemma_named("checkpoint object "@, path, " exceeded listed size "@ + size);
    assert("checkpoint object "@ + path + (" exceeded listed size "@ + size)
        =~= snapshot_stream::exceeded_listed_message(path, expected));
    lemma_named("checkpoint object "@ + path + " exceeded listed size "@, size, none);
}

/// A message about an object whose size is another one names its path, the size that it has,
/// and at its end the size that it should have.
pub proof fn law_sizes_are_named(path: Seq<char>, received: u64, expected: u64)
    ensures
        names(snapshot_stream::mismatch_message(path, received as nat, expected), path),
        names(
            snapshot_stream::mismatch_message(path, received as nat, expected),
            text::number_text(received as nat),
        ),
        ends_with(
            snapshot_stream::mismatch_message(path, received as nat, expected),
            text::number_text(expected as nat),
        ),
        names(snapshot_stream::streamed_message(path, received, expected), path),
        names(
            snapshot_stream::streamed_message(path, received, expected),
            text::number_text(received as nat),
        ),
        ends_with(
            snapshot_stream::streamed_message(path, received, expected),
            text::number_text(expected as nat),
        ),
        names(snapshot_stream::completed_message(path, received, expected), path),
        names(
            snapshot_stream::completed_message(path, received, expected),
            text::number_text(received as nat),
        ),
        ends_with(
            snapshot_stream::completed_message(path, received, expected),
            text::number_text(expected as nat),
        ),
{
    lemma_two_sizes(path, " byte count mismatch: received "@, received, ", expected "@, expected);
    lemma_two_sizes(path, " streamed "@, received, " bytes but listed "@, expected);
    lemma_two_sizes(path, " completed with size "@, received, ", expected "@, expected);
}

proof fn lemma_two_sizes(
    path: Seq<char>,
    what: Seq<char>,
    received: u64,
    against: Seq<char>,
    expected: u64,
)
    ensures
        ({
            let message = "checkpoint object "@ + path + what + text::number_text(received as nat)
                + against + text::number_text(expected as nat);
            &&& names(message, path)
            &&& names(message, text::number_text(received as nat))
            &&& ends_with(message, text::number_text(expected as nat))
        }),
{
    let has = text::number_text(received as nat);
    let wants = text::number_text(expected as nat);
    let front = "checkpoint object "@;
    let message = front + path + what + has + against + wants;
    lemma_named(front, path, what + has + against + wants);
    assert(front + path + (what + has + against + wants) =~= message);
    lemma_named(front + path + what, has, against + wants);
    assert(front + path + what + has + (against + wants) =~= message);
    lemma_named(front + path + what + has + against, wants, Seq::empty());
}

/// A message about an upload names it, and says what is missing or what the numbers of its
/// bytes are.
pub proof fn law_uploads_are_named(
    label: Seq<char>,
    upload_id: Seq<char>,
    chunk: nat,
    expected: u64,
    got: u64,
)
    ensures
        names(staging::mismatch_message(label, upload_id, expected, got), upload_id),
        names(
            staging::mismatch_message(label, upload_id, expected, got),
            text::number_text(expected as nat),
        ),
        ends_with(
            staging::mismatch_message(label, upload_id, expected, got),
            text::number_text(got as nat),
        ),
        names(staging::missing_chunk_message(label, upload_id, chunk), upload_id),
        ends_with(
            staging::missing_chunk_message(label, upload_id, chunk),
            text::number_text(chunk),
        ),
        ends_with(staging::missing_manifest_message(label, upload_id), upload_id),
        names(staging::missing_manifest_message(label, upload_id), label),
        names(large_payload::no_chunks_message(label, upload_id), upload_id),
        large_payload::label_of(large_payload::LargePayloadKind::SqliteBatch)
            != large_payload::label_of(large_payload::LargePayloadKind::SqlitePageDelta),
{
    let wants = text::number_text(expected as nat);
    let has = text::number_text(got as nat);
    let none = Seq::<char>::empty();
    let what = " byte count mismatch: expected "@;
    let message = label + " "@ + upload_id + what + wants + ", got "@ + has;
    lemma_named(label + " "@, upload_id, what + wants + ", got "@ + has);
    assert(label + " "@ + upload_id + (what + wants + ", got "@ + has) =~= message);
    lemma_named(label + " "@ + upload_id + what, wants, ", got "@ + has);
    assert(label + " "@ + upload_id + what + wants + (", got "@ + has) =~= message);
    lemma_named(label + " "@ + upload_id + what + wants + ", got "@, has, none);
    let number = text::number_text(chunk);
    let missing = "missing "@ + label + " chunk "@;
    lemma_named(missing, upload_id, "/"@ + number);
    assert(missing + upload_id + ("/"@ + number) =~= staging::missing_chunk_message(
        label,
        upload_id,
        chunk,
    ));
    lemma_named(missing + upload_id + "/"@, number, none);
    lemma_named("missing "@ + label + " manifest "@, upload_id, none);
    lemma_named("missing "@, label, " manifest "@ + upload_id);
    assert("missing "@ + label + (" manifest "@ + upload_id) =~= staging::missing_manifest_message(
        label,
        upload_id,
    ));
    lemma_named(label + " "@, upload_id, " has no chunks"@);
    reveal_strlit("large SQLite batch");
    reveal_strlit("large SQLite page delta");
    assert("large SQLite batch"@.len() != "large SQLite page delta"@.len());
}

/// A client that does not reach the leader is told who the leader is and where, as far as
/// this is known. A request that failed says for what, after how many tries, and why.
pub proof fn law_clients_are_told_the_leader(
    id: u64,
    hint: LeaderHint,
    operation: Seq<char>,
    what: Seq<char>,
    attempts: nat,
    message: Seq<char>,
    batches: nat,
    deltas: nat,
)
    ensures
        hint.leader_id == Some(id) ==> names(
            raft_client::not_leader_message(hint),
            text::number_text(id as nat),
        ),
        hint.leader_id is Some ==> (raft_client::known_address(hint) matches Some(address)
            ==> ends_with(raft_client::not_leader_message(hint), address)),
        names(
            raft_client::attempts_message(operation, what, attempts, message),
            text::number_text(attempts),
        ),
        names(raft_client::attempts_message(operation, what, attempts, message), operation),
        ends_with(raft_client::attempts_message(operation, what, attempts, message), message),
        names(request::counts_message(batches, deltas), text::number_text(batches)),
        names(request::counts_message(batches, deltas), text::number_text(deltas)),
        holds_at(request::counts_message(batches, deltas), text::number_text(batches), 0),
{
    let none = Seq::<char>::empty();
    let front = "this node is not the Raft leader and could not forward the request; "@;
    if hint.leader_id is Some {
        let node = text::number_text(hint.leader_id->0 as nat);
        let lead = front + "leader is node "@;
        match raft_client::known_address(hint) {
            Some(address) => {
                let whole = raft_client::not_leader_message(hint);
                lemma_named(lead, node, " at "@ + address);
                assert(lead + node + (" at "@ + address) =~= whole);
                lemma_named(lead + node + " at "@, address, none);
                assert(lead + node + " at "@ + address =~= whole);
            },
            None => {
                lemma_named(lead, node, ", but no leader address is known"@);
                assert(lead + node + ", but no leader address is known"@
                    =~= raft_client::not_leader_message(hint));
            },
        }
    }
    let tries = text::number_text(attempts);
    let whole = raft_client::attempts_message(operation, what, attempts, message);
    lemma_named(operation + what, tries, " attempt(s): "@ + message);
    assert(operation + what + tries + (" attempt(s): "@ + message) =~= whole);
    lemma_named(none, operation, what + tries + " attempt(s): "@ + message);
    assert(none + operation + (what + tries + " attempt(s): "@ + message) =~= whole);
    lemma_named(operation + what + tries + " attempt(s): "@, message, none);
    let first = text::number_text(batches);
    let second = text::number_text(deltas);
    let counts = request::counts_message(batches, deltas);
    assert(counts.subrange(0, first.len() as int) =~= first);
    assert(holds_at(counts, first, 0));
    lemma_named(first + " sqlite batch(es), "@, second, " sqlite page delta(s)"@);
}

} // verus!
