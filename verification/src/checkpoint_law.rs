//! A checkpoint is listed whole.

use vstd::prelude::*;
use vstd::string::*;

use crate::checkpoint;
use crate::checkpoint::CheckpointTables;
use crate::checkpoint::SlateDbCheckpointArtifact;
use crate::checkpoint::TableId;
use crate::checkpoint::TableLevels;
use crate::message_law;
use crate::ordered;
use crate::text;

verus! {

/// Whether a table stands in a part of a store: in its first level, or in one of its runs.
pub open spec fn stands_in(levels: TableLevels, table: TableId) -> bool {
    ||| levels.l0@.contains(table)
    ||| exists|run: int|
        0 <= run < levels.compacted@.len() && (#[trigger] levels.compacted@[run])@.contains(table)
}

/// Whether a checkpoint's manifest names a table, or the table belongs to the part of the
/// write-ahead log that has to be replayed.
pub open spec fn is_named(tables: CheckpointTables, table: TableId) -> bool {
    ||| stands_in(tables.levels, table)
    ||| exists|i: int|
        0 <= i < tables.segments@.len() && stands_in(#[trigger] tables.segments@[i], table)
    ||| table matches TableId::Wal(id) && tables.replay_after_wal_id < id < tables.next_wal_sst_id
}

proof fn lemma_levels_list(root: Seq<char>, levels: TableLevels, table: TableId)
    requires
        stands_in(levels, table),
    ensures
        checkpoint::levels_need(root, levels, checkpoint::table_path_of(root, table)),
{
    let path = checkpoint::table_path_of(root, table);
    if levels.l0@.contains(table) {
        let i = choose|i: int| 0 <= i < levels.l0@.len() && levels.l0@[i] == table;
        assert(checkpoint::table_path_of(root, levels.l0@[i]) == path);
        assert(checkpoint::has_table(root, levels.l0@, levels.l0@.len() as int, path));
    } else {
        let runs = levels.compacted@;
        let run = choose|run: int|
            0 <= run < runs.len() && (#[trigger] runs[run])@.contains(table);
        let i = choose|i: int| 0 <= i < runs[run]@.len() && runs[run]@[i] == table;
        assert(checkpoint::table_path_of(root, runs[run]@[i]) == path);
        assert(checkpoint::has_table(root, runs[run]@, runs[run]@.len() as int, path));
        assert(checkpoint::has_run(root, runs, runs.len() as int, path));
    }
}

proof fn lemma_levels_stand(root: Seq<char>, levels: TableLevels, path: Seq<char>)
    requires
        checkpoint::levels_need(root, levels, path),
    ensures
        exists|table: TableId| #[trigger]
            stands_in(levels, table) && checkpoint::table_path_of(root, table) == path,
{
    let l0 = levels.l0@;
    let runs = levels.compacted@;
    if checkpoint::has_table(root, l0, l0.len() as int, path) {
        let i = choose|i: int|
            0 <= i < l0.len() && checkpoint::table_path_of(root, #[trigger] l0[i]) == path;
        assert(l0.contains(l0[i]));
        assert(stands_in(levels, l0[i]));
    } else {
        let run = choose|run: int|
            0 <= run < runs.len() && checkpoint::has_table(
                root,
                (#[trigger] runs[run])@,
                runs[run]@.len() as int,
                path,
            );
        let tables = runs[run]@;
        let i = choose|i: int|
            0 <= i < tables.len() && checkpoint::table_path_of(root, #[trigger] tables[i]) == path;
        assert(tables.contains(tables[i]));
        assert(stands_in(levels, tables[i]));
    }
}

/// The objects that are listed for a checkpoint are its manifest and the objects of the
/// tables that belong to it: those of the first level and of every sorted run, in the store
/// itself and in each of its segments, and those of the write-ahead log behind what was
/// replayed. None is left out, and there is no other.
pub proof fn law_checkpoint_is_listed_whole(
    artifact: SlateDbCheckpointArtifact,
    tables: CheckpointTables,
    paths: Seq<String>,
)
    requires
        forall|path: Seq<char>| #[trigger]
            ordered::lists_text(paths, path) <==> checkpoint::checkpoint_needs(
                artifact,
                tables,
                path,
            ),
    ensures
        ({
            let root = artifact.object_prefix@;
            let manifest = checkpoint::manifest_path_of(root, artifact.checkpoint_manifest_id);
            &&& exists|i: int| 0 <= i < paths.len() && (#[trigger] paths[i])@ == manifest
            &&& forall|table: TableId| #[trigger]
                is_named(tables, table) ==> exists|i: int|
                    0 <= i < paths.len() && (#[trigger] paths[i])@ == checkpoint::table_path_of(
                        root,
                        table,
                    )
            &&& forall|i: int|
                0 <= i < paths.len() ==> (#[trigger] paths[i])@ == manifest || exists|
                    table: TableId,
                | #[trigger]
                    is_named(tables, table) && checkpoint::table_path_of(root, table) == paths[i]@
        }),
{
    let root = artifact.object_prefix@;
    let manifest = checkpoint::manifest_path_of(root, artifact.checkpoint_manifest_id);
    assert(ordered::lists_text(paths, manifest));
    assert forall|table: TableId| #[trigger] is_named(tables, table) implies exists|i: int|
        0 <= i < paths.len() && (#[trigger] paths[i])@ == checkpoint::table_path_of(
            root,
            table,
        ) by {
        let path = checkpoint::table_path_of(root, table);
        if stands_in(tables.levels, table) {
            lemma_levels_list(root, tables.levels, table);
        } else if exists|i: int|
            0 <= i < tables.segments@.len() && stands_in(#[trigger] tables.segments@[i], table) {
            let i = choose|i: int|
                0 <= i < tables.segments@.len() && stands_in(#[trigger] tables.segments@[i], table);
            lemma_levels_list(root, tables.segments@[i], table);
        } else {
            assert(checkpoint::wal_path_of(root, table->Wal_0) == path);
        }
        assert(checkpoint::checkpoint_needs(artifact, tables, path));
        assert(ordered::lists_text(paths, path));
    }
    assert forall|i: int| 0 <= i < paths.len() implies (#[trigger] paths[i])@ == manifest
        || exists|table: TableId| #[trigger]
        is_named(tables, table) && checkpoint::table_path_of(root, table) == paths[i]@ by {
        let path = paths[i]@;
        assert(ordered::lists_text(paths, path));
        if path != manifest {
            if checkpoint::levels_need(root, tables.levels, path) {
                lemma_levels_stand(root, tables.levels, path);
                let table = choose|table: TableId| #[trigger]
                    stands_in(tables.levels, table) && checkpoint::table_path_of(root, table)
                        == path;
                assert(is_named(tables, table));
            } else if checkpoint::segments_need(
                root,
                tables.segments@,
                tables.segments@.len() as int,
                path,
            ) {
                let k = choose|k: int|
                    0 <= k < tables.segments@.len() && checkpoint::levels_need(
                        root,
                        #[trigger] tables.segments@[k],
                        path,
                    );
                lemma_levels_stand(root, tables.segments@[k], path);
                let table = choose|table: TableId| #[trigger]
                    stands_in(tables.segments@[k], table) && checkpoint::table_path_of(root, table)
                        == path;
                assert(is_named(tables, table));
            } else {
                let id = choose|id: u64|
                    checkpoint::first_wal(tables) <= id < tables.next_wal_sst_id
                        && #[trigger] checkpoint::wal_path_of(root, id) == path;
                assert(is_named(tables, TableId::Wal(id)));
            }
        }
    }
}

/// Whether an object has its place below a root, in a directory, under a name.
pub open spec fn lies_in(
    path: Seq<char>,
    root: Seq<char>,
    directory: Seq<char>,
    name: Seq<char>,
) -> bool {
    exists|place: Seq<char>| #[trigger]
        checkpoint::object_path_of(place) == path && place.len() > root.len() && place.take(
            root.len() as int,
        ) == root && message_law::names(place, directory) && message_law::names(place, name)
}

proof fn lemma_lies_in(
    path: Seq<char>,
    root: Seq<char>,
    directory: Seq<char>,
    name: Seq<char>,
    end: Seq<char>,
)
    requires
        directory.len() > 0,
        path == checkpoint::object_path_of(root + directory + name + end),
    ensures
        lies_in(path, root, directory, name),
{
    let place = root + directory + name + end;
    assert(place.take(root.len() as int) =~= root);
    let from = root.len() as int;
    assert(place.subrange(from, from + directory.len()) =~= directory);
    assert(message_law::holds_at(place, directory, from));
    let then = from + directory.len();
    assert(place.subrange(then, then + name.len()) =~= name);
    assert(message_law::holds_at(place, name, then));
}

/// The objects of a store lie below its root, whether or not the root is written with a
/// slash at its end: manifests, tables of the write-ahead log and other tables each in a
/// directory of their own, under their number or name.
pub proof fn law_objects_lie_below_the_root(root: Seq<char>, id: u64, table: String)
    ensures
        ({
            let bare = text::without_end_slashes(root);
            let number = text::padded_text(id as nat, 20);
            &&& lies_in(checkpoint::manifest_path_of(root, id), bare, "/manifest/"@, number)
            &&& lies_in(checkpoint::wal_path_of(root, id), bare, "/wal/"@, number)
            &&& lies_in(
                checkpoint::table_path_of(root, TableId::Compacted(table)),
                bare,
                "/compacted/"@,
                table@,
            )
            &&& checkpoint::table_path_of(root, TableId::Wal(id)) == checkpoint::wal_path_of(
                root,
                id,
            )
            &&& checkpoint::manifest_path_of(root + "/"@, id) == checkpoint::manifest_path_of(
                root,
                id,
            )
            &&& checkpoint::wal_path_of(root + "/"@, id) == checkpoint::wal_path_of(root, id)
            &&& checkpoint::table_path_of(root + "/"@, TableId::Compacted(table))
                == checkpoint::table_path_of(root, TableId::Compacted(table))
        }),
{
    let bare = text::without_end_slashes(root);
    let number = text::padded_text(id as nat, 20);
    reveal_strlit("/");
    reveal_strlit("/manifest/");
    reveal_strlit("/wal/");
    reveal_strlit("/compacted/");
    let slashed = root + "/"@;
    assert(slashed.last() == '/');
    assert(slashed.drop_last() =~= root);
    assert(text::without_end_slashes(slashed) == bare);
    lemma_lies_in(
        checkpoint::manifest_path_of(root, id),
        bare,
        "/manifest/"@,
        number,
        ".manifest"@,
    );
    lemma_lies_in(checkpoint::wal_path_of(root, id), bare, "/wal/"@, number, ".sst"@);
    lemma_lies_in(
        checkpoint::table_path_of(root, TableId::Compacted(table)),
        bare,
        "/compacted/"@,
        table@,
        ".sst"@,
    );
}

} // verus!
