//! What holds of the manifests that a rewrite of files takes over.

use vstd::prelude::*;

use crate::existing_manifests;
use crate::existing_manifests::{CarryReads, ExistingManifestStep};
use crate::model::{DataFile, ManifestEntry, ManifestFile, ManifestStatus, Table};
use crate::rewrite_files::RewriteFilesOperation;
use crate::rewrite_files_laws;
use crate::rewrite_manifests;
use crate::rewrite_manifests::MergePlan;
use crate::rewrite_manifests_laws;
use crate::seqs;
use crate::storage;
use crate::storage::Storage;

verus! {

/// The manifests of the current snapshot, as its manifest list describes them.
pub open spec fn current_list(table: Table, storage: Storage) -> Seq<ManifestFile> {
    (storage.lists)(table.metadata.current()->0.manifest_list@)
}

/// Whether what has been taken over so far has an entry, alive, for the file `path`.
pub open spec fn takes_over(storage: Storage, reads: CarryReads, path: Seq<char>) -> bool {
    ||| rewrite_files_laws::holds(storage, seqs::manifest_paths(reads.kept), path)
    ||| seqs::is_live(rewrite_manifests_laws::plan_entries(reads.groups), path)
}

/// What has been taken over agrees with what storage holds: of the manifests with files
/// some have been dealt with, and a file is alive in what was taken over of them where
/// it is alive in one of them and is not to be deleted.
pub open spec fn agrees(
    operation: RewriteFilesOperation,
    table: Table,
    reads: CarryReads,
    storage: Storage,
) -> bool {
    let files = current_list(table, storage).filter(existing_manifests::carried());
    let done = files.len() - reads.pending.len();
    &&& done >= 0
    &&& reads.pending == files.skip(done)
    &&& forall|path: Seq<char>| #[trigger]
        takes_over(storage, reads, path) <==> rewrite_files_laws::holds(
            storage,
            seqs::manifest_paths(files.take(done)),
            path,
        ) && !operation.paths().contains(path)
}

proof fn lemma_live_add(a: Seq<ManifestEntry>, b: Seq<ManifestEntry>, path: Seq<char>)
    ensures
        seqs::is_live(a + b, path) <==> seqs::is_live(a, path) || seqs::is_live(b, path),
{
    let both = a + b;
    if seqs::is_live(a, path) {
        let i = choose|i: int|
            0 <= i < a.len() && (#[trigger] a[i]).alive() && a[i].path() == path;
        assert(both[i].alive() && both[i].path() == path);
    }
    if seqs::is_live(b, path) {
        let i = choose|i: int|
            0 <= i < b.len() && (#[trigger] b[i]).alive() && b[i].path() == path;
        assert(both[a.len() + i].alive() && both[a.len() + i].path() == path);
    }
    if seqs::is_live(both, path) {
        let i = choose|i: int|
            0 <= i < both.len() && (#[trigger] both[i]).alive() && both[i].path() == path;
        if i < a.len() {
            assert(a[i].alive() && a[i].path() == path);
        } else {
            assert(b[i - a.len()].alive() && b[i - a.len()].path() == path);
        }
    }
}

/// One manifest more.
proof fn lemma_holds_push(
    storage: Storage,
    manifests: Seq<ManifestFile>,
    m: ManifestFile,
    path: Seq<char>,
)
    ensures
        rewrite_files_laws::holds(storage, seqs::manifest_paths(manifests.push(m)), path)
            <==> rewrite_files_laws::holds(storage, seqs::manifest_paths(manifests), path)
            || seqs::is_live((storage.manifests)(m.manifest_path@), path),
{
    let before = seqs::manifest_paths(manifests);
    let after = seqs::manifest_paths(manifests.push(m));
    assert(after =~= before.push(m.manifest_path@));
    assert(after.drop_last() =~= before);
    lemma_live_add(
        storage::all_entries(storage, before),
        (storage.manifests)(m.manifest_path@),
        path,
    );
}

/// The entries that stay are those of files that are alive and are not to be deleted.
proof fn lemma_sifted(
    operation: RewriteFilesOperation,
    entries: Seq<ManifestEntry>,
    path: Seq<char>,
)
    ensures
        seqs::is_live(entries.filter(operation.stays()), path) <==> seqs::is_live(entries, path)
            && !operation.paths().contains(path),
        entries.filter(operation.hits()).len() == 0 && seqs::is_live(entries, path)
            ==> !operation.paths().contains(path),
{
    let left = entries.filter(operation.stays());
    if seqs::is_live(entries, path) {
        let i = choose|i: int|
            0 <= i < entries.len() && (#[trigger] entries[i]).alive() && entries[i].path() == path;
        assert(entries.contains(entries[i]));
        seqs::lemma_filter_contains(entries, operation.stays(), entries[i]);
        seqs::lemma_filter_contains(entries, operation.hits(), entries[i]);
        if !operation.paths().contains(path) {
            let j = choose|j: int| 0 <= j < left.len() && left[j] == entries[i];
            assert(left[j].alive() && left[j].path() == path);
        }
    }
    if seqs::is_live(left, path) {
        let j = choose|j: int|
            0 <= j < left.len() && (#[trigger] left[j]).alive() && left[j].path() == path;
        assert(left.contains(left[j]));
        seqs::lemma_filter_contains(entries, operation.stays(), left[j]);
        let i = choose|i: int| 0 <= i < entries.len() && entries[i] == left[j];
        assert(entries[i].alive() && entries[i].path() == path);
    }
}

/// The manifest list leaves what is taken over in agreement with storage.
pub proof fn law_list_agrees(operation: RewriteFilesOperation, table: Table, storage: Storage)
    ensures
        agrees(
            operation,
            table,
            CarryReads::start().with_list(operation, current_list(table, storage)),
            storage,
        ),
{
    let files = current_list(table, storage).filter(existing_manifests::carried());
    let reads = CarryReads::start().with_list(operation, current_list(table, storage));
    let done = files.len() - reads.pending.len();
    assert(files.skip(0) =~= files);
    assert(files.take(files.len() as int) =~= files);
    assert(reads.pending =~= files.skip(done));
    assert(seqs::manifest_paths(Seq::<ManifestFile>::empty()) =~= Seq::<Seq<char>>::empty());
    assert(files.take(0) =~= Seq::<ManifestFile>::empty());
    if operation.files_to_delete@.len() == 0 {
        assert(operation.paths() =~= Seq::<Seq<char>>::empty());
    }
    assert forall|path: Seq<char>| #[trigger]
        takes_over(storage, reads, path) <==> rewrite_files_laws::holds(
            storage,
            seqs::manifest_paths(files.take(done)),
            path,
        ) && !operation.paths().contains(path) by {}
}

proof fn lemma_plan_entries_of_one(plan: MergePlan)
    ensures
        rewrite_manifests_laws::plan_entries(seq![plan]) == plan.entries,
{
    reveal_with_fuel(rewrite_manifests_laws::plan_entries, 2);
    assert(seq![plan].drop_first() =~= Seq::<MergePlan>::empty());
    assert(rewrite_manifests_laws::plan_entries(seq![plan]) =~= plan.entries);
}

/// A manifest that is read leaves what is taken over in agreement with storage.
pub proof fn law_manifest_step_agrees(
    operation: RewriteFilesOperation,
    table: Table,
    reads: CarryReads,
    storage: Storage,
)
    requires
        agrees(operation, table, reads, storage),
        reads.pending.len() > 0,
    ensures
        agrees(
            operation,
            table,
            reads.with_entries(
                operation,
                (storage.specs)(reads.pending[0].manifest_path@),
                (storage.manifests)(reads.pending[0].manifest_path@),
            ),
            storage,
        ),
{
    let files = current_list(table, storage).filter(existing_manifests::carried());
    let done = files.len() - reads.pending.len();
    let m = reads.pending[0];
    let entries = (storage.manifests)(m.manifest_path@);
    let left = entries.filter(operation.stays());
    let after = reads.with_entries(operation, (storage.specs)(m.manifest_path@), entries);
    assert(after.pending =~= files.skip(done + 1));
    assert(files.take(done + 1) =~= files.take(done).push(m));
    assert forall|path: Seq<char>| #[trigger]
        takes_over(storage, after, path) <==> rewrite_files_laws::holds(
            storage,
            seqs::manifest_paths(files.take(done + 1)),
            path,
        ) && !operation.paths().contains(path) by {
        assert(takes_over(storage, reads, path) <==> rewrite_files_laws::holds(
            storage,
            seqs::manifest_paths(files.take(done)),
            path,
        ) && !operation.paths().contains(path));
        lemma_holds_push(storage, files.take(done), m, path);
        lemma_holds_push(storage, reads.kept, m, path);
        lemma_sifted(operation, entries, path);
        if entries.filter(operation.hits()).len() > 0 && left.len() > 0 {
            let one = seq![after.groups.last()];
            assert(after.groups =~= reads.groups + one);
            rewrite_manifests_laws::lemma_plan_entries_add(reads.groups, one);
            lemma_plan_entries_of_one(after.groups.last());
            lemma_live_add(
                rewrite_manifests_laws::plan_entries(reads.groups),
                left,
                path,
            );
        }
    }
}

/// What has been taken over `n` manifests after the manifest list of the current
/// snapshot.
pub open spec fn reads_after(
    operation: RewriteFilesOperation,
    table: Table,
    storage: Storage,
    n: nat,
) -> CarryReads
    decreases n,
{
    if n == 0 {
        CarryReads::start().with_list(operation, current_list(table, storage))
    } else {
        let before = reads_after(operation, table, storage, (n - 1) as nat);
        if before.pending.len() > 0 {
            let path = before.pending[0].manifest_path@;
            before.with_entries(operation, (storage.specs)(path), (storage.manifests)(path))
        } else {
            before
        }
    }
}

/// At any time, what has been taken over agrees with what storage holds.
pub proof fn law_taking_over_agrees(
    operation: RewriteFilesOperation,
    table: Table,
    storage: Storage,
    n: nat,
)
    ensures
        agrees(operation, table, reads_after(operation, table, storage, n), storage),
    decreases n,
{
    if n == 0 {
        law_list_agrees(operation, table, storage);
    } else {
        law_taking_over_agrees(operation, table, storage, (n - 1) as nat);
        let before = reads_after(operation, table, storage, (n - 1) as nat);
        if before.pending.len() > 0 {
            law_manifest_step_agrees(operation, table, before, storage);
        }
    }
}

/// Whether a manifest is known to list no file that was added or existed before.
pub open spec fn is_empty(m: ManifestFile) -> bool {
    m.added_files_count == Some(0u32) && m.existing_files_count == Some(0u32)
}

/// Whether the counts in a manifest list are right: a manifest that is said to list no
/// file that was added or existed before has no entry that is alive.
pub open spec fn counts_are_right(storage: Storage, list: Seq<ManifestFile>) -> bool {
    forall|i: int, path: Seq<char>|
        0 <= i < list.len() && is_empty(#[trigger] list[i]) ==> !(
        #[trigger] seqs::is_live((storage.manifests)(list[i].manifest_path@), path))
}

/// Manifests without files can be left out.
proof fn lemma_without_empty_manifests(
    storage: Storage,
    list: Seq<ManifestFile>,
    n: int,
    path: Seq<char>,
)
    requires
        counts_are_right(storage, list),
        0 <= n <= list.len(),
    ensures
        rewrite_files_laws::holds(
            storage,
            seqs::manifest_paths(list.take(n).filter(existing_manifests::carried())),
            path,
        ) <==> rewrite_files_laws::holds(storage, seqs::manifest_paths(list.take(n)), path),
    decreases n,
{
    if n == 0 {
        reveal(Seq::filter);
        assert(list.take(0).filter(existing_manifests::carried()) =~= list.take(0));
    } else {
        let front = list.take(n - 1);
        let m = list[n - 1];
        lemma_without_empty_manifests(storage, list, n - 1, path);
        seqs::lemma_filter_step(list, existing_manifests::carried(), n - 1);
        assert(list.take(n) =~= front.push(m));
        lemma_holds_push(storage, front, m, path);
        lemma_holds_push(storage, front.filter(existing_manifests::carried()), m, path);
        if !m.carries_files() {
            assert(is_empty(list[n - 1]));
            assert(!seqs::is_live((storage.manifests)(list[n - 1].manifest_path@), path));
        }
    }
}

/// Whether the new snapshot has the file `path`: in a manifest that was taken over, in
/// what was left of one, among the deletions recorded, or among the files added.
pub open spec fn snapshot_has(
    storage: Storage,
    reads: CarryReads,
    deleted: Seq<ManifestEntry>,
    added: Seq<DataFile>,
    path: Seq<char>,
) -> bool {
    ||| takes_over(storage, reads, path)
    ||| seqs::is_live(deleted, path)
    ||| seqs::file_paths(added).contains(path)
}

/// Once all manifests are taken over, the new snapshot has the files that the current
/// one has, without those deleted and with those added: no file deleted comes back, no
/// other file gets lost.
pub proof fn law_live_files_after_commit(
    operation: RewriteFilesOperation,
    table: Table,
    storage: Storage,
    n: nat,
    added: Seq<DataFile>,
    path: Seq<char>,
)
    requires
        reads_after(operation, table, storage, n).pending.len() == 0,
        counts_are_right(storage, current_list(table, storage)),
    ensures
        ({
            let current = rewrite_files_laws::current_manifests(table, storage);
            let deleted = operation.deletions(storage::all_entries(storage, current));
            let reads = reads_after(operation, table, storage, n);
            snapshot_has(storage, reads, deleted, added, path) <==> {
                ||| rewrite_files_laws::holds(storage, current, path)
                    && !operation.paths().contains(path)
                ||| seqs::file_paths(added).contains(path)
            }
        }),
{
    let list = current_list(table, storage);
    let files = list.filter(existing_manifests::carried());
    let reads = reads_after(operation, table, storage, n);
    law_taking_over_agrees(operation, table, storage, n);
    assert(files.take(files.len() as int) =~= files);
    assert(list.take(list.len() as int) =~= list);
    lemma_without_empty_manifests(storage, list, list.len() as int, path);
    assert(takes_over(storage, reads, path) <==> rewrite_files_laws::holds(
        storage,
        seqs::manifest_paths(files),
        path,
    ) && !operation.paths().contains(path));
}

/// Taking over comes to an end: after as many manifests as there are with files, none is
/// left to be read.
pub proof fn law_taking_over_ends(
    operation: RewriteFilesOperation,
    table: Table,
    storage: Storage,
    n: nat,
)
    requires
        n >= current_list(table, storage).filter(existing_manifests::carried()).len(),
    ensures
        reads_after(operation, table, storage, n).pending.len() == 0,
{
    lemma_pending(operation, table, storage, n);
}

proof fn lemma_pending(
    operation: RewriteFilesOperation,
    table: Table,
    storage: Storage,
    n: nat,
)
    ensures
        ({
            let left = reads_after(operation, table, storage, n).pending.len();
            let files = current_list(table, storage).filter(existing_manifests::carried());
            left == 0 || left + n <= files.len()
        }),
    decreases n,
{
    if n > 0 {
        lemma_pending(operation, table, storage, (n - 1) as nat);
    }
}

/// Lets through the manifests that are not known to list no files.
pub open spec fn not_empty() -> spec_fn(ManifestFile) -> bool {
    |m: ManifestFile| !is_empty(m)
}

/// Lets through the entries of files that were added or existed before and are not to be
/// deleted.
pub open spec fn is_left(operation: RewriteFilesOperation) -> spec_fn(ManifestEntry) -> bool {
    |e: ManifestEntry|
        (e.status == ManifestStatus::Added || e.status == ManifestStatus::Existing)
            && !rewrite_files_laws::is_to_delete(operation, e.data_file.file_path@)
}

/// What is left of a manifest.
pub open spec fn left_of(
    operation: RewriteFilesOperation,
    storage: Storage,
    m: ManifestFile,
) -> Seq<ManifestEntry> {
    (storage.manifests)(m.manifest_path@).filter(is_left(operation))
}

/// Whether a manifest has an entry for a file to delete that was added or existed before.
pub open spec fn is_touched(
    operation: RewriteFilesOperation,
    storage: Storage,
    m: ManifestFile,
) -> bool {
    exists|e: ManifestEntry| #[trigger]
        (storage.manifests)(m.manifest_path@).contains(e) && rewrite_files_laws::is_hit(
            operation,
            e,
        )
}

/// Lets through the manifests without a file to delete.
pub open spec fn untouched(
    operation: RewriteFilesOperation,
    storage: Storage,
) -> spec_fn(ManifestFile) -> bool {
    |m: ManifestFile| !is_touched(operation, storage, m)
}

/// Lets through the manifests with a file to delete, and with others.
pub open spec fn partly_touched(
    operation: RewriteFilesOperation,
    storage: Storage,
) -> spec_fn(ManifestFile) -> bool {
    |m: ManifestFile|
        is_touched(operation, storage, m) && left_of(operation, storage, m).len() > 0
}

/// Whether a manifest to be written is what is left of `m`.
pub open spec fn is_rest_of(
    operation: RewriteFilesOperation,
    storage: Storage,
    m: ManifestFile,
    plan: MergePlan,
) -> bool {
    &&& plan.entries == left_of(operation, storage, m)
    &&& plan.content_type == m.content
    &&& plan.partition_spec == (storage.specs)(m.manifest_path@)
}

proof fn lemma_left_and_touched(
    operation: RewriteFilesOperation,
    storage: Storage,
    m: ManifestFile,
)
    ensures
        ({
            let entries = (storage.manifests)(m.manifest_path@);
            &&& entries.filter(operation.stays()) == left_of(operation, storage, m)
            &&& is_touched(operation, storage, m) <==> entries.filter(operation.hits()).len() > 0
        }),
{
    let entries = (storage.manifests)(m.manifest_path@);
    let stays = operation.stays();
    let hits = operation.hits();
    let left = is_left(operation);
    assert forall|e: ManifestEntry| #[trigger] stays(e) == left(e) by {
        rewrite_files_laws::lemma_to_delete(operation, e.data_file.file_path@);
    }
    seqs::lemma_filter_same(entries, stays, left);
    if is_touched(operation, storage, m) {
        let e = choose|e: ManifestEntry| #[trigger]
            entries.contains(e) && rewrite_files_laws::is_hit(operation, e);
        rewrite_files_laws::lemma_to_delete(operation, e.data_file.file_path@);
        seqs::lemma_filter_contains(entries, hits, e);
    }
    if entries.filter(hits).len() > 0 {
        let e = entries.filter(hits)[0];
        assert(entries.filter(hits).contains(e));
        seqs::lemma_filter_contains(entries, hits, e);
        rewrite_files_laws::lemma_to_delete(operation, e.data_file.file_path@);
        assert(entries.contains(e) && rewrite_files_laws::is_hit(operation, e));
    }
}

/// What has been taken over is made up of the manifests dealt with: those without a file
/// to delete as they are, and what is left of those with one.
spec fn is_made_up(
    operation: RewriteFilesOperation,
    table: Table,
    reads: CarryReads,
    storage: Storage,
) -> bool {
    let files = current_list(table, storage).filter(not_empty());
    let done = files.len() - reads.pending.len();
    let parts = files.take(done).filter(partly_touched(operation, storage));
    &&& done >= 0
    &&& reads.pending == files.skip(done)
    &&& reads.kept == files.take(done).filter(untouched(operation, storage))
    &&& reads.groups.len() == parts.len()
    &&& forall|k: int|
        0 <= k < parts.len() ==> is_rest_of(operation, storage, parts[k], #[trigger] reads.groups[k])
}

proof fn lemma_made_up(operation: RewriteFilesOperation, table: Table, storage: Storage, n: nat)
    ensures
        is_made_up(operation, table, reads_after(operation, table, storage, n), storage),
    decreases n,
{
    let list = current_list(table, storage);
    let files = list.filter(not_empty());
    let carried = existing_manifests::carried();
    let same = untouched(operation, storage);
    let part = partly_touched(operation, storage);
    assert forall|m: ManifestFile| #[trigger] carried(m) == not_empty()(m) by {}
    seqs::lemma_filter_same(list, carried, not_empty());
    if n == 0 {
        reveal(Seq::filter);
        let reads = reads_after(operation, table, storage, 0);
        assert(files.skip(0) =~= files);
        assert(files.take(files.len() as int) =~= files);
        assert(files.skip(files.len() as int) =~= Seq::<ManifestFile>::empty());
        assert(files.take(0) =~= Seq::<ManifestFile>::empty());
        if operation.files_to_delete@.len() == 0 {
            lemma_none_touched(operation, storage, files);
        }
    } else {
        lemma_made_up(operation, table, storage, (n - 1) as nat);
        let before = reads_after(operation, table, storage, (n - 1) as nat);
        let after = reads_after(operation, table, storage, n);
        let done = files.len() - before.pending.len();
        if before.pending.len() > 0 {
            let m = before.pending[0];
            assert(m == files[done]);
            lemma_left_and_touched(operation, storage, m);
            seqs::lemma_filter_step(files, same, done);
            seqs::lemma_filter_step(files, part, done);
            assert(after.pending =~= files.skip(done + 1));
            let parts = files.take(done + 1).filter(part);
            assert forall|k: int| 0 <= k < parts.len() implies is_rest_of(
                operation,
                storage,
                parts[k],
                #[trigger] after.groups[k],
            ) by {
                if k < before.groups.len() {
                    assert(after.groups[k] == before.groups[k]);
                }
            }
        }
    }
}

proof fn lemma_none_touched(
    operation: RewriteFilesOperation,
    storage: Storage,
    files: Seq<ManifestFile>,
)
    requires
        operation.files_to_delete@.len() == 0,
    ensures
        files.filter(untouched(operation, storage)) == files,
        files.filter(partly_touched(operation, storage)).len() == 0,
    decreases files.len(),
{
    reveal(Seq::filter);
    if files.len() > 0 {
        lemma_none_touched(operation, storage, files.drop_last());
        assert(!is_touched(operation, storage, files.last()));
        assert(files.drop_last().push(files.last()) =~= files);
    } else {
        assert(files.filter(untouched(operation, storage)) =~= files);
    }
}

/// When a rewrite has taken over the manifests of the current snapshot, it has left out
/// those known to list no files; of the others it has those without a file to delete as
/// they are, in their order; and of each with one it is to write what is left, under its
/// content and its partition spec, unless nothing is.
pub proof fn law_what_is_taken_over(
    operation: RewriteFilesOperation,
    table: Table,
    storage: Storage,
    n: nat,
    step: ExistingManifestStep,
)
    requires
        existing_manifests::continues(
            operation,
            table,
            reads_after(operation, table, storage, n),
            step,
        ),
        step is Finished,
    ensures
        step->Finished_0 is Ok,
        ({
            let files = current_list(table, storage).filter(not_empty());
            let parts = files.filter(partly_touched(operation, storage));
            let kept = step->Finished_0->Ok_0.manifests.kept_manifests@;
            let groups = step->Finished_0->Ok_0.manifests.merge_groups@;
            &&& kept == files.filter(untouched(operation, storage))
            &&& groups.len() == parts.len()
            &&& forall|k: int|
                0 <= k < groups.len() ==> {
                    &&& (#[trigger] groups[k]).entries@ == left_of(operation, storage, parts[k])
                    &&& groups[k].content_type == parts[k].content
                    &&& groups[k].partition_spec == (storage.specs)(parts[k].manifest_path@)
                }
        }),
{
    let files = current_list(table, storage).filter(not_empty());
    let reads = reads_after(operation, table, storage, n);
    let groups = step->Finished_0->Ok_0.manifests.merge_groups@;
    lemma_made_up(operation, table, storage, n);
    assert(files.take(files.len() as int) =~= files);
    let plans = rewrite_manifests::merge_plans(groups);
    assert(plans == reads.groups);
    assert(plans.len() == groups.len());
    let parts = files.filter(partly_touched(operation, storage));
    assert forall|k: int| 0 <= k < groups.len() implies {
        &&& (#[trigger] groups[k]).entries@ == left_of(operation, storage, parts[k])
        &&& groups[k].content_type == parts[k].content
        &&& groups[k].partition_spec == (storage.specs)(parts[k].manifest_path@)
    } by {
        assert(plans[k] == rewrite_manifests::merge_plan(groups[k]));
        assert(is_rest_of(operation, storage, parts[k], reads.groups[k]));
    }
}

/// Whether a manifest of the list has the file at `path`, and whether it is not deleted,
/// or the file is added, tells whether the new snapshot has it.
pub proof fn law_which_files_the_snapshot_has(
    operation: RewriteFilesOperation,
    table: Table,
    storage: Storage,
    n: nat,
    step: ExistingManifestStep,
    path: Seq<char>,
)
    requires
        existing_manifests::continues(
            operation,
            table,
            reads_after(operation, table, storage, n),
            step,
        ),
        step is Finished,
        counts_are_right(storage, current_list(table, storage)),
    ensures
        ({
            let kept = step->Finished_0->Ok_0.manifests.kept_manifests@;
            let groups = step->Finished_0->Ok_0.manifests.merge_groups@;
            let old = rewrite_files_laws::is_present(storage, current_list(table, storage), path);
            let new = rewrite_files_laws::is_present(storage, kept, path) || exists|k: int,
                e: ManifestEntry,
            |
                0 <= k < groups.len() && #[trigger] groups[k].entries@.contains(e)
                    && e.data_file.file_path@ == path;
            new <==> old && !rewrite_files_laws::is_to_delete(operation, path)
        }),
{
    let list = current_list(table, storage);
    let files = list.filter(not_empty());
    let same = untouched(operation, storage);
    let part = partly_touched(operation, storage);
    let parts = files.filter(part);
    let kept = step->Finished_0->Ok_0.manifests.kept_manifests@;
    let groups = step->Finished_0->Ok_0.manifests.merge_groups@;
    law_what_is_taken_over(operation, table, storage, n, step);
    if rewrite_files_laws::is_present(storage, kept, path) {
        let j = choose|j: int|
            0 <= j < kept.len() && storage.has((#[trigger] kept[j]).manifest_path@, path);
        assert(kept.contains(kept[j]));
        seqs::lemma_filter_contains(files, same, kept[j]);
        seqs::lemma_filter_contains(list, not_empty(), kept[j]);
        let i = choose|i: int| 0 <= i < list.len() && list[i] == kept[j];
        assert(storage.has(list[i].manifest_path@, path));
        if rewrite_files_laws::is_to_delete(operation, path) {
            let e = choose|e: ManifestEntry| #[trigger]
                (storage.manifests)(kept[j].manifest_path@).contains(e) && e.data_file.file_path@
                    == path && (e.status == ManifestStatus::Added || e.status
                    == ManifestStatus::Existing);
            assert(rewrite_files_laws::is_hit(operation, e));
            assert(is_touched(operation, storage, kept[j]));
        }
    }
    if exists|k: int, e: ManifestEntry|
        0 <= k < groups.len() && #[trigger] groups[k].entries@.contains(e)
            && e.data_file.file_path@ == path {
        let (k, e) = choose|k: int, e: ManifestEntry|
            0 <= k < groups.len() && #[trigger] groups[k].entries@.contains(e)
                && e.data_file.file_path@ == path;
        let m = parts[k];
        seqs::lemma_filter_contains(
            (storage.manifests)(m.manifest_path@),
            is_left(operation),
            e,
        );
        assert(parts.contains(m));
        seqs::lemma_filter_contains(files, part, m);
        seqs::lemma_filter_contains(list, not_empty(), m);
        let i = choose|i: int| 0 <= i < list.len() && list[i] == m;
        assert((storage.manifests)(m.manifest_path@).contains(e));
        assert(storage.has(list[i].manifest_path@, path));
    }
    if rewrite_files_laws::is_present(storage, list, path) && !rewrite_files_laws::is_to_delete(
        operation,
        path,
    ) {
        let i = choose|i: int|
            0 <= i < list.len() && storage.has((#[trigger] list[i]).manifest_path@, path);
        let m = list[i];
        let entries = (storage.manifests)(m.manifest_path@);
        let e = choose|e: ManifestEntry| #[trigger]
            entries.contains(e) && e.data_file.file_path@ == path && (e.status
                == ManifestStatus::Added || e.status == ManifestStatus::Existing);
        storage::lemma_is_live(entries, path);
        assert(seqs::is_live((storage.manifests)(list[i].manifest_path@), path));
        assert(list.contains(m));
        seqs::lemma_filter_contains(list, not_empty(), m);
        if is_touched(operation, storage, m) {
            seqs::lemma_filter_contains(entries, is_left(operation), e);
            seqs::lemma_filter_contains(files, part, m);
            let k = choose|k: int| 0 <= k < parts.len() && parts[k] == m;
            assert(groups[k].entries@.contains(e));
        } else {
            seqs::lemma_filter_contains(files, same, m);
            let j = choose|j: int| 0 <= j < kept.len() && kept[j] == m;
            assert(storage.has(kept[j].manifest_path@, path));
        }
    }
}

} // verus!
