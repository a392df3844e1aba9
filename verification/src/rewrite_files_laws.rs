//! What holds of every rewrite of files.

use vstd::prelude::*;

use crate::error::ErrorKind;
use crate::model;
use crate::model::{
    ManifestContentType, ManifestEntry, ManifestFile, ManifestStatus, Table, TableMetadata,
};
use crate::rewrite_files;
use crate::rewrite_files::{
    DeleteEntriesStep, DeletePhase, DeleteReads, RewriteFilesAction, RewriteFilesOperation,
};
use crate::seqs;
use crate::storage;
use crate::storage::Storage;
use crate::text;
use crate::transaction::SnapshotRequest;

verus! {

/// The manifests of the current snapshot.
pub open spec fn current_manifests(table: Table, storage: Storage) -> Seq<Seq<char>> {
    seqs::manifest_paths((storage.lists)(table.metadata.current()->0.manifest_list@))
}

/// The manifests of the snapshot from which the rewrite was planned.
pub open spec fn starting_manifests(
    operation: RewriteFilesOperation,
    table: Table,
    storage: Storage,
) -> Seq<Seq<char>> {
    let snapshot = table.metadata.snapshot(operation.starting_snapshot_id->0)->0;
    seqs::manifest_paths((storage.lists)(snapshot.manifest_list@))
}

/// The manifests of the current snapshot that list delete files.
pub open spec fn delete_manifests(table: Table, storage: Storage) -> Seq<Seq<char>> {
    seqs::manifest_paths(
        (storage.lists)(table.metadata.current()->0.manifest_list@).filter(
            rewrite_files::lists_deletes(),
        ),
    )
}

/// Whether one of the manifests has an entry, alive, for the file `path`.
pub open spec fn holds(storage: Storage, manifests: Seq<Seq<char>>, path: Seq<char>) -> bool {
    seqs::is_live(storage::all_entries(storage, manifests), path)
}

/// The search of the current snapshot is complete, and no file was missing.
pub open spec fn current_done(
    operation: RewriteFilesOperation,
    table: Table,
    reads: DeleteReads,
    storage: Storage,
) -> bool {
    &&& reads.deleted == operation.deletions(
        storage::all_entries(storage, current_manifests(table, storage)),
    )
    &&& operation.missing(seqs::entry_paths(reads.deleted)).len() == 0
}

/// The search of the starting snapshot, where it is another one, is complete, and no
/// file was missing.
pub open spec fn starting_done(
    operation: RewriteFilesOperation,
    table: Table,
    reads: DeleteReads,
    storage: Storage,
) -> bool {
    operation.starts_earlier(table.metadata) ==> {
        &&& reads.starting_paths == rewrite_files::alive_paths(
            storage::all_entries(storage, starting_manifests(operation, table, storage)),
        )
        &&& operation.missing(reads.starting_paths).len() == 0
    }
}

/// `queue` is what is left of `all` after its first `k`.
pub open spec fn is_rest(queue: Seq<Seq<char>>, all: Seq<Seq<char>>, k: int) -> bool {
    0 <= k <= all.len() && queue == all.skip(k)
}

/// What has been read, from the manifest list of the current snapshot on, agrees with
/// what storage holds.
pub open spec fn agrees(
    operation: RewriteFilesOperation,
    table: Table,
    reads: DeleteReads,
    storage: Storage,
) -> bool {
    &&& reads.manifests == (storage.lists)(table.metadata.current()->0.manifest_list@)
    &&& match reads.phase {
        DeletePhase::Current => {
            let all = current_manifests(table, storage);
            let k = all.len() - reads.queue.len();
            &&& is_rest(reads.queue, all, k)
            &&& reads.deleted == operation.deletions(storage::all_entries(storage, all.take(k)))
            &&& reads.starting_paths == Seq::<Seq<char>>::empty()
        },
        DeletePhase::Starting => {
            let all = starting_manifests(operation, table, storage);
            let k = all.len() - reads.queue.len();
            &&& operation.starts_earlier(table.metadata)
            &&& current_done(operation, table, reads, storage)
            &&& is_rest(reads.queue, all, k)
            &&& reads.starting_paths == rewrite_files::alive_paths(
                storage::all_entries(storage, all.take(k)),
            )
        },
        DeletePhase::Deletes => {
            let all = delete_manifests(table, storage);
            let k = all.len() - reads.queue.len();
            &&& current_done(operation, table, reads, storage)
            &&& starting_done(operation, table, reads, storage)
            &&& is_rest(reads.queue, all, k)
            &&& forall|e: ManifestEntry| #[trigger]
                storage::all_entries(storage, all.take(k)).contains(e)
                    ==> !operation.is_new_delete(e)
        },
    }
}

proof fn lemma_deletions_add(
    operation: RewriteFilesOperation,
    a: Seq<ManifestEntry>,
    b: Seq<ManifestEntry>,
)
    ensures
        operation.deletions(a + b) == operation.deletions(a) + operation.deletions(b),
        rewrite_files::alive_paths(a + b) == rewrite_files::alive_paths(a)
            + rewrite_files::alive_paths(b),
{
    Seq::filter_distributes_over_add(a, b, operation.hits());
    Seq::filter_distributes_over_add(a, b, rewrite_files::is_alive_entry());
    assert(operation.deletions(a + b) =~= operation.deletions(a) + operation.deletions(b));
    assert(rewrite_files::alive_paths(a + b) =~= rewrite_files::alive_paths(a)
        + rewrite_files::alive_paths(b));
}

proof fn lemma_no_new_delete(operation: RewriteFilesOperation, s: Seq<ManifestEntry>, from: int)
    requires
        operation.first_new_delete(s, from) is None,
    ensures
        forall|i: int| from <= i < s.len() ==> !operation.is_new_delete(#[trigger] s[i]),
    decreases s.len() - from,
{
    if from < s.len() {
        lemma_no_new_delete(operation, s, from + 1);
    }
}

/// Once the manifest list of the current snapshot has been read, the reads agree with
/// storage.
pub proof fn law_current_list_agrees(
    operation: RewriteFilesOperation,
    table: Table,
    storage: Storage,
)
    ensures
        agrees(
            operation,
            table,
            DeleteReads::start().with_list(
                (storage.lists)(table.metadata.current()->0.manifest_list@),
            ),
            storage,
        ),
{
    let all = current_manifests(table, storage);
    assert(all.skip(0) =~= all);
    assert(all.take(0) =~= Seq::<Seq<char>>::empty());
    reveal(Seq::filter);
    assert(operation.deletions(Seq::<ManifestEntry>::empty()) =~= Seq::<ManifestEntry>::empty());
}

/// Reading the manifest list of the starting snapshot keeps the reads in agreement
/// with storage.
pub proof fn law_starting_list_agrees(
    operation: RewriteFilesOperation,
    table: Table,
    reads: DeleteReads,
    storage: Storage,
)
    requires
        agrees(operation, table, reads, storage),
        reads.phase == DeletePhase::Current,
        reads.queue.len() == 0,
        operation.missing(seqs::entry_paths(reads.deleted)).len() == 0,
        operation.starts_earlier(table.metadata),
    ensures
        ({
            let snapshot = table.metadata.snapshot(operation.starting_snapshot_id->0)->0;
            agrees(
                operation,
                table,
                (DeleteReads { phase: DeletePhase::Starting, ..reads }).with_list(
                    (storage.lists)(snapshot.manifest_list@),
                ),
                storage,
            )
        }),
{
    let current = current_manifests(table, storage);
    assert(current.take(current.len() as int) =~= current);
    let all = starting_manifests(operation, table, storage);
    assert(all.skip(0) =~= all);
    assert(all.take(0) =~= Seq::<Seq<char>>::empty());
    reveal(Seq::filter);
    assert(rewrite_files::alive_paths(Seq::<ManifestEntry>::empty()) =~= Seq::<
        Seq<char>,
    >::empty());
}

/// Going on to the manifests that list delete files keeps the reads in agreement with
/// storage.
pub proof fn law_deletes_phase_agrees(
    operation: RewriteFilesOperation,
    table: Table,
    reads: DeleteReads,
    storage: Storage,
)
    requires
        agrees(operation, table, reads, storage),
        reads.queue.len() == 0,
        reads.phase == DeletePhase::Current ==> operation.missing(
            seqs::entry_paths(reads.deleted),
        ).len() == 0 && !operation.starts_earlier(table.metadata),
        reads.phase == DeletePhase::Starting ==> operation.missing(reads.starting_paths).len()
            == 0,
        reads.phase != DeletePhase::Deletes,
    ensures
        agrees(
            operation,
            table,
            (DeleteReads {
                phase: DeletePhase::Deletes,
                queue: reads.delete_manifests(),
                ..reads
            }),
            storage,
        ),
{
    let current = current_manifests(table, storage);
    assert(current.take(current.len() as int) =~= current);
    let starting = starting_manifests(operation, table, storage);
    assert(starting.take(starting.len() as int) =~= starting);
    let all = delete_manifests(table, storage);
    assert(all.skip(0) =~= all);
    assert(all.take(0) =~= Seq::<Seq<char>>::empty());
}

/// Reading the next manifest keeps the reads in agreement with storage.
pub proof fn law_manifest_step_agrees(
    operation: RewriteFilesOperation,
    table: Table,
    reads: DeleteReads,
    storage: Storage,
)
    requires
        agrees(operation, table, reads, storage),
        reads.queue.len() > 0,
        reads.phase == DeletePhase::Deletes ==> operation.first_new_delete(
            (storage.manifests)(reads.queue[0]),
            0,
        ) is None,
    ensures
        agrees(
            operation,
            table,
            reads.with_entries(operation, (storage.manifests)(reads.queue[0])),
            storage,
        ),
{
    let all = match reads.phase {
        DeletePhase::Current => current_manifests(table, storage),
        DeletePhase::Starting => starting_manifests(operation, table, storage),
        DeletePhase::Deletes => delete_manifests(table, storage),
    };
    let k = all.len() - reads.queue.len();
    let entries = (storage.manifests)(reads.queue[0]);
    let before = storage::all_entries(storage, all.take(k));
    assert(reads.queue[0] == all[k]);
    storage::lemma_all_entries_step(storage, all, k);
    lemma_deletions_add(operation, before, entries);
    assert(reads.queue.drop_first() =~= all.skip(k + 1));
    if reads.phase == DeletePhase::Deletes {
        lemma_no_new_delete(operation, entries, 0);
        assert forall|e: ManifestEntry| #[trigger] (before + entries).contains(e) implies
            !operation.is_new_delete(e) by {
            seqs::lemma_add_contains(before, entries, e);
            if entries.contains(e) {
                let i = choose|i: int| 0 <= i < entries.len() && entries[i] == e;
                assert(!operation.is_new_delete(entries[i]));
            }
        }
    }
}

proof fn lemma_none_missing(
    operation: RewriteFilesOperation,
    found: Seq<Seq<char>>,
    path: Seq<char>,
)
    requires
        operation.missing(found).len() == 0,
        operation.paths().contains(path),
    ensures
        found.contains(path),
{
    seqs::lemma_extend_distinct(Seq::empty(), operation.paths());
    seqs::lemma_filter_contains(
        seqs::distinct(operation.paths()),
        seqs::not_in(found),
        path,
    );
}

proof fn lemma_deletions_are_live(
    operation: RewriteFilesOperation,
    entries: Seq<ManifestEntry>,
    path: Seq<char>,
)
    ensures
        seqs::entry_paths(operation.deletions(entries)).contains(path) ==> seqs::is_live(
            entries,
            path,
        ),
        rewrite_files::alive_paths(entries).contains(path) ==> seqs::is_live(entries, path),
{
    let d = operation.deletions(entries);
    if seqs::entry_paths(d).contains(path) {
        let i = choose|i: int| 0 <= i < seqs::entry_paths(d).len() && seqs::entry_paths(d)[i]
            == path;
        let hit = entries.filter(operation.hits());
        assert(hit.contains(hit[i]));
        seqs::lemma_filter_contains(entries, operation.hits(), hit[i]);
        let j = choose|j: int| 0 <= j < entries.len() && entries[j] == hit[i];
        assert(entries[j].alive() && entries[j].path() == path);
    }
    if rewrite_files::alive_paths(entries).contains(path) {
        let alive = entries.filter(rewrite_files::is_alive_entry());
        let i = choose|i: int|
            0 <= i < seqs::entry_paths(alive).len() && seqs::entry_paths(alive)[i] == path;
        assert(alive.contains(alive[i]));
        seqs::lemma_filter_contains(entries, rewrite_files::is_alive_entry(), alive[i]);
        let j = choose|j: int| 0 <= j < entries.len() && entries[j] == alive[i];
        assert(entries[j].alive() && entries[j].path() == path);
    }
}

/// Where the search succeeds, every file to delete is present in the current snapshot
/// and in the snapshot from which the rewrite was planned, and the deletions are
/// those that the current snapshot calls for.
pub proof fn law_success_means_present(
    operation: RewriteFilesOperation,
    table: Table,
    reads: DeleteReads,
    storage: Storage,
    step: DeleteEntriesStep,
    path: Seq<char>,
)
    requires
        agrees(operation, table, reads, storage),
        rewrite_files::continues(operation, table, reads, step),
        step is Finished,
        step->Finished_0 is Ok,
        operation.paths().contains(path),
    ensures
        holds(storage, current_manifests(table, storage), path),
        operation.starts_earlier(table.metadata) ==> holds(
            storage,
            starting_manifests(operation, table, storage),
            path,
        ),
        step->Finished_0->Ok_0@ == operation.deletions(
            storage::all_entries(storage, current_manifests(table, storage)),
        ),
{
    let current = current_manifests(table, storage);
    let starting = starting_manifests(operation, table, storage);
    assert(current.take(current.len() as int) =~= current);
    assert(starting.take(starting.len() as int) =~= starting);
    lemma_none_missing(operation, seqs::entry_paths(reads.deleted), path);
    lemma_deletions_are_live(operation, storage::all_entries(storage, current), path);
    if operation.starts_earlier(table.metadata) {
        lemma_none_missing(operation, reads.starting_paths, path);
        lemma_deletions_are_live(operation, storage::all_entries(storage, starting), path);
    }
}

/// A file to delete that is not present in the current snapshot makes the rewrite
/// fail, at the latest when that snapshot has been read.
pub proof fn law_missing_file_is_refused(
    operation: RewriteFilesOperation,
    table: Table,
    reads: DeleteReads,
    storage: Storage,
    step: DeleteEntriesStep,
    path: Seq<char>,
)
    requires
        agrees(operation, table, reads, storage),
        rewrite_files::continues(operation, table, reads, step),
        operation.paths().contains(path),
        !holds(storage, current_manifests(table, storage), path),
    ensures
        !(step is Finished && step->Finished_0 is Ok),
        reads.phase == DeletePhase::Current,
        reads.queue.len() == 0 ==> rewrite_files::refuses(
            step,
            rewrite_files::missing_message(
                operation.missing(seqs::entry_paths(reads.deleted)),
            ),
        ),
{
    let current = current_manifests(table, storage);
    assert(current.take(current.len() as int) =~= current);
    if operation.missing(seqs::entry_paths(reads.deleted)).len() == 0 && (reads.phase
        != DeletePhase::Current || reads.queue.len() == 0) {
        lemma_none_missing(operation, seqs::entry_paths(reads.deleted), path);
        lemma_deletions_are_live(operation, storage::all_entries(storage, current), path);
    }
}

/// Where the search succeeds and a sequence number is set, the current snapshot has no
/// delete file that was added since for a partition being rewritten.
pub proof fn law_success_means_no_new_deletes(
    operation: RewriteFilesOperation,
    table: Table,
    reads: DeleteReads,
    storage: Storage,
    step: DeleteEntriesStep,
    e: ManifestEntry,
)
    requires
        agrees(operation, table, reads, storage),
        rewrite_files::continues(operation, table, reads, step),
        step is Finished,
        step->Finished_0 is Ok,
        storage::all_entries(storage, delete_manifests(table, storage)).contains(e),
    ensures
        !operation.is_new_delete(e),
{
    let all = delete_manifests(table, storage);
    assert(all.take(all.len() as int) =~= all);
    if reads.phase != DeletePhase::Deletes {
        if operation.data_sequence_number is Some {
            assert(reads.delete_manifests() == all);
            assert(all.len() == 0);
        }
    }
}

/// A deletion is recorded only for a file to delete that belongs to the snapshot, and
/// keeps the file and its two sequence numbers.
pub proof fn law_deletions_are_requested(
    operation: RewriteFilesOperation,
    entries: Seq<ManifestEntry>,
    i: int,
)
    requires
        0 <= i < operation.deletions(entries).len(),
    ensures
        operation.paths().contains(operation.deletions(entries)[i].path()),
        operation.deletions(entries)[i].status == ManifestStatus::Deleted,
        exists|j: int|
            0 <= j < entries.len() && (#[trigger] entries[j]).alive()
                && operation.deletions(entries)[i].data_file == entries[j].data_file && (
            entries[j].sequence_number is Some ==> operation.deletions(entries)[i].sequence_number
                == entries[j].sequence_number) && (entries[j].file_sequence_number is Some
                ==> operation.deletions(entries)[i].file_sequence_number
                == entries[j].file_sequence_number),
{
    let hit = entries.filter(operation.hits());
    assert(hit.contains(hit[i]));
    seqs::lemma_filter_contains(entries, operation.hits(), hit[i]);
    let j = choose|j: int| 0 <= j < entries.len() && entries[j] == hit[i];
    assert(entries[j].alive());
}

/// What has been read once one more manifest list or manifest has been read from
/// storage, or nothing where the search is over.
pub open spec fn next_reads(
    operation: RewriteFilesOperation,
    table: Table,
    reads: DeleteReads,
    storage: Storage,
) -> Option<DeleteReads> {
    if reads.queue.len() > 0 {
        let entries = (storage.manifests)(reads.queue[0]);
        if reads.phase == DeletePhase::Deletes && operation.first_new_delete(entries, 0) is Some {
            None
        } else {
            Some(reads.with_entries(operation, entries))
        }
    } else if reads.phase == DeletePhase::Current && operation.missing(
        seqs::entry_paths(reads.deleted),
    ).len() > 0 {
        None
    } else if reads.phase == DeletePhase::Current && operation.starts_earlier(table.metadata) {
        let snapshot = table.metadata.snapshot(operation.starting_snapshot_id->0)->0;
        Some(
            (DeleteReads { phase: DeletePhase::Starting, ..reads }).with_list(
                (storage.lists)(snapshot.manifest_list@),
            ),
        )
    } else if reads.phase == DeletePhase::Starting && operation.missing(
        reads.starting_paths,
    ).len() > 0 {
        None
    } else if reads.phase != DeletePhase::Deletes && operation.data_sequence_number is Some
        && reads.delete_manifests().len() > 0 {
        Some(
            DeleteReads {
                phase: DeletePhase::Deletes,
                queue: reads.delete_manifests(),
                ..reads
            },
        )
    } else {
        None
    }
}

/// What has been read `n` reads after the manifest list of the current snapshot.
pub open spec fn reads_after(
    operation: RewriteFilesOperation,
    table: Table,
    storage: Storage,
    n: nat,
) -> Option<DeleteReads>
    decreases n,
{
    if n == 0 {
        Some(
            DeleteReads::start().with_list(
                (storage.lists)(table.metadata.current()->0.manifest_list@),
            ),
        )
    } else {
        match reads_after(operation, table, storage, (n - 1) as nat) {
            Some(before) => next_reads(operation, table, before, storage),
            None => None,
        }
    }
}

/// At any time in a search, what has been read agrees with what storage holds.
pub proof fn law_every_search_agrees(
    operation: RewriteFilesOperation,
    table: Table,
    storage: Storage,
    n: nat,
)
    requires
        reads_after(operation, table, storage, n) is Some,
    ensures
        agrees(operation, table, reads_after(operation, table, storage, n)->0, storage),
    decreases n,
{
    if n == 0 {
        law_current_list_agrees(operation, table, storage);
    } else {
        law_every_search_agrees(operation, table, storage, (n - 1) as nat);
        let before = reads_after(operation, table, storage, (n - 1) as nat)->0;
        if before.queue.len() > 0 {
            law_manifest_step_agrees(operation, table, before, storage);
        } else if before.phase == DeletePhase::Current && operation.starts_earlier(
            table.metadata,
        ) {
            law_starting_list_agrees(operation, table, before, storage);
        } else {
            law_deletes_phase_agrees(operation, table, before, storage);
        }
    }
}

/// No search succeeds where a file to delete is not present in the current snapshot.
pub proof fn law_every_search_refuses_missing_files(
    operation: RewriteFilesOperation,
    table: Table,
    storage: Storage,
    n: nat,
    step: DeleteEntriesStep,
    path: Seq<char>,
)
    requires
        reads_after(operation, table, storage, n) is Some,
        rewrite_files::continues(
            operation,
            table,
            reads_after(operation, table, storage, n)->0,
            step,
        ),
        operation.paths().contains(path),
        !holds(storage, current_manifests(table, storage), path),
    ensures
        !(step is Finished && step->Finished_0 is Ok),
{
    law_every_search_agrees(operation, table, storage, n);
    law_missing_file_is_refused(
        operation,
        table,
        reads_after(operation, table, storage, n)->0,
        storage,
        step,
        path,
    );
}

/// Whether the file at `path` is among those to delete.
pub open spec fn is_to_delete(operation: RewriteFilesOperation, path: Seq<char>) -> bool {
    exists|i: int|
        0 <= i < operation.files_to_delete@.len() && (
        #[trigger] operation.files_to_delete@[i]).file_path@ == path
}

/// The files to delete are told by their paths.
pub proof fn lemma_to_delete(operation: RewriteFilesOperation, path: Seq<char>)
    ensures
        operation.paths().contains(path) <==> is_to_delete(operation, path),
{
    let paths = operation.paths();
    if paths.contains(path) {
        let i = choose|i: int| 0 <= i < paths.len() && paths[i] == path;
        assert(operation.files_to_delete@[i].file_path@ == path);
    }
    if is_to_delete(operation, path) {
        let i = choose|i: int|
            0 <= i < operation.files_to_delete@.len() && (
            #[trigger] operation.files_to_delete@[i]).file_path@ == path;
        assert(paths[i] == path);
    }
}

/// Whether a manifest of the list has the file at `path` as added or existing.
pub open spec fn is_present(storage: Storage, list: Seq<ManifestFile>, path: Seq<char>) -> bool {
    exists|j: int| 0 <= j < list.len() && storage.has((#[trigger] list[j]).manifest_path@, path)
}

/// Whether a file to delete, at `path`, is present in the current snapshot and, where the
/// rewrite was planned from an earlier one, in that one too.
pub open spec fn is_deletable(
    operation: RewriteFilesOperation,
    table: Table,
    storage: Storage,
    path: Seq<char>,
) -> bool {
    let current = table.metadata.current()->0;
    &&& is_present(storage, (storage.lists)(current.manifest_list@), path)
    &&& operation.starting_snapshot_id matches Some(id) ==> id != current.snapshot_id
        ==> is_present(
        storage,
        (storage.lists)(table.metadata.snapshot(id)->0.manifest_list@),
        path,
    )
}

/// Whether the entry is for a file, added or existing, with a sequence number after `n`,
/// or after it where none counts as 0, in the partition of one of the files to delete.
pub open spec fn deletes_since(
    operation: RewriteFilesOperation,
    n: i64,
    e: ManifestEntry,
) -> bool {
    &&& e.status == ManifestStatus::Added || e.status == ManifestStatus::Existing
    &&& match e.sequence_number {
        Some(m) => m > n,
        None => 0 > n,
    }
    &&& exists|i: int|
        0 <= i < operation.files_to_delete@.len() && (
        #[trigger] operation.files_to_delete@[i]).partition.encoding@
            == e.data_file.partition.encoding@
}

proof fn lemma_new_delete(operation: RewriteFilesOperation, e: ManifestEntry)
    ensures
        operation.is_new_delete(e) <==> operation.data_sequence_number is Some && deletes_since(
            operation,
            operation.data_sequence_number->0,
            e,
        ),
{
    if operation.rewrites_partition(e.data_file.partition@) {
        let i = choose|i: int|
            0 <= i < operation.files_to_delete@.len() && (
            #[trigger] operation.files_to_delete@[i]).partition@ == e.data_file.partition@;
        assert(operation.files_to_delete@[i].partition.encoding@
            == e.data_file.partition.encoding@);
    }
    if exists|i: int|
        0 <= i < operation.files_to_delete@.len() && (
        #[trigger] operation.files_to_delete@[i]).partition.encoding@
            == e.data_file.partition.encoding@ {
        let i = choose|i: int|
            0 <= i < operation.files_to_delete@.len() && (
            #[trigger] operation.files_to_delete@[i]).partition.encoding@
                == e.data_file.partition.encoding@;
        assert(operation.files_to_delete@[i].partition@ == e.data_file.partition@);
    }
}

/// The check of a manifest finds the first delete file in it that was added since planning
/// for a partition being rewritten, whatever kind of deletes it holds, and finds none
/// only where there is none.
pub proof fn law_new_deletes_are_found(
    operation: RewriteFilesOperation,
    n: i64,
    entries: Seq<ManifestEntry>,
)
    requires
        operation.data_sequence_number == Some(n),
    ensures
        match operation.first_new_delete(entries, 0) {
            Some(i) => {
                &&& 0 <= i < entries.len()
                &&& deletes_since(operation, n, entries[i])
                &&& forall|j: int|
                    0 <= j < i ==> !deletes_since(operation, n, #[trigger] entries[j])
            },
            None => forall|j: int|
                0 <= j < entries.len() ==> !deletes_since(operation, n, #[trigger] entries[j]),
        },
{
    lemma_first_new_delete(operation, n, entries, 0);
}

proof fn lemma_first_new_delete(
    operation: RewriteFilesOperation,
    n: i64,
    entries: Seq<ManifestEntry>,
    from: int,
)
    requires
        operation.data_sequence_number == Some(n),
        0 <= from,
    ensures
        match operation.first_new_delete(entries, from) {
            Some(i) => {
                &&& from <= i < entries.len()
                &&& deletes_since(operation, n, entries[i])
                &&& forall|j: int|
                    from <= j < i ==> !deletes_since(operation, n, #[trigger] entries[j])
            },
            None => forall|j: int|
                from <= j < entries.len() ==> !deletes_since(operation, n, #[trigger] entries[j]),
        },
    decreases entries.len() - from,
{
    if from < entries.len() {
        lemma_new_delete(operation, entries[from]);
        if !operation.is_new_delete(entries[from]) {
            lemma_first_new_delete(operation, n, entries, from + 1);
        }
    }
}

/// Whether the starting snapshot, where one is set, is known to the table and is the
/// current one or reached from it by a line of parents.
pub proof fn law_starting_snapshot(operation: RewriteFilesOperation, metadata: TableMetadata)
    requires
        metadata.current() is Some,
    ensures
        operation.starts_from_ancestor(metadata) <==> (operation.starting_snapshot_id matches Some(
            id,
        ) ==> {
            &&& exists|i: int|
                0 <= i < metadata.snapshots@.len() && (
                #[trigger] metadata.snapshots@[i]).snapshot_id == id
            &&& exists|line: Seq<i64>| #[trigger]
                model::leads(
                    metadata.snapshots@,
                    line,
                    metadata.current()->0.snapshot_id,
                    id,
                )
        }),
{
    match operation.starting_snapshot_id {
        Some(id) => {
            model::law_snapshot_lookup(metadata, id);
            model::law_reaches_by_lines(metadata, metadata.current()->0.snapshot_id, id);
        },
        None => {},
    }
}

/// Whether `d` records the deletion of the file of `e`: the same file, with the snapshot
/// and both sequence numbers of `e`, each 0 where `e` has none.
pub open spec fn records_deletion(d: ManifestEntry, e: ManifestEntry) -> bool {
    &&& d.status == ManifestStatus::Deleted
    &&& d.data_file == e.data_file
    &&& d.snapshot_id == (if e.snapshot_id is Some {
        e.snapshot_id
    } else {
        Some(0i64)
    })
    &&& d.sequence_number == (if e.sequence_number is Some {
        e.sequence_number
    } else {
        Some(0i64)
    })
    &&& d.file_sequence_number == (if e.file_sequence_number is Some {
        e.file_sequence_number
    } else {
        Some(0i64)
    })
}

/// Whether an entry is for a file to delete that was added or existed before.
pub open spec fn is_hit(operation: RewriteFilesOperation, e: ManifestEntry) -> bool {
    &&& e.status == ManifestStatus::Added || e.status == ManifestStatus::Existing
    &&& is_to_delete(operation, e.data_file.file_path@)
}

/// The entries of the manifests of a list, one manifest after the other.
pub open spec fn list_entries(storage: Storage, list: Seq<ManifestFile>) -> Seq<ManifestEntry>
    decreases list.len(),
{
    if list.len() == 0 {
        Seq::empty()
    } else {
        list_entries(storage, list.drop_last()) + (storage.manifests)(list.last().manifest_path@)
    }
}

proof fn lemma_list_entries(storage: Storage, list: Seq<ManifestFile>)
    ensures
        list_entries(storage, list) == storage::all_entries(storage, seqs::manifest_paths(list)),
    decreases list.len(),
{
    if list.len() > 0 {
        lemma_list_entries(storage, list.drop_last());
        assert(seqs::manifest_paths(list).drop_last() =~= seqs::manifest_paths(list.drop_last()));
    }
}

/// Where a search succeeds, every file to delete is present in the current snapshot and,
/// if the rewrite was planned from an earlier one, in that one; no delete manifest of the
/// current snapshot has a file that was added since planning for a partition being
/// rewritten; and the deletions are, in order, one for each entry of the current snapshot
/// for a file to delete.
pub proof fn law_what_a_search_finds(
    operation: RewriteFilesOperation,
    table: Table,
    storage: Storage,
    n: nat,
    step: DeleteEntriesStep,
) -> (at: Seq<int>)
    requires
        reads_after(operation, table, storage, n) is Some,
        rewrite_files::continues(
            operation,
            table,
            reads_after(operation, table, storage, n)->0,
            step,
        ),
        step is Finished,
        step->Finished_0 is Ok,
    ensures
        ({
            let list = (storage.lists)(table.metadata.current()->0.manifest_list@);
            let all = list_entries(storage, list);
            let deleted = step->Finished_0->Ok_0@;
            &&& forall|i: int|
                0 <= i < operation.files_to_delete@.len() ==> is_deletable(
                    operation,
                    table,
                    storage,
                    (#[trigger] operation.files_to_delete@[i]).file_path@,
                )
            &&& operation.data_sequence_number matches Some(m) ==> forall|j: int, e: ManifestEntry|
                0 <= j < list.len() && (#[trigger] list[j]).content == ManifestContentType::Deletes
                    && #[trigger] (storage.manifests)(list[j].manifest_path@).contains(e)
                    ==> !deletes_since(operation, m, e)
            &&& at.len() == deleted.len()
            &&& forall|k: int|
                0 <= k < at.len() ==> 0 <= #[trigger] at[k] < all.len() && is_hit(
                    operation,
                    all[at[k]],
                ) && records_deletion(deleted[k], all[at[k]])
            &&& forall|i: int, j: int| 0 <= i < j < at.len() ==> #[trigger] at[i] < #[trigger] at[j]
            &&& forall|i: int|
                0 <= i < all.len() && is_hit(operation, #[trigger] all[i]) ==> at.contains(i)
        }),
{
    let reads = reads_after(operation, table, storage, n)->0;
    let list = (storage.lists)(table.metadata.current()->0.manifest_list@);
    let all = list_entries(storage, list);
    law_every_search_agrees(operation, table, storage, n);
    lemma_list_entries(storage, list);
    assert forall|i: int| 0 <= i < operation.files_to_delete@.len() implies is_deletable(
        operation,
        table,
        storage,
        (#[trigger] operation.files_to_delete@[i]).file_path@,
    ) by {
        let path = operation.files_to_delete@[i].file_path@;
        assert(is_to_delete(operation, path));
        lemma_to_delete(operation, path);
        law_success_means_present(operation, table, reads, storage, step, path);
        storage::lemma_live_in_list(storage, list, path);
        if operation.starts_earlier(table.metadata) {
            let id = operation.starting_snapshot_id->0;
            storage::lemma_live_in_list(
                storage,
                (storage.lists)(table.metadata.snapshot(id)->0.manifest_list@),
                path,
            );
        }
    }
    if operation.data_sequence_number is Some {
        let m = operation.data_sequence_number->0;
        assert forall|j: int, e: ManifestEntry|
            0 <= j < list.len() && (#[trigger] list[j]).content == ManifestContentType::Deletes
                && #[trigger] (storage.manifests)(list[j].manifest_path@).contains(
                e,
            ) implies !deletes_since(operation, m, e) by {
            let some = list.filter(rewrite_files::lists_deletes());
            let paths = delete_manifests(table, storage);
            assert(list.contains(list[j]));
            seqs::lemma_filter_contains(list, rewrite_files::lists_deletes(), list[j]);
            let k = choose|k: int| 0 <= k < some.len() && some[k] == list[j];
            assert(paths[k] == list[j].manifest_path@);
            assert((storage.manifests)(paths[k]).contains(e));
            storage::lemma_all_entries_contains(storage, paths, e);
            law_success_means_no_new_deletes(operation, table, reads, storage, step, e);
            lemma_new_delete(operation, e);
        }
    }
    let current = current_manifests(table, storage);
    assert(current.take(current.len() as int) =~= current);
    assert(step->Finished_0->Ok_0@ == operation.deletions(all));
    let hits = operation.hits();
    let at = seqs::lemma_filter_picks(all, hits);
    assert forall|e: ManifestEntry| #[trigger] hits(e) == is_hit(operation, e) by {
        lemma_to_delete(operation, e.data_file.file_path@);
    }
    assert forall|k: int| 0 <= k < at.len() implies 0 <= #[trigger] at[k] < all.len() && is_hit(
        operation,
        all[at[k]],
    ) && records_deletion(step->Finished_0->Ok_0@[k], all[at[k]]) by {
        assert(hits(all[at[k]]));
        assert(all.filter(hits)[k] == all[at[k]]);
    }
    assert forall|i: int| 0 <= i < all.len() && is_hit(operation, #[trigger] all[i]) implies
        at.contains(i) by {
        assert(hits(all[i]));
    }
    at
}

/// A search refuses, between reads, only where a file to delete is not present in the
/// current snapshot or in the one from which the rewrite was planned.
pub proof fn law_why_a_search_refuses(
    operation: RewriteFilesOperation,
    table: Table,
    storage: Storage,
    n: nat,
    step: DeleteEntriesStep,
)
    requires
        reads_after(operation, table, storage, n) is Some,
        rewrite_files::continues(
            operation,
            table,
            reads_after(operation, table, storage, n)->0,
            step,
        ),
        step is Finished,
        step->Finished_0 is Err,
    ensures
        exists|i: int|
            0 <= i < operation.files_to_delete@.len() && !is_deletable(
                operation,
                table,
                storage,
                (#[trigger] operation.files_to_delete@[i]).file_path@,
            ),
{
    let reads = reads_after(operation, table, storage, n)->0;
    law_every_search_agrees(operation, table, storage, n);
    let list = (storage.lists)(table.metadata.current()->0.manifest_list@);
    if reads.phase == DeletePhase::Current {
        let current = current_manifests(table, storage);
        assert(current.take(current.len() as int) =~= current);
        let found = seqs::entry_paths(reads.deleted);
        let missing = operation.missing(found);
        let path = missing[0];
        assert(missing.contains(path));
        lemma_missing(operation, found, path);
        lemma_to_delete(operation, path);
        let i = choose|i: int|
            0 <= i < operation.files_to_delete@.len() && (
            #[trigger] operation.files_to_delete@[i]).file_path@ == path;
        storage::lemma_live_in_list(storage, list, path);
        if is_present(storage, list, path) {
            let all = storage::all_entries(storage, current);
            let j = choose|j: int|
                0 <= j < all.len() && (#[trigger] all[j]).alive() && all[j].path() == path;
            let hits = operation.hits();
            assert(all.contains(all[j]));
            seqs::lemma_filter_contains(all, hits, all[j]);
            let k = choose|k: int| 0 <= k < all.filter(hits).len() && all.filter(hits)[k] == all[j];
            assert(found[k] == path);
        }
        assert(!is_deletable(operation, table, storage, operation.files_to_delete@[i].file_path@));
    } else {
        let starting = starting_manifests(operation, table, storage);
        assert(starting.take(starting.len() as int) =~= starting);
        let missing = operation.missing(reads.starting_paths);
        let path = missing[0];
        assert(missing.contains(path));
        lemma_missing(operation, reads.starting_paths, path);
        lemma_to_delete(operation, path);
        let i = choose|i: int|
            0 <= i < operation.files_to_delete@.len() && (
            #[trigger] operation.files_to_delete@[i]).file_path@ == path;
        let id = operation.starting_snapshot_id->0;
        let earlier = (storage.lists)(table.metadata.snapshot(id)->0.manifest_list@);
        storage::lemma_live_in_list(storage, earlier, path);
        if is_present(storage, earlier, path) {
            let all = storage::all_entries(storage, starting);
            let alive = rewrite_files::is_alive_entry();
            let j = choose|j: int|
                0 <= j < all.len() && (#[trigger] all[j]).alive() && all[j].path() == path;
            assert(all.contains(all[j]));
            seqs::lemma_filter_contains(all, alive, all[j]);
            let k = choose|k: int|
                0 <= k < all.filter(alive).len() && all.filter(alive)[k] == all[j];
            assert(reads.starting_paths[k] == path);
        }
        assert(!is_deletable(operation, table, storage, operation.files_to_delete@[i].file_path@));
    }
}

proof fn lemma_missing(operation: RewriteFilesOperation, found: Seq<Seq<char>>, path: Seq<char>)
    ensures
        operation.missing(found).contains(path) <==> operation.paths().contains(path)
            && !found.contains(path),
{
    seqs::lemma_extend_distinct(Seq::empty(), operation.paths());
    seqs::lemma_filter_contains(
        seqs::distinct(operation.paths()),
        seqs::not_in(found),
        path,
    );
}

/// The files reported as missing are those to delete that were not found, each once.
pub proof fn law_missing_files_are_named(
    operation: RewriteFilesOperation,
    found: Seq<Seq<char>>,
    path: Seq<char>,
)
    ensures
        operation.missing(found).contains(path) <==> is_to_delete(operation, path)
            && !found.contains(path),
        operation.missing(found).no_duplicates(),
{
    lemma_missing(operation, found, path);
    lemma_to_delete(operation, path);
    seqs::lemma_extend_distinct(Seq::empty(), operation.paths());
    seqs::lemma_filter_no_duplicates(seqs::distinct(operation.paths()), seqs::not_in(found));
}

/// A request asks for what the action describes: its files to delete and to add, its
/// starting snapshot, sequence number and properties; and files to add are validated. An
/// action without files asks for nothing.
pub proof fn law_what_is_requested(
    action: RewriteFilesAction,
    r: SnapshotRequest<RewriteFilesOperation>,
)
    requires
        action.is_request(r),
    ensures
        r.operation.files_to_delete@ == action.files_to_delete@,
        r.operation.starting_snapshot_id == action.starting_snapshot_id,
        r.operation.data_sequence_number == action.data_sequence_number,
        r.added_data_files@ == action.files_to_add@,
        r.snapshot_properties@ == action.snapshot_properties@,
        r.validate_added_files <==> action.files_to_add@.len() > 0,
        action.is_empty() <==> action.files_to_delete@.len() == 0 && action.files_to_add@.len()
            == 0,
{
}

/// What a refusal says: which files to delete are missing, all of them, and from which
/// snapshot.
pub proof fn law_what_a_refusal_says(
    operation: RewriteFilesOperation,
    table: Table,
    reads: DeleteReads,
    step: DeleteEntriesStep,
)
    requires
        rewrite_files::continues(operation, table, reads, step),
        step is Finished,
        step->Finished_0 is Err,
    ensures
        step->Finished_0->Err_0.kind == ErrorKind::DataInvalid,
        reads.phase == DeletePhase::Current ==> step->Finished_0->Err_0.message@
            == "Cannot commit rewrite: the following files to delete were not found in the current snapshot: "@
            + text::joined(operation.missing(seqs::entry_paths(reads.deleted)), ", "@),
        reads.phase != DeletePhase::Current ==> step->Finished_0->Err_0.message@
            == "Cannot commit rewrite: the following files to delete were not found in the starting snapshot "@
            + text::signed_decimal(operation.starting_snapshot_id->0 as int) + ": "@ + text::joined(
            operation.missing(reads.starting_paths),
            ", "@,
        ),
{
}

/// The files reported as missing come in the order in which they are first to be deleted.
pub proof fn law_missing_files_keep_their_order(
    operation: RewriteFilesOperation,
    found: Seq<Seq<char>>,
)
    ensures
        seqs::is_subsequence(
            operation.missing(found),
            Seq::new(
                operation.files_to_delete@.len(),
                |i: int| operation.files_to_delete@[i].file_path@,
            ),
        ),
{
    let paths = operation.paths();
    let all = Seq::new(
        operation.files_to_delete@.len(),
        |i: int| operation.files_to_delete@[i].file_path@,
    );
    assert(paths =~= all);
    let outer = seqs::lemma_distinct_picks(paths);
    let inner = seqs::lemma_filter_picks(seqs::distinct(paths), seqs::not_in(found));
    let at = Seq::new(inner.len(), |k: int| outer[inner[k]]);
    assert(seqs::picks(operation.missing(found), all, at)) by {
        assert forall|i: int| 0 <= i < at.len() implies 0 <= #[trigger] at[i] < all.len()
            && all[at[i]] == operation.missing(found)[i] by {
            assert(0 <= inner[i] < outer.len());
            assert(all[outer[inner[i]]] == seqs::distinct(paths)[inner[i]]);
        }
        assert forall|i: int, j: int| 0 <= i < j < at.len() implies #[trigger] at[i]
            < #[trigger] at[j] by {
            assert(inner[i] < inner[j]);
            assert(outer[inner[i]] < outer[inner[j]]);
        }
    }
}

/// What the refusals of a starting snapshot and of a new delete file say.
pub proof fn law_other_messages(starting: i64, current: i64, path: Seq<char>)
    ensures
        rewrite_files::not_ancestor_message(starting, current)
            == "Cannot commit rewrite: starting snapshot "@ + text::signed_decimal(starting as int)
            + " is not an ancestor of the current snapshot "@ + text::signed_decimal(current as int)
            + ". The table may have been rolled back or the snapshot expired."@,
        rewrite_files::new_delete_message(path, current, starting)
            == "Cannot commit rewrite: found new delete file "@ + path + " (sequence_number="@
            + text::signed_decimal(current as int)
            + ") added after the planning snapshot (data_sequence_number="@ + text::signed_decimal(
            starting as int,
        ) + "). A concurrent operation added deletes for data files being rewritten."@,
{
}

} // verus!
