//! How the calls of a rewrite of files fit together.

use vstd::prelude::*;

use crate::error::{Error, ErrorKind};
use crate::existing_manifests;
use crate::existing_manifests::{
    CarryReads, ExistingListPending, ExistingManifestPending, ExistingManifestStep,
};
use crate::existing_manifests_laws;
use crate::model;
use crate::model::{DataFile, ManifestContents, ManifestEntry, ManifestFile, Table};
use crate::rewrite_files;
use crate::rewrite_files::{
    DeleteEntriesStep, DeleteListPending, DeleteManifestPending, DeletePhase, DeleteReads,
    RewriteFilesAction, RewriteFilesOperation,
};
use crate::rewrite_files_laws;
use crate::storage::Storage;
use crate::transaction::SnapshotRequest;

verus! {

/// Whether a search is refused as not valid.
pub open spec fn is_refusal(step: DeleteEntriesStep) -> bool {
    &&& step is Finished
    &&& step->Finished_0 is Err
    &&& step->Finished_0->Err_0.kind == ErrorKind::DataInvalid
}

/// Whether a search is over with nothing to delete.
pub open spec fn is_nothing(step: DeleteEntriesStep) -> bool {
    &&& step is Finished
    &&& step->Finished_0 is Ok
    &&& step->Finished_0->Ok_0@.len() == 0
}

/// Whether the snapshot from which the rewrite was planned, if one is set, is still one of
/// the table and is the current one or reached from it by a line of parents.
pub open spec fn is_planned_from_ancestor(operation: RewriteFilesOperation, table: Table) -> bool {
    operation.starting_snapshot_id matches Some(id) ==> {
        let metadata = table.metadata;
        &&& exists|i: int|
            0 <= i < metadata.snapshots@.len() && (
            #[trigger] metadata.snapshots@[i]).snapshot_id == id
        &&& exists|line: Seq<i64>| #[trigger]
            model::leads(metadata.snapshots@, line, metadata.current()->0.snapshot_id, id)
    }
}

/// A search is refused where the table has no snapshot to delete files from, or where the
/// rewrite was not planned from the current snapshot or an ancestor of it; it finds
/// nothing where nothing is to be deleted; and otherwise it begins with the manifest list
/// of the current snapshot.
pub proof fn law_how_a_search_begins<'a>(
    operation: &'a RewriteFilesOperation,
    table: &'a Table,
    step: DeleteEntriesStep<'a>,
)
    requires
        table.metadata.current_is_known(),
        call_ensures(RewriteFilesOperation::delete_entries, (operation, table), step),
    ensures
        ({
            let wanted = operation.files_to_delete@.len() > 0;
            if table.metadata.current_snapshot_id is None {
                if wanted {
                    is_refusal(step)
                } else {
                    is_nothing(step)
                }
            } else if !is_planned_from_ancestor(*operation, *table) {
                is_refusal(step)
            } else if !wanted {
                is_nothing(step)
            } else {
                &&& step is LoadManifestList
                &&& step->LoadManifestList_0.run.is_at(*operation, *table, DeleteReads::start())
            }
        }),
{
    if table.metadata.current_snapshot_id is Some {
        rewrite_files_laws::law_starting_snapshot(*operation, table.metadata);
    }
}

/// Loading the first manifest list that a search asks for, from storage, begins the reading
/// of the current snapshot.
pub proof fn law_loading_the_current_list_goes_on<'a>(
    pending: DeleteListPending<'a>,
    path: &str,
    manifests: Vec<ManifestFile>,
    step: DeleteEntriesStep<'a>,
    storage: Storage,
)
    requires
        pending.ready(),
        pending.run.reads() == DeleteReads::start(),
        call_ensures(DeleteListPending::<'a>::path, (&pending,), path),
        manifests@ == (storage.lists)(path@),
        call_ensures(DeleteListPending::<'a>::resume, (pending, Ok(manifests)), step),
    ensures
        rewrite_files_laws::reads_after(*pending.run.operation, *pending.run.table, storage, 0)
            is Some,
        rewrite_files::continues(
            *pending.run.operation,
            *pending.run.table,
            rewrite_files_laws::reads_after(
                *pending.run.operation,
                *pending.run.table,
                storage,
                0,
            )->0,
            step,
        ),
{
}

/// Loading the manifest list of the snapshot from which the rewrite was planned, from
/// storage, takes the search one read further.
pub proof fn law_loading_the_starting_list_goes_on<'a>(
    pending: DeleteListPending<'a>,
    before: DeleteReads,
    path: &str,
    manifests: Vec<ManifestFile>,
    step: DeleteEntriesStep<'a>,
    storage: Storage,
    n: nat,
)
    requires
        pending.ready(),
        rewrite_files_laws::reads_after(
            *pending.run.operation,
            *pending.run.table,
            storage,
            n,
        ) == Some(before),
        before.queue.len() == 0,
        before.phase == DeletePhase::Current,
        rewrite_files::continues(
            *pending.run.operation,
            *pending.run.table,
            before,
            DeleteEntriesStep::LoadManifestList(pending),
        ),
        call_ensures(DeleteListPending::<'a>::path, (&pending,), path),
        manifests@ == (storage.lists)(path@),
        call_ensures(DeleteListPending::<'a>::resume, (pending, Ok(manifests)), step),
    ensures
        rewrite_files_laws::reads_after(
            *pending.run.operation,
            *pending.run.table,
            storage,
            n + 1,
        ) is Some,
        rewrite_files::continues(
            *pending.run.operation,
            *pending.run.table,
            rewrite_files_laws::reads_after(
                *pending.run.operation,
                *pending.run.table,
                storage,
                n + 1,
            )->0,
            step,
        ),
{
}

/// Reading the manifest that a search asks for, from storage, takes it one read further,
/// unless it is looked through for delete files and has one that was added since
/// planning for a partition being rewritten: then the search is refused.
pub proof fn law_reading_a_manifest_goes_on<'a>(
    pending: DeleteManifestPending<'a>,
    path: &str,
    entries: Vec<ManifestEntry>,
    step: DeleteEntriesStep<'a>,
    storage: Storage,
    n: nat,
)
    requires
        pending.ready(),
        rewrite_files_laws::reads_after(
            *pending.run.operation,
            *pending.run.table,
            storage,
            n,
        ) == Some(pending.run.reads()),
        pending.run.phase == DeletePhase::Deletes
            ==> pending.run.operation.data_sequence_number is Some,
        call_ensures(DeleteManifestPending::<'a>::path, (&pending,), path),
        entries@ == (storage.manifests)(path@),
        call_ensures(DeleteManifestPending::<'a>::resume, (pending, Ok(entries)), step),
    ensures
        ({
            let operation = *pending.run.operation;
            let table = *pending.run.table;
            let clash = pending.run.phase == DeletePhase::Deletes && exists|i: int|
                0 <= i < entries@.len() && rewrite_files_laws::deletes_since(
                    operation,
                    operation.data_sequence_number->0,
                    #[trigger] entries@[i],
                );
            if clash {
                is_refusal(step)
            } else {
                &&& rewrite_files_laws::reads_after(operation, table, storage, n + 1) is Some
                &&& rewrite_files::continues(
                    operation,
                    table,
                    rewrite_files_laws::reads_after(operation, table, storage, n + 1)->0,
                    step,
                )
            }
        }),
{
    let operation = *pending.run.operation;
    if pending.run.phase == DeletePhase::Deletes {
        rewrite_files_laws::law_new_deletes_are_found(
            operation,
            operation.data_sequence_number->0,
            entries@,
        );
    }
}

/// A list or a manifest that cannot be read ends the search with its error.
pub proof fn law_failed_reads_end_the_search<'a>(
    list: DeleteListPending<'a>,
    manifest: DeleteManifestPending<'a>,
    e: Error,
    a: DeleteEntriesStep<'a>,
    b: DeleteEntriesStep<'a>,
)
    requires
        call_ensures(DeleteListPending::<'a>::resume, (list, Err(e)), a),
        call_ensures(DeleteManifestPending::<'a>::resume, (manifest, Err(e)), b),
    ensures
        a is Finished && a->Finished_0 is Err && a->Finished_0->Err_0 == e,
        b is Finished && b->Finished_0 is Err && b->Finished_0->Err_0 == e,
{
}

/// A table without a snapshot has no manifests to take over; any other one begins with the
/// manifest list of the current snapshot.
pub proof fn law_how_taking_over_begins<'a>(
    operation: &'a RewriteFilesOperation,
    table: &'a Table,
    step: ExistingManifestStep<'a>,
)
    requires
        table.metadata.current_is_known(),
        call_ensures(RewriteFilesOperation::existing_manifest, (operation, table), step),
    ensures
        table.metadata.current_snapshot_id is None ==> {
            &&& step is Finished
            &&& step->Finished_0 is Ok
            &&& step->Finished_0->Ok_0.manifests.kept_manifests@.len() == 0
            &&& step->Finished_0->Ok_0.manifests.merge_groups@.len() == 0
        },
        table.metadata.current_snapshot_id is Some ==> {
            &&& step is LoadManifestList
            &&& step->LoadManifestList_0.run.is_at(*operation, *table, CarryReads::start())
        },
{
    if table.metadata.current_snapshot_id is None {
        let groups = step->Finished_0->Ok_0.manifests.merge_groups@;
        assert(crate::rewrite_manifests::merge_plans(groups).len() == groups.len());
    }
}

/// Loading the manifest list that is asked for, from storage, begins the taking over.
pub proof fn law_loading_the_list_takes_over<'a>(
    pending: ExistingListPending<'a>,
    path: &str,
    manifests: Vec<ManifestFile>,
    step: ExistingManifestStep<'a>,
    storage: Storage,
)
    requires
        pending.ready(),
        call_ensures(ExistingListPending::<'a>::path, (&pending,), path),
        manifests@ == (storage.lists)(path@),
        call_ensures(ExistingListPending::<'a>::resume, (pending, Ok(manifests)), step),
    ensures
        existing_manifests::continues(
            *pending.run.operation,
            *pending.run.table,
            existing_manifests_laws::reads_after(
                *pending.run.operation,
                *pending.run.table,
                storage,
                0,
            ),
            step,
        ),
{
}

/// Reading the manifest that is asked for, from storage, takes over one manifest more.
pub proof fn law_reading_a_manifest_takes_over<'a>(
    pending: ExistingManifestPending<'a>,
    path: &str,
    contents: ManifestContents,
    step: ExistingManifestStep<'a>,
    storage: Storage,
    n: nat,
)
    requires
        pending.ready(),
        pending.run.reads() == existing_manifests_laws::reads_after(
            *pending.run.operation,
            *pending.run.table,
            storage,
            n,
        ),
        call_ensures(ExistingManifestPending::<'a>::path, (&pending,), path),
        contents.entries@ == (storage.manifests)(path@),
        contents.partition_spec == (storage.specs)(path@),
        call_ensures(ExistingManifestPending::<'a>::resume, (pending, Ok(contents)), step),
    ensures
        existing_manifests::continues(
            *pending.run.operation,
            *pending.run.table,
            existing_manifests_laws::reads_after(
                *pending.run.operation,
                *pending.run.table,
                storage,
                n + 1,
            ),
            step,
        ),
{
}

/// A list or a manifest that cannot be read ends the taking over with its error.
pub proof fn law_failed_reads_end_the_taking_over<'a>(
    list: ExistingListPending<'a>,
    manifest: ExistingManifestPending<'a>,
    e: Error,
    a: ExistingManifestStep<'a>,
    b: ExistingManifestStep<'a>,
)
    requires
        call_ensures(ExistingListPending::<'a>::resume, (list, Err(e)), a),
        call_ensures(ExistingManifestPending::<'a>::resume, (manifest, Err(e)), b),
    ensures
        a is Finished && a->Finished_0 is Err && a->Finished_0->Err_0 == e,
        b is Finished && b->Finished_0 is Err && b->Finished_0->Err_0 == e,
{
}

/// A new action replaces nothing; files to delete and to add add up; and each setting is
/// taken as it is given and leaves the others as they are.
pub proof fn law_settings(
    new: RewriteFilesAction,
    action: RewriteFilesAction,
    gone: Vec<DataFile>,
    more: Vec<DataFile>,
    id: i64,
    n: i64,
    a: RewriteFilesAction,
    b: RewriteFilesAction,
    c: RewriteFilesAction,
    d: RewriteFilesAction,
)
    requires
        call_ensures(RewriteFilesAction::new, (), new),
        call_ensures(RewriteFilesAction::delete_files, (action, gone), a),
        call_ensures(RewriteFilesAction::add_files, (a, more), b),
        call_ensures(RewriteFilesAction::validate_from_snapshot, (b, id), c),
        call_ensures(RewriteFilesAction::data_sequence_number, (c, n), d),
    ensures
        new.files_to_delete@.len() == 0,
        new.files_to_add@.len() == 0,
        new.starting_snapshot_id is None,
        new.data_sequence_number is None,
        new.commit_uuid is None,
        d.files_to_delete@ == action.files_to_delete@ + gone@,
        d.files_to_add@ == action.files_to_add@ + more@,
        d.starting_snapshot_id == Some(id),
        d.data_sequence_number == Some(n),
        d.commit_uuid == action.commit_uuid,
        d.snapshot_properties == action.snapshot_properties,
        a.files_to_add == action.files_to_add,
        a.starting_snapshot_id == action.starting_snapshot_id,
        a.data_sequence_number == action.data_sequence_number,
{
}

/// An action without files is refused, and any other one asks for the snapshot it
/// describes, under the UUID it has or else the fresh one.
pub proof fn law_what_a_commit_asks_for(
    action: RewriteFilesAction,
    fresh: u128,
    r: Result<SnapshotRequest<RewriteFilesOperation>, Error>,
)
    requires
        call_ensures(RewriteFilesAction::commit_as, (action, fresh), r),
    ensures
        r is Err <==> action.files_to_delete@.len() == 0 && action.files_to_add@.len() == 0,
        r is Err ==> r->Err_0.kind == ErrorKind::DataInvalid,
        r matches Ok(request) ==> {
            &&& request.operation.files_to_delete@ == action.files_to_delete@
            &&& request.operation.starting_snapshot_id == action.starting_snapshot_id
            &&& request.operation.data_sequence_number == action.data_sequence_number
            &&& request.added_data_files@ == action.files_to_add@
            &&& request.snapshot_properties@ == action.snapshot_properties@
            &&& request.validate_added_files <==> action.files_to_add@.len() > 0
            &&& action.commit_uuid matches Some(u) ==> request.commit_uuid == u
            &&& action.commit_uuid is None ==> request.commit_uuid == fresh
        },
{
}

} // verus!
