//! How the calls of a rewrite-manifests action, and of the writing of manifests, fit
//! together.

use vstd::prelude::*;

use crate::error::{Error, ErrorKind};
use crate::existing_manifests::CarriedManifests;
use crate::model::{ManifestEntry, ManifestFile, Table};
use crate::rewrite_manifests;
use crate::rewrite_manifests::{
    ManifestsApplied, ManifestsApplyPending, ManifestsCommitPending, ManifestsListPending,
    ManifestsReadPending, ManifestsStep, RewriteManifests, RewriteManifestsResult,
};
use crate::rewrite_manifests_action;
use crate::rewrite_manifests_action::{
    AddFilePending, ExistingFile, GroupOrigin, MergeTarget, MergedManifestStep, NewManifest,
    OpenManifestPending, RewriteManifestsAction, RewriteManifestsOperation, WriteManifestPending,
};
use crate::rewrite_manifests_laws;
use crate::storage::Storage;
use crate::transaction::SnapshotRequest;

verus! {

/// An action on a table without a snapshot does nothing, and any other one begins with
/// the manifest list of the current snapshot.
pub proof fn law_how_an_action_begins<'a>(action: RewriteManifests<'a>, step: ManifestsStep<'a>)
    requires
        action.table.metadata.current_is_known(),
        call_ensures(RewriteManifests::<'a>::execute, (action,), step),
    ensures
        action.table.metadata.current_snapshot_id is None ==> step is Finished
            && step->Finished_0 is Ok && step->Finished_0->Ok_0.rewritten_manifests_count == 0
            && step->Finished_0->Ok_0.added_manifests_count == 0,
        action.table.metadata.current_snapshot_id is Some ==> step is LoadManifestList
            && step->LoadManifestList_0.action == action && *step->LoadManifestList_0.snapshot
            == action.table.metadata.current()->0,
{
}

/// Where no manifest of the list asked for has another one to be merged with, the action is
/// over with nothing done; and otherwise the first group is begun, unless the table lacks
/// its partition spec.
pub proof fn law_what_follows_the_list<'a>(
    pending: ManifestsListPending<'a>,
    path: &str,
    manifests: Vec<ManifestFile>,
    step: ManifestsStep<'a>,
    storage: Storage,
)
    requires
        call_ensures(ManifestsListPending::<'a>::path, (&pending,), path),
        manifests@ == (storage.lists)(path@),
        call_ensures(ManifestsListPending::<'a>::resume, (pending, Ok(manifests)), step),
    ensures
        path@ == pending.snapshot.manifest_list@,
        ({
            let list = (storage.lists)(pending.snapshot.manifest_list@);
            let any = exists|i: int|
                0 <= i < list.len() && rewrite_manifests_laws::has_partner(
                    pending.action.target_size_bytes,
                    list,
                    i,
                );
            if !any {
                &&& step is Finished
                &&& step->Finished_0 is Ok
                &&& step->Finished_0->Ok_0.rewritten_manifests_count == 0
                &&& step->Finished_0->Ok_0.added_manifests_count == 0
            } else if step is ReadManifest {
                step->ReadManifest_0.run.is_at(
                    pending.action,
                    rewrite_manifests_laws::reads_after(pending.action, list, storage, 0),
                )
            } else {
                &&& step is Finished
                &&& step->Finished_0 is Err
                &&& step->Finished_0->Err_0.kind == ErrorKind::DataInvalid
            }
        }),
{
    let list = (storage.lists)(pending.snapshot.manifest_list@);
    rewrite_manifests_laws::law_whether_there_is_something_to_merge(pending.action, list);
}

/// Reading the manifest that a run asks for, from storage, takes it one read further.
pub proof fn law_reading_a_manifest_goes_on<'a>(
    pending: ManifestsReadPending<'a>,
    list: Seq<ManifestFile>,
    path: &str,
    entries: Vec<ManifestEntry>,
    step: ManifestsStep<'a>,
    storage: Storage,
    n: nat,
)
    requires
        pending.ready(),
        pending.run.reads() == rewrite_manifests_laws::reads_after(
            pending.run.action,
            list,
            storage,
            n,
        ),
        call_ensures(ManifestsReadPending::<'a>::path, (&pending,), path),
        entries@ == (storage.manifests)(path@),
        call_ensures(ManifestsReadPending::<'a>::resume, (pending, Ok(entries)), step),
    ensures
        rewrite_manifests::continues(
            pending.run.action,
            rewrite_manifests_laws::reads_after(pending.run.action, list, storage, n + 1),
            step,
        ),
{
}

/// The action that replaces the manifests is handed over as it is; where it cannot be
/// applied, the action ends with an error, and otherwise, once it has been committed,
/// with the counts; where the commit failed, with its error.
pub proof fn law_how_an_action_ends<'a>(
    pending: ManifestsApplyPending,
    taken: (RewriteManifestsAction, ManifestsApplied),
    applied: Result<(), String>,
    step: ManifestsStep<'a>,
    committed: Result<(), Error>,
    r: Result<RewriteManifestsResult, Error>,
)
    requires
        call_ensures(ManifestsApplyPending::take_action, (pending,), taken),
        call_ensures(ManifestsApplied::resume, (taken.1, applied), step),
        step is Commit ==> call_ensures(
            ManifestsCommitPending::resume,
            (step->Commit_0, committed),
            r,
        ),
    ensures
        taken.0 == pending.action,
        applied is Err ==> step is Finished && step->Finished_0 is Err
            && step->Finished_0->Err_0.kind == ErrorKind::Unexpected,
        applied is Ok ==> step is Commit,
        applied is Ok && committed is Ok ==> r is Ok && r->Ok_0 == pending.result,
        applied is Ok && committed is Err ==> r is Err && r->Err_0 == committed->Err_0,
{
}

/// A list or a manifest that cannot be read ends the action with its error.
pub proof fn law_failed_reads_end_the_action<'a>(
    list: ManifestsListPending<'a>,
    manifest: ManifestsReadPending<'a>,
    e: Error,
    a: ManifestsStep<'a>,
    b: ManifestsStep<'a>,
)
    requires
        call_ensures(ManifestsListPending::<'a>::resume, (list, Err(e)), a),
        call_ensures(ManifestsReadPending::<'a>::resume, (manifest, Err(e)), b),
    ensures
        a is Finished && a->Finished_0 is Err && a->Finished_0->Err_0 == e,
        b is Finished && b->Finished_0 is Err && b->Finished_0->Err_0 == e,
{
}

/// Writing begins with the manifests kept, whether manifests are merged or what is left of
/// some is written, and with the first group.
pub proof fn law_how_writing_begins<'a>(
    operation: &'a RewriteManifestsOperation,
    carried: &'a CarriedManifests,
    table: &'a Table,
    snapshot_id: i64,
    commit_uuid: u128,
    merged: MergedManifestStep<'a>,
    remaining: MergedManifestStep<'a>,
)
    requires
        call_ensures(
            RewriteManifestsOperation::existing_manifest,
            (operation, table, snapshot_id, commit_uuid),
            merged,
        ),
        call_ensures(
            CarriedManifests::write,
            (carried, table, snapshot_id, commit_uuid),
            remaining,
        ),
    ensures
        rewrite_manifests_action::next_manifest(
            (MergeTarget {
                operation: *operation,
                table: *table,
                snapshot_id,
                commit_uuid,
                origin: GroupOrigin::Merged,
            }),
            operation.kept_manifests@,
            0,
            merged,
        ),
        rewrite_manifests_action::next_manifest(
            (MergeTarget {
                operation: carried.manifests,
                table: *table,
                snapshot_id,
                commit_uuid,
                origin: GroupOrigin::Remaining,
            }),
            carried.manifests.kept_manifests@,
            0,
            remaining,
        ),
{
}

/// A manifest is opened in the metadata directory of the table, for the new snapshot, with
/// the current schema and the partition spec of its group, in the way of the table's
/// format and the content of the group.
pub proof fn law_what_is_opened<'a>(pending: OpenManifestPending<'a>, m: NewManifest)
    requires
        pending.run.wf(),
        call_ensures(OpenManifestPending::<'a>::manifest, (&pending,), m),
    ensures
        m.path@ == rewrite_manifests_action::manifest_path(
            pending.run.table.metadata.location@,
            pending.run.commit_uuid,
            pending.run.origin,
            pending.run.group as nat,
        ),
        m.snapshot_id == pending.run.snapshot_id,
        m.schema_id == pending.run.table.metadata.current_schema_id,
        m.partition_spec
            == pending.run.operation.merge_groups@[pending.run.group as int].partition_spec,
        m.kind == rewrite_manifests_action::writer_kind(
            pending.run.table.metadata.format_version,
            pending.run.operation.merge_groups@[pending.run.group as int].content_type,
        ),
{
}

/// An entry is recorded with its file, its snapshot and both its sequence numbers; where
/// it has no snapshot or no data sequence number, 0 is recorded.
pub proof fn law_what_is_recorded<'a>(pending: AddFilePending<'a>, f: ExistingFile)
    requires
        pending.ready(),
        call_ensures(AddFilePending::<'a>::file, (&pending,), f),
    ensures
        ({
            let group = pending.run.operation.merge_groups@[pending.run.group as int];
            let e = group.entries@[pending.run.recorded as int];
            &&& f.data_file == e.data_file
            &&& e.snapshot_id matches Some(id) ==> f.snapshot_id == id
            &&& e.snapshot_id is None ==> f.snapshot_id == 0
            &&& e.sequence_number matches Some(n) ==> f.sequence_number == n
            &&& e.sequence_number is None ==> f.sequence_number == 0
            &&& f.file_sequence_number == e.file_sequence_number
        }),
{
}

/// Once a manifest is open its entries are recorded from the first on, each followed by the
/// next one; and once it is written, it follows the manifests so far, and the next group
/// is written.
pub proof fn law_how_writing_goes_on<'a>(
    open: OpenManifestPending<'a>,
    a: MergedManifestStep<'a>,
    add: AddFilePending<'a>,
    b: MergedManifestStep<'a>,
    write: WriteManifestPending<'a>,
    m: ManifestFile,
    c: MergedManifestStep<'a>,
)
    requires
        open.run.wf(),
        open.run.recorded == 0,
        add.ready(),
        write.ready(),
        call_ensures(OpenManifestPending::<'a>::resume, (open, Ok(())), a),
        call_ensures(AddFilePending::<'a>::resume, (add, Ok(())), b),
        call_ensures(WriteManifestPending::<'a>::resume, (write, Ok(m)), c),
    ensures
        rewrite_manifests_action::next_entry(open.run, 0, a),
        rewrite_manifests_action::next_entry(add.run, add.run.recorded + 1, b),
        rewrite_manifests_action::next_manifest(
            (MergeTarget {
                operation: *write.run.operation,
                table: *write.run.table,
                snapshot_id: write.run.snapshot_id,
                commit_uuid: write.run.commit_uuid,
                origin: write.run.origin,
            }),
            write.run.result@.push(m),
            write.run.group + 1,
            c,
        ),
{
}

/// A failure to open, to record or to write ends the writing with its error.
pub proof fn law_failures_end_the_writing<'a>(
    open: OpenManifestPending<'a>,
    add: AddFilePending<'a>,
    write: WriteManifestPending<'a>,
    e: Error,
    a: MergedManifestStep<'a>,
    b: MergedManifestStep<'a>,
    c: MergedManifestStep<'a>,
)
    requires
        call_ensures(OpenManifestPending::<'a>::resume, (open, Err(e)), a),
        call_ensures(AddFilePending::<'a>::resume, (add, Err(e)), b),
        call_ensures(WriteManifestPending::<'a>::resume, (write, Err(e)), c),
    ensures
        a is Finished && a->Finished_0 is Err && a->Finished_0->Err_0 == e,
        b is Finished && b->Finished_0 is Err && b->Finished_0->Err_0 == e,
        c is Finished && c->Finished_0 is Err && c->Finished_0->Err_0 == e,
{
}

/// Unless told otherwise, manifests below 8 MiB are merged; a target is taken as it is
/// given.
pub proof fn law_settings<'a>(
    table: &'a Table,
    size: u64,
    new: RewriteManifests<'a>,
    a: RewriteManifests<'a>,
)
    requires
        call_ensures(RewriteManifests::<'a>::new, (table,), new),
        call_ensures(RewriteManifests::<'a>::target_size_bytes, (new, size), a),
    ensures
        new.table == table,
        new.target_size_bytes == 8 * 1024 * 1024,
        a.table == table,
        a.target_size_bytes == size,
{
}

/// An action without manifests is refused, and any other one asks for the snapshot it
/// describes, under the UUID given: its manifests, no data files, and its properties with
/// the name of the action.
pub proof fn law_what_a_commit_asks_for(
    action: RewriteManifestsAction,
    uuid: u128,
    r: Result<SnapshotRequest<RewriteManifestsOperation>, Error>,
)
    requires
        call_ensures(RewriteManifestsAction::commit_as, (action, uuid), r),
    ensures
        r is Err <==> action.kept_manifests@.len() == 0 && action.merge_groups@.len() == 0,
        r is Err ==> r->Err_0.kind == ErrorKind::DataInvalid,
        r matches Ok(request) ==> {
            &&& request.operation.kept_manifests@ == action.kept_manifests@
            &&& request.operation.merge_groups@ == action.merge_groups@
            &&& request.added_data_files@.len() == 0
            &&& !request.validate_added_files
            &&& request.commit_uuid == uuid
            &&& request.snapshot_properties@.contains_key("iceberg.action"@)
        },
{
}

} // verus!
