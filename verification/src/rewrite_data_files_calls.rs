//! How the calls of a rewrite-data-files action fit together.

use vstd::prelude::*;

use crate::error::{Error, ErrorKind};
use crate::file_rewriter::{FileRewriter, RewriteFileGroup, RewriteOutcome};
use crate::model::{DataFile, ManifestEntry, ManifestFile, Table};
use crate::rewrite_data_files;
use crate::rewrite_data_files::{
    RewriteApplyPending, RewriteCleanup, RewriteCommitPending, RewriteDataFiles,
    RewriteGroupPending, RewriteListPending, RewriteManifestPending, RewriteReads,
    RewriteReloadPending, RewriteStep,
};
use crate::rewrite_data_files_laws;
use crate::rewrite_files::RewriteFilesAction;
use crate::seqs;
use crate::storage::Storage;

verus! {

/// An action on a table without a snapshot does nothing, and any other one begins with
/// the manifest list of the current snapshot.
pub proof fn law_how_an_action_begins<'a, R: FileRewriter>(
    action: RewriteDataFiles<'a, R>,
    step: RewriteStep<'a, R>,
)
    requires
        action.table.metadata.current_is_known(),
        call_ensures(RewriteDataFiles::<'a, R>::execute, (action,), step),
    ensures
        action.table.metadata.current_snapshot_id is None ==> step is Finished
            && step->Finished_0 is Ok && step->Finished_0->Ok_0.rewritten_data_files_count == 0
            && step->Finished_0->Ok_0.added_data_files_count == 0
            && step->Finished_0->Ok_0.rewritten_bytes_count == 0
            && step->Finished_0->Ok_0.failed_data_files_count == 0,
        action.table.metadata.current_snapshot_id is Some ==> step is LoadManifestList
            && step->LoadManifestList_0.reading.is_at(action, RewriteReads::start()),
{
}

/// Loading the manifest list that a run asks for, from storage, begins the reading of its
/// data manifests.
pub proof fn law_loading_the_list_goes_on<'a, R: FileRewriter>(
    pending: RewriteListPending<'a, R>,
    path: &str,
    manifests: Vec<ManifestFile>,
    step: RewriteStep<'a, R>,
    storage: Storage,
)
    requires
        pending.ready(),
        pending.reading.reads() == RewriteReads::start(),
        call_ensures(RewriteListPending::<'a, R>::path, (&pending,), path),
        manifests@ == (storage.lists)(path@),
        call_ensures(RewriteListPending::<'a, R>::resume, (pending, Ok(manifests)), step),
    ensures
        rewrite_data_files::continues(
            pending.reading.action,
            rewrite_data_files_laws::reads_after(*pending.reading.action.table, storage, 0),
            step,
        ),
{
}

/// Reading the manifest that a run asks for, from storage, takes it one manifest further.
pub proof fn law_reading_a_manifest_goes_on<'a, R: FileRewriter>(
    pending: RewriteManifestPending<'a, R>,
    path: &str,
    entries: Vec<ManifestEntry>,
    step: RewriteStep<'a, R>,
    storage: Storage,
    n: nat,
)
    requires
        pending.ready(),
        pending.reading.reads() == rewrite_data_files_laws::reads_after(
            *pending.reading.action.table,
            storage,
            n,
        ),
        call_ensures(RewriteManifestPending::<'a, R>::path, (&pending,), path),
        entries@ == (storage.manifests)(path@),
        call_ensures(RewriteManifestPending::<'a, R>::resume, (pending, Ok(entries)), step),
    ensures
        rewrite_data_files::continues(
            pending.reading.action,
            rewrite_data_files_laws::reads_after(*pending.reading.action.table, storage, n + 1),
            step,
        ),
{
}

/// The rewriter gets the next group: its files, the target size of the action, and its
/// partition with the default spec of the table.
pub proof fn law_what_the_rewriter_gets<'a, R: FileRewriter>(
    pending: RewriteGroupPending<'a, R>,
    outcome: RewriteOutcome,
) -> (g: RewriteFileGroup)
    requires
        pending.ready(),
        call_ensures(RewriteGroupPending::<'a, R>::rewrite, (&pending,), outcome),
    ensures
        call_ensures(
            R::rewrite,
            (&pending.run.action.rewriter, pending.run.action.table, g),
            outcome,
        ),
        g.tasks@.len() == pending.run.progress().groups[0].files.len(),
        forall|i: int|
            0 <= i < g.tasks@.len() ==> (#[trigger] g.tasks@[i]).data_file
                == pending.run.progress().groups[0].files[i],
        g.target_file_size_bytes == pending.run.action.target_file_size_bytes,
        g.partition_spec == pending.run.action.table.metadata.default_partition_spec,
        g.partition_value is Some,
        g.partition_value->0.encoding@ == pending.run.progress().groups[0].partition,
{
    let g = choose|g: RewriteFileGroup|
        pending.run.action.is_group(g, pending.run.progress().groups[0]) && #[trigger] call_ensures(
            R::rewrite,
            (&pending.run.action.rewriter, pending.run.action.table, g),
            outcome,
        );
    rewrite_data_files_laws::law_what_the_rewriter_is_given(
        pending.run.action,
        g,
        pending.run.progress().groups[0],
    );
    g
}

/// Whether the step leads on from a run with these files to remove and to add, with these
/// groups left.
pub open spec fn is_like<'a, R: FileRewriter>(
    a: rewrite_data_files::RewriteRun<'a, R>,
    b: rewrite_data_files::RewriteRun<'a, R>,
) -> bool {
    &&& a.action == b.action
    &&& a.progress().groups == b.progress().groups
    &&& a.progress().delete == b.progress().delete
    &&& a.progress().add == b.progress().add
}

/// Without partial progress the failure of one group ends the action with its error; with
/// it the files of the group are counted as failed, and the next group follows.
pub proof fn law_when_a_group_fails<'a, R: FileRewriter>(
    pending: RewriteGroupPending<'a, R>,
    e: Error,
    step: RewriteStep<'a, R>,
)
    requires
        pending.ready(),
        pending.run.progress().groups[0].files.len() <= u32::MAX,
        pending.run.progress().result.failed_data_files_count
            + pending.run.progress().groups[0].files.len() <= u32::MAX,
        call_ensures(RewriteGroupPending::<'a, R>::resume, (pending, Err(e)), step),
    ensures
        !pending.run.action.partial_progress ==> step is Finished && step->Finished_0 is Err
            && step->Finished_0->Err_0 == e,
        pending.run.action.partial_progress && pending.run.progress().groups.len() > 1 ==> {
            let after = step->Rewrite_0.run.progress();
            &&& step is Rewrite
            &&& after.groups == pending.run.progress().groups.skip(1)
            &&& after.result.failed_data_files_count
                == pending.run.progress().result.failed_data_files_count
                + pending.run.progress().groups[0].files.len()
            &&& after.result.rewritten_data_files_count
                == pending.run.progress().result.rewritten_data_files_count
        },
        pending.run.action.partial_progress && pending.run.progress().groups.len() == 1 ==> {
            &&& step is Finished
            &&& step->Finished_0 is Ok
            &&& step->Finished_0->Ok_0.failed_data_files_count
                == pending.run.progress().result.failed_data_files_count
                + pending.run.progress().groups[0].files.len()
            &&& step->Finished_0->Ok_0.rewritten_data_files_count
                == pending.run.progress().result.rewritten_data_files_count
        },
{
    assert(pending.run.progress().groups.drop_first() =~= pending.run.progress().groups.skip(1));
}

/// A group that was rewritten is, with partial progress, to be committed by itself, on the
/// table loaded anew; without it, it is committed with the others.
pub proof fn law_when_a_group_is_rewritten<'a, R: FileRewriter>(
    pending: RewriteGroupPending<'a, R>,
    new: Vec<DataFile>,
    step: RewriteStep<'a, R>,
)
    requires
        pending.ready(),
        call_ensures(RewriteGroupPending::<'a, R>::resume, (pending, Ok(new)), step),
    ensures
        ({
            let before = pending.run.progress();
            &&& pending.run.action.partial_progress ==> {
                let after = step->ReloadTable_0.run.progress();
                &&& step is ReloadTable
                &&& step->ReloadTable_0.run.action == pending.run.action
                &&& after.delete == before.groups[0].files
                &&& after.add == new@
                &&& after.groups == before.groups.skip(1)
                &&& after.result == before.result
            }
            &&& !pending.run.action.partial_progress && before.groups.len() > 1 ==> {
                let after = step->Rewrite_0.run.progress();
                &&& step is Rewrite
                &&& after.delete == before.delete + before.groups[0].files
                &&& after.add == before.add + new@
                &&& after.groups == before.groups.skip(1)
            }
            &&& !pending.run.action.partial_progress && before.groups.len() == 1 ==> {
                let after = step->Apply_0.run.progress();
                &&& step is Apply
                &&& after.delete == before.delete + before.groups[0].files
                &&& after.add == before.add + new@
            }
        }),
{
    assert(pending.run.progress().groups.drop_first() =~= pending.run.progress().groups.skip(1));
}

/// The table loaded anew is the one that the action is for. Where it cannot be loaded, the
/// new files of the group are deleted and its files are counted as failed; otherwise the
/// replacement is applied.
pub proof fn law_what_follows_the_reload<'a, R: FileRewriter>(
    pending: RewriteReloadPending<'a, R>,
    identifier: &str,
    outcome: Result<(), Error>,
    step: RewriteStep<'a, R>,
)
    requires
        pending.run.wf(),
        pending.run.progress().delete.len() <= u32::MAX,
        pending.run.progress().result.failed_data_files_count
            + pending.run.progress().delete.len() <= u32::MAX,
        call_ensures(RewriteReloadPending::<'a, R>::identifier, (&pending,), identifier),
        call_ensures(RewriteReloadPending::<'a, R>::resume, (pending, outcome), step),
    ensures
        identifier@ == pending.run.action.table.identifier@,
        outcome is Ok ==> step is Apply && step->Apply_0.run == pending.run,
        outcome is Err ==> {
            &&& step is CleanUp
            &&& step->CleanUp_0.error is None
            &&& is_like(step->CleanUp_0.run, pending.run)
            &&& step->CleanUp_0.run.progress().result.failed_data_files_count
                == pending.run.progress().result.failed_data_files_count
                + pending.run.progress().delete.len()
        },
{
}

/// The action applied replaces the files to remove by those to add, and holds only while
/// the table descends from the snapshot from which the rewrite was planned and no deletes
/// were added since.
pub proof fn law_what_is_applied<'a, R: FileRewriter>(
    pending: RewriteApplyPending<'a, R>,
    action: RewriteFilesAction,
)
    requires
        pending.run.wf(),
        call_ensures(RewriteApplyPending::<'a, R>::action, (&pending,), action),
    ensures
        action.files_to_delete@ == pending.run.delete@,
        action.files_to_add@ == pending.run.add@,
        action.starting_snapshot_id == Some(
            pending.run.action.table.metadata.current()->0.snapshot_id,
        ),
        action.data_sequence_number == Some(
            pending.run.action.table.metadata.current()->0.sequence_number,
        ),
        action.snapshot_properties@.dom() == Set::<Seq<char>>::empty(),
        action.commit_uuid is None,
{
}

/// Where the action cannot be applied, a run with partial progress deletes the new files
/// of the group and counts its files as failed, and any other one ends with an error;
/// otherwise the commit follows.
pub proof fn law_what_follows_the_apply<'a, R: FileRewriter>(
    pending: RewriteApplyPending<'a, R>,
    outcome: Result<(), String>,
    step: RewriteStep<'a, R>,
)
    requires
        pending.run.wf(),
        pending.run.progress().delete.len() <= u32::MAX,
        pending.run.progress().result.failed_data_files_count
            + pending.run.progress().delete.len() <= u32::MAX,
        call_ensures(RewriteApplyPending::<'a, R>::resume, (pending, outcome), step),
    ensures
        outcome is Ok ==> step is Commit && step->Commit_0.run == pending.run,
        outcome is Err && !pending.run.action.partial_progress ==> step is Finished
            && step->Finished_0 is Err && step->Finished_0->Err_0.kind == ErrorKind::Unexpected,
        outcome is Err && pending.run.action.partial_progress ==> {
            &&& step is CleanUp
            &&& step->CleanUp_0.error is None
            &&& is_like(step->CleanUp_0.run, pending.run)
            &&& step->CleanUp_0.run.progress().result.failed_data_files_count
                == pending.run.progress().result.failed_data_files_count
                + pending.run.progress().delete.len()
        },
{
}

/// A commit that failed has the new files deleted: with partial progress the files of the
/// group are then counted as failed, and without it the action ends with the error. One
/// that went through is counted: with partial progress on top of those before it, and
/// without it as the result of the action.
pub proof fn law_what_follows_the_commit<'a, R: FileRewriter>(
    pending: RewriteCommitPending<'a, R>,
    outcome: Result<(), Error>,
    step: RewriteStep<'a, R>,
)
    requires
        pending.run.wf(),
        pending.run.progress().delete.len() <= u32::MAX,
        pending.run.progress().add.len() <= u32::MAX,
        pending.run.progress().result.failed_data_files_count
            + pending.run.progress().delete.len() <= u32::MAX,
        pending.run.progress().can_count_committed(),
        call_ensures(RewriteCommitPending::<'a, R>::resume, (pending, outcome), step),
    ensures
        ({
            let p = pending.run.progress();
            let partial = pending.run.action.partial_progress;
            &&& outcome matches Err(e) ==> {
                &&& step is CleanUp
                &&& is_like(step->CleanUp_0.run, pending.run)
                &&& if partial {
                    &&& step->CleanUp_0.error is None
                    &&& step->CleanUp_0.run.progress().result.failed_data_files_count
                        == p.result.failed_data_files_count + p.delete.len()
                } else {
                    step->CleanUp_0.error == Some(e)
                }
            }
            &&& outcome is Ok && !partial ==> {
                let r = step->Finished_0->Ok_0;
                &&& step is Finished
                &&& step->Finished_0 is Ok
                &&& r.rewritten_data_files_count == p.delete.len()
                &&& r.added_data_files_count == p.add.len()
                &&& r.rewritten_bytes_count == rewrite_data_files::total_size(p.delete)
                &&& r.failed_data_files_count == 0
                &&& r.removed_delete_files_count == 0
            }
            &&& outcome is Ok && partial ==> {
                let r = if p.groups.len() > 0 {
                    step->Rewrite_0.run.progress().result
                } else {
                    step->Finished_0->Ok_0
                };
                &&& p.groups.len() > 0 ==> step is Rewrite
                    && step->Rewrite_0.run.progress().groups == p.groups
                &&& p.groups.len() == 0 ==> step is Finished && step->Finished_0 is Ok
                &&& r.rewritten_data_files_count == p.result.rewritten_data_files_count
                    + p.delete.len()
                &&& r.added_data_files_count == p.result.added_data_files_count + p.add.len()
                &&& r.rewritten_bytes_count == p.result.rewritten_bytes_count
                    + rewrite_data_files::total_size(p.delete)
                &&& r.failed_data_files_count == p.result.failed_data_files_count
                &&& r.removed_delete_files_count == p.result.removed_delete_files_count
            }
        }),
{
}

/// The files deleted after a failure are the new ones, all of them; and then the action
/// ends with the error that there was, or the next group follows.
pub proof fn law_what_is_cleaned_up<'a, R: FileRewriter>(
    cleanup: RewriteCleanup<'a, R>,
    paths: Vec<String>,
    step: RewriteStep<'a, R>,
)
    requires
        cleanup.run.wf(),
        call_ensures(RewriteCleanup::<'a, R>::paths, (&cleanup,), paths),
        call_ensures(RewriteCleanup::<'a, R>::resume, (cleanup,), step),
    ensures
        paths@.len() == cleanup.run.add@.len(),
        forall|i: int|
            0 <= i < paths@.len() ==> (#[trigger] paths@[i])@ == cleanup.run.add@[i].file_path@,
        cleanup.error matches Some(e) ==> step is Finished && step->Finished_0 is Err
            && step->Finished_0->Err_0 == e,
        cleanup.error is None ==> rewrite_data_files::next_group(
            cleanup.run.action,
            cleanup.run.progress(),
            step,
        ),
{
    let texts = seqs::texts(paths@);
    assert(texts.len() == paths@.len());
    assert forall|i: int| 0 <= i < paths@.len() implies (#[trigger] paths@[i])@
        == cleanup.run.add@[i].file_path@ by {
        assert(texts[i] == paths@[i]@);
    }
}

/// Unless told otherwise, files are rewritten to 512 MiB, those below 384 MiB or above 921
/// MiB are candidates, a partition needs five of them, a group has up to 100 GiB, and all
/// groups are committed at once.
pub proof fn law_defaults<'a, R: FileRewriter>(
    table: &'a Table,
    rewriter: R,
    action: RewriteDataFiles<'a, R>,
)
    requires
        call_ensures(RewriteDataFiles::<'a, R>::new, (table, rewriter), action),
    ensures
        action.table == table,
        action.rewriter == rewriter,
        action.target_file_size_bytes == 512 * 1024 * 1024,
        action.min_file_size_bytes == 384 * 1024 * 1024,
        action.max_file_size_bytes == 921 * 1024 * 1024,
        action.min_input_files == 5,
        action.max_file_group_size_bytes == 100 * 1024 * 1024 * 1024,
        !action.partial_progress,
{
}

/// Each setting is taken as it is given, and leaves the others as they are.
pub proof fn law_settings<'a, R: FileRewriter>(
    action: RewriteDataFiles<'a, R>,
    sizes: (u64, u64, u64, u64),
    n: usize,
    partial: bool,
    a: RewriteDataFiles<'a, R>,
    b: RewriteDataFiles<'a, R>,
    c: RewriteDataFiles<'a, R>,
    d: RewriteDataFiles<'a, R>,
    e: RewriteDataFiles<'a, R>,
    f: RewriteDataFiles<'a, R>,
)
    requires
        call_ensures(RewriteDataFiles::<'a, R>::target_file_size_bytes, (action, sizes.0), a),
        call_ensures(RewriteDataFiles::<'a, R>::min_file_size_bytes, (a, sizes.1), b),
        call_ensures(RewriteDataFiles::<'a, R>::max_file_size_bytes, (b, sizes.2), c),
        call_ensures(RewriteDataFiles::<'a, R>::max_file_group_size_bytes, (c, sizes.3), d),
        call_ensures(RewriteDataFiles::<'a, R>::min_input_files, (d, n), e),
        call_ensures(RewriteDataFiles::<'a, R>::partial_progress, (e, partial), f),
    ensures
        f.table == action.table,
        f.rewriter == action.rewriter,
        f.target_file_size_bytes == sizes.0,
        f.min_file_size_bytes == sizes.1,
        f.max_file_size_bytes == sizes.2,
        f.max_file_group_size_bytes == sizes.3,
        f.min_input_files == n,
        f.partial_progress == partial,
        a.min_file_size_bytes == action.min_file_size_bytes,
        a.max_file_size_bytes == action.max_file_size_bytes,
        a.max_file_group_size_bytes == action.max_file_group_size_bytes,
        a.min_input_files == action.min_input_files,
        a.partial_progress == action.partial_progress,
{
}

/// Candidates are the files that are smaller than the minimum or larger than the maximum
/// size, all of them and in their order.
pub proof fn law_which_files_are_selected<'a, R: FileRewriter>(
    action: &RewriteDataFiles<'a, R>,
    files: &Vec<DataFile>,
    r: Vec<DataFile>,
) -> (at: Seq<int>)
    requires
        call_ensures(RewriteDataFiles::<'a, R>::select_candidates, (action, files), r),
    ensures
        seqs::picks(r@, files@, at),
        forall|i: int|
            0 <= i < files@.len() ==> (at.contains(i) <==> (
            #[trigger] files@[i]).file_size_in_bytes < action.min_file_size_bytes
                || files@[i].file_size_in_bytes > action.max_file_size_bytes),
{
    let keep = action.candidate();
    let at = seqs::lemma_filter_picks(files@, keep);
    assert forall|i: int| 0 <= i < files@.len() implies (at.contains(i) <==> (
    #[trigger] files@[i]).file_size_in_bytes < action.min_file_size_bytes
        || files@[i].file_size_in_bytes > action.max_file_size_bytes) by {
        if at.contains(i) {
            let k = choose|k: int| 0 <= k < at.len() && at[k] == i;
            assert(keep(files@[at[k]]));
        }
        assert(keep(files@[i]) <==> action.is_candidate(files@[i]));
    }
    at
}

} // verus!
