//! How the calls of an expire-snapshots action fit together.

use vstd::prelude::*;

use crate::error::{Error, ErrorKind};
use crate::expire_snapshots;
use crate::expire_snapshots::{
    ExpireCommit, ExpireListPending, ExpireManifestPending, ExpireSnapshots,
    ExpireSnapshotsResult, ExpireStep,
};
use crate::expire_snapshots_laws;
use crate::model::{ManifestEntry, ManifestFile, Table};
use crate::storage::Storage;
use crate::time::Timestamp;

verus! {

/// Whether the result counts nothing.
pub open spec fn is_nothing(r: ExpireSnapshotsResult) -> bool {
    &&& r.deleted_data_files_count == 0
    &&& r.deleted_equality_delete_files_count == 0
    &&& r.deleted_position_delete_files_count == 0
    &&& r.deleted_manifest_files_count == 0
    &&& r.deleted_manifest_lists_count == 0
    &&& r.deleted_statistics_files_count == 0
}

/// An action is refused where garbage collection is off, does nothing where no snapshot
/// expires, and otherwise begins with the commit that removes those that do.
pub proof fn law_how_an_action_begins<'a>(action: ExpireSnapshots<'a>, step: ExpireStep<'a>)
    requires
        call_ensures(ExpireSnapshots::<'a>::execute, (action,), step),
    ensures
        ({
            let all = action.table.metadata.snapshots@;
            let any = exists|i: int|
                0 <= i < all.len() && action.expired_ids().contains(
                    (#[trigger] all[i]).snapshot_id,
                );
            if expire_snapshots::gc_disabled(action.table.metadata) {
                &&& step is Finished
                &&& step->Finished_0 is Err
                &&& step->Finished_0->Err_0.kind == ErrorKind::FeatureUnsupported
            } else if !any {
                &&& step is Finished
                &&& step->Finished_0 is Ok
                &&& is_nothing(step->Finished_0->Ok_0)
            } else {
                &&& step is Commit
                &&& step->Commit_0.run.action == action
                &&& action.is_commit(step->Commit_0.commit)
            }
        }),
{
    let ids = action.expired_ids();
    let all = action.table.metadata.snapshots@;
    if ids.len() > 0 {
        assert(ids.contains(ids[0]));
        expire_snapshots_laws::law_which_snapshots_expire(action, ids[0]);
        let i = choose|i: int| 0 <= i < all.len() && (#[trigger] all[i]).snapshot_id == ids[0];
        assert(action.expired_ids().contains(all[i].snapshot_id));
    }
}

/// Once the commit went through, nothing is deleted where files are to be left alone, and
/// otherwise the run goes on as if it had read nothing; where the commit failed, the
/// action ends with its error.
pub proof fn law_what_follows_the_commit<'a>(
    commit: ExpireCommit<'a>,
    outcome: Result<(), Error>,
    step: ExpireStep<'a>,
    storage: Storage,
)
    requires
        call_ensures(ExpireCommit::<'a>::resume, (commit, outcome), step),
    ensures
        outcome is Err ==> step is Finished && step->Finished_0 is Err && step->Finished_0->Err_0
            == outcome->Err_0,
        outcome is Ok && !commit.run.action.clean_expired_metadata ==> step is Finished
            && step->Finished_0 is Ok && is_nothing(step->Finished_0->Ok_0),
        outcome is Ok && commit.run.action.clean_expired_metadata
            ==> expire_snapshots::continues(
            commit.run.action,
            expire_snapshots_laws::reads_after(commit.run.action, storage, 0),
            step,
        ),
{
}

/// Loading the manifest list that a run asks for, from storage, takes it one read
/// further.
pub proof fn law_loading_a_list_goes_on<'a>(
    pending: ExpireListPending<'a>,
    path: &str,
    manifests: Vec<ManifestFile>,
    step: ExpireStep<'a>,
    storage: Storage,
    n: nat,
)
    requires
        pending.ready(),
        pending.run.reads() == expire_snapshots_laws::reads_after(pending.run.action, storage, n),
        call_ensures(ExpireListPending::<'a>::path, (&pending,), path),
        manifests@ == (storage.lists)(path@),
        call_ensures(ExpireListPending::<'a>::resume, (pending, Ok(manifests)), step),
    ensures
        expire_snapshots::continues(
            pending.run.action,
            expire_snapshots_laws::reads_after(pending.run.action, storage, n + 1),
            step,
        ),
{
}

/// Reading the manifest that a run asks for, from storage, takes it one read further.
pub proof fn law_reading_a_manifest_goes_on<'a>(
    pending: ExpireManifestPending<'a>,
    path: &str,
    entries: Vec<ManifestEntry>,
    step: ExpireStep<'a>,
    storage: Storage,
    n: nat,
)
    requires
        pending.ready(),
        pending.run.reads() == expire_snapshots_laws::reads_after(pending.run.action, storage, n),
        call_ensures(ExpireManifestPending::<'a>::path, (&pending,), path),
        entries@ == (storage.manifests)(path@),
        call_ensures(ExpireManifestPending::<'a>::resume, (pending, Ok(entries)), step),
    ensures
        expire_snapshots::continues(
            pending.run.action,
            expire_snapshots_laws::reads_after(pending.run.action, storage, n + 1),
            step,
        ),
{
}

/// A list or a manifest that cannot be read ends the action with its error.
pub proof fn law_failed_reads_end_the_action<'a>(
    list: ExpireListPending<'a>,
    manifest: ExpireManifestPending<'a>,
    e: Error,
    a: ExpireStep<'a>,
    b: ExpireStep<'a>,
)
    requires
        call_ensures(ExpireListPending::<'a>::resume, (list, Err(e)), a),
        call_ensures(ExpireManifestPending::<'a>::resume, (manifest, Err(e)), b),
    ensures
        a is Finished && a->Finished_0 is Err && a->Finished_0->Err_0 == e,
        b is Finished && b->Finished_0 is Err && b->Finished_0->Err_0 == e,
{
}

/// A run waits for what comes next: after `n` reads from storage it asks for a list or a
/// manifest where one is left, with what it has read so far, and for nothing else.
pub proof fn law_what_a_run_waits_for<'a>(
    action: ExpireSnapshots<'a>,
    storage: Storage,
    n: nat,
    step: ExpireStep<'a>,
)
    requires
        expire_snapshots::continues(
            action,
            expire_snapshots_laws::reads_after(action, storage, n),
            step,
        ),
    ensures
        step is LoadManifestList || step is ReadManifest || step is Delete,
        step is LoadManifestList ==> step->LoadManifestList_0.ready()
            && step->LoadManifestList_0.run.action == action
            && step->LoadManifestList_0.run.reads() == expire_snapshots_laws::reads_after(
            action,
            storage,
            n,
        ),
        step is ReadManifest ==> step->ReadManifest_0.ready()
            && step->ReadManifest_0.run.action == action && step->ReadManifest_0.run.reads()
            == expire_snapshots_laws::reads_after(action, storage, n),
{
}

/// Unless told otherwise, an action keeps one snapshot of the main branch, goes by no
/// time, requests no expiration and deletes the files that it leaves behind.
pub proof fn law_defaults<'a>(table: &'a Table, action: ExpireSnapshots<'a>)
    requires
        call_ensures(ExpireSnapshots::<'a>::new, (table,), action),
    ensures
        action.table == table,
        action.older_than is None,
        action.retain_last == 1,
        action.snapshot_ids@.len() == 0,
        action.clean_expired_metadata,
{
}

/// Each setting is taken as it is given, and leaves the others as they are; requests for
/// expiration add up.
pub proof fn law_settings<'a>(
    action: ExpireSnapshots<'a>,
    t: Timestamp,
    n: usize,
    id: i64,
    clean: bool,
    a: ExpireSnapshots<'a>,
    b: ExpireSnapshots<'a>,
    c: ExpireSnapshots<'a>,
    d: ExpireSnapshots<'a>,
)
    requires
        call_ensures(ExpireSnapshots::<'a>::older_than, (action, t), a),
        call_ensures(ExpireSnapshots::<'a>::retain_last, (a, n), b),
        call_ensures(ExpireSnapshots::<'a>::expire_snapshot_id, (b, id), c),
        call_ensures(ExpireSnapshots::<'a>::clean_expired_metadata, (c, clean), d),
    ensures
        d.table == action.table,
        d.older_than == Some(t),
        d.retain_last == n,
        d.snapshot_ids@ == action.snapshot_ids@.push(id),
        d.clean_expired_metadata == clean,
        a.retain_last == action.retain_last,
        a.snapshot_ids@ == action.snapshot_ids@,
        a.clean_expired_metadata == action.clean_expired_metadata,
{
}

} // verus!
