//! How the calls of a remove-orphan-files action fit together.

use vstd::prelude::*;

use crate::error::{Error, ErrorKind};
use crate::expire_snapshots;
use crate::model::{ManifestEntry, ManifestFile, Table};
use crate::outside;
use crate::remove_orphan_files;
use crate::remove_orphan_files::{
    FileEntry, OrphanListPending, OrphanListingPending, OrphanManifestPending, OrphanScan,
    OrphanStep, PrefixMismatchMode, RemoveOrphanFiles,
};
use crate::remove_orphan_files_laws;
use crate::storage::Storage;
use crate::time::Timestamp;
use crate::uri;

verus! {

/// An action is refused where garbage collection is off, and otherwise goes on as one
/// that has read nothing.
pub proof fn law_how_an_action_begins<'a>(
    action: RemoveOrphanFiles<'a>,
    step: OrphanStep<'a>,
    storage: Storage,
)
    requires
        call_ensures(RemoveOrphanFiles::<'a>::execute, (action,), step),
    ensures
        expire_snapshots::gc_disabled(action.table.metadata) ==> step is Finished
            && step->Finished_0 is Err && step->Finished_0->Err_0.kind
            == ErrorKind::FeatureUnsupported,
        !expire_snapshots::gc_disabled(action.table.metadata) ==> remove_orphan_files::continues(
            action,
            remove_orphan_files_laws::reads_after(action, storage, 0),
            step,
        ),
{
}

/// Loading the manifest list that a run asks for, from storage, takes it one read
/// further.
pub proof fn law_loading_a_list_goes_on<'a>(
    pending: OrphanListPending<'a>,
    path: &str,
    manifests: Vec<ManifestFile>,
    step: OrphanStep<'a>,
    storage: Storage,
    n: nat,
)
    requires
        pending.ready(),
        pending.run.reads() == remove_orphan_files_laws::reads_after(
            pending.run.action,
            storage,
            n,
        ),
        call_ensures(OrphanListPending::<'a>::path, (&pending,), path),
        manifests@ == (storage.lists)(path@),
        call_ensures(OrphanListPending::<'a>::resume, (pending, Ok(manifests)), step),
    ensures
        remove_orphan_files::continues(
            pending.run.action,
            remove_orphan_files_laws::reads_after(pending.run.action, storage, n + 1),
            step,
        ),
{
}

/// Reading the manifest that a run asks for, from storage, takes it one read further.
pub proof fn law_reading_a_manifest_goes_on<'a>(
    pending: OrphanManifestPending<'a>,
    path: &str,
    entries: Vec<ManifestEntry>,
    step: OrphanStep<'a>,
    storage: Storage,
    n: nat,
)
    requires
        pending.ready(),
        pending.run.reads() == remove_orphan_files_laws::reads_after(
            pending.run.action,
            storage,
            n,
        ),
        call_ensures(OrphanManifestPending::<'a>::path, (&pending,), path),
        entries@ == (storage.manifests)(path@),
        call_ensures(OrphanManifestPending::<'a>::resume, (pending, Ok(entries)), step),
    ensures
        remove_orphan_files::continues(
            pending.run.action,
            remove_orphan_files_laws::reads_after(pending.run.action, storage, n + 1),
            step,
        ),
{
}

/// Once all has been read, the files under the location of the action are listed, and the
/// scan begins with no orphans and with the files that the run knows.
pub proof fn law_how_a_scan_begins<'a>(
    pending: OrphanListingPending<'a>,
    location: &str,
    step: OrphanStep<'a>,
)
    requires
        call_ensures(OrphanListingPending::<'a>::location, (&pending,), location),
        call_ensures(OrphanListingPending::<'a>::resume, (pending, Ok(())), step),
    ensures
        location@ == (match pending.run.action.location {
            Some(l) => l@,
            None => pending.run.action.table.metadata.location@,
        }),
        step is NextFile,
        step->NextFile_0.run.action == pending.run.action,
        step->NextFile_0.orphans@.len() == 0,
        step->NextFile_0.run.paths@.len() == pending.run.paths@.len(),
        forall|k: int|
            0 <= k < pending.run.paths@.len() ==> (#[trigger] step->NextFile_0.run.paths@[k])@
                == pending.run.paths@[k]@,
{
    let paths = pending.run.reads().paths;
    remove_orphan_files_laws::law_scan_begins_with_nothing(pending.run.action, paths, step);
    assert(paths.len() == pending.run.paths@.len());
    assert(forall|k: int| 0 <= k < paths.len() ==> #[trigger] paths[k] == pending.run.paths@[k]@);
}

/// Each file of the listing is judged, a failure of the listing ends the action, and after
/// the last file the orphans found are reported: by a dry run as its result, and
/// otherwise to be deleted.
pub proof fn law_what_follows_a_file<'a>(
    scan: OrphanScan<'a>,
    next: Option<Result<FileEntry, Error>>,
    step: OrphanStep<'a>,
)
    requires
        call_ensures(OrphanScan::<'a>::resume, (scan, next), step),
    ensures
        match next {
            Some(Ok(entry)) => remove_orphan_files::scan_goes_on(scan, entry, step),
            Some(Err(e)) => step is Finished && step->Finished_0 is Err && step->Finished_0->Err_0
                == e,
            None => if scan.run.action.dry_run {
                step is Finished && step->Finished_0 is Ok
                    && step->Finished_0->Ok_0.orphan_file_locations@ == scan.orphans@
            } else {
                step is Delete && step->Delete_0.orphan_file_locations@ == scan.orphans@
            },
        },
{
}

/// A list, a manifest or a listing that cannot be read ends the action with its error.
pub proof fn law_failed_reads_end_the_action<'a>(
    list: OrphanListPending<'a>,
    manifest: OrphanManifestPending<'a>,
    listing: OrphanListingPending<'a>,
    e: Error,
    a: OrphanStep<'a>,
    b: OrphanStep<'a>,
    c: OrphanStep<'a>,
)
    requires
        call_ensures(OrphanListPending::<'a>::resume, (list, Err(e)), a),
        call_ensures(OrphanManifestPending::<'a>::resume, (manifest, Err(e)), b),
        call_ensures(OrphanListingPending::<'a>::resume, (listing, Err(e)), c),
    ensures
        a is Finished && a->Finished_0 is Err && a->Finished_0->Err_0 == e,
        b is Finished && b->Finished_0 is Err && b->Finished_0->Err_0 == e,
        c is Finished && c->Finished_0 is Err && c->Finished_0->Err_0 == e,
{
}

/// A run waits for what comes next: after `n` reads from storage it asks for a list or a
/// manifest where one is left, with what it has read so far, and then for the listing.
pub proof fn law_what_a_run_waits_for<'a>(
    action: RemoveOrphanFiles<'a>,
    storage: Storage,
    n: nat,
    step: OrphanStep<'a>,
)
    requires
        remove_orphan_files::continues(
            action,
            remove_orphan_files_laws::reads_after(action, storage, n),
            step,
        ),
    ensures
        step is LoadManifestList || step is ReadManifest || step is OpenListing,
        step is LoadManifestList ==> step->LoadManifestList_0.ready()
            && step->LoadManifestList_0.run.action == action
            && step->LoadManifestList_0.run.reads() == remove_orphan_files_laws::reads_after(
            action,
            storage,
            n,
        ),
        step is ReadManifest ==> step->ReadManifest_0.ready()
            && step->ReadManifest_0.run.action == action && step->ReadManifest_0.run.reads()
            == remove_orphan_files_laws::reads_after(action, storage, n),
{
}

/// Unless told otherwise, an action spares files of the last three days, scans the location
/// of the table, deletes what it finds, knows no equivalences and ends at a mismatch.
pub proof fn law_defaults<'a>(table: &'a Table, now: Timestamp, action: RemoveOrphanFiles<'a>)
    requires
        now.nanos >= 0,
        call_ensures(RemoveOrphanFiles::<'a>::new_at, (table, now), action),
    ensures
        action.table == table,
        action.older_than.nanos == now.nanos - 3 * 24 * 60 * 60 * 1_000_000_000,
        action.location is None,
        !action.dry_run,
        action.equal_schemes.pairs@.len() == 0,
        action.equal_authorities.pairs@.len() == 0,
        action.prefix_mismatch_mode == PrefixMismatchMode::Error,
{
    assert(action.equal_schemes@.len() == action.equal_schemes.pairs@.len());
    assert(action.equal_authorities@.len() == action.equal_authorities.pairs@.len());
}

/// Each setting is taken as it is given, and leaves the others as they are.
pub proof fn law_settings<'a>(
    action: RemoveOrphanFiles<'a>,
    t: Timestamp,
    l: &str,
    dry: bool,
    mode: PrefixMismatchMode,
    a: RemoveOrphanFiles<'a>,
    b: RemoveOrphanFiles<'a>,
    c: RemoveOrphanFiles<'a>,
    d: RemoveOrphanFiles<'a>,
)
    requires
        call_ensures(RemoveOrphanFiles::<'a>::older_than, (action, t), a),
        call_ensures(RemoveOrphanFiles::<'a>::location, (a, l), b),
        call_ensures(RemoveOrphanFiles::<'a>::dry_run, (b, dry), c),
        call_ensures(RemoveOrphanFiles::<'a>::prefix_mismatch_mode, (c, mode), d),
    ensures
        d.table == action.table,
        d.older_than == t,
        d.location is Some && d.location->0@ == l@,
        d.dry_run == dry,
        d.prefix_mismatch_mode == mode,
        d.equal_schemes == action.equal_schemes,
        d.equal_authorities == action.equal_authorities,
        a.location == action.location,
        a.dry_run == action.dry_run,
        a.prefix_mismatch_mode == action.prefix_mismatch_mode,
{
}

/// Declaring schemes or authorities equal makes them stand for the same, schemes in lower
/// case, keeps all that was declared before, and leaves the other settings as they are.
pub proof fn law_declarations<'a>(
    action: RemoveOrphanFiles<'a>,
    s: &str,
    t: &str,
    x: Seq<char>,
    y: Seq<char>,
    a: RemoveOrphanFiles<'a>,
    b: RemoveOrphanFiles<'a>,
)
    requires
        call_ensures(RemoveOrphanFiles::<'a>::equal_schemes, (action, s, t), a),
        call_ensures(RemoveOrphanFiles::<'a>::equal_authorities, (action, s, t), b),
    ensures
        uri::resolved(a.equal_schemes@, outside::lower_case(s@)) == uri::resolved(
            a.equal_schemes@,
            outside::lower_case(t@),
        ),
        uri::resolved(action.equal_schemes@, x) == uri::resolved(action.equal_schemes@, y)
            ==> uri::resolved(a.equal_schemes@, x) == uri::resolved(a.equal_schemes@, y),
        a.equal_schemes.pairs@.len() > 0,
        a.equal_authorities == action.equal_authorities,
        a.table == action.table,
        a.older_than == action.older_than,
        a.location == action.location,
        a.dry_run == action.dry_run,
        a.prefix_mismatch_mode == action.prefix_mismatch_mode,
        uri::resolved(b.equal_authorities@, s@) == uri::resolved(b.equal_authorities@, t@),
        uri::resolved(action.equal_authorities@, x) == uri::resolved(action.equal_authorities@, y)
            ==> uri::resolved(b.equal_authorities@, x) == uri::resolved(b.equal_authorities@, y),
        b.equal_authorities.pairs@.len() > 0,
        b.equal_schemes == action.equal_schemes,
        b.table == action.table,
        b.older_than == action.older_than,
        b.location == action.location,
        b.dry_run == action.dry_run,
        b.prefix_mismatch_mode == action.prefix_mismatch_mode,
{
    assert(a.equal_schemes@.len() == a.equal_schemes.pairs@.len());
    assert(b.equal_authorities@.len() == b.equal_authorities.pairs@.len());
}

} // verus!
