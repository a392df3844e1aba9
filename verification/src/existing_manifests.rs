//! The manifests that a snapshot takes over from the current one when files are replaced.

use std::sync::Arc;

use vstd::hash_set::StringHashSet;
use vstd::prelude::*;

use crate::error::Error;
use crate::model::{
    ManifestContents, ManifestEntry, ManifestFile, PartitionSpec, Snapshot, Table,
};
use crate::rewrite_files::RewriteFilesOperation;
use crate::rewrite_manifests;
use crate::rewrite_manifests::MergePlan;
use crate::rewrite_manifests_action;
use crate::rewrite_manifests_action::{
    GroupOrigin, MergeTarget, MergedManifestGroup, MergedManifestStep, RewriteManifestsOperation,
};
use crate::seqs;

verus! {

broadcast use crate::seqs::lemma_map_push;

/// Lets through the manifests that list files which were added or existed before.
pub open spec fn carried() -> spec_fn(ManifestFile) -> bool {
    |m: ManifestFile| m.carries_files()
}

/// How far the manifests of the current snapshot have been taken over.
#[verifier::ext_equal]
pub struct CarryReads {
    /// The manifests that are still to be read.
    pub pending: Seq<ManifestFile>,
    /// The manifests that are taken over as they are.
    pub kept: Seq<ManifestFile>,
    /// What is left of other manifests.
    pub groups: Seq<MergePlan>,
}

impl CarryReads {
    /// Nothing has been read.
    pub open spec fn start() -> CarryReads {
        CarryReads { pending: Seq::empty(), kept: Seq::empty(), groups: Seq::empty() }
    }

    /// The manifest list was read: the manifests with files are to be read or, where no
    /// file is to be deleted, are taken over as they are.
    pub open spec fn with_list(
        self,
        operation: RewriteFilesOperation,
        manifests: Seq<ManifestFile>,
    ) -> CarryReads {
        if operation.files_to_delete@.len() > 0 {
            CarryReads { pending: manifests.filter(carried()), ..self }
        } else {
            CarryReads { kept: manifests.filter(carried()), ..self }
        }
    }

    /// The next manifest was read. It is taken over as it is where it lists no file to
    /// delete; otherwise its other files are, if it has any, under the partition spec that
    /// it records.
    pub open spec fn with_entries(
        self,
        operation: RewriteFilesOperation,
        partition_spec: Arc<PartitionSpec>,
        entries: Seq<ManifestEntry>,
    ) -> CarryReads {
        let m = self.pending[0];
        let pending = self.pending.drop_first();
        let left = entries.filter(operation.stays());
        if entries.filter(operation.hits()).len() == 0 {
            CarryReads { pending, kept: self.kept.push(m), ..self }
        } else if left.len() == 0 {
            CarryReads { pending, ..self }
        } else {
            let plan = MergePlan { entries: left, content_type: m.content, partition_spec };
            CarryReads { pending, groups: self.groups.push(plan), ..self }
        }
    }
}

/// What is needed next to tell which manifests a snapshot takes over.
pub enum ExistingManifestStep<'a> {
    /// The manifests are known.
    Finished(Result<CarriedManifests, Error>),
    /// Load a manifest list.
    LoadManifestList(ExistingListPending<'a>),
    /// Read a manifest.
    ReadManifest(ExistingManifestPending<'a>),
}

/// The manifests that a snapshot takes over: some as they are, and of others what is
/// left of them, which is to be written anew.
pub struct CarriedManifests {
    pub manifests: RewriteManifestsOperation,
}

/// The taking over of manifests, under way.
pub struct CarryRun<'a> {
    pub operation: &'a RewriteFilesOperation,
    pub table: &'a Table,
    pub snapshot: &'a Snapshot,
    /// The paths of the files to delete.
    pub paths: StringHashSet,
    pub manifests: Vec<ManifestFile>,
    pub manifests_read: usize,
    pub kept: Vec<ManifestFile>,
    pub groups: Vec<MergedManifestGroup>,
}

impl<'a> CarryRun<'a> {
    /// How far the run has come.
    pub open spec fn reads(self) -> CarryReads {
        CarryReads {
            pending: self.manifests@.skip(self.manifests_read as int),
            kept: self.kept@,
            groups: rewrite_manifests::merge_plans(self.groups@),
        }
    }

    /// The run is consistent.
    pub open spec fn wf(self) -> bool {
        &&& self.table.metadata.current() == Some(*self.snapshot)
        &&& forall|p: Seq<char>| #[trigger]
            self.paths@.contains(p) <==> self.operation.paths().contains(p)
        &&& self.manifests_read <= self.manifests@.len()
    }

    /// The run is at `reads`.
    pub open spec fn is_at(
        self,
        operation: RewriteFilesOperation,
        table: Table,
        reads: CarryReads,
    ) -> bool {
        &&& self.wf()
        &&& *self.operation == operation
        &&& *self.table == table
        &&& self.reads() == reads
    }
}

/// The manifest list of the current snapshot is waiting to be loaded.
pub struct ExistingListPending<'a> {
    pub run: CarryRun<'a>,
}

/// A manifest is waiting to be read.
pub struct ExistingManifestPending<'a> {
    pub run: CarryRun<'a>,
}

/// What comes next: the manifests that are still to be read, and then the manifests
/// that are taken over.
pub open spec fn continues(
    operation: RewriteFilesOperation,
    table: Table,
    reads: CarryReads,
    step: ExistingManifestStep,
) -> bool {
    if reads.pending.len() > 0 {
        &&& step is ReadManifest
        &&& step->ReadManifest_0.run.is_at(operation, table, reads)
    } else {
        &&& step is Finished
        &&& step->Finished_0 is Ok
        &&& step->Finished_0->Ok_0.manifests.kept_manifests@ == reads.kept
        &&& rewrite_manifests::merge_plans(step->Finished_0->Ok_0.manifests.merge_groups@)
            == reads.groups
    }
}

/// Begins to take over the manifests of the current snapshot, where there is one.
pub(crate) fn begin_carrying<'a>(
    operation: &'a RewriteFilesOperation,
    table: &'a Table,
) -> (step: ExistingManifestStep<'a>)
    requires
        table.metadata.current_is_known(),
    ensures
        table.metadata.current() is Some ==> {
            &&& step is LoadManifestList
            &&& step->LoadManifestList_0.run.is_at(*operation, *table, CarryReads::start())
        },
        table.metadata.current() is None ==> continues(
            *operation,
            *table,
            CarryReads::start(),
            step,
        ),
{
    match table.metadata.current_snapshot() {
        Some(snapshot) => {
            let run = CarryRun {
                operation,
                table,
                snapshot,
                paths: operation.path_set(),
                manifests: Vec::new(),
                manifests_read: 0,
                kept: Vec::new(),
                groups: Vec::new(),
            };
            assert(run.reads() =~= CarryReads::start());
            ExistingManifestStep::LoadManifestList(ExistingListPending { run })
        },
        None => {
            let manifests = RewriteManifestsOperation {
                kept_manifests: Vec::new(),
                merge_groups: Vec::new(),
            };
            assert(rewrite_manifests::merge_plans(manifests.merge_groups@) =~= Seq::<
                MergePlan,
            >::empty());
            ExistingManifestStep::Finished(Ok(CarriedManifests { manifests }))
        },
    }
}

/// The manifests that list files which were added or existed before.
fn list_carried(manifests: &Vec<ManifestFile>) -> (kept: Vec<ManifestFile>)
    ensures
        kept@ == manifests@.filter(carried()),
{
    let mut kept: Vec<ManifestFile> = Vec::new();
    let mut i: usize = 0;
    proof {
        reveal(Seq::filter);
    }
    while i < manifests.len()
        invariant
            i <= manifests.len(),
            kept@ == manifests@.take(i as int).filter(carried()),
        decreases manifests.len() - i,
    {
        let m = &manifests[i];
        proof {
            seqs::lemma_filter_step(manifests@, carried(), i as int);
        }
        if m.has_added_files() || m.has_existing_files() {
            kept.push(m.clone());
        }
        i = i + 1;
    }
    assert(manifests@.take(manifests.len() as int) =~= manifests@);
    kept
}

impl<'a> CarryRun<'a> {
    /// Goes on to what comes next.
    fn advance(self) -> (step: ExistingManifestStep<'a>)
        requires
            self.wf(),
        ensures
            continues(*self.operation, *self.table, self.reads(), step),
    {
        if self.manifests_read < self.manifests.len() {
            ExistingManifestStep::ReadManifest(ExistingManifestPending { run: self })
        } else {
            let manifests = RewriteManifestsOperation {
                kept_manifests: self.kept,
                merge_groups: self.groups,
            };
            ExistingManifestStep::Finished(Ok(CarriedManifests { manifests }))
        }
    }

    /// Tells whether `entries` list a file to delete, and which of them stay.
    fn sift(&self, entries: &Vec<ManifestEntry>) -> (r: (bool, Vec<ManifestEntry>))
        requires
            self.wf(),
        ensures
            r.0 == (entries@.filter(self.operation.hits()).len() > 0),
            r.1@ == entries@.filter(self.operation.stays()),
    {
        let ghost hits = self.operation.hits();
        let ghost stays = self.operation.stays();
        let mut hit = false;
        let mut left: Vec<ManifestEntry> = Vec::new();
        let mut i: usize = 0;
        proof {
            reveal(Seq::filter);
        }
        while i < entries.len()
            invariant
                self.wf(),
                hits == self.operation.hits(),
                stays == self.operation.stays(),
                i <= entries.len(),
                hit == (entries@.take(i as int).filter(hits).len() > 0),
                left@ == entries@.take(i as int).filter(stays),
            decreases entries.len() - i,
        {
            let e = &entries[i];
            proof {
                seqs::lemma_filter_step(entries@, hits, i as int);
                seqs::lemma_filter_step(entries@, stays, i as int);
            }
            if e.is_alive() {
                if self.paths.contains(e.data_file.file_path.as_str()) {
                    hit = true;
                } else {
                    left.push(e.clone());
                }
            }
            i = i + 1;
        }
        assert(entries@.take(entries.len() as int) =~= entries@);
        (hit, left)
    }
}

impl<'a> ExistingListPending<'a> {
    /// The manifest list is to be loaded before anything else.
    pub open spec fn ready(self) -> bool {
        &&& self.run.wf()
        &&& self.run.reads() == CarryReads::start()
    }

    /// Where the manifest list is.
    pub fn path(&self) -> (path: &str)
        requires
            self.ready(),
        ensures
            path@ == self.run.table.metadata.current()->0.manifest_list@,
    {
        self.run.snapshot.manifest_list.as_str()
    }

    /// Goes on with the manifests of the list; an error ends the taking over.
    pub fn resume(self, outcome: Result<Vec<ManifestFile>, Error>) -> (step: ExistingManifestStep<
        'a,
    >)
        requires
            self.ready(),
        ensures
            outcome matches Err(e) ==> step == ExistingManifestStep::<'a>::Finished(Err(e)),
            outcome matches Ok(manifests) ==> continues(
                *self.run.operation,
                *self.run.table,
                CarryReads::start().with_list(*self.run.operation, manifests@),
                step,
            ),
    {
        let manifests = match outcome {
            Err(e) => {
                return ExistingManifestStep::Finished(Err(e));
            },
            Ok(manifests) => manifests,
        };
        let mut run = self.run;
        let found = list_carried(&manifests);
        if run.operation.files_to_delete.len() > 0 {
            run.manifests = found;
            run.manifests_read = 0;
        } else {
            run.kept = found;
        }
        assert(run.reads() =~= CarryReads::start().with_list(*run.operation, manifests@));
        run.advance()
    }
}

impl<'a> ExistingManifestPending<'a> {
    /// A manifest is waiting to be read.
    pub open spec fn ready(self) -> bool {
        &&& self.run.wf()
        &&& self.run.reads().pending.len() > 0
    }

    /// Where the manifest is.
    pub fn path(&self) -> (path: &str)
        requires
            self.ready(),
        ensures
            path@ == self.run.reads().pending[0].manifest_path@,
    {
        self.run.manifests[self.run.manifests_read].manifest_path.as_str()
    }

    /// Goes on with what the manifest holds; an error ends the taking over.
    pub fn resume(self, outcome: Result<ManifestContents, Error>) -> (step: ExistingManifestStep<
        'a,
    >)
        requires
            self.ready(),
        ensures
            outcome matches Err(e) ==> step == ExistingManifestStep::<'a>::Finished(Err(e)),
            outcome matches Ok(contents) ==> continues(
                *self.run.operation,
                *self.run.table,
                self.run.reads().with_entries(
                    *self.run.operation,
                    contents.partition_spec,
                    contents.entries@,
                ),
                step,
            ),
    {
        let contents = match outcome {
            Err(e) => {
                return ExistingManifestStep::Finished(Err(e));
            },
            Ok(contents) => contents,
        };
        let ghost before = self.run.reads();
        let mut run = self.run;
        let (hit, left) = run.sift(&contents.entries);
        assert(run.manifests_read < run.manifests.len());
        let m = run.manifests[run.manifests_read].clone();
        assert(m == before.pending[0]);
        assert(run.manifests@.skip(run.manifests_read + 1) =~= before.pending.drop_first());
        if !hit {
            run.kept.push(m);
        } else if left.len() > 0 {
            run.groups.push(
                MergedManifestGroup {
                    entries: left,
                    content_type: m.content,
                    partition_spec: Arc::clone(&contents.partition_spec),
                },
            );
        }
        run.manifests_read = run.manifests_read + 1;
        assert(run.reads() =~= before.with_entries(
            *run.operation,
            contents.partition_spec,
            contents.entries@,
        ));
        run.advance()
    }
}

impl CarriedManifests {
    /// Begin to have written what is left of manifests. The manifests taken over are
    /// then those that are as they were, followed by the ones written.
    pub fn write<'a>(&'a self, table: &'a Table, snapshot_id: i64, commit_uuid: u128) -> (step:
        MergedManifestStep<'a>)
        ensures
            rewrite_manifests_action::next_manifest(
                (MergeTarget {
                    operation: self.manifests,
                    table: *table,
                    snapshot_id,
                    commit_uuid,
                    origin: GroupOrigin::Remaining,
                }),
                self.manifests.kept_manifests@,
                0,
                step,
            ),
    {
        self.manifests.write(table, snapshot_id, commit_uuid, GroupOrigin::Remaining)
    }
}

} // verus!
