//! Expiring snapshots: which snapshots leave the table, and which files go with
//! them because no snapshot that stays refers to them.

use std::collections::HashSet;

use vstd::hash_set::StringHashSet;
use vstd::prelude::*;

use crate::error::{Error, ErrorKind};
use crate::model;
use crate::model::{
    DataContentType, ManifestEntry, ManifestFile, Snapshot, StatisticsFile, Table, TableMetadata,
};
use crate::seqs;
use crate::seqs::{list_manifest_paths, live_paths, push_texts, text_set, texts_outside};
use crate::text;
use crate::text::eq_ignore_ascii_case;
use crate::time::Timestamp;

verus! {

broadcast use {vstd::std_specs::hash::group_hash_axioms, crate::seqs::lemma_map_push};

/// Whether the table's properties switch garbage collection off: `gc.enabled` is
/// `false`, in whatever case.
pub open spec fn gc_disabled(metadata: TableMetadata) -> bool {
    metadata.properties@.contains_key("gc.enabled"@) && text::eq_ascii_case(
        metadata.properties@["gc.enabled"@]@,
        "false"@,
    )
}

/// Tells whether the table's properties switch garbage collection off.
pub fn is_gc_disabled(metadata: &TableMetadata) -> (r: bool)
    ensures
        r == gc_disabled(*metadata),
{
    match metadata.properties.get("gc.enabled") {
        Some(value) => eq_ignore_ascii_case(value.as_str(), "false"),
        None => false,
    }
}

/// Result of executing the expire snapshots action.
#[derive(Debug, Clone, Copy, PartialEq, Eq, Structural)]
pub struct ExpireSnapshotsResult {
    /// Number of data files deleted.
    pub deleted_data_files_count: u64,
    /// Number of equality delete files deleted.
    pub deleted_equality_delete_files_count: u64,
    /// Number of position delete files deleted.
    pub deleted_position_delete_files_count: u64,
    /// Number of manifest files deleted.
    pub deleted_manifest_files_count: u64,
    /// Number of manifest list files deleted.
    pub deleted_manifest_lists_count: u64,
    /// Number of statistics files deleted.
    pub deleted_statistics_files_count: u64,
}

impl ExpireSnapshotsResult {
    /// The result when nothing was deleted.
    pub open spec fn nothing() -> ExpireSnapshotsResult {
        ExpireSnapshotsResult {
            deleted_data_files_count: 0,
            deleted_equality_delete_files_count: 0,
            deleted_position_delete_files_count: 0,
            deleted_manifest_files_count: 0,
            deleted_manifest_lists_count: 0,
            deleted_statistics_files_count: 0,
        }
    }
}

impl Default for ExpireSnapshotsResult {
    fn default() -> (r: Self)
        ensures
            r == ExpireSnapshotsResult::nothing(),
    {
        ExpireSnapshotsResult {
            deleted_data_files_count: 0,
            deleted_equality_delete_files_count: 0,
            deleted_position_delete_files_count: 0,
            deleted_manifest_files_count: 0,
            deleted_manifest_lists_count: 0,
            deleted_statistics_files_count: 0,
        }
    }
}

/// A change of table metadata.
#[derive(Debug)]
pub enum TableUpdate {
    /// Remove the snapshots with these identifiers.
    RemoveSnapshots { snapshot_ids: Vec<i64> },
    /// Remove the statistics of a snapshot.
    RemoveStatistics { snapshot_id: i64 },
    /// Remove the partition statistics of a snapshot.
    RemovePartitionStatistics { snapshot_id: i64 },
}

/// What must hold of a table for a commit to go through.
#[derive(Debug)]
pub enum TableRequirement {
    /// The table has this UUID.
    UuidMatch { uuid: u128 },
}

/// A commit of metadata changes, for the catalog.
#[derive(Debug)]
pub struct TableCommit {
    pub identifier: String,
    pub updates: Vec<TableUpdate>,
    pub requirements: Vec<TableRequirement>,
}

/// Action that expires (removes) old snapshots from an Iceberg table.
///
/// After computing which snapshots to expire, this action:
/// 1. Commits a `RemoveSnapshots` metadata update via the catalog
/// 2. Walks expired snapshot manifest lists to find orphaned files
/// 3. Deletes data files, manifests, and manifest lists exclusively
///    referenced by expired snapshots
///
/// [`ExpireSnapshots::execute`] starts the action; each [`ExpireStep`] says what has
/// to be done outside next.
pub struct ExpireSnapshots<'a> {
    pub table: &'a Table,
    pub older_than: Option<Timestamp>,
    pub retain_last: usize,
    pub snapshot_ids: Vec<i64>,
    pub clean_expired_metadata: bool,
}

/// Which snapshots of a table an [`ExpireSnapshots`] action keeps.
impl<'a> ExpireSnapshots<'a> {
    /// Whether a branch or a tag points to the snapshot.
    pub open spec fn is_ref_head(self, id: i64) -> bool {
        exists|i: int|
            0 <= i < self.table.metadata.refs@.len() && (
            #[trigger] self.table.metadata.refs@[i]).snapshot_id == id
    }

    /// Whether the snapshot is among the `retain_last` most recent ones of the main
    /// branch, counted from the current snapshot.
    pub open spec fn is_recent_ancestor(self, id: i64) -> bool {
        exists|k: nat|
            k < self.retain_last && #[trigger] self.table.metadata.ancestor(
                self.table.metadata.current_snapshot_id,
                k,
            ) == Some(id)
    }

    /// Whether the snapshot is not older than `older_than`.
    pub open spec fn is_new_enough(self, id: i64) -> bool {
        match self.older_than {
            Some(t) => exists|i: int|
                0 <= i < self.table.metadata.snapshots@.len() && (
                #[trigger] self.table.metadata.snapshots@[i]).snapshot_id == id
                    && self.table.metadata.snapshots@[i].timestamp_ms >= t.millis(),
            None => false,
        }
    }

    /// Whether the snapshot is retained.
    pub open spec fn keeps(self, id: i64) -> bool {
        &&& !self.snapshot_ids@.contains(id)
        &&& self.is_ref_head(id) || self.is_recent_ancestor(id) || self.is_new_enough(id)
    }

    pub open spec fn kept_snapshot(self) -> spec_fn(Snapshot) -> bool {
        |s: Snapshot| self.keeps(s.snapshot_id)
    }

    pub open spec fn expired_snapshot(self) -> spec_fn(Snapshot) -> bool {
        |s: Snapshot| !self.keeps(s.snapshot_id)
    }

    /// The identifiers of the snapshots that expire.
    pub open spec fn expired_ids(self) -> Seq<i64> {
        self.table.metadata.snapshots@.filter(self.expired_snapshot()).map_values(
            |s: Snapshot| s.snapshot_id,
        )
    }

    /// The manifest lists of the snapshots that are retained.
    pub open spec fn kept_lists(self) -> Seq<Seq<char>> {
        self.table.metadata.snapshots@.filter(self.kept_snapshot()).map_values(
            |s: Snapshot| s.manifest_list@,
        )
    }

    /// The manifest lists of the snapshots that expire.
    pub open spec fn expired_lists(self) -> Seq<Seq<char>> {
        self.table.metadata.snapshots@.filter(self.expired_snapshot()).map_values(
            |s: Snapshot| s.manifest_list@,
        )
    }

    pub open spec fn of_expired(self) -> spec_fn(StatisticsFile) -> bool {
        |s: StatisticsFile| self.expired_ids().contains(s.snapshot_id)
    }

    /// The statistics of the snapshots that expire.
    pub open spec fn expired_statistics(self) -> Seq<StatisticsFile> {
        self.table.metadata.statistics@.filter(self.of_expired())
    }

    /// The partition statistics of the snapshots that expire.
    pub open spec fn expired_partition_statistics(self) -> Seq<StatisticsFile> {
        self.table.metadata.partition_statistics@.filter(self.of_expired())
    }

    /// Whether `commit` removes exactly the expired snapshots and their statistics,
    /// from this table and no other.
    pub open spec fn is_commit(self, commit: TableCommit) -> bool {
        let statistics = self.expired_statistics();
        let partition_statistics = self.expired_partition_statistics();
        let updates = commit.updates@;
        &&& commit.identifier == self.table.identifier
        &&& commit.requirements@ =~= seq![
            TableRequirement::UuidMatch { uuid: self.table.metadata.table_uuid },
        ]
        &&& updates.len() == 1 + statistics.len() + partition_statistics.len()
        &&& updates[0] is RemoveSnapshots
        &&& updates[0]->RemoveSnapshots_snapshot_ids@ == self.expired_ids()
        &&& forall|i: int|
            0 <= i < statistics.len() ==> #[trigger] updates[1 + i] == (
            TableUpdate::RemoveStatistics { snapshot_id: statistics[i].snapshot_id })
        &&& forall|i: int|
            0 <= i < partition_statistics.len() ==> #[trigger] updates[1 + statistics.len() + i]
                == (TableUpdate::RemovePartitionStatistics {
                snapshot_id: partition_statistics[i].snapshot_id,
            })
    }
}

/// What has been read of the snapshots so far, for finding the files to delete.
#[verifier::ext_equal]
pub struct ExpireReads {
    /// How many manifest lists have been read, those of retained snapshots first.
    pub lists_read: nat,
    /// The manifests of retained snapshots.
    pub live_manifests: Seq<Seq<char>>,
    /// The entries of those of them that have been read.
    pub live_entries: Seq<ManifestEntry>,
    /// The manifests of expired snapshots, each once.
    pub candidate_manifests: Seq<Seq<char>>,
    /// The entries of those of them that have been read.
    pub candidate_entries: Seq<ManifestEntry>,
    /// The manifests of the last list that are still to be read.
    pub queue: Seq<Seq<char>>,
}

pub open spec fn not_live(entries: Seq<ManifestEntry>) -> spec_fn(ManifestEntry) -> bool {
    |e: ManifestEntry| !seqs::is_live(entries, e.path())
}

impl ExpireReads {
    /// Nothing has been read.
    pub open spec fn start() -> ExpireReads {
        ExpireReads {
            lists_read: 0,
            live_manifests: Seq::empty(),
            live_entries: Seq::empty(),
            candidate_manifests: Seq::empty(),
            candidate_entries: Seq::empty(),
            queue: Seq::empty(),
        }
    }

    /// The next manifest list was read. Every manifest of a retained snapshot is to be
    /// read; of an expired one, those that no earlier expired snapshot had.
    pub open spec fn with_list(
        self,
        action: ExpireSnapshots,
        manifests: Seq<ManifestFile>,
    ) -> ExpireReads {
        let paths = seqs::manifest_paths(manifests);
        if self.lists_read < action.kept_lists().len() {
            ExpireReads {
                lists_read: self.lists_read + 1,
                live_manifests: self.live_manifests + paths,
                queue: paths,
                ..self
            }
        } else {
            let candidates = seqs::extend_distinct(self.candidate_manifests, paths);
            ExpireReads {
                lists_read: self.lists_read + 1,
                candidate_manifests: candidates,
                queue: candidates.skip(self.candidate_manifests.len() as int),
                ..self
            }
        }
    }

    /// The next manifest of the queue was read.
    pub open spec fn with_entries(
        self,
        action: ExpireSnapshots,
        entries: Seq<ManifestEntry>,
    ) -> ExpireReads {
        if self.lists_read <= action.kept_lists().len() {
            ExpireReads {
                live_entries: self.live_entries + entries,
                queue: self.queue.drop_first(),
                ..self
            }
        } else {
            ExpireReads {
                candidate_entries: self.candidate_entries + entries,
                queue: self.queue.drop_first(),
                ..self
            }
        }
    }

    /// The data and delete files that only expired snapshots refer to.
    pub open spec fn unreferenced_files(self) -> Seq<ManifestEntry> {
        seqs::distinct_entries(self.candidate_entries.filter(not_live(self.live_entries)))
    }

    /// The manifests that only expired snapshots refer to.
    pub open spec fn unreferenced_manifests(self) -> Seq<Seq<char>> {
        self.candidate_manifests.filter(seqs::not_in(self.live_manifests))
    }
}

/// The manifest lists that only expired snapshots refer to.
pub open spec fn unreferenced_lists(action: ExpireSnapshots) -> Seq<Seq<char>> {
    seqs::distinct(action.expired_lists()).filter(seqs::not_in(action.kept_lists()))
}

/// The files to delete once everything has been read, from the leaves to the root:
/// data and delete files, manifests, manifest lists, statistics.
pub open spec fn deletions(action: ExpireSnapshots, reads: ExpireReads) -> Seq<Seq<char>> {
    seqs::entry_paths(reads.unreferenced_files()) + reads.unreferenced_manifests()
        + unreferenced_lists(action) + seqs::statistics_paths(action.expired_statistics())
        + seqs::statistics_paths(action.expired_partition_statistics())
}

/// The counts that go with [`deletions`].
pub open spec fn outcome(action: ExpireSnapshots, reads: ExpireReads) -> ExpireSnapshotsResult {
    let files = reads.unreferenced_files();
    ExpireSnapshotsResult {
        deleted_data_files_count: seqs::count_content(files, DataContentType::Data) as u64,
        deleted_equality_delete_files_count: seqs::count_content(
            files,
            DataContentType::EqualityDeletes,
        ) as u64,
        deleted_position_delete_files_count: seqs::count_content(
            files,
            DataContentType::PositionDeletes,
        ) as u64,
        deleted_manifest_files_count: reads.unreferenced_manifests().len() as u64,
        deleted_manifest_lists_count: unreferenced_lists(action).len() as u64,
        deleted_statistics_files_count: (action.expired_statistics().len()
            + action.expired_partition_statistics().len()) as u64,
    }
}

/// What the expire-snapshots action needs next from outside.
pub enum ExpireStep<'a> {
    /// The action is over.
    Finished(Result<ExpireSnapshotsResult, Error>),
    /// Commit the metadata changes to the catalog.
    Commit(ExpireCommit<'a>),
    /// Load a manifest list.
    LoadManifestList(ExpireListPending<'a>),
    /// Read a manifest.
    ReadManifest(ExpireManifestPending<'a>),
    /// Delete these files in this order, going on where a deletion fails; then the
    /// action is over with this result.
    Delete { paths: Vec<String>, result: ExpireSnapshotsResult },
}

/// An expire-snapshots action under way, and what it has read.
pub struct ExpireRun<'a> {
    pub action: ExpireSnapshots<'a>,
    /// The manifest lists to read, those of retained snapshots first.
    pub lists: Vec<String>,
    /// How many of the lists are those of retained snapshots.
    pub kept: usize,
    pub lists_read: usize,
    pub live_manifests: Vec<String>,
    pub live_entries: Vec<ManifestEntry>,
    pub candidate_manifests: Vec<String>,
    pub candidate_set: StringHashSet,
    pub candidate_entries: Vec<ManifestEntry>,
    pub queue: Vec<String>,
    pub queue_read: usize,
    /// The statistics files of expired snapshots.
    pub statistics: Vec<String>,
}

impl<'a> ExpireRun<'a> {
    /// What has been read so far.
    pub open spec fn reads(self) -> ExpireReads {
        ExpireReads {
            lists_read: self.lists_read as nat,
            live_manifests: seqs::texts(self.live_manifests@),
            live_entries: self.live_entries@,
            candidate_manifests: seqs::texts(self.candidate_manifests@),
            candidate_entries: self.candidate_entries@,
            queue: seqs::texts(self.queue@).skip(self.queue_read as int),
        }
    }

    /// The run is consistent.
    pub open spec fn wf(self) -> bool {
        &&& seqs::texts(self.lists@) == self.action.kept_lists() + self.action.expired_lists()
        &&& self.kept == self.action.kept_lists().len()
        &&& self.lists_read <= self.lists@.len()
        &&& self.queue_read <= self.queue@.len()
        &&& seqs::texts(self.statistics@) == seqs::statistics_paths(self.action.expired_statistics())
            + seqs::statistics_paths(self.action.expired_partition_statistics())
        &&& forall|p: Seq<char>|
            self.candidate_set@.contains(p) <==> seqs::texts(self.candidate_manifests@).contains(p)
    }
}

/// What comes next once `reads` have been made: the manifests of the last list, then
/// the next list, and after the last list the deletions.
pub open spec fn continues(action: ExpireSnapshots, reads: ExpireReads, step: ExpireStep) -> bool {
    if reads.queue.len() > 0 {
        &&& step is ReadManifest
        &&& step->ReadManifest_0.run.wf()
        &&& step->ReadManifest_0.run.action == action
        &&& step->ReadManifest_0.run.reads() == reads
    } else if reads.lists_read < action.kept_lists().len() + action.expired_lists().len() {
        &&& step is LoadManifestList
        &&& step->LoadManifestList_0.run.wf()
        &&& step->LoadManifestList_0.run.action == action
        &&& step->LoadManifestList_0.run.reads() == reads
    } else {
        &&& step is Delete
        &&& seqs::texts(step->paths@) == deletions(action, reads)
        &&& step->result == outcome(action, reads)
    }
}

/// The commit that removes the expired snapshots is waiting for the catalog.
pub struct ExpireCommit<'a> {
    pub run: ExpireRun<'a>,
    pub commit: TableCommit,
}

/// A manifest list is waiting to be loaded.
pub struct ExpireListPending<'a> {
    pub run: ExpireRun<'a>,
}

/// A manifest is waiting to be read.
pub struct ExpireManifestPending<'a> {
    pub run: ExpireRun<'a>,
}

impl<'a> ExpireSnapshots<'a> {
    /// Create a new ExpireSnapshots action for the given table.
    pub fn new(table: &'a Table) -> (action: Self)
        ensures
            action.table == table,
            action.older_than is None,
            action.retain_last == 1,
            action.snapshot_ids@ == Seq::<i64>::empty(),
            action.clean_expired_metadata,
    {
        Self {
            table,
            older_than: None,
            retain_last: 1,
            snapshot_ids: Vec::new(),
            clean_expired_metadata: true,
        }
    }

    /// Set the timestamp before which snapshots should be expired.
    /// Snapshots older than this time are candidates for expiration.
    pub fn older_than(self, older_than: Timestamp) -> (action: Self)
        ensures
            action == (Self { older_than: Some(older_than), ..self }),
    {
        Self { older_than: Some(older_than), ..self }
    }

    /// Set the minimum number of snapshots to retain on the main branch.
    /// Defaults to 1.
    pub fn retain_last(self, n: usize) -> (action: Self)
        ensures
            action == (Self { retain_last: n, ..self }),
    {
        Self { retain_last: n, ..self }
    }

    /// Explicitly request expiration of a specific snapshot ID.
    /// This snapshot will be expired regardless of `older_than` or `retain_last`.
    pub fn expire_snapshot_id(self, snapshot_id: i64) -> (action: Self)
        ensures
            action.snapshot_ids@ == self.snapshot_ids@.push(snapshot_id),
            action == (Self { snapshot_ids: action.snapshot_ids, ..self }),
    {
        let mut action = self;
        action.snapshot_ids.push(snapshot_id);
        action
    }

    /// Whether to delete orphaned data files, manifests, manifest lists,
    /// and statistics files after removing snapshots from metadata.
    /// Defaults to `true`.
    pub fn clean_expired_metadata(self, clean: bool) -> (action: Self)
        ensures
            action == (Self { clean_expired_metadata: clean, ..self }),
    {
        Self { clean_expired_metadata: clean, ..self }
    }

    /// The snapshots to which branches and tags point.
    fn ref_heads(&self) -> (ids: HashSet<i64>)
        ensures
            forall|id: i64| #[trigger] ids@.contains(id) <==> self.is_ref_head(id),
    {
        let refs = &self.table.metadata.refs;
        let mut ids: HashSet<i64> = HashSet::new();
        let mut i: usize = 0;
        while i < refs.len()
            invariant
                refs == self.table.metadata.refs,
                i <= refs.len(),
                forall|id: i64|
                    ids@.contains(id) <==> exists|j: int|
                        0 <= j < i && (#[trigger] refs@[j]).snapshot_id == id,
            decreases refs.len() - i,
        {
            let ghost before = ids@;
            ids.insert(refs[i].snapshot_id);
            assert forall|id: i64| ids@.contains(id) <==> exists|j: int|
                0 <= j < i + 1 && (#[trigger] refs@[j]).snapshot_id == id by {
                if before.contains(id) {
                    let j = choose|j: int| 0 <= j < i && (#[trigger] refs@[j]).snapshot_id == id;
                    assert(refs@[j].snapshot_id == id);
                }
                if id == refs@[i as int].snapshot_id {
                    assert(refs@[i as int].snapshot_id == id);
                }
            }
            i = i + 1;
        }
        ids
    }

    /// Adds the `retain_last` most recent snapshots of the main branch.
    fn add_recent_ancestors(&self, ids: &mut HashSet<i64>)
        ensures
            forall|id: i64| #[trigger]
                final(ids)@.contains(id) <==> old(ids)@.contains(id) || self.is_recent_ancestor(
                    id,
                ),
    {
        let metadata = &self.table.metadata;
        let ghost start = metadata.current_snapshot_id;
        let mut count: usize = 0;
        let mut cursor: Option<i64> = metadata.current_snapshot_id;
        while count < self.retain_last && cursor.is_some()
            invariant
                metadata == self.table.metadata,
                start == metadata.current_snapshot_id,
                count <= self.retain_last,
                cursor == metadata.ancestor(start, count as nat),
                forall|id: i64|
                    ids@.contains(id) <==> old(ids)@.contains(id) || exists|k: nat|
                        k < count && #[trigger] metadata.ancestor(start, k) == Some(id),
            decreases self.retain_last - count,
        {
            let ghost before = ids@;
            let sid: i64 = cursor.unwrap();
            ids.insert(sid);
            assert forall|id: i64| ids@.contains(id) <==> old(ids)@.contains(id) || exists|k: nat|
                k < count + 1 && #[trigger] metadata.ancestor(start, k) == Some(id) by {
                if before.contains(id) && !old(ids)@.contains(id) {
                    let k = choose|k: nat|
                        k < count && #[trigger] metadata.ancestor(start, k) == Some(id);
                    assert(metadata.ancestor(start, k) == Some(id));
                }
                if id == sid {
                    assert(metadata.ancestor(start, count as nat) == Some(id));
                }
            }
            cursor = metadata.parent_of(sid);
            count = count + 1;
        }
        assert forall|id: i64| ids@.contains(id) <==> old(ids)@.contains(id)
            || self.is_recent_ancestor(id) by {
            if self.is_recent_ancestor(id) {
                let k = choose|k: nat|
                    k < self.retain_last && #[trigger] metadata.ancestor(start, k) == Some(id);
                if k >= count {
                    model::lemma_no_more_ancestors(*metadata, start, count as nat, k);
                }
            }
        }
    }

    /// Adds the snapshots that are not older than `older_than`.
    fn add_new_snapshots(&self, ids: &mut HashSet<i64>)
        ensures
            forall|id: i64| #[trigger]
                final(ids)@.contains(id) <==> old(ids)@.contains(id) || self.is_new_enough(id),
    {
        match self.older_than {
            None => {},
            Some(t) => {
                let older_than_ms: i64 = t.unix_millis();
                let snapshots = &self.table.metadata.snapshots;
                let mut i: usize = 0;
                while i < snapshots.len()
                    invariant
                        snapshots == self.table.metadata.snapshots,
                        older_than_ms == t.millis(),
                        i <= snapshots.len(),
                        forall|id: i64|
                            ids@.contains(id) <==> old(ids)@.contains(id) || exists|j: int|
                                0 <= j < i && (#[trigger] snapshots@[j]).snapshot_id == id
                                    && snapshots@[j].timestamp_ms >= older_than_ms,
                    decreases snapshots.len() - i,
                {
                    let ghost before = ids@;
                    let s = &snapshots[i];
                    if s.timestamp_ms >= older_than_ms {
                        ids.insert(s.snapshot_id);
                    }
                    assert forall|id: i64|
                        ids@.contains(id) <==> old(ids)@.contains(id) || exists|j: int|
                            0 <= j < i + 1 && (#[trigger] snapshots@[j]).snapshot_id == id
                                && snapshots@[j].timestamp_ms >= older_than_ms by {
                        if before.contains(id) && !old(ids)@.contains(id) {
                            let j = choose|j: int|
                                0 <= j < i && (#[trigger] snapshots@[j]).snapshot_id == id
                                    && snapshots@[j].timestamp_ms >= older_than_ms;
                            assert(snapshots@[j].snapshot_id == id);
                        }
                        if id == s.snapshot_id && s.timestamp_ms >= older_than_ms {
                            assert(snapshots@[i as int].snapshot_id == id);
                        }
                    }
                    i = i + 1;
                }
            },
        }
    }

    /// The identifiers of the snapshots to retain.
    pub fn retained_ids(&self) -> (ids: HashSet<i64>)
        ensures
            forall|id: i64| #[trigger] ids@.contains(id) <==> self.keeps(id),
    {
        let mut ids = self.ref_heads();
        self.add_recent_ancestors(&mut ids);
        self.add_new_snapshots(&mut ids);
        let ghost found = ids@;
        assert(forall|id: i64| #[trigger]
            found.contains(id) <==> self.is_ref_head(id) || self.is_recent_ancestor(id)
                || self.is_new_enough(id));
        let mut i: usize = 0;
        while i < self.snapshot_ids.len()
            invariant
                i <= self.snapshot_ids.len(),
                forall|id: i64| #[trigger]
                    ids@.contains(id) <==> found.contains(id) && !self.snapshot_ids@.take(
                        i as int,
                    ).contains(id),
            decreases self.snapshot_ids.len() - i,
        {
            ids.remove(&self.snapshot_ids[i]);
            proof {
                let sid = self.snapshot_ids@[i as int];
                assert(self.snapshot_ids@.take(i + 1) =~= self.snapshot_ids@.take(i as int).push(
                    sid,
                ));
                assert forall|id: i64| #[trigger]
                    ids@.contains(id) <==> found.contains(id) && !self.snapshot_ids@.take(
                        i + 1,
                    ).contains(id) by {
                    seqs::lemma_push_contains(self.snapshot_ids@.take(i as int), sid, id);
                }
            }
            i = i + 1;
        }
        assert(self.snapshot_ids@.take(self.snapshot_ids.len() as int) =~= self.snapshot_ids@);
        ids
    }
}

/// The snapshots of a table, told apart.
struct SplitSnapshots {
    kept_lists: Vec<String>,
    expired_ids: Vec<i64>,
    expired_set: HashSet<i64>,
    expired_lists: Vec<String>,
}

impl<'a> ExpireSnapshots<'a> {
    /// Tells the retained snapshots from the expired ones.
    fn split_snapshots(&self) -> (split: SplitSnapshots)
        ensures
            seqs::texts(split.kept_lists@) == self.kept_lists(),
            split.expired_ids@ == self.expired_ids(),
            forall|id: i64| #[trigger]
                split.expired_set@.contains(id) <==> self.expired_ids().contains(id),
            seqs::texts(split.expired_lists@) == self.expired_lists(),
    {
        let retained = self.retained_ids();
        let snapshots = &self.table.metadata.snapshots;
        let mut kept_lists: Vec<String> = Vec::new();
        let mut expired_ids: Vec<i64> = Vec::new();
        let mut expired_set: HashSet<i64> = HashSet::new();
        let mut expired_lists: Vec<String> = Vec::new();
        let ghost all = snapshots@;
        let ghost ids = |s: Snapshot| s.snapshot_id;
        let ghost lists = |s: Snapshot| s.manifest_list@;
        let mut i: usize = 0;
        proof {
            reveal(Seq::filter);
            assert(all.take(0) =~= Seq::<Snapshot>::empty());
        }
        while i < snapshots.len()
            invariant
                snapshots == self.table.metadata.snapshots,
                all == snapshots@,
                ids == (|s: Snapshot| s.snapshot_id),
                lists == (|s: Snapshot| s.manifest_list@),
                forall|id: i64| #[trigger] retained@.contains(id) <==> self.keeps(id),
                i <= snapshots.len(),
                seqs::texts(kept_lists@) == all.take(i as int).filter(
                    self.kept_snapshot(),
                ).map_values(lists),
                expired_ids@ == all.take(i as int).filter(self.expired_snapshot()).map_values(ids),
                forall|id: i64| #[trigger]
                    expired_set@.contains(id) <==> expired_ids@.contains(id),
                seqs::texts(expired_lists@) == all.take(i as int).filter(
                    self.expired_snapshot(),
                ).map_values(lists),
            decreases snapshots.len() - i,
        {
            let s = &snapshots[i];
            proof {
                seqs::lemma_filter_step(all, self.kept_snapshot(), i as int);
                seqs::lemma_filter_step(all, self.expired_snapshot(), i as int);
            }
            if retained.contains(&s.snapshot_id) {
                kept_lists.push(s.manifest_list.clone());
                assert(seqs::texts(kept_lists@) =~= all.take(i + 1).filter(
                    self.kept_snapshot(),
                ).map_values(lists));
            } else {
                let ghost before = expired_ids@;
                expired_ids.push(s.snapshot_id);
                expired_set.insert(s.snapshot_id);
                expired_lists.push(s.manifest_list.clone());
                assert(expired_ids@ =~= all.take(i + 1).filter(
                    self.expired_snapshot(),
                ).map_values(ids));
                assert(seqs::texts(expired_lists@) =~= all.take(i + 1).filter(
                    self.expired_snapshot(),
                ).map_values(lists));
                assert forall|id: i64| #[trigger]
                    expired_set@.contains(id) <==> expired_ids@.contains(id) by {
                    seqs::lemma_push_contains(before, s.snapshot_id, id);
                }
            }
            i = i + 1;
        }
        assert(all.take(snapshots.len() as int) =~= all);
        SplitSnapshots { kept_lists, expired_ids, expired_set, expired_lists }
    }

    /// The statistics, among `files`, of expired snapshots: their snapshots and their
    /// paths.
    fn statistics_of_expired(
        &self,
        files: &Vec<StatisticsFile>,
        expired: &HashSet<i64>,
    ) -> (r: (Vec<i64>, Vec<String>))
        requires
            forall|id: i64| #[trigger]
                expired@.contains(id) <==> self.expired_ids().contains(id),
        ensures
            r.0@ == files@.filter(self.of_expired()).map_values(
                |s: StatisticsFile| s.snapshot_id,
            ),
            seqs::texts(r.1@) == seqs::statistics_paths(files@.filter(self.of_expired())),
    {
        let mut ids: Vec<i64> = Vec::new();
        let mut paths: Vec<String> = Vec::new();
        let ghost id_of = |s: StatisticsFile| s.snapshot_id;
        let mut i: usize = 0;
        proof {
            reveal(Seq::filter);
            assert(files@.take(0) =~= Seq::<StatisticsFile>::empty());
        }
        while i < files.len()
            invariant
                id_of == (|s: StatisticsFile| s.snapshot_id),
                forall|id: i64| #[trigger]
                    expired@.contains(id) <==> self.expired_ids().contains(id),
                i <= files.len(),
                ids@ == files@.take(i as int).filter(self.of_expired()).map_values(id_of),
                seqs::texts(paths@) == seqs::statistics_paths(
                    files@.take(i as int).filter(self.of_expired()),
                ),
            decreases files.len() - i,
        {
            let f = &files[i];
            proof {
                seqs::lemma_filter_step(files@, self.of_expired(), i as int);
            }
            if expired.contains(&f.snapshot_id) {
                ids.push(f.snapshot_id);
                paths.push(f.statistics_path.clone());
                assert(ids@ =~= files@.take(i + 1).filter(self.of_expired()).map_values(id_of));
                assert(seqs::texts(paths@) =~= seqs::statistics_paths(
                    files@.take(i + 1).filter(self.of_expired()),
                ));
            }
            i = i + 1;
        }
        assert(files@.take(files.len() as int) =~= files@);
        (ids, paths)
    }

    /// Execute the expire-snapshots action: refuse where garbage collection is
    /// switched off, do nothing where no snapshot expires, and otherwise ask for the
    /// commit that removes the expired snapshots.
    pub fn execute(self) -> (step: ExpireStep<'a>)
        ensures
            gc_disabled(self.table.metadata) ==> {
                &&& step is Finished
                &&& step->Finished_0 is Err
                &&& step->Finished_0->Err_0.says(
                    ErrorKind::FeatureUnsupported,
                    "Cannot expire snapshots: gc.enabled is set to false"@,
                )
            },
            !gc_disabled(self.table.metadata) && self.expired_ids().len() == 0 ==> step
                == ExpireStep::<'a>::Finished(Ok(ExpireSnapshotsResult::nothing())),
            !gc_disabled(self.table.metadata) && self.expired_ids().len() > 0 ==> {
                &&& step is Commit
                &&& step->Commit_0.run.wf()
                &&& step->Commit_0.run.action == self
                &&& step->Commit_0.run.reads() == ExpireReads::start()
                &&& self.is_commit(step->Commit_0.commit)
            },
    {
        let metadata = &self.table.metadata;
        if is_gc_disabled(metadata) {
            return ExpireStep::Finished(
                Err(
                    Error::new(
                        ErrorKind::FeatureUnsupported,
                        "Cannot expire snapshots: gc.enabled is set to false".to_owned(),
                    ),
                ),
            );
        }
        let split = self.split_snapshots();
        if split.expired_ids.len() == 0 {
            return ExpireStep::Finished(Ok(ExpireSnapshotsResult::default()));
        }
        let (ids, paths) = self.statistics_of_expired(&metadata.statistics, &split.expired_set);
        let (partition_ids, partition_paths) = self.statistics_of_expired(
            &metadata.partition_statistics,
            &split.expired_set,
        );
        let commit = TableCommit {
            identifier: self.table.identifier.clone(),
            updates: removal_updates(split.expired_ids, &ids, &partition_ids),
            requirements: vec![TableRequirement::UuidMatch { uuid: metadata.table_uuid }],
        };
        let mut lists = split.kept_lists;
        let kept: usize = lists.len();
        push_texts(&mut lists, &split.expired_lists);
        let mut statistics = paths;
        push_texts(&mut statistics, &partition_paths);
        let run = ExpireRun {
            action: self,
            lists,
            kept,
            lists_read: 0,
            live_manifests: Vec::new(),
            live_entries: Vec::new(),
            candidate_manifests: Vec::new(),
            candidate_set: StringHashSet::new(),
            candidate_entries: Vec::new(),
            queue: Vec::new(),
            queue_read: 0,
            statistics,
        };
        assert(seqs::texts(run.lists@) =~= self.kept_lists() + self.expired_lists());
        assert(seqs::texts(run.statistics@) =~= seqs::statistics_paths(self.expired_statistics())
            + seqs::statistics_paths(self.expired_partition_statistics()));
        assert(run.reads() =~= ExpireReads::start());
        ExpireStep::Commit(ExpireCommit { run, commit })
    }
}

/// The metadata changes that remove snapshots and statistics.
fn removal_updates(
    snapshot_ids: Vec<i64>,
    statistics: &Vec<i64>,
    partition_statistics: &Vec<i64>,
) -> (updates: Vec<TableUpdate>)
    ensures
        updates@.len() == 1 + statistics@.len() + partition_statistics@.len(),
        updates@[0] == (TableUpdate::RemoveSnapshots { snapshot_ids }),
        forall|i: int|
            0 <= i < statistics@.len() ==> #[trigger] updates@[1 + i] == (
            TableUpdate::RemoveStatistics { snapshot_id: statistics@[i] }),
        forall|i: int|
            0 <= i < partition_statistics@.len() ==> #[trigger] updates@[1 + statistics@.len() + i]
                == (TableUpdate::RemovePartitionStatistics {
                snapshot_id: partition_statistics@[i],
            }),
{
    let mut updates: Vec<TableUpdate> = Vec::new();
    updates.push(TableUpdate::RemoveSnapshots { snapshot_ids });
    let mut i: usize = 0;
    while i < statistics.len()
        invariant
            i <= statistics.len(),
            updates@.len() == 1 + i,
            updates@[0] == (TableUpdate::RemoveSnapshots { snapshot_ids }),
            forall|j: int|
                0 <= j < i ==> #[trigger] updates@[1 + j] == (TableUpdate::RemoveStatistics {
                    snapshot_id: statistics@[j],
                }),
        decreases statistics.len() - i,
    {
        updates.push(TableUpdate::RemoveStatistics { snapshot_id: statistics[i] });
        i = i + 1;
    }
    let mut k: usize = 0;
    while k < partition_statistics.len()
        invariant
            k <= partition_statistics.len(),
            updates@.len() == 1 + statistics@.len() + k,
            updates@[0] == (TableUpdate::RemoveSnapshots { snapshot_ids }),
            forall|j: int|
                0 <= j < statistics@.len() ==> #[trigger] updates@[1 + j] == (
                TableUpdate::RemoveStatistics { snapshot_id: statistics@[j] }),
            forall|j: int|
                0 <= j < k ==> #[trigger] updates@[1 + statistics@.len() + j] == (
                TableUpdate::RemovePartitionStatistics { snapshot_id: partition_statistics@[j] }),
        decreases partition_statistics.len() - k,
    {
        updates.push(
            TableUpdate::RemovePartitionStatistics { snapshot_id: partition_statistics[k] },
        );
        k = k + 1;
    }
    updates
}

/// The files of a deletion, told by content.
struct FileDeletions {
    paths: Vec<String>,
    data: u64,
    equality_deletes: u64,
    position_deletes: u64,
}

/// The files among `candidates` that no live entry refers to, each once.
fn unreferenced_files(
    live: &Vec<ManifestEntry>,
    candidates: &Vec<ManifestEntry>,
) -> (r: FileDeletions)
    ensures
        ({
            let files = seqs::distinct_entries(candidates@.filter(not_live(live@)));
            &&& seqs::texts(r.paths@) == seqs::entry_paths(files)
            &&& r.data == seqs::count_content(files, DataContentType::Data)
            &&& r.equality_deletes == seqs::count_content(files, DataContentType::EqualityDeletes)
            &&& r.position_deletes == seqs::count_content(files, DataContentType::PositionDeletes)
        }),
{
    let live_set = live_paths(live);
    let mut seen = StringHashSet::new();
    let mut r = FileDeletions {
        paths: Vec::new(),
        data: 0,
        equality_deletes: 0,
        position_deletes: 0,
    };
    let ghost keep = not_live(live@);
    let mut i: usize = 0;
    proof {
        reveal(Seq::filter);
        assert(candidates@.take(0) =~= Seq::<ManifestEntry>::empty());
    }
    while i < candidates.len()
        invariant
            keep == not_live(live@),
            forall|p: Seq<char>| #[trigger] live_set@.contains(p) <==> seqs::is_live(live@, p),
            i <= candidates.len(),
            ({
                let kept = candidates@.take(i as int).filter(keep);
                let files = seqs::distinct_entries(kept);
                &&& forall|p: Seq<char>| #[trigger]
                    seen@.contains(p) <==> seqs::entry_paths(kept).contains(p)
                &&& seqs::texts(r.paths@) == seqs::entry_paths(files)
                &&& r.data == seqs::count_content(files, DataContentType::Data)
                &&& r.equality_deletes == seqs::count_content(
                    files,
                    DataContentType::EqualityDeletes,
                )
                &&& r.position_deletes == seqs::count_content(
                    files,
                    DataContentType::PositionDeletes,
                )
            }),
        decreases candidates.len() - i,
    {
        let e = &candidates[i];
        let ghost kept = candidates@.take(i as int).filter(keep);
        let ghost files = seqs::distinct_entries(kept);
        proof {
            seqs::lemma_filter_step(candidates@, keep, i as int);
            seqs::lemma_count_content(files);
            assert(seqs::texts(r.paths@).len() == r.paths@.len());
            assert(seqs::entry_paths(files).len() == files.len());
        }
        if !live_set.contains(e.data_file.file_path.as_str()) {
            let ghost more = kept.push(*e);
            assert(more.drop_last() =~= kept);
            assert(seqs::entry_paths(more) == seqs::entry_paths(kept).push(e.path()));
            if seen.insert(e.data_file.file_path.clone()) {
                assert(seqs::distinct_entries(more) == files.push(*e));
                assert(files.push(*e).drop_last() =~= files);
                r.paths.push(e.data_file.file_path.clone());
                proof {
                    assert(seqs::texts(r.paths@).len() == r.paths@.len());
                    assert(r.paths.len() == files.len() + 1);
                }
                match e.data_file.content {
                    DataContentType::Data => {
                        r.data = r.data + 1;
                    },
                    DataContentType::PositionDeletes => {
                        r.position_deletes = r.position_deletes + 1;
                    },
                    DataContentType::EqualityDeletes => {
                        r.equality_deletes = r.equality_deletes + 1;
                    },
                }
            }
            assert forall|p: Seq<char>| #[trigger]
                seen@.contains(p) <==> seqs::entry_paths(more).contains(p) by {
                seqs::lemma_push_contains(seqs::entry_paths(kept), e.path(), p);
            }
        }
        i = i + 1;
    }
    assert(candidates@.take(candidates.len() as int) =~= candidates@);
    r
}

impl<'a> ExpireRun<'a> {
    /// The manifest lists that only expired snapshots refer to.
    fn unreferenced_lists(&self) -> (r: Vec<String>)
        requires
            self.wf(),
        ensures
            seqs::texts(r@) == unreferenced_lists(self.action),
    {
        assert(seqs::texts(self.lists@).len() == self.lists@.len());
        let kept_set = text_set(&self.lists, self.kept);
        let ghost kept = self.action.kept_lists();
        let ghost expired = self.action.expired_lists();
        let ghost keep = seqs::not_in(kept);
        let mut seen = StringHashSet::new();
        let mut r: Vec<String> = Vec::new();
        let mut i: usize = self.kept;
        proof {
            reveal(Seq::filter);
            assert(seqs::texts(self.lists@).take(self.kept as int) =~= kept);
            assert(expired.take(0) =~= Seq::<Seq<char>>::empty());
        }
        while i < self.lists.len()
            invariant
                self.wf(),
                kept == self.action.kept_lists(),
                expired == self.action.expired_lists(),
                keep == seqs::not_in(kept),
                forall|p: Seq<char>| #[trigger] kept_set@.contains(p) <==> kept.contains(p),
                self.kept <= i <= self.lists.len(),
                forall|p: Seq<char>| #[trigger]
                    seen@.contains(p) <==> seqs::distinct(expired.take(i - self.kept)).contains(p),
                seqs::texts(r@) == seqs::distinct(expired.take(i - self.kept)).filter(keep),
            decreases self.lists.len() - i,
        {
            let ghost k = i - self.kept;
            let ghost before = seqs::distinct(expired.take(k));
            proof {
                assert(seqs::texts(self.lists@).len() == self.lists@.len());
                assert(seqs::texts(self.lists@)[i as int] == expired[k]);
                seqs::lemma_extend_distinct_step(Seq::empty(), expired, k);
                let more = before.push(expired[k]);
                assert(more.take(before.len() as int) =~= before);
                assert(more.take(before.len() as int + 1) =~= more);
                seqs::lemma_filter_step(more, keep, before.len() as int);
                assert forall|p: Seq<char>| #[trigger]
                    more.contains(p) <==> before.contains(p) || p == expired[k] by {
                    seqs::lemma_push_contains(before, expired[k], p);
                }
            }
            if seen.insert(self.lists[i].clone()) {
                if !kept_set.contains(self.lists[i].as_str()) {
                    r.push(self.lists[i].clone());
                }
            }
            i = i + 1;
        }
        assert(seqs::texts(self.lists@).len() == self.lists@.len());
        assert(expired.take(self.lists.len() - self.kept) =~= expired);
        r
    }

    /// What to delete, and the counts that go with it.
    fn plan_deletions(&self) -> (plan: (Vec<String>, ExpireSnapshotsResult))
        requires
            self.wf(),
        ensures
            seqs::texts(plan.0@) == deletions(self.action, self.reads()),
            plan.1 == outcome(self.action, self.reads()),
    {
        let files = unreferenced_files(&self.live_entries, &self.candidate_entries);
        let manifests = texts_outside(&self.candidate_manifests, &self.live_manifests);
        let lists = self.unreferenced_lists();
        let result = ExpireSnapshotsResult {
            deleted_data_files_count: files.data,
            deleted_equality_delete_files_count: files.equality_deletes,
            deleted_position_delete_files_count: files.position_deletes,
            deleted_manifest_files_count: manifests.len() as u64,
            deleted_manifest_lists_count: lists.len() as u64,
            deleted_statistics_files_count: self.statistics.len() as u64,
        };
        proof {
            assert(seqs::texts(manifests@).len() == manifests@.len());
            assert(seqs::texts(lists@).len() == lists@.len());
            assert(seqs::texts(self.statistics@).len() == self.statistics@.len());
        }
        let mut paths = files.paths;
        proof {
            seqs::lemma_texts_add(paths@, manifests@);
            seqs::lemma_texts_add(paths@ + manifests@, lists@);
            seqs::lemma_texts_add(paths@ + manifests@ + lists@, self.statistics@);
        }
        push_texts(&mut paths, &manifests);
        push_texts(&mut paths, &lists);
        push_texts(&mut paths, &self.statistics);
        assert(seqs::texts(paths@) =~= deletions(self.action, self.reads()));
        (paths, result)
    }

    /// Goes on to what comes next.
    fn advance(self) -> (step: ExpireStep<'a>)
        requires
            self.wf(),
        ensures
            continues(self.action, self.reads(), step),
    {
        assert(seqs::texts(self.lists@).len() == self.lists@.len());
        if self.queue_read < self.queue.len() {
            ExpireStep::ReadManifest(ExpireManifestPending { run: self })
        } else if self.lists_read < self.lists.len() {
            ExpireStep::LoadManifestList(ExpireListPending { run: self })
        } else {
            let (paths, result) = self.plan_deletions();
            ExpireStep::Delete { paths, result }
        }
    }
}

impl<'a> ExpireCommit<'a> {
    /// The commit for the catalog.
    pub fn table_commit(&self) -> (commit: &TableCommit)
        ensures
            *commit == self.commit,
    {
        &self.commit
    }

    /// Goes on after the catalog's answer: an error ends the action, and so does
    /// success where no files are to be deleted.
    pub fn resume(self, outcome: Result<(), Error>) -> (step: ExpireStep<'a>)
        requires
            self.run.wf(),
            self.run.reads() == ExpireReads::start(),
        ensures
            outcome matches Err(e) ==> step == ExpireStep::<'a>::Finished(Err(e)),
            outcome is Ok && !self.run.action.clean_expired_metadata ==> step == ExpireStep::<
                'a,
            >::Finished(Ok(ExpireSnapshotsResult::nothing())),
            outcome is Ok && self.run.action.clean_expired_metadata ==> continues(
                self.run.action,
                ExpireReads::start(),
                step,
            ),
    {
        match outcome {
            Err(e) => ExpireStep::Finished(Err(e)),
            Ok(_) => {
                if self.run.action.clean_expired_metadata {
                    self.run.advance()
                } else {
                    ExpireStep::Finished(Ok(ExpireSnapshotsResult::default()))
                }
            },
        }
    }
}

impl<'a> ExpireListPending<'a> {
    /// A list is left to load, and no manifest is waiting to be read.
    pub open spec fn ready(self) -> bool {
        &&& self.run.wf()
        &&& self.run.reads().queue.len() == 0
        &&& self.run.reads().lists_read < self.run.action.kept_lists().len()
            + self.run.action.expired_lists().len()
    }

    /// Where the manifest list is.
    pub fn path(&self) -> (path: &str)
        requires
            self.ready(),
        ensures
            path@ == (self.run.action.kept_lists()
                + self.run.action.expired_lists())[self.run.lists_read as int],
    {
        assert(seqs::texts(self.run.lists@).len() == self.run.lists@.len());
        assert(seqs::texts(self.run.lists@)[self.run.lists_read as int]
            == self.run.lists@[self.run.lists_read as int]@);
        self.run.lists[self.run.lists_read].as_str()
    }

    /// Goes on with the manifests of the list; an error ends the action.
    pub fn resume(self, outcome: Result<Vec<ManifestFile>, Error>) -> (step: ExpireStep<'a>)
        requires
            self.ready(),
        ensures
            outcome matches Err(e) ==> step == ExpireStep::<'a>::Finished(Err(e)),
            outcome matches Ok(manifests) ==> continues(
                self.run.action,
                self.run.reads().with_list(self.run.action, manifests@),
                step,
            ),
    {
        let manifests = match outcome {
            Err(e) => {
                return ExpireStep::Finished(Err(e));
            },
            Ok(manifests) => manifests,
        };
        let paths = list_manifest_paths(&manifests);
        let ghost before = self.run.reads();
        let mut run = self.run;
        if run.lists_read < run.kept {
            proof {
                seqs::lemma_texts_add(run.live_manifests@, paths@);
            }
            push_texts(&mut run.live_manifests, &paths);
            run.queue = paths;
        } else {
            let ghost all = seqs::texts(paths@);
            let ghost seen = seqs::texts(run.candidate_manifests@);
            let mut queue: Vec<String> = Vec::new();
            let mut i: usize = 0;
            assert(seen.skip(seen.len() as int) =~= Seq::<Seq<char>>::empty());
            assert(all.take(0) =~= Seq::<Seq<char>>::empty());
            while i < paths.len()
                invariant
                    all == seqs::texts(paths@),
                    i <= paths.len(),
                    seen.len() <= seqs::texts(run.candidate_manifests@).len(),
                    seqs::texts(run.candidate_manifests@) == seqs::extend_distinct(
                        seen,
                        all.take(i as int),
                    ),
                    seqs::texts(queue@) == seqs::texts(run.candidate_manifests@).skip(
                        seen.len() as int,
                    ),
                    forall|p: Seq<char>| #[trigger]
                        run.candidate_set@.contains(p) <==> seqs::texts(
                            run.candidate_manifests@,
                        ).contains(p),
                    run == (ExpireRun {
                        candidate_manifests: run.candidate_manifests,
                        candidate_set: run.candidate_set,
                        ..self.run
                    }),
                decreases paths.len() - i,
            {
                let ghost held = seqs::texts(run.candidate_manifests@);
                proof {
                    seqs::lemma_extend_distinct_step(seen, all, i as int);
                    assert(held.push(all[i as int]).skip(seen.len() as int) =~= held.skip(
                        seen.len() as int,
                    ).push(all[i as int]));
                    assert forall|p: Seq<char>| #[trigger]
                        held.push(all[i as int]).contains(p) <==> held.contains(p) || p
                            == all[i as int] by {
                        seqs::lemma_push_contains(held, all[i as int], p);
                    }
                }
                if run.candidate_set.insert(paths[i].clone()) {
                    run.candidate_manifests.push(paths[i].clone());
                    queue.push(paths[i].clone());
                }
                i = i + 1;
            }
            assert(all.take(paths.len() as int) =~= all);
            run.queue = queue;
        }
        run.queue_read = 0;
        assert(seqs::texts(run.lists@).len() == run.lists@.len());
        assert(run.lists_read < run.lists.len());
        run.lists_read = run.lists_read + 1;
        assert(seqs::texts(run.queue@).skip(0) =~= seqs::texts(run.queue@));
        assert(run.reads() =~= before.with_list(self.run.action, manifests@));
        run.advance()
    }
}

impl<'a> ExpireManifestPending<'a> {
    /// A manifest is waiting to be read.
    pub open spec fn ready(self) -> bool {
        &&& self.run.wf()
        &&& self.run.reads().queue.len() > 0
    }

    /// Where the manifest is.
    pub fn path(&self) -> (path: &str)
        requires
            self.ready(),
        ensures
            path@ == self.run.reads().queue[0],
    {
        assert(seqs::texts(self.run.queue@).len() == self.run.queue@.len());
        self.run.queue[self.run.queue_read].as_str()
    }

    /// Goes on with the entries of the manifest; an error ends the action.
    pub fn resume(self, outcome: Result<Vec<ManifestEntry>, Error>) -> (step: ExpireStep<'a>)
        requires
            self.ready(),
        ensures
            outcome matches Err(e) ==> step == ExpireStep::<'a>::Finished(Err(e)),
            outcome matches Ok(entries) ==> continues(
                self.run.action,
                self.run.reads().with_entries(self.run.action, entries@),
                step,
            ),
    {
        let mut entries = match outcome {
            Err(e) => {
                return ExpireStep::Finished(Err(e));
            },
            Ok(entries) => entries,
        };
        let ghost before = self.run.reads();
        let ghost read = entries@;
        let mut run = self.run;
        assert(seqs::texts(run.queue@).len() == run.queue@.len());
        if run.lists_read <= run.kept {
            run.live_entries.append(&mut entries);
        } else {
            run.candidate_entries.append(&mut entries);
        }
        assert(run.queue_read < run.queue.len());
        run.queue_read = run.queue_read + 1;
        assert(run.reads() =~= before.with_entries(self.run.action, read));
        run.advance()
    }
}

} // verus!
