//! Replacing data files by others in one snapshot.

use vstd::hash_map::StringHashMap;
use vstd::hash_set::StringHashSet;
use vstd::prelude::*;
use vstd::string::*;

use crate::error::{Error, ErrorKind};
use crate::existing_manifests;
use crate::existing_manifests::{begin_carrying, CarryReads, ExistingManifestStep};
use crate::model::{
    DataFile, ManifestContentType, ManifestEntry, ManifestFile, ManifestStatus, Operation,
    Properties, Snapshot, Table, TableMetadata,
};
use crate::outside;
use crate::outside::uuid_now_v7;
use crate::seqs;
use crate::seqs::{
    list_distinct, list_entry_paths, list_file_paths, list_manifest_paths, text_set, texts_outside,
};
use crate::text;
use crate::text::{join, signed_decimal_text};
use crate::transaction::SnapshotRequest;

verus! {

broadcast use crate::seqs::lemma_map_push;

/// `RewriteFilesAction` is a transaction action that atomically replaces a set
/// of data files with a new set. This is the low-level primitive used by
/// compaction (RewriteDataFiles): it deletes the old files and adds the new
/// files in a single atomic snapshot.
///
/// **Critical safety property:** if any file-to-delete is not present in the
/// current snapshot, the commit fails immediately. This prevents silent data
/// loss from double-deleting files.
pub struct RewriteFilesAction {
    pub files_to_delete: Vec<DataFile>,
    pub files_to_add: Vec<DataFile>,
    pub starting_snapshot_id: Option<i64>,
    pub data_sequence_number: Option<i64>,
    pub commit_uuid: Option<u128>,
    pub snapshot_properties: Properties,
}

/// What a rewrite of files does to the current snapshot.
pub struct RewriteFilesOperation {
    pub files_to_delete: Vec<DataFile>,
    /// If set, the snapshot from which the rewrite was planned. Used to
    /// validate that the table has not changed incompatibly since planning.
    pub starting_snapshot_id: Option<i64>,
    /// If set, validate that no new delete files have been added since this
    /// sequence number for partitions containing files being rewritten.
    pub data_sequence_number: Option<i64>,
}

impl RewriteFilesAction {
    /// Create an action that replaces nothing yet.
    pub fn new() -> (action: Self)
        ensures
            action.files_to_delete@ == Seq::<DataFile>::empty(),
            action.files_to_add@ == Seq::<DataFile>::empty(),
            action.starting_snapshot_id is None,
            action.data_sequence_number is None,
            action.commit_uuid is None,
            action.snapshot_properties@ == Map::<Seq<char>, String>::empty(),
    {
        Self {
            files_to_delete: Vec::new(),
            files_to_add: Vec::new(),
            starting_snapshot_id: None,
            data_sequence_number: None,
            commit_uuid: None,
            snapshot_properties: StringHashMap::new(),
        }
    }

    /// Set the data files that should be removed from the current snapshot.
    pub fn delete_files(self, files: Vec<DataFile>) -> (action: Self)
        ensures
            action.files_to_delete@ == self.files_to_delete@ + files@,
            action == (Self { files_to_delete: action.files_to_delete, ..self }),
    {
        let mut action = self;
        let mut files = files;
        action.files_to_delete.append(&mut files);
        action
    }

    /// Set the data files that should be added in place of the deleted files.
    pub fn add_files(self, files: Vec<DataFile>) -> (action: Self)
        ensures
            action.files_to_add@ == self.files_to_add@ + files@,
            action == (Self { files_to_add: action.files_to_add, ..self }),
    {
        let mut action = self;
        let mut files = files;
        action.files_to_add.append(&mut files);
        action
    }

    /// Set the snapshot id to validate against. If set, the commit will check
    /// that the files to delete are present in this specific snapshot.
    pub fn validate_from_snapshot(self, snapshot_id: i64) -> (action: Self)
        ensures
            action == (Self { starting_snapshot_id: Some(snapshot_id), ..self }),
    {
        Self { starting_snapshot_id: Some(snapshot_id), ..self }
    }

    /// Set a specific data sequence number for the rewrite operation.
    pub fn data_sequence_number(self, seq_num: i64) -> (action: Self)
        ensures
            action == (Self { data_sequence_number: Some(seq_num), ..self }),
    {
        Self { data_sequence_number: Some(seq_num), ..self }
    }

    /// Whether there is no file to delete and none to add.
    pub open spec fn is_empty(self) -> bool {
        self.files_to_delete@.len() == 0 && self.files_to_add@.len() == 0
    }

    /// Whether `r` asks for the snapshot that this action describes. The added files
    /// are to be validated where there are any.
    pub open spec fn is_request(self, r: SnapshotRequest<RewriteFilesOperation>) -> bool {
        &&& r.snapshot_properties == self.snapshot_properties
        &&& r.added_data_files == self.files_to_add
        &&& r.validate_added_files == (self.files_to_add@.len() > 0)
        &&& r.operation == (RewriteFilesOperation {
            files_to_delete: self.files_to_delete,
            starting_snapshot_id: self.starting_snapshot_id,
            data_sequence_number: self.data_sequence_number,
        })
    }

    /// Asks for the snapshot, under the given commit UUID where the action has none.
    pub fn commit_as(self, fresh: u128) -> (r: Result<
        SnapshotRequest<RewriteFilesOperation>,
        Error,
    >)
        ensures
            r is Err <==> self.is_empty(),
            r matches Err(e) ==> e.says(
                ErrorKind::DataInvalid,
                "Rewrite files action requires at least one file to delete or add"@,
            ),
            r matches Ok(request) ==> {
                &&& self.is_request(request)
                &&& request.commit_uuid == (match self.commit_uuid {
                    Some(u) => u,
                    None => fresh,
                })
            },
    {
        if self.files_to_delete.len() == 0 && self.files_to_add.len() == 0 {
            return Err(
                Error::new(
                    ErrorKind::DataInvalid,
                    "Rewrite files action requires at least one file to delete or add".to_owned(),
                ),
            );
        }
        let commit_uuid: u128 = match self.commit_uuid {
            Some(u) => u,
            None => fresh,
        };
        let validate_added_files = self.files_to_add.len() > 0;
        Ok(
            SnapshotRequest {
                commit_uuid,
                snapshot_properties: self.snapshot_properties,
                added_data_files: self.files_to_add,
                validate_added_files,
                operation: RewriteFilesOperation {
                    files_to_delete: self.files_to_delete,
                    starting_snapshot_id: self.starting_snapshot_id,
                    data_sequence_number: self.data_sequence_number,
                },
            },
        )
    }

    /// Asks for the snapshot; the commit UUID is a new version 7 one unless the action
    /// has one.
    pub fn commit(self) -> (r: Result<SnapshotRequest<RewriteFilesOperation>, Error>)
        ensures
            r is Err <==> self.is_empty(),
            r matches Err(e) ==> e.says(
                ErrorKind::DataInvalid,
                "Rewrite files action requires at least one file to delete or add"@,
            ),
            r matches Ok(request) ==> {
                &&& self.is_request(request)
                &&& match self.commit_uuid {
                    Some(u) => request.commit_uuid == u,
                    None => outside::is_uuid_v7(request.commit_uuid),
                }
            },
    {
        let fresh: u128 = match self.commit_uuid {
            Some(u) => u,
            None => uuid_now_v7(),
        };
        self.commit_as(fresh)
    }
}

/// The entry that records the deletion of the file of `e`.
pub open spec fn deleted_entry(e: ManifestEntry) -> ManifestEntry {
    ManifestEntry {
        status: ManifestStatus::Deleted,
        snapshot_id: Some(number_or_zero(e.snapshot_id)),
        sequence_number: Some(number_or_zero(e.sequence_number)),
        file_sequence_number: Some(number_or_zero(e.file_sequence_number)),
        data_file: e.data_file,
    }
}

/// A number, or 0 where it is not known.
pub open spec fn number_or_zero(n: Option<i64>) -> i64 {
    match n {
        Some(n) => n,
        None => 0,
    }
}

/// The manifests that list delete files.
pub open spec fn lists_deletes() -> spec_fn(ManifestFile) -> bool {
    |m: ManifestFile| m.content == ManifestContentType::Deletes
}

/// The message for a starting snapshot that the table has left behind.
pub open spec fn not_ancestor_message(starting: i64, current: i64) -> Seq<char> {
    "Cannot commit rewrite: starting snapshot "@ + text::signed_decimal(starting as int)
        + " is not an ancestor of the current snapshot "@ + text::signed_decimal(current as int)
        + ". The table may have been rolled back or the snapshot expired."@
}

/// The message for files to delete that the current snapshot does not have.
pub open spec fn missing_message(missing: Seq<Seq<char>>) -> Seq<char> {
    "Cannot commit rewrite: the following files to delete were not found in the current snapshot: "@
        + text::joined(missing, ", "@)
}

/// The message for files to delete that the starting snapshot does not have.
pub open spec fn missing_at_start_message(starting: i64, missing: Seq<Seq<char>>) -> Seq<char> {
    "Cannot commit rewrite: the following files to delete were not found in the starting snapshot "@
        + text::signed_decimal(starting as int) + ": "@ + text::joined(missing, ", "@)
}

/// The message for a delete file that was added since planning.
pub open spec fn new_delete_message(path: Seq<char>, found: i64, planned: i64) -> Seq<char> {
    "Cannot commit rewrite: found new delete file "@ + path + " (sequence_number="@
        + text::signed_decimal(found as int)
        + ") added after the planning snapshot (data_sequence_number="@ + text::signed_decimal(
        planned as int,
    ) + "). A concurrent operation added deletes for data files being rewritten."@
}

impl RewriteFilesOperation {
    /// The paths of the files to delete.
    pub open spec fn paths(self) -> Seq<Seq<char>> {
        seqs::file_paths(self.files_to_delete@)
    }

    /// Lets through the entries of files to delete that belong to a snapshot.
    pub open spec fn hits(self) -> spec_fn(ManifestEntry) -> bool {
        |e: ManifestEntry| e.alive() && self.paths().contains(e.path())
    }

    /// Lets through the entries of other files that belong to a snapshot.
    pub open spec fn stays(self) -> spec_fn(ManifestEntry) -> bool {
        |e: ManifestEntry| e.alive() && !self.paths().contains(e.path())
    }

    /// The deletions that `entries` call for.
    pub open spec fn deletions(self, entries: Seq<ManifestEntry>) -> Seq<ManifestEntry> {
        entries.filter(self.hits()).map_values(|e: ManifestEntry| deleted_entry(e))
    }

    /// The files to delete that are not in `found`, each once.
    pub open spec fn missing(self, found: Seq<Seq<char>>) -> Seq<Seq<char>> {
        seqs::distinct(self.paths()).filter(seqs::not_in(found))
    }

    /// Whether one of the files to delete has this partition value.
    pub open spec fn rewrites_partition(self, partition: Seq<char>) -> bool {
        exists|i: int|
            0 <= i < self.files_to_delete@.len() && (
            #[trigger] self.files_to_delete@[i]).partition@ == partition
    }

    /// Whether the entry is for a delete file that may apply to the files being
    /// rewritten and was added since planning.
    pub open spec fn is_new_delete(self, e: ManifestEntry) -> bool {
        match self.data_sequence_number {
            Some(n) => {
                &&& number_or_zero(e.sequence_number) > n
                &&& e.alive()
                &&& self.rewrites_partition(e.data_file.partition@)
            },
            None => false,
        }
    }

    /// The position of the first such entry, not before `from`.
    pub open spec fn first_new_delete(self, entries: Seq<ManifestEntry>, from: int) -> Option<int>
        decreases entries.len() - from,
    {
        if from >= entries.len() {
            None
        } else if self.is_new_delete(entries[from]) {
            Some(from)
        } else {
            self.first_new_delete(entries, from + 1)
        }
    }

    /// Whether the starting snapshot, where one is set, is the current one or an
    /// ancestor of it that the table still has.
    pub open spec fn starts_from_ancestor(self, metadata: TableMetadata) -> bool {
        match self.starting_snapshot_id {
            Some(id) => metadata.reaches(metadata.current()->0.snapshot_id, id)
                && metadata.snapshot(id) is Some,
            None => true,
        }
    }

    /// Whether a snapshot other than the current one has to be looked at.
    pub open spec fn starts_earlier(self, metadata: TableMetadata) -> bool {
        match self.starting_snapshot_id {
            Some(id) => id != metadata.current()->0.snapshot_id,
            None => false,
        }
    }
}

/// What is being read to find the deletions.
#[derive(Debug, Clone, Copy, PartialEq, Eq, Structural)]
pub enum DeletePhase {
    /// The current snapshot, for the files to delete.
    Current,
    /// The snapshot from which the rewrite was planned, for the files to delete.
    Starting,
    /// The current snapshot, for delete files that were added since planning.
    Deletes,
}

/// What has been read so far to find the deletions.
#[verifier::ext_equal]
pub struct DeleteReads {
    pub phase: DeletePhase,
    /// The manifests of the current snapshot.
    pub manifests: Seq<ManifestFile>,
    /// The deletions that those of them call for that have been read.
    pub deleted: Seq<ManifestEntry>,
    /// The files known to belong to the starting snapshot.
    pub starting_paths: Seq<Seq<char>>,
    /// The manifests that are still to be read in this phase.
    pub queue: Seq<Seq<char>>,
}

pub open spec fn is_alive_entry() -> spec_fn(ManifestEntry) -> bool {
    |e: ManifestEntry| e.alive()
}

/// The files that belong to the snapshots which `entries` come from.
pub open spec fn alive_paths(entries: Seq<ManifestEntry>) -> Seq<Seq<char>> {
    seqs::entry_paths(entries.filter(is_alive_entry()))
}

impl DeleteReads {
    /// Nothing has been read.
    pub open spec fn start() -> DeleteReads {
        DeleteReads {
            phase: DeletePhase::Current,
            manifests: Seq::empty(),
            deleted: Seq::empty(),
            starting_paths: Seq::empty(),
            queue: Seq::empty(),
        }
    }

    /// The manifest list of this phase was read.
    pub open spec fn with_list(self, manifests: Seq<ManifestFile>) -> DeleteReads {
        let queue = seqs::manifest_paths(manifests);
        if self.phase == DeletePhase::Current {
            DeleteReads { manifests, queue, ..self }
        } else {
            DeleteReads { queue, ..self }
        }
    }

    /// The next manifest of the queue was read.
    pub open spec fn with_entries(
        self,
        operation: RewriteFilesOperation,
        entries: Seq<ManifestEntry>,
    ) -> DeleteReads {
        let queue = self.queue.drop_first();
        match self.phase {
            DeletePhase::Current => DeleteReads {
                deleted: self.deleted + operation.deletions(entries),
                queue,
                ..self
            },
            DeletePhase::Starting => DeleteReads {
                starting_paths: self.starting_paths + alive_paths(entries),
                queue,
                ..self
            },
            DeletePhase::Deletes => DeleteReads { queue, ..self },
        }
    }

    /// The manifests of the current snapshot that list delete files.
    pub open spec fn delete_manifests(self) -> Seq<Seq<char>> {
        seqs::manifest_paths(self.manifests.filter(lists_deletes()))
    }
}

/// What is needed next to find the deletions.
pub enum DeleteEntriesStep<'a> {
    /// The deletions are known.
    Finished(Result<Vec<ManifestEntry>, Error>),
    /// Load a manifest list.
    LoadManifestList(DeleteListPending<'a>),
    /// Read a manifest.
    ReadManifest(DeleteManifestPending<'a>),
}

/// The search for the deletions, under way.
pub struct DeleteRun<'a> {
    pub operation: &'a RewriteFilesOperation,
    pub table: &'a Table,
    pub current: &'a Snapshot,
    /// The starting snapshot, where it is not the current one.
    pub starting: Option<&'a Snapshot>,
    /// The paths of the files to delete.
    pub paths: StringHashSet,
    /// The partition values of the files to delete.
    pub partitions: StringHashSet,
    pub phase: DeletePhase,
    pub manifests: Vec<ManifestFile>,
    pub deleted: Vec<ManifestEntry>,
    pub starting_paths: Vec<String>,
    pub queue: Vec<String>,
    pub queue_read: usize,
}

impl<'a> DeleteRun<'a> {
    /// What has been read so far.
    pub open spec fn reads(self) -> DeleteReads {
        DeleteReads {
            phase: self.phase,
            manifests: self.manifests@,
            deleted: self.deleted@,
            starting_paths: seqs::texts(self.starting_paths@),
            queue: seqs::texts(self.queue@).skip(self.queue_read as int),
        }
    }

    /// The run is consistent.
    pub open spec fn wf(self) -> bool {
        &&& self.table.metadata.current() == Some(*self.current)
        &&& self.operation.starts_earlier(self.table.metadata) <==> self.starting is Some
        &&& self.starting matches Some(s) ==> self.table.metadata.snapshot(
            self.operation.starting_snapshot_id->0,
        ) == Some(*s)
        &&& self.phase == DeletePhase::Starting ==> self.starting is Some
        &&& forall|p: Seq<char>| #[trigger]
            self.paths@.contains(p) <==> self.operation.paths().contains(p)
        &&& forall|p: Seq<char>| #[trigger]
            self.partitions@.contains(p) <==> self.operation.rewrites_partition(p)
        &&& self.queue_read <= self.queue@.len()
    }

    /// The run is at `reads`.
    pub open spec fn is_at(
        self,
        operation: RewriteFilesOperation,
        table: Table,
        reads: DeleteReads,
    ) -> bool {
        &&& self.wf()
        &&& *self.operation == operation
        &&& *self.table == table
        &&& self.reads() == reads
    }
}

/// The manifest list of a snapshot is waiting to be loaded.
pub struct DeleteListPending<'a> {
    pub run: DeleteRun<'a>,
}

/// A manifest is waiting to be read.
pub struct DeleteManifestPending<'a> {
    pub run: DeleteRun<'a>,
}

/// Whether the step reports that the request is not valid, with this message.
pub open spec fn refuses(step: DeleteEntriesStep, message: Seq<char>) -> bool {
    &&& step is Finished
    &&& step->Finished_0 is Err
    &&& step->Finished_0->Err_0.says(ErrorKind::DataInvalid, message)
}

/// What comes next once `reads` have been made: the manifests of the queue; then, if
/// no file is missing, the starting snapshot, where it is another one; then, if no
/// file is missing there, the delete files, where a sequence number is set; and then
/// the result.
pub open spec fn continues(
    operation: RewriteFilesOperation,
    table: Table,
    reads: DeleteReads,
    step: DeleteEntriesStep,
) -> bool {
    if reads.queue.len() > 0 {
        &&& step is ReadManifest
        &&& step->ReadManifest_0.run.is_at(operation, table, reads)
    } else if reads.phase == DeletePhase::Current && operation.missing(
        seqs::entry_paths(reads.deleted),
    ).len() > 0 {
        refuses(step, missing_message(operation.missing(seqs::entry_paths(reads.deleted))))
    } else if reads.phase == DeletePhase::Current && operation.starts_earlier(table.metadata) {
        &&& step is LoadManifestList
        &&& step->LoadManifestList_0.run.is_at(
            operation,
            table,
            (DeleteReads { phase: DeletePhase::Starting, ..reads }),
        )
    } else if reads.phase == DeletePhase::Starting && operation.missing(
        reads.starting_paths,
    ).len() > 0 {
        refuses(
            step,
            missing_at_start_message(
                operation.starting_snapshot_id->0,
                operation.missing(reads.starting_paths),
            ),
        )
    } else if reads.phase != DeletePhase::Deletes && operation.data_sequence_number is Some
        && reads.delete_manifests().len() > 0 {
        &&& step is ReadManifest
        &&& step->ReadManifest_0.run.is_at(
            operation,
            table,
            (DeleteReads {
                phase: DeletePhase::Deletes,
                queue: reads.delete_manifests(),
                ..reads
            }),
        )
    } else {
        &&& step is Finished
        &&& step->Finished_0 is Ok
        &&& step->Finished_0->Ok_0@ == reads.deleted
    }
}

/// Composes the message for a starting snapshot that the table has left behind.
fn compose_not_ancestor_message(starting: i64, current: i64) -> (message: String)
    ensures
        message@ == not_ancestor_message(starting, current),
{
    let mut message = "Cannot commit rewrite: starting snapshot ".to_owned();
    message.append(signed_decimal_text(starting).as_str());
    message.append(" is not an ancestor of the current snapshot ");
    message.append(signed_decimal_text(current).as_str());
    message.append(". The table may have been rolled back or the snapshot expired.");
    message
}

/// Composes the message for files to delete that the current snapshot does not have.
fn compose_missing_message(missing: &Vec<String>) -> (message: String)
    ensures
        message@ == missing_message(seqs::texts(missing@)),
{
    let mut message =
        "Cannot commit rewrite: the following files to delete were not found in the current snapshot: ".to_owned();
    message.append(join(missing, ", ").as_str());
    message
}

/// Composes the message for files to delete that the starting snapshot does not have.
fn compose_missing_at_start_message(starting: i64, missing: &Vec<String>) -> (message: String)
    ensures
        message@ == missing_at_start_message(starting, seqs::texts(missing@)),
{
    let mut message =
        "Cannot commit rewrite: the following files to delete were not found in the starting snapshot ".to_owned();
    message.append(signed_decimal_text(starting).as_str());
    message.append(": ");
    message.append(join(missing, ", ").as_str());
    message
}

/// Composes the message for a delete file that was added since planning.
fn compose_new_delete_message(path: &str, found: i64, planned: i64) -> (message: String)
    ensures
        message@ == new_delete_message(path@, found, planned),
{
    let mut message = "Cannot commit rewrite: found new delete file ".to_owned();
    message.append(path);
    message.append(" (sequence_number=");
    message.append(signed_decimal_text(found).as_str());
    message.append(") added after the planning snapshot (data_sequence_number=");
    message.append(signed_decimal_text(planned).as_str());
    message.append(
        "). A concurrent operation added deletes for data files being rewritten.",
    );
    message
}

/// The step that reports an invalid request.
fn refuse<'a>(message: String) -> (step: DeleteEntriesStep<'a>)
    ensures
        refuses(step, message@),
{
    DeleteEntriesStep::Finished(Err(Error::new(ErrorKind::DataInvalid, message)))
}

/// A number, or 0 where it is not known.
fn known_or_zero(n: Option<i64>) -> (r: i64)
    ensures
        r == number_or_zero(n),
{
    match n {
        Some(n) => n,
        None => 0,
    }
}

/// The paths of the manifests that list delete files.
fn delete_manifest_paths(manifests: &Vec<ManifestFile>) -> (paths: Vec<String>)
    ensures
        seqs::texts(paths@) == seqs::manifest_paths(manifests@.filter(lists_deletes())),
{
    let mut paths: Vec<String> = Vec::new();
    let mut i: usize = 0;
    proof {
        reveal(Seq::filter);
    }
    assert(seqs::texts(paths@) =~= seqs::manifest_paths(manifests@.take(0).filter(lists_deletes())));
    while i < manifests.len()
        invariant
            i <= manifests.len(),
            seqs::texts(paths@) == seqs::manifest_paths(
                manifests@.take(i as int).filter(lists_deletes()),
            ),
        decreases manifests.len() - i,
    {
        proof {
            seqs::lemma_filter_step(manifests@, lists_deletes(), i as int);
        }
        if manifests[i].content == ManifestContentType::Deletes {
            paths.push(manifests[i].manifest_path.clone());
        }
        i = i + 1;
    }
    assert(manifests@.take(manifests.len() as int) =~= manifests@);
    paths
}

impl RewriteFilesOperation {
    /// The operation that the new snapshot is recorded under.
    pub fn operation(&self) -> (r: Operation)
        ensures
            r == Operation::Replace,
    {
        Operation::Replace
    }

    /// The partition values of the files to delete.
    fn partition_set(&self) -> (set: StringHashSet)
        ensures
            forall|p: Seq<char>| #[trigger] set@.contains(p) <==> self.rewrites_partition(p),
    {
        let files = &self.files_to_delete;
        let mut set = StringHashSet::new();
        let mut i: usize = 0;
        while i < files.len()
            invariant
                files == self.files_to_delete,
                i <= files.len(),
                forall|p: Seq<char>| #[trigger]
                    set@.contains(p) <==> exists|j: int|
                        0 <= j < i && (#[trigger] files@[j]).partition@ == p,
            decreases files.len() - i,
        {
            let ghost before = set@;
            set.insert(files[i].partition.encoding.clone());
            assert forall|p: Seq<char>| #[trigger] set@.contains(p) <==> exists|j: int|
                0 <= j < i + 1 && (#[trigger] files@[j]).partition@ == p by {
                if before.contains(p) {
                    let j = choose|j: int| 0 <= j < i && (#[trigger] files@[j]).partition@ == p;
                    assert(files@[j].partition@ == p);
                }
                if files@[i as int].partition@ == p {
                    assert(files@[i as int].partition@ == p);
                }
                if exists|j: int| 0 <= j < i + 1 && (#[trigger] files@[j]).partition@ == p {
                    let j = choose|j: int| 0 <= j < i + 1 && (#[trigger] files@[j]).partition@ == p;
                    if j < i {
                        assert(before.contains(p));
                    }
                }
            }
            i = i + 1;
        }
        set
    }

    /// The files to delete that are not in `found`, each once.
    fn list_missing(&self, found: &Vec<String>) -> (missing: Vec<String>)
        ensures
            seqs::texts(missing@) == self.missing(seqs::texts(found@)),
    {
        let paths = list_distinct(&list_file_paths(&self.files_to_delete));
        texts_outside(&paths, found)
    }

    /// Begin to look for the manifest entries that the rewrite deletes: refuse where
    /// the table has no snapshot to delete from, or where the starting snapshot is not
    /// an ancestor of the current one, and otherwise begin to read the current
    /// snapshot.
    pub fn delete_entries<'a>(&'a self, table: &'a Table) -> (step: DeleteEntriesStep<'a>)
        requires
            table.metadata.current_is_known(),
        ensures
            table.metadata.current() is None && self.files_to_delete@.len() > 0 ==> refuses(
                step,
                "Cannot delete files from a table with no current snapshot"@,
            ),
            table.metadata.current() is None && self.files_to_delete@.len() == 0 ==> {
                &&& step is Finished
                &&& step->Finished_0 is Ok
                &&& step->Finished_0->Ok_0@ == Seq::<ManifestEntry>::empty()
            },
            table.metadata.current() is Some && !self.starts_from_ancestor(table.metadata)
                ==> refuses(
                step,
                not_ancestor_message(
                    self.starting_snapshot_id->0,
                    table.metadata.current()->0.snapshot_id,
                ),
            ),
            table.metadata.current() is Some && self.starts_from_ancestor(table.metadata)
                && self.files_to_delete@.len() == 0 ==> {
                &&& step is Finished
                &&& step->Finished_0 is Ok
                &&& step->Finished_0->Ok_0@ == Seq::<ManifestEntry>::empty()
            },
            table.metadata.current() is Some && self.starts_from_ancestor(table.metadata)
                && self.files_to_delete@.len() > 0 ==> {
                &&& step is LoadManifestList
                &&& step->LoadManifestList_0.run.is_at(*self, *table, DeleteReads::start())
            },
    {
        let metadata = &table.metadata;
        let current = match metadata.current_snapshot() {
            Some(s) => s,
            None => {
                if self.files_to_delete.len() > 0 {
                    return refuse(
                        "Cannot delete files from a table with no current snapshot".to_owned(),
                    );
                }
                return DeleteEntriesStep::Finished(Ok(Vec::new()));
            },
        };
        let mut starting: Option<&'a Snapshot> = None;
        match self.starting_snapshot_id {
            Some(id) => {
                let known = metadata.snapshot_by_id(id);
                if known.is_none() || !metadata.is_ancestor(current.snapshot_id, id) {
                    return refuse(compose_not_ancestor_message(id, current.snapshot_id));
                }
                if id != current.snapshot_id {
                    starting = known;
                }
            },
            None => {},
        }
        if self.files_to_delete.len() == 0 {
            return DeleteEntriesStep::Finished(Ok(Vec::new()));
        }
        let run = DeleteRun {
            operation: self,
            table,
            current,
            starting,
            paths: self.path_set(),
            partitions: self.partition_set(),
            phase: DeletePhase::Current,
            manifests: Vec::new(),
            deleted: Vec::new(),
            starting_paths: Vec::new(),
            queue: Vec::new(),
            queue_read: 0,
        };
        assert(run.reads() =~= DeleteReads::start());
        DeleteEntriesStep::LoadManifestList(DeleteListPending { run })
    }

    /// Begin to look for the manifests that the new snapshot takes over: those of the
    /// current snapshot, where there is one, without the files to delete.
    pub fn existing_manifest<'a>(&'a self, table: &'a Table) -> (step: ExistingManifestStep<'a>)
        requires
            table.metadata.current_is_known(),
        ensures
            table.metadata.current() is Some ==> {
                &&& step is LoadManifestList
                &&& step->LoadManifestList_0.run.is_at(*self, *table, CarryReads::start())
            },
            table.metadata.current() is None ==> existing_manifests::continues(
                *self,
                *table,
                CarryReads::start(),
                step,
            ),
    {
        begin_carrying(self, table)
    }

    /// The set of the paths of the files to delete.
    pub(crate) fn path_set(&self) -> (paths: StringHashSet)
        ensures
            forall|p: Seq<char>| #[trigger] paths@.contains(p) <==> self.paths().contains(p),
    {
        let listed = list_file_paths(&self.files_to_delete);
        assert(seqs::texts(listed@).take(listed.len() as int) =~= seqs::texts(listed@));
        text_set(&listed, listed.len())
    }
}

impl<'a> DeleteRun<'a> {
    /// Goes on to what comes next.
    fn advance(self) -> (step: DeleteEntriesStep<'a>)
        requires
            self.wf(),
        ensures
            continues(*self.operation, *self.table, self.reads(), step),
    {
        assert(seqs::texts(self.queue@).len() == self.queue@.len());
        if self.queue_read < self.queue.len() {
            return DeleteEntriesStep::ReadManifest(DeleteManifestPending { run: self });
        }
        let ghost reads = self.reads();
        let mut run = self;
        match run.phase {
            DeletePhase::Current => {
                let missing = run.operation.list_missing(&list_entry_paths(&run.deleted));
                assert(seqs::texts(missing@).len() == missing@.len());
                if missing.len() > 0 {
                    return refuse(compose_missing_message(&missing));
                }
                if run.starting.is_some() {
                    run.phase = DeletePhase::Starting;
                    assert(run.reads() =~= (DeleteReads { phase: DeletePhase::Starting, ..reads }));
                    return DeleteEntriesStep::LoadManifestList(DeleteListPending { run });
                }
            },
            DeletePhase::Starting => {
                let missing = run.operation.list_missing(&run.starting_paths);
                assert(seqs::texts(missing@).len() == missing@.len());
                if missing.len() > 0 {
                    let id: i64 = run.operation.starting_snapshot_id.unwrap();
                    return refuse(compose_missing_at_start_message(id, &missing));
                }
            },
            DeletePhase::Deletes => {
                return DeleteEntriesStep::Finished(Ok(run.deleted));
            },
        }
        if run.operation.data_sequence_number.is_some() {
            let queue = delete_manifest_paths(&run.manifests);
            assert(seqs::texts(queue@).len() == queue@.len());
            if queue.len() > 0 {
                run.phase = DeletePhase::Deletes;
                run.queue = queue;
                run.queue_read = 0;
                assert(run.reads() =~= (DeleteReads {
                    phase: DeletePhase::Deletes,
                    queue: reads.delete_manifests(),
                    ..reads
                }));
                return DeleteEntriesStep::ReadManifest(DeleteManifestPending { run });
            }
        }
        DeleteEntriesStep::Finished(Ok(run.deleted))
    }

    /// Adds the deletions that `entries` call for.
    fn add_deletions(&mut self, entries: &Vec<ManifestEntry>)
        requires
            old(self).wf(),
        ensures
            *final(self) == (DeleteRun { deleted: final(self).deleted, ..*old(self) }),
            final(self).deleted@ == old(self).deleted@ + old(self).operation.deletions(entries@),
    {
        let ghost hits = self.operation.hits();
        let ghost made = |e: ManifestEntry| deleted_entry(e);
        let mut i: usize = 0;
        proof {
            reveal(Seq::filter);
            assert(self.deleted@ =~= old(self).deleted@ + entries@.take(0).filter(hits).map_values(
                made,
            ));
        }
        while i < entries.len()
            invariant
                hits == old(self).operation.hits(),
                made == (|e: ManifestEntry| deleted_entry(e)),
                old(self).wf(),
                i <= entries.len(),
                *self == (DeleteRun { deleted: self.deleted, ..*old(self) }),
                self.deleted@ == old(self).deleted@ + entries@.take(i as int).filter(
                    hits,
                ).map_values(made),
            decreases entries.len() - i,
        {
            let e = &entries[i];
            proof {
                seqs::lemma_filter_step(entries@, hits, i as int);
            }
            if e.is_alive() && self.paths.contains(e.data_file.file_path.as_str()) {
                let ghost before = entries@.take(i as int).filter(hits).map_values(made);
                self.deleted.push(
                    ManifestEntry {
                        status: ManifestStatus::Deleted,
                        snapshot_id: Some(known_or_zero(e.snapshot_id)),
                        sequence_number: Some(known_or_zero(e.sequence_number)),
                        file_sequence_number: Some(known_or_zero(e.file_sequence_number)),
                        data_file: e.data_file.clone(),
                    },
                );
                assert(self.deleted@ =~= old(self).deleted@ + before.push(deleted_entry(*e)));
            }
            i = i + 1;
        }
        assert(entries@.take(entries.len() as int) =~= entries@);
    }

    /// Adds the files that belong to the starting snapshot.
    fn add_starting_paths(&mut self, entries: &Vec<ManifestEntry>)
        ensures
            *final(self) == (DeleteRun { starting_paths: final(self).starting_paths, ..*old(self) }),
            seqs::texts(final(self).starting_paths@) == seqs::texts(old(self).starting_paths@)
                + alive_paths(entries@),
    {
        let ghost start = seqs::texts(self.starting_paths@);
        let mut i: usize = 0;
        proof {
            reveal(Seq::filter);
            assert(start =~= start + alive_paths(entries@.take(0)));
        }
        while i < entries.len()
            invariant
                start == seqs::texts(old(self).starting_paths@),
                i <= entries.len(),
                *self == (DeleteRun { starting_paths: self.starting_paths, ..*old(self) }),
                seqs::texts(self.starting_paths@) == start + alive_paths(entries@.take(i as int)),
            decreases entries.len() - i,
        {
            let e = &entries[i];
            proof {
                seqs::lemma_filter_step(entries@, is_alive_entry(), i as int);
            }
            if e.is_alive() {
                let ghost before = alive_paths(entries@.take(i as int));
                self.starting_paths.push(e.data_file.file_path.clone());
                assert(seqs::texts(self.starting_paths@) =~= start + before.push(e.path()));
            }
            i = i + 1;
        }
        assert(entries@.take(entries.len() as int) =~= entries@);
    }

    /// Looks for a delete file that was added since planning.
    fn find_new_delete(&self, entries: &Vec<ManifestEntry>) -> (found: Option<usize>)
        requires
            self.wf(),
        ensures
            match found {
                Some(i) => self.operation.first_new_delete(entries@, 0) == Some(i as int) && i
                    < entries@.len() && self.operation.data_sequence_number is Some,
                None => self.operation.first_new_delete(entries@, 0) is None,
            },
    {
        let ghost operation = *self.operation;
        let mut i: usize = 0;
        while i < entries.len()
            invariant
                self.wf(),
                operation == *self.operation,
                i <= entries.len(),
                operation.first_new_delete(entries@, 0) == operation.first_new_delete(
                    entries@,
                    i as int,
                ),
            decreases entries.len() - i,
        {
            let e = &entries[i];
            match self.operation.data_sequence_number {
                Some(n) => {
                    if known_or_zero(e.sequence_number) > n && e.is_alive()
                        && self.partitions.contains(e.data_file.partition.encoding.as_str()) {
                        return Some(i);
                    }
                },
                None => {},
            }
            i = i + 1;
        }
        None
    }
}

impl<'a> DeleteListPending<'a> {
    /// A manifest list is to be loaded, and no manifest is waiting to be read.
    pub open spec fn ready(self) -> bool {
        &&& self.run.wf()
        &&& self.run.phase != DeletePhase::Deletes
        &&& self.run.reads().queue.len() == 0
    }

    /// The snapshot whose manifest list is to be loaded.
    pub open spec fn snapshot(self) -> Snapshot {
        if self.run.phase == DeletePhase::Current {
            self.run.table.metadata.current()->0
        } else {
            self.run.table.metadata.snapshot(self.run.operation.starting_snapshot_id->0)->0
        }
    }

    /// Where the manifest list is.
    pub fn path(&self) -> (path: &str)
        requires
            self.ready(),
        ensures
            path@ == self.snapshot().manifest_list@,
    {
        match self.run.phase {
            DeletePhase::Current => self.run.current.manifest_list.as_str(),
            _ => self.run.starting.unwrap().manifest_list.as_str(),
        }
    }

    /// Goes on with the manifests of the list; an error ends the search.
    pub fn resume(self, outcome: Result<Vec<ManifestFile>, Error>) -> (step: DeleteEntriesStep<'a>)
        requires
            self.ready(),
        ensures
            outcome matches Err(e) ==> step == DeleteEntriesStep::<'a>::Finished(Err(e)),
            outcome matches Ok(manifests) ==> continues(
                *self.run.operation,
                *self.run.table,
                self.run.reads().with_list(manifests@),
                step,
            ),
    {
        let manifests = match outcome {
            Err(e) => {
                return DeleteEntriesStep::Finished(Err(e));
            },
            Ok(manifests) => manifests,
        };
        let ghost before = self.run.reads();
        let ghost read = manifests@;
        let mut run = self.run;
        run.queue = list_manifest_paths(&manifests);
        run.queue_read = 0;
        match run.phase {
            DeletePhase::Current => {
                run.manifests = manifests;
            },
            _ => {},
        }
        assert(run.reads() =~= before.with_list(read));
        run.advance()
    }
}

impl<'a> DeleteManifestPending<'a> {
    /// A manifest is waiting to be read.
    pub open spec fn ready(self) -> bool {
        &&& self.run.wf()
        &&& self.run.reads().queue.len() > 0
    }

    /// Where the manifest is.
    pub fn path(&self) -> (path: &str)
        requires
            self.ready(),
        ensures
            path@ == self.run.reads().queue[0],
    {
        assert(seqs::texts(self.run.queue@).len() == self.run.queue@.len());
        self.run.queue[self.run.queue_read].as_str()
    }

    /// Goes on with the entries of the manifest; an error ends the search, and so does
    /// a delete file that was added since planning.
    pub fn resume(self, outcome: Result<Vec<ManifestEntry>, Error>) -> (step: DeleteEntriesStep<
        'a,
    >)
        requires
            self.ready(),
        ensures
            outcome matches Err(e) ==> step == DeleteEntriesStep::<'a>::Finished(Err(e)),
            outcome matches Ok(entries) ==> {
                let operation = *self.run.operation;
                let found = operation.first_new_delete(entries@, 0);
                if self.run.phase == DeletePhase::Deletes && found is Some {
                    refuses(
                        step,
                        new_delete_message(
                            entries@[found->0].path(),
                            number_or_zero(entries@[found->0].sequence_number),
                            operation.data_sequence_number->0,
                        ),
                    )
                } else {
                    continues(
                        operation,
                        *self.run.table,
                        self.run.reads().with_entries(operation, entries@),
                        step,
                    )
                }
            },
    {
        let entries = match outcome {
            Err(e) => {
                return DeleteEntriesStep::Finished(Err(e));
            },
            Ok(entries) => entries,
        };
        let ghost before = self.run.reads();
        let mut run = self.run;
        assert(seqs::texts(run.queue@).len() == run.queue@.len());
        assert(run.queue_read < run.queue.len());
        match run.phase {
            DeletePhase::Current => {
                run.add_deletions(&entries);
            },
            DeletePhase::Starting => {
                run.add_starting_paths(&entries);
            },
            DeletePhase::Deletes => {
                match run.find_new_delete(&entries) {
                    Some(i) => {
                        return refuse(
                            compose_new_delete_message(
                                entries[i].data_file.file_path.as_str(),
                                known_or_zero(entries[i].sequence_number),
                                run.operation.data_sequence_number.unwrap(),
                            ),
                        );
                    },
                    None => {},
                }
            },
        }
        run.queue_read = run.queue_read + 1;
        assert(run.reads() =~= before.with_entries(*self.run.operation, entries@));
        run.advance()
    }
}

} // verus!
