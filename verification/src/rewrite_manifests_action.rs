//! Replacing manifests by merged ones in one snapshot, without a change of data files.

use std::sync::Arc;

use vstd::hash_map::StringHashMap;
use vstd::prelude::*;
use vstd::string::*;

use crate::error::{Error, ErrorKind};
use crate::model::{
    DataFile, FormatVersion, ManifestContentType, ManifestEntry, ManifestFile, Operation,
    PartitionSpec, Properties, Table,
};
use crate::outside;
use crate::outside::{uuid_now_v7, uuid_to_string};
use crate::rewrite_files;
use crate::text;
use crate::text::decimal_text;
use crate::transaction::SnapshotRequest;

verus! {

/// A group of manifest entries to be written as a new merged manifest.
#[derive(Debug)]
pub struct MergedManifestGroup {
    /// The entries to write.
    pub entries: Vec<ManifestEntry>,
    /// The content type for the output manifest.
    pub content_type: ManifestContentType,
    /// The partition spec for the output manifest.
    pub partition_spec: Arc<PartitionSpec>,
}

impl Clone for MergedManifestGroup {
    fn clone(&self) -> (r: Self)
        ensures
            r.entries@ == self.entries@,
            r == (MergedManifestGroup { entries: r.entries, ..*self }),
    {
        let mut entries: Vec<ManifestEntry> = Vec::new();
        let mut i: usize = 0;
        while i < self.entries.len()
            invariant
                i <= self.entries.len(),
                entries@ == self.entries@.take(i as int),
            decreases self.entries.len() - i,
        {
            entries.push(self.entries[i].clone());
            assert(entries@ =~= self.entries@.take(i + 1));
            i = i + 1;
        }
        assert(self.entries@.take(self.entries.len() as int) =~= self.entries@);
        MergedManifestGroup {
            entries,
            content_type: self.content_type,
            partition_spec: Arc::clone(&self.partition_spec),
        }
    }
}

/// `RewriteManifestsAction` is a transaction action that replaces a set of
/// manifest files with new merged manifests, without changing any data files.
///
/// Unlike pre-writing manifests before commit, this action writes merged
/// manifests while the snapshot is produced, where the snapshot ID is
/// known, ensuring correct metadata on the output manifest files.
pub struct RewriteManifestsAction {
    /// Manifests that are kept unchanged (not rewritten).
    pub kept_manifests: Vec<ManifestFile>,
    /// Groups of entries to be written as new merged manifests.
    pub merge_groups: Vec<MergedManifestGroup>,
    pub snapshot_properties: Properties,
}

/// What a rewrite of manifests does to the current snapshot.
pub struct RewriteManifestsOperation {
    pub kept_manifests: Vec<ManifestFile>,
    pub merge_groups: Vec<MergedManifestGroup>,
}

impl RewriteManifestsAction {
    /// Create an action without manifests.
    pub fn new() -> (action: Self)
        ensures
            action.kept_manifests@ == Seq::<ManifestFile>::empty(),
            action.merge_groups@ == Seq::<MergedManifestGroup>::empty(),
            action.snapshot_properties@ == Map::<Seq<char>, String>::empty(),
    {
        Self {
            kept_manifests: Vec::new(),
            merge_groups: Vec::new(),
            snapshot_properties: StringHashMap::new(),
        }
    }

    /// Set the manifests that should be kept unchanged.
    pub fn with_kept_manifests(self, manifests: Vec<ManifestFile>) -> (action: Self)
        ensures
            action == (Self { kept_manifests: manifests, ..self }),
    {
        Self { kept_manifests: manifests, ..self }
    }

    /// Add a group of entries to be written as a merged manifest.
    pub fn add_merge_group(self, group: MergedManifestGroup) -> (action: Self)
        ensures
            action.merge_groups@ == self.merge_groups@.push(group),
            action == (Self { merge_groups: action.merge_groups, ..self }),
    {
        let mut action = self;
        action.merge_groups.push(group);
        action
    }

    /// Whether there is no manifest, neither kept nor merged.
    pub open spec fn is_empty(self) -> bool {
        self.kept_manifests@.len() == 0 && self.merge_groups@.len() == 0
    }

    /// Whether `r` asks for the snapshot that this action describes. It adds no data
    /// files, and its properties name the action unless they did so before.
    pub open spec fn is_request(self, r: SnapshotRequest<RewriteManifestsOperation>) -> bool {
        let given = self.snapshot_properties@;
        let properties = r.snapshot_properties@;
        &&& r.added_data_files@ == Seq::<DataFile>::empty()
        &&& !r.validate_added_files
        &&& r.operation == (RewriteManifestsOperation {
            kept_manifests: self.kept_manifests,
            merge_groups: self.merge_groups,
        })
        &&& if given.contains_key("iceberg.action"@) {
            properties == given
        } else {
            &&& properties.contains_key("iceberg.action"@)
            &&& properties["iceberg.action"@]@ == "rewrite-manifests"@
            &&& properties == given.insert("iceberg.action"@, properties["iceberg.action"@])
        }
    }

    /// Asks for the snapshot, under the given commit UUID.
    pub fn commit_as(self, commit_uuid: u128) -> (r: Result<
        SnapshotRequest<RewriteManifestsOperation>,
        Error,
    >)
        ensures
            r is Err <==> self.is_empty(),
            r matches Err(e) ==> e.says(
                ErrorKind::DataInvalid,
                "Rewrite manifests action requires at least one manifest"@,
            ),
            r matches Ok(request) ==> self.is_request(request) && request.commit_uuid
                == commit_uuid,
    {
        if self.kept_manifests.len() == 0 && self.merge_groups.len() == 0 {
            return Err(
                Error::new(
                    ErrorKind::DataInvalid,
                    "Rewrite manifests action requires at least one manifest".to_owned(),
                ),
            );
        }
        let mut snapshot_properties = self.snapshot_properties;
        if !snapshot_properties.contains_key("iceberg.action") {
            snapshot_properties.insert(
                "iceberg.action".to_owned(),
                "rewrite-manifests".to_owned(),
            );
        }
        Ok(
            SnapshotRequest {
                commit_uuid,
                snapshot_properties,
                added_data_files: Vec::new(),
                validate_added_files: false,
                operation: RewriteManifestsOperation {
                    kept_manifests: self.kept_manifests,
                    merge_groups: self.merge_groups,
                },
            },
        )
    }

    /// Asks for the snapshot, under a new version 7 commit UUID.
    pub fn commit(self) -> (r: Result<SnapshotRequest<RewriteManifestsOperation>, Error>)
        ensures
            r is Err <==> self.is_empty(),
            r matches Err(e) ==> e.says(
                ErrorKind::DataInvalid,
                "Rewrite manifests action requires at least one manifest"@,
            ),
            r matches Ok(request) ==> self.is_request(request) && outside::is_uuid_v7(
                request.commit_uuid,
            ),
    {
        self.commit_as(uuid_now_v7())
    }
}

/// How a manifest is written: the version of the format, and from version 2 on what
/// the files in it hold.
#[derive(Debug, Clone, Copy, PartialEq, Eq, Structural)]
pub enum ManifestWriterKind {
    V1,
    V2Data,
    V2Deletes,
    V3Data,
    V3Deletes,
}

/// The way of writing for a format version and a content.
pub open spec fn writer_kind(
    version: FormatVersion,
    content: ManifestContentType,
) -> ManifestWriterKind {
    match version {
        FormatVersion::V1 => ManifestWriterKind::V1,
        FormatVersion::V2 => match content {
            ManifestContentType::Data => ManifestWriterKind::V2Data,
            ManifestContentType::Deletes => ManifestWriterKind::V2Deletes,
        },
        FormatVersion::V3 => match content {
            ManifestContentType::Data => ManifestWriterKind::V3Data,
            ManifestContentType::Deletes => ManifestWriterKind::V3Deletes,
        },
    }
}

/// What the groups of a snapshot are, which shows in the names of their manifests.
#[derive(Debug, Clone, Copy, PartialEq, Eq, Structural)]
pub enum GroupOrigin {
    /// Manifests merged into one.
    Merged,
    /// What remains of a manifest some of whose files are deleted. Its name is apart
    /// from those of the manifests of the files that the same snapshot adds and deletes.
    Remaining,
}

impl GroupOrigin {
    /// The part of a manifest's name that stands before its number.
    pub open spec fn mark(self) -> Seq<char> {
        match self {
            GroupOrigin::Merged => "-m"@,
            GroupOrigin::Remaining => "-r"@,
        }
    }
}

/// Where the manifest for the group at position `idx` is written.
pub open spec fn manifest_path(
    location: Seq<char>,
    commit_uuid: u128,
    origin: GroupOrigin,
    idx: nat,
) -> Seq<char> {
    location + "/metadata/"@ + outside::hyphenated(commit_uuid) + origin.mark() + text::decimal(idx)
        + ".avro"@
}

/// A manifest to be opened for writing.
#[derive(Debug)]
pub struct NewManifest {
    pub path: String,
    /// The snapshot that the manifest is written for.
    pub snapshot_id: i64,
    pub schema_id: i32,
    pub partition_spec: Arc<PartitionSpec>,
    pub kind: ManifestWriterKind,
}

/// A file to be recorded as existing in the manifest being written.
#[derive(Debug)]
pub struct ExistingFile {
    pub data_file: DataFile,
    pub snapshot_id: i64,
    pub sequence_number: i64,
    pub file_sequence_number: Option<i64>,
}

/// The position of the first group, not before `from`, that has entries.
pub open spec fn next_nonempty(groups: Seq<MergedManifestGroup>, from: int) -> Option<int>
    decreases groups.len() - from,
{
    if from >= groups.len() {
        None
    } else if groups[from].entries@.len() > 0 {
        Some(from)
    } else {
        next_nonempty(groups, from + 1)
    }
}

/// What is needed next to have the merged manifests written.
pub enum MergedManifestStep<'a> {
    /// The manifests of the snapshot are known.
    Finished(Result<Vec<ManifestFile>, Error>),
    /// Open a manifest for writing.
    OpenManifest(OpenManifestPending<'a>),
    /// Record a file in the open manifest.
    AddExistingFile(AddFilePending<'a>),
    /// Write the open manifest and close it.
    WriteManifest(WriteManifestPending<'a>),
}

/// A snapshot whose merged manifests are written.
pub struct MergeTarget {
    pub operation: RewriteManifestsOperation,
    pub table: Table,
    pub snapshot_id: i64,
    pub commit_uuid: u128,
    pub origin: GroupOrigin,
}

/// The writing of the merged manifests, under way.
pub struct MergedManifestRun<'a> {
    pub operation: &'a RewriteManifestsOperation,
    pub table: &'a Table,
    pub snapshot_id: i64,
    pub commit_uuid: u128,
    pub origin: GroupOrigin,
    /// The manifests of the snapshot so far.
    pub result: Vec<ManifestFile>,
    /// The group that is being written.
    pub group: usize,
    /// How many of its entries have been recorded.
    pub recorded: usize,
}

impl<'a> MergedManifestRun<'a> {
    /// The run is in the middle of a group that has entries.
    pub open spec fn wf(self) -> bool {
        &&& self.group < self.operation.merge_groups@.len()
        &&& self.operation.merge_groups@[self.group as int].entries@.len() > 0
        &&& self.recorded <= self.operation.merge_groups@[self.group as int].entries@.len()
    }

    /// The entries of the group that is being written.
    pub open spec fn entries(self) -> Seq<ManifestEntry> {
        self.operation.merge_groups@[self.group as int].entries@
    }

    /// Whether an entry cannot be recorded: manifests are not merged where an entry lacks
    /// its snapshot.
    pub open spec fn refuses(self, e: ManifestEntry) -> bool {
        self.origin == GroupOrigin::Merged && e.snapshot_id is None
    }

    /// The snapshot that the run writes for.
    pub open spec fn target(self) -> MergeTarget {
        MergeTarget {
            operation: *self.operation,
            table: *self.table,
            snapshot_id: self.snapshot_id,
            commit_uuid: self.commit_uuid,
            origin: self.origin,
        }
    }
}

/// A manifest is waiting to be opened for writing.
pub struct OpenManifestPending<'a> {
    pub run: MergedManifestRun<'a>,
}

/// A file is waiting to be recorded.
pub struct AddFilePending<'a> {
    pub run: MergedManifestRun<'a>,
}

/// A manifest is waiting to be written.
pub struct WriteManifestPending<'a> {
    pub run: MergedManifestRun<'a>,
}

/// What comes next before a group: the next group that has entries is opened, and
/// after the last one the manifests of the snapshot are known.
pub open spec fn next_manifest<'a>(
    target: MergeTarget,
    result: Seq<ManifestFile>,
    from: int,
    step: MergedManifestStep<'a>,
) -> bool {
    match next_nonempty(target.operation.merge_groups@, from) {
        Some(g) => {
            &&& step is OpenManifest
            &&& step->OpenManifest_0.run.wf()
            &&& step->OpenManifest_0.run.target() == target
            &&& step->OpenManifest_0.run.result@ == result
            &&& step->OpenManifest_0.run.group == g
            &&& step->OpenManifest_0.run.recorded == 0
        },
        None => {
            &&& step is Finished
            &&& step->Finished_0 is Ok
            &&& step->Finished_0->Ok_0@ == result
        },
    }
}

/// What comes next within a group, `recorded` entries of which have been recorded:
/// the next entry is recorded, unless it is to be merged and lacks its snapshot, and
/// after the last one the manifest is written.
pub open spec fn next_entry<'a>(
    run: MergedManifestRun<'a>,
    recorded: int,
    step: MergedManifestStep<'a>,
) -> bool {
    if recorded < run.entries().len() {
        if run.refuses(run.entries()[recorded]) {
            &&& step is Finished
            &&& step->Finished_0 is Err
            &&& step->Finished_0->Err_0.says(
                ErrorKind::DataInvalid,
                "Manifest entry missing snapshot_id"@,
            )
        } else {
            &&& step is AddExistingFile
            &&& step->AddExistingFile_0.ready()
            &&& step->AddExistingFile_0.run == (MergedManifestRun {
                recorded: recorded as usize,
                ..run
            })
        }
    } else {
        &&& step is WriteManifest
        &&& step->WriteManifest_0.ready()
        &&& step->WriteManifest_0.run == (MergedManifestRun { recorded: recorded as usize, ..run })
    }
}

impl RewriteManifestsOperation {
    /// The operation that the new snapshot is recorded under.
    pub fn operation(&self) -> (r: Operation)
        ensures
            r == Operation::Replace,
    {
        Operation::Replace
    }

    /// The manifest entries that the rewrite deletes: none.
    pub fn delete_entries(&self) -> (r: Result<Vec<ManifestEntry>, Error>)
        ensures
            r is Ok,
            r->Ok_0@ == Seq::<ManifestEntry>::empty(),
    {
        Ok(Vec::new())
    }

    /// Begin to have the merged manifests written. The manifests of the snapshot are
    /// those kept, followed by the merged ones.
    pub fn existing_manifest<'a>(
        &'a self,
        table: &'a Table,
        snapshot_id: i64,
        commit_uuid: u128,
    ) -> (step: MergedManifestStep<'a>)
        ensures
            next_manifest(
                (MergeTarget {
                    operation: *self,
                    table: *table,
                    snapshot_id,
                    commit_uuid,
                    origin: GroupOrigin::Merged,
                }),
                self.kept_manifests@,
                0,
                step,
            ),
    {
        self.write(table, snapshot_id, commit_uuid, GroupOrigin::Merged)
    }

    /// Begin to have the groups written, under names that show what they are.
    pub(crate) fn write<'a>(
        &'a self,
        table: &'a Table,
        snapshot_id: i64,
        commit_uuid: u128,
        origin: GroupOrigin,
    ) -> (step: MergedManifestStep<'a>)
        ensures
            next_manifest(
                (MergeTarget { operation: *self, table: *table, snapshot_id, commit_uuid, origin }),
                self.kept_manifests@,
                0,
                step,
            ),
    {
        let mut result: Vec<ManifestFile> = Vec::new();
        let mut i: usize = 0;
        while i < self.kept_manifests.len()
            invariant
                i <= self.kept_manifests.len(),
                result@ == self.kept_manifests@.take(i as int),
            decreases self.kept_manifests.len() - i,
        {
            result.push(self.kept_manifests[i].clone());
            assert(result@ =~= self.kept_manifests@.take(i + 1));
            i = i + 1;
        }
        assert(self.kept_manifests@.take(self.kept_manifests.len() as int)
            =~= self.kept_manifests@);
        let run = MergedManifestRun {
            operation: self,
            table,
            snapshot_id,
            commit_uuid,
            origin,
            result,
            group: 0,
            recorded: 0,
        };
        run.seek(0)
    }
}

impl<'a> MergedManifestRun<'a> {
    /// Goes on to the next group that has entries, from position `from` on.
    fn seek(self, from: usize) -> (step: MergedManifestStep<'a>)
        requires
            from <= self.operation.merge_groups@.len(),
        ensures
            next_manifest(self.target(), self.result@, from as int, step),
    {
        let groups = &self.operation.merge_groups;
        let mut g: usize = from;
        while g < groups.len()
            invariant
                groups == self.operation.merge_groups,
                g <= groups.len(),
                next_nonempty(groups@, from as int) == next_nonempty(groups@, g as int),
            decreases groups.len() - g,
        {
            if groups[g].entries.len() > 0 {
                let run = MergedManifestRun { group: g, recorded: 0, ..self };
                return MergedManifestStep::OpenManifest(OpenManifestPending { run });
            }
            g = g + 1;
        }
        MergedManifestStep::Finished(Ok(self.result))
    }

    /// Goes on within the group.
    fn proceed(self) -> (step: MergedManifestStep<'a>)
        requires
            self.wf(),
        ensures
            next_entry(self, self.recorded as int, step),
    {
        let entries = &self.operation.merge_groups[self.group].entries;
        if self.recorded < entries.len() {
            let merging = match self.origin {
                GroupOrigin::Merged => true,
                GroupOrigin::Remaining => false,
            };
            if merging && entries[self.recorded].snapshot_id.is_none() {
                MergedManifestStep::Finished(
                    Err(
                        Error::new(
                            ErrorKind::DataInvalid,
                            "Manifest entry missing snapshot_id".to_owned(),
                        ),
                    ),
                )
            } else {
                MergedManifestStep::AddExistingFile(AddFilePending { run: self })
            }
        } else {
            MergedManifestStep::WriteManifest(WriteManifestPending { run: self })
        }
    }
}

impl<'a> OpenManifestPending<'a> {
    /// The manifest to open.
    pub fn manifest(&self) -> (m: NewManifest)
        requires
            self.run.wf(),
        ensures
            ({
                let group = self.run.operation.merge_groups@[self.run.group as int];
                let metadata = self.run.table.metadata;
                &&& m.path@ == manifest_path(
                    metadata.location@,
                    self.run.commit_uuid,
                    self.run.origin,
                    self.run.group as nat,
                )
                &&& m.snapshot_id == self.run.snapshot_id
                &&& m.schema_id == metadata.current_schema_id
                &&& m.partition_spec == group.partition_spec
                &&& m.kind == writer_kind(metadata.format_version, group.content_type)
            }),
    {
        let metadata = &self.run.table.metadata;
        let group = &self.run.operation.merge_groups[self.run.group];
        let mut path = metadata.location.clone();
        path.append("/metadata/");
        path.append(uuid_to_string(self.run.commit_uuid).as_str());
        match self.run.origin {
            GroupOrigin::Merged => path.append("-m"),
            GroupOrigin::Remaining => path.append("-r"),
        }
        path.append(decimal_text(self.run.group as u64).as_str());
        path.append(".avro");
        let kind = match metadata.format_version {
            FormatVersion::V1 => ManifestWriterKind::V1,
            FormatVersion::V2 => match group.content_type {
                ManifestContentType::Data => ManifestWriterKind::V2Data,
                ManifestContentType::Deletes => ManifestWriterKind::V2Deletes,
            },
            FormatVersion::V3 => match group.content_type {
                ManifestContentType::Data => ManifestWriterKind::V3Data,
                ManifestContentType::Deletes => ManifestWriterKind::V3Deletes,
            },
        };
        NewManifest {
            path,
            snapshot_id: self.run.snapshot_id,
            schema_id: metadata.current_schema_id,
            partition_spec: Arc::clone(&group.partition_spec),
            kind,
        }
    }

    /// Goes on once the manifest is open; an error ends the writing.
    pub fn resume(self, outcome: Result<(), Error>) -> (step: MergedManifestStep<'a>)
        requires
            self.run.wf(),
            self.run.recorded == 0,
        ensures
            match outcome {
                Err(e) => step == MergedManifestStep::<'a>::Finished(Err(e)),
                Ok(_) => next_entry(self.run, 0, step),
            },
    {
        match outcome {
            Err(e) => MergedManifestStep::Finished(Err(e)),
            Ok(_) => self.run.proceed(),
        }
    }
}

impl<'a> AddFilePending<'a> {
    /// An entry is left to be recorded, and can be.
    pub open spec fn ready(self) -> bool {
        &&& self.run.wf()
        &&& self.run.recorded < self.run.entries().len()
        &&& !self.run.refuses(self.run.entries()[self.run.recorded as int])
    }

    /// The file to record: the entry's file, snapshot and sequence numbers, the snapshot
    /// and the data sequence number being 0 where they are not known.
    pub fn file(&self) -> (f: ExistingFile)
        requires
            self.ready(),
        ensures
            ({
                let e = self.run.entries()[self.run.recorded as int];
                &&& f.data_file == e.data_file
                &&& f.snapshot_id == rewrite_files::number_or_zero(e.snapshot_id)
                &&& f.sequence_number == rewrite_files::number_or_zero(e.sequence_number)
                &&& f.file_sequence_number == e.file_sequence_number
            }),
    {
        let e = &self.run.operation.merge_groups[self.run.group].entries[self.run.recorded];
        let sequence_number: i64 = match e.sequence_number {
            Some(n) => n,
            None => 0,
        };
        let snapshot_id: i64 = match e.snapshot_id {
            Some(id) => id,
            None => 0,
        };
        ExistingFile {
            data_file: e.data_file.clone(),
            snapshot_id,
            sequence_number,
            file_sequence_number: e.file_sequence_number,
        }
    }

    /// Goes on once the file has been recorded; an error ends the writing.
    pub fn resume(self, outcome: Result<(), Error>) -> (step: MergedManifestStep<'a>)
        requires
            self.ready(),
        ensures
            match outcome {
                Err(e) => step == MergedManifestStep::<'a>::Finished(Err(e)),
                Ok(_) => next_entry(self.run, self.run.recorded + 1, step),
            },
    {
        match outcome {
            Err(e) => MergedManifestStep::Finished(Err(e)),
            Ok(_) => {
                let entries = &self.run.operation.merge_groups[self.run.group].entries;
                assert(self.run.recorded < entries.len());
                let run = MergedManifestRun { recorded: self.run.recorded + 1, ..self.run };
                run.proceed()
            },
        }
    }
}

impl<'a> WriteManifestPending<'a> {
    /// All entries of the group have been recorded.
    pub open spec fn ready(self) -> bool {
        &&& self.run.wf()
        &&& self.run.recorded == self.run.entries().len()
    }

    /// Goes on with the manifest that was written; an error ends the writing.
    pub fn resume(self, outcome: Result<ManifestFile, Error>) -> (step: MergedManifestStep<'a>)
        requires
            self.ready(),
        ensures
            match outcome {
                Err(e) => step == MergedManifestStep::<'a>::Finished(Err(e)),
                Ok(m) => next_manifest(
                    self.run.target(),
                    self.run.result@.push(m),
                    self.run.group + 1,
                    step,
                ),
            },
    {
        match outcome {
            Err(e) => MergedManifestStep::Finished(Err(e)),
            Ok(m) => {
                let groups = &self.run.operation.merge_groups;
                assert(self.run.group < groups.len());
                let next: usize = self.run.group + 1;
                let mut run = self.run;
                run.result.push(m);
                run.seek(next)
            },
        }
    }
}

} // verus!
