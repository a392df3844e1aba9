//! Compacting data files: small files and overly large ones are grouped by partition
//! and rewritten by a pluggable rewriter.

use std::sync::Arc;

use vstd::hash_map::StringHashMap;
use vstd::hash_set::StringHashSet;
use vstd::prelude::*;
use vstd::string::*;

use crate::error::{Error, ErrorKind};
use crate::file_rewriter::{FileRewriter, FileScanTask, RewriteFileGroup, RewriteOutcome};
use crate::model::{
    DataContentType, DataFile, ManifestContentType, ManifestEntry, ManifestFile, PartitionSpec,
    Snapshot, Struct, Table,
};
use crate::rewrite_files;
use crate::rewrite_files::RewriteFilesAction;
use crate::seqs;
use crate::seqs::list_file_paths;

verus! {

broadcast use crate::seqs::lemma_map_push;

/// Default target file size: 512 MiB.
pub const DEFAULT_TARGET_FILE_SIZE_BYTES: u64 = 536_870_912;

/// Default minimum file size (75% of target): 384 MiB.
pub const DEFAULT_MIN_FILE_SIZE_BYTES: u64 = 402_653_184;

/// Default maximum file size (180% of target): ~922 MiB.
pub const DEFAULT_MAX_FILE_SIZE_BYTES: u64 = 965_738_496;

/// Default minimum number of candidate files in a partition to trigger
/// compaction.
pub const DEFAULT_MIN_INPUT_FILES: usize = 5;

/// Default maximum size of a single file group: 100 GiB.
pub const DEFAULT_MAX_FILE_GROUP_SIZE_BYTES: u64 = 107_374_182_400;

/// Result of executing the rewrite data files action.
#[derive(Debug, Clone, Copy, PartialEq, Eq, Structural)]
pub struct RewriteDataFilesResult {
    /// Number of data files that were removed (rewritten).
    pub rewritten_data_files_count: u32,
    /// Number of new data files that were added.
    pub added_data_files_count: u32,
    /// Total bytes of rewritten input files.
    pub rewritten_bytes_count: u64,
    /// Number of data files that failed to rewrite (only relevant with
    /// `partial_progress` enabled).
    pub failed_data_files_count: u32,
    /// Number of delete files removed. Always 0: deletes are applied, not removed.
    pub removed_delete_files_count: u32,
}

impl RewriteDataFilesResult {
    /// The result when nothing was rewritten.
    pub open spec fn nothing() -> RewriteDataFilesResult {
        RewriteDataFilesResult {
            rewritten_data_files_count: 0,
            added_data_files_count: 0,
            rewritten_bytes_count: 0,
            failed_data_files_count: 0,
            removed_delete_files_count: 0,
        }
    }
}

impl Default for RewriteDataFilesResult {
    fn default() -> (r: Self)
        ensures
            r == RewriteDataFilesResult::nothing(),
    {
        RewriteDataFilesResult {
            rewritten_data_files_count: 0,
            added_data_files_count: 0,
            rewritten_bytes_count: 0,
            failed_data_files_count: 0,
            removed_delete_files_count: 0,
        }
    }
}

/// Action that compacts data files by selecting groups of small files,
/// rewriting them via a [`FileRewriter`], and committing the replacement
/// atomically using the transaction API.
///
/// [`RewriteDataFiles::execute`] starts the action; each [`RewriteStep`] says what has
/// to be done outside next.
pub struct RewriteDataFiles<'a, R: FileRewriter> {
    pub table: &'a Table,
    pub rewriter: R,
    pub target_file_size_bytes: u64,
    pub min_file_size_bytes: u64,
    pub max_file_size_bytes: u64,
    pub min_input_files: usize,
    pub max_file_group_size_bytes: u64,
    pub partial_progress: bool,
}

/// The total size of data files.
pub open spec fn total_size(files: Seq<DataFile>) -> nat
    decreases files.len(),
{
    if files.len() == 0 {
        0
    } else {
        total_size(files.drop_last()) + files.last().file_size_in_bytes as nat
    }
}

/// Packs files into groups in their order: a file joins the last group where the
/// total stays within `max`, and otherwise begins a new one.
pub open spec fn packed(files: Seq<DataFile>, max: nat) -> Seq<Seq<DataFile>>
    decreases files.len(),
{
    if files.len() == 0 {
        Seq::empty()
    } else {
        let before = packed(files.drop_last(), max);
        let file = files.last();
        if before.len() > 0 && total_size(before.last()) + file.file_size_in_bytes <= max {
            before.drop_last().push(before.last().push(file))
        } else {
            before.push(seq![file])
        }
    }
}

pub open spec fn is_data_entry() -> spec_fn(ManifestEntry) -> bool {
    |e: ManifestEntry| e.data_file.content == DataContentType::Data
}

/// The data files that belong to the snapshot which `entries` come from. The first
/// entry for a path decides.
pub open spec fn live_files(entries: Seq<ManifestEntry>) -> Seq<DataFile> {
    seqs::distinct_entries(entries.filter(is_data_entry())).filter(
        rewrite_files::is_alive_entry(),
    ).map_values(|e: ManifestEntry| e.data_file)
}

/// The partition values of data files.
pub open spec fn partition_values(files: Seq<DataFile>) -> Seq<Seq<char>> {
    files.map_values(|f: DataFile| f.partition@)
}

pub open spec fn in_partition(partition: Seq<char>) -> spec_fn(DataFile) -> bool {
    |f: DataFile| f.partition@ == partition
}

/// A group of files to rewrite together, all of one partition.
#[verifier::ext_equal]
pub struct GroupPlan {
    pub files: Seq<DataFile>,
    pub partition: Seq<char>,
}

/// The groups of one partition.
pub open spec fn group_plans(packs: Seq<Seq<DataFile>>, partition: Seq<char>) -> Seq<GroupPlan> {
    packs.map_values(|files: Seq<DataFile>| GroupPlan { files, partition })
}

/// The files and the partition of a group.
pub open spec fn group_plan(g: RewriteFileGroup) -> GroupPlan {
    GroupPlan { files: g.files(), partition: g.partition_value->0@ }
}

pub open spec fn reads_data() -> spec_fn(ManifestFile) -> bool {
    |m: ManifestFile| m.content == ManifestContentType::Data
}

impl<'a, R: FileRewriter> RewriteDataFiles<'a, R> {
    /// Whether the size of the file calls for a rewrite: it is undersized or oversized.
    pub open spec fn is_candidate(self, f: DataFile) -> bool {
        f.file_size_in_bytes < self.min_file_size_bytes || f.file_size_in_bytes
            > self.max_file_size_bytes
    }

    pub open spec fn candidate(self) -> spec_fn(DataFile) -> bool {
        |f: DataFile| self.is_candidate(f)
    }

    /// The files of a partition that are candidates.
    pub open spec fn candidates(self, files: Seq<DataFile>, partition: Seq<char>) -> Seq<DataFile> {
        files.filter(in_partition(partition)).filter(self.candidate())
    }

    /// The groups of one partition: none where it has too few candidates.
    pub open spec fn partition_plan(self, files: Seq<DataFile>, partition: Seq<char>) -> Seq<
        GroupPlan,
    > {
        let candidates = self.candidates(files, partition);
        if candidates.len() < self.min_input_files {
            Seq::empty()
        } else {
            group_plans(packed(candidates, self.max_file_group_size_bytes as nat), partition)
        }
    }

    /// The groups of several partitions, one partition after the other.
    pub open spec fn plan_of(self, files: Seq<DataFile>, partitions: Seq<Seq<char>>) -> Seq<
        GroupPlan,
    >
        decreases partitions.len(),
    {
        if partitions.len() == 0 {
            Seq::empty()
        } else {
            self.plan_of(files, partitions.drop_last()) + self.partition_plan(
                files,
                partitions.last(),
            )
        }
    }

    /// The groups to rewrite, partitions in the order in which they first occur.
    pub open spec fn plan(self, files: Seq<DataFile>) -> Seq<GroupPlan> {
        self.plan_of(files, seqs::distinct(partition_values(files)))
    }

    /// Whether `g` is the group `p`, with what the rewriter needs to know besides.
    pub open spec fn is_group(self, g: RewriteFileGroup, p: GroupPlan) -> bool {
        &&& g.files() == p.files
        &&& g.target_file_size_bytes == self.target_file_size_bytes
        &&& g.partition_spec == self.table.metadata.default_partition_spec
        &&& g.partition_value is Some
        &&& g.partition_value->0@ == p.partition
    }

    /// Whether `groups` are the groups `plans`.
    pub open spec fn are_groups(self, groups: Seq<RewriteFileGroup>, plans: Seq<GroupPlan>) -> bool {
        &&& groups.len() == plans.len()
        &&& forall|i: int|
            0 <= i < groups.len() ==> self.is_group(#[trigger] groups[i], plans[i])
    }

    /// Create a new RewriteDataFiles action.
    pub fn new(table: &'a Table, rewriter: R) -> (action: Self)
        ensures
            action == (RewriteDataFiles {
                table,
                rewriter,
                target_file_size_bytes: DEFAULT_TARGET_FILE_SIZE_BYTES,
                min_file_size_bytes: DEFAULT_MIN_FILE_SIZE_BYTES,
                max_file_size_bytes: DEFAULT_MAX_FILE_SIZE_BYTES,
                min_input_files: DEFAULT_MIN_INPUT_FILES,
                max_file_group_size_bytes: DEFAULT_MAX_FILE_GROUP_SIZE_BYTES,
                partial_progress: false,
            }),
    {
        Self {
            table,
            rewriter,
            target_file_size_bytes: DEFAULT_TARGET_FILE_SIZE_BYTES,
            min_file_size_bytes: DEFAULT_MIN_FILE_SIZE_BYTES,
            max_file_size_bytes: DEFAULT_MAX_FILE_SIZE_BYTES,
            min_input_files: DEFAULT_MIN_INPUT_FILES,
            max_file_group_size_bytes: DEFAULT_MAX_FILE_GROUP_SIZE_BYTES,
            partial_progress: false,
        }
    }

    /// Set the target file size in bytes. Defaults to 512 MiB.
    pub fn target_file_size_bytes(self, size: u64) -> (action: Self)
        ensures
            action == (Self { target_file_size_bytes: size, ..self }),
    {
        Self { target_file_size_bytes: size, ..self }
    }

    /// Set the minimum file size in bytes. Files smaller than this are
    /// candidates for compaction. Defaults to 384 MiB (75% of target).
    pub fn min_file_size_bytes(self, size: u64) -> (action: Self)
        ensures
            action == (Self { min_file_size_bytes: size, ..self }),
    {
        Self { min_file_size_bytes: size, ..self }
    }

    /// Set the maximum file size in bytes. Files larger than this are
    /// candidates for compaction. Defaults to ~922 MiB (180% of target).
    pub fn max_file_size_bytes(self, size: u64) -> (action: Self)
        ensures
            action == (Self { max_file_size_bytes: size, ..self }),
    {
        Self { max_file_size_bytes: size, ..self }
    }

    /// Set the minimum number of candidate files in a partition to trigger
    /// compaction. Defaults to 5.
    pub fn min_input_files(self, n: usize) -> (action: Self)
        ensures
            action == (Self { min_input_files: n, ..self }),
    {
        Self { min_input_files: n, ..self }
    }

    /// Set the maximum size (in bytes) of a single file group passed to the
    /// [`FileRewriter`]. Defaults to 100 GiB.
    pub fn max_file_group_size_bytes(self, size: u64) -> (action: Self)
        ensures
            action == (Self { max_file_group_size_bytes: size, ..self }),
    {
        Self { max_file_group_size_bytes: size, ..self }
    }

    /// Enable partial progress mode. When enabled, each file group is
    /// committed independently so that a failure in one group does not
    /// abort the entire operation. Defaults to `false`.
    pub fn partial_progress(self, val: bool) -> (action: Self)
        ensures
            action == (Self { partial_progress: val, ..self }),
    {
        Self { partial_progress: val, ..self }
    }

    /// Select candidate files from a single partition. Only undersized or
    /// oversized files are candidates.
    pub fn select_candidates(&self, files: &Vec<DataFile>) -> (r: Vec<DataFile>)
        ensures
            r@ == files@.filter(self.candidate()),
    {
        let mut r: Vec<DataFile> = Vec::new();
        let mut i: usize = 0;
        proof {
            reveal(Seq::filter);
        }
        while i < files.len()
            invariant
                i <= files.len(),
                r@ == files@.take(i as int).filter(self.candidate()),
            decreases files.len() - i,
        {
            let f = &files[i];
            proof {
                seqs::lemma_filter_step(files@, self.candidate(), i as int);
            }
            if f.file_size_in_bytes < self.min_file_size_bytes || f.file_size_in_bytes
                > self.max_file_size_bytes {
                r.push(f.clone());
            }
            i = i + 1;
        }
        assert(files@.take(files.len() as int) =~= files@);
        r
    }

    /// A group for the rewriter.
    fn make_group(
        &self,
        tasks: Vec<FileScanTask>,
        partition_value: &Struct,
        partition_spec: &Arc<PartitionSpec>,
    ) -> (g: RewriteFileGroup)
        ensures
            g.tasks == tasks,
            g.target_file_size_bytes == self.target_file_size_bytes,
            g.partition_spec == *partition_spec,
            g.partition_value == Some(*partition_value),
    {
        RewriteFileGroup {
            tasks,
            target_file_size_bytes: self.target_file_size_bytes,
            partition_spec: Arc::clone(partition_spec),
            partition_value: Some(partition_value.clone()),
        }
    }

    /// Bin-pack candidate files into groups, each not exceeding
    /// `max_file_group_size_bytes` in total size unless it is a single file. Each
    /// group carries target_file_size_bytes and partition context for the rewriter.
    pub fn bin_pack(
        &self,
        candidates: &Vec<DataFile>,
        partition_value: &Struct,
        partition_spec: &Arc<PartitionSpec>,
    ) -> (groups: Vec<RewriteFileGroup>)
        ensures
            ({
                let packs = packed(candidates@, self.max_file_group_size_bytes as nat);
                &&& groups@.len() == packs.len()
                &&& forall|i: int|
                    0 <= i < groups@.len() ==> {
                        &&& (#[trigger] groups@[i]).files() == packs[i]
                        &&& groups@[i].target_file_size_bytes == self.target_file_size_bytes
                        &&& groups@[i].partition_spec == *partition_spec
                        &&& groups@[i].partition_value == Some(*partition_value)
                    }
            }),
    {
        let ghost max = self.max_file_group_size_bytes as nat;
        let mut groups: Vec<RewriteFileGroup> = Vec::new();
        let mut tasks: Vec<FileScanTask> = Vec::new();
        let mut size: u64 = 0;
        let mut i: usize = 0;
        while i < candidates.len()
            invariant
                max == self.max_file_group_size_bytes,
                i <= candidates.len(),
                i == 0 <==> tasks@.len() == 0,
                i == 0 ==> groups@.len() == 0 && size == 0,
                size == total_size(crate::file_rewriter::task_files(tasks@)),
                ({
                    let packs = packed(candidates@.take(i as int), max);
                    &&& packs.len() == groups@.len() + (if i == 0 {
                        0int
                    } else {
                        1int
                    })
                    &&& i > 0 ==> packs.last() == crate::file_rewriter::task_files(tasks@)
                    &&& forall|j: int|
                        0 <= j < groups@.len() ==> {
                            &&& (#[trigger] groups@[j]).files() == packs[j]
                            &&& groups@[j].target_file_size_bytes == self.target_file_size_bytes
                            &&& groups@[j].partition_spec == *partition_spec
                            &&& groups@[j].partition_value == Some(*partition_value)
                        }
                }),
            decreases candidates.len() - i,
        {
            let file = &candidates[i];
            let ghost before = packed(candidates@.take(i as int), max);
            let ghost held = crate::file_rewriter::task_files(tasks@);
            assert(candidates@.take(i + 1).drop_last() =~= candidates@.take(i as int));
            let room = match size.checked_add(file.file_size_in_bytes) {
                Some(sum) => sum <= self.max_file_group_size_bytes,
                None => false,
            };
            if tasks.len() > 0 && !room {
                let full = tasks;
                tasks = Vec::new();
                size = 0;
                groups.push(self.make_group(full, partition_value, partition_spec));
            }
            let ghost kept = crate::file_rewriter::task_files(tasks@);
            tasks.push(FileScanTask { data_file: file.clone() });
            proof {
                let now = crate::file_rewriter::task_files(tasks@);
                assert(now =~= kept.push(*file));
                assert(now.drop_last() =~= kept);
                assert(size == total_size(kept));
                if kept.len() == 0 {
                    assert(now =~= seq![*file]);
                } else {
                    assert(size + file.file_size_in_bytes <= max);
                }
            }
            size = size + file.file_size_in_bytes;
            i = i + 1;
        }
        assert(candidates@.take(candidates.len() as int) =~= candidates@);
        if tasks.len() > 0 {
            groups.push(self.make_group(tasks, partition_value, partition_spec));
        }
        groups
    }
}

/// Collects the data files that belong to the snapshot which `entries` come from.
fn collect_live_files(entries: &Vec<ManifestEntry>) -> (files: Vec<DataFile>)
    ensures
        files@ == live_files(entries@),
{
    let mut seen = StringHashSet::new();
    let mut files: Vec<DataFile> = Vec::new();
    let ghost file_of = |e: ManifestEntry| e.data_file;
    let ghost alive = rewrite_files::is_alive_entry();
    let mut i: usize = 0;
    proof {
        reveal(Seq::filter);
    }
    while i < entries.len()
        invariant
            file_of == (|e: ManifestEntry| e.data_file),
            alive == rewrite_files::is_alive_entry(),
            i <= entries.len(),
            ({
                let data = entries@.take(i as int).filter(is_data_entry());
                &&& forall|p: Seq<char>| #[trigger]
                    seen@.contains(p) <==> seqs::entry_paths(data).contains(p)
                &&& files@ == seqs::distinct_entries(data).filter(alive).map_values(file_of)
            }),
        decreases entries.len() - i,
    {
        let e = &entries[i];
        let ghost data = entries@.take(i as int).filter(is_data_entry());
        let ghost first = seqs::distinct_entries(data);
        proof {
            seqs::lemma_filter_step(entries@, is_data_entry(), i as int);
        }
        if e.data_file.content == DataContentType::Data {
            let ghost more = data.push(*e);
            let ghost held = seen@;
            assert(more.drop_last() =~= data);
            assert(seqs::entry_paths(more) == seqs::entry_paths(data).push(e.path()));
            if seen.insert(e.data_file.file_path.clone()) {
                assert(seqs::distinct_entries(more) == first.push(*e));
                proof {
                    let longer = first.push(*e);
                    assert(longer.take(first.len() as int) =~= first);
                    assert(longer.take(first.len() as int + 1) =~= longer);
                    seqs::lemma_filter_step(longer, alive, first.len() as int);
                }
                if e.is_alive() {
                    files.push(e.data_file.clone());
                }
            }
            assert forall|p: Seq<char>| #[trigger]
                seen@.contains(p) <==> seqs::entry_paths(more).contains(p) by {
                seqs::lemma_push_contains(seqs::entry_paths(data), e.path(), p);
                assert(held.contains(p) <==> seqs::entry_paths(data).contains(p));
            }
        }
        i = i + 1;
    }
    assert(entries@.take(entries.len() as int) =~= entries@);
    files
}

/// Files by partition, partitions in the order in which they first occur.
struct Partitioned {
    partitions: Vec<String>,
    buckets: Vec<Vec<DataFile>>,
}

impl Partitioned {
    /// These are the files `files`.
    spec fn holds(self, files: Seq<DataFile>) -> bool {
        &&& seqs::texts(self.partitions@) == seqs::distinct(partition_values(files))
        &&& self.buckets@.len() == self.partitions@.len()
        &&& forall|j: int|
            0 <= j < self.buckets@.len() ==> (#[trigger] self.buckets@[j])@ == files.filter(
                in_partition(self.partitions@[j]@),
            )
    }
}

/// Sorts files by partition.
fn partition_files(files: &Vec<DataFile>) -> (r: Partitioned)
    ensures
        r.holds(files@),
{
    let mut r = Partitioned { partitions: Vec::new(), buckets: Vec::new() };
    let mut places: StringHashMap<usize> = StringHashMap::new();
    let mut i: usize = 0;
    let ghost values = partition_values(files@);
    proof {
        reveal(Seq::filter);
        assert(partition_values(files@.take(0)) =~= Seq::<Seq<char>>::empty());
        assert(seqs::texts(r.partitions@) =~= Seq::<Seq<char>>::empty());
    }
    while i < files.len()
        invariant
            values == partition_values(files@),
            i <= files.len(),
            r.holds(files@.take(i as int)),
            forall|p: Seq<char>| #[trigger]
                places@.contains_key(p) <==> seqs::texts(r.partitions@).contains(p),
            forall|p: Seq<char>| #[trigger]
                places@.contains_key(p) ==> places@[p] < r.partitions@.len()
                    && r.partitions@[places@[p] as int]@ == p,
        decreases files.len() - i,
    {
        let f = &files[i];
        let ghost front = files@.take(i as int);
        let ghost more = files@.take(i + 1);
        let ghost parts = seqs::texts(r.partitions@);
        let ghost known = places@;
        let ghost value = f.partition@;
        proof {
            assert(partition_values(front) =~= values.take(i as int));
            assert(partition_values(more) =~= values.take(i + 1));
            seqs::lemma_extend_distinct_step(Seq::empty(), values, i as int);
            seqs::lemma_extend_distinct(Seq::empty(), values.take(i as int));
            assert forall|p: Seq<char>| #[trigger] more.filter(in_partition(p)) == (if p == value {
                front.filter(in_partition(p)).push(*f)
            } else {
                front.filter(in_partition(p))
            }) by {
                seqs::lemma_filter_step(files@, in_partition(p), i as int);
            }
        }
        match places.get(f.partition.encoding.as_str()) {
            Some(place) => {
                let at: usize = *place;
                let ghost buckets = r.buckets@;
                assert(parts.contains(value));
                r.buckets[at].push(f.clone());
                assert forall|j: int| 0 <= j < r.buckets@.len() implies (
                #[trigger] r.buckets@[j])@ == more.filter(in_partition(r.partitions@[j]@)) by {
                    assert(buckets[j]@ == front.filter(in_partition(r.partitions@[j]@)));
                    if j != at {
                        assert(parts[j] != parts[at as int]);
                    }
                }
            },
            None => {
                let ghost buckets = r.buckets@;
                let at: usize = r.partitions.len();
                assert(!parts.contains(value));
                places.insert(f.partition.encoding.clone(), at);
                r.partitions.push(f.partition.encoding.clone());
                let mut bucket: Vec<DataFile> = Vec::new();
                bucket.push(f.clone());
                r.buckets.push(bucket);
                proof {
                    assert forall|k: int| 0 <= k < front.len() implies !in_partition(value)(
                        #[trigger] front[k],
                    ) by {
                        assert(values.take(i as int)[k] == front[k].partition@);
                        assert(values.take(i as int).contains(front[k].partition@));
                    }
                    lemma_filter_none(front, in_partition(value));
                    assert(bucket@ =~= more.filter(in_partition(value)));
                    assert forall|j: int| 0 <= j < r.buckets@.len() implies (
                    #[trigger] r.buckets@[j])@ == more.filter(in_partition(r.partitions@[j]@)) by {
                        if j < buckets.len() {
                            assert(buckets[j]@ == front.filter(in_partition(r.partitions@[j]@)));
                            assert(parts.contains(parts[j]));
                        }
                    }
                    assert forall|p: Seq<char>| #[trigger]
                        places@.contains_key(p) <==> seqs::texts(r.partitions@).contains(p) by {
                        seqs::lemma_push_contains(parts, value, p);
                        assert(known.contains_key(p) <==> parts.contains(p));
                    }
                    assert forall|p: Seq<char>| #[trigger] places@.contains_key(p) implies
                        places@[p] < r.partitions@.len() && r.partitions@[places@[p] as int]@
                        == p by {
                        if p != value {
                            assert(known.contains_key(p));
                        }
                    }
                }
            },
        }
        i = i + 1;
    }
    assert(files@.take(files.len() as int) =~= files@);
    r
}

/// A filter that no element passes lets nothing through.
proof fn lemma_filter_none<A>(s: Seq<A>, keep: spec_fn(A) -> bool)
    requires
        forall|i: int| 0 <= i < s.len() ==> !keep(#[trigger] s[i]),
    ensures
        s.filter(keep) == Seq::<A>::empty(),
    decreases s.len(),
{
    reveal(Seq::filter);
    if s.len() > 0 {
        assert(!keep(s[s.len() - 1]));
        assert forall|i: int| 0 <= i < s.drop_last().len() implies !keep(
            #[trigger] s.drop_last()[i],
        ) by {
            assert(!keep(s[i]));
        }
        lemma_filter_none(s.drop_last(), keep);
    }
}

impl<'a, R: FileRewriter> RewriteDataFiles<'a, R> {
    /// The groups to rewrite.
    pub fn plan_groups(&self, files: &Vec<DataFile>) -> (groups: Vec<RewriteFileGroup>)
        ensures
            self.are_groups(groups@, self.plan(files@)),
    {
        let sorted = partition_files(files);
        let ghost partitions = seqs::texts(sorted.partitions@);
        let mut groups: Vec<RewriteFileGroup> = Vec::new();
        let mut i: usize = 0;
        while i < sorted.buckets.len()
            invariant
                sorted.holds(files@),
                partitions == seqs::texts(sorted.partitions@),
                i <= sorted.buckets.len(),
                self.are_groups(groups@, self.plan_of(files@, partitions.take(i as int))),
            decreases sorted.buckets.len() - i,
        {
            let ghost partition = partitions[i as int];
            let ghost before = self.plan_of(files@, partitions.take(i as int));
            assert(partitions.take(i + 1).drop_last() =~= partitions.take(i as int));
            assert(sorted.buckets@[i as int]@ == files@.filter(in_partition(partition)));
            let candidates = self.select_candidates(&sorted.buckets[i]);
            if candidates.len() >= self.min_input_files {
                let value = Struct { encoding: sorted.partitions[i].clone() };
                let mut packs = self.bin_pack(
                    &candidates,
                    &value,
                    &self.table.metadata.default_partition_spec,
                );
                let ghost old_groups = groups@;
                let ghost new_groups = packs@;
                groups.append(&mut packs);
                proof {
                    let plan = self.partition_plan(files@, partition);
                    assert forall|j: int| 0 <= j < groups@.len() implies self.is_group(
                        #[trigger] groups@[j],
                        (before + plan)[j],
                    ) by {
                        if j < old_groups.len() {
                            assert(self.is_group(old_groups[j], before[j]));
                        } else {
                            let k = j - old_groups.len();
                            assert(groups@[j] == new_groups[k]);
                        }
                    }
                }
            } else {
                assert(self.plan_of(files@, partitions.take(i + 1)) =~= before);
            }
            i = i + 1;
        }
        assert(partitions.take(sorted.buckets.len() as int) =~= partitions);
        groups
    }
}

/// What has been read of the current snapshot so far.
#[verifier::ext_equal]
pub struct RewriteReads {
    /// The entries of the data manifests that have been read.
    pub entries: Seq<ManifestEntry>,
    /// The data manifests that are still to be read.
    pub queue: Seq<Seq<char>>,
}

impl RewriteReads {
    /// Nothing has been read.
    pub open spec fn start() -> RewriteReads {
        RewriteReads { entries: Seq::empty(), queue: Seq::empty() }
    }

    /// The manifest list was read: its data manifests are to be read.
    pub open spec fn with_list(self, manifests: Seq<ManifestFile>) -> RewriteReads {
        RewriteReads { queue: seqs::manifest_paths(manifests.filter(reads_data())), ..self }
    }

    /// The next manifest of the queue was read.
    pub open spec fn with_entries(self, entries: Seq<ManifestEntry>) -> RewriteReads {
        RewriteReads { entries: self.entries + entries, queue: self.queue.drop_first() }
    }
}

/// How far the rewriting of the groups has come.
#[verifier::ext_equal]
pub struct RewriteProgress {
    /// The groups that are still to be rewritten.
    pub groups: Seq<GroupPlan>,
    /// The files that the next commit removes.
    pub delete: Seq<DataFile>,
    /// The files that the next commit adds.
    pub add: Seq<DataFile>,
    /// What the groups that are done count for, with partial progress.
    pub result: RewriteDataFilesResult,
}

impl RewriteProgress {
    /// No group has been rewritten.
    pub open spec fn start(groups: Seq<GroupPlan>) -> RewriteProgress {
        RewriteProgress {
            groups,
            delete: Seq::empty(),
            add: Seq::empty(),
            result: RewriteDataFilesResult::nothing(),
        }
    }

    /// The files to remove once the next group has been rewritten: with partial
    /// progress those of the group, otherwise those of all groups so far.
    pub open spec fn next_delete(self, partial: bool) -> Seq<DataFile> {
        if partial {
            self.groups[0].files
        } else {
            self.delete + self.groups[0].files
        }
    }

    /// The next group was rewritten to the files `new`.
    pub open spec fn rewritten(self, partial: bool, new: Seq<DataFile>) -> RewriteProgress {
        RewriteProgress {
            groups: self.groups.drop_first(),
            delete: self.next_delete(partial),
            add: if partial {
                new
            } else {
                self.add + new
            },
            ..self
        }
    }

    /// The next group could not be rewritten.
    pub open spec fn skipped(self) -> RewriteProgress {
        RewriteProgress { groups: self.groups.drop_first(), ..self }.with_failed(
            self.groups[0].files.len(),
        )
    }

    /// `n` more files count as failed.
    pub open spec fn with_failed(self, n: nat) -> RewriteProgress {
        RewriteProgress {
            result: RewriteDataFilesResult {
                failed_data_files_count: (self.result.failed_data_files_count + (
                n as u32)) as u32,
                ..self.result
            },
            ..self
        }
    }

    /// The last group could not be committed.
    pub open spec fn failed(self) -> RewriteProgress {
        self.with_failed(self.delete.len())
    }

    /// The last group was committed.
    pub open spec fn committed(self) -> RewriteProgress {
        RewriteProgress {
            result: RewriteDataFilesResult {
                rewritten_data_files_count: (self.result.rewritten_data_files_count + (
                self.delete.len() as u32)) as u32,
                added_data_files_count: (self.result.added_data_files_count + (
                self.add.len() as u32)) as u32,
                rewritten_bytes_count: (self.result.rewritten_bytes_count + total_size(
                    self.delete,
                )) as u64,
                ..self.result
            },
            ..self
        }
    }

    /// Whether `n` more failed files can be counted.
    pub open spec fn can_count_failed(self, n: nat) -> bool {
        self.result.failed_data_files_count + (n as u32) <= u32::MAX
    }

    /// Whether the last group can be counted as rewritten.
    pub open spec fn can_count_committed(self) -> bool {
        &&& self.result.rewritten_data_files_count + (self.delete.len() as u32) <= u32::MAX
        &&& self.result.added_data_files_count + (self.add.len() as u32) <= u32::MAX
        &&& self.result.rewritten_bytes_count + total_size(self.delete) <= u64::MAX
    }

    /// The result of one commit for all groups.
    pub open spec fn total(self) -> RewriteDataFilesResult {
        RewriteDataFilesResult {
            rewritten_data_files_count: self.delete.len() as u32,
            added_data_files_count: self.add.len() as u32,
            rewritten_bytes_count: total_size(self.delete) as u64,
            failed_data_files_count: 0,
            removed_delete_files_count: 0,
        }
    }
}

/// What the rewrite-data-files action needs next from outside.
pub enum RewriteStep<'a, R: FileRewriter> {
    /// The action is over.
    Finished(Result<RewriteDataFilesResult, Error>),
    /// Load a manifest list.
    LoadManifestList(RewriteListPending<'a, R>),
    /// Read a manifest.
    ReadManifest(RewriteManifestPending<'a, R>),
    /// Have a group rewritten.
    Rewrite(RewriteGroupPending<'a, R>),
    /// Load the table anew from the catalog.
    ReloadTable(RewriteReloadPending<'a, R>),
    /// Apply the action that replaces the files to a transaction: on the table loaded
    /// last, where it was loaded anew.
    Apply(RewriteApplyPending<'a, R>),
    /// Commit the transaction.
    Commit(RewriteCommitPending<'a, R>),
    /// Delete output files that were written in vain, going on where a deletion fails.
    CleanUp(RewriteCleanup<'a, R>),
}

/// A rewrite-data-files action that reads the current snapshot.
pub struct RewriteReading<'a, R: FileRewriter> {
    pub action: RewriteDataFiles<'a, R>,
    pub snapshot: &'a Snapshot,
    pub entries: Vec<ManifestEntry>,
    pub queue: Vec<String>,
    pub queue_read: usize,
}

impl<'a, R: FileRewriter> RewriteReading<'a, R> {
    /// What has been read so far.
    pub open spec fn reads(self) -> RewriteReads {
        RewriteReads {
            entries: self.entries@,
            queue: seqs::texts(self.queue@).skip(self.queue_read as int),
        }
    }

    /// The reading is consistent.
    pub open spec fn wf(self) -> bool {
        &&& self.action.table.metadata.current() == Some(*self.snapshot)
        &&& self.queue_read <= self.queue@.len()
    }

    /// The reading is at `reads`.
    pub open spec fn is_at(self, action: RewriteDataFiles<'a, R>, reads: RewriteReads) -> bool {
        &&& self.wf()
        &&& self.action == action
        &&& self.reads() == reads
    }
}

/// A rewrite-data-files action that rewrites groups.
pub struct RewriteRun<'a, R: FileRewriter> {
    pub action: RewriteDataFiles<'a, R>,
    /// The snapshot from which the rewrite was planned.
    pub snapshot: &'a Snapshot,
    pub groups: Vec<RewriteFileGroup>,
    pub groups_done: usize,
    pub delete: Vec<DataFile>,
    pub add: Vec<DataFile>,
    pub result: RewriteDataFilesResult,
}

impl<'a, R: FileRewriter> RewriteRun<'a, R> {
    /// How far the run has come.
    pub open spec fn progress(self) -> RewriteProgress {
        RewriteProgress {
            groups: self.groups@.skip(self.groups_done as int).map_values(
                |g: RewriteFileGroup| group_plan(g),
            ),
            delete: self.delete@,
            add: self.add@,
            result: self.result,
        }
    }

    /// The run is consistent.
    pub open spec fn wf(self) -> bool {
        &&& self.action.table.metadata.current() == Some(*self.snapshot)
        &&& self.groups_done <= self.groups@.len()
        &&& forall|i: int|
            0 <= i < self.groups@.len() ==> self.action.is_group(
                #[trigger] self.groups@[i],
                group_plan(self.groups@[i]),
            )
        &&& total_size(self.delete@) <= u64::MAX
    }

    /// The run is at `progress`.
    pub open spec fn is_at(self, action: RewriteDataFiles<'a, R>, progress: RewriteProgress) -> bool {
        &&& self.wf()
        &&& self.action == action
        &&& self.progress() == progress
    }
}

/// What comes next once `reads` have been made: the manifests of the queue, and then
/// the groups, if there are any.
pub open spec fn continues<'a, R: FileRewriter>(
    action: RewriteDataFiles<'a, R>,
    reads: RewriteReads,
    step: RewriteStep<'a, R>,
) -> bool {
    let plan = action.plan(live_files(reads.entries));
    if reads.queue.len() > 0 {
        &&& step is ReadManifest
        &&& step->ReadManifest_0.reading.is_at(action, reads)
    } else if plan.len() == 0 {
        step == RewriteStep::<'a, R>::Finished(Ok(RewriteDataFilesResult::nothing()))
    } else {
        next_group(action, RewriteProgress::start(plan), step)
    }
}

/// What comes next between groups: the next one; and after the last one the result,
/// with partial progress, and otherwise the commit for all.
pub open spec fn next_group<'a, R: FileRewriter>(
    action: RewriteDataFiles<'a, R>,
    progress: RewriteProgress,
    step: RewriteStep<'a, R>,
) -> bool {
    if progress.groups.len() > 0 {
        &&& step is Rewrite
        &&& step->Rewrite_0.run.is_at(action, progress)
    } else if action.partial_progress {
        step == RewriteStep::<'a, R>::Finished(Ok(progress.result))
    } else {
        &&& step is Apply
        &&& step->Apply_0.run.is_at(action, progress)
    }
}

/// The manifest list of the current snapshot is waiting to be loaded.
pub struct RewriteListPending<'a, R: FileRewriter> {
    pub reading: RewriteReading<'a, R>,
}

/// A manifest is waiting to be read.
pub struct RewriteManifestPending<'a, R: FileRewriter> {
    pub reading: RewriteReading<'a, R>,
}

/// A group is waiting to be rewritten.
pub struct RewriteGroupPending<'a, R: FileRewriter> {
    pub run: RewriteRun<'a, R>,
}

/// The table is waiting to be loaded anew.
pub struct RewriteReloadPending<'a, R: FileRewriter> {
    pub run: RewriteRun<'a, R>,
}

/// The action that replaces files is waiting to be applied to a transaction.
pub struct RewriteApplyPending<'a, R: FileRewriter> {
    pub run: RewriteRun<'a, R>,
}

/// The transaction is waiting to be committed.
pub struct RewriteCommitPending<'a, R: FileRewriter> {
    pub run: RewriteRun<'a, R>,
}

/// Output files are waiting to be deleted.
pub struct RewriteCleanup<'a, R: FileRewriter> {
    pub run: RewriteRun<'a, R>,
    /// The error that then ends the action, if any.
    pub error: Option<Error>,
}

/// Sizes add up.
pub proof fn lemma_total_size_add(a: Seq<DataFile>, b: Seq<DataFile>)
    ensures
        total_size(a + b) == total_size(a) + total_size(b),
    decreases b.len(),
{
    if b.len() == 0 {
        assert(a + b =~= a);
    } else {
        assert((a + b).drop_last() =~= a + b.drop_last());
        lemma_total_size_add(a, b.drop_last());
    }
}

/// `start` and the sizes of the files together, or `None` where that does not fit into
/// 64 bits.
fn sum_sizes(start: u64, files: &Vec<DataFile>) -> (r: Option<u64>)
    ensures
        match r {
            Some(sum) => sum == start + total_size(files@),
            None => start + total_size(files@) > u64::MAX,
        },
{
    let mut sum: u64 = start;
    let mut i: usize = 0;
    while i < files.len()
        invariant
            i <= files.len(),
            sum == start + total_size(files@.take(i as int)),
        decreases files.len() - i,
    {
        assert(files@.take(i + 1).drop_last() =~= files@.take(i as int));
        assert(files@ =~= files@.take(i + 1) + files@.skip(i + 1));
        proof {
            lemma_total_size_add(files@.take(i + 1), files@.skip(i + 1));
        }
        match sum.checked_add(files[i].file_size_in_bytes) {
            Some(n) => {
                sum = n;
            },
            None => {
                return None;
            },
        }
        i = i + 1;
    }
    assert(files@.take(files.len() as int) =~= files@);
    Some(sum)
}

/// A copy of a list of data files.
fn clone_files(files: &Vec<DataFile>) -> (r: Vec<DataFile>)
    ensures
        r@ == files@,
{
    let mut r: Vec<DataFile> = Vec::new();
    let mut i: usize = 0;
    while i < files.len()
        invariant
            i <= files.len(),
            r@ == files@.take(i as int),
        decreases files.len() - i,
    {
        r.push(files[i].clone());
        assert(r@ =~= files@.take(i + 1));
        i = i + 1;
    }
    assert(files@.take(files.len() as int) =~= files@);
    r
}

/// The paths of the manifests that list data files.
fn data_manifest_paths(manifests: &Vec<ManifestFile>) -> (paths: Vec<String>)
    ensures
        seqs::texts(paths@) == seqs::manifest_paths(manifests@.filter(reads_data())),
{
    let mut paths: Vec<String> = Vec::new();
    let mut i: usize = 0;
    proof {
        reveal(Seq::filter);
    }
    assert(seqs::texts(paths@) =~= seqs::manifest_paths(manifests@.take(0).filter(reads_data())));
    while i < manifests.len()
        invariant
            i <= manifests.len(),
            seqs::texts(paths@) == seqs::manifest_paths(
                manifests@.take(i as int).filter(reads_data()),
            ),
        decreases manifests.len() - i,
    {
        proof {
            seqs::lemma_filter_step(manifests@, reads_data(), i as int);
        }
        if manifests[i].content == ManifestContentType::Data {
            paths.push(manifests[i].manifest_path.clone());
        }
        i = i + 1;
    }
    assert(manifests@.take(manifests.len() as int) =~= manifests@);
    paths
}

impl<'a, R: FileRewriter> RewriteDataFiles<'a, R> {
    /// Execute the rewrite data files action: do nothing where the table has no
    /// snapshot, and otherwise begin to read the current one.
    pub fn execute(self) -> (step: RewriteStep<'a, R>)
        requires
            self.table.metadata.current_is_known(),
        ensures
            self.table.metadata.current() is None ==> step == RewriteStep::<'a, R>::Finished(
                Ok(RewriteDataFilesResult::nothing()),
            ),
            self.table.metadata.current() is Some ==> {
                &&& step is LoadManifestList
                &&& step->LoadManifestList_0.reading.is_at(self, RewriteReads::start())
            },
    {
        let snapshot = match self.table.metadata.current_snapshot() {
            Some(s) => s,
            None => {
                return RewriteStep::Finished(Ok(RewriteDataFilesResult::default()));
            },
        };
        let reading = RewriteReading {
            action: self,
            snapshot,
            entries: Vec::new(),
            queue: Vec::new(),
            queue_read: 0,
        };
        assert(reading.reads() =~= RewriteReads::start());
        RewriteStep::LoadManifestList(RewriteListPending { reading })
    }
}

impl<'a, R: FileRewriter> RewriteReading<'a, R> {
    /// Goes on to what comes next.
    fn advance(self) -> (step: RewriteStep<'a, R>)
        requires
            self.wf(),
        ensures
            continues(self.action, self.reads(), step),
    {
        assert(seqs::texts(self.queue@).len() == self.queue@.len());
        if self.queue_read < self.queue.len() {
            return RewriteStep::ReadManifest(RewriteManifestPending { reading: self });
        }
        let files = collect_live_files(&self.entries);
        let groups = self.action.plan_groups(&files);
        if groups.len() == 0 {
            return RewriteStep::Finished(Ok(RewriteDataFilesResult::default()));
        }
        let run = RewriteRun {
            action: self.action,
            snapshot: self.snapshot,
            groups,
            groups_done: 0,
            delete: Vec::new(),
            add: Vec::new(),
            result: RewriteDataFilesResult::default(),
        };
        proof {
            let plan = self.action.plan(live_files(self.entries@));
            assert(run.groups@.skip(0) =~= run.groups@);
            assert forall|i: int| 0 <= i < plan.len() implies group_plan(
                #[trigger] run.groups@[i],
            ) == plan[i] by {
                assert(self.action.is_group(run.groups@[i], plan[i]));
            }
            assert(run.progress() =~= RewriteProgress::start(plan));
        }
        RewriteStep::Rewrite(RewriteGroupPending { run })
    }
}

impl<'a, R: FileRewriter> RewriteListPending<'a, R> {
    /// The manifest list is to be loaded.
    pub open spec fn ready(self) -> bool {
        &&& self.reading.wf()
        &&& self.reading.reads().queue.len() == 0
    }

    /// Where the manifest list is.
    pub fn path(&self) -> (path: &str)
        ensures
            path@ == self.reading.snapshot.manifest_list@,
    {
        self.reading.snapshot.manifest_list.as_str()
    }

    /// Goes on with the manifests of the list; an error ends the action.
    pub fn resume(self, outcome: Result<Vec<ManifestFile>, Error>) -> (step: RewriteStep<'a, R>)
        requires
            self.ready(),
        ensures
            outcome matches Err(e) ==> step == RewriteStep::<'a, R>::Finished(Err(e)),
            outcome matches Ok(manifests) ==> continues(
                self.reading.action,
                self.reading.reads().with_list(manifests@),
                step,
            ),
    {
        let manifests = match outcome {
            Err(e) => {
                return RewriteStep::Finished(Err(e));
            },
            Ok(manifests) => manifests,
        };
        let ghost before = self.reading.reads();
        let mut reading = self.reading;
        reading.queue = data_manifest_paths(&manifests);
        reading.queue_read = 0;
        assert(reading.reads() =~= before.with_list(manifests@));
        reading.advance()
    }
}

impl<'a, R: FileRewriter> RewriteManifestPending<'a, R> {
    /// A manifest is waiting to be read.
    pub open spec fn ready(self) -> bool {
        &&& self.reading.wf()
        &&& self.reading.reads().queue.len() > 0
    }

    /// Where the manifest is.
    pub fn path(&self) -> (path: &str)
        requires
            self.ready(),
        ensures
            path@ == self.reading.reads().queue[0],
    {
        assert(seqs::texts(self.reading.queue@).len() == self.reading.queue@.len());
        self.reading.queue[self.reading.queue_read].as_str()
    }

    /// Goes on with the entries of the manifest; an error ends the action.
    pub fn resume(self, outcome: Result<Vec<ManifestEntry>, Error>) -> (step: RewriteStep<'a, R>)
        requires
            self.ready(),
        ensures
            outcome matches Err(e) ==> step == RewriteStep::<'a, R>::Finished(Err(e)),
            outcome matches Ok(entries) ==> continues(
                self.reading.action,
                self.reading.reads().with_entries(entries@),
                step,
            ),
    {
        let mut entries = match outcome {
            Err(e) => {
                return RewriteStep::Finished(Err(e));
            },
            Ok(entries) => entries,
        };
        let ghost before = self.reading.reads();
        let ghost read = entries@;
        let mut reading = self.reading;
        assert(seqs::texts(reading.queue@).len() == reading.queue@.len());
        reading.entries.append(&mut entries);
        assert(reading.queue_read < reading.queue.len());
        reading.queue_read = reading.queue_read + 1;
        assert(reading.reads() =~= before.with_entries(read));
        reading.advance()
    }
}

impl<'a, R: FileRewriter> RewriteRun<'a, R> {
    /// Goes on to what comes next between groups.
    fn advance(self) -> (step: RewriteStep<'a, R>)
        requires
            self.wf(),
        ensures
            next_group(self.action, self.progress(), step),
    {
        if self.groups_done < self.groups.len() {
            RewriteStep::Rewrite(RewriteGroupPending { run: self })
        } else if self.action.partial_progress {
            RewriteStep::Finished(Ok(self.result))
        } else {
            RewriteStep::Apply(RewriteApplyPending { run: self })
        }
    }

    /// Counts files as failed.
    fn count_failed(&mut self, n: usize)
        requires
            old(self).wf(),
            old(self).progress().can_count_failed(n as nat),
        ensures
            final(self).wf(),
            final(self).action == old(self).action,
            final(self).progress() == old(self).progress().with_failed(n as nat),
    {
        let ghost before = self.progress();
        #[verifier::truncate]
        let count: u32 = n as u32;
        self.result.failed_data_files_count = self.result.failed_data_files_count + count;
        assert(self.progress() =~= before.with_failed(n as nat));
    }
}

impl<'a, R: FileRewriter> RewriteGroupPending<'a, R> {
    /// A group is waiting to be rewritten.
    pub open spec fn ready(self) -> bool {
        &&& self.run.wf()
        &&& self.run.progress().groups.len() > 0
    }

    /// Whether the bytes of the files to remove can be counted, with this group.
    pub open spec fn bytes_fit(self) -> bool {
        total_size(self.run.progress().next_delete(self.run.action.partial_progress)) <= u64::MAX
    }

    /// Tells whether the bytes of the files to remove can be counted, with this group.
    pub fn can_count_bytes(&self) -> (r: bool)
        requires
            self.ready(),
        ensures
            r == self.bytes_fit(),
    {
        let files = self.run.groups[self.run.groups_done].data_files_for_delete();
        proof {
            lemma_total_size_add(self.run.delete@, files@);
        }
        let start: u64 = if self.run.action.partial_progress {
            0
        } else {
            match sum_sizes(0, &self.run.delete) {
                Some(sum) => sum,
                None => {
                    return false;
                },
            }
        };
        sum_sizes(start, &files).is_some()
    }

    /// Tells whether the files of this group can be counted as failed.
    pub fn can_count_failed(&self) -> (r: bool)
        requires
            self.ready(),
        ensures
            r == self.run.progress().can_count_failed(self.run.progress().groups[0].files.len()),
    {
        #[verifier::truncate]
        let count: u32 = self.run.groups[self.run.groups_done].tasks.len() as u32;
        self.run.result.failed_data_files_count <= u32::MAX - count
    }

    /// Hands the group to the rewriter.
    pub fn rewrite(&self) -> (outcome: RewriteOutcome)
        requires
            self.ready(),
            self.bytes_fit(),
        ensures
            exists|g: RewriteFileGroup|
                self.run.action.is_group(g, self.run.progress().groups[0]) && #[trigger] call_ensures(
                    R::rewrite,
                    (&self.run.action.rewriter, self.run.action.table, g),
                    outcome,
                ),
    {
        let group = self.run.groups[self.run.groups_done].clone();
        let ghost g = group;
        assert(self.run.action.is_group(g, self.run.progress().groups[0]));
        let outcome = self.run.action.rewriter.rewrite(self.run.action.table, group);
        assert(call_ensures(
            R::rewrite,
            (&self.run.action.rewriter, self.run.action.table, g),
            outcome,
        ));
        outcome
    }

    /// Goes on with the files that the group was rewritten to. Without partial
    /// progress an error ends the action; with it the files of the group count as
    /// failed.
    pub fn resume(self, outcome: Result<Vec<DataFile>, Error>) -> (step: RewriteStep<'a, R>)
        requires
            self.ready(),
            self.bytes_fit(),
            self.run.action.partial_progress && outcome is Err
                ==> self.run.progress().can_count_failed(self.run.progress().groups[0].files.len()),
        ensures
            !self.run.action.partial_progress ==> match outcome {
                Err(e) => step == RewriteStep::<'a, R>::Finished(Err(e)),
                Ok(new) => next_group(
                    self.run.action,
                    self.run.progress().rewritten(false, new@),
                    step,
                ),
            },
            self.run.action.partial_progress ==> match outcome {
                Err(_) => next_group(self.run.action, self.run.progress().skipped(), step),
                Ok(new) => {
                    &&& step is ReloadTable
                    &&& step->ReloadTable_0.run.is_at(
                        self.run.action,
                        self.run.progress().rewritten(true, new@),
                    )
                },
            },
    {
        let ghost before = self.run.progress();
        let mut run = self.run;
        let mut files = run.groups[run.groups_done].data_files_for_delete();
        let ghost rest = run.groups@.skip(run.groups_done as int);
        assert(run.groups@.skip(run.groups_done + 1) =~= rest.drop_first());
        assert(files@ == before.groups[0].files);
        let count: usize = files.len();
        assert(run.groups_done < run.groups.len());
        run.groups_done = run.groups_done + 1;
        assert(run.progress().groups =~= before.groups.drop_first());
        match outcome {
            Err(e) => {
                if run.action.partial_progress {
                    run.count_failed(count);
                    assert(run.progress() =~= before.skipped());
                    run.advance()
                } else {
                    RewriteStep::Finished(Err(e))
                }
            },
            Ok(new) => {
                let ghost added = new@;
                if run.action.partial_progress {
                    run.delete = files;
                    run.add = new;
                    assert(run.progress() =~= before.rewritten(true, added));
                    RewriteStep::ReloadTable(RewriteReloadPending { run })
                } else {
                    let mut new = new;
                    run.delete.append(&mut files);
                    run.add.append(&mut new);
                    assert(run.progress() =~= before.rewritten(false, added));
                    run.advance()
                }
            },
        }
    }
}

impl<'a, R: FileRewriter> RewriteReloadPending<'a, R> {
    /// The table to load.
    pub fn identifier(&self) -> (identifier: &str)
        ensures
            identifier@ == self.run.action.table.identifier@,
    {
        self.run.action.table.identifier.as_str()
    }

    /// Tells whether the files of this group can be counted as failed.
    pub fn can_count_failed(&self) -> (r: bool)
        ensures
            r == self.run.progress().can_count_failed(self.run.progress().delete.len()),
    {
        #[verifier::truncate]
        let count: u32 = self.run.delete.len() as u32;
        self.run.result.failed_data_files_count <= u32::MAX - count
    }

    /// Goes on once the table has been loaded anew. Where that failed, the output files
    /// of the group are deleted and its files count as failed.
    pub fn resume(self, outcome: Result<(), Error>) -> (step: RewriteStep<'a, R>)
        requires
            self.run.wf(),
            outcome is Err ==> self.run.progress().can_count_failed(
                self.run.progress().delete.len(),
            ),
        ensures
            match outcome {
                Err(_) => {
                    &&& step is CleanUp
                    &&& step->CleanUp_0.error is None
                    &&& step->CleanUp_0.run.is_at(self.run.action, self.run.progress().failed())
                },
                Ok(_) => {
                    &&& step is Apply
                    &&& step->Apply_0.run == self.run
                },
            },
    {
        match outcome {
            Err(_) => {
                let mut run = self.run;
                let count: usize = run.delete.len();
                run.count_failed(count);
                RewriteStep::CleanUp(RewriteCleanup { run, error: None })
            },
            Ok(_) => RewriteStep::Apply(RewriteApplyPending { run: self.run }),
        }
    }
}

impl<'a, R: FileRewriter> RewriteApplyPending<'a, R> {
    /// The action that replaces the files, valid only while the table descends from
    /// the snapshot from which the rewrite was planned and has got no new deletes.
    pub fn action(&self) -> (action: RewriteFilesAction)
        requires
            self.run.wf(),
        ensures
            action.files_to_delete@ == self.run.progress().delete,
            action.files_to_add@ == self.run.progress().add,
            action.starting_snapshot_id == Some(
                self.run.action.table.metadata.current()->0.snapshot_id,
            ),
            action.data_sequence_number == Some(
                self.run.action.table.metadata.current()->0.sequence_number,
            ),
            action.commit_uuid is None,
            action.snapshot_properties@ == Map::<Seq<char>, String>::empty(),
    {
        let action = RewriteFilesAction::new().delete_files(clone_files(&self.run.delete)).add_files(
            clone_files(&self.run.add),
        ).validate_from_snapshot(self.run.snapshot.snapshot_id).data_sequence_number(
            self.run.snapshot.sequence_number,
        );
        assert(action.files_to_delete@ =~= self.run.delete@);
        assert(action.files_to_add@ =~= self.run.add@);
        action
    }

    /// Tells whether the files of this group can be counted as failed.
    pub fn can_count_failed(&self) -> (r: bool)
        ensures
            r == self.run.progress().can_count_failed(self.run.progress().delete.len()),
    {
        #[verifier::truncate]
        let count: u32 = self.run.delete.len() as u32;
        self.run.result.failed_data_files_count <= u32::MAX - count
    }

    /// Goes on once the action has been applied. Where that failed, without partial
    /// progress the action ends with an error that quotes the reason; with it the
    /// output files of the group are deleted and its files count as failed.
    pub fn resume(self, outcome: Result<(), String>) -> (step: RewriteStep<'a, R>)
        requires
            self.run.wf(),
            self.run.action.partial_progress && outcome is Err
                ==> self.run.progress().can_count_failed(self.run.progress().delete.len()),
        ensures
            outcome is Ok ==> {
                &&& step is Commit
                &&& step->Commit_0.run == self.run
            },
            outcome matches Err(reason) ==> if self.run.action.partial_progress {
                &&& step is CleanUp
                &&& step->CleanUp_0.error is None
                &&& step->CleanUp_0.run.is_at(self.run.action, self.run.progress().failed())
            } else {
                &&& step is Finished
                &&& step->Finished_0 is Err
                &&& step->Finished_0->Err_0.says(
                    ErrorKind::Unexpected,
                    "Failed to apply rewrite files action: "@ + reason@,
                )
            },
    {
        match outcome {
            Ok(_) => RewriteStep::Commit(RewriteCommitPending { run: self.run }),
            Err(reason) => {
                if self.run.action.partial_progress {
                    let mut run = self.run;
                    let count: usize = run.delete.len();
                    run.count_failed(count);
                    RewriteStep::CleanUp(RewriteCleanup { run, error: None })
                } else {
                    let mut message = "Failed to apply rewrite files action: ".to_owned();
                    message.append(reason.as_str());
                    RewriteStep::Finished(Err(Error::new(ErrorKind::Unexpected, message)))
                }
            },
        }
    }
}

impl<'a, R: FileRewriter> RewriteCommitPending<'a, R> {
    /// Tells whether the files of this group can be counted as failed.
    pub fn can_count_failed(&self) -> (r: bool)
        ensures
            r == self.run.progress().can_count_failed(self.run.progress().delete.len()),
    {
        #[verifier::truncate]
        let count: u32 = self.run.delete.len() as u32;
        self.run.result.failed_data_files_count <= u32::MAX - count
    }

    /// Tells whether this group can be counted as rewritten.
    pub fn can_count_committed(&self) -> (r: bool)
        requires
            self.run.wf(),
        ensures
            r == self.run.progress().can_count_committed(),
    {
        #[verifier::truncate]
        let count: u32 = self.run.delete.len() as u32;
        #[verifier::truncate]
        let added: u32 = self.run.add.len() as u32;
        self.run.result.rewritten_data_files_count <= u32::MAX - count
            && self.run.result.added_data_files_count <= u32::MAX - added && sum_sizes(
            self.run.result.rewritten_bytes_count,
            &self.run.delete,
        ).is_some()
    }

    /// Goes on once the transaction has been committed. Without partial progress the
    /// action is over, after a failure once the output files have been deleted; with
    /// it the group counts as rewritten, or as failed once its output files have been
    /// deleted, and the next one follows.
    pub fn resume(self, outcome: Result<(), Error>) -> (step: RewriteStep<'a, R>)
        requires
            self.run.wf(),
            self.run.action.partial_progress && outcome is Err
                ==> self.run.progress().can_count_failed(self.run.progress().delete.len()),
            self.run.action.partial_progress && outcome is Ok
                ==> self.run.progress().can_count_committed(),
        ensures
            !self.run.action.partial_progress ==> match outcome {
                Ok(_) => step == RewriteStep::<'a, R>::Finished(Ok(self.run.progress().total())),
                Err(e) => {
                    &&& step is CleanUp
                    &&& step->CleanUp_0.error == Some(e)
                    &&& step->CleanUp_0.run == self.run
                },
            },
            self.run.action.partial_progress ==> match outcome {
                Ok(_) => next_group(self.run.action, self.run.progress().committed(), step),
                Err(_) => {
                    &&& step is CleanUp
                    &&& step->CleanUp_0.error is None
                    &&& step->CleanUp_0.run.is_at(self.run.action, self.run.progress().failed())
                },
            },
    {
        let ghost before = self.run.progress();
        let mut run = self.run;
        if run.action.partial_progress {
            match outcome {
                Ok(_) => {
                    #[verifier::truncate]
                    let count: u32 = run.delete.len() as u32;
                    #[verifier::truncate]
                    let added: u32 = run.add.len() as u32;
                    run.result.rewritten_data_files_count =
                    run.result.rewritten_data_files_count + count;
                    run.result.added_data_files_count = run.result.added_data_files_count + added;
                    let bytes: u64 = sum_sizes(
                        run.result.rewritten_bytes_count,
                        &run.delete,
                    ).unwrap();
                    run.result.rewritten_bytes_count = bytes;
                    assert(run.progress() =~= before.committed());
                    run.advance()
                },
                Err(_) => {
                    let count: usize = run.delete.len();
                    run.count_failed(count);
                    RewriteStep::CleanUp(RewriteCleanup { run, error: None })
                },
            }
        } else {
            match outcome {
                Ok(_) => {
                    #[verifier::truncate]
                    let count: u32 = run.delete.len() as u32;
                    #[verifier::truncate]
                    let added: u32 = run.add.len() as u32;
                    let bytes: u64 = sum_sizes(0, &run.delete).unwrap();
                    RewriteStep::Finished(
                        Ok(
                            RewriteDataFilesResult {
                                rewritten_data_files_count: count,
                                added_data_files_count: added,
                                rewritten_bytes_count: bytes,
                                failed_data_files_count: 0,
                                removed_delete_files_count: 0,
                            },
                        ),
                    )
                },
                Err(e) => RewriteStep::CleanUp(RewriteCleanup { run, error: Some(e) }),
            }
        }
    }
}

impl<'a, R: FileRewriter> RewriteCleanup<'a, R> {
    /// The output files to delete.
    pub fn paths(&self) -> (paths: Vec<String>)
        ensures
            seqs::texts(paths@) == seqs::file_paths(self.run.progress().add),
    {
        list_file_paths(&self.run.add)
    }

    /// Goes on once the files have been deleted.
    pub fn resume(self) -> (step: RewriteStep<'a, R>)
        requires
            self.run.wf(),
        ensures
            match self.error {
                Some(e) => step == RewriteStep::<'a, R>::Finished(Err(e)),
                None => next_group(self.run.action, self.run.progress(), step),
            },
    {
        match self.error {
            Some(e) => RewriteStep::Finished(Err(e)),
            None => self.run.advance(),
        }
    }
}

} // verus!
