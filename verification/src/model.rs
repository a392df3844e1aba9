//! Table metadata, snapshots, manifests and data files, as the actions read them.

use std::sync::Arc;

use vstd::hash_map::StringHashMap;
use vstd::prelude::*;

verus! {

/// What a data file holds.
#[derive(Debug, Clone, Copy, PartialEq, Eq, Structural)]
pub enum DataContentType {
    Data,
    PositionDeletes,
    EqualityDeletes,
}

/// What the files listed in a manifest hold.
#[derive(Debug, Clone, Copy, PartialEq, Eq, Structural)]
pub enum ManifestContentType {
    Data,
    Deletes,
}

/// What became of a file in the snapshot that wrote its manifest entry.
#[derive(Debug, Clone, Copy, PartialEq, Eq, Structural)]
pub enum ManifestStatus {
    Existing,
    Added,
    Deleted,
}

/// The format of a file.
#[derive(Debug, Clone, Copy, PartialEq, Eq, Structural)]
pub enum DataFileFormat {
    Avro,
    Orc,
    Parquet,
    Puffin,
}

/// The version of the table format.
#[derive(Debug, Clone, Copy, PartialEq, Eq, Structural)]
pub enum FormatVersion {
    V1,
    V2,
    V3,
}

/// The operation that produced a snapshot.
#[derive(Debug, Clone, Copy, PartialEq, Eq, Structural)]
pub enum Operation {
    Append,
    Replace,
    Overwrite,
    Delete,
}

/// A partition value, in its canonical encoding: two values are the same exactly
/// when their encodings are.
#[derive(Debug)]
pub struct Struct {
    pub encoding: String,
}

impl View for Struct {
    type V = Seq<char>;

    open spec fn view(&self) -> Seq<char> {
        self.encoding@
    }
}

impl Clone for Struct {
    fn clone(&self) -> (r: Self)
        ensures
            r == *self,
    {
        Struct { encoding: self.encoding.clone() }
    }
}

impl Struct {
    /// The partition value of an unpartitioned table.
    pub fn empty() -> (r: Self)
        ensures
            r@ == Seq::<char>::empty(),
    {
        Struct { encoding: String::new() }
    }
}

/// One field of a partition spec.
#[derive(Debug)]
pub struct PartitionField {
    pub source_id: i32,
    pub field_id: i32,
    pub name: String,
    pub transform: String,
}

/// How the rows of a table are partitioned.
#[derive(Debug)]
pub struct PartitionSpec {
    pub spec_id: i32,
    pub fields: Vec<PartitionField>,
}

/// A data file or a delete file, with what the actions go by. Whatever else a manifest
/// records of the file, such as its metrics, is found again by its path.
#[derive(Debug)]
pub struct DataFile {
    pub content: DataContentType,
    pub file_path: String,
    pub file_format: DataFileFormat,
    pub partition: Struct,
    pub partition_spec_id: i32,
    pub record_count: u64,
    pub file_size_in_bytes: u64,
}

impl Clone for DataFile {
    fn clone(&self) -> (r: Self)
        ensures
            r == *self,
    {
        DataFile {
            content: self.content,
            file_path: self.file_path.clone(),
            file_format: self.file_format,
            partition: self.partition.clone(),
            partition_spec_id: self.partition_spec_id,
            record_count: self.record_count,
            file_size_in_bytes: self.file_size_in_bytes,
        }
    }
}

/// One entry of a manifest: a file and what is known of its history.
#[derive(Debug)]
pub struct ManifestEntry {
    pub status: ManifestStatus,
    pub snapshot_id: Option<i64>,
    pub sequence_number: Option<i64>,
    pub file_sequence_number: Option<i64>,
    pub data_file: DataFile,
}

impl Clone for ManifestEntry {
    fn clone(&self) -> (r: Self)
        ensures
            r == *self,
    {
        ManifestEntry {
            status: self.status,
            snapshot_id: self.snapshot_id,
            sequence_number: self.sequence_number,
            file_sequence_number: self.file_sequence_number,
            data_file: self.data_file.clone(),
        }
    }
}

impl ManifestEntry {
    /// Whether the file belongs to the snapshot: it was added or it existed before.
    pub open spec fn alive(self) -> bool {
        self.status != ManifestStatus::Deleted
    }

    /// The path of the file.
    pub open spec fn path(self) -> Seq<char> {
        self.data_file.file_path@
    }

    /// Whether the file belongs to the snapshot.
    pub fn is_alive(&self) -> (r: bool)
        ensures
            r == self.alive(),
    {
        match self.status {
            ManifestStatus::Deleted => false,
            _ => true,
        }
    }
}

/// One manifest, as a manifest list describes it.
#[derive(Debug)]
pub struct ManifestFile {
    pub manifest_path: String,
    pub manifest_length: i64,
    pub partition_spec_id: i32,
    pub content: ManifestContentType,
    pub added_files_count: Option<u32>,
    pub existing_files_count: Option<u32>,
}

impl Clone for ManifestFile {
    fn clone(&self) -> (r: Self)
        ensures
            r == *self,
    {
        ManifestFile {
            manifest_path: self.manifest_path.clone(),
            manifest_length: self.manifest_length,
            partition_spec_id: self.partition_spec_id,
            content: self.content,
            added_files_count: self.added_files_count,
            existing_files_count: self.existing_files_count,
        }
    }
}

/// What a manifest holds: its entries, and the partition spec that it records for them.
#[derive(Debug)]
pub struct ManifestContents {
    pub partition_spec: Arc<PartitionSpec>,
    pub entries: Vec<ManifestEntry>,
}

/// Whether a count is positive; one that is not known counts as positive.
pub open spec fn positive_or_unknown(count: Option<u32>) -> bool {
    match count {
        Some(n) => n > 0,
        None => true,
    }
}

impl ManifestFile {
    /// Whether the manifest lists files that were added or existed before.
    pub open spec fn carries_files(self) -> bool {
        positive_or_unknown(self.added_files_count) || positive_or_unknown(
            self.existing_files_count,
        )
    }

    /// Whether the manifest lists files that were added.
    pub fn has_added_files(&self) -> (r: bool)
        ensures
            r == positive_or_unknown(self.added_files_count),
    {
        match self.added_files_count {
            Some(n) => n > 0,
            None => true,
        }
    }

    /// Whether the manifest lists files that existed before.
    pub fn has_existing_files(&self) -> (r: bool)
        ensures
            r == positive_or_unknown(self.existing_files_count),
    {
        match self.existing_files_count {
            Some(n) => n > 0,
            None => true,
        }
    }
}

/// One snapshot of a table.
#[derive(Debug)]
pub struct Snapshot {
    pub snapshot_id: i64,
    pub parent_snapshot_id: Option<i64>,
    pub sequence_number: i64,
    pub timestamp_ms: i64,
    pub manifest_list: String,
}

/// A branch or a tag.
#[derive(Debug)]
pub struct SnapshotReference {
    pub name: String,
    pub snapshot_id: i64,
}

/// A statistics file, or a partition statistics file, of a snapshot.
#[derive(Debug)]
pub struct StatisticsFile {
    pub snapshot_id: i64,
    pub statistics_path: String,
}

/// Properties by name.
pub type Properties = StringHashMap<String>;

/// The metadata of a table.
pub struct TableMetadata {
    pub table_uuid: u128,
    pub location: String,
    pub format_version: FormatVersion,
    pub current_schema_id: i32,
    pub properties: Properties,
    pub snapshots: Vec<Snapshot>,
    pub current_snapshot_id: Option<i64>,
    pub refs: Vec<SnapshotReference>,
    pub statistics: Vec<StatisticsFile>,
    pub partition_statistics: Vec<StatisticsFile>,
    /// The locations of earlier metadata files.
    pub metadata_log: Vec<String>,
    pub partition_specs: Vec<Arc<PartitionSpec>>,
    pub default_partition_spec: Arc<PartitionSpec>,
}

/// A table: its name, its metadata, and where the metadata is stored.
pub struct Table {
    pub identifier: String,
    pub metadata: TableMetadata,
    pub metadata_location: Option<String>,
}

/// The position of the first snapshot with the identifier `id`, not before `from`.
pub open spec fn snapshot_index(snapshots: Seq<Snapshot>, id: i64, from: int) -> Option<int>
    decreases snapshots.len() - from,
{
    if from >= snapshots.len() {
        None
    } else if snapshots[from].snapshot_id == id {
        Some(from)
    } else {
        snapshot_index(snapshots, id, from + 1)
    }
}

impl TableMetadata {
    /// The snapshot with the identifier `id`.
    pub open spec fn snapshot(self, id: i64) -> Option<Snapshot> {
        match snapshot_index(self.snapshots@, id, 0) {
            Some(i) => Some(self.snapshots@[i]),
            None => None,
        }
    }

    /// The parent of the snapshot `id`, where the table has that snapshot.
    pub open spec fn parent(self, id: i64) -> Option<i64> {
        match self.snapshot(id) {
            Some(s) => s.parent_snapshot_id,
            None => None,
        }
    }

    /// The snapshot reached from `start` by going to the parent `k` times.
    pub open spec fn ancestor(self, start: Option<i64>, k: nat) -> Option<i64>
        decreases k,
    {
        if k == 0 {
            start
        } else {
            match self.ancestor(start, (k - 1) as nat) {
                Some(id) => self.parent(id),
                None => None,
            }
        }
    }

    /// The metadata is valid: no two snapshots have the same identifier, and the
    /// current snapshot is one of them.
    pub open spec fn valid(self) -> bool {
        &&& forall|i: int, j: int|
            0 <= i < j < self.snapshots@.len() ==> (#[trigger] self.snapshots@[i]).snapshot_id != (
            #[trigger] self.snapshots@[j]).snapshot_id
        &&& self.current_is_known()
    }

    /// The current snapshot, where there is one, is among the snapshots.
    pub open spec fn current_is_known(self) -> bool {
        match self.current_snapshot_id {
            Some(id) => self.snapshot(id) is Some,
            None => true,
        }
    }

    /// The current snapshot.
    pub open spec fn current(self) -> Option<Snapshot> {
        match self.current_snapshot_id {
            Some(id) => self.snapshot(id),
            None => None,
        }
    }

    /// Looks up a snapshot by its identifier.
    pub fn snapshot_by_id(&self, id: i64) -> (r: Option<&Snapshot>)
        ensures
            match r {
                Some(s) => self.snapshot(id) == Some(*s),
                None => self.snapshot(id) is None,
            },
    {
        let mut i: usize = 0;
        while i < self.snapshots.len()
            invariant
                i <= self.snapshots.len(),
                snapshot_index(self.snapshots@, id, 0) == snapshot_index(
                    self.snapshots@,
                    id,
                    i as int,
                ),
            decreases self.snapshots.len() - i,
        {
            if self.snapshots[i].snapshot_id == id {
                return Some(&self.snapshots[i]);
            }
            i = i + 1;
        }
        None
    }

    /// Looks up the parent of a snapshot.
    pub fn parent_of(&self, id: i64) -> (r: Option<i64>)
        ensures
            r == self.parent(id),
    {
        match self.snapshot_by_id(id) {
            Some(s) => s.parent_snapshot_id,
            None => None,
        }
    }

    /// The current snapshot, where the table has one.
    pub fn current_snapshot(&self) -> (r: Option<&Snapshot>)
        requires
            self.current_is_known(),
        ensures
            match r {
                Some(s) => self.current() == Some(*s),
                None => self.current() is None && self.current_snapshot_id is None,
            },
    {
        match self.current_snapshot_id {
            Some(id) => self.snapshot_by_id(id),
            None => None,
        }
    }
}

impl TableMetadata {
    /// The metadata of a new table, which has no snapshot yet.
    pub fn new(
        table_uuid: u128,
        location: String,
        format_version: FormatVersion,
        partition_spec: Arc<PartitionSpec>,
    ) -> (metadata: Self)
        ensures
            metadata.table_uuid == table_uuid,
            metadata.location == location,
            metadata.format_version == format_version,
            metadata.current_schema_id == 0,
            metadata.properties@ == Map::<Seq<char>, String>::empty(),
            metadata.snapshots@ == Seq::<Snapshot>::empty(),
            metadata.current_snapshot_id is None,
            metadata.refs@ == Seq::<SnapshotReference>::empty(),
            metadata.statistics@ == Seq::<StatisticsFile>::empty(),
            metadata.partition_statistics@ == Seq::<StatisticsFile>::empty(),
            metadata.metadata_log@ == Seq::<String>::empty(),
            metadata.partition_specs@ == seq![partition_spec],
            metadata.default_partition_spec == partition_spec,
            metadata.valid(),
    {
        let mut partition_specs: Vec<Arc<PartitionSpec>> = Vec::new();
        partition_specs.push(Arc::clone(&partition_spec));
        TableMetadata {
            table_uuid,
            location,
            format_version,
            current_schema_id: 0,
            properties: StringHashMap::new(),
            snapshots: Vec::new(),
            current_snapshot_id: None,
            refs: Vec::new(),
            statistics: Vec::new(),
            partition_statistics: Vec::new(),
            metadata_log: Vec::new(),
            partition_specs,
            default_partition_spec: partition_spec,
        }
    }

    /// Sets a property of the table.
    pub fn set_property(&mut self, key: String, value: String)
        ensures
            *final(self) == (TableMetadata { properties: final(self).properties, ..*old(self) }),
            final(self).properties@ == old(self).properties@.insert(key@, value),
    {
        self.properties.insert(key, value);
    }

    /// Whether the snapshot `id` is `start` or an ancestor of it.
    pub open spec fn reaches(self, start: i64, id: i64) -> bool {
        exists|k: nat| #[trigger] self.ancestor(Some(start), k) == Some(id)
    }

    /// The partition spec with the identifier `id`.
    pub open spec fn partition_spec(self, id: i32) -> Option<Arc<PartitionSpec>> {
        match spec_index(self.partition_specs@, id, 0) {
            Some(i) => Some(self.partition_specs@[i]),
            None => None,
        }
    }

    /// Looks up a partition spec by its identifier.
    pub fn partition_spec_by_id(&self, id: i32) -> (r: Option<&Arc<PartitionSpec>>)
        ensures
            match r {
                Some(s) => self.partition_spec(id) == Some(*s),
                None => self.partition_spec(id) is None,
            },
    {
        let mut i: usize = 0;
        while i < self.partition_specs.len()
            invariant
                i <= self.partition_specs.len(),
                spec_index(self.partition_specs@, id, 0) == spec_index(
                    self.partition_specs@,
                    id,
                    i as int,
                ),
            decreases self.partition_specs.len() - i,
        {
            if self.partition_specs[i].spec_id == id {
                return Some(&self.partition_specs[i]);
            }
            i = i + 1;
        }
        None
    }

    /// Tells whether the snapshot `id` is `start` or an ancestor of it.
    pub fn is_ancestor(&self, start: i64, id: i64) -> (r: bool)
        ensures
            r == self.reaches(start, id),
    {
        let n: usize = self.snapshots.len();
        let mut left: usize = n;
        let mut cursor: Option<i64> = Some(start);
        loop
            invariant
                n == self.snapshots.len(),
                left <= n,
                cursor == self.ancestor(Some(start), (n - left) as nat),
                forall|j: nat|
                    j < n - left ==> #[trigger] self.ancestor(Some(start), j) != Some(id),
            decreases left,
        {
            let sid: i64 = match cursor {
                Some(sid) => sid,
                None => {
                    proof {
                        if self.reaches(start, id) {
                            let k = choose|k: nat|
                                #[trigger] self.ancestor(Some(start), k) == Some(id);
                            lemma_no_more_ancestors(*self, Some(start), (n - left) as nat, k);
                        }
                    }
                    return false;
                },
            };
            if sid == id {
                return true;
            }
            if left == 0 {
                proof {
                    lemma_near_ancestor(*self, start, id);
                }
                return false;
            }
            cursor = self.parent_of(sid);
            left = left - 1;
        }
    }
}

/// The position of the first partition spec with the identifier `id`, not before
/// `from`.
pub open spec fn spec_index(specs: Seq<Arc<PartitionSpec>>, id: i32, from: int) -> Option<int>
    decreases specs.len() - from,
{
    if from >= specs.len() {
        None
    } else if specs[from].spec_id == id {
        Some(from)
    } else {
        spec_index(specs, id, from + 1)
    }
}

/// Going on to ancestors of a snapshot that has none leads nowhere.
pub proof fn lemma_no_more_ancestors(metadata: TableMetadata, start: Option<i64>, k: nat, n: nat)
    requires
        metadata.ancestor(start, k) is None,
        k <= n,
    ensures
        metadata.ancestor(start, n) is None,
    decreases n,
{
    if k < n {
        lemma_no_more_ancestors(metadata, start, k, (n - 1) as nat);
    }
}

/// Where two ancestors are the same, so are those that follow them.
proof fn lemma_ancestors_repeat(metadata: TableMetadata, start: Option<i64>, i: nat, j: nat, d: nat)
    requires
        metadata.ancestor(start, i) == metadata.ancestor(start, j),
    ensures
        metadata.ancestor(start, i + d) == metadata.ancestor(start, j + d),
    decreases d,
{
    if d > 0 {
        lemma_ancestors_repeat(metadata, start, i, j, (d - 1) as nat);
        assert((i + d - 1) as nat == i + (d - 1) as nat);
        assert((j + d - 1) as nat == j + (d - 1) as nat);
    }
}

proof fn lemma_snapshot_index(snapshots: Seq<Snapshot>, id: i64, from: int)
    requires
        0 <= from,
        snapshot_index(snapshots, id, from) is Some,
    ensures
        0 <= snapshot_index(snapshots, id, from)->0 < snapshots.len(),
        snapshots[snapshot_index(snapshots, id, from)->0].snapshot_id == id,
    decreases snapshots.len() - from,
{
    if from < snapshots.len() && snapshots[from].snapshot_id != id {
        lemma_snapshot_index(snapshots, id, from + 1);
    }
}

/// Numbers below `n` without repetition are at most `n` many.
proof fn lemma_pigeonhole(s: Seq<int>, n: nat)
    requires
        s.no_duplicates(),
        forall|i: int| 0 <= i < s.len() ==> 0 <= #[trigger] s[i] < n,
    ensures
        s.len() <= n,
{
    let all = vstd::set_lib::set_int_range(0, n as int);
    vstd::set_lib::lemma_int_range(0, n as int);
    s.unique_seq_to_set();
    assert(s.to_set().subset_of(all));
    vstd::set_lib::lemma_len_subset(s.to_set(), all);
}

/// The least number of steps to an ancestor.
proof fn lemma_least_steps(metadata: TableMetadata, start: i64, id: i64, k: nat) -> (least: nat)
    requires
        metadata.ancestor(Some(start), k) == Some(id),
    ensures
        least <= k,
        metadata.ancestor(Some(start), least) == Some(id),
        forall|j: nat| j < least ==> #[trigger] metadata.ancestor(Some(start), j) != Some(id),
    decreases k,
{
    if exists|j: nat| j < k && #[trigger] metadata.ancestor(Some(start), j) == Some(id) {
        let j = choose|j: nat| j < k && #[trigger] metadata.ancestor(Some(start), j) == Some(id);
        lemma_least_steps(metadata, start, id, j)
    } else {
        k
    }
}

/// An ancestor is at most as many steps away as there are snapshots.
proof fn lemma_near_ancestor(metadata: TableMetadata, start: i64, id: i64)
    ensures
        metadata.reaches(start, id) ==> exists|k: nat|
            k <= metadata.snapshots@.len() && #[trigger] metadata.ancestor(Some(start), k) == Some(
                id,
            ),
{
    if metadata.reaches(start, id) {
        let from = Some(start);
        let any = choose|k: nat| #[trigger] metadata.ancestor(from, k) == Some(id);
        let k = lemma_least_steps(metadata, start, id, any);
        let n = metadata.snapshots@.len();
        let positions = Seq::new(
            k,
            |i: int| snapshot_index(metadata.snapshots@, metadata.ancestor(from, i as nat)->0, 0)->0,
        );
        assert forall|i: int| 0 <= i < k implies metadata.ancestor(from, i as nat) is Some && 0
            <= #[trigger] positions[i] < n && metadata.snapshots@[positions[i]].snapshot_id
            == metadata.ancestor(from, i as nat)->0 by {
            if metadata.ancestor(from, (i + 1) as nat) is None {
                lemma_no_more_ancestors(metadata, from, (i + 1) as nat, k);
            }
            lemma_snapshot_index(metadata.snapshots@, metadata.ancestor(from, i as nat)->0, 0);
        }
        assert forall|i: int, j: int| 0 <= i < k && 0 <= j < k && i != j implies positions[i]
            != positions[j] by {
            if positions[i] == positions[j] {
                let (a, b) = if i < j {
                    (i as nat, j as nat)
                } else {
                    (j as nat, i as nat)
                };
                lemma_ancestors_repeat(metadata, from, a, b, (k - b) as nat);
                assert(metadata.ancestor(from, (a + (k - b)) as nat) == Some(id));
            }
        }
        lemma_pigeonhole(positions, n);
    }
}

/// A file belongs to a snapshot where it was added or existed before, and not where it
/// was deleted; its entry names it by its path.
pub proof fn law_alive(e: ManifestEntry)
    ensures
        e.status == ManifestStatus::Added ==> e.alive(),
        e.status == ManifestStatus::Existing ==> e.alive(),
        e.status == ManifestStatus::Deleted ==> !e.alive(),
        e.path() == e.data_file.file_path@,
{
}

/// A manifest carries no files exactly where both its counts are known to be 0.
pub proof fn law_carries_files(m: ManifestFile)
    ensures
        !m.carries_files() <==> m.added_files_count == Some(0u32) && m.existing_files_count
            == Some(0u32),
{
}

/// Looking up a snapshot finds the first one with the identifier, and nothing only
/// where there is none.
pub proof fn law_snapshot_lookup(metadata: TableMetadata, id: i64)
    ensures
        match metadata.snapshot(id) {
            Some(s) => exists|i: int|
                0 <= i < metadata.snapshots@.len() && #[trigger] metadata.snapshots@[i] == s
                    && s.snapshot_id == id && forall|j: int|
                    0 <= j < i ==> (#[trigger] metadata.snapshots@[j]).snapshot_id != id,
            None => forall|j: int|
                0 <= j < metadata.snapshots@.len() ==> (
                #[trigger] metadata.snapshots@[j]).snapshot_id != id,
        },
{
    lemma_snapshot_found(metadata.snapshots@, id, 0);
}

proof fn lemma_snapshot_found(snapshots: Seq<Snapshot>, id: i64, from: int)
    requires
        0 <= from,
    ensures
        match snapshot_index(snapshots, id, from) {
            Some(i) => from <= i < snapshots.len() && snapshots[i].snapshot_id == id && forall|
                j: int,
            |
                from <= j < i ==> (#[trigger] snapshots[j]).snapshot_id != id,
            None => forall|j: int|
                from <= j < snapshots.len() ==> (#[trigger] snapshots[j]).snapshot_id != id,
        },
    decreases snapshots.len() - from,
{
    if from < snapshots.len() && snapshots[from].snapshot_id != id {
        lemma_snapshot_found(snapshots, id, from + 1);
    }
}

/// The snapshot at `i` is the first one with its identifier.
pub open spec fn is_first_with_id(snapshots: Seq<Snapshot>, i: int) -> bool {
    &&& 0 <= i < snapshots.len()
    &&& forall|j: int|
        0 <= j < i ==> (#[trigger] snapshots[j]).snapshot_id != snapshots[i].snapshot_id
}

/// The current snapshot is the one that the metadata names as such, and there is none
/// where the metadata names none.
pub proof fn law_current_snapshot(metadata: TableMetadata)
    ensures
        metadata.current_snapshot_id is None ==> metadata.current() is None,
        metadata.current_snapshot_id is Some && metadata.current() is Some ==> exists|i: int|
            is_first_with_id(metadata.snapshots@, i) && #[trigger] metadata.snapshots@[i]
                == metadata.current()->0 && metadata.current()->0.snapshot_id
                == metadata.current_snapshot_id->0,
        metadata.current_is_known() <==> (metadata.current_snapshot_id matches Some(id)
            ==> exists|i: int|
            0 <= i < metadata.snapshots@.len() && (#[trigger] metadata.snapshots@[i]).snapshot_id
                == id),
{
    match metadata.current_snapshot_id {
        Some(id) => {
            law_snapshot_lookup(metadata, id);
            match metadata.snapshot(id) {
                Some(s) => {
                    let i = choose|i: int|
                        0 <= i < metadata.snapshots@.len() && #[trigger] metadata.snapshots@[i]
                            == s && s.snapshot_id == id && forall|j: int|
                            0 <= j < i ==> (#[trigger] metadata.snapshots@[j]).snapshot_id != id;
                    assert(is_first_with_id(metadata.snapshots@, i));
                    assert(metadata.snapshots@[i].snapshot_id == id);
                },
                None => {},
            }
        },
        None => {},
    }
}

/// Whether each identifier of `line` is followed by that of its parent.
pub open spec fn is_line(snapshots: Seq<Snapshot>, line: Seq<i64>) -> bool {
    forall|k: int|
        0 <= k < line.len() - 1 ==> exists|i: int|
            is_first_with_id(snapshots, i) && (#[trigger] snapshots[i]).snapshot_id
                == #[trigger] line[k] && snapshots[i].parent_snapshot_id == Some(line[k + 1])
}

/// Whether `line` leads from the snapshot `from` to the snapshot `to`, parent by parent.
pub open spec fn leads(snapshots: Seq<Snapshot>, line: Seq<i64>, from: i64, to: i64) -> bool {
    &&& line.len() > 0
    &&& line[0] == from
    &&& line.last() == to
    &&& is_line(snapshots, line)
}

/// The ancestors of a snapshot are those to which a line of parents leads from it.
pub proof fn law_ancestors_are_lines(metadata: TableMetadata, start: i64, k: nat, id: i64)
    ensures
        metadata.ancestor(Some(start), k) == Some(id) <==> exists|line: Seq<i64>|
            line.len() == k + 1 && #[trigger] leads(metadata.snapshots@, line, start, id),
{
    if metadata.ancestor(Some(start), k) == Some(id) {
        let line = lemma_line_to_ancestor(metadata, start, k, id);
        assert(leads(metadata.snapshots@, line, start, id));
    }
    if exists|line: Seq<i64>|
        line.len() == k + 1 && #[trigger] leads(metadata.snapshots@, line, start, id) {
        let line = choose|line: Seq<i64>|
            line.len() == k + 1 && #[trigger] leads(metadata.snapshots@, line, start, id);
        lemma_ancestor_on_line(metadata, start, line, k);
    }
}

proof fn lemma_parent(metadata: TableMetadata, id: i64, parent: i64)
    ensures
        metadata.parent(id) == Some(parent) <==> exists|i: int|
            is_first_with_id(metadata.snapshots@, i) && (
            #[trigger] metadata.snapshots@[i]).snapshot_id == id
                && metadata.snapshots@[i].parent_snapshot_id == Some(parent),
{
    let all = metadata.snapshots@;
    lemma_snapshot_found(all, id, 0);
    match snapshot_index(all, id, 0) {
        Some(f) => {
            assert(is_first_with_id(all, f));
            if exists|i: int|
                is_first_with_id(all, i) && (#[trigger] all[i]).snapshot_id == id
                    && all[i].parent_snapshot_id == Some(parent) {
                let i = choose|i: int|
                    is_first_with_id(all, i) && (#[trigger] all[i]).snapshot_id == id
                        && all[i].parent_snapshot_id == Some(parent);
                if i < f {
                    assert(all[i].snapshot_id != id);
                }
                if f < i {
                    assert(all[f].snapshot_id != all[i].snapshot_id);
                }
            }
            if all[f].parent_snapshot_id == Some(parent) {
                assert(all[f].snapshot_id == id);
            }
        },
        None => {},
    }
}

proof fn lemma_line_to_ancestor(metadata: TableMetadata, start: i64, k: nat, id: i64) -> (line:
    Seq<i64>)
    requires
        metadata.ancestor(Some(start), k) == Some(id),
    ensures
        line.len() == k + 1,
        leads(metadata.snapshots@, line, start, id),
    decreases k,
{
    let all = metadata.snapshots@;
    if k == 0 {
        seq![start]
    } else {
        let before = metadata.ancestor(Some(start), (k - 1) as nat)->0;
        let front = lemma_line_to_ancestor(metadata, start, (k - 1) as nat, before);
        lemma_parent(metadata, before, id);
        let line = front.push(id);
        assert(is_line(all, line)) by {
            assert forall|j: int| 0 <= j < line.len() - 1 implies exists|i: int|
                is_first_with_id(all, i) && (#[trigger] all[i]).snapshot_id == #[trigger] line[j]
                    && all[i].parent_snapshot_id == Some(line[j + 1]) by {
                if j < front.len() - 1 {
                    assert(front[j] == line[j]);
                    let i = choose|i: int|
                        is_first_with_id(all, i) && (#[trigger] all[i]).snapshot_id == front[j]
                            && all[i].parent_snapshot_id == Some(front[j + 1]);
                    assert(all[i].snapshot_id == line[j]);
                } else {
                    let i = choose|i: int|
                        is_first_with_id(all, i) && (#[trigger] all[i]).snapshot_id == before
                            && all[i].parent_snapshot_id == Some(id);
                    assert(all[i].snapshot_id == line[j]);
                }
            }
        }
        line
    }
}

proof fn lemma_ancestor_on_line(metadata: TableMetadata, start: i64, line: Seq<i64>, k: nat)
    requires
        k < line.len(),
        line[0] == start,
        is_line(metadata.snapshots@, line),
    ensures
        metadata.ancestor(Some(start), k) == Some(line[k as int]),
    decreases k,
{
    if k > 0 {
        lemma_ancestor_on_line(metadata, start, line, (k - 1) as nat);
        let at = line[k - 1];
        lemma_parent(metadata, at, line[k as int]);
        assert(exists|i: int|
            is_first_with_id(metadata.snapshots@, i) && (
            #[trigger] metadata.snapshots@[i]).snapshot_id == line[k - 1]
                && metadata.snapshots@[i].parent_snapshot_id == Some(line[k - 1 + 1]));
    }
}

/// One snapshot is reached from another exactly where a line of parents leads to it.
pub proof fn law_reaches_by_lines(metadata: TableMetadata, start: i64, id: i64)
    ensures
        metadata.reaches(start, id) <==> exists|line: Seq<i64>| #[trigger]
            leads(metadata.snapshots@, line, start, id),
{
    if metadata.reaches(start, id) {
        let k = choose|k: nat| #[trigger] metadata.ancestor(Some(start), k) == Some(id);
        let line = lemma_line_to_ancestor(metadata, start, k, id);
        assert(leads(metadata.snapshots@, line, start, id));
    }
    if exists|line: Seq<i64>| #[trigger] leads(metadata.snapshots@, line, start, id) {
        let line = choose|line: Seq<i64>| #[trigger] leads(metadata.snapshots@, line, start, id);
        let k = (line.len() - 1) as nat;
        lemma_ancestor_on_line(metadata, start, line, k);
        assert(metadata.ancestor(Some(start), k) == Some(id));
    }
}

/// Looking up a partition spec finds the first one with the identifier, and nothing
/// only where there is none.
pub proof fn law_partition_spec_lookup(metadata: TableMetadata, id: i32)
    ensures
        match metadata.partition_spec(id) {
            Some(s) => exists|i: int|
                0 <= i < metadata.partition_specs@.len() && #[trigger] metadata.partition_specs@[i]
                    == s && s.spec_id == id && forall|j: int|
                    0 <= j < i ==> (#[trigger] metadata.partition_specs@[j]).spec_id != id,
            None => forall|j: int|
                0 <= j < metadata.partition_specs@.len() ==> (
                #[trigger] metadata.partition_specs@[j]).spec_id != id,
        },
{
    lemma_spec_found(metadata.partition_specs@, id, 0);
}

proof fn lemma_spec_found(specs: Seq<Arc<PartitionSpec>>, id: i32, from: int)
    requires
        0 <= from,
    ensures
        match spec_index(specs, id, from) {
            Some(i) => from <= i < specs.len() && specs[i].spec_id == id && forall|j: int|
                from <= j < i ==> (#[trigger] specs[j]).spec_id != id,
            None => forall|j: int|
                from <= j < specs.len() ==> (#[trigger] specs[j]).spec_id != id,
        },
    decreases specs.len() - from,
{
    if from < specs.len() && specs[from].spec_id != id {
        lemma_spec_found(specs, id, from + 1);
    }
}

} // verus!
