//! Merging small manifests into larger ones to speed up query planning. No data files
//! are changed.
//!
//! - Data and delete manifests are never merged across content types.
//! - Manifests with different partition spec IDs are never merged.
//! - Output shaping produces multiple output manifests when the merged
//!   result would exceed `target_size_bytes`.

use std::sync::Arc;

use vstd::prelude::*;
use vstd::string::*;

use crate::error::{Error, ErrorKind};
use crate::model::{
    ManifestContentType, ManifestEntry, ManifestFile, PartitionSpec, Snapshot, Table,
};
use crate::rewrite_files;
use crate::rewrite_manifests_action::{MergedManifestGroup, RewriteManifestsAction};
use crate::seqs;
use crate::seqs::list_manifest_paths;
use crate::text;
use crate::text::signed_decimal_text;

verus! {

broadcast use crate::seqs::lemma_map_push;

/// Default target manifest file size: 8 MiB.
pub const DEFAULT_TARGET_SIZE_BYTES: u64 = 8_388_608;

/// Result of executing the rewrite manifests action.
#[derive(Debug, Clone, Copy, PartialEq, Eq, Structural)]
pub struct RewriteManifestsResult {
    /// Number of manifests that were rewritten (removed).
    pub rewritten_manifests_count: u32,
    /// Number of new manifests that were added.
    pub added_manifests_count: u32,
}

impl RewriteManifestsResult {
    /// The result when nothing was rewritten.
    pub open spec fn nothing() -> RewriteManifestsResult {
        RewriteManifestsResult { rewritten_manifests_count: 0, added_manifests_count: 0 }
    }
}

impl Default for RewriteManifestsResult {
    fn default() -> (r: Self)
        ensures
            r == RewriteManifestsResult::nothing(),
    {
        RewriteManifestsResult { rewritten_manifests_count: 0, added_manifests_count: 0 }
    }
}

/// Action that merges small manifest files into larger ones.
///
/// This action reads the manifest list of the current snapshot, identifies
/// manifests below the target size threshold, and rewrites them into fewer,
/// larger manifest files. A new snapshot is committed through
/// `RewriteManifestsAction`.
///
/// Manifests are grouped by (content_type, partition_spec_id) before merging
/// so that data and delete manifests are never mixed, and manifests with
/// different partition specs are never merged.
///
/// [`RewriteManifests::execute`] starts the action; each [`ManifestsStep`] says what
/// has to be done outside next.
pub struct RewriteManifests<'a> {
    pub table: &'a Table,
    pub target_size_bytes: u64,
}

/// What manifests must have in common to be merged.
#[derive(Debug, Clone, Copy, PartialEq, Eq, Structural)]
pub struct GroupKey {
    pub content_type: ManifestContentType,
    pub spec_id: i32,
}

/// The key of a manifest.
pub open spec fn key_of(m: ManifestFile) -> GroupKey {
    GroupKey { content_type: m.content, spec_id: m.partition_spec_id }
}

/// The keys of manifests.
pub open spec fn keys_of(s: Seq<ManifestFile>) -> Seq<GroupKey> {
    s.map_values(|m: ManifestFile| key_of(m))
}

/// A manifest to be written: its entries, what they hold, and their partition spec.
#[verifier::ext_equal]
pub struct MergePlan {
    pub entries: Seq<ManifestEntry>,
    pub content_type: ManifestContentType,
    pub partition_spec: Arc<PartitionSpec>,
}

/// What a group of the action describes.
pub open spec fn merge_plan(g: MergedManifestGroup) -> MergePlan {
    MergePlan {
        entries: g.entries@,
        content_type: g.content_type,
        partition_spec: g.partition_spec,
    }
}

/// What the groups of the action describe.
pub open spec fn merge_plans(s: Seq<MergedManifestGroup>) -> Seq<MergePlan> {
    s.map_values(|g: MergedManifestGroup| merge_plan(g))
}

/// The length of a manifest in bytes, as it is compared with the target.
pub open spec fn length_of(m: ManifestFile) -> u64 {
    m.manifest_length as u64
}

/// The total length of manifests.
pub open spec fn total_length(s: Seq<ManifestFile>) -> nat
    decreases s.len(),
{
    if s.len() == 0 {
        0
    } else {
        total_length(s.drop_last()) + length_of(s.last()) as nat
    }
}

/// How many manifests the entries of manifests of this total length are spread over:
/// as many as it takes for none to exceed the target, if entries are alike.
pub open spec fn output_count(total: u64, target: u64) -> u64 {
    if target == 0 {
        1
    } else {
        let padded = total + (target - 1);
        let bounded: int = if padded > u64::MAX {
            u64::MAX as int
        } else {
            padded
        };
        if bounded / target as int > 1 {
            (bounded / target as int) as u64
        } else {
            1
        }
    }
}

/// How many of `n` entries go into each of `count` manifests.
pub open spec fn entries_per_manifest(n: nat, count: u64) -> nat {
    let per = (n + count - 1) / count as int;
    if per > 1 {
        per as nat
    } else {
        1
    }
}

/// `s` cut into pieces of `size`, the last of which may be shorter.
pub open spec fn chunks(s: Seq<ManifestEntry>, size: nat) -> Seq<Seq<ManifestEntry>>
    decreases s.len(),
{
    if s.len() == 0 || size == 0 {
        Seq::empty()
    } else if s.len() <= size {
        seq![s]
    } else {
        seq![s.take(size as int)] + chunks(s.skip(size as int), size)
    }
}

/// The manifests to be written for the pieces of a group.
pub open spec fn chunk_plans(
    pieces: Seq<Seq<ManifestEntry>>,
    content_type: ManifestContentType,
    partition_spec: Arc<PartitionSpec>,
) -> Seq<MergePlan> {
    pieces.map_values(
        |entries: Seq<ManifestEntry>| MergePlan { entries, content_type, partition_spec },
    )
}

/// The message for a partition spec that the metadata lacks.
pub open spec fn no_spec_message(spec_id: i32) -> Seq<char> {
    "Partition spec "@ + text::signed_decimal(spec_id as int) + " not found in table metadata"@
}

/// Says that the table has no such partition spec.
fn compose_no_spec_message(spec_id: i32) -> (message: String)
    ensures
        message@ == no_spec_message(spec_id),
{
    let mut message = "Partition spec ".to_owned();
    message.append(signed_decimal_text(spec_id as i64).as_str());
    message.append(" not found in table metadata");
    message
}

/// Which manifests a [`RewriteManifests`] action merges, and which it keeps.
impl<'a> RewriteManifests<'a> {
    /// Whether the manifest is below the target size.
    pub open spec fn is_small(self, m: ManifestFile) -> bool {
        length_of(m) < self.target_size_bytes
    }

    pub open spec fn large(self) -> spec_fn(ManifestFile) -> bool {
        |m: ManifestFile| !self.is_small(m)
    }

    pub open spec fn small(self) -> spec_fn(ManifestFile) -> bool {
        |m: ManifestFile| self.is_small(m)
    }

    pub open spec fn small_with(self, key: GroupKey) -> spec_fn(ManifestFile) -> bool {
        |m: ManifestFile| self.is_small(m) && key_of(m) == key
    }

    /// The small manifests with this key.
    pub open spec fn group(self, manifests: Seq<ManifestFile>, key: GroupKey) -> Seq<ManifestFile> {
        manifests.filter(self.small_with(key))
    }

    pub open spec fn alone(self, manifests: Seq<ManifestFile>) -> spec_fn(ManifestFile) -> bool {
        |m: ManifestFile| self.is_small(m) && self.group(manifests, key_of(m)).len() <= 1
    }

    /// The manifests that are kept: the large ones, and the small ones that have none
    /// to be merged with.
    pub open spec fn kept(self, manifests: Seq<ManifestFile>) -> Seq<ManifestFile> {
        manifests.filter(self.large()) + manifests.filter(self.alone(manifests))
    }

    pub open spec fn merges(self, manifests: Seq<ManifestFile>) -> spec_fn(GroupKey) -> bool {
        |key: GroupKey| self.group(manifests, key).len() > 1
    }

    /// The keys of the groups that are merged, in the order in which they first occur.
    pub open spec fn merge_keys(self, manifests: Seq<ManifestFile>) -> Seq<GroupKey> {
        seqs::distinct(keys_of(manifests.filter(self.small()))).filter(self.merges(manifests))
    }

    /// The manifests to be written for a group with these entries.
    pub open spec fn shaped(
        self,
        manifests: Seq<ManifestFile>,
        key: GroupKey,
        partition_spec: Arc<PartitionSpec>,
        entries: Seq<ManifestEntry>,
    ) -> Seq<MergePlan> {
        if entries.len() == 0 {
            Seq::empty()
        } else {
            let count = output_count(
                total_length(self.group(manifests, key)) as u64,
                self.target_size_bytes,
            );
            chunk_plans(
                chunks(entries, entries_per_manifest(entries.len(), count)),
                key.content_type,
                partition_spec,
            )
        }
    }
}

/// What has been read of the groups so far.
#[verifier::ext_equal]
pub struct MergeReads {
    /// The manifests of the current snapshot.
    pub manifests: Seq<ManifestFile>,
    /// How many groups have been begun.
    pub groups_begun: nat,
    /// How many manifests the groups begun have.
    pub rewritten: int,
    /// The entries, alive, of the manifests read in the last group begun.
    pub entries: Seq<ManifestEntry>,
    /// The manifests of that group that are still to be read.
    pub queue: Seq<Seq<char>>,
    /// The manifests to be written for the groups that are complete.
    pub merged: Seq<MergePlan>,
}

impl MergeReads {
    /// The manifest list was read, and no group was begun.
    pub open spec fn start(manifests: Seq<ManifestFile>) -> MergeReads {
        MergeReads {
            manifests,
            groups_begun: 0,
            rewritten: 0,
            entries: Seq::empty(),
            queue: Seq::empty(),
            merged: Seq::empty(),
        }
    }

    /// The key of the group begun last.
    pub open spec fn key(self, action: RewriteManifests) -> GroupKey {
        action.merge_keys(self.manifests)[self.groups_begun - 1]
    }

    /// The key of the group to begin next.
    pub open spec fn next_key(self, action: RewriteManifests) -> GroupKey {
        action.merge_keys(self.manifests)[self.groups_begun as int]
    }

    /// The next group was begun.
    pub open spec fn begun(self, action: RewriteManifests) -> MergeReads {
        let group = action.group(self.manifests, self.next_key(action));
        MergeReads {
            groups_begun: self.groups_begun + 1,
            rewritten: self.rewritten + (group.len() as u32),
            entries: Seq::empty(),
            queue: seqs::manifest_paths(group),
            ..self
        }
    }

    /// The next manifest of the queue was read.
    pub open spec fn with_entries(self, entries: Seq<ManifestEntry>) -> MergeReads {
        MergeReads {
            entries: self.entries + entries.filter(rewrite_files::is_alive_entry()),
            queue: self.queue.drop_first(),
            ..self
        }
    }

    /// The group begun last is complete.
    pub open spec fn completed(self, action: RewriteManifests) -> MergeReads {
        let key = self.key(action);
        MergeReads {
            merged: self.merged + action.shaped(
                self.manifests,
                key,
                action.table.metadata.partition_spec(key.spec_id)->0,
                self.entries,
            ),
            ..self
        }
    }

    /// Whether the group begun last can be completed: the lengths of its manifests can
    /// be added up, unless it has no entries, and the manifests to write be counted.
    pub open spec fn can_complete(self, action: RewriteManifests) -> bool {
        &&& self.entries.len() > 0 ==> total_length(action.group(self.manifests, self.key(action)))
            <= u64::MAX
        &&& self.completed(action).merged.len() <= u32::MAX
    }

    /// Whether the next group, if there is one, can be begun: its manifests can be
    /// counted.
    pub open spec fn can_begin(self, action: RewriteManifests) -> bool {
        self.groups_begun < action.merge_keys(self.manifests).len() ==> self.begun(action).rewritten
            <= u32::MAX
    }

    /// Whether the action can go on.
    pub open spec fn can_go_on(self, action: RewriteManifests) -> bool {
        self.queue.len() == 0 ==> {
            &&& self.can_complete(action)
            &&& self.completed(action).can_begin(action)
        }
    }
}

/// What the rewrite-manifests action needs next from outside.
pub enum ManifestsStep<'a> {
    /// The action is over.
    Finished(Result<RewriteManifestsResult, Error>),
    /// Load a manifest list.
    LoadManifestList(ManifestsListPending<'a>),
    /// Read a manifest.
    ReadManifest(ManifestsReadPending<'a>),
    /// Apply the action that replaces the manifests to a transaction.
    Apply(ManifestsApplyPending),
    /// Commit the transaction.
    Commit(ManifestsCommitPending),
}

/// A rewrite-manifests action that reads the groups to merge.
pub struct ManifestsRun<'a> {
    pub action: RewriteManifests<'a>,
    pub manifests: Vec<ManifestFile>,
    /// The keys of the groups to merge.
    pub keys: Vec<GroupKey>,
    pub groups_begun: usize,
    pub rewritten: u32,
    pub entries: Vec<ManifestEntry>,
    pub queue: Vec<String>,
    pub queue_read: usize,
    pub merged: Vec<MergedManifestGroup>,
}

impl<'a> ManifestsRun<'a> {
    /// What has been read so far.
    pub open spec fn reads(self) -> MergeReads {
        MergeReads {
            manifests: self.manifests@,
            groups_begun: self.groups_begun as nat,
            rewritten: self.rewritten as int,
            entries: self.entries@,
            queue: seqs::texts(self.queue@).skip(self.queue_read as int),
            merged: merge_plans(self.merged@),
        }
    }

    /// The run is consistent.
    pub open spec fn wf(self) -> bool {
        &&& self.keys@ == self.action.merge_keys(self.manifests@)
        &&& self.groups_begun <= self.keys@.len()
        &&& self.groups_begun > 0 ==> self.action.table.metadata.partition_spec(
            self.keys@[self.groups_begun - 1].spec_id,
        ) is Some
        &&& self.queue_read <= self.queue@.len()
        &&& self.merged@.len() <= u32::MAX
    }

    /// The run is in the middle of a group, at `reads`.
    pub open spec fn is_at(self, action: RewriteManifests<'a>, reads: MergeReads) -> bool {
        &&& self.wf()
        &&& self.action == action
        &&& self.groups_begun > 0
        &&& self.reads() == reads
    }
}

/// What comes next between groups: the next one is begun, where its partition spec is
/// known; and after the last one the action that replaces the manifests is applied.
pub open spec fn next_group(action: RewriteManifests, reads: MergeReads, step: ManifestsStep) -> bool {
    if reads.groups_begun < action.merge_keys(reads.manifests).len() {
        let spec_id = reads.next_key(action).spec_id;
        if action.table.metadata.partition_spec(spec_id) is None {
            &&& step is Finished
            &&& step->Finished_0 is Err
            &&& step->Finished_0->Err_0.says(ErrorKind::DataInvalid, no_spec_message(spec_id))
        } else {
            &&& step is ReadManifest
            &&& step->ReadManifest_0.run.is_at(action, reads.begun(action))
        }
    } else {
        &&& step is Apply
        &&& step->Apply_0.action.kept_manifests@ == action.kept(reads.manifests)
        &&& merge_plans(step->Apply_0.action.merge_groups@) == reads.merged
        &&& step->Apply_0.action.snapshot_properties@ == Map::<Seq<char>, String>::empty()
        &&& step->Apply_0.result == (RewriteManifestsResult {
            rewritten_manifests_count: reads.rewritten as u32,
            added_manifests_count: reads.merged.len() as u32,
        })
    }
}

/// What comes next once `reads` have been made: the manifests of the group, and after
/// the last one the next group.
pub open spec fn continues(action: RewriteManifests, reads: MergeReads, step: ManifestsStep) -> bool {
    if reads.queue.len() > 0 {
        &&& step is ReadManifest
        &&& step->ReadManifest_0.run.is_at(action, reads)
    } else {
        next_group(action, reads.completed(action), step)
    }
}

/// The manifest list of the current snapshot is waiting to be loaded.
pub struct ManifestsListPending<'a> {
    pub action: RewriteManifests<'a>,
    pub snapshot: &'a Snapshot,
}

/// A manifest is waiting to be read.
pub struct ManifestsReadPending<'a> {
    pub run: ManifestsRun<'a>,
}

/// The action that replaces the manifests is waiting to be applied.
pub struct ManifestsApplyPending {
    pub action: RewriteManifestsAction,
    pub result: RewriteManifestsResult,
}

/// The action that replaces the manifests is being applied.
pub struct ManifestsApplied {
    pub result: RewriteManifestsResult,
}

/// The transaction is waiting to be committed.
pub struct ManifestsCommitPending {
    pub result: RewriteManifestsResult,
}

/// A piece for every `size` entries and one for the rest.
pub proof fn lemma_chunks_len(s: Seq<ManifestEntry>, size: nat)
    requires
        size > 0,
    ensures
        chunks(s, size).len() == (s.len() + size - 1) / size as int,
    decreases s.len(),
{
    if s.len() == 0 {
        assert((size - 1) / size as int == 0) by (nonlinear_arith)
            requires
                size > 0,
        ;
    } else if s.len() <= size {
        assert((s.len() + size - 1) / size as int == 1) by (nonlinear_arith)
            requires
                0 < s.len() <= size,
        ;
    } else {
        lemma_chunks_len(s.skip(size as int), size);
        vstd::arithmetic::div_mod::lemma_div_minus_one(s.len() + size - 1, size as int);
    }
}

proof fn lemma_entries_per_manifest(n: nat, count: u64)
    requires
        n > 0,
        count > 0,
    ensures
        1 <= entries_per_manifest(n, count) <= n,
{
    assert((n + count - 1) / count as int <= n) by (nonlinear_arith)
        requires
            n > 0,
            count > 0,
    ;
}

/// The key of a manifest.
fn group_key(m: &ManifestFile) -> (key: GroupKey)
    ensures
        key == key_of(*m),
{
    GroupKey { content_type: m.content, spec_id: m.partition_spec_id }
}

/// Tells whether a key is in a list.
fn contains_key(keys: &Vec<GroupKey>, key: GroupKey) -> (r: bool)
    ensures
        r == keys@.contains(key),
{
    let mut i: usize = 0;
    while i < keys.len()
        invariant
            i <= keys.len(),
            forall|j: int| 0 <= j < i ==> keys@[j] != key,
        decreases keys.len() - i,
    {
        if keys[i] == key {
            return true;
        }
        i = i + 1;
    }
    false
}

/// The total length of manifests, or `None` where it does not fit into 64 bits.
fn sum_lengths(manifests: &Vec<ManifestFile>) -> (r: Option<u64>)
    ensures
        match r {
            Some(sum) => sum == total_length(manifests@),
            None => total_length(manifests@) > u64::MAX,
        },
{
    let mut sum: u64 = 0;
    let mut i: usize = 0;
    while i < manifests.len()
        invariant
            i <= manifests.len(),
            sum == total_length(manifests@.take(i as int)),
        decreases manifests.len() - i,
    {
        assert(manifests@.take(i + 1).drop_last() =~= manifests@.take(i as int));
        #[verifier::truncate]
        let length: u64 = manifests[i].manifest_length as u64;
        match sum.checked_add(length) {
            Some(n) => {
                sum = n;
            },
            None => {
                proof {
                    lemma_total_length_grows(manifests@, i + 1);
                }
                return None;
            },
        }
        i = i + 1;
    }
    assert(manifests@.take(manifests.len() as int) =~= manifests@);
    Some(sum)
}

proof fn lemma_total_length_grows(s: Seq<ManifestFile>, k: int)
    requires
        0 <= k <= s.len(),
    ensures
        total_length(s.take(k)) <= total_length(s),
    decreases s.len() - k,
{
    if k == s.len() {
        assert(s.take(k) =~= s);
    } else {
        assert(s.take(k + 1).drop_last() =~= s.take(k));
        lemma_total_length_grows(s, k + 1);
    }
}

/// How many manifests the entries of manifests of this total length are spread over.
pub fn count_outputs(total: u64, target: u64) -> (count: u64)
    ensures
        count == output_count(total, target),
        count >= 1,
{
    if target == 0 {
        1
    } else {
        let padded: u64 = total.saturating_add(target - 1);
        let count: u64 = padded / target;
        if count > 1 {
            count
        } else {
            1
        }
    }
}

/// How many of `n` entries go into each of `count` manifests.
fn spread(n: usize, count: u64) -> (per: usize)
    requires
        n > 0,
        count > 0,
    ensures
        per == entries_per_manifest(n as nat, count),
        1 <= per <= n,
{
    let n_wide: u128 = n as u128;
    let count_wide: u128 = count as u128;
    proof {
        lemma_entries_per_manifest(n as nat, count);
    }
    let per: u128 = (n_wide + count_wide - 1) / count_wide;
    if per > 1 {
        per as usize
    } else {
        1
    }
}

impl<'a> RewriteManifests<'a> {
    /// Create a new RewriteManifests action for the given table.
    pub fn new(table: &'a Table) -> (action: Self)
        ensures
            action == (RewriteManifests { table, target_size_bytes: DEFAULT_TARGET_SIZE_BYTES }),
    {
        Self { table, target_size_bytes: DEFAULT_TARGET_SIZE_BYTES }
    }

    /// Set the target manifest file size in bytes. Manifests smaller than
    /// this threshold are candidates for merging. Defaults to 8 MiB.
    pub fn target_size_bytes(self, target_size_bytes: u64) -> (action: Self)
        ensures
            action == (Self { target_size_bytes, ..self }),
    {
        Self { target_size_bytes, ..self }
    }

    /// Tells whether the manifest is below the target size.
    fn is_below_target(&self, m: &ManifestFile) -> (r: bool)
        ensures
            r == self.is_small(*m),
    {
        #[verifier::truncate]
        let length: u64 = m.manifest_length as u64;
        length < self.target_size_bytes
    }

    /// The small manifests with this key.
    fn list_group(&self, manifests: &Vec<ManifestFile>, key: GroupKey) -> (r: Vec<ManifestFile>)
        ensures
            r@ == self.group(manifests@, key),
    {
        let mut r: Vec<ManifestFile> = Vec::new();
        let mut i: usize = 0;
        proof {
            reveal(Seq::filter);
        }
        while i < manifests.len()
            invariant
                i <= manifests.len(),
                r@ == self.group(manifests@.take(i as int), key),
            decreases manifests.len() - i,
        {
            proof {
                seqs::lemma_filter_step(manifests@, self.small_with(key), i as int);
            }
            if self.is_below_target(&manifests[i]) && group_key(&manifests[i]) == key {
                r.push(manifests[i].clone());
            }
            i = i + 1;
        }
        assert(manifests@.take(manifests.len() as int) =~= manifests@);
        r
    }

    /// The keys of the groups that are merged.
    pub fn list_merge_keys(&self, manifests: &Vec<ManifestFile>) -> (r: Vec<GroupKey>)
        ensures
            r@ == self.merge_keys(manifests@),
    {
        let mut keys: Vec<GroupKey> = Vec::new();
        let mut i: usize = 0;
        let ghost none = Seq::<GroupKey>::empty();
        proof {
            reveal(Seq::filter);
            assert(keys_of(manifests@.take(0).filter(self.small())) =~= none);
        }
        while i < manifests.len()
            invariant
                i <= manifests.len(),
                keys@ == seqs::distinct(keys_of(manifests@.take(i as int).filter(self.small()))),
            decreases manifests.len() - i,
        {
            let ghost before = keys_of(manifests@.take(i as int).filter(self.small()));
            proof {
                seqs::lemma_filter_step(manifests@, self.small(), i as int);
            }
            if self.is_below_target(&manifests[i]) {
                let key = group_key(&manifests[i]);
                proof {
                    let more = before.push(key);
                    assert(more.drop_last() =~= before);
                }
                if !contains_key(&keys, key) {
                    keys.push(key);
                }
            }
            i = i + 1;
        }
        assert(manifests@.take(manifests.len() as int) =~= manifests@);
        let ghost all = keys@;
        let mut r: Vec<GroupKey> = Vec::new();
        let mut k: usize = 0;
        while k < keys.len()
            invariant
                all == keys@,
                k <= keys.len(),
                r@ == all.take(k as int).filter(self.merges(manifests@)),
            decreases keys.len() - k,
        {
            proof {
                seqs::lemma_filter_step(all, self.merges(manifests@), k as int);
            }
            if self.list_group(manifests, keys[k]).len() > 1 {
                r.push(keys[k]);
            }
            k = k + 1;
        }
        assert(all.take(keys.len() as int) =~= all);
        r
    }

    /// The manifests that are kept, given the keys of those that are merged.
    fn list_kept(&self, manifests: &Vec<ManifestFile>, keys: &Vec<GroupKey>) -> (r: Vec<
        ManifestFile,
    >)
        requires
            keys@ == self.merge_keys(manifests@),
        ensures
            r@ == self.kept(manifests@),
    {
        let mut r: Vec<ManifestFile> = Vec::new();
        let ghost all = manifests@;
        let ghost alone = self.alone(all);
        let mut i: usize = 0;
        proof {
            reveal(Seq::filter);
        }
        while i < manifests.len()
            invariant
                all == manifests@,
                i <= manifests.len(),
                r@ == all.take(i as int).filter(self.large()),
            decreases manifests.len() - i,
        {
            proof {
                seqs::lemma_filter_step(all, self.large(), i as int);
            }
            if !self.is_below_target(&manifests[i]) {
                r.push(manifests[i].clone());
            }
            i = i + 1;
        }
        assert(all.take(manifests.len() as int) =~= all);
        let ghost large = r@;
        assert(r@ =~= large + all.take(0).filter(alone));
        let mut k: usize = 0;
        while k < manifests.len()
            invariant
                all == manifests@,
                alone == self.alone(all),
                keys@ == self.merge_keys(all),
                k <= manifests.len(),
                r@ == large + all.take(k as int).filter(alone),
            decreases manifests.len() - k,
        {
            let m = &manifests[k];
            proof {
                seqs::lemma_filter_step(all, alone, k as int);
                if self.is_small(*m) {
                    lemma_merge_keys(*self, all, k as int);
                }
            }
            if self.is_below_target(m) && !contains_key(keys, group_key(m)) {
                let ghost before = r@;
                r.push(m.clone());
                assert(r@ =~= large + all.take(k as int).filter(alone).push(*m));
            }
            k = k + 1;
        }
        r
    }

    /// Execute the rewrite manifests action: do nothing where the table has no
    /// snapshot, and otherwise begin to read the current one.
    pub fn execute(self) -> (step: ManifestsStep<'a>)
        requires
            self.table.metadata.current_is_known(),
        ensures
            match self.table.metadata.current() {
                None => step == ManifestsStep::<'a>::Finished(Ok(RewriteManifestsResult::nothing())),
                Some(s) => {
                    &&& step is LoadManifestList
                    &&& step->LoadManifestList_0.action == self
                    &&& *step->LoadManifestList_0.snapshot == s
                },
            },
    {
        match self.table.metadata.current_snapshot() {
            Some(snapshot) => ManifestsStep::LoadManifestList(
                ManifestsListPending { action: self, snapshot },
            ),
            None => ManifestsStep::Finished(Ok(RewriteManifestsResult::default())),
        }
    }
}

/// A small manifest is merged exactly where its group has more than one.
pub proof fn lemma_merge_keys(action: RewriteManifests, manifests: Seq<ManifestFile>, i: int)
    requires
        0 <= i < manifests.len(),
        action.is_small(manifests[i]),
    ensures
        action.merge_keys(manifests).contains(key_of(manifests[i])) <==> action.group(
            manifests,
            key_of(manifests[i]),
        ).len() > 1,
{
    let key = key_of(manifests[i]);
    let small = manifests.filter(action.small());
    let keys = keys_of(small);
    assert(manifests.contains(manifests[i]));
    seqs::lemma_filter_contains(manifests, action.small(), manifests[i]);
    let j = choose|j: int| 0 <= j < small.len() && small[j] == manifests[i];
    assert(keys[j] == key);
    assert(keys.contains(key));
    seqs::lemma_extend_distinct(Seq::empty(), keys);
    seqs::lemma_filter_contains(seqs::distinct(keys), action.merges(manifests), key);
}

/// A copy of the entries from `from` up to `to`.
fn copy_entries(entries: &Vec<ManifestEntry>, from: usize, to: usize) -> (r: Vec<ManifestEntry>)
    requires
        from <= to <= entries@.len(),
    ensures
        r@ == entries@.subrange(from as int, to as int),
{
    let mut r: Vec<ManifestEntry> = Vec::new();
    let mut i: usize = from;
    assert(r@ =~= entries@.subrange(from as int, from as int));
    while i < to
        invariant
            from <= i <= to <= entries@.len(),
            r@ == entries@.subrange(from as int, i as int),
        decreases to - i,
    {
        r.push(entries[i].clone());
        assert(r@ =~= entries@.subrange(from as int, i + 1));
        i = i + 1;
    }
    r
}

/// Cuts entries into pieces of `per` and adds a group for each.
fn push_chunks(
    groups: &mut Vec<MergedManifestGroup>,
    entries: &Vec<ManifestEntry>,
    per: usize,
    content_type: ManifestContentType,
    partition_spec: &Arc<PartitionSpec>,
)
    requires
        per > 0,
    ensures
        merge_plans(final(groups)@) == merge_plans(old(groups)@) + chunk_plans(
            chunks(entries@, per as nat),
            content_type,
            *partition_spec,
        ),
{
    let ghost before = merge_plans(groups@);
    let ghost all = chunk_plans(chunks(entries@, per as nat), content_type, *partition_spec);
    let mut from: usize = 0;
    assert(entries@.skip(0) =~= entries@);
    while from < entries.len()
        invariant
            per > 0,
            from <= entries.len(),
            merge_plans(groups@) + chunk_plans(
                chunks(entries@.skip(from as int), per as nat),
                content_type,
                *partition_spec,
            ) == before + all,
        decreases entries.len() - from,
    {
        let ghost rest = entries@.skip(from as int);
        let to: usize = if entries.len() - from <= per {
            entries.len()
        } else {
            from + per
        };
        let piece = copy_entries(entries, from, to);
        let ghost held = merge_plans(groups@);
        let ghost first = MergePlan {
            entries: piece@,
            content_type,
            partition_spec: *partition_spec,
        };
        groups.push(
            MergedManifestGroup {
                entries: piece,
                content_type,
                partition_spec: Arc::clone(partition_spec),
            },
        );
        proof {
            let later = entries@.skip(to as int);
            let tail = chunk_plans(chunks(later, per as nat), content_type, *partition_spec);
            assert(merge_plans(groups@) =~= held.push(first));
            if rest.len() <= per {
                assert(piece@ =~= rest);
                assert(later =~= Seq::<ManifestEntry>::empty());
                assert(chunks(rest, per as nat) =~= seq![rest]);
            } else {
                assert(piece@ =~= rest.take(per as int));
                assert(later =~= rest.skip(per as int));
            }
            assert(chunk_plans(chunks(rest, per as nat), content_type, *partition_spec)
                =~= seq![first] + tail);
            assert(held.push(first) + tail =~= held + (seq![first] + tail));
        }
        from = to;
    }
    assert(entries@.skip(from as int) =~= Seq::<ManifestEntry>::empty());
    assert(merge_plans(groups@) =~= before + all);
}

impl<'a> ManifestsRun<'a> {
    /// Completes the group begun last.
    fn complete(&mut self)
        requires
            old(self).wf(),
            old(self).groups_begun > 0,
            old(self).reads().can_complete(old(self).action),
        ensures
            final(self).wf(),
            final(self).action == old(self).action,
            final(self).reads() == old(self).reads().completed(old(self).action),
    {
        let ghost before = self.reads();
        let ghost action = self.action;
        let ghost planned = before.completed(action).merged;
        if self.entries.len() > 0 {
            let key: GroupKey = self.keys[self.groups_begun - 1];
            let group = self.action.list_group(&self.manifests, key);
            let total: u64 = sum_lengths(&group).unwrap();
            let count: u64 = count_outputs(total, self.action.target_size_bytes);
            let per: usize = spread(self.entries.len(), count);
            let partition_spec = Arc::clone(
                self.action.table.metadata.partition_spec_by_id(key.spec_id).unwrap(),
            );
            push_chunks(&mut self.merged, &self.entries, per, key.content_type, &partition_spec);
            assert(merge_plans(self.merged@) == planned);
        } else {
            assert(planned =~= before.merged);
        }
        assert(merge_plans(self.merged@).len() == self.merged@.len());
        assert(self.reads() =~= before.completed(action));
    }

    /// Begins the next group, or ends the reading.
    fn begin(self) -> (step: ManifestsStep<'a>)
        requires
            self.wf(),
            self.reads().can_begin(self.action),
        ensures
            next_group(self.action, self.reads(), step),
    {
        let ghost before = self.reads();
        if self.groups_begun < self.keys.len() {
            let mut run = self;
            let key: GroupKey = run.keys[run.groups_begun];
            let group = run.action.list_group(&run.manifests, key);
            #[verifier::truncate]
            let count: u32 = group.len() as u32;
            run.rewritten = run.rewritten + count;
            if run.action.table.metadata.partition_spec_by_id(key.spec_id).is_none() {
                return ManifestsStep::Finished(
                    Err(Error::new(ErrorKind::DataInvalid, compose_no_spec_message(key.spec_id))),
                );
            }
            run.groups_begun = run.groups_begun + 1;
            run.entries = Vec::new();
            run.queue = list_manifest_paths(&group);
            run.queue_read = 0;
            assert(run.reads() =~= before.begun(self.action));
            ManifestsStep::ReadManifest(ManifestsReadPending { run })
        } else {
            let kept = self.action.list_kept(&self.manifests, &self.keys);
            assert(merge_plans(self.merged@).len() == self.merged@.len());
            let result = RewriteManifestsResult {
                rewritten_manifests_count: self.rewritten,
                added_manifests_count: self.merged.len() as u32,
            };
            let mut action = RewriteManifestsAction::new().with_kept_manifests(kept);
            action.merge_groups = self.merged;
            ManifestsStep::Apply(ManifestsApplyPending { action, result })
        }
    }

    /// Goes on to what comes next.
    fn advance(self) -> (step: ManifestsStep<'a>)
        requires
            self.wf(),
            self.groups_begun > 0,
            self.reads().can_go_on(self.action),
        ensures
            continues(self.action, self.reads(), step),
    {
        assert(seqs::texts(self.queue@).len() == self.queue@.len());
        if self.queue_read < self.queue.len() {
            ManifestsStep::ReadManifest(ManifestsReadPending { run: self })
        } else {
            let mut run = self;
            run.complete();
            run.begin()
        }
    }

    /// Tells whether the next group, if there is one, can be begun.
    fn may_begin(&self) -> (r: bool)
        requires
            self.wf(),
        ensures
            r == self.reads().can_begin(self.action),
    {
        if self.groups_begun < self.keys.len() {
            let group = self.action.list_group(&self.manifests, self.keys[self.groups_begun]);
            #[verifier::truncate]
            let count: u32 = group.len() as u32;
            self.rewritten <= u32::MAX - count
        } else {
            true
        }
    }

    /// Tells whether the group begun last can be completed with `n` entries.
    fn may_complete(&self, n: usize, entries: Ghost<Seq<ManifestEntry>>) -> (r: bool)
        requires
            self.wf(),
            self.groups_begun > 0,
            entries@.len() == n,
        ensures
            r == (MergeReads { entries: entries@, ..self.reads() }).can_complete(self.action),
    {
        let ghost reads = MergeReads { entries: entries@, ..self.reads() };
        assert(merge_plans(self.merged@).len() == self.merged@.len());
        if n == 0 {
            return true;
        }
        let key: GroupKey = self.keys[self.groups_begun - 1];
        let group = self.action.list_group(&self.manifests, key);
        let total: u64 = match sum_lengths(&group) {
            Some(total) => total,
            None => {
                return false;
            },
        };
        let count: u64 = count_outputs(total, self.action.target_size_bytes);
        let per: usize = spread(n, count);
        let pieces: u128 = (n as u128 + per as u128 - 1) / (per as u128);
        proof {
            lemma_chunks_len(entries@, per as nat);
            let shaped = self.action.shaped(
                self.manifests@,
                key,
                self.action.table.metadata.partition_spec(key.spec_id)->0,
                entries@,
            );
            assert(shaped.len() == pieces);
            assert(reads.completed(self.action).merged.len() == self.merged@.len() + pieces);
            assert(pieces <= n) by (nonlinear_arith)
                requires
                    pieces == (n + per - 1) / per as int,
                    per >= 1,
                    n >= 1,
            ;
        }
        self.merged.len() as u128 + pieces <= u32::MAX as u128
    }
}

impl<'a> ManifestsListPending<'a> {
    /// Where the manifest list is.
    pub fn path(&self) -> (path: &str)
        ensures
            path@ == self.snapshot.manifest_list@,
    {
        self.snapshot.manifest_list.as_str()
    }

    /// Goes on with the manifests of the list: where there are none to be merged, the
    /// action is over. An error ends the action.
    pub fn resume(self, outcome: Result<Vec<ManifestFile>, Error>) -> (step: ManifestsStep<'a>)
        ensures
            outcome matches Err(e) ==> step == ManifestsStep::<'a>::Finished(Err(e)),
            outcome matches Ok(manifests) ==> if self.action.merge_keys(manifests@).len() == 0 {
                step == ManifestsStep::<'a>::Finished(Ok(RewriteManifestsResult::nothing()))
            } else {
                next_group(self.action, MergeReads::start(manifests@), step)
            },
    {
        let manifests = match outcome {
            Err(e) => {
                return ManifestsStep::Finished(Err(e));
            },
            Ok(manifests) => manifests,
        };
        let ghost read = manifests@;
        let keys = self.action.list_merge_keys(&manifests);
        if keys.len() == 0 {
            return ManifestsStep::Finished(Ok(RewriteManifestsResult::default()));
        }
        let run = ManifestsRun {
            action: self.action,
            manifests,
            keys,
            groups_begun: 0,
            rewritten: 0,
            entries: Vec::new(),
            queue: Vec::new(),
            queue_read: 0,
            merged: Vec::new(),
        };
        assert(run.reads() =~= MergeReads::start(read));
        run.begin()
    }
}

impl<'a> ManifestsReadPending<'a> {
    /// A manifest is waiting to be read.
    pub open spec fn ready(self) -> bool {
        &&& self.run.wf()
        &&& self.run.groups_begun > 0
        &&& self.run.reads().queue.len() > 0
    }

    /// Where the manifest is.
    pub fn path(&self) -> (path: &str)
        requires
            self.ready(),
        ensures
            path@ == self.run.reads().queue[0],
    {
        assert(seqs::texts(self.run.queue@).len() == self.run.queue@.len());
        self.run.queue[self.run.queue_read].as_str()
    }

    /// Tells whether the action can go on with these entries: whether what has to be
    /// counted then can be, and a list can hold the entries.
    pub fn can_go_on(&self, entries: &Vec<ManifestEntry>) -> (r: bool)
        requires
            self.ready(),
        ensures
            r == (self.run.reads().with_entries(entries@).can_go_on(self.run.action)
                && self.run.reads().with_entries(entries@).entries.len() <= usize::MAX),
    {
        let ghost after = self.run.reads().with_entries(entries@);
        let n: usize = match self.run.entries.len().checked_add(count_alive(entries)) {
            Some(n) => n,
            None => {
                return false;
            },
        };
        assert(seqs::texts(self.run.queue@).len() == self.run.queue@.len());
        if self.run.queue.len() - self.run.queue_read > 1 {
            return true;
        }
        assert(after.completed(self.run.action).can_begin(self.run.action)
            == self.run.reads().can_begin(self.run.action));
        self.run.may_complete(n, Ghost(after.entries)) && self.run.may_begin()
    }

    /// Goes on with the entries of the manifest; an error ends the action.
    pub fn resume(self, outcome: Result<Vec<ManifestEntry>, Error>) -> (step: ManifestsStep<'a>)
        requires
            self.ready(),
            outcome matches Ok(entries) ==> self.run.reads().with_entries(entries@).can_go_on(
                self.run.action,
            ),
        ensures
            outcome matches Err(e) ==> step == ManifestsStep::<'a>::Finished(Err(e)),
            outcome matches Ok(entries) ==> continues(
                self.run.action,
                self.run.reads().with_entries(entries@),
                step,
            ),
    {
        let entries = match outcome {
            Err(e) => {
                return ManifestsStep::Finished(Err(e));
            },
            Ok(entries) => entries,
        };
        let ghost before = self.run.reads();
        let mut run = self.run;
        assert(seqs::texts(run.queue@).len() == run.queue@.len());
        push_alive(&mut run.entries, &entries);
        assert(run.queue_read < run.queue.len());
        run.queue_read = run.queue_read + 1;
        assert(run.reads() =~= before.with_entries(entries@));
        run.advance()
    }
}

/// How many of the entries are for files that belong to the snapshot.
fn count_alive(entries: &Vec<ManifestEntry>) -> (n: usize)
    ensures
        n == entries@.filter(rewrite_files::is_alive_entry()).len(),
        n <= entries@.len(),
{
    let ghost alive = rewrite_files::is_alive_entry();
    let mut n: usize = 0;
    let mut i: usize = 0;
    proof {
        reveal(Seq::filter);
    }
    while i < entries.len()
        invariant
            alive == rewrite_files::is_alive_entry(),
            i <= entries.len(),
            n <= i,
            n == entries@.take(i as int).filter(alive).len(),
        decreases entries.len() - i,
    {
        proof {
            seqs::lemma_filter_step(entries@, alive, i as int);
        }
        if entries[i].is_alive() {
            n = n + 1;
        }
        i = i + 1;
    }
    assert(entries@.take(entries.len() as int) =~= entries@);
    n
}

/// Adds the entries of files that belong to the snapshot.
fn push_alive(v: &mut Vec<ManifestEntry>, entries: &Vec<ManifestEntry>)
    ensures
        final(v)@ == old(v)@ + entries@.filter(rewrite_files::is_alive_entry()),
{
    let ghost alive = rewrite_files::is_alive_entry();
    let mut i: usize = 0;
    proof {
        reveal(Seq::filter);
        assert(v@ =~= old(v)@ + entries@.take(0).filter(alive));
    }
    while i < entries.len()
        invariant
            alive == rewrite_files::is_alive_entry(),
            i <= entries.len(),
            v@ == old(v)@ + entries@.take(i as int).filter(alive),
        decreases entries.len() - i,
    {
        let ghost before = entries@.take(i as int).filter(alive);
        proof {
            seqs::lemma_filter_step(entries@, alive, i as int);
        }
        if entries[i].is_alive() {
            v.push(entries[i].clone());
            assert(v@ =~= old(v)@ + before.push(entries@[i as int]));
        }
        i = i + 1;
    }
    assert(entries@.take(entries.len() as int) =~= entries@);
}

impl ManifestsApplyPending {
    /// Hands over the action that replaces the manifests.
    pub fn take_action(self) -> (r: (RewriteManifestsAction, ManifestsApplied))
        ensures
            r.0 == self.action,
            r.1.result == self.result,
    {
        (self.action, ManifestsApplied { result: self.result })
    }
}

impl ManifestsApplied {
    /// Goes on once the action has been applied; a failure ends the action with an
    /// error that quotes the reason.
    pub fn resume<'a>(self, outcome: Result<(), String>) -> (step: ManifestsStep<'a>)
        ensures
            match outcome {
                Ok(_) => step is Commit && step->Commit_0.result == self.result,
                Err(reason) => {
                    &&& step is Finished
                    &&& step->Finished_0 is Err
                    &&& step->Finished_0->Err_0.says(
                        ErrorKind::Unexpected,
                        "Failed to apply rewrite manifests action: "@ + reason@,
                    )
                },
            },
    {
        match outcome {
            Ok(_) => ManifestsStep::Commit(ManifestsCommitPending { result: self.result }),
            Err(reason) => {
                let mut message = "Failed to apply rewrite manifests action: ".to_owned();
                message.append(reason.as_str());
                ManifestsStep::Finished(Err(Error::new(ErrorKind::Unexpected, message)))
            },
        }
    }
}

impl ManifestsCommitPending {
    /// The action is over once the transaction has been committed.
    pub fn resume(self, outcome: Result<(), Error>) -> (r: Result<RewriteManifestsResult, Error>)
        ensures
            match outcome {
                Ok(_) => r == Ok::<RewriteManifestsResult, Error>(self.result),
                Err(e) => r == Err::<RewriteManifestsResult, Error>(e),
            },
    {
        match outcome {
            Ok(_) => Ok(self.result),
            Err(e) => Err(e),
        }
    }
}

} // verus!
