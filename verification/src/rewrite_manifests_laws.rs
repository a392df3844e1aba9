//! What holds of every run of the rewrite-manifests action, and of every snapshot with
//! merged manifests.

use std::sync::Arc;

use vstd::prelude::*;
use vstd::seq_lib::lemma_multiset_commutative;

use crate::error::ErrorKind;
use crate::model;
use crate::model::{
    FormatVersion, ManifestContentType, ManifestEntry, ManifestFile, ManifestStatus, PartitionSpec,
};
use crate::outside;
use crate::rewrite_files;
use crate::rewrite_manifests;
use crate::rewrite_manifests::{
    GroupKey, ManifestsStep, MergePlan, MergeReads, RewriteManifests,
};
use crate::rewrite_manifests_action;
use crate::rewrite_manifests_action::{
    GroupOrigin, ManifestWriterKind, MergeTarget, MergedManifestGroup, MergedManifestRun,
    MergedManifestStep, RewriteManifestsAction, RewriteManifestsOperation,
};
use crate::seqs;
use crate::storage;
use crate::storage::Storage;
use crate::text;
use crate::transaction::SnapshotRequest;

verus! {

/// The manifests of a group are small and alike in content and partition spec.
pub proof fn law_groups_do_not_mix(
    action: RewriteManifests,
    manifests: Seq<ManifestFile>,
    key: GroupKey,
    i: int,
)
    requires
        0 <= i < action.group(manifests, key).len(),
    ensures
        ({
            let m = action.group(manifests, key)[i];
            &&& m.content == key.content_type
            &&& m.partition_spec_id == key.spec_id
            &&& action.is_small(m)
            &&& manifests.contains(m)
        }),
{
    let group = action.group(manifests, key);
    assert(group.contains(group[i]));
    seqs::lemma_filter_contains(manifests, action.small_with(key), group[i]);
}

/// Every manifest is either kept or merged in the group of its key, and none is both.
pub proof fn law_manifests_are_kept_or_merged(
    action: RewriteManifests,
    manifests: Seq<ManifestFile>,
    i: int,
)
    requires
        0 <= i < manifests.len(),
    ensures
        ({
            let m = manifests[i];
            let key = rewrite_manifests::key_of(m);
            let merged = action.merge_keys(manifests).contains(key) && action.group(
                manifests,
                key,
            ).contains(m);
            action.kept(manifests).contains(m) <==> !merged
        }),
{
    let m = manifests[i];
    let key = rewrite_manifests::key_of(m);
    assert(manifests.contains(m));
    seqs::lemma_add_contains(
        manifests.filter(action.large()),
        manifests.filter(action.alone(manifests)),
        m,
    );
    seqs::lemma_filter_contains(manifests, action.large(), m);
    seqs::lemma_filter_contains(manifests, action.alone(manifests), m);
    seqs::lemma_filter_contains(manifests, action.small_with(key), m);
    if action.is_small(m) {
        rewrite_manifests::lemma_merge_keys(action, manifests, i);
    }
}

/// The entries of pieces, one piece after the other.
pub open spec fn flat(pieces: Seq<Seq<ManifestEntry>>) -> Seq<ManifestEntry>
    decreases pieces.len(),
{
    if pieces.len() == 0 {
        Seq::empty()
    } else {
        pieces[0] + flat(pieces.drop_first())
    }
}

/// The entries of the manifests to be written, one manifest after the other.
pub open spec fn plan_entries(plans: Seq<MergePlan>) -> Seq<ManifestEntry>
    decreases plans.len(),
{
    if plans.len() == 0 {
        Seq::empty()
    } else {
        plans[0].entries + plan_entries(plans.drop_first())
    }
}

proof fn lemma_flat_chunks(s: Seq<ManifestEntry>, size: nat)
    requires
        size > 0,
    ensures
        flat(rewrite_manifests::chunks(s, size)) == s,
        forall|i: int|
            0 <= i < rewrite_manifests::chunks(s, size).len() ==> 0 < (
            #[trigger] rewrite_manifests::chunks(s, size)[i]).len() <= size,
    decreases s.len(),
{
    let pieces = rewrite_manifests::chunks(s, size);
    if s.len() == 0 {
        assert(flat(pieces) =~= s);
    } else if s.len() <= size {
        reveal_with_fuel(flat, 2);
        assert(pieces.drop_first() =~= Seq::<Seq<ManifestEntry>>::empty());
        assert(flat(pieces) =~= s);
    } else {
        let rest = s.skip(size as int);
        lemma_flat_chunks(rest, size);
        assert(pieces.drop_first() =~= rewrite_manifests::chunks(rest, size));
        assert(flat(pieces) =~= s);
        assert forall|i: int| 0 <= i < pieces.len() implies 0 < (#[trigger] pieces[i]).len()
            <= size by {
            if i > 0 {
                assert(pieces[i] == rewrite_manifests::chunks(rest, size)[i - 1]);
            }
        }
    }
}

proof fn lemma_plan_entries_of_chunks(
    pieces: Seq<Seq<ManifestEntry>>,
    key: GroupKey,
    partition_spec: Arc<PartitionSpec>,
)
    ensures
        plan_entries(
            rewrite_manifests::chunk_plans(pieces, key.content_type, partition_spec),
        ) == flat(pieces),
    decreases pieces.len(),
{
    if pieces.len() > 0 {
        let plans = rewrite_manifests::chunk_plans(pieces, key.content_type, partition_spec);
        lemma_plan_entries_of_chunks(pieces.drop_first(), key, partition_spec);
        assert(plans.drop_first() =~= rewrite_manifests::chunk_plans(
            pieces.drop_first(),
            key.content_type,
            partition_spec,
        ));
    }
}

/// The entries of more manifests.
pub proof fn lemma_plan_entries_add(a: Seq<MergePlan>, b: Seq<MergePlan>)
    ensures
        plan_entries(a + b) == plan_entries(a) + plan_entries(b),
    decreases a.len(),
{
    if a.len() == 0 {
        assert(a + b =~= b);
        assert(plan_entries(a) + plan_entries(b) =~= plan_entries(b));
    } else {
        assert((a + b).drop_first() =~= a.drop_first() + b);
        lemma_plan_entries_add(a.drop_first(), b);
        assert(plan_entries(a + b) =~= plan_entries(a) + plan_entries(b));
    }
}

proof fn lemma_output_count(total: u64, target: u64)
    ensures
        rewrite_manifests::output_count(total, target) >= 1,
{
    if target > 0 {
        let padded = total + (target - 1);
        let bounded: int = if padded > u64::MAX {
            u64::MAX as int
        } else {
            padded
        };
        assert(bounded / target as int <= bounded) by (nonlinear_arith)
            requires
                target > 0,
                bounded >= 0,
        ;
    }
}

/// Shaping a group keeps its entries and their order, and every manifest it writes has
/// entries, the content of the group and its partition spec.
pub proof fn law_shaping_keeps_entries(
    action: RewriteManifests,
    manifests: Seq<ManifestFile>,
    key: GroupKey,
    partition_spec: Arc<PartitionSpec>,
    entries: Seq<ManifestEntry>,
)
    ensures
        ({
            let plans = action.shaped(manifests, key, partition_spec, entries);
            &&& plan_entries(plans) == entries
            &&& forall|i: int|
                0 <= i < plans.len() ==> {
                    &&& (#[trigger] plans[i]).entries.len() > 0
                    &&& plans[i].content_type == key.content_type
                    &&& plans[i].partition_spec == partition_spec
                }
        }),
{
    if entries.len() > 0 {
        let total = rewrite_manifests::total_length(action.group(manifests, key)) as u64;
        lemma_output_count(total, action.target_size_bytes);
        let count = rewrite_manifests::output_count(total, action.target_size_bytes);
        let per = rewrite_manifests::entries_per_manifest(entries.len(), count);
        let pieces = rewrite_manifests::chunks(entries, per);
        lemma_flat_chunks(entries, per);
        lemma_plan_entries_of_chunks(pieces, key, partition_spec);
    } else {
        assert(plan_entries(action.shaped(manifests, key, partition_spec, entries)) =~= entries);
    }
}

/// A group whose manifests are together longer than the target is written to several
/// manifests, if it has several entries; a target of which the double does not fit into
/// 64 bits is left out.
pub proof fn law_large_groups_are_split(
    action: RewriteManifests,
    manifests: Seq<ManifestFile>,
    key: GroupKey,
    partition_spec: Arc<PartitionSpec>,
    entries: Seq<ManifestEntry>,
)
    requires
        rewrite_manifests::total_length(action.group(manifests, key)) <= u64::MAX,
        rewrite_manifests::total_length(action.group(manifests, key)) > action.target_size_bytes,
        action.target_size_bytes <= u64::MAX / 2,
        entries.len() >= 2,
    ensures
        action.shaped(manifests, key, partition_spec, entries).len() >= 2,
{
    let total = rewrite_manifests::total_length(action.group(manifests, key)) as u64;
    let target = action.target_size_bytes;
    let count = rewrite_manifests::output_count(total, target);
    let group = action.group(manifests, key);
    assert(group.len() > 0);
    law_groups_do_not_mix(action, manifests, key, 0);
    assert(target > 0);
    let padded = total + (target - 1);
    let bounded: int = if padded > u64::MAX {
        u64::MAX as int
    } else {
        padded
    };
    assert(bounded >= 2 * target);
    assert(2 <= bounded / target as int <= bounded) by (nonlinear_arith)
        requires
            bounded >= 2 * target,
            target > 0,
    ;
    assert(count >= 2);
    let n = entries.len();
    assert((n + count - 1) / count as int <= n - 1) by (nonlinear_arith)
        requires
            n >= 2,
            count >= 2,
    ;
    let per = rewrite_manifests::entries_per_manifest(n, count);
    assert(1 <= per <= n - 1);
    rewrite_manifests::lemma_chunks_len(entries, per);
    assert((n + per - 1) / per as int >= 2) by (nonlinear_arith)
        requires
            1 <= per <= n - 1,
    ;
}

/// A group whose manifests together are within the target is written to one manifest.
pub proof fn law_small_groups_are_merged_into_one(
    action: RewriteManifests,
    manifests: Seq<ManifestFile>,
    key: GroupKey,
    partition_spec: Arc<PartitionSpec>,
    entries: Seq<ManifestEntry>,
)
    requires
        rewrite_manifests::total_length(action.group(manifests, key)) <= action.target_size_bytes,
        entries.len() > 0,
    ensures
        action.shaped(manifests, key, partition_spec, entries).len() == 1,
{
    let total = rewrite_manifests::total_length(action.group(manifests, key)) as u64;
    let target = action.target_size_bytes;
    if target > 0 {
        let padded = total + (target - 1);
        let bounded: int = if padded > u64::MAX {
            u64::MAX as int
        } else {
            padded
        };
        assert(bounded / target as int <= 1) by (nonlinear_arith)
            requires
                bounded < 2 * target,
                target > 0,
        ;
    }
    assert(rewrite_manifests::output_count(total, target) == 1);
    assert(rewrite_manifests::entries_per_manifest(entries.len(), 1) == entries.len());
}

proof fn lemma_total_length_of_small(s: Seq<ManifestFile>, target: u64)
    requires
        target > 0,
        forall|i: int|
            0 <= i < s.len() ==> rewrite_manifests::length_of(#[trigger] s[i]) < target,
    ensures
        rewrite_manifests::total_length(s) <= s.len() * (target - 1),
    decreases s.len(),
{
    if s.len() > 0 {
        let front = s.drop_last();
        assert forall|i: int| 0 <= i < front.len() implies rewrite_manifests::length_of(
            #[trigger] front[i],
        ) < target by {
            assert(front[i] == s[i]);
        }
        lemma_total_length_of_small(front, target);
        assert(rewrite_manifests::length_of(s[s.len() - 1]) < target);
        let n = s.len() as int;
        assert((n - 1) * (target - 1) + (target - 1) == n * (target - 1)) by (nonlinear_arith);
    } else {
        assert(0 * (target - 1) == 0);
    }
}

/// A group is not written to more manifests than it had.
pub proof fn law_no_group_gets_more_manifests(
    action: RewriteManifests,
    manifests: Seq<ManifestFile>,
    key: GroupKey,
    partition_spec: Arc<PartitionSpec>,
    entries: Seq<ManifestEntry>,
)
    requires
        rewrite_manifests::total_length(action.group(manifests, key)) <= u64::MAX,
        action.group(manifests, key).len() > 0,
    ensures
        action.shaped(manifests, key, partition_spec, entries).len() <= action.group(
            manifests,
            key,
        ).len(),
{
    let group = action.group(manifests, key);
    let total = rewrite_manifests::total_length(group) as u64;
    let target = action.target_size_bytes;
    let count = rewrite_manifests::output_count(total, target);
    assert forall|i: int| 0 <= i < group.len() implies rewrite_manifests::length_of(
        #[trigger] group[i],
    ) < target by {
        law_groups_do_not_mix(action, manifests, key, i);
    }
    assert(rewrite_manifests::length_of(group[0]) < target);
    lemma_total_length_of_small(group, target);
    lemma_output_count(total, target);
    let padded = total + (target - 1);
    let bounded: int = if padded > u64::MAX {
        u64::MAX as int
    } else {
        padded
    };
    let size = group.len() as int;
    assert(bounded / target as int <= size) by (nonlinear_arith)
        requires
            bounded <= total + (target - 1),
            total <= size * (target - 1),
            target > 0,
            size > 0,
    ;
    assert(bounded / target as int <= bounded) by (nonlinear_arith)
        requires
            bounded >= 0,
            target > 0,
    ;
    assert(count <= size);
    if entries.len() > 0 {
        let n = entries.len() as int;
        let c = count as int;
        let per = rewrite_manifests::entries_per_manifest(entries.len(), count) as int;
        assert(per >= (n + c - 1) / c);
        assert(per * c >= n) by (nonlinear_arith)
            requires
                per >= (n + c - 1) / c,
                c >= 1,
                n >= 0,
        ;
        rewrite_manifests::lemma_chunks_len(entries, per as nat);
        assert((n + per - 1) / per <= c) by (nonlinear_arith)
            requires
                per * c >= n,
                per >= 1,
                n >= 0,
        ;
    }
}

/// The entries, alive, of manifests in storage.
pub open spec fn alive_entries(storage: Storage, paths: Seq<Seq<char>>) -> Seq<ManifestEntry> {
    storage::all_entries(storage, paths).filter(rewrite_files::is_alive_entry())
}

/// The entries, alive, of the first `n` groups that are merged.
pub open spec fn group_entries(
    action: RewriteManifests,
    manifests: Seq<ManifestFile>,
    storage: Storage,
    n: nat,
) -> Seq<ManifestEntry>
    decreases n,
{
    if n == 0 {
        Seq::empty()
    } else {
        let key = action.merge_keys(manifests)[n - 1];
        group_entries(action, manifests, storage, (n - 1) as nat) + alive_entries(
            storage,
            seqs::manifest_paths(action.group(manifests, key)),
        )
    }
}

/// Between groups, what is to be written agrees with what storage holds.
pub open spec fn settled(action: RewriteManifests, reads: MergeReads, storage: Storage) -> bool {
    &&& reads.groups_begun <= action.merge_keys(reads.manifests).len()
    &&& plan_entries(reads.merged) == group_entries(
        action,
        reads.manifests,
        storage,
        reads.groups_begun,
    )
}

/// Within a group, what has been read agrees with what storage holds.
pub open spec fn agrees(action: RewriteManifests, reads: MergeReads, storage: Storage) -> bool {
    let paths = seqs::manifest_paths(action.group(reads.manifests, reads.key(action)));
    let k = paths.len() - reads.queue.len();
    &&& 0 < reads.groups_begun <= action.merge_keys(reads.manifests).len()
    &&& 0 <= k
    &&& reads.queue == paths.skip(k)
    &&& reads.entries == alive_entries(storage, paths.take(k))
    &&& plan_entries(reads.merged) == group_entries(
        action,
        reads.manifests,
        storage,
        (reads.groups_begun - 1) as nat,
    )
}

/// Before the first group nothing is to be written.
pub proof fn law_start_is_settled(
    action: RewriteManifests,
    manifests: Seq<ManifestFile>,
    storage: Storage,
)
    ensures
        settled(action, MergeReads::start(manifests), storage),
{
}

/// Beginning a group keeps the agreement with storage.
pub proof fn law_group_begins_in_agreement(
    action: RewriteManifests,
    reads: MergeReads,
    storage: Storage,
)
    requires
        settled(action, reads, storage),
        reads.groups_begun < action.merge_keys(reads.manifests).len(),
    ensures
        agrees(action, reads.begun(action), storage),
{
    let key = reads.next_key(action);
    let paths = seqs::manifest_paths(action.group(reads.manifests, key));
    assert(paths.skip(0) =~= paths);
    assert(paths.take(0) =~= Seq::<Seq<char>>::empty());
    reveal(Seq::filter);
}

/// Reading a manifest keeps the agreement with storage.
pub proof fn law_manifest_step_agrees(action: RewriteManifests, reads: MergeReads, storage: Storage)
    requires
        agrees(action, reads, storage),
        reads.queue.len() > 0,
    ensures
        agrees(action, reads.with_entries((storage.manifests)(reads.queue[0])), storage),
{
    let paths = seqs::manifest_paths(action.group(reads.manifests, reads.key(action)));
    let k = paths.len() - reads.queue.len();
    assert(reads.queue[0] == paths[k]);
    storage::lemma_all_entries_step(storage, paths, k);
    Seq::filter_distributes_over_add(
        storage::all_entries(storage, paths.take(k)),
        (storage.manifests)(paths[k]),
        rewrite_files::is_alive_entry(),
    );
    assert(reads.queue.drop_first() =~= paths.skip(k + 1));
}

/// Completing a group whose manifests have all been read keeps the agreement with
/// storage.
pub proof fn law_group_ends_settled(action: RewriteManifests, reads: MergeReads, storage: Storage)
    requires
        agrees(action, reads, storage),
        reads.queue.len() == 0,
    ensures
        settled(action, reads.completed(action), storage),
{
    let key = reads.key(action);
    let paths = seqs::manifest_paths(action.group(reads.manifests, key));
    let partition_spec = action.table.metadata.partition_spec(key.spec_id)->0;
    let plans = action.shaped(reads.manifests, key, partition_spec, reads.entries);
    assert(paths.take(paths.len() as int) =~= paths);
    law_shaping_keeps_entries(action, reads.manifests, key, partition_spec, reads.entries);
    lemma_plan_entries_add(reads.merged, plans);
}

/// Whether all manifests to be merged have been read.
pub open spec fn is_complete(action: RewriteManifests, reads: MergeReads) -> bool {
    &&& reads.queue.len() == 0
    &&& reads.groups_begun >= action.merge_keys(reads.manifests).len()
}

/// What has been read after `n` steps from the beginning of the first group.
pub open spec fn reads_after(
    action: RewriteManifests,
    manifests: Seq<ManifestFile>,
    storage: Storage,
    n: nat,
) -> MergeReads
    decreases n,
{
    if n == 0 {
        MergeReads::start(manifests).begun(action)
    } else {
        let before = reads_after(action, manifests, storage, (n - 1) as nat);
        if before.queue.len() > 0 {
            before.with_entries((storage.manifests)(before.queue[0]))
        } else if !is_complete(action, before) {
            before.completed(action).begun(action)
        } else {
            before
        }
    }
}

/// At any time in a run, what has been read agrees with what storage holds.
pub proof fn law_every_run_agrees(
    action: RewriteManifests,
    manifests: Seq<ManifestFile>,
    storage: Storage,
    n: nat,
)
    requires
        action.merge_keys(manifests).len() > 0,
    ensures
        agrees(action, reads_after(action, manifests, storage, n), storage),
        reads_after(action, manifests, storage, n).manifests == manifests,
    decreases n,
{
    if n == 0 {
        law_start_is_settled(action, manifests, storage);
        law_group_begins_in_agreement(action, MergeReads::start(manifests), storage);
    } else {
        law_every_run_agrees(action, manifests, storage, (n - 1) as nat);
        let before = reads_after(action, manifests, storage, (n - 1) as nat);
        if before.queue.len() > 0 {
            law_manifest_step_agrees(action, before, storage);
        } else if !is_complete(action, before) {
            law_group_ends_settled(action, before, storage);
            law_group_begins_in_agreement(action, before.completed(action), storage);
        }
    }
}

/// At the end of every run, the manifests to be written have exactly the entries,
/// alive, of the manifests that are merged.
pub proof fn law_every_run_preserves_entries(
    action: RewriteManifests,
    manifests: Seq<ManifestFile>,
    storage: Storage,
    n: nat,
)
    requires
        action.merge_keys(manifests).len() > 0,
        is_complete(action, reads_after(action, manifests, storage, n)),
    ensures
        plan_entries(reads_after(action, manifests, storage, n).completed(action).merged)
            == group_entries(action, manifests, storage, action.merge_keys(manifests).len()),
{
    let reads = reads_after(action, manifests, storage, n);
    law_every_run_agrees(action, manifests, storage, n);
    law_group_ends_settled(action, reads, storage);
}

/// The sum over manifests of what `f` gives for each.
pub open spec fn sum(s: Seq<ManifestFile>, f: spec_fn(ManifestFile) -> int) -> int
    decreases s.len(),
{
    if s.len() == 0 {
        0
    } else {
        sum(s.drop_last(), f) + f(s.last())
    }
}

/// The sum over the manifests of the first `n` groups that are merged.
pub open spec fn group_sum(
    action: RewriteManifests,
    manifests: Seq<ManifestFile>,
    f: spec_fn(ManifestFile) -> int,
    n: nat,
) -> int
    decreases n,
{
    if n == 0 {
        0
    } else {
        group_sum(action, manifests, f, (n - 1) as nat) + sum(
            action.group(manifests, action.merge_keys(manifests)[n - 1]),
            f,
        )
    }
}

proof fn lemma_sum_add(s: Seq<ManifestFile>, t: Seq<ManifestFile>, f: spec_fn(ManifestFile) -> int)
    ensures
        sum(s + t, f) == sum(s, f) + sum(t, f),
    decreases t.len(),
{
    if t.len() == 0 {
        assert(s + t =~= s);
    } else {
        assert((s + t).drop_last() =~= s + t.drop_last());
        lemma_sum_add(s, t.drop_last(), f);
    }
}

/// A filter that splits into two others.
proof fn lemma_sum_split(
    s: Seq<ManifestFile>,
    f: spec_fn(ManifestFile) -> int,
    p: spec_fn(ManifestFile) -> bool,
    q: spec_fn(ManifestFile) -> bool,
    r: spec_fn(ManifestFile) -> bool,
)
    requires
        forall|m: ManifestFile| #[trigger]
            s.contains(m) ==> p(m) == (q(m) || r(m)) && !(q(m) && r(m)),
    ensures
        sum(s.filter(p), f) == sum(s.filter(q), f) + sum(s.filter(r), f),
    decreases s.len(),
{
    reveal(Seq::filter);
    if s.len() > 0 {
        let front = s.drop_last();
        let last = s.last();
        assert(s =~= front.push(last));
        assert forall|m: ManifestFile| #[trigger] front.contains(m) implies p(m) == (q(m) || r(m))
            && !(q(m) && r(m)) by {
            seqs::lemma_push_contains(front, last, m);
            assert(s.contains(m));
        }
        lemma_sum_split(front, f, p, q, r);
        assert(s.contains(last));
        assert(front.filter(p).push(last).drop_last() =~= front.filter(p));
        assert(front.filter(q).push(last).drop_last() =~= front.filter(q));
        assert(front.filter(r).push(last).drop_last() =~= front.filter(r));
    }
}

/// Lets through the manifests of the first `n` groups that are merged.
pub open spec fn in_first(action: RewriteManifests, manifests: Seq<ManifestFile>, n: nat) -> spec_fn(
    ManifestFile,
) -> bool {
    |m: ManifestFile|
        action.is_small(m) && action.merge_keys(manifests).take(n as int).contains(
            rewrite_manifests::key_of(m),
        )
}

proof fn lemma_group_sum(
    action: RewriteManifests,
    manifests: Seq<ManifestFile>,
    f: spec_fn(ManifestFile) -> int,
    n: nat,
)
    requires
        n <= action.merge_keys(manifests).len(),
    ensures
        group_sum(action, manifests, f, n) == sum(
            manifests.filter(in_first(action, manifests, n)),
            f,
        ),
    decreases n,
{
    let keys = action.merge_keys(manifests);
    if n == 0 {
        let none = in_first(action, manifests, 0);
        assert(keys.take(0) =~= Seq::<GroupKey>::empty());
        lemma_sum_split(manifests, f, none, none, none);
    } else {
        let before = in_first(action, manifests, (n - 1) as nat);
        let key = keys[n - 1];
        lemma_group_sum(action, manifests, f, (n - 1) as nat);
        assert(keys.take(n as int) =~= keys.take(n - 1).push(key));
        assert(!keys.take(n - 1).contains(key)) by {
            seqs::lemma_extend_distinct(
                Seq::empty(),
                rewrite_manifests::keys_of(manifests.filter(action.small())),
            );
            seqs::lemma_filter_no_duplicates(
                seqs::distinct(rewrite_manifests::keys_of(manifests.filter(action.small()))),
                action.merges(manifests),
            );
            if keys.take(n - 1).contains(key) {
                let front = keys.take(n - 1);
                let i = choose|i: int| 0 <= i < front.len() && front[i] == key;
                assert(keys[i] == keys[n - 1]);
            }
        }
        assert forall|m: ManifestFile| #[trigger] manifests.contains(m) implies in_first(
            action,
            manifests,
            n,
        )(m) == (before(m) || action.small_with(key)(m)) && !(before(m) && action.small_with(key)(
            m,
        )) by {
            seqs::lemma_push_contains(keys.take(n - 1), key, rewrite_manifests::key_of(m));
        }
        lemma_sum_split(
            manifests,
            f,
            in_first(action, manifests, n),
            before,
            action.small_with(key),
        );
    }
}

/// Whatever is summed up over all manifests is so over those kept and those merged.
proof fn lemma_sum_of_all(
    action: RewriteManifests,
    manifests: Seq<ManifestFile>,
    f: spec_fn(ManifestFile) -> int,
)
    ensures
        sum(manifests, f) == sum(action.kept(manifests), f) + group_sum(
            action,
            manifests,
            f,
            action.merge_keys(manifests).len(),
        ),
{
    let keys = action.merge_keys(manifests);
    let n = keys.len();
    let merged = in_first(action, manifests, n);
    let large = action.large();
    let alone = action.alone(manifests);
    let all = |m: ManifestFile| true;
    let kept = |m: ManifestFile| large(m) || alone(m);
    assert(keys.take(n as int) =~= keys);
    lemma_group_sum(action, manifests, f, n);
    assert forall|m: ManifestFile| #[trigger] manifests.contains(m) implies all(m) == (kept(m)
        || merged(m)) && !(kept(m) && merged(m)) by {
        let i = choose|i: int| 0 <= i < manifests.len() && manifests[i] == m;
        if action.is_small(m) {
            rewrite_manifests::lemma_merge_keys(action, manifests, i);
        }
    }
    lemma_sum_split(manifests, f, all, kept, merged);
    lemma_sum_split(manifests, f, kept, large, alone);
    lemma_sum_add(manifests.filter(large), manifests.filter(alone), f);
    lemma_filter_all(manifests, all);
}

proof fn lemma_filter_all(s: Seq<ManifestFile>, all: spec_fn(ManifestFile) -> bool)
    requires
        forall|m: ManifestFile| #[trigger] all(m),
    ensures
        s.filter(all) == s,
    decreases s.len(),
{
    reveal(Seq::filter);
    if s.len() > 0 {
        lemma_filter_all(s.drop_last(), all);
        assert(all(s.last()));
        assert(s.drop_last().push(s.last()) =~= s);
    } else {
        assert(s.filter(all) =~= s);
    }
}

/// How often an entry occurs, alive, in a manifest.
pub open spec fn occurrences(storage: Storage, e: ManifestEntry) -> spec_fn(ManifestFile) -> int {
    |m: ManifestFile|
        (storage.manifests)(m.manifest_path@).filter(
            rewrite_files::is_alive_entry(),
        ).to_multiset().count(e) as int
}

proof fn lemma_occurrences(storage: Storage, manifests: Seq<ManifestFile>, e: ManifestEntry)
    ensures
        alive_entries(storage, seqs::manifest_paths(manifests)).to_multiset().count(e) == sum(
            manifests,
            occurrences(storage, e),
        ),
    decreases manifests.len(),
{
    let paths = seqs::manifest_paths(manifests);
    if manifests.len() == 0 {
        reveal(Seq::filter);
        assert(alive_entries(storage, paths) =~= Seq::<ManifestEntry>::empty());
        alive_entries(storage, paths).to_multiset_ensures();
    } else {
        let front = manifests.drop_last();
        lemma_occurrences(storage, front, e);
        assert(paths.drop_last() =~= seqs::manifest_paths(front));
        Seq::filter_distributes_over_add(
            storage::all_entries(storage, paths.drop_last()),
            (storage.manifests)(paths.last()),
            rewrite_files::is_alive_entry(),
        );
        lemma_multiset_commutative(
            alive_entries(storage, paths.drop_last()),
            (storage.manifests)(paths.last()).filter(rewrite_files::is_alive_entry()),
        );
    }
}

proof fn lemma_group_occurrences(
    action: RewriteManifests,
    manifests: Seq<ManifestFile>,
    storage: Storage,
    n: nat,
    e: ManifestEntry,
)
    ensures
        group_entries(action, manifests, storage, n).to_multiset().count(e) == group_sum(
            action,
            manifests,
            occurrences(storage, e),
            n,
        ),
    decreases n,
{
    if n == 0 {
        Seq::<ManifestEntry>::empty().to_multiset_ensures();
    } else {
        let group = action.group(manifests, action.merge_keys(manifests)[n - 1]);
        lemma_group_occurrences(action, manifests, storage, (n - 1) as nat, e);
        lemma_occurrences(storage, group, e);
        lemma_multiset_commutative(
            group_entries(action, manifests, storage, (n - 1) as nat),
            alive_entries(storage, seqs::manifest_paths(group)),
        );
    }
}

/// At the end of every run, the manifests kept and the manifests to be written together
/// have the entries, alive, of all manifests of the snapshot, each as often as before.
pub proof fn law_kept_and_merged_preserve_entries(
    action: RewriteManifests,
    manifests: Seq<ManifestFile>,
    storage: Storage,
    n: nat,
)
    requires
        action.merge_keys(manifests).len() > 0,
        is_complete(action, reads_after(action, manifests, storage, n)),
    ensures
        ({
            let kept = alive_entries(storage, seqs::manifest_paths(action.kept(manifests)));
            let merged = plan_entries(
                reads_after(action, manifests, storage, n).completed(action).merged,
            );
            let all = alive_entries(storage, seqs::manifest_paths(manifests));
            (kept + merged).to_multiset() == all.to_multiset()
        }),
{
    let kept = alive_entries(storage, seqs::manifest_paths(action.kept(manifests)));
    let merged = plan_entries(reads_after(action, manifests, storage, n).completed(action).merged);
    let all = alive_entries(storage, seqs::manifest_paths(manifests));
    let count = action.merge_keys(manifests).len();
    law_every_run_preserves_entries(action, manifests, storage, n);
    lemma_multiset_commutative(kept, merged);
    assert forall|e: ManifestEntry| #[trigger]
        kept.to_multiset().count(e) + merged.to_multiset().count(e) == all.to_multiset().count(
            e,
        ) by {
        lemma_occurrences(storage, action.kept(manifests), e);
        lemma_occurrences(storage, manifests, e);
        lemma_group_occurrences(action, manifests, storage, count, e);
        lemma_sum_of_all(action, manifests, occurrences(storage, e));
    }
    assert((kept + merged).to_multiset() =~= all.to_multiset());
}

proof fn lemma_sum_of_ones(s: Seq<ManifestFile>)
    ensures
        sum(s, |m: ManifestFile| 1int) == s.len(),
    decreases s.len(),
{
    if s.len() > 0 {
        lemma_sum_of_ones(s.drop_last());
    }
}

proof fn lemma_group_sum_bound(action: RewriteManifests, manifests: Seq<ManifestFile>, n: nat)
    requires
        n <= action.merge_keys(manifests).len(),
    ensures
        0 <= group_sum(action, manifests, |m: ManifestFile| 1int, n) <= manifests.len(),
{
    let inside = in_first(action, manifests, n);
    lemma_group_sum(action, manifests, |m: ManifestFile| 1int, n);
    lemma_sum_of_ones(manifests.filter(inside));
    lemma_sum_of_ones(manifests);
    lemma_sum_split(
        manifests,
        |m: ManifestFile| 1int,
        |m: ManifestFile| true,
        inside,
        |m: ManifestFile| !inside(m),
    );
    lemma_sum_of_ones(manifests.filter(|m: ManifestFile| !inside(m)));
    lemma_filter_all(manifests, |m: ManifestFile| true);
}

proof fn lemma_rewritten_count(
    action: RewriteManifests,
    manifests: Seq<ManifestFile>,
    storage: Storage,
    n: nat,
)
    requires
        action.merge_keys(manifests).len() > 0,
        manifests.len() <= u32::MAX,
    ensures
        ({
            let reads = reads_after(action, manifests, storage, n);
            reads.rewritten == group_sum(
                action,
                manifests,
                |m: ManifestFile| 1int,
                reads.groups_begun,
            )
        }),
    decreases n,
{
    let one = |m: ManifestFile| 1int;
    if n == 0 {
        let group = action.group(manifests, action.merge_keys(manifests)[0]);
        lemma_sum_of_ones(group);
        lemma_group_sum_bound(action, manifests, 1);
        assert(group_sum(action, manifests, one, 0) == 0);
    } else {
        let before = reads_after(action, manifests, storage, (n - 1) as nat);
        lemma_rewritten_count(action, manifests, storage, (n - 1) as nat);
        law_every_run_agrees(action, manifests, storage, (n - 1) as nat);
        if before.queue.len() == 0 && !is_complete(action, before) {
            let k = before.groups_begun;
            let group = action.group(manifests, action.merge_keys(manifests)[k as int]);
            lemma_sum_of_ones(group);
            lemma_group_sum_bound(action, manifests, k);
            lemma_group_sum_bound(action, manifests, k + 1);
        }
    }
}

/// At the end of every run, the count of manifests rewritten is that of all manifests
/// without those kept.
pub proof fn law_rewritten_count(
    action: RewriteManifests,
    manifests: Seq<ManifestFile>,
    storage: Storage,
    n: nat,
)
    requires
        action.merge_keys(manifests).len() > 0,
        is_complete(action, reads_after(action, manifests, storage, n)),
        manifests.len() <= u32::MAX,
    ensures
        reads_after(action, manifests, storage, n).completed(action).rewritten == manifests.len()
            - action.kept(manifests).len(),
{
    lemma_rewritten_count(action, manifests, storage, n);
    law_every_run_agrees(action, manifests, storage, n);
    lemma_sum_of_all(action, manifests, |m: ManifestFile| 1int);
    lemma_sum_of_ones(manifests);
    lemma_sum_of_ones(action.kept(manifests));
}

/// How many of the groups have entries.
pub open spec fn nonempty_count(groups: Seq<MergedManifestGroup>) -> nat
    decreases groups.len(),
{
    if groups.len() == 0 {
        0
    } else {
        nonempty_count(groups.drop_last()) + (if groups.last().entries@.len() > 0 {
            1nat
        } else {
            0nat
        })
    }
}

/// The manifests of the snapshot, once the groups before `from` are done: those kept,
/// followed by one for each group that has entries.
pub open spec fn is_result(
    operation: RewriteManifestsOperation,
    result: Seq<ManifestFile>,
    from: int,
) -> bool {
    let kept = operation.kept_manifests@;
    &&& 0 <= from <= operation.merge_groups@.len()
    &&& result.len() == kept.len() + nonempty_count(operation.merge_groups@.take(from))
    &&& result.take(kept.len() as int) == kept
}

proof fn lemma_next_nonempty(groups: Seq<MergedManifestGroup>, from: int)
    requires
        0 <= from <= groups.len(),
    ensures
        match rewrite_manifests_action::next_nonempty(groups, from) {
            Some(g) => {
                &&& from <= g < groups.len()
                &&& nonempty_count(groups.take(g)) == nonempty_count(groups.take(from))
                &&& groups[g].entries@.len() > 0
            },
            None => nonempty_count(groups) == nonempty_count(groups.take(from)),
        },
    decreases groups.len() - from,
{
    if from == groups.len() {
        assert(groups.take(from) =~= groups);
    } else if groups[from].entries@.len() == 0 {
        assert(groups.take(from + 1).drop_last() =~= groups.take(from));
        lemma_next_nonempty(groups, from + 1);
    }
}

/// Before the first group, the manifests of the snapshot are those kept.
pub proof fn law_kept_manifests_come_first(operation: RewriteManifestsOperation)
    ensures
        is_result(operation, operation.kept_manifests@, 0),
{
    let kept = operation.kept_manifests@;
    assert(kept.take(kept.len() as int) =~= kept);
}

/// Each group that has entries adds one manifest.
pub proof fn law_each_group_adds_one_manifest(
    operation: RewriteManifestsOperation,
    result: Seq<ManifestFile>,
    from: int,
    m: ManifestFile,
)
    requires
        is_result(operation, result, from),
        rewrite_manifests_action::next_nonempty(operation.merge_groups@, from) is Some,
    ensures
        is_result(
            operation,
            result.push(m),
            rewrite_manifests_action::next_nonempty(operation.merge_groups@, from)->0 + 1,
        ),
{
    let groups = operation.merge_groups@;
    let kept = operation.kept_manifests@;
    lemma_next_nonempty(groups, from);
    let g = rewrite_manifests_action::next_nonempty(groups, from)->0;
    assert(groups.take(g + 1).drop_last() =~= groups.take(g));
    assert(result.push(m).take(kept.len() as int) =~= result.take(kept.len() as int));
}

/// After the last group, the snapshot has a manifest for each that is kept and for
/// each group that has entries.
pub proof fn law_snapshot_has_all_manifests(
    operation: RewriteManifestsOperation,
    result: Seq<ManifestFile>,
    from: int,
)
    requires
        is_result(operation, result, from),
        rewrite_manifests_action::next_nonempty(operation.merge_groups@, from) is None,
    ensures
        result.len() == operation.kept_manifests@.len() + nonempty_count(operation.merge_groups@),
        result.take(operation.kept_manifests@.len() as int) == operation.kept_manifests@,
{
    lemma_next_nonempty(operation.merge_groups@, from);
}

/// Whether the manifest at `i` is shorter than `target` bytes, and another one with the
/// same content and partition spec is so too.
pub open spec fn has_partner(target: u64, list: Seq<ManifestFile>, i: int) -> bool {
    &&& (list[i].manifest_length as u64) < target
    &&& exists|j: int|
        0 <= j < list.len() && j != i && ((#[trigger] list[j]).manifest_length as u64) < target
            && list[j].content == list[i].content && list[j].partition_spec_id
            == list[i].partition_spec_id
}

/// A manifest below the target is merged exactly where another one below it has the same
/// content and partition spec; every other manifest is kept, and none is both.
pub proof fn law_which_manifests_are_merged(
    action: RewriteManifests,
    list: Seq<ManifestFile>,
    i: int,
)
    requires
        0 <= i < list.len(),
    ensures
        ({
            let m = list[i];
            let key = GroupKey { content_type: m.content, spec_id: m.partition_spec_id };
            let merged = action.merge_keys(list).contains(key) && action.group(list, key).contains(
                m,
            );
            &&& has_partner(action.target_size_bytes, list, i) <==> merged
            &&& has_partner(action.target_size_bytes, list, i) <==> !action.kept(list).contains(m)
        }),
{
    let m = list[i];
    let key = rewrite_manifests::key_of(m);
    law_manifests_are_kept_or_merged(action, list, i);
    assert(list.contains(m));
    seqs::lemma_filter_contains(list, action.small_with(key), m);
    if (m.manifest_length as u64) < action.target_size_bytes {
        rewrite_manifests::lemma_merge_keys(action, list, i);
        seqs::lemma_filter_several(list, action.small_with(key), i);
        if has_partner(action.target_size_bytes, list, i) {
            let j = choose|j: int|
                0 <= j < list.len() && j != i && ((#[trigger] list[j]).manifest_length as u64)
                    < action.target_size_bytes && list[j].content == list[i].content
                    && list[j].partition_spec_id == list[i].partition_spec_id;
            assert(action.small_with(key)(list[j]));
        }
        if action.group(list, key).len() > 1 {
            let j = choose|j: int|
                0 <= j < list.len() && j != i && action.small_with(key)(#[trigger] list[j]);
            assert((list[j].manifest_length as u64) < action.target_size_bytes);
        }
    }
}

/// The groups are told apart by content and partition spec: no two have the same.
pub proof fn law_groups_are_distinct(action: RewriteManifests, list: Seq<ManifestFile>)
    ensures
        forall|i: int, j: int|
            0 <= i < j < action.merge_keys(list).len() ==> (#[trigger] action.merge_keys(
                list,
            )[i]).content_type != (#[trigger] action.merge_keys(list)[j]).content_type
                || action.merge_keys(list)[i].spec_id != action.merge_keys(list)[j].spec_id,
{
    let keys = rewrite_manifests::keys_of(list.filter(action.small()));
    seqs::lemma_extend_distinct(Seq::empty(), keys);
    seqs::lemma_filter_no_duplicates(seqs::distinct(keys), action.merges(list));
    assert forall|i: int, j: int| 0 <= i < j < action.merge_keys(list).len() implies (
    #[trigger] action.merge_keys(list)[i]).content_type != (#[trigger] action.merge_keys(
        list,
    )[j]).content_type || action.merge_keys(list)[i].spec_id != action.merge_keys(
        list,
    )[j].spec_id by {
        assert(action.merge_keys(list)[i] != action.merge_keys(list)[j]);
    }
}

/// Lets through the entries whose files were added or existed before.
pub open spec fn is_there() -> spec_fn(ManifestEntry) -> bool {
    |e: ManifestEntry| e.status == ManifestStatus::Added || e.status == ManifestStatus::Existing
}

proof fn lemma_alive_entries(storage: Storage, paths: Seq<Seq<char>>)
    ensures
        alive_entries(storage, paths) == storage::all_entries(storage, paths).filter(is_there()),
{
    let alive = rewrite_files::is_alive_entry();
    assert forall|e: ManifestEntry| #[trigger] alive(e) == is_there()(e) by {}
    seqs::lemma_filter_same(storage::all_entries(storage, paths), alive, is_there());
}

/// The entries of manifests in a list, one manifest after the other, for files that were
/// added or existed before.
pub open spec fn entries_there(storage: Storage, list: Seq<ManifestFile>) -> Seq<ManifestEntry>
    decreases list.len(),
{
    if list.len() == 0 {
        Seq::empty()
    } else {
        entries_there(storage, list.drop_last()) + (storage.manifests)(
            list.last().manifest_path@,
        ).filter(is_there())
    }
}

proof fn lemma_entries_there(storage: Storage, list: Seq<ManifestFile>)
    ensures
        entries_there(storage, list) == alive_entries(storage, seqs::manifest_paths(list)),
    decreases list.len(),
{
    let paths = seqs::manifest_paths(list);
    lemma_alive_entries(storage, paths);
    if list.len() == 0 {
        reveal(Seq::filter);
        assert(entries_there(storage, list) =~= alive_entries(storage, paths));
    } else {
        let front = list.drop_last();
        lemma_entries_there(storage, front);
        lemma_alive_entries(storage, seqs::manifest_paths(front));
        assert(paths.drop_last() =~= seqs::manifest_paths(front));
        Seq::filter_distributes_over_add(
            storage::all_entries(storage, paths.drop_last()),
            (storage.manifests)(paths.last()),
            is_there(),
        );
    }
}

/// Whether all entries of a manifest to be written come from manifests of the list that
/// are below the target and have its content and one partition spec, under which it is
/// written.
pub open spec fn is_unmixed(
    action: RewriteManifests,
    storage: Storage,
    list: Seq<ManifestFile>,
    plan: MergePlan,
) -> bool {
    exists|spec_id: i32|
        plan.entries.len() > 0 && action.table.metadata.partition_spec(spec_id)->0
            == plan.partition_spec && #[trigger] is_drawn_from(
            action,
            storage,
            list,
            plan,
            spec_id,
        )
}

/// Whether each entry of a manifest to be written is in a manifest of the list below the
/// target, with its content and this partition spec.
pub open spec fn is_drawn_from(
    action: RewriteManifests,
    storage: Storage,
    list: Seq<ManifestFile>,
    plan: MergePlan,
    spec_id: i32,
) -> bool {
    forall|k: int|
        0 <= k < plan.entries.len() ==> is_in_small(
            action,
            storage,
            list,
            plan.content_type,
            spec_id,
            #[trigger] plan.entries[k],
        )
}

/// Whether the entry is in a manifest of the list below the target, with this content and
/// partition spec.
pub open spec fn is_in_small(
    action: RewriteManifests,
    storage: Storage,
    list: Seq<ManifestFile>,
    content: ManifestContentType,
    spec_id: i32,
    e: ManifestEntry,
) -> bool {
    exists|j: int|
        0 <= j < list.len() && (storage.manifests)(
            (#[trigger] list[j]).manifest_path@,
        ).contains(e) && list[j].content == content && list[j].partition_spec_id == spec_id && (
        list[j].manifest_length as u64) < action.target_size_bytes
}

proof fn lemma_entry_from(storage: Storage, list: Seq<ManifestFile>, e: ManifestEntry)
    requires
        entries_there(storage, list).contains(e),
    ensures
        exists|m: ManifestFile| #[trigger]
            list.contains(m) && (storage.manifests)(m.manifest_path@).contains(e),
    decreases list.len(),
{
    let front = list.drop_last();
    let found = (storage.manifests)(list.last().manifest_path@);
    seqs::lemma_add_contains(entries_there(storage, front), found.filter(is_there()), e);
    if entries_there(storage, front).contains(e) {
        lemma_entry_from(storage, front, e);
        let m = choose|m: ManifestFile| #[trigger]
            front.contains(m) && (storage.manifests)(m.manifest_path@).contains(e);
        assert(list =~= front.push(list.last()));
        seqs::lemma_push_contains(front, list.last(), m);
        assert(list.contains(m));
    } else {
        seqs::lemma_filter_contains(found, is_there(), e);
        assert(list.contains(list.last()));
    }
}

proof fn lemma_shaped_unmixed(
    action: RewriteManifests,
    storage: Storage,
    list: Seq<ManifestFile>,
    key: GroupKey,
    entries: Seq<ManifestEntry>,
)
    requires
        forall|e: ManifestEntry| #[trigger]
            entries.contains(e) ==> entries_there(storage, action.group(list, key)).contains(e),
    ensures
        ({
            let spec = action.table.metadata.partition_spec(key.spec_id)->0;
            let plans = action.shaped(list, key, spec, entries);
            forall|i: int|
                0 <= i < plans.len() ==> is_unmixed(action, storage, list, #[trigger] plans[i])
        }),
{
    let spec = action.table.metadata.partition_spec(key.spec_id)->0;
    let plans = action.shaped(list, key, spec, entries);
    let group = action.group(list, key);
    law_shaping_keeps_entries(action, list, key, spec, entries);
    assert forall|i: int| 0 <= i < plans.len() implies is_unmixed(
        action,
        storage,
        list,
        #[trigger] plans[i],
    ) by {
        let plan = plans[i];
        assert forall|k: int| 0 <= k < plan.entries.len() implies is_in_small(
            action,
            storage,
            list,
            plan.content_type,
            key.spec_id,
            #[trigger] plan.entries[k],
        ) by {
            let e = plan.entries[k];
            lemma_in_plan_entries(plans, i, e);
            lemma_entry_from(storage, group, e);
            let m = choose|m: ManifestFile| #[trigger]
                group.contains(m) && (storage.manifests)(m.manifest_path@).contains(e);
            seqs::lemma_filter_contains(list, action.small_with(key), m);
            let j = choose|j: int| 0 <= j < list.len() && list[j] == m;
            assert((storage.manifests)(list[j].manifest_path@).contains(e));
        }
        assert(is_drawn_from(action, storage, list, plan, key.spec_id));
    }
}

proof fn lemma_in_plan_entries(plans: Seq<MergePlan>, i: int, e: ManifestEntry)
    requires
        0 <= i < plans.len(),
        plans[i].entries.contains(e),
    ensures
        plan_entries(plans).contains(e),
    decreases i,
{
    seqs::lemma_add_contains(plans[0].entries, plan_entries(plans.drop_first()), e);
    if i > 0 {
        assert(plans.drop_first()[i - 1] == plans[i]);
        lemma_in_plan_entries(plans.drop_first(), i - 1, e);
    }
}

proof fn lemma_run_unmixed(
    action: RewriteManifests,
    list: Seq<ManifestFile>,
    storage: Storage,
    n: nat,
)
    requires
        action.merge_keys(list).len() > 0,
    ensures
        forall|i: int|
            0 <= i < reads_after(action, list, storage, n).merged.len() ==> is_unmixed(
                action,
                storage,
                list,
                #[trigger] reads_after(action, list, storage, n).merged[i],
            ),
    decreases n,
{
    if n > 0 {
        let before = reads_after(action, list, storage, (n - 1) as nat);
        lemma_run_unmixed(action, list, storage, (n - 1) as nat);
        if before.queue.len() == 0 && !is_complete(action, before) {
            lemma_completed_unmixed(action, list, storage, (n - 1) as nat);
        }
    }
}

proof fn lemma_completed_unmixed(
    action: RewriteManifests,
    list: Seq<ManifestFile>,
    storage: Storage,
    n: nat,
)
    requires
        action.merge_keys(list).len() > 0,
        reads_after(action, list, storage, n).queue.len() == 0,
        forall|i: int|
            0 <= i < reads_after(action, list, storage, n).merged.len() ==> is_unmixed(
                action,
                storage,
                list,
                #[trigger] reads_after(action, list, storage, n).merged[i],
            ),
    ensures
        forall|i: int|
            0 <= i < reads_after(action, list, storage, n).completed(action).merged.len()
                ==> is_unmixed(
                action,
                storage,
                list,
                #[trigger] reads_after(action, list, storage, n).completed(action).merged[i],
            ),
{
    let reads = reads_after(action, list, storage, n);
    law_every_run_agrees(action, list, storage, n);
    let key = reads.key(action);
    let group = action.group(list, key);
    let paths = seqs::manifest_paths(group);
    assert(paths.take(paths.len() as int) =~= paths);
    lemma_entries_there(storage, group);
    assert(reads.entries == entries_there(storage, group));
    lemma_shaped_unmixed(action, storage, list, key, reads.entries);
    let spec = action.table.metadata.partition_spec(key.spec_id)->0;
    let more = action.shaped(list, key, spec, reads.entries);
    let all = reads.completed(action).merged;
    assert forall|i: int| 0 <= i < all.len() implies is_unmixed(
        action,
        storage,
        list,
        #[trigger] all[i],
    ) by {
        if i < reads.merged.len() {
            assert(all[i] == reads.merged[i]);
        } else {
            assert(all[i] == more[i - reads.merged.len()]);
        }
    }
}

/// The entries of the manifests to be written, one manifest after the other.
pub open spec fn written_entries(groups: Seq<MergedManifestGroup>) -> Seq<ManifestEntry>
    decreases groups.len(),
{
    if groups.len() == 0 {
        Seq::empty()
    } else {
        groups[0].entries@ + written_entries(groups.drop_first())
    }
}

proof fn lemma_written_entries(groups: Seq<MergedManifestGroup>)
    ensures
        written_entries(groups) == plan_entries(rewrite_manifests::merge_plans(groups)),
    decreases groups.len(),
{
    if groups.len() > 0 {
        let plans = rewrite_manifests::merge_plans(groups);
        assert(plans.drop_first() =~= rewrite_manifests::merge_plans(groups.drop_first()));
        lemma_written_entries(groups.drop_first());
    }
}

/// When a run comes to replace manifests, it keeps exactly those that are not merged, and
/// they and the manifests to be written together have every entry of the snapshot for a
/// file that was added or existed before, each as often as before. No manifest to be
/// written mixes contents or partition specs. The result counts the manifests not kept,
/// and those to be written.
pub proof fn law_what_a_run_replaces(
    action: RewriteManifests,
    list: Seq<ManifestFile>,
    storage: Storage,
    n: nat,
    step: ManifestsStep,
)
    requires
        action.merge_keys(list).len() > 0,
        list.len() <= u32::MAX,
        reads_after(action, list, storage, n).can_go_on(action),
        rewrite_manifests::continues(action, reads_after(action, list, storage, n), step),
        step is Apply,
    ensures
        ({
            let kept = step->Apply_0.action.kept_manifests@;
            let groups = step->Apply_0.action.merge_groups@;
            let result = step->Apply_0.result;
            &&& forall|i: int|
                0 <= i < list.len() ==> (kept.contains(#[trigger] list[i]) <==> !has_partner(
                    action.target_size_bytes,
                    list,
                    i,
                ))
            &&& forall|m: ManifestFile| #[trigger] kept.contains(m) ==> list.contains(m)
            &&& (entries_there(storage, kept) + written_entries(groups)).to_multiset()
                == entries_there(storage, list).to_multiset()
            &&& forall|i: int|
                0 <= i < groups.len() ==> is_unmixed(
                    action,
                    storage,
                    list,
                    rewrite_manifests::merge_plan(#[trigger] groups[i]),
                )
            &&& result.rewritten_manifests_count + kept.len() == list.len()
            &&& result.added_manifests_count == groups.len()
        }),
{
    let reads = reads_after(action, list, storage, n);
    let kept = step->Apply_0.action.kept_manifests@;
    let groups = step->Apply_0.action.merge_groups@;
    law_every_run_agrees(action, list, storage, n);
    assert(is_complete(action, reads));
    assert(kept == action.kept(list));
    assert forall|i: int| 0 <= i < list.len() implies (kept.contains(#[trigger] list[i])
        <==> !has_partner(action.target_size_bytes, list, i)) by {
        law_which_manifests_are_merged(action, list, i);
    }
    assert forall|m: ManifestFile| #[trigger] kept.contains(m) implies list.contains(m) by {
        let large = list.filter(action.large());
        let alone = list.filter(action.alone(list));
        seqs::lemma_add_contains(large, alone, m);
        seqs::lemma_filter_contains(list, action.large(), m);
        seqs::lemma_filter_contains(list, action.alone(list), m);
    }
    law_kept_and_merged_preserve_entries(action, list, storage, n);
    lemma_entries_there(storage, kept);
    lemma_entries_there(storage, list);
    lemma_written_entries(groups);
    lemma_run_unmixed(action, list, storage, n);
    lemma_completed_unmixed(action, list, storage, n);
    let merged = reads.completed(action).merged;
    assert(rewrite_manifests::merge_plans(groups) == merged);
    assert(merged.len() == groups.len());
    assert forall|i: int| 0 <= i < groups.len() implies is_unmixed(
        action,
        storage,
        list,
        rewrite_manifests::merge_plan(#[trigger] groups[i]),
    ) by {
        assert(rewrite_manifests::merge_plan(groups[i]) == merged[i]);
    }
    law_rewritten_count(action, list, storage, n);
    lemma_rewritten_count(action, list, storage, n);
    lemma_group_sum_bound(action, list, reads.groups_begun);
    assert(step->Apply_0.result.rewritten_manifests_count + kept.len() == list.len());
    assert(step->Apply_0.result.added_manifests_count == groups.len());
}

/// The entries of a group are spread over as many manifests as it takes for none to exceed
/// the target, if entries are alike: where `count` times the target is the first to hold
/// the group, `count` manifests of `per` entries are the first to hold its entries, and
/// each but the last has `per`.
pub proof fn law_shape_of_output(
    action: RewriteManifests,
    list: Seq<ManifestFile>,
    key: GroupKey,
    partition_spec: Arc<PartitionSpec>,
    entries: Seq<ManifestEntry>,
    count: nat,
    per: nat,
)
    requires
        entries.len() > 0,
        action.target_size_bytes > 0,
        ({
            let total = rewrite_manifests::total_length(action.group(list, key));
            let target = action.target_size_bytes;
            &&& total + (target - 1) <= u64::MAX
            &&& count >= 1
            &&& count * target >= total
            &&& count == 1 || (count - 1) * target < total
        }),
        per >= 1,
        per * count >= entries.len(),
        (per - 1) * count < entries.len(),
    ensures
        ({
            let plans = action.shaped(list, key, partition_spec, entries);
            &&& plans.len() > 0
            &&& forall|i: int|
                0 <= i < plans.len() - 1 ==> (#[trigger] plans[i]).entries.len() == per
            &&& 0 < plans.last().entries.len() <= per
        }),
{
    let total = rewrite_manifests::total_length(action.group(list, key));
    let target = action.target_size_bytes as int;
    let c = count as int;
    let q = (total + (target - 1)) / target;
    assert(q == c || (total == 0 && c == 1 && q == 0)) by (nonlinear_arith)
        requires
            target > 0,
            c >= 1,
            c * target >= total,
            c == 1 || (c - 1) * target < total,
            total >= 0,
            q == (total + (target - 1)) / target,
    ;
    assert(q <= total + (target - 1)) by (nonlinear_arith)
        requires
            q == (total + (target - 1)) / target,
            target > 0,
            total >= 0,
    ;
    assert(rewrite_manifests::output_count(total as u64, action.target_size_bytes) == c);
    let n = entries.len() as int;
    let p = per as int;
    let r = (n + c - 1) / c;
    assert(r == p) by (nonlinear_arith)
        requires
            c >= 1,
            p >= 1,
            p * c >= n,
            (p - 1) * c < n,
            n > 0,
            r == (n + c - 1) / c,
    ;
    assert(rewrite_manifests::entries_per_manifest(entries.len(), c as u64) == per);
    lemma_chunk_sizes(entries, per);
}

proof fn lemma_chunk_sizes(s: Seq<ManifestEntry>, size: nat)
    requires
        size > 0,
        s.len() > 0,
    ensures
        ({
            let pieces = rewrite_manifests::chunks(s, size);
            &&& pieces.len() > 0
            &&& forall|i: int| 0 <= i < pieces.len() - 1 ==> (#[trigger] pieces[i]).len() == size
            &&& 0 < pieces.last().len() <= size
        }),
    decreases s.len(),
{
    if s.len() > size {
        let rest = s.skip(size as int);
        lemma_chunk_sizes(rest, size);
        let pieces = rewrite_manifests::chunks(s, size);
        let later = rewrite_manifests::chunks(rest, size);
        assert(pieces =~= seq![s.take(size as int)] + later);
        assert forall|i: int| 0 <= i < pieces.len() - 1 implies (#[trigger] pieces[i]).len()
            == size by {
            if i > 0 {
                assert(pieces[i] == later[i - 1]);
            }
        }
        assert(pieces.last() == later.last());
    }
}

/// The total length of manifests is the sum of their lengths.
pub proof fn law_total_length(list: Seq<ManifestFile>, m: ManifestFile)
    ensures
        rewrite_manifests::total_length(Seq::empty()) == 0,
        rewrite_manifests::total_length(list.push(m)) == rewrite_manifests::total_length(list) + (
        m.manifest_length as u64),
{
    assert(list.push(m).drop_last() =~= list);
}

/// A request asks for what the action describes: its manifests kept and merged, and no
/// data files; its properties name the action, unless they did so before, and are
/// otherwise as they were. An action without manifests asks for nothing.
pub proof fn law_what_is_requested(
    action: RewriteManifestsAction,
    r: SnapshotRequest<RewriteManifestsOperation>,
    key: Seq<char>,
)
    requires
        action.is_request(r),
    ensures
        r.operation.kept_manifests@ == action.kept_manifests@,
        r.operation.merge_groups@ == action.merge_groups@,
        r.added_data_files@.len() == 0,
        !r.validate_added_files,
        key != "iceberg.action"@ ==> r.snapshot_properties@.contains_key(key)
            == action.snapshot_properties@.contains_key(key),
        action.snapshot_properties@.contains_key(key) ==> r.snapshot_properties@.contains_key(key)
            && r.snapshot_properties@[key] == action.snapshot_properties@[key],
        r.snapshot_properties@.contains_key("iceberg.action"@),
        !action.snapshot_properties@.contains_key("iceberg.action"@)
            ==> r.snapshot_properties@["iceberg.action"@]@ == "rewrite-manifests"@,
        action.is_empty() <==> action.kept_manifests@.len() == 0 && action.merge_groups@.len()
            == 0,
{
}

/// The next group to be written is the first one, from the position on, that has entries.
pub proof fn law_next_group_with_entries(groups: Seq<MergedManifestGroup>, from: int)
    requires
        0 <= from,
    ensures
        match rewrite_manifests_action::next_nonempty(groups, from) {
            Some(g) => {
                &&& from <= g < groups.len()
                &&& groups[g].entries@.len() > 0
                &&& forall|i: int| from <= i < g ==> (#[trigger] groups[i]).entries@.len() == 0
            },
            None => forall|i: int|
                from <= i < groups.len() ==> (#[trigger] groups[i]).entries@.len() == 0,
        },
    decreases groups.len() - from,
{
    if from < groups.len() && groups[from].entries@.len() == 0 {
        law_next_group_with_entries(groups, from + 1);
    }
}

/// Between groups, the next one with entries is opened for writing, with nothing recorded
/// yet; after the last one the manifests of the snapshot are those so far.
pub proof fn law_what_follows_a_manifest(
    target: MergeTarget,
    result: Seq<ManifestFile>,
    from: int,
    step: MergedManifestStep,
)
    requires
        0 <= from,
        rewrite_manifests_action::next_manifest(target, result, from, step),
    ensures
        ({
            let groups = target.operation.merge_groups@;
            if exists|i: int| from <= i < groups.len() && (#[trigger] groups[i]).entries@.len() > 0 {
                let run = step->OpenManifest_0.run;
                &&& step is OpenManifest
                &&& *run.operation == target.operation
                &&& *run.table == target.table
                &&& run.snapshot_id == target.snapshot_id
                &&& run.commit_uuid == target.commit_uuid
                &&& run.origin == target.origin
                &&& run.result@ == result
                &&& run.recorded == 0
                &&& from <= run.group < groups.len()
                &&& groups[run.group as int].entries@.len() > 0
                &&& forall|i: int|
                    from <= i < run.group ==> (#[trigger] groups[i]).entries@.len() == 0
            } else {
                &&& step is Finished
                &&& step->Finished_0 is Ok
                &&& step->Finished_0->Ok_0@ == result
            }
        }),
{
    law_next_group_with_entries(target.operation.merge_groups@, from);
}

/// Within a group, the entries are recorded one after the other, and then the manifest is
/// written. Only where manifests are merged is an entry without its snapshot refused.
pub proof fn law_what_follows_an_entry<'a>(
    run: MergedManifestRun<'a>,
    recorded: int,
    step: MergedManifestStep<'a>,
)
    requires
        0 <= recorded,
        run.wf(),
        recorded <= run.operation.merge_groups@[run.group as int].entries@.len(),
        rewrite_manifests_action::next_entry(run, recorded, step),
    ensures
        ({
            let entries = run.operation.merge_groups@[run.group as int].entries@;
            if recorded == entries.len() {
                &&& step is WriteManifest
                &&& step->WriteManifest_0.run.group == run.group
                &&& step->WriteManifest_0.run.result@ == run.result@
            } else if run.origin == GroupOrigin::Merged && entries[recorded].snapshot_id is None {
                &&& step is Finished
                &&& step->Finished_0 is Err
                &&& step->Finished_0->Err_0.kind == ErrorKind::DataInvalid
            } else {
                &&& step is AddExistingFile
                &&& step->AddExistingFile_0.run.recorded == recorded
                &&& step->AddExistingFile_0.run.group == run.group
                &&& step->AddExistingFile_0.run.operation == run.operation
                &&& step->AddExistingFile_0.run.result@ == run.result@
            }
        }),
{
    let groups = &run.operation.merge_groups;
    assert(groups.len() == groups@.len());
    let entries = groups@[run.group as int].entries;
    assert(entries.len() == entries@.len());
}

/// A manifest is written in the version of the table's format, and from version 2 on
/// apart for data and for deletes.
pub proof fn law_kind_of_writer(version: FormatVersion, content: ManifestContentType)
    ensures
        ({
            let kind = rewrite_manifests_action::writer_kind(version, content);
            &&& version == FormatVersion::V1 <==> kind == ManifestWriterKind::V1
            &&& version == FormatVersion::V2 && content == ManifestContentType::Data <==> kind
                == ManifestWriterKind::V2Data
            &&& version == FormatVersion::V2 && content == ManifestContentType::Deletes <==> kind
                == ManifestWriterKind::V2Deletes
            &&& version == FormatVersion::V3 && content == ManifestContentType::Data <==> kind
                == ManifestWriterKind::V3Data
            &&& version == FormatVersion::V3 && content == ManifestContentType::Deletes <==> kind
                == ManifestWriterKind::V3Deletes
        }),
{
}

/// Within one commit, no two groups are written to the same place, and what remains of a
/// manifest never to that of a merged one.
pub proof fn law_manifests_have_places_of_their_own(
    location: Seq<char>,
    uuid: u128,
    a: GroupOrigin,
    i: nat,
    b: GroupOrigin,
    j: nat,
)
    requires
        rewrite_manifests_action::manifest_path(location, uuid, a, i)
            == rewrite_manifests_action::manifest_path(location, uuid, b, j),
    ensures
        a == b,
        i == j,
{
    reveal_strlit("-m");
    reveal_strlit("-r");
    reveal_strlit(".avro");
    let start = location + "/metadata/"@ + outside::hyphenated(uuid);
    let p = rewrite_manifests_action::manifest_path(location, uuid, a, i);
    let q = rewrite_manifests_action::manifest_path(location, uuid, b, j);
    let n = start.len() as int;
    assert(p[n + 1] == a.mark()[1]);
    assert(q[n + 1] == b.mark()[1]);
    assert(a == b);
    let x = text::decimal(i);
    let y = text::decimal(j);
    assert(p.len() == n + 2 + x.len() + 5);
    assert(q.len() == n + 2 + y.len() + 5);
    assert(p.subrange(n + 2, n + 2 + x.len()) =~= x);
    assert(q.subrange(n + 2, n + 2 + y.len()) =~= y);
    text::law_decimal_reads_back(i);
    text::law_decimal_reads_back(j);
}

/// There is something to merge exactly where some manifest has another one to be merged
/// with.
pub proof fn law_whether_there_is_something_to_merge(
    action: RewriteManifests,
    list: Seq<ManifestFile>,
)
    ensures
        action.merge_keys(list).len() > 0 <==> exists|i: int|
            0 <= i < list.len() && has_partner(action.target_size_bytes, list, i),
{
    let keys = action.merge_keys(list);
    if keys.len() > 0 {
        let key = keys[0];
        let found = rewrite_manifests::keys_of(list.filter(action.small()));
        assert(keys.contains(key));
        seqs::lemma_filter_contains(seqs::distinct(found), action.merges(list), key);
        let group = action.group(list, key);
        assert(group.len() > 1);
        assert(group.contains(group[0]));
        seqs::lemma_filter_contains(list, action.small_with(key), group[0]);
        let i = choose|i: int| 0 <= i < list.len() && list[i] == group[0];
        law_which_manifests_are_merged(action, list, i);
        assert(has_partner(action.target_size_bytes, list, i));
    }
    if exists|i: int| 0 <= i < list.len() && has_partner(action.target_size_bytes, list, i) {
        let i = choose|i: int|
            0 <= i < list.len() && has_partner(action.target_size_bytes, list, i);
        law_which_manifests_are_merged(action, list, i);
    }
}

/// A run is refused only where the table lacks the partition spec of manifests that are to
/// be merged.
pub proof fn law_why_a_run_is_refused(
    action: RewriteManifests,
    reads: MergeReads,
    step: ManifestsStep,
)
    requires
        rewrite_manifests::next_group(action, reads, step),
        step is Finished,
    ensures
        step->Finished_0 is Err,
        step->Finished_0->Err_0.kind == ErrorKind::DataInvalid,
        step->Finished_0->Err_0.message@ == "Partition spec "@ + text::signed_decimal(
            action.merge_keys(reads.manifests)[reads.groups_begun as int].spec_id as int,
        ) + " not found in table metadata"@,
        reads.groups_begun < action.merge_keys(reads.manifests).len(),
        ({
            let spec_id = action.merge_keys(reads.manifests)[reads.groups_begun as int].spec_id;
            forall|i: int|
                0 <= i < action.table.metadata.partition_specs@.len() ==> (
                #[trigger] action.table.metadata.partition_specs@[i]).spec_id != spec_id
        }),
{
    let spec_id = action.merge_keys(reads.manifests)[reads.groups_begun as int].spec_id;
    model::law_partition_spec_lookup(action.table.metadata, spec_id);
}

/// Groups can be begun and completed as long as manifests and lengths can be counted.
pub proof fn law_whether_a_run_can_go_on(action: RewriteManifests, reads: MergeReads)
    requires
        reads.queue.len() == 0,
        rewrite_manifests::total_length(action.group(reads.manifests, reads.key(action)))
            <= u64::MAX,
        reads.completed(action).merged.len() <= u32::MAX,
        reads.groups_begun < action.merge_keys(reads.manifests).len() ==> reads.rewritten
            + action.group(
            reads.manifests,
            action.merge_keys(reads.manifests)[reads.groups_begun as int],
        ).len() <= u32::MAX,
        reads.rewritten >= 0,
    ensures
        reads.can_go_on(action),
{
}

} // verus!
