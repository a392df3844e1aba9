//! What holds of every run of the expire-snapshots action.

use vstd::prelude::*;

use crate::expire_snapshots;
use crate::expire_snapshots::{
    ExpireReads, ExpireSnapshots, ExpireStep, TableCommit, TableRequirement, TableUpdate,
};
use crate::model;
use crate::model::{
    DataContentType, ManifestEntry, Snapshot, SnapshotReference, StatisticsFile, TableMetadata,
};
use crate::seqs;
use crate::storage;
use crate::storage::Storage;
use crate::text;

verus! {

proof fn lemma_expired_ids(action: ExpireSnapshots, id: i64)
    ensures
        action.expired_ids().contains(id) <==> (!action.keeps(id) && exists|i: int|
            0 <= i < action.table.metadata.snapshots@.len() && (
            #[trigger] action.table.metadata.snapshots@[i]).snapshot_id == id),
{
    let all = action.table.metadata.snapshots@;
    let gone = all.filter(action.expired_snapshot());
    if action.expired_ids().contains(id) {
        let j = choose|j: int|
            0 <= j < action.expired_ids().len() && action.expired_ids()[j] == id;
        assert(gone.contains(gone[j]));
        seqs::lemma_filter_contains(all, action.expired_snapshot(), gone[j]);
        let i = choose|i: int| 0 <= i < all.len() && all[i] == gone[j];
        assert(all[i].snapshot_id == id);
    }
    if !action.keeps(id) && exists|i: int|
        0 <= i < all.len() && (#[trigger] all[i]).snapshot_id == id {
        let i = choose|i: int| 0 <= i < all.len() && (#[trigger] all[i]).snapshot_id == id;
        assert(all.contains(all[i]));
        seqs::lemma_filter_contains(all, action.expired_snapshot(), all[i]);
        let j = choose|j: int| 0 <= j < gone.len() && gone[j] == all[i];
        assert(action.expired_ids()[j] == id);
    }
}

/// A snapshot that a branch or a tag points to does not expire, unless its expiration
/// was requested.
pub proof fn law_ref_heads_are_retained(action: ExpireSnapshots, id: i64)
    requires
        action.is_ref_head(id),
        !action.snapshot_ids@.contains(id),
    ensures
        !action.expired_ids().contains(id),
{
    lemma_expired_ids(action, id);
}

/// The `retain_last` most recent snapshots of the main branch do not expire, unless
/// their expiration was requested.
pub proof fn law_recent_ancestors_are_retained(action: ExpireSnapshots, k: nat)
    requires
        k < action.retain_last,
        action.table.metadata.ancestor(action.table.metadata.current_snapshot_id, k) is Some,
        !action.snapshot_ids@.contains(
            action.table.metadata.ancestor(action.table.metadata.current_snapshot_id, k)->0,
        ),
    ensures
        !action.expired_ids().contains(
            action.table.metadata.ancestor(action.table.metadata.current_snapshot_id, k)->0,
        ),
{
    let id = action.table.metadata.ancestor(action.table.metadata.current_snapshot_id, k)->0;
    assert(action.is_recent_ancestor(id));
    lemma_expired_ids(action, id);
}

/// A snapshot that is not older than `older_than` does not expire, unless its
/// expiration was requested.
pub proof fn law_new_snapshots_are_retained(action: ExpireSnapshots, i: int)
    requires
        0 <= i < action.table.metadata.snapshots@.len(),
        action.older_than is Some,
        action.table.metadata.snapshots@[i].timestamp_ms >= action.older_than->0.millis(),
        !action.snapshot_ids@.contains(action.table.metadata.snapshots@[i].snapshot_id),
    ensures
        !action.expired_ids().contains(action.table.metadata.snapshots@[i].snapshot_id),
{
    let id = action.table.metadata.snapshots@[i].snapshot_id;
    assert(action.is_new_enough(id));
    lemma_expired_ids(action, id);
}

/// A snapshot whose expiration was requested expires, whatever `older_than`,
/// `retain_last` and the branches say.
pub proof fn law_requested_snapshots_expire(action: ExpireSnapshots, i: int)
    requires
        0 <= i < action.table.metadata.snapshots@.len(),
        action.snapshot_ids@.contains(action.table.metadata.snapshots@[i].snapshot_id),
    ensures
        action.expired_ids().contains(action.table.metadata.snapshots@[i].snapshot_id),
{
    lemma_expired_ids(action, action.table.metadata.snapshots@[i].snapshot_id);
}

/// Every snapshot is either retained or expired, and none is both.
pub proof fn law_snapshots_are_kept_or_expired(action: ExpireSnapshots, i: int)
    requires
        0 <= i < action.table.metadata.snapshots@.len(),
    ensures
        action.expired_ids().contains(action.table.metadata.snapshots@[i].snapshot_id)
            <==> !action.keeps(action.table.metadata.snapshots@[i].snapshot_id),
        action.kept_lists().len() + action.expired_lists().len()
            == action.table.metadata.snapshots@.len(),
{
    lemma_expired_ids(action, action.table.metadata.snapshots@[i].snapshot_id);
    lemma_split_lengths(action, action.table.metadata.snapshots@);
}

proof fn lemma_split_lengths(action: ExpireSnapshots, s: Seq<Snapshot>)
    ensures
        s.filter(action.kept_snapshot()).len() + s.filter(action.expired_snapshot()).len()
            == s.len(),
    decreases s.len(),
{
    reveal(Seq::filter);
    if s.len() > 0 {
        lemma_split_lengths(action, s.drop_last());
    }
}

/// Among the files to delete, no data or delete file, no manifest and no manifest
/// list is named twice.
pub proof fn law_nothing_is_deleted_twice(action: ExpireSnapshots, reads: ExpireReads)
    requires
        reads.candidate_manifests.no_duplicates(),
    ensures
        seqs::entry_paths(reads.unreferenced_files()).no_duplicates(),
        reads.unreferenced_manifests().no_duplicates(),
        expire_snapshots::unreferenced_lists(action).no_duplicates(),
{
    seqs::lemma_distinct_entries(
        reads.candidate_entries.filter(expire_snapshots::not_live(reads.live_entries)),
    );
    seqs::lemma_filter_no_duplicates(
        reads.candidate_manifests,
        seqs::not_in(reads.live_manifests),
    );
    seqs::lemma_extend_distinct(Seq::empty(), action.expired_lists());
    seqs::lemma_filter_no_duplicates(
        seqs::distinct(action.expired_lists()),
        seqs::not_in(action.kept_lists()),
    );
}

/// The counts of the result add up to the number of deletions.
pub proof fn law_counts_add_up(action: ExpireSnapshots, reads: ExpireReads)
    requires
        expire_snapshots::deletions(action, reads).len() <= u64::MAX,
    ensures
        ({
            let r = expire_snapshots::outcome(action, reads);
            r.deleted_data_files_count + r.deleted_equality_delete_files_count
                + r.deleted_position_delete_files_count + r.deleted_manifest_files_count
                + r.deleted_manifest_lists_count + r.deleted_statistics_files_count
                == expire_snapshots::deletions(action, reads).len()
        }),
{
    seqs::lemma_count_content(reads.unreferenced_files());
}

/// Every entry of `some` is in `all`.
pub open spec fn covers(all: Seq<ManifestEntry>, some: Seq<ManifestEntry>) -> bool {
    forall|e: ManifestEntry| #[trigger] some.contains(e) ==> all.contains(e)
}

/// `entries` come from the manifests `paths`.
pub open spec fn drawn_from(
    entries: Seq<ManifestEntry>,
    paths: Seq<Seq<char>>,
    storage: Storage,
) -> bool {
    forall|e: ManifestEntry| #[trigger]
        entries.contains(e) ==> exists|p: Seq<char>|
            paths.contains(p) && #[trigger] (storage.manifests)(p).contains(e)
}

/// What has been read agrees with what storage holds.
pub open spec fn agrees(action: ExpireSnapshots, reads: ExpireReads, storage: Storage) -> bool {
    let kept = action.kept_lists();
    let expired = action.expired_lists();
    let n = reads.lists_read as int;
    &&& n <= kept.len() + expired.len()
    &&& forall|p: Seq<char>| #[trigger]
        reads.live_manifests.contains(p) <==> storage.listed(kept, n, p)
    &&& forall|p: Seq<char>| #[trigger]
        reads.candidate_manifests.contains(p) <==> storage.listed(expired, n - kept.len(), p)
    &&& reads.candidate_manifests.no_duplicates()
    &&& forall|p: Seq<char>| #[trigger]
        reads.live_manifests.contains(p) ==> (n <= kept.len() && reads.queue.contains(p))
            || covers(reads.live_entries, (storage.manifests)(p))
    &&& forall|p: Seq<char>| #[trigger]
        reads.candidate_manifests.contains(p) ==> (n > kept.len() && reads.queue.contains(p))
            || covers(reads.candidate_entries, (storage.manifests)(p))
    &&& drawn_from(reads.live_entries, reads.live_manifests, storage)
    &&& drawn_from(reads.candidate_entries, reads.candidate_manifests, storage)
    &&& reads.queue.len() > 0 ==> forall|p: Seq<char>| #[trigger]
        reads.queue.contains(p) ==> if n <= kept.len() {
            reads.live_manifests.contains(p)
        } else {
            reads.candidate_manifests.contains(p)
        }
}

/// Before anything has been read, the reads agree with whatever storage holds.
pub proof fn law_start_agrees(action: ExpireSnapshots, storage: Storage)
    ensures
        agrees(action, ExpireReads::start(), storage),
{
}

/// Reading the next manifest list keeps the reads in agreement with storage.
pub proof fn law_list_step_agrees(action: ExpireSnapshots, reads: ExpireReads, storage: Storage)
    requires
        agrees(action, reads, storage),
        reads.queue.len() == 0,
        reads.lists_read < action.kept_lists().len() + action.expired_lists().len(),
    ensures
        agrees(
            action,
            reads.with_list(
                action,
                (storage.lists)(
                    (action.kept_lists() + action.expired_lists())[reads.lists_read as int],
                ),
            ),
            storage,
        ),
{
    let kept = action.kept_lists();
    let expired = action.expired_lists();
    let n = reads.lists_read as int;
    let manifests = (storage.lists)((kept + expired)[n]);
    let paths = seqs::manifest_paths(manifests);
    let after = reads.with_list(action, manifests);
    if n < kept.len() {
        assert forall|p: Seq<char>| #[trigger]
            after.live_manifests.contains(p) <==> storage.listed(kept, n + 1, p) by {
            seqs::lemma_add_contains(reads.live_manifests, paths, p);
            storage::lemma_listed_step(storage, kept, n, p);
            assert(reads.live_manifests.contains(p) <==> storage.listed(kept, n, p));
        }
        assert forall|p: Seq<char>| #[trigger]
            after.candidate_manifests.contains(p) <==> storage.listed(
                expired,
                n + 1 - kept.len(),
                p,
            ) by {
            assert(!storage.listed(expired, n + 1 - kept.len(), p));
            assert(!storage.listed(expired, n - kept.len(), p));
        }
        assert forall|p: Seq<char>| #[trigger] after.live_manifests.contains(p) implies (
        after.queue.contains(p)) || covers(after.live_entries, (storage.manifests)(p)) by {
            seqs::lemma_add_contains(reads.live_manifests, paths, p);
            if reads.live_manifests.contains(p) {
                assert(!reads.queue.contains(p));
            }
        }
        assert(drawn_from(after.live_entries, after.live_manifests, storage)) by {
            assert forall|e: ManifestEntry| #[trigger] after.live_entries.contains(e) implies exists|
                p: Seq<char>,
            |
                after.live_manifests.contains(p) && #[trigger] (storage.manifests)(p).contains(
                    e,
                ) by {
                let p = choose|p: Seq<char>|
                    reads.live_manifests.contains(p) && #[trigger] (storage.manifests)(p).contains(
                        e,
                    );
                seqs::lemma_add_contains(reads.live_manifests, paths, p);
                assert((storage.manifests)(p).contains(e));
            }
        }
        assert forall|p: Seq<char>| #[trigger]
            after.queue.contains(p) implies after.live_manifests.contains(p) by {
            seqs::lemma_add_contains(reads.live_manifests, paths, p);
        }
    } else {
        let m = n - kept.len();
        assert((kept + expired)[n] == expired[m]);
        let seen = reads.candidate_manifests;
        seqs::lemma_extend_distinct(seen, paths);
        assert forall|p: Seq<char>| #[trigger]
            after.live_manifests.contains(p) <==> storage.listed(kept, n + 1, p) by {
            assert(storage.listed(kept, n + 1, p) <==> storage.listed(kept, n, p)) by {
                if storage.listed(kept, n + 1, p) {
                    let j = choose|j: int|
                        0 <= j < n + 1 && j < kept.len() && #[trigger] seqs::manifest_paths(
                            (storage.lists)(kept[j]),
                        ).contains(p);
                    assert(seqs::manifest_paths((storage.lists)(kept[j])).contains(p));
                }
                if storage.listed(kept, n, p) {
                    let j = choose|j: int|
                        0 <= j < n && j < kept.len() && #[trigger] seqs::manifest_paths(
                            (storage.lists)(kept[j]),
                        ).contains(p);
                    assert(seqs::manifest_paths((storage.lists)(kept[j])).contains(p));
                }
            }
        }
        assert forall|p: Seq<char>| #[trigger]
            after.candidate_manifests.contains(p) <==> storage.listed(expired, m + 1, p) by {
            storage::lemma_listed_step(storage, expired, m, p);
            assert(seen.contains(p) <==> storage.listed(expired, m, p));
        }
        assert forall|p: Seq<char>| #[trigger] after.candidate_manifests.contains(p) implies (
        after.queue.contains(p)) || covers(after.candidate_entries, (storage.manifests)(p)) by {
            let i = choose|i: int|
                0 <= i < after.candidate_manifests.len() && after.candidate_manifests[i] == p;
            if i < seen.len() {
                assert(after.candidate_manifests.take(seen.len() as int)[i] == p);
                assert(seen.contains(p));
                assert(!reads.queue.contains(p));
            } else {
                assert(after.queue[i - seen.len()] == p);
            }
        }
        assert forall|p: Seq<char>| #[trigger] after.live_manifests.contains(p) implies covers(
            after.live_entries,
            (storage.manifests)(p),
        ) by {
            assert(!reads.queue.contains(p));
        }
        assert(drawn_from(after.candidate_entries, after.candidate_manifests, storage)) by {
            assert forall|e: ManifestEntry| #[trigger]
                after.candidate_entries.contains(e) implies exists|p: Seq<char>|
                after.candidate_manifests.contains(p) && #[trigger] (storage.manifests)(
                    p,
                ).contains(e) by {
                let p = choose|p: Seq<char>|
                    seen.contains(p) && #[trigger] (storage.manifests)(p).contains(e);
                assert(after.candidate_manifests.contains(p));
                assert((storage.manifests)(p).contains(e));
            }
        }
        assert forall|p: Seq<char>| #[trigger]
            after.queue.contains(p) implies after.candidate_manifests.contains(p) by {
            let i = choose|i: int| 0 <= i < after.queue.len() && after.queue[i] == p;
            assert(after.candidate_manifests[seen.len() + i] == p);
        }
    }
}

/// Reading the next manifest keeps the reads in agreement with storage.
pub proof fn law_manifest_step_agrees(
    action: ExpireSnapshots,
    reads: ExpireReads,
    storage: Storage,
)
    requires
        agrees(action, reads, storage),
        reads.queue.len() > 0,
    ensures
        agrees(
            action,
            reads.with_entries(action, (storage.manifests)(reads.queue[0])),
            storage,
        ),
{
    let kept = action.kept_lists();
    let n = reads.lists_read as int;
    let first = reads.queue[0];
    let entries = (storage.manifests)(first);
    let after = reads.with_entries(action, entries);
    assert(reads.queue.contains(first));
    assert forall|p: Seq<char>| #[trigger] reads.queue.contains(p) implies p == first
        || after.queue.contains(p) by {
        let i = choose|i: int| 0 <= i < reads.queue.len() && reads.queue[i] == p;
        if i > 0 {
            assert(after.queue[i - 1] == p);
        }
    }
    assert forall|p: Seq<char>| #[trigger] after.queue.contains(p) implies reads.queue.contains(
        p,
    ) by {
        let i = choose|i: int| 0 <= i < after.queue.len() && after.queue[i] == p;
        assert(reads.queue[i + 1] == p);
    }
    if n <= kept.len() {
        lemma_more_entries(reads.live_entries, reads.live_manifests, first, storage);
        assert forall|p: Seq<char>| #[trigger] after.live_manifests.contains(p) implies (
        after.queue.contains(p)) || covers(after.live_entries, (storage.manifests)(p)) by {
            if !after.queue.contains(p) && p != first {
                assert(!reads.queue.contains(p));
                lemma_covers_more(reads.live_entries, entries, (storage.manifests)(p));
            }
        }
    } else {
        lemma_more_entries(reads.candidate_entries, reads.candidate_manifests, first, storage);
        assert forall|p: Seq<char>| #[trigger] after.candidate_manifests.contains(p) implies (
        after.queue.contains(p)) || covers(after.candidate_entries, (storage.manifests)(p)) by {
            if !after.queue.contains(p) && p != first {
                assert(!reads.queue.contains(p));
                lemma_covers_more(reads.candidate_entries, entries, (storage.manifests)(p));
            }
        }
    }
}

proof fn lemma_covers_more(
    all: Seq<ManifestEntry>,
    more: Seq<ManifestEntry>,
    some: Seq<ManifestEntry>,
)
    requires
        covers(all, some),
    ensures
        covers(all + more, some),
{
    assert forall|e: ManifestEntry| #[trigger] some.contains(e) implies (all + more).contains(
        e,
    ) by {
        seqs::lemma_add_contains(all, more, e);
    }
}

proof fn lemma_more_entries(
    entries: Seq<ManifestEntry>,
    paths: Seq<Seq<char>>,
    first: Seq<char>,
    storage: Storage,
)
    requires
        drawn_from(entries, paths, storage),
        paths.contains(first),
    ensures
        drawn_from(entries + (storage.manifests)(first), paths, storage),
        covers(entries + (storage.manifests)(first), (storage.manifests)(first)),
{
    let more = (storage.manifests)(first);
    assert forall|e: ManifestEntry| #[trigger] (entries + more).contains(e) implies exists|
        p: Seq<char>,
    |
        paths.contains(p) && #[trigger] (storage.manifests)(p).contains(e) by {
        seqs::lemma_add_contains(entries, more, e);
        if entries.contains(e) {
            let p = choose|p: Seq<char>|
                paths.contains(p) && #[trigger] (storage.manifests)(p).contains(e);
            assert((storage.manifests)(p).contains(e));
        } else {
            assert((storage.manifests)(first).contains(e));
        }
    }
    assert forall|e: ManifestEntry| #[trigger] more.contains(e) implies (entries + more).contains(
        e,
    ) by {
        seqs::lemma_add_contains(entries, more, e);
    }
}

/// Once everything has been read, the data and delete files to be deleted are exactly
/// those that an expired snapshot mentions and to which no retained snapshot refers.
pub proof fn law_deletes_exactly_unreferenced_files(
    action: ExpireSnapshots,
    reads: ExpireReads,
    storage: Storage,
    path: Seq<char>,
)
    requires
        agrees(action, reads, storage),
        reads.queue.len() == 0,
        reads.lists_read == action.kept_lists().len() + action.expired_lists().len(),
    ensures
        seqs::entry_paths(reads.unreferenced_files()).contains(path) <==> storage.mentioned_in(
            action.expired_lists(),
            path,
        ) && !storage.alive_in(action.kept_lists(), path),
{
    let kept = action.kept_lists();
    let expired = action.expired_lists();
    let keep = expire_snapshots::not_live(reads.live_entries);
    let left = reads.candidate_entries.filter(keep);
    seqs::lemma_distinct_entries(left);
    lemma_live_iff_alive(action, reads, storage, path);
    if seqs::entry_paths(left).contains(path) {
        let i = choose|i: int|
            0 <= i < seqs::entry_paths(left).len() && seqs::entry_paths(left)[i] == path;
        assert(left.contains(left[i]));
        seqs::lemma_filter_contains(reads.candidate_entries, keep, left[i]);
        let p = choose|p: Seq<char>|
            reads.candidate_manifests.contains(p) && #[trigger] (storage.manifests)(p).contains(
                left[i],
            );
        storage::lemma_listed_all(storage, expired, reads.lists_read - kept.len(), p);
        assert((storage.manifests)(p).contains(left[i]));
    }
    if storage.mentioned_in(expired, path) && !storage.alive_in(kept, path) {
        let (p, e) = choose|p: Seq<char>, e: ManifestEntry|
            storage.listed(expired, expired.len() as int, p) && #[trigger] (storage.manifests)(
                p,
            ).contains(e) && e.path() == path;
        storage::lemma_listed_all(storage, expired, reads.lists_read - kept.len(), p);
        assert(reads.candidate_manifests.contains(p));
        assert(!reads.queue.contains(p));
        assert(reads.candidate_entries.contains(e));
        seqs::lemma_filter_contains(reads.candidate_entries, keep, e);
        let i = choose|i: int| 0 <= i < left.len() && left[i] == e;
        assert(seqs::entry_paths(left)[i] == path);
    }
}

proof fn lemma_live_iff_alive(
    action: ExpireSnapshots,
    reads: ExpireReads,
    storage: Storage,
    path: Seq<char>,
)
    requires
        agrees(action, reads, storage),
        reads.queue.len() == 0,
        reads.lists_read == action.kept_lists().len() + action.expired_lists().len(),
    ensures
        seqs::is_live(reads.live_entries, path) <==> storage.alive_in(
            action.kept_lists(),
            path,
        ),
{
    let kept = action.kept_lists();
    let live = reads.live_entries;
    if seqs::is_live(live, path) {
        let i = choose|i: int|
            0 <= i < live.len() && (#[trigger] live[i]).alive() && live[i].path() == path;
        assert(live.contains(live[i]));
        let p = choose|p: Seq<char>|
            reads.live_manifests.contains(p) && #[trigger] (storage.manifests)(p).contains(
                live[i],
            );
        storage::lemma_listed_all(storage, kept, reads.lists_read as int, p);
        assert((storage.manifests)(p).contains(live[i]));
    }
    if storage.alive_in(kept, path) {
        let (p, e) = choose|p: Seq<char>, e: ManifestEntry|
            storage.listed(kept, kept.len() as int, p) && #[trigger] (storage.manifests)(
                p,
            ).contains(e) && e.alive() && e.path() == path;
        storage::lemma_listed_all(storage, kept, reads.lists_read as int, p);
        assert(reads.live_manifests.contains(p));
        assert(!reads.queue.contains(p));
        assert(live.contains(e));
        let i = choose|i: int| 0 <= i < live.len() && live[i] == e;
        assert(live[i].alive() && live[i].path() == path);
    }
}

/// Once everything has been read, the manifests to be deleted are exactly those that
/// an expired snapshot lists and no retained snapshot does.
pub proof fn law_deletes_exactly_unreferenced_manifests(
    action: ExpireSnapshots,
    reads: ExpireReads,
    storage: Storage,
    p: Seq<char>,
)
    requires
        agrees(action, reads, storage),
        reads.lists_read == action.kept_lists().len() + action.expired_lists().len(),
    ensures
        reads.unreferenced_manifests().contains(p) <==> storage.listed(
            action.expired_lists(),
            action.expired_lists().len() as int,
            p,
        ) && !storage.listed(action.kept_lists(), action.kept_lists().len() as int, p),
{
    seqs::lemma_filter_contains(
        reads.candidate_manifests,
        seqs::not_in(reads.live_manifests),
        p,
    );
    storage::lemma_listed_all(storage, action.kept_lists(), reads.lists_read as int, p);
    storage::lemma_listed_all(
        storage,
        action.expired_lists(),
        reads.lists_read - action.kept_lists().len(),
        p,
    );
}

/// The manifest lists to be deleted are exactly those of expired snapshots that no
/// retained snapshot has.
pub proof fn law_deletes_exactly_unreferenced_lists(action: ExpireSnapshots, p: Seq<char>)
    ensures
        expire_snapshots::unreferenced_lists(action).contains(p)
            <==> action.expired_lists().contains(p) && !action.kept_lists().contains(p),
{
    seqs::lemma_extend_distinct(Seq::empty(), action.expired_lists());
    seqs::lemma_filter_contains(
        seqs::distinct(action.expired_lists()),
        seqs::not_in(action.kept_lists()),
        p,
    );
}

/// Whether everything has been read.
pub open spec fn is_complete(action: ExpireSnapshots, reads: ExpireReads) -> bool {
    &&& reads.queue.len() == 0
    &&& reads.lists_read >= action.kept_lists().len() + action.expired_lists().len()
}

/// What has been read after `n` reads from storage.
pub open spec fn reads_after(action: ExpireSnapshots, storage: Storage, n: nat) -> ExpireReads
    decreases n,
{
    if n == 0 {
        ExpireReads::start()
    } else {
        let before = reads_after(action, storage, (n - 1) as nat);
        if before.queue.len() > 0 {
            before.with_entries(action, (storage.manifests)(before.queue[0]))
        } else if !is_complete(action, before) {
            before.with_list(
                action,
                (storage.lists)(
                    (action.kept_lists() + action.expired_lists())[before.lists_read as int],
                ),
            )
        } else {
            before
        }
    }
}

/// At any time in a run, what has been read agrees with what storage holds.
pub proof fn law_every_run_agrees(action: ExpireSnapshots, storage: Storage, n: nat)
    ensures
        agrees(action, reads_after(action, storage, n), storage),
    decreases n,
{
    if n == 0 {
        law_start_agrees(action, storage);
    } else {
        law_every_run_agrees(action, storage, (n - 1) as nat);
        let before = reads_after(action, storage, (n - 1) as nat);
        if before.queue.len() > 0 {
            law_manifest_step_agrees(action, before, storage);
        } else if !is_complete(action, before) {
            law_list_step_agrees(action, before, storage);
        }
    }
}

/// Every run comes to an end.
pub proof fn law_every_run_ends(action: ExpireSnapshots, storage: Storage) -> (n: nat)
    ensures
        is_complete(action, reads_after(action, storage, n)),
{
    lemma_run_ends_from(action, storage, 0)
}

proof fn lemma_run_ends_from(action: ExpireSnapshots, storage: Storage, n: nat) -> (m: nat)
    ensures
        is_complete(action, reads_after(action, storage, m)),
    decreases
            action.kept_lists().len() + action.expired_lists().len() - reads_after(
                action,
                storage,
                n,
            ).lists_read,
            reads_after(action, storage, n).queue.len(),
{
    let reads = reads_after(action, storage, n);
    law_every_run_agrees(action, storage, n);
    if is_complete(action, reads) {
        n
    } else {
        law_every_run_agrees(action, storage, n + 1);
        lemma_run_ends_from(action, storage, n + 1)
    }
}

/// At the end of every run, the data and delete files to be deleted are exactly those
/// that an expired snapshot mentions and to which no retained snapshot refers, and the
/// manifests to be deleted exactly those that only expired snapshots list.
pub proof fn law_every_run_deletes_exactly_unreferenced(
    action: ExpireSnapshots,
    storage: Storage,
    n: nat,
    path: Seq<char>,
)
    requires
        is_complete(action, reads_after(action, storage, n)),
    ensures
        seqs::entry_paths(reads_after(action, storage, n).unreferenced_files()).contains(path)
            <==> storage.mentioned_in(action.expired_lists(), path) && !storage.alive_in(
            action.kept_lists(),
            path,
        ),
        reads_after(action, storage, n).unreferenced_manifests().contains(path)
            <==> storage.listed(
            action.expired_lists(),
            action.expired_lists().len() as int,
            path,
        ) && !storage.listed(action.kept_lists(), action.kept_lists().len() as int, path),
{
    let reads = reads_after(action, storage, n);
    law_every_run_agrees(action, storage, n);
    law_deletes_exactly_unreferenced_files(action, reads, storage, path);
    law_deletes_exactly_unreferenced_manifests(action, reads, storage, path);
}

/// Whether the expiration of the snapshot `id` was requested.
pub open spec fn is_requested(action: ExpireSnapshots, id: i64) -> bool {
    exists|j: int| 0 <= j < action.snapshot_ids@.len() && #[trigger] action.snapshot_ids@[j] == id
}

/// Whether some branch or tag points to the snapshot `id`.
pub open spec fn is_pointed_to(refs: Seq<SnapshotReference>, id: i64) -> bool {
    exists|i: int| 0 <= i < refs.len() && (#[trigger] refs[i]).snapshot_id == id
}

/// Whether the snapshot `id` is reached from the current one by a line of parents with
/// at most `n` snapshots in it, the current one included.
pub open spec fn is_within(metadata: TableMetadata, id: i64, n: int) -> bool {
    exists|line: Seq<i64>|
        line.len() <= n && metadata.current_snapshot_id == Some(line[0]) && #[trigger] model::leads(
            metadata.snapshots@,
            line,
            line[0],
            id,
        )
}

/// Whether a snapshot `id` was made at the millisecond `ms` or later.
pub open spec fn is_made_since(snapshots: Seq<Snapshot>, id: i64, ms: int) -> bool {
    exists|i: int|
        0 <= i < snapshots.len() && (#[trigger] snapshots[i]).snapshot_id == id
            && snapshots[i].timestamp_ms >= ms
}

/// A snapshot of the table expires exactly where its expiration was requested, or where
/// no branch or tag points to it, it is not one of the `retain_last` most recent ones of
/// the main branch, and it was not made at `older_than` or later.
pub proof fn law_which_snapshots_expire(action: ExpireSnapshots, id: i64)
    ensures
        action.expired_ids().contains(id) <==> {
            let metadata = action.table.metadata;
            &&& exists|i: int|
                0 <= i < metadata.snapshots@.len() && (
                #[trigger] metadata.snapshots@[i]).snapshot_id == id
            &&& is_requested(action, id) || {
                &&& !is_pointed_to(metadata.refs@, id)
                &&& !is_within(metadata, id, action.retain_last as int)
                &&& action.older_than matches Some(t) ==> !is_made_since(
                    metadata.snapshots@,
                    id,
                    t.millis() as int,
                )
            }
        },
{
    let metadata = action.table.metadata;
    let all = metadata.snapshots@;
    lemma_expired_ids(action, id);
    assert(is_requested(action, id) <==> action.snapshot_ids@.contains(id)) by {
        if action.snapshot_ids@.contains(id) {
            let j = choose|j: int|
                0 <= j < action.snapshot_ids@.len() && action.snapshot_ids@[j] == id;
            assert(action.snapshot_ids@[j] == id);
        }
    }
    assert(is_pointed_to(metadata.refs@, id) <==> action.is_ref_head(id)) by {
        if action.is_ref_head(id) {
            let i = choose|i: int|
                0 <= i < metadata.refs@.len() && (#[trigger] metadata.refs@[i]).snapshot_id == id;
            assert(metadata.refs@[i].snapshot_id == id);
        }
        if is_pointed_to(metadata.refs@, id) {
            let i = choose|i: int|
                0 <= i < metadata.refs@.len() && (#[trigger] metadata.refs@[i]).snapshot_id == id;
            assert(action.table.metadata.refs@[i].snapshot_id == id);
        }
    }
    assert(is_within(metadata, id, action.retain_last as int) <==> action.is_recent_ancestor(id))
        by {
        if action.is_recent_ancestor(id) {
            let k = choose|k: nat|
                k < action.retain_last && #[trigger] metadata.ancestor(
                    metadata.current_snapshot_id,
                    k,
                ) == Some(id);
            if metadata.current_snapshot_id is None {
                model::lemma_no_more_ancestors(metadata, None, 0, k);
            }
            let start = metadata.current_snapshot_id->0;
            model::law_ancestors_are_lines(metadata, start, k, id);
            let line = choose|line: Seq<i64>|
                line.len() == k + 1 && #[trigger] model::leads(all, line, start, id);
            assert(model::leads(all, line, line[0], id));
        }
        if is_within(metadata, id, action.retain_last as int) {
            let line = choose|line: Seq<i64>|
                line.len() <= action.retain_last && metadata.current_snapshot_id == Some(line[0])
                    && #[trigger] model::leads(all, line, line[0], id);
            let k = (line.len() - 1) as nat;
            model::law_ancestors_are_lines(metadata, line[0], k, id);
            assert(metadata.ancestor(metadata.current_snapshot_id, k) == Some(id));
        }
    }
    match action.older_than {
        Some(t) => {
            assert(is_made_since(all, id, t.millis() as int) <==> action.is_new_enough(id));
        },
        None => {},
    }
}

/// The snapshots that expire are named in the order in which the table has them, each as
/// often as it has it.
pub proof fn law_expired_snapshots_keep_their_order(action: ExpireSnapshots) -> (at: Seq<int>)
    ensures
        seqs::picks(
            action.expired_ids(),
            Seq::new(
                action.table.metadata.snapshots@.len(),
                |i: int| action.table.metadata.snapshots@[i].snapshot_id,
            ),
            at,
        ),
        forall|i: int|
            0 <= i < action.table.metadata.snapshots@.len() && action.expired_ids().contains(
                (#[trigger] action.table.metadata.snapshots@[i]).snapshot_id,
            ) ==> at.contains(i),
{
    let all = action.table.metadata.snapshots@;
    let at = seqs::lemma_filter_picks(all, action.expired_snapshot());
    assert forall|i: int|
        0 <= i < all.len() && action.expired_ids().contains(
            (#[trigger] all[i]).snapshot_id,
        ) implies at.contains(i) by {
        lemma_expired_ids(action, all[i].snapshot_id);
    }
    at
}

/// The commit removes the snapshots that expire and, with them, their statistics and
/// partition statistics, and nothing else; it is for this table, and goes through only
/// while the table has the same UUID.
pub proof fn law_commit_removes_what_expires(
    action: ExpireSnapshots,
    commit: TableCommit,
    id: i64,
)
    requires
        action.is_commit(commit),
    ensures
        commit.identifier@ == action.table.identifier@,
        commit.requirements@.len() == 1,
        commit.requirements@[0] == (TableRequirement::UuidMatch {
            uuid: action.table.metadata.table_uuid,
        }),
        commit.updates@.len() > 0,
        commit.updates@[0] is RemoveSnapshots,
        commit.updates@[0]->RemoveSnapshots_snapshot_ids@ == action.expired_ids(),
        forall|k: int|
            0 < k < commit.updates@.len() ==> !((#[trigger] commit.updates@[k]) is RemoveSnapshots),
        commit.updates@.contains(TableUpdate::RemoveStatistics { snapshot_id: id })
            <==> action.expired_ids().contains(id) && exists|i: int|
            0 <= i < action.table.metadata.statistics@.len() && (
            #[trigger] action.table.metadata.statistics@[i]).snapshot_id == id,
        commit.updates@.contains(TableUpdate::RemovePartitionStatistics { snapshot_id: id })
            <==> action.expired_ids().contains(id) && exists|i: int|
            0 <= i < action.table.metadata.partition_statistics@.len() && (
            #[trigger] action.table.metadata.partition_statistics@[i]).snapshot_id == id,
{
    let updates = commit.updates@;
    let metadata = action.table.metadata;
    let s = action.expired_statistics();
    let p = action.expired_partition_statistics();
    lemma_statistics_of(action, metadata.statistics@, id);
    lemma_statistics_of(action, metadata.partition_statistics@, id);
    assert forall|k: int| 0 < k < updates.len() implies if k <= s.len() {
        #[trigger] updates[k] == (TableUpdate::RemoveStatistics { snapshot_id: s[k - 1].snapshot_id })
    } else {
        updates[k] == (TableUpdate::RemovePartitionStatistics {
            snapshot_id: p[k - 1 - s.len()].snapshot_id,
        })
    } by {
        if k <= s.len() {
            assert(updates[1 + (k - 1)] == updates[k]);
        } else {
            assert(updates[1 + s.len() + (k - 1 - s.len())] == updates[k]);
        }
    }
    let removal = TableUpdate::RemoveStatistics { snapshot_id: id };
    if updates.contains(removal) {
        let k = choose|k: int| 0 <= k < updates.len() && updates[k] == removal;
        assert(0 < k <= s.len());
        assert(s[k - 1].snapshot_id == id);
    }
    if exists|i: int| 0 <= i < s.len() && (#[trigger] s[i]).snapshot_id == id {
        let i = choose|i: int| 0 <= i < s.len() && (#[trigger] s[i]).snapshot_id == id;
        assert(updates[1 + i] == removal);
    }
    let partition_removal = TableUpdate::RemovePartitionStatistics { snapshot_id: id };
    if updates.contains(partition_removal) {
        let k = choose|k: int| 0 <= k < updates.len() && updates[k] == partition_removal;
        assert(s.len() < k);
        assert(p[k - 1 - s.len()].snapshot_id == id);
    }
    if exists|i: int| 0 <= i < p.len() && (#[trigger] p[i]).snapshot_id == id {
        let i = choose|i: int| 0 <= i < p.len() && (#[trigger] p[i]).snapshot_id == id;
        assert(updates[1 + s.len() + i] == partition_removal);
    }
}

proof fn lemma_statistics_of(action: ExpireSnapshots, files: Seq<StatisticsFile>, id: i64)
    ensures
        (exists|i: int|
            0 <= i < files.filter(action.of_expired()).len() && (#[trigger] files.filter(
                action.of_expired(),
            )[i]).snapshot_id == id) <==> action.expired_ids().contains(id) && exists|i: int|
            0 <= i < files.len() && (#[trigger] files[i]).snapshot_id == id,
{
    let kept = files.filter(action.of_expired());
    if exists|i: int| 0 <= i < kept.len() && (#[trigger] kept[i]).snapshot_id == id {
        let i = choose|i: int| 0 <= i < kept.len() && (#[trigger] kept[i]).snapshot_id == id;
        assert(kept.contains(kept[i]));
        seqs::lemma_filter_contains(files, action.of_expired(), kept[i]);
        let j = choose|j: int| 0 <= j < files.len() && files[j] == kept[i];
        assert(files[j].snapshot_id == id);
    }
    if action.expired_ids().contains(id) && exists|i: int|
        0 <= i < files.len() && (#[trigger] files[i]).snapshot_id == id {
        let j = choose|j: int| 0 <= j < files.len() && (#[trigger] files[j]).snapshot_id == id;
        assert(files.contains(files[j]));
        seqs::lemma_filter_contains(files, action.of_expired(), files[j]);
        let i = choose|i: int| 0 <= i < kept.len() && kept[i] == files[j];
        assert(kept[i].snapshot_id == id);
    }
}

/// Whether the snapshot at `i` expires.
pub open spec fn expires(action: ExpireSnapshots, i: int) -> bool {
    action.expired_ids().contains(action.table.metadata.snapshots@[i].snapshot_id)
}

/// Whether some snapshot that expires has an entry for the file `path`, and none that
/// stays has it as added or existing.
pub open spec fn only_expired_have_file(
    action: ExpireSnapshots,
    storage: Storage,
    path: Seq<char>,
) -> bool {
    let all = action.table.metadata.snapshots@;
    &&& exists|i: int|
        0 <= i < all.len() && expires(action, i) && storage.list_enters(
            (#[trigger] all[i]).manifest_list@,
            path,
        )
    &&& forall|i: int|
        0 <= i < all.len() && !expires(action, i) ==> !storage.list_has(
            (#[trigger] all[i]).manifest_list@,
            path,
        )
}

/// Whether some snapshot that expires has the manifest `path`, and none that stays.
pub open spec fn only_expired_have_manifest(
    action: ExpireSnapshots,
    storage: Storage,
    path: Seq<char>,
) -> bool {
    let all = action.table.metadata.snapshots@;
    &&& exists|i: int|
        0 <= i < all.len() && expires(action, i) && storage.lists_manifest(
            (#[trigger] all[i]).manifest_list@,
            path,
        )
    &&& forall|i: int|
        0 <= i < all.len() && !expires(action, i) ==> !storage.lists_manifest(
            (#[trigger] all[i]).manifest_list@,
            path,
        )
}

/// Whether some snapshot that expires has the manifest list `path`, and none that stays.
pub open spec fn only_expired_have_list(action: ExpireSnapshots, path: Seq<char>) -> bool {
    let all = action.table.metadata.snapshots@;
    &&& exists|i: int|
        0 <= i < all.len() && expires(action, i) && (#[trigger] all[i]).manifest_list@ == path
    &&& forall|i: int|
        0 <= i < all.len() && !expires(action, i) ==> (#[trigger] all[i]).manifest_list@ != path
}

/// Whether `path` is a statistics file of a snapshot that expires.
pub open spec fn is_expired_statistics(
    action: ExpireSnapshots,
    files: Seq<StatisticsFile>,
    path: Seq<char>,
) -> bool {
    exists|i: int|
        0 <= i < files.len() && action.expired_ids().contains((#[trigger] files[i]).snapshot_id)
            && files[i].statistics_path@ == path
}

proof fn lemma_lists_of(action: ExpireSnapshots, list: Seq<char>)
    ensures
        action.expired_lists().contains(list) <==> exists|i: int|
            0 <= i < action.table.metadata.snapshots@.len() && expires(action, i) && (
            #[trigger] action.table.metadata.snapshots@[i]).manifest_list@ == list,
        action.kept_lists().contains(list) <==> exists|i: int|
            0 <= i < action.table.metadata.snapshots@.len() && !expires(action, i) && (
            #[trigger] action.table.metadata.snapshots@[i]).manifest_list@ == list,
{
    lemma_lists_where(action, action.expired_snapshot(), action.expired_lists(), list);
    lemma_lists_where(action, action.kept_snapshot(), action.kept_lists(), list);
    let all = action.table.metadata.snapshots@;
    assert forall|i: int| 0 <= i < all.len() implies expires(action, i)
        == action.expired_snapshot()(#[trigger] all[i]) by {
        lemma_expired_ids(action, all[i].snapshot_id);
    }
}

proof fn lemma_lists_where(
    action: ExpireSnapshots,
    keep: spec_fn(Snapshot) -> bool,
    lists: Seq<Seq<char>>,
    list: Seq<char>,
)
    requires
        lists == action.table.metadata.snapshots@.filter(keep).map_values(
            |s: Snapshot| s.manifest_list@,
        ),
    ensures
        lists.contains(list) <==> exists|i: int|
            0 <= i < action.table.metadata.snapshots@.len() && keep(
                #[trigger] action.table.metadata.snapshots@[i],
            ) && action.table.metadata.snapshots@[i].manifest_list@ == list,
{
    let all = action.table.metadata.snapshots@;
    let some = all.filter(keep);
    if lists.contains(list) {
        let j = choose|j: int| 0 <= j < lists.len() && lists[j] == list;
        assert(some.contains(some[j]));
        seqs::lemma_filter_contains(all, keep, some[j]);
        let i = choose|i: int| 0 <= i < all.len() && all[i] == some[j];
        assert(keep(all[i]) && all[i].manifest_list@ == list);
    }
    if exists|i: int|
        0 <= i < all.len() && keep(#[trigger] all[i]) && all[i].manifest_list@ == list {
        let i = choose|i: int|
            0 <= i < all.len() && keep(#[trigger] all[i]) && all[i].manifest_list@ == list;
        assert(all.contains(all[i]));
        seqs::lemma_filter_contains(all, keep, all[i]);
        let j = choose|j: int| 0 <= j < some.len() && some[j] == all[i];
        assert(lists[j] == list);
    }
}

proof fn lemma_unreferenced(action: ExpireSnapshots, reads: ExpireReads, storage: Storage)
    requires
        agrees(action, reads, storage),
        is_complete(action, reads),
    ensures
        forall|p: Seq<char>| #[trigger]
            seqs::entry_paths(reads.unreferenced_files()).contains(p) <==> only_expired_have_file(
                action,
                storage,
                p,
            ),
        forall|p: Seq<char>| #[trigger]
            reads.unreferenced_manifests().contains(p) <==> only_expired_have_manifest(
                action,
                storage,
                p,
            ),
        forall|p: Seq<char>| #[trigger]
            expire_snapshots::unreferenced_lists(action).contains(p) <==> only_expired_have_list(
                action,
                p,
            ),
{
    let all = action.table.metadata.snapshots@;
    let kept = action.kept_lists();
    let expired = action.expired_lists();
    assert forall|p: Seq<char>| #[trigger]
        seqs::entry_paths(reads.unreferenced_files()).contains(p) <==> only_expired_have_file(
            action,
            storage,
            p,
        ) by {
        law_deletes_exactly_unreferenced_files(action, reads, storage, p);
        storage::lemma_entered_in(storage, expired, p);
        storage::lemma_entered_in(storage, kept, p);
        if storage.mentioned_in(expired, p) {
            let j = choose|j: int|
                0 <= j < expired.len() && storage.list_enters(#[trigger] expired[j], p);
            lemma_lists_of(action, expired[j]);
            assert(expired.contains(expired[j]));
        }
        if exists|i: int|
            0 <= i < all.len() && expires(action, i) && storage.list_enters(
                (#[trigger] all[i]).manifest_list@,
                p,
            ) {
            let i = choose|i: int|
                0 <= i < all.len() && expires(action, i) && storage.list_enters(
                    (#[trigger] all[i]).manifest_list@,
                    p,
                );
            lemma_lists_of(action, all[i].manifest_list@);
            let j = choose|j: int| 0 <= j < expired.len() && expired[j] == all[i].manifest_list@;
            assert(storage.list_enters(expired[j], p));
        }
        if storage.alive_in(kept, p) {
            let j = choose|j: int| 0 <= j < kept.len() && storage.list_has(#[trigger] kept[j], p);
            lemma_lists_of(action, kept[j]);
            assert(kept.contains(kept[j]));
            let i = choose|i: int|
                0 <= i < all.len() && !expires(action, i) && (#[trigger] all[i]).manifest_list@
                    == kept[j];
            assert(storage.list_has(all[i].manifest_list@, p));
        } else {
            assert forall|i: int| 0 <= i < all.len() && !expires(action, i) implies
                !storage.list_has((#[trigger] all[i]).manifest_list@, p) by {
                lemma_lists_of(action, all[i].manifest_list@);
                let j = choose|j: int| 0 <= j < kept.len() && kept[j] == all[i].manifest_list@;
                assert(!storage.list_has(kept[j], p));
            }
        }
    }
    assert forall|p: Seq<char>| #[trigger]
        reads.unreferenced_manifests().contains(p) <==> only_expired_have_manifest(
            action,
            storage,
            p,
        ) by {
        law_deletes_exactly_unreferenced_manifests(action, reads, storage, p);
        storage::lemma_listed_in(storage, expired, p);
        storage::lemma_listed_in(storage, kept, p);
        if storage.listed(expired, expired.len() as int, p) {
            let j = choose|j: int|
                0 <= j < expired.len() && storage.lists_manifest(#[trigger] expired[j], p);
            lemma_lists_of(action, expired[j]);
            assert(expired.contains(expired[j]));
        }
        if exists|i: int|
            0 <= i < all.len() && expires(action, i) && storage.lists_manifest(
                (#[trigger] all[i]).manifest_list@,
                p,
            ) {
            let i = choose|i: int|
                0 <= i < all.len() && expires(action, i) && storage.lists_manifest(
                    (#[trigger] all[i]).manifest_list@,
                    p,
                );
            lemma_lists_of(action, all[i].manifest_list@);
            let j = choose|j: int| 0 <= j < expired.len() && expired[j] == all[i].manifest_list@;
            assert(storage.lists_manifest(expired[j], p));
        }
        if storage.listed(kept, kept.len() as int, p) {
            let j = choose|j: int|
                0 <= j < kept.len() && storage.lists_manifest(#[trigger] kept[j], p);
            lemma_lists_of(action, kept[j]);
            assert(kept.contains(kept[j]));
            let i = choose|i: int|
                0 <= i < all.len() && !expires(action, i) && (#[trigger] all[i]).manifest_list@
                    == kept[j];
            assert(storage.lists_manifest(all[i].manifest_list@, p));
        } else {
            assert forall|i: int| 0 <= i < all.len() && !expires(action, i) implies
                !storage.lists_manifest((#[trigger] all[i]).manifest_list@, p) by {
                lemma_lists_of(action, all[i].manifest_list@);
                let j = choose|j: int| 0 <= j < kept.len() && kept[j] == all[i].manifest_list@;
                assert(!storage.lists_manifest(kept[j], p));
            }
        }
    }
    assert forall|p: Seq<char>| #[trigger]
        expire_snapshots::unreferenced_lists(action).contains(p) <==> only_expired_have_list(
            action,
            p,
        ) by {
        law_deletes_exactly_unreferenced_lists(action, p);
        lemma_lists_of(action, p);
    }
}

/// Whether the entry `e` is in a manifest of a snapshot that expires.
pub open spec fn comes_from_expired(
    action: ExpireSnapshots,
    storage: Storage,
    e: ManifestEntry,
) -> bool {
    exists|i: int, p: Seq<char>|
        0 <= i < action.table.metadata.snapshots@.len() && expires(action, i)
            && #[trigger] storage.lists_manifest(
            action.table.metadata.snapshots@[i].manifest_list@,
            p,
        ) && (storage.manifests)(p).contains(e)
}

/// How the files that a run deletes are made up: where those of manifests, of manifest
/// lists and of statistics begin, and the entries of the data and delete files.
pub struct Deleted {
    pub manifests_from: int,
    pub lists_from: int,
    pub statistics_from: int,
    pub files: Seq<ManifestEntry>,
}

/// Every run that comes to delete files deletes exactly those that only snapshots that
/// expire have: first data and delete files, then manifests, then manifest lists, each
/// once, and then the statistics of the snapshots that expire. The result counts them,
/// the data and delete files by their content.
pub proof fn law_what_a_run_deletes(
    action: ExpireSnapshots,
    storage: Storage,
    n: nat,
    step: ExpireStep,
) -> (d: Deleted)
    requires
        expire_snapshots::continues(action, reads_after(action, storage, n), step),
        step is Delete,
    ensures
        0 <= d.manifests_from <= d.lists_from <= d.statistics_from <= step->paths@.len(),
        forall|p: Seq<char>|
            only_expired_have_file(action, storage, p) <==> exists|k: int|
                0 <= k < d.manifests_from && (#[trigger] step->paths@[k])@ == p,
        forall|p: Seq<char>|
            only_expired_have_manifest(action, storage, p) <==> exists|k: int|
                d.manifests_from <= k < d.lists_from && (#[trigger] step->paths@[k])@ == p,
        forall|p: Seq<char>|
            only_expired_have_list(action, p) <==> exists|k: int|
                d.lists_from <= k < d.statistics_from && (#[trigger] step->paths@[k])@ == p,
        forall|p: Seq<char>|
            is_expired_statistics(action, action.table.metadata.statistics@, p)
                || is_expired_statistics(action, action.table.metadata.partition_statistics@, p)
                <==> exists|k: int|
                d.statistics_from <= k < step->paths@.len() && (#[trigger] step->paths@[k])@ == p,
        forall|i: int, j: int|
            0 <= i < j < d.manifests_from ==> (#[trigger] step->paths@[i])@ != (
            #[trigger] step->paths@[j])@,
        forall|i: int, j: int|
            d.manifests_from <= i < j < d.lists_from ==> (#[trigger] step->paths@[i])@ != (
            #[trigger] step->paths@[j])@,
        forall|i: int, j: int|
            d.lists_from <= i < j < d.statistics_from ==> (#[trigger] step->paths@[i])@ != (
            #[trigger] step->paths@[j])@,
        d.files.len() == d.manifests_from,
        forall|k: int|
            0 <= k < d.files.len() ==> (#[trigger] d.files[k]).data_file.file_path@
                == step->paths@[k]@,
        forall|k: int|
            0 <= k < d.files.len() ==> comes_from_expired(action, storage, #[trigger] d.files[k]),
        step->result.deleted_data_files_count == d.files.filter(
            seqs::of_content(DataContentType::Data),
        ).len(),
        step->result.deleted_equality_delete_files_count == d.files.filter(
            seqs::of_content(DataContentType::EqualityDeletes),
        ).len(),
        step->result.deleted_position_delete_files_count == d.files.filter(
            seqs::of_content(DataContentType::PositionDeletes),
        ).len(),
        step->result.deleted_manifest_files_count == d.lists_from - d.manifests_from,
        step->result.deleted_manifest_lists_count == d.statistics_from - d.lists_from,
        step->result.deleted_statistics_files_count == step->paths@.len() - d.statistics_from,
{
    let reads = reads_after(action, storage, n);
    law_every_run_agrees(action, storage, n);
    lemma_unreferenced(action, reads, storage);
    law_nothing_is_deleted_twice(action, reads);
    let paths = seqs::texts(step->paths@);
    assert(paths.len() == step->paths@.len());
    let files = reads.unreferenced_files();
    let a = seqs::entry_paths(files);
    let b = reads.unreferenced_manifests();
    let c = expire_snapshots::unreferenced_lists(action);
    let s = seqs::statistics_paths(action.expired_statistics());
    let t = seqs::statistics_paths(action.expired_partition_statistics());
    assert(paths == a + b + c + s + t);
    let d = Deleted {
        manifests_from: a.len() as int,
        lists_from: (a.len() + b.len()) as int,
        statistics_from: (a.len() + b.len() + c.len()) as int,
        files,
    };
    assert(forall|k: int| 0 <= k < paths.len() ==> #[trigger] step->paths@[k]@ == paths[k]);
    assert forall|p: Seq<char>|
        only_expired_have_file(action, storage, p) <==> exists|k: int|
            0 <= k < d.manifests_from && (#[trigger] step->paths@[k])@ == p by {
        assert(a.contains(p) <==> only_expired_have_file(action, storage, p));
        lemma_in_segment(step->paths@, paths, a, 0, p);
    }
    assert forall|p: Seq<char>|
        only_expired_have_manifest(action, storage, p) <==> exists|k: int|
            d.manifests_from <= k < d.lists_from && (#[trigger] step->paths@[k])@ == p by {
        assert(b.contains(p) <==> only_expired_have_manifest(action, storage, p));
        lemma_in_segment(step->paths@, paths, b, d.manifests_from, p);
    }
    assert forall|p: Seq<char>|
        only_expired_have_list(action, p) <==> exists|k: int|
            d.lists_from <= k < d.statistics_from && (#[trigger] step->paths@[k])@ == p by {
        assert(c.contains(p) <==> only_expired_have_list(action, p));
        lemma_in_segment(step->paths@, paths, c, d.lists_from, p);
    }
    assert forall|p: Seq<char>|
        is_expired_statistics(action, action.table.metadata.statistics@, p)
            || is_expired_statistics(action, action.table.metadata.partition_statistics@, p)
            <==> exists|k: int|
            d.statistics_from <= k < step->paths@.len() && (#[trigger] step->paths@[k])@ == p by {
        lemma_statistics_paths(action, action.table.metadata.statistics@, p);
        lemma_statistics_paths(action, action.table.metadata.partition_statistics@, p);
        seqs::lemma_add_contains(s, t, p);
        lemma_in_segment(step->paths@, paths, s + t, d.statistics_from, p);
    }
    assert forall|i: int, j: int| 0 <= i < j < d.manifests_from implies (
    #[trigger] step->paths@[i])@ != (#[trigger] step->paths@[j])@ by {
        assert(a[i] != a[j]);
    }
    assert forall|i: int, j: int| d.manifests_from <= i < j < d.lists_from implies (
    #[trigger] step->paths@[i])@ != (#[trigger] step->paths@[j])@ by {
        assert(b[i - a.len()] != b[j - a.len()]);
    }
    assert forall|i: int, j: int| d.lists_from <= i < j < d.statistics_from implies (
    #[trigger] step->paths@[i])@ != (#[trigger] step->paths@[j])@ by {
        assert(c[i - d.lists_from] != c[j - d.lists_from]);
    }
    assert forall|k: int| 0 <= k < files.len() implies (
    #[trigger] files[k]).data_file.file_path@ == step->paths@[k]@ by {
        assert(a[k] == step->paths@[k]@);
    }
    assert forall|k: int| 0 <= k < files.len() implies comes_from_expired(
        action,
        storage,
        #[trigger] files[k],
    ) by {
        lemma_where_from(action, reads, storage, files[k]);
    }
    seqs::law_content_counts(files, DataContentType::Data);
    seqs::law_content_counts(files, DataContentType::EqualityDeletes);
    seqs::law_content_counts(files, DataContentType::PositionDeletes);
    seqs::lemma_count_content(files);
    assert(step->paths.len() == step->paths@.len());
    d
}

proof fn lemma_in_segment(
    strings: Seq<String>,
    all: Seq<Seq<char>>,
    part: Seq<Seq<char>>,
    from: int,
    p: Seq<char>,
)
    requires
        0 <= from,
        from + part.len() <= all.len(),
        all == seqs::texts(strings),
        forall|k: int| 0 <= k < part.len() ==> #[trigger] part[k] == all[from + k],
    ensures
        part.contains(p) <==> exists|k: int|
            from <= k < from + part.len() && (#[trigger] strings[k])@ == p,
{
    assert(forall|k: int| 0 <= k < all.len() ==> (#[trigger] strings[k])@ == all[k]);
    if part.contains(p) {
        let k = choose|k: int| 0 <= k < part.len() && part[k] == p;
        assert(strings[from + k]@ == p);
    }
    if exists|k: int| from <= k < from + part.len() && (#[trigger] strings[k])@ == p {
        let k = choose|k: int| from <= k < from + part.len() && (#[trigger] strings[k])@ == p;
        assert(part[k - from] == all[from + (k - from)]);
    }
}

proof fn lemma_statistics_paths(
    action: ExpireSnapshots,
    files: Seq<StatisticsFile>,
    p: Seq<char>,
)
    ensures
        seqs::statistics_paths(files.filter(action.of_expired())).contains(p)
            <==> is_expired_statistics(action, files, p),
{
    let kept = files.filter(action.of_expired());
    let paths = seqs::statistics_paths(kept);
    if paths.contains(p) {
        let k = choose|k: int| 0 <= k < paths.len() && paths[k] == p;
        assert(kept.contains(kept[k]));
        seqs::lemma_filter_contains(files, action.of_expired(), kept[k]);
        let i = choose|i: int| 0 <= i < files.len() && files[i] == kept[k];
        assert(action.expired_ids().contains(files[i].snapshot_id));
    }
    if is_expired_statistics(action, files, p) {
        let i = choose|i: int|
            0 <= i < files.len() && action.expired_ids().contains(
                (#[trigger] files[i]).snapshot_id,
            ) && files[i].statistics_path@ == p;
        assert(files.contains(files[i]));
        seqs::lemma_filter_contains(files, action.of_expired(), files[i]);
        let k = choose|k: int| 0 <= k < kept.len() && kept[k] == files[i];
        assert(paths[k] == p);
    }
}

proof fn lemma_where_from(
    action: ExpireSnapshots,
    reads: ExpireReads,
    storage: Storage,
    e: ManifestEntry,
)
    requires
        agrees(action, reads, storage),
        is_complete(action, reads),
        reads.unreferenced_files().contains(e),
    ensures
        comes_from_expired(action, storage, e),
{
    let all = action.table.metadata.snapshots@;
    let expired = action.expired_lists();
    let keep = expire_snapshots::not_live(reads.live_entries);
    let left = reads.candidate_entries.filter(keep);
    seqs::lemma_distinct_entries(left);
    seqs::lemma_filter_contains(reads.candidate_entries, keep, e);
    let p = choose|p: Seq<char>|
        reads.candidate_manifests.contains(p) && #[trigger] (storage.manifests)(p).contains(e);
    storage::lemma_listed_all(storage, expired, reads.lists_read - action.kept_lists().len(), p);
    storage::lemma_listed_in(storage, expired, p);
    let j = choose|j: int|
        0 <= j < expired.len() && storage.lists_manifest(#[trigger] expired[j], p);
    assert(expired.contains(expired[j]));
    lemma_lists_of(action, expired[j]);
    let i = choose|i: int|
        0 <= i < all.len() && expires(action, i) && (#[trigger] all[i]).manifest_list@
            == expired[j];
    assert(storage.lists_manifest(all[i].manifest_list@, p));
    assert((storage.manifests)(p).contains(e));
}

/// Every run comes to delete files, whatever storage holds.
pub proof fn law_every_run_comes_to_delete(action: ExpireSnapshots, storage: Storage) -> (n: nat)
    ensures
        forall|step: ExpireStep|
            expire_snapshots::continues(action, reads_after(action, storage, n), step)
                ==> #[trigger] (step is Delete),
{
    law_every_run_ends(action, storage)
}

/// Garbage collection is off exactly where the property `gc.enabled` is the word
/// `false`, each letter in either case.
pub proof fn law_gc_disabled(metadata: TableMetadata)
    ensures
        expire_snapshots::gc_disabled(metadata) <==> {
            &&& metadata.properties@.contains_key("gc.enabled"@)
            &&& ({
                let v = metadata.properties@["gc.enabled"@]@;
                &&& v.len() == 5
                &&& v[0] == 'f' || v[0] == 'F'
                &&& v[1] == 'a' || v[1] == 'A'
                &&& v[2] == 'l' || v[2] == 'L'
                &&& v[3] == 's' || v[3] == 'S'
                &&& v[4] == 'e' || v[4] == 'E'
            })
        },
{
    reveal_strlit("false");
    if metadata.properties@.contains_key("gc.enabled"@) {
        let v = metadata.properties@["gc.enabled"@]@;
        let f = "false"@;
        text::law_equal_but_for_case(v, f);
        if text::eq_ascii_case(v, f) {
            assert(v[0] == f[0] || v[0] as int + 32 == f[0] as int);
            assert(v[1] == f[1] || v[1] as int + 32 == f[1] as int);
            assert(v[2] == f[2] || v[2] as int + 32 == f[2] as int);
            assert(v[3] == f[3] || v[3] as int + 32 == f[3] as int);
            assert(v[4] == f[4] || v[4] as int + 32 == f[4] as int);
        }
    }
}

/// No snapshot that some branch or tag points to expires, on whatever branch it lies,
/// unless its expiration was requested.
pub proof fn law_heads_of_branches_and_tags_stay(action: ExpireSnapshots, i: int)
    requires
        0 <= i < action.table.metadata.refs@.len(),
        forall|j: int|
            0 <= j < action.snapshot_ids@.len() ==> #[trigger] action.snapshot_ids@[j]
                != action.table.metadata.refs@[i].snapshot_id,
    ensures
        !action.expired_ids().contains(action.table.metadata.refs@[i].snapshot_id),
{
    let id = action.table.metadata.refs@[i].snapshot_id;
    law_which_snapshots_expire(action, id);
    assert(is_pointed_to(action.table.metadata.refs@, id));
}

} // verus!
