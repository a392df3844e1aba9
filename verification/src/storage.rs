//! What storage holds, for laws that speak of all of it.

use std::sync::Arc;

use vstd::prelude::*;

use crate::model::{ManifestEntry, ManifestFile, ManifestStatus, PartitionSpec};
use crate::seqs;

verus! {

/// What storage holds: the manifests of each manifest list, and the entries and the
/// partition spec of each manifest, by path.
pub struct Storage {
    pub lists: spec_fn(Seq<char>) -> Seq<ManifestFile>,
    pub manifests: spec_fn(Seq<char>) -> Seq<ManifestEntry>,
    pub specs: spec_fn(Seq<char>) -> Arc<PartitionSpec>,
}

impl Storage {
    /// Whether one of the first `n` lists names the manifest `p`.
    pub open spec fn listed(self, lists: Seq<Seq<char>>, n: int, p: Seq<char>) -> bool {
        exists|j: int|
            0 <= j < n && j < lists.len() && #[trigger] seqs::manifest_paths(
                (self.lists)(lists[j]),
            ).contains(p)
    }

    /// Whether a manifest that one of the lists names has an entry, alive, for the
    /// file `path`.
    pub open spec fn alive_in(self, lists: Seq<Seq<char>>, path: Seq<char>) -> bool {
        exists|p: Seq<char>, e: ManifestEntry|
            self.listed(lists, lists.len() as int, p) && #[trigger] (self.manifests)(p).contains(e)
                && e.alive() && e.path() == path
    }

    /// Whether a manifest that one of the lists names has an entry for the file
    /// `path`.
    pub open spec fn mentioned_in(self, lists: Seq<Seq<char>>, path: Seq<char>) -> bool {
        exists|p: Seq<char>, e: ManifestEntry|
            self.listed(lists, lists.len() as int, p) && #[trigger] (self.manifests)(p).contains(e)
                && e.path() == path
    }
}

/// The entries of manifests, one manifest after the other.
pub open spec fn all_entries(storage: Storage, paths: Seq<Seq<char>>) -> Seq<ManifestEntry>
    decreases paths.len(),
{
    if paths.len() == 0 {
        Seq::empty()
    } else {
        all_entries(storage, paths.drop_last()) + (storage.manifests)(paths.last())
    }
}

/// One manifest more.
pub proof fn lemma_all_entries_step(storage: Storage, paths: Seq<Seq<char>>, k: int)
    requires
        0 <= k < paths.len(),
    ensures
        all_entries(storage, paths.take(k + 1)) == all_entries(storage, paths.take(k)) + (
        storage.manifests)(paths[k]),
{
    assert(paths.take(k + 1).drop_last() =~= paths.take(k));
}

/// One list more.
pub proof fn lemma_listed_step(storage: Storage, lists: Seq<Seq<char>>, n: int, p: Seq<char>)
    requires
        0 <= n < lists.len(),
    ensures
        storage.listed(lists, n + 1, p) <==> storage.listed(lists, n, p) || seqs::manifest_paths(
            (storage.lists)(lists[n]),
        ).contains(p),
{
    if storage.listed(lists, n + 1, p) {
        let j = choose|j: int|
            0 <= j < n + 1 && j < lists.len() && #[trigger] seqs::manifest_paths(
                (storage.lists)(lists[j]),
            ).contains(p);
        if j < n {
            assert(storage.listed(lists, n, p));
        }
    }
    if storage.listed(lists, n, p) {
        let j = choose|j: int|
            0 <= j < n && j < lists.len() && #[trigger] seqs::manifest_paths(
                (storage.lists)(lists[j]),
            ).contains(p);
        assert(seqs::manifest_paths((storage.lists)(lists[j])).contains(p));
    }
    if seqs::manifest_paths((storage.lists)(lists[n])).contains(p) {
        assert(seqs::manifest_paths((storage.lists)(lists[n])).contains(p));
    }
}

/// More lists than there are name nothing more.
pub proof fn lemma_listed_all(storage: Storage, lists: Seq<Seq<char>>, n: int, p: Seq<char>)
    requires
        n >= lists.len(),
    ensures
        storage.listed(lists, n, p) <==> storage.listed(lists, lists.len() as int, p),
{
    if storage.listed(lists, n, p) {
        let j = choose|j: int|
            0 <= j < n && j < lists.len() && #[trigger] seqs::manifest_paths(
                (storage.lists)(lists[j]),
            ).contains(p);
        assert(seqs::manifest_paths((storage.lists)(lists[j])).contains(p));
    }
    if storage.listed(lists, lists.len() as int, p) {
        let j = choose|j: int|
            0 <= j < lists.len() && j < lists.len() && #[trigger] seqs::manifest_paths(
                (storage.lists)(lists[j]),
            ).contains(p);
        assert(seqs::manifest_paths((storage.lists)(lists[j])).contains(p));
    }
}

impl Storage {
    /// Whether the manifest list `list` has the manifest `p`.
    pub open spec fn lists_manifest(self, list: Seq<char>, p: Seq<char>) -> bool {
        exists|m: ManifestFile| #[trigger]
            (self.lists)(list).contains(m) && m.manifest_path@ == p
    }

    /// Whether the manifest `p` has an entry for the file `path`.
    pub open spec fn enters(self, p: Seq<char>, path: Seq<char>) -> bool {
        exists|e: ManifestEntry| #[trigger]
            (self.manifests)(p).contains(e) && e.data_file.file_path@ == path
    }

    /// Whether the manifest `p` has an entry for the file `path` by which the file was
    /// added or existed before.
    pub open spec fn has(self, p: Seq<char>, path: Seq<char>) -> bool {
        exists|e: ManifestEntry| #[trigger]
            (self.manifests)(p).contains(e) && e.data_file.file_path@ == path && (e.status
                == ManifestStatus::Added || e.status == ManifestStatus::Existing)
    }

    /// Whether a manifest of the list `list` has an entry for the file `path`.
    pub open spec fn list_enters(self, list: Seq<char>, path: Seq<char>) -> bool {
        exists|p: Seq<char>| #[trigger] self.lists_manifest(list, p) && self.enters(p, path)
    }

    /// Whether a manifest of the list `list` has an entry for the file `path` by which
    /// the file was added or existed before.
    pub open spec fn list_has(self, list: Seq<char>, path: Seq<char>) -> bool {
        exists|p: Seq<char>| #[trigger] self.lists_manifest(list, p) && self.has(p, path)
    }
}

/// The paths of manifests are those of its elements.
pub proof fn lemma_manifest_paths(manifests: Seq<ManifestFile>, p: Seq<char>)
    ensures
        seqs::manifest_paths(manifests).contains(p) <==> exists|m: ManifestFile| #[trigger]
            manifests.contains(m) && m.manifest_path@ == p,
{
    let paths = seqs::manifest_paths(manifests);
    if paths.contains(p) {
        let i = choose|i: int| 0 <= i < paths.len() && paths[i] == p;
        assert(manifests.contains(manifests[i]));
    }
    if exists|m: ManifestFile| #[trigger] manifests.contains(m) && m.manifest_path@ == p {
        let m = choose|m: ManifestFile| #[trigger] manifests.contains(m) && m.manifest_path@ == p;
        let i = choose|i: int| 0 <= i < manifests.len() && manifests[i] == m;
        assert(paths[i] == p);
    }
}

/// The paths of entries are those of their files.
pub proof fn lemma_entry_paths(entries: Seq<ManifestEntry>, p: Seq<char>)
    ensures
        seqs::entry_paths(entries).contains(p) <==> exists|e: ManifestEntry| #[trigger]
            entries.contains(e) && e.data_file.file_path@ == p,
{
    let paths = seqs::entry_paths(entries);
    if paths.contains(p) {
        let i = choose|i: int| 0 <= i < paths.len() && paths[i] == p;
        assert(entries.contains(entries[i]));
    }
    if exists|e: ManifestEntry| #[trigger] entries.contains(e) && e.data_file.file_path@ == p {
        let e = choose|e: ManifestEntry| #[trigger]
            entries.contains(e) && e.data_file.file_path@ == p;
        let i = choose|i: int| 0 <= i < entries.len() && entries[i] == e;
        assert(paths[i] == p);
    }
}

/// A file is live in entries where one of them has it as added or existing.
pub proof fn lemma_is_live(entries: Seq<ManifestEntry>, p: Seq<char>)
    ensures
        seqs::is_live(entries, p) <==> exists|e: ManifestEntry| #[trigger]
            entries.contains(e) && e.data_file.file_path@ == p && (e.status
                == ManifestStatus::Added || e.status == ManifestStatus::Existing),
{
    if seqs::is_live(entries, p) {
        let i = choose|i: int|
            0 <= i < entries.len() && (#[trigger] entries[i]).alive() && entries[i].path() == p;
        assert(entries.contains(entries[i]));
    }
    if exists|e: ManifestEntry| #[trigger]
        entries.contains(e) && e.data_file.file_path@ == p && (e.status == ManifestStatus::Added
            || e.status == ManifestStatus::Existing) {
        let e = choose|e: ManifestEntry| #[trigger]
            entries.contains(e) && e.data_file.file_path@ == p && (e.status
                == ManifestStatus::Added || e.status == ManifestStatus::Existing);
        let i = choose|i: int| 0 <= i < entries.len() && entries[i] == e;
        assert(entries[i].alive() && entries[i].path() == p);
    }
}

/// A manifest is in one of the lists where one of them has it.
pub proof fn lemma_listed_in(storage: Storage, lists: Seq<Seq<char>>, p: Seq<char>)
    ensures
        storage.listed(lists, lists.len() as int, p) <==> exists|j: int|
            0 <= j < lists.len() && storage.lists_manifest(#[trigger] lists[j], p),
{
    if storage.listed(lists, lists.len() as int, p) {
        let j = choose|j: int|
            0 <= j < lists.len() && j < lists.len() && #[trigger] seqs::manifest_paths(
                (storage.lists)(lists[j]),
            ).contains(p);
        lemma_manifest_paths((storage.lists)(lists[j]), p);
        assert(storage.lists_manifest(lists[j], p));
    }
    if exists|j: int| 0 <= j < lists.len() && storage.lists_manifest(#[trigger] lists[j], p) {
        let j = choose|j: int|
            0 <= j < lists.len() && storage.lists_manifest(#[trigger] lists[j], p);
        lemma_manifest_paths((storage.lists)(lists[j]), p);
        assert(seqs::manifest_paths((storage.lists)(lists[j])).contains(p));
    }
}

/// A file is mentioned, or alive, in lists where one of their manifests has an entry.
pub proof fn lemma_entered_in(storage: Storage, lists: Seq<Seq<char>>, path: Seq<char>)
    ensures
        storage.mentioned_in(lists, path) <==> exists|j: int|
            0 <= j < lists.len() && storage.list_enters(#[trigger] lists[j], path),
        storage.alive_in(lists, path) <==> exists|j: int|
            0 <= j < lists.len() && storage.list_has(#[trigger] lists[j], path),
{
    let n = lists.len() as int;
    if storage.mentioned_in(lists, path) {
        let (p, e) = choose|p: Seq<char>, e: ManifestEntry|
            storage.listed(lists, n, p) && #[trigger] (storage.manifests)(p).contains(e)
                && e.path() == path;
        lemma_listed_in(storage, lists, p);
        let j = choose|j: int|
            0 <= j < lists.len() && storage.lists_manifest(#[trigger] lists[j], p);
        assert(storage.enters(p, path));
        assert(storage.list_enters(lists[j], path));
    }
    if storage.alive_in(lists, path) {
        let (p, e) = choose|p: Seq<char>, e: ManifestEntry|
            storage.listed(lists, n, p) && #[trigger] (storage.manifests)(p).contains(e)
                && e.alive() && e.path() == path;
        lemma_listed_in(storage, lists, p);
        let j = choose|j: int|
            0 <= j < lists.len() && storage.lists_manifest(#[trigger] lists[j], p);
        assert(storage.has(p, path));
        assert(storage.list_has(lists[j], path));
    }
    if exists|j: int| 0 <= j < lists.len() && storage.list_enters(#[trigger] lists[j], path) {
        let j = choose|j: int|
            0 <= j < lists.len() && storage.list_enters(#[trigger] lists[j], path);
        let p = choose|p: Seq<char>| #[trigger]
            storage.lists_manifest(lists[j], p) && storage.enters(p, path);
        let e = choose|e: ManifestEntry| #[trigger]
            (storage.manifests)(p).contains(e) && e.data_file.file_path@ == path;
        lemma_listed_in(storage, lists, p);
        assert((storage.manifests)(p).contains(e) && e.path() == path);
    }
    if exists|j: int| 0 <= j < lists.len() && storage.list_has(#[trigger] lists[j], path) {
        let j = choose|j: int| 0 <= j < lists.len() && storage.list_has(#[trigger] lists[j], path);
        let p = choose|p: Seq<char>| #[trigger]
            storage.lists_manifest(lists[j], p) && storage.has(p, path);
        let e = choose|e: ManifestEntry| #[trigger]
            (storage.manifests)(p).contains(e) && e.data_file.file_path@ == path && (e.status
                == ManifestStatus::Added || e.status == ManifestStatus::Existing);
        lemma_listed_in(storage, lists, p);
        assert((storage.manifests)(p).contains(e) && e.alive() && e.path() == path);
    }
}

/// An entry is among those of manifests where one of them has it.
pub proof fn lemma_all_entries_contains(storage: Storage, paths: Seq<Seq<char>>, e: ManifestEntry)
    ensures
        all_entries(storage, paths).contains(e) <==> exists|j: int|
            0 <= j < paths.len() && (storage.manifests)(#[trigger] paths[j]).contains(e),
    decreases paths.len(),
{
    if paths.len() > 0 {
        let front = paths.drop_last();
        lemma_all_entries_contains(storage, front, e);
        seqs::lemma_add_contains(
            all_entries(storage, front),
            (storage.manifests)(paths.last()),
            e,
        );
        if all_entries(storage, front).contains(e) {
            let j = choose|j: int|
                0 <= j < front.len() && (storage.manifests)(#[trigger] front[j]).contains(e);
            assert((storage.manifests)(paths[j]).contains(e));
        }
        if exists|j: int|
            0 <= j < paths.len() && (storage.manifests)(#[trigger] paths[j]).contains(e) {
            let j = choose|j: int|
                0 <= j < paths.len() && (storage.manifests)(#[trigger] paths[j]).contains(e);
            if j < front.len() {
                assert((storage.manifests)(front[j]).contains(e));
            }
        }
    }
}

/// A file is live in the entries of the manifests of a list where one of them has it as
/// added or existing.
pub proof fn lemma_live_in_list(storage: Storage, list: Seq<ManifestFile>, path: Seq<char>)
    ensures
        seqs::is_live(all_entries(storage, seqs::manifest_paths(list)), path) <==> exists|j: int|
            0 <= j < list.len() && storage.has((#[trigger] list[j]).manifest_path@, path),
{
    let paths = seqs::manifest_paths(list);
    let all = all_entries(storage, paths);
    lemma_is_live(all, path);
    if seqs::is_live(all, path) {
        let e = choose|e: ManifestEntry| #[trigger]
            all.contains(e) && e.data_file.file_path@ == path && (e.status
                == ManifestStatus::Added || e.status == ManifestStatus::Existing);
        lemma_all_entries_contains(storage, paths, e);
        let j = choose|j: int|
            0 <= j < paths.len() && (storage.manifests)(#[trigger] paths[j]).contains(e);
        assert(storage.has(list[j].manifest_path@, path));
    }
    if exists|j: int|
        0 <= j < list.len() && storage.has((#[trigger] list[j]).manifest_path@, path) {
        let j = choose|j: int|
            0 <= j < list.len() && storage.has((#[trigger] list[j]).manifest_path@, path);
        let e = choose|e: ManifestEntry| #[trigger]
            (storage.manifests)(list[j].manifest_path@).contains(e) && e.data_file.file_path@
                == path && (e.status == ManifestStatus::Added || e.status
                == ManifestStatus::Existing);
        lemma_all_entries_contains(storage, paths, e);
        assert((storage.manifests)(paths[j]).contains(e));
        assert(all.contains(e));
    }
}

} // verus!
