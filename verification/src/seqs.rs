//! Sequences of texts and of manifest entries.

use vstd::hash_set::StringHashSet;
use vstd::prelude::*;

use crate::model::{DataContentType, DataFile, ManifestEntry, ManifestFile, StatisticsFile};

verus! {

/// The texts of a sequence of strings.
pub open spec fn texts(v: Seq<String>) -> Seq<Seq<char>> {
    v.map_values(|s: String| s@)
}

/// The paths of a sequence of manifest entries.
pub open spec fn entry_paths(v: Seq<ManifestEntry>) -> Seq<Seq<char>> {
    v.map_values(|e: ManifestEntry| e.path())
}

/// The paths of a sequence of manifests.
pub open spec fn manifest_paths(v: Seq<ManifestFile>) -> Seq<Seq<char>> {
    v.map_values(|m: ManifestFile| m.manifest_path@)
}

/// The paths of a sequence of data files.
pub open spec fn file_paths(v: Seq<DataFile>) -> Seq<Seq<char>> {
    v.map_values(|f: DataFile| f.file_path@)
}

/// The paths of statistics files.
pub open spec fn statistics_paths(s: Seq<StatisticsFile>) -> Seq<Seq<char>> {
    s.map_values(|f: StatisticsFile| f.statistics_path@)
}

/// `seen`, followed by the elements of `s` that are neither in `seen` nor earlier
/// in `s`.
pub open spec fn extend_distinct<A>(seen: Seq<A>, s: Seq<A>) -> Seq<A>
    decreases s.len(),
{
    if s.len() == 0 {
        seen
    } else {
        let before = extend_distinct(seen, s.drop_last());
        if before.contains(s.last()) {
            before
        } else {
            before.push(s.last())
        }
    }
}

/// The elements of `s`, each at its first place only.
pub open spec fn distinct<A>(s: Seq<A>) -> Seq<A> {
    extend_distinct(Seq::empty(), s)
}

/// Lets through what is not in `s`.
pub open spec fn not_in(s: Seq<Seq<char>>) -> spec_fn(Seq<char>) -> bool {
    |p: Seq<char>| !s.contains(p)
}

/// The entries of `s` whose path no earlier entry has.
pub open spec fn distinct_entries(s: Seq<ManifestEntry>) -> Seq<ManifestEntry>
    decreases s.len(),
{
    if s.len() == 0 {
        s
    } else if entry_paths(s.drop_last()).contains(s.last().path()) {
        distinct_entries(s.drop_last())
    } else {
        distinct_entries(s.drop_last()).push(s.last())
    }
}

/// Whether a file of this path belongs to one of the snapshots that `entries` come
/// from.
pub open spec fn is_live(entries: Seq<ManifestEntry>, path: Seq<char>) -> bool {
    exists|i: int|
        0 <= i < entries.len() && (#[trigger] entries[i]).alive() && entries[i].path() == path
}

/// How many of the entries are for files with this content.
pub open spec fn count_content(s: Seq<ManifestEntry>, content: DataContentType) -> nat
    decreases s.len(),
{
    if s.len() == 0 {
        0
    } else {
        count_content(s.drop_last(), content) + (if s.last().data_file.content == content {
            1nat
        } else {
            0nat
        })
    }
}

/// Mapping one element more.
pub broadcast proof fn lemma_map_push<A, B>(s: Seq<A>, a: A, f: spec_fn(A) -> B)
    ensures
        #[trigger] s.push(a).map_values(f) == s.map_values(f).push(f(a)),
{
    assert(s.push(a).map_values(f) =~= s.map_values(f).push(f(a)));
}

/// Mapping two sequences taken together.
pub proof fn lemma_texts_add(v: Seq<String>, w: Seq<String>)
    ensures
        texts(v + w) == texts(v) + texts(w),
{
    assert(texts(v + w) =~= texts(v) + texts(w));
}

/// Filtering one element more.
pub proof fn lemma_filter_step<A>(s: Seq<A>, keep: spec_fn(A) -> bool, i: int)
    requires
        0 <= i < s.len(),
    ensures
        s.take(i + 1).filter(keep) == (if keep(s[i]) {
            s.take(i).filter(keep).push(s[i])
        } else {
            s.take(i).filter(keep)
        }),
{
    reveal(Seq::filter);
    assert(s.take(i + 1).drop_last() =~= s.take(i));
}

/// What a filter lets through are the elements that pass it.
pub proof fn lemma_filter_contains<A>(s: Seq<A>, keep: spec_fn(A) -> bool, x: A)
    ensures
        s.filter(keep).contains(x) <==> s.contains(x) && keep(x),
    decreases s.len(),
{
    reveal(Seq::filter);
    if s.len() > 0 {
        let front = s.drop_last();
        lemma_filter_contains(front, keep, x);
        assert(s =~= front.push(s.last()));
        lemma_push_contains(front, s.last(), x);
        lemma_push_contains(front.filter(keep), s.last(), x);
    }
}

/// A filter does not make elements appear twice.
pub proof fn lemma_filter_no_duplicates<A>(s: Seq<A>, keep: spec_fn(A) -> bool)
    requires
        s.no_duplicates(),
    ensures
        s.filter(keep).no_duplicates(),
    decreases s.len(),
{
    reveal(Seq::filter);
    if s.len() > 0 {
        let front = s.drop_last();
        lemma_filter_no_duplicates(front, keep);
        lemma_filter_contains(front, keep, s.last());
        let kept = front.filter(keep);
        let all = s.filter(keep);
        if keep(s.last()) {
            assert(!front.contains(s.last()));
            assert forall|i: int, j: int|
                0 <= i < all.len() && 0 <= j < all.len() && i != j implies all[i] != all[j] by {
                if i < kept.len() && j < kept.len() {
                    assert(kept[i] != kept[j]);
                } else if i < kept.len() {
                    assert(kept.contains(kept[i]));
                } else {
                    assert(kept.contains(kept[j]));
                }
            }
        }
    }
}

/// Where no two elements have the same text, neither do two that a filter lets
/// through.
pub proof fn lemma_filter_mapped<A>(
    s: Seq<A>,
    keep: spec_fn(A) -> bool,
    f: spec_fn(A) -> Seq<char>,
)
    requires
        s.map_values(f).no_duplicates(),
    ensures
        s.filter(keep).map_values(f).no_duplicates(),
    decreases s.len(),
{
    reveal(Seq::filter);
    if s.len() > 0 {
        let front = s.drop_last();
        let mapped = s.map_values(f);
        assert(front.map_values(f) =~= mapped.drop_last());
        lemma_filter_mapped(front, keep, f);
        let kept = front.filter(keep);
        let all = s.filter(keep);
        assert forall|i: int, j: int|
            0 <= i < all.len() && 0 <= j < all.len() && i != j implies all.map_values(f)[i]
            != all.map_values(f)[j] by {
            let (a, b) = if i < j {
                (i, j)
            } else {
                (j, i)
            };
            if b < kept.len() {
                assert(kept.map_values(f)[a] != kept.map_values(f)[b]);
            } else {
                lemma_filter_contains(front, keep, kept[a]);
                assert(kept.contains(kept[a]));
                let x = choose|x: int| 0 <= x < front.len() && front[x] == kept[a];
                assert(mapped[x] != mapped[s.len() - 1]);
            }
        }
    }
}

/// What is in a sequence after one element more.
pub proof fn lemma_push_contains<A>(s: Seq<A>, a: A, x: A)
    ensures
        s.push(a).contains(x) <==> s.contains(x) || x == a,
{
    if s.contains(x) {
        let i = choose|i: int| 0 <= i < s.len() && s[i] == x;
        assert(s.push(a)[i] == x);
    }
    assert(s.push(a)[s.len() as int] == a);
}

/// What is in two sequences taken together.
pub proof fn lemma_add_contains<A>(s: Seq<A>, t: Seq<A>, x: A)
    ensures
        (s + t).contains(x) <==> s.contains(x) || t.contains(x),
{
    if s.contains(x) {
        let i = choose|i: int| 0 <= i < s.len() && s[i] == x;
        assert((s + t)[i] == x);
    }
    if t.contains(x) {
        let i = choose|i: int| 0 <= i < t.len() && t[i] == x;
        assert((s + t)[s.len() + i] == x);
    }
}

/// A sequence keeps its elements when it is extended without repetition, and gains
/// those of the other one; nothing is in it twice that was not before.
pub proof fn lemma_extend_distinct<A>(seen: Seq<A>, s: Seq<A>)
    ensures
        forall|x: A|
            #[trigger] extend_distinct(seen, s).contains(x) <==> seen.contains(x) || s.contains(x),
        seen.len() <= extend_distinct(seen, s).len(),
        extend_distinct(seen, s).take(seen.len() as int) == seen,
        seen.no_duplicates() ==> extend_distinct(seen, s).no_duplicates(),
    decreases s.len(),
{
    if s.len() == 0 {
        assert(seen.take(seen.len() as int) =~= seen);
    } else {
        let before = extend_distinct(seen, s.drop_last());
        lemma_extend_distinct(seen, s.drop_last());
        let after = extend_distinct(seen, s);
        assert(s =~= s.drop_last().push(s.last()));
        assert forall|x: A|
            after.contains(x) <==> seen.contains(x) || s.contains(x) by {
            lemma_push_contains(s.drop_last(), s.last(), x);
            lemma_push_contains(before, s.last(), x);
        }
        assert(after.take(seen.len() as int) =~= before.take(seen.len() as int));
        if seen.no_duplicates() && !before.contains(s.last()) {
            assert forall|i: int, j: int|
                0 <= i < after.len() && 0 <= j < after.len() && i != j implies after[i]
                != after[j] by {
                if i < before.len() && j < before.len() {
                    assert(before[i] != before[j]);
                } else if i < before.len() {
                    assert(before.contains(before[i]));
                } else {
                    assert(before.contains(before[j]));
                }
            }
        }
    }
}

/// Extending by one element more.
pub proof fn lemma_extend_distinct_step<A>(seen: Seq<A>, s: Seq<A>, i: int)
    requires
        0 <= i < s.len(),
    ensures
        extend_distinct(seen, s.take(i + 1)) == (if extend_distinct(seen, s.take(i)).contains(
            s[i],
        ) {
            extend_distinct(seen, s.take(i))
        } else {
            extend_distinct(seen, s.take(i)).push(s[i])
        }),
{
    assert(s.take(i + 1).drop_last() =~= s.take(i));
}

/// Dropping repeated paths loses no path and leaves none twice.
pub proof fn lemma_distinct_entries(s: Seq<ManifestEntry>)
    ensures
        forall|p: Seq<char>|
            entry_paths(distinct_entries(s)).contains(p) <==> entry_paths(s).contains(p),
        forall|e: ManifestEntry| #[trigger]
            distinct_entries(s).contains(e) ==> s.contains(e),
        entry_paths(distinct_entries(s)).no_duplicates(),
    decreases s.len(),
{
    if s.len() > 0 {
        let front = s.drop_last();
        let d = distinct_entries(front);
        lemma_distinct_entries(front);
        assert(s =~= front.push(s.last()));
        assert(entry_paths(s) =~= entry_paths(front).push(s.last().path()));
        assert forall|e: ManifestEntry| #[trigger] distinct_entries(s).contains(e) implies s.contains(
            e,
        ) by {
            lemma_push_contains(front, s.last(), e);
            lemma_push_contains(d, s.last(), e);
        }
        if entry_paths(front).contains(s.last().path()) {
            assert forall|p: Seq<char>|
                entry_paths(distinct_entries(s)).contains(p) <==> entry_paths(s).contains(p) by {
                lemma_push_contains(entry_paths(front), s.last().path(), p);
            }
        } else {
            let q = entry_paths(d);
            assert(entry_paths(d.push(s.last())) =~= q.push(s.last().path()));
            assert forall|p: Seq<char>|
                entry_paths(distinct_entries(s)).contains(p) <==> entry_paths(s).contains(p) by {
                lemma_push_contains(entry_paths(front), s.last().path(), p);
                lemma_push_contains(q, s.last().path(), p);
            }
            let all = q.push(s.last().path());
            assert forall|i: int, j: int|
                0 <= i < all.len() && 0 <= j < all.len() && i != j implies all[i] != all[j] by {
                if i < q.len() && j < q.len() {
                    assert(q[i] != q[j]);
                } else if i < q.len() {
                    assert(q.contains(q[i]));
                } else {
                    assert(q.contains(q[j]));
                }
            }
        }
    }
}

/// The three kinds of content together make up all entries.
pub proof fn lemma_count_content(s: Seq<ManifestEntry>)
    ensures
        count_content(s, DataContentType::Data) + count_content(
            s,
            DataContentType::PositionDeletes,
        ) + count_content(s, DataContentType::EqualityDeletes) == s.len(),
    decreases s.len(),
{
    if s.len() > 0 {
        lemma_count_content(s.drop_last());
    }
}

/// The set of the first `n` texts in a list.
pub fn text_set(v: &Vec<String>, n: usize) -> (r: StringHashSet)
    requires
        n <= v.len(),
    ensures
        forall|p: Seq<char>| #[trigger]
            r@.contains(p) <==> texts(v@).take(n as int).contains(p),
{
    let mut r = StringHashSet::new();
    let mut i: usize = 0;
    while i < n
        invariant
            i <= n <= v.len(),
            forall|p: Seq<char>| #[trigger]
                r@.contains(p) <==> texts(v@).take(i as int).contains(p),
        decreases n - i,
    {
        let ghost before = texts(v@).take(i as int);
        r.insert(v[i].clone());
        proof {
            assert(texts(v@).take(i + 1) =~= before.push(v@[i as int]@));
            assert forall|p: Seq<char>| #[trigger]
                r@.contains(p) <==> texts(v@).take(i + 1).contains(p) by {
                lemma_push_contains(before, v@[i as int]@, p);
            }
        }
        i = i + 1;
    }
    r
}

/// Adds the strings of `more` to the end of `v`.
pub fn push_texts(v: &mut Vec<String>, more: &Vec<String>)
    ensures
        final(v)@ == old(v)@ + more@,
{
    let mut i: usize = 0;
    assert(more@.take(0) =~= Seq::<String>::empty());
    assert(v@ =~= old(v)@ + more@.take(0));
    while i < more.len()
        invariant
            i <= more.len(),
            v@ == old(v)@ + more@.take(i as int),
        decreases more.len() - i,
    {
        v.push(more[i].clone());
        assert(v@ =~= old(v)@ + more@.take(i + 1));
        i = i + 1;
    }
    assert(more@.take(more.len() as int) =~= more@);
}

/// The paths of manifests, as a list.
pub fn list_manifest_paths(manifests: &Vec<ManifestFile>) -> (paths: Vec<String>)
    ensures
        texts(paths@) == manifest_paths(manifests@),
{
    let mut paths: Vec<String> = Vec::new();
    let mut i: usize = 0;
    while i < manifests.len()
        invariant
            i <= manifests.len(),
            texts(paths@) == manifest_paths(manifests@.take(i as int)),
        decreases manifests.len() - i,
    {
        let ghost before = paths@;
        paths.push(manifests[i].manifest_path.clone());
        assert(manifests@.take(i + 1) =~= manifests@.take(i as int).push(manifests@[i as int]));
        assert(texts(paths@) =~= texts(before).push(manifests@[i as int].manifest_path@));
        assert(manifest_paths(manifests@.take(i + 1)) =~= manifest_paths(
            manifests@.take(i as int),
        ).push(manifests@[i as int].manifest_path@));
        i = i + 1;
    }
    assert(manifests@.take(manifests.len() as int) =~= manifests@);
    paths
}

/// The paths of manifest entries, as a list.
pub fn list_entry_paths(entries: &Vec<ManifestEntry>) -> (paths: Vec<String>)
    ensures
        texts(paths@) == entry_paths(entries@),
{
    let mut paths: Vec<String> = Vec::new();
    let mut i: usize = 0;
    while i < entries.len()
        invariant
            i <= entries.len(),
            texts(paths@) == entry_paths(entries@.take(i as int)),
        decreases entries.len() - i,
    {
        let ghost before = paths@;
        paths.push(entries[i].data_file.file_path.clone());
        assert(entries@.take(i + 1) =~= entries@.take(i as int).push(entries@[i as int]));
        assert(texts(paths@) =~= texts(before).push(entries@[i as int].path()));
        assert(entry_paths(entries@.take(i + 1)) =~= entry_paths(entries@.take(i as int)).push(
            entries@[i as int].path(),
        ));
        i = i + 1;
    }
    assert(entries@.take(entries.len() as int) =~= entries@);
    paths
}

/// The paths of the files that belong to the snapshots which `entries` come from.
pub fn live_paths(entries: &Vec<ManifestEntry>) -> (paths: StringHashSet)
    ensures
        forall|p: Seq<char>| #[trigger] paths@.contains(p) <==> is_live(entries@, p),
{
    let mut paths = StringHashSet::new();
    let mut i: usize = 0;
    while i < entries.len()
        invariant
            i <= entries.len(),
            forall|p: Seq<char>| #[trigger]
                paths@.contains(p) <==> is_live(entries@.take(i as int), p),
        decreases entries.len() - i,
    {
        let ghost before = entries@.take(i as int);
        let ghost after = entries@.take(i + 1);
        let e = &entries[i];
        let ghost held = paths@;
        if e.is_alive() {
            paths.insert(e.data_file.file_path.clone());
        }
        assert forall|p: Seq<char>| #[trigger] paths@.contains(p) <==> is_live(after, p) by {
            if is_live(before, p) {
                let j = choose|j: int|
                    0 <= j < before.len() && (#[trigger] before[j]).alive() && before[j].path()
                        == p;
                assert(after[j].alive() && after[j].path() == p);
            }
            if is_live(after, p) {
                let j = choose|j: int|
                    0 <= j < after.len() && (#[trigger] after[j]).alive() && after[j].path() == p;
                if j < i {
                    assert(before[j].alive() && before[j].path() == p);
                }
            }
            assert(held.contains(p) <==> is_live(before, p));
            if e.alive() && e.path() == p {
                assert(after[i as int].alive() && after[i as int].path() == p);
            }
        }
        i = i + 1;
    }
    assert(entries@.take(entries.len() as int) =~= entries@);
    paths
}

/// The texts of `v` that are not in `exclude`.
pub fn texts_outside(v: &Vec<String>, exclude: &Vec<String>) -> (r: Vec<String>)
    ensures
        texts(r@) == texts(v@).filter(not_in(texts(exclude@))),
{
    let excluded = text_set(exclude, exclude.len());
    broadcast use lemma_map_push;

    let ghost keep = not_in(texts(exclude@));
    let ghost all = texts(v@);
    let mut r: Vec<String> = Vec::new();
    let mut i: usize = 0;
    proof {
        reveal(Seq::filter);
        assert(texts(exclude@).take(exclude.len() as int) =~= texts(exclude@));
    }
    while i < v.len()
        invariant
            keep == not_in(texts(exclude@)),
            all == texts(v@),
            forall|p: Seq<char>| #[trigger]
                excluded@.contains(p) <==> texts(exclude@).contains(p),
            i <= v.len(),
            texts(r@) == all.take(i as int).filter(keep),
        decreases v.len() - i,
    {
        proof {
            lemma_filter_step(all, keep, i as int);
        }
        if !excluded.contains(v[i].as_str()) {
            r.push(v[i].clone());
        }
        i = i + 1;
    }
    assert(all.take(v.len() as int) =~= all);
    r
}

/// The texts of `v`, each once.
pub fn list_distinct(v: &Vec<String>) -> (r: Vec<String>)
    ensures
        texts(r@) == distinct(texts(v@)),
{
    let ghost all = texts(v@);
    let mut seen = StringHashSet::new();
    let mut r: Vec<String> = Vec::new();
    let mut i: usize = 0;
    assert(all.take(0) =~= Seq::<Seq<char>>::empty());
    while i < v.len()
        invariant
            all == texts(v@),
            i <= v.len(),
            texts(r@) == distinct(all.take(i as int)),
            forall|p: Seq<char>| #[trigger] seen@.contains(p) <==> texts(r@).contains(p),
        decreases v.len() - i,
    {
        let ghost before = texts(r@);
        let ghost held = seen@;
        proof {
            lemma_extend_distinct_step(Seq::empty(), all, i as int);
        }
        if seen.insert(v[i].clone()) {
            r.push(v[i].clone());
            assert(texts(r@) =~= before.push(v@[i as int]@));
            assert forall|p: Seq<char>| #[trigger] seen@.contains(p) <==> texts(r@).contains(p) by {
                lemma_push_contains(before, v@[i as int]@, p);
                assert(held.contains(p) <==> before.contains(p));
            }
        }
        i = i + 1;
    }
    assert(all.take(v.len() as int) =~= all);
    r
}

/// The paths of data files, as a list.
pub fn list_file_paths(files: &Vec<DataFile>) -> (paths: Vec<String>)
    ensures
        texts(paths@) == file_paths(files@),
{
    let mut paths: Vec<String> = Vec::new();
    let mut i: usize = 0;
    while i < files.len()
        invariant
            i <= files.len(),
            texts(paths@) == file_paths(files@.take(i as int)),
        decreases files.len() - i,
    {
        let ghost before = paths@;
        paths.push(files[i].file_path.clone());
        assert(files@.take(i + 1) =~= files@.take(i as int).push(files@[i as int]));
        assert(texts(paths@) =~= texts(before).push(files@[i as int].file_path@));
        assert(file_paths(files@.take(i + 1)) =~= file_paths(files@.take(i as int)).push(
            files@[i as int].file_path@,
        ));
        i = i + 1;
    }
    assert(files@.take(files.len() as int) =~= files@);
    paths
}

/// Whether no entry before the one at `i` has its path.
pub open spec fn is_first_with_path(s: Seq<ManifestEntry>, i: int) -> bool {
    &&& 0 <= i < s.len()
    &&& forall|j: int|
        0 <= j < i ==> (#[trigger] s[j]).data_file.file_path@ != s[i].data_file.file_path@
}

/// Of the entries with one path, the first one stays and no other.
pub proof fn law_first_entry_of_each_path(s: Seq<ManifestEntry>, e: ManifestEntry)
    ensures
        distinct_entries(s).contains(e) <==> exists|i: int| #[trigger]
            is_first_with_path(s, i) && s[i] == e,
    decreases s.len(),
{
    if s.len() > 0 {
        let front = s.drop_last();
        let last = s.last();
        let n = front.len() as int;
        law_first_entry_of_each_path(front, e);
        lemma_push_contains(distinct_entries(front), last, e);
        let paths = entry_paths(front);
        assert forall|i: int| 0 <= i < n implies is_first_with_path(front, i)
            == is_first_with_path(s, i) by {
            lemma_first_with_path_in_front(s, i);
        }
        if paths.contains(last.path()) {
            let j = choose|j: int| 0 <= j < paths.len() && paths[j] == last.path();
            assert(s[j].data_file.file_path@ == s[n].data_file.file_path@);
            assert(!is_first_with_path(s, n));
        } else {
            assert forall|j: int| 0 <= j < n implies (#[trigger] s[j]).data_file.file_path@
                != last.data_file.file_path@ by {
                assert(paths[j] == s[j].data_file.file_path@);
            }
            assert(is_first_with_path(s, n));
        }
        if distinct_entries(s).contains(e) && distinct_entries(front).contains(e) {
            let i = choose|i: int| #[trigger] is_first_with_path(front, i) && front[i] == e;
            assert(is_first_with_path(s, i) && s[i] == e);
        }
        if exists|i: int| #[trigger] is_first_with_path(s, i) && s[i] == e {
            let i = choose|i: int| #[trigger] is_first_with_path(s, i) && s[i] == e;
            if i < n {
                assert(is_first_with_path(front, i) && front[i] == e);
            }
        }
    }
}

proof fn lemma_first_with_path_in_front(s: Seq<ManifestEntry>, i: int)
    requires
        0 <= i < s.len() - 1,
    ensures
        is_first_with_path(s.drop_last(), i) == is_first_with_path(s, i),
{
    let front = s.drop_last();
    assert(forall|j: int| 0 <= j <= i ==> #[trigger] front[j] == s[j]);
    if is_first_with_path(front, i) {
        assert forall|j: int| 0 <= j < i implies (#[trigger] s[j]).data_file.file_path@
            != s[i].data_file.file_path@ by {
            assert(front[j] == s[j]);
        }
    }
}

/// Lets through the entries of files with this content.
pub open spec fn of_content(content: DataContentType) -> spec_fn(ManifestEntry) -> bool {
    |e: ManifestEntry| e.data_file.content == content
}

/// Counting content counts the entries that have it.
pub proof fn law_content_counts(s: Seq<ManifestEntry>, content: DataContentType)
    ensures
        count_content(s, content) == s.filter(of_content(content)).len(),
    decreases s.len(),
{
    reveal(Seq::filter);
    if s.len() > 0 {
        law_content_counts(s.drop_last(), content);
    }
}

/// Whether `part` is what `whole` has at the positions `at`, which rise.
pub open spec fn picks<A>(part: Seq<A>, whole: Seq<A>, at: Seq<int>) -> bool {
    &&& at.len() == part.len()
    &&& forall|i: int|
        0 <= i < at.len() ==> 0 <= #[trigger] at[i] < whole.len() && whole[at[i]] == part[i]
    &&& forall|i: int, j: int| 0 <= i < j < at.len() ==> #[trigger] at[i] < #[trigger] at[j]
}

/// Whether `part` is `whole` with some elements left out.
pub open spec fn is_subsequence<A>(part: Seq<A>, whole: Seq<A>) -> bool {
    exists|at: Seq<int>| picks(part, whole, at)
}

/// A filter leaves out the elements that do not pass it and keeps the order of the others.
pub proof fn lemma_filter_picks<A>(s: Seq<A>, keep: spec_fn(A) -> bool) -> (at: Seq<int>)
    ensures
        picks(s.filter(keep), s, at),
        forall|i: int| 0 <= i < s.len() && keep(#[trigger] s[i]) ==> at.contains(i),
        forall|k: int| 0 <= k < at.len() ==> keep(s[#[trigger] at[k]]),
    decreases s.len(),
{
    reveal(Seq::filter);
    if s.len() == 0 {
        Seq::empty()
    } else {
        let front = s.drop_last();
        let before = lemma_filter_picks(front, keep);
        let n = s.len() - 1;
        let at = if keep(s.last()) {
            before.push(n)
        } else {
            before
        };
        assert forall|i: int| 0 <= i < s.len() && keep(#[trigger] s[i]) implies at.contains(i) by {
            lemma_push_contains(before, n, i);
            if i < n {
                assert(front[i] == s[i]);
                assert(before.contains(i));
            }
        }
        assert forall|k: int| 0 <= k < at.len() implies keep(s[#[trigger] at[k]]) by {
            if k < before.len() {
                assert(at[k] == before[k]);
                assert(front[before[k]] == s[before[k]]);
            }
        }
        at
    }
}

/// Two filters that agree on all elements of a sequence let the same through.
pub proof fn lemma_filter_same<A>(s: Seq<A>, p: spec_fn(A) -> bool, q: spec_fn(A) -> bool)
    requires
        forall|x: A| #[trigger] p(x) == q(x),
    ensures
        s.filter(p) == s.filter(q),
    decreases s.len(),
{
    reveal(Seq::filter);
    if s.len() > 0 {
        lemma_filter_same(s.drop_last(), p, q);
        assert(p(s.last()) == q(s.last()));
    } else {
        assert(s.filter(p) =~= s.filter(q));
    }
}

/// A filter lets several elements through where several pass it.
pub proof fn lemma_filter_several<A>(s: Seq<A>, keep: spec_fn(A) -> bool, i: int)
    requires
        0 <= i < s.len(),
        keep(s[i]),
    ensures
        s.filter(keep).len() > 1 <==> exists|j: int|
            0 <= j < s.len() && j != i && keep(#[trigger] s[j]),
{
    let at = lemma_filter_picks(s, keep);
    assert(at.contains(i));
    let k = choose|k: int| 0 <= k < at.len() && at[k] == i;
    if at.len() > 1 {
        let other: int = if k == 0 {
            1
        } else {
            0
        };
        assert(at[other] != at[k]);
        assert(keep(s[at[other]]));
    }
    if exists|j: int| 0 <= j < s.len() && j != i && keep(#[trigger] s[j]) {
        let j = choose|j: int| 0 <= j < s.len() && j != i && keep(#[trigger] s[j]);
        assert(at.contains(j));
        let m = choose|m: int| 0 <= m < at.len() && at[m] == j;
        assert(m != k);
    }
}

/// The elements of a sequence, each once, come in the order of their first places.
pub proof fn lemma_distinct_picks<A>(s: Seq<A>) -> (at: Seq<int>)
    ensures
        picks(distinct(s), s, at),
    decreases s.len(),
{
    if s.len() == 0 {
        Seq::empty()
    } else {
        let before = lemma_distinct_picks(s.drop_last());
        if distinct(s.drop_last()).contains(s.last()) {
            before
        } else {
            before.push(s.len() - 1)
        }
    }
}

} // verus!
