//! What holds of every run of the remove-orphan-files action.

use vstd::prelude::*;

use crate::error::ErrorKind;
use crate::model::{StatisticsFile, Table};
use crate::outside;
use crate::remove_orphan_files;
use crate::remove_orphan_files::{
    FileEntry, OrphanReads, OrphanScan, OrphanStep, PrefixMismatchMode, RemoveOrphanFiles,
};
use crate::seqs;
use crate::storage;
use crate::storage::Storage;
use crate::time::Timestamp;
use crate::uri;

verus! {

/// A file to which the table refers is never an orphan, also where the two paths
/// differ in the case of the scheme or in slashes at the end.
pub proof fn law_referenced_files_are_kept(
    action: RemoveOrphanFiles,
    paths: Seq<Seq<char>>,
    i: int,
    entry: FileEntry,
)
    requires
        0 <= i < paths.len(),
        uri::normalized(entry.path@) == uri::normalized(paths[i]),
    ensures
        action.verdict(paths, entry) is Referenced,
{
    assert(action.stands_for(uri::normalized(entry.path@), paths[i]));
}

/// A file that is the same, under the equivalences declared, as one to which the
/// table refers is never an orphan.
pub proof fn law_equivalent_files_are_kept(
    action: RemoveOrphanFiles,
    paths: Seq<Seq<char>>,
    i: int,
    entry: FileEntry,
)
    requires
        0 <= i < paths.len(),
        action.has_equivalences(),
        action.canonical(uri::normalized(entry.path@)) == action.canonical(
            uri::normalized(paths[i]),
        ),
    ensures
        action.verdict(paths, entry) is Referenced,
{
    assert(action.stands_for(action.comparable(uri::normalized(entry.path@)), paths[i]));
}

/// A file that was modified at `older_than` or later is never an orphan; one whose
/// time of modification is not known is not kept on account of its age.
pub proof fn law_age(action: RemoveOrphanFiles, paths: Seq<Seq<char>>, entry: FileEntry)
    ensures
        entry.last_modified is Some && entry.last_modified->0.nanos >= action.older_than.nanos
            ==> !(action.verdict(paths, entry) is Orphan),
        entry.last_modified is None ==> !(action.verdict(paths, entry) is TooRecent),
{
}

/// The URI made of a scheme and what follows `://`.
pub open spec fn joined(scheme: Seq<char>, rest: Seq<char>) -> Seq<char> {
    scheme + uri::separator() + rest
}

/// Whether `s` can be the scheme of a URI: ASCII text without `://`.
pub open spec fn is_scheme(s: Seq<char>) -> bool {
    &&& outside::all_ascii(s)
    &&& forall|i: int| !uri::separator_at(s, i)
}

proof fn lemma_canonical_of_join(action: RemoveOrphanFiles, scheme: Seq<char>, rest: Seq<char>)
    requires
        is_scheme(scheme),
    ensures
        ({
            let trimmed = uri::trim_slashes(rest);
            action.canonical(uri::normalized(joined(scheme, rest))) == uri::resolved(
                action.equal_schemes@,
                outside::lower_case(scheme),
            ) + uri::separator() + uri::resolved(
                action.equal_authorities@,
                uri::authority_of(trimmed),
            ) + uri::path_of(trimmed)
        }),
{
    let lower = outside::lower_case(scheme);
    let trimmed = uri::trim_slashes(rest);
    uri::law_split_of_join(scheme, rest);
    uri::law_scheme_has_no_separator(joined(scheme, rest));
    uri::lemma_lower_case_twice(scheme);
    uri::law_split_of_join(lower, trimmed);
}

/// A file that has the same normalized form under the equivalences as one to which the
/// table refers is never an orphan, whether or not equivalences have been declared.
proof fn lemma_same_canonical_is_referenced(
    action: RemoveOrphanFiles,
    paths: Seq<Seq<char>>,
    i: int,
    entry: FileEntry,
)
    requires
        0 <= i < paths.len(),
        action.comparable(uri::normalized(entry.path@)) == action.comparable(
            uri::normalized(paths[i]),
        ),
    ensures
        action.verdict(paths, entry) is Referenced,
{
    if action.has_equivalences() {
        law_equivalent_files_are_kept(action, paths, i, entry);
    } else {
        law_referenced_files_are_kept(action, paths, i, entry);
    }
}

proof fn lemma_normalized_join(scheme: Seq<char>, rest: Seq<char>)
    requires
        is_scheme(scheme),
    ensures
        uri::normalized(joined(scheme, rest)) == joined(
            outside::lower_case(scheme),
            uri::trim_slashes(rest),
        ),
{
    uri::law_split_of_join(scheme, rest);
}

/// A file is not an orphan where the table refers to it under an equivalent scheme:
/// one that stands for the same.
pub proof fn law_equal_schemes(
    action: RemoveOrphanFiles,
    paths: Seq<Seq<char>>,
    i: int,
    entry: FileEntry,
    scheme: Seq<char>,
    other: Seq<char>,
    rest: Seq<char>,
)
    requires
        is_scheme(scheme),
        is_scheme(other),
        uri::resolved(action.equal_schemes@, outside::lower_case(scheme)) == uri::resolved(
            action.equal_schemes@,
            outside::lower_case(other),
        ),
        0 <= i < paths.len(),
        paths[i] == joined(other, rest),
        entry.path@ == joined(scheme, rest),
    ensures
        action.verdict(paths, entry) is Referenced,
{
    lemma_canonical_of_join(action, scheme, rest);
    lemma_canonical_of_join(action, other, rest);
    lemma_normalized_join(scheme, rest);
    lemma_normalized_join(other, rest);
    lemma_same_canonical_is_referenced(action, paths, i, entry);
}

proof fn lemma_first_slash(authority: Seq<char>, path: Seq<char>, from: int)
    requires
        !authority.contains('/'),
        path.len() == 0 || path[0] == '/',
        0 <= from <= authority.len(),
    ensures
        uri::first_slash(authority + path, from) == authority.len(),
    decreases authority.len() - from,
{
    if from < authority.len() {
        assert(authority.contains(authority[from]));
        assert((authority + path)[from] == authority[from]);
        lemma_first_slash(authority, path, from + 1);
    } else if path.len() > 0 {
        assert((authority + path)[from] == '/');
    }
}

proof fn lemma_split_authority(authority: Seq<char>, path: Seq<char>)
    requires
        !authority.contains('/'),
        path.len() == 0 || path[0] == '/',
    ensures
        uri::authority_of(authority + path) == authority,
        uri::path_of(authority + path) == path,
{
    lemma_first_slash(authority, path, 0);
    assert((authority + path).take(authority.len() as int) =~= authority);
    assert((authority + path).skip(authority.len() as int) =~= path);
}

proof fn lemma_trim_of_join(authority: Seq<char>, path: Seq<char>)
    requires
        !authority.contains('/'),
        path.len() == 0 || path[0] == '/',
    ensures
        uri::trim_slashes(authority + path) == authority + uri::trim_slashes(path),
        uri::trim_slashes(path).len() == 0 || uri::trim_slashes(path)[0] == '/',
    decreases path.len(),
{
    let all = authority + path;
    if path.len() == 0 {
        assert(all =~= authority);
        assert(uri::trim_slashes(path) =~= Seq::<char>::empty());
        if authority.len() > 0 {
            assert(authority.contains(authority.last()));
        }
        assert(authority + uri::trim_slashes(path) =~= authority);
    } else {
        assert(all.last() == path.last());
        if path.last() == '/' {
            assert(all.drop_last() =~= authority + path.drop_last());
            lemma_trim_of_join(authority, path.drop_last());
        }
    }
}

/// A file is not an orphan where the table refers to it under an equivalent scheme and
/// an equivalent authority: those that stand for the same.
pub proof fn law_equal_schemes_and_authorities(
    action: RemoveOrphanFiles,
    paths: Seq<Seq<char>>,
    i: int,
    entry: FileEntry,
    scheme: Seq<char>,
    other_scheme: Seq<char>,
    authority: Seq<char>,
    other: Seq<char>,
    path: Seq<char>,
)
    requires
        is_scheme(scheme),
        is_scheme(other_scheme),
        !authority.contains('/'),
        !other.contains('/'),
        path.len() == 0 || path[0] == '/',
        uri::resolved(action.equal_schemes@, outside::lower_case(scheme)) == uri::resolved(
            action.equal_schemes@,
            outside::lower_case(other_scheme),
        ),
        uri::resolved(action.equal_authorities@, authority) == uri::resolved(
            action.equal_authorities@,
            other,
        ),
        0 <= i < paths.len(),
        paths[i] == joined(other_scheme, other + path),
        entry.path@ == joined(scheme, authority + path),
    ensures
        action.verdict(paths, entry) is Referenced,
{
    let trimmed = uri::trim_slashes(path);
    lemma_canonical_of_join(action, scheme, authority + path);
    lemma_canonical_of_join(action, other_scheme, other + path);
    lemma_trim_of_join(authority, path);
    lemma_trim_of_join(other, path);
    lemma_split_authority(authority, trimmed);
    lemma_split_authority(other, trimmed);
    lemma_normalized_join(scheme, authority + path);
    lemma_normalized_join(other_scheme, other + path);
    lemma_same_canonical_is_referenced(action, paths, i, entry);
}

/// A file is not an orphan where the table refers to it under an equivalent authority:
/// one that stands for the same.
pub proof fn law_equal_authorities(
    action: RemoveOrphanFiles,
    paths: Seq<Seq<char>>,
    i: int,
    entry: FileEntry,
    scheme: Seq<char>,
    authority: Seq<char>,
    other: Seq<char>,
    path: Seq<char>,
)
    requires
        is_scheme(scheme),
        !authority.contains('/'),
        !other.contains('/'),
        path.len() == 0 || path[0] == '/',
        uri::resolved(action.equal_authorities@, authority) == uri::resolved(
            action.equal_authorities@,
            other,
        ),
        0 <= i < paths.len(),
        paths[i] == joined(scheme, other + path),
        entry.path@ == joined(scheme, authority + path),
    ensures
        action.verdict(paths, entry) is Referenced,
{
    law_equal_schemes_and_authorities(
        action,
        paths,
        i,
        entry,
        scheme,
        scheme,
        authority,
        other,
        path,
    );
}

/// Once two authorities have been declared equal, a file is not an orphan where the
/// table refers to it under either of them.
pub proof fn law_declared_authorities_name_the_same_file(
    before: RemoveOrphanFiles,
    action: RemoveOrphanFiles,
    paths: Seq<Seq<char>>,
    i: int,
    entry: FileEntry,
    scheme: Seq<char>,
    authority_alias: Seq<char>,
    canonical: Seq<char>,
    path: Seq<char>,
)
    requires
        is_scheme(scheme),
        !authority_alias.contains('/'),
        !canonical.contains('/'),
        path.len() == 0 || path[0] == '/',
        action.equal_authorities@ == uri::declared(
            before.equal_authorities@,
            authority_alias,
            canonical,
        ),
        0 <= i < paths.len(),
        (paths[i] == joined(scheme, canonical + path) && entry.path@ == joined(
            scheme,
            authority_alias + path,
        )) || (paths[i] == joined(scheme, authority_alias + path) && entry.path@ == joined(
            scheme,
            canonical + path,
        )),
    ensures
        action.verdict(paths, entry) is Referenced,
{
    let a = authority_alias;
    let c = canonical;
    uri::law_declared_texts_are_equivalent(before.equal_authorities@, a, c, a, c);
    if paths[i] == joined(scheme, c + path) && entry.path@ == joined(scheme, a + path) {
        law_equal_authorities(action, paths, i, entry, scheme, a, c, path);
    } else {
        law_equal_authorities(action, paths, i, entry, scheme, c, a, path);
    }
}

/// Once two schemes have been declared equal, a file is not an orphan where the table
/// refers to it under either of them.
pub proof fn law_declared_schemes_name_the_same_file(
    before: RemoveOrphanFiles,
    action: RemoveOrphanFiles,
    paths: Seq<Seq<char>>,
    i: int,
    entry: FileEntry,
    scheme_alias: Seq<char>,
    canonical: Seq<char>,
    rest: Seq<char>,
)
    requires
        is_scheme(scheme_alias),
        is_scheme(canonical),
        action.equal_schemes@ == uri::declared(
            before.equal_schemes@,
            outside::lower_case(scheme_alias),
            outside::lower_case(canonical),
        ),
        0 <= i < paths.len(),
        (paths[i] == joined(canonical, rest) && entry.path@ == joined(scheme_alias, rest)) || (
        paths[i] == joined(scheme_alias, rest) && entry.path@ == joined(canonical, rest)),
    ensures
        action.verdict(paths, entry) is Referenced,
{
    let a = outside::lower_case(scheme_alias);
    let c = outside::lower_case(canonical);
    uri::law_declared_texts_are_equivalent(before.equal_schemes@, a, c, a, c);
    if paths[i] == joined(canonical, rest) && entry.path@ == joined(scheme_alias, rest) {
        law_equal_schemes(action, paths, i, entry, scheme_alias, canonical, rest);
    } else {
        law_equal_schemes(action, paths, i, entry, canonical, scheme_alias, rest);
    }
}

proof fn lemma_first_slash_within(a: Seq<char>, p: Seq<char>, from: int)
    requires
        0 <= from <= a.len(),
        p.len() == 0 || p[0] == '/',
    ensures
        uri::first_slash(a + p, from) == uri::first_slash(a, from),
    decreases a.len() - from,
{
    if from < a.len() {
        assert((a + p)[from] == a[from]);
        if a[from] != '/' {
            lemma_first_slash_within(a, p, from + 1);
        }
    } else if p.len() > 0 {
        assert((a + p)[from] == '/');
    }
}

proof fn lemma_first_separator_within(s: Seq<char>, p: Seq<char>, from: int)
    requires
        0 <= from,
        uri::first_separator(s, from) is Some,
    ensures
        uri::first_separator(s + p, from) == uri::first_separator(s, from),
        from <= uri::first_separator(s, from)->0,
        uri::first_separator(s, from)->0 + 3 <= s.len(),
    decreases s.len() - from,
{
    assert((s + p)[from] == s[from] && (s + p)[from + 1] == s[from + 1] && (s + p)[from + 2]
        == s[from + 2]);
    if !uri::separator_at(s, from) {
        lemma_first_separator_within(s, p, from + 1);
    }
}

/// The scheme and authority do not depend on the path.
proof fn lemma_prefix_without_path(start: Seq<char>, path: Seq<char>)
    requires
        uri::first_separator(start, 0) is Some,
        path.len() == 0 || path[0] == '/',
    ensures
        uri::scheme_authority(start + path) == uri::scheme_authority(start),
{
    lemma_first_separator_within(start, path, 0);
    let k = uri::first_separator(start, 0)->0;
    let rest = start.skip(k + 3);
    assert((start + path).take(k) =~= start.take(k));
    assert((start + path).skip(k + 3) =~= rest + path);
    lemma_first_slash_within(rest, path, 0);
    uri::lemma_first_slash_bounds(rest, 0);
    assert((rest + path).take(uri::first_slash(rest, 0)) =~= rest.take(
        uri::first_slash(rest, 0),
    ));
}

proof fn lemma_path_has_leading_slash(rest: Seq<char>, from: int)
    requires
        0 <= from <= rest.len(),
    ensures
        uri::first_slash(rest, from) < rest.len() ==> rest[uri::first_slash(rest, from)] == '/',
    decreases rest.len() - from,
{
    if from < rest.len() && rest[from] != '/' {
        lemma_path_has_leading_slash(rest, from + 1);
    }
}

proof fn lemma_separator_found(s: Seq<char>, from: int, k: int)
    requires
        0 <= from <= k,
        uri::separator_at(s, k),
    ensures
        uri::first_separator(s, from) is Some,
    decreases k - from,
{
    if !uri::separator_at(s, from) {
        lemma_separator_found(s, from + 1, k);
    }
}

proof fn lemma_canonical_prefix_of_join(
    action: RemoveOrphanFiles,
    scheme: Seq<char>,
    rest: Seq<char>,
)
    requires
        is_scheme(scheme),
    ensures
        action.has_equivalences() ==> action.canonical_prefix(
            uri::normalized(joined(scheme, rest)),
        ) == uri::scheme_authority(
            joined(
                uri::resolved(action.equal_schemes@, outside::lower_case(scheme)),
                uri::resolved(action.equal_authorities@, uri::authority_of(rest)),
            ),
        ),
{
    let lower = outside::lower_case(scheme);
    let trimmed = uri::trim_slashes(rest);
    let whole = joined(scheme, rest);
    lemma_canonical_of_join(action, scheme, rest);
    uri::lemma_authority_of_trimmed(rest);
    let s = uri::resolved(action.equal_schemes@, lower);
    let a = uri::resolved(action.equal_authorities@, uri::authority_of(rest));
    let start = joined(s, a);
    let path = uri::path_of(trimmed);
    uri::lemma_first_slash_bounds(trimmed, 0);
    lemma_path_has_leading_slash(trimmed, 0);
    assert(uri::separator_at(start, s.len() as int));
    lemma_separator_found(start, 0, s.len() as int);
    lemma_prefix_without_path(start, path);
}

/// A file is not foreign where its scheme and its authority are equivalent to those of
/// the location scanned.
pub proof fn law_equivalent_prefix_is_not_foreign(
    action: RemoveOrphanFiles,
    path: Seq<char>,
    scheme: Seq<char>,
    rest: Seq<char>,
    location_scheme: Seq<char>,
    location_rest: Seq<char>,
)
    requires
        is_scheme(scheme),
        is_scheme(location_scheme),
        path == joined(scheme, rest),
        action.scan_location() == joined(location_scheme, location_rest),
        uri::resolved(action.equal_schemes@, outside::lower_case(scheme)) == uri::resolved(
            action.equal_schemes@,
            outside::lower_case(location_scheme),
        ),
        uri::resolved(action.equal_authorities@, uri::authority_of(rest)) == uri::resolved(
            action.equal_authorities@,
            uri::authority_of(location_rest),
        ),
    ensures
        !action.is_foreign(path),
{
    lemma_canonical_prefix_of_join(action, scheme, rest);
    lemma_canonical_prefix_of_join(action, location_scheme, location_rest);
    if !action.has_equivalences() {
        uri::law_split_of_join(scheme, rest);
        uri::law_split_of_join(location_scheme, location_rest);
        uri::law_normalizing_keeps_scheme_and_authority(path);
    }
}

/// The locations of the orphans among files in storage.
pub open spec fn orphans_among(
    action: RemoveOrphanFiles,
    paths: Seq<Seq<char>>,
    files: Seq<FileEntry>,
) -> Seq<Seq<char>>
    decreases files.len(),
{
    if files.len() == 0 {
        Seq::empty()
    } else {
        let before = orphans_among(action, paths, files.drop_last());
        if action.verdict(paths, files.last()) is Orphan {
            before.push(files.last().path@)
        } else {
            before
        }
    }
}

/// Scanning one file after the other finds the orphans among them.
pub proof fn law_scan_finds_orphans(
    action: RemoveOrphanFiles,
    paths: Seq<Seq<char>>,
    files: Seq<FileEntry>,
    scan: OrphanScan,
    next: FileEntry,
    step: OrphanStep,
)
    requires
        scan.run.action == action,
        seqs::texts(scan.run.paths@) == paths,
        seqs::texts(scan.orphans@) == orphans_among(action, paths, files),
        remove_orphan_files::scan_goes_on(scan, next, step),
        step is NextFile,
    ensures
        seqs::texts(step->NextFile_0.orphans@) == orphans_among(action, paths, files.push(next)),
        step->NextFile_0.run.action == action,
        seqs::texts(step->NextFile_0.run.paths@) == paths,
{
    assert(files.push(next).drop_last() =~= files);
}

/// The orphans that a run reports when it ends or goes on to delete them.
pub open spec fn reported(step: OrphanStep) -> Option<Seq<Seq<char>>> {
    match step {
        OrphanStep::Finished(Ok(result)) => Some(seqs::texts(result.orphan_file_locations@)),
        OrphanStep::Delete(result) => Some(seqs::texts(result.orphan_file_locations@)),
        _ => None,
    }
}

/// Once all files have been scanned, the run reports the orphans among them, and deletes
/// them unless it is a dry run.
pub proof fn law_run_reports_orphans(
    action: RemoveOrphanFiles,
    paths: Seq<Seq<char>>,
    files: Seq<FileEntry>,
    scan: OrphanScan,
    step: OrphanStep,
)
    requires
        scan.run.action == action,
        seqs::texts(scan.orphans@) == orphans_among(action, paths, files),
        remove_orphan_files::scan_ends(scan, step),
    ensures
        reported(step) == Some(orphans_among(action, paths, files)),
        step is Delete <==> !action.dry_run,
{
}

/// A dry run finds the same orphans: what is referenced and what is an orphan does not
/// depend on whether files are to be deleted.
pub proof fn law_dry_run_finds_the_same(
    action: RemoveOrphanFiles,
    dry_run: bool,
    storage: Storage,
    n: nat,
    paths: Seq<Seq<char>>,
    files: Seq<FileEntry>,
)
    ensures
        reads_after((RemoveOrphanFiles { dry_run, ..action }), storage, n) == reads_after(
            action,
            storage,
            n,
        ),
        orphans_among((RemoveOrphanFiles { dry_run, ..action }), paths, files) == orphans_among(
            action,
            paths,
            files,
        ),
{
    lemma_reads_without_settings(
        action,
        (RemoveOrphanFiles { dry_run, ..action }),
        storage,
        n,
    );
    lemma_orphans_of_same_verdicts(
        action,
        (RemoveOrphanFiles { dry_run, ..action }),
        paths,
        files,
    );
}

proof fn lemma_reads_without_settings(
    action: RemoveOrphanFiles,
    other: RemoveOrphanFiles,
    storage: Storage,
    n: nat,
)
    requires
        other.table == action.table,
    ensures
        reads_after(other, storage, n) == reads_after(action, storage, n),
    decreases n,
{
    if n > 0 {
        lemma_reads_without_settings(action, other, storage, (n - 1) as nat);
    }
}

proof fn lemma_orphans_of_same_verdicts(
    action: RemoveOrphanFiles,
    other: RemoveOrphanFiles,
    paths: Seq<Seq<char>>,
    files: Seq<FileEntry>,
)
    requires
        other == (RemoveOrphanFiles { dry_run: other.dry_run, ..action }),
    ensures
        orphans_among(other, paths, files) == orphans_among(action, paths, files),
    decreases files.len(),
{
    if files.len() > 0 {
        lemma_orphans_of_same_verdicts(action, other, paths, files.drop_last());
        lemma_same_references(action, other, paths, files.last().path@);
    }
}

proof fn lemma_same_references(
    action: RemoveOrphanFiles,
    other: RemoveOrphanFiles,
    paths: Seq<Seq<char>>,
    path: Seq<char>,
)
    requires
        other.equal_schemes == action.equal_schemes,
        other.equal_authorities == action.equal_authorities,
    ensures
        other.is_referenced(paths, path) == action.is_referenced(paths, path),
{
    let normalized = uri::normalized(path);
    assert forall|n: Seq<char>| other.names(paths, n) == action.names(paths, n) by {
        if action.names(paths, n) {
            let i = choose|i: int| 0 <= i < paths.len() && action.stands_for(n, #[trigger] paths[i]);
            assert(other.stands_for(n, paths[i]));
        }
        if other.names(paths, n) {
            let i = choose|i: int| 0 <= i < paths.len() && other.stands_for(n, #[trigger] paths[i]);
            assert(action.stands_for(n, paths[i]));
        }
    }
}

/// Whether `part` is what `whole` has at the positions `at`, which rise.
pub open spec fn picks(part: Seq<Seq<char>>, whole: Seq<Seq<char>>, at: Seq<int>) -> bool {
    &&& at.len() == part.len()
    &&& forall|i: int|
        0 <= i < at.len() ==> 0 <= #[trigger] at[i] < whole.len() && whole[at[i]] == part[i]
    &&& forall|i: int, j: int| 0 <= i < j < at.len() ==> #[trigger] at[i] < #[trigger] at[j]
}

/// Whether `part` is `whole` with some texts left out.
pub open spec fn is_subsequence(part: Seq<Seq<char>>, whole: Seq<Seq<char>>) -> bool {
    exists|at: Seq<int>| picks(part, whole, at)
}

/// A later threshold finds no fewer orphans, and an earlier one only leaves some out:
/// what is found under the earlier one is what is found under the later one, in the same
/// order, with some left out.
pub proof fn law_later_threshold_finds_no_fewer(
    action: RemoveOrphanFiles,
    later: Timestamp,
    paths: Seq<Seq<char>>,
    files: Seq<FileEntry>,
)
    requires
        later.nanos >= action.older_than.nanos,
    ensures
        is_subsequence(
            orphans_among(action, paths, files),
            orphans_among((RemoveOrphanFiles { older_than: later, ..action }), paths, files),
        ),
        orphans_among(action, paths, files).len() <= orphans_among(
            (RemoveOrphanFiles { older_than: later, ..action }),
            paths,
            files,
        ).len(),
{
    let at = lemma_later_threshold(action, later, paths, files);
    assert(picks(
        orphans_among(action, paths, files),
        orphans_among((RemoveOrphanFiles { older_than: later, ..action }), paths, files),
        at,
    ));
}

proof fn lemma_later_threshold(
    action: RemoveOrphanFiles,
    later: Timestamp,
    paths: Seq<Seq<char>>,
    files: Seq<FileEntry>,
) -> (at: Seq<int>)
    requires
        later.nanos >= action.older_than.nanos,
    ensures
        picks(
            orphans_among(action, paths, files),
            orphans_among((RemoveOrphanFiles { older_than: later, ..action }), paths, files),
            at,
        ),
        orphans_among(action, paths, files).len() <= orphans_among(
            (RemoveOrphanFiles { older_than: later, ..action }),
            paths,
            files,
        ).len(),
    decreases files.len(),
{
    let other = RemoveOrphanFiles { older_than: later, ..action };
    if files.len() == 0 {
        Seq::empty()
    } else {
        let front = files.drop_last();
        let before = lemma_later_threshold(action, later, paths, front);
        lemma_same_references(action, other, paths, files.last().path@);
        if action.verdict(paths, files.last()) is Orphan {
            before.push(orphans_among(other, paths, front).len() as int)
        } else {
            before
        }
    }
}

/// Whether the table refers to the file at `path`, taking its first `n` snapshots
/// into account: the metadata names it, or it is the manifest list of a snapshot, or
/// a manifest in such a list, or a file in such a manifest.
pub open spec fn refers_to(
    action: RemoveOrphanFiles,
    storage: Storage,
    n: int,
    path: Seq<char>,
) -> bool {
    ||| action.metadata_paths().contains(path)
    ||| action.manifest_lists().take(n).contains(path)
    ||| storage.listed(action.manifest_lists(), n, path)
    ||| exists|p: Seq<char>|
        storage.listed(action.manifest_lists(), n, p) && #[trigger] seqs::entry_paths(
            (storage.manifests)(p),
        ).contains(path)
}

/// What has been read agrees with what storage holds.
pub open spec fn agrees(action: RemoveOrphanFiles, reads: OrphanReads, storage: Storage) -> bool {
    let lists = action.manifest_lists();
    let n = reads.lists_read as int;
    &&& n <= lists.len()
    &&& forall|x: Seq<char>| #[trigger]
        reads.paths.contains(x) ==> refers_to(action, storage, n, x)
    &&& forall|x: Seq<char>| #[trigger]
        action.metadata_paths().contains(x) ==> reads.paths.contains(x)
    &&& forall|x: Seq<char>| #[trigger] lists.take(n).contains(x) ==> reads.paths.contains(x)
    &&& forall|p: Seq<char>| #[trigger]
        storage.listed(lists, n, p) ==> reads.paths.contains(p) && (reads.queue.contains(p)
            || covers(reads.paths, seqs::entry_paths((storage.manifests)(p))))
    &&& forall|p: Seq<char>| #[trigger]
        reads.queue.contains(p) ==> storage.listed(lists, n, p)
}

/// Every path of `some` is in `all`.
pub open spec fn covers(all: Seq<Seq<char>>, some: Seq<Seq<char>>) -> bool {
    forall|x: Seq<char>| #[trigger] some.contains(x) ==> all.contains(x)
}

/// Before anything has been read, the reads agree with whatever storage holds.
pub proof fn law_start_agrees(action: RemoveOrphanFiles, storage: Storage)
    ensures
        agrees(action, OrphanReads::start(action), storage),
{
    assert(action.manifest_lists().take(0) =~= Seq::<Seq<char>>::empty());
}

/// Reading the next manifest list keeps the reads in agreement with storage.
pub proof fn law_list_step_agrees(action: RemoveOrphanFiles, reads: OrphanReads, storage: Storage)
    requires
        agrees(action, reads, storage),
        reads.queue.len() == 0,
        reads.lists_read < action.manifest_lists().len(),
    ensures
        agrees(
            action,
            reads.with_list(
                action,
                (storage.lists)(action.manifest_lists()[reads.lists_read as int]),
            ),
            storage,
        ),
{
    let lists = action.manifest_lists();
    let n = reads.lists_read as int;
    let manifests = (storage.lists)(lists[n]);
    let listed = seqs::manifest_paths(manifests);
    let after = reads.with_list(action, manifests);
    let pushed = reads.paths.push(lists[n]);
    assert(lists.take(n + 1) =~= lists.take(n).push(lists[n]));
    assert forall|x: Seq<char>| #[trigger]
        after.paths.contains(x) <==> reads.paths.contains(x) || x == lists[n] || listed.contains(
            x,
        ) by {
        seqs::lemma_add_contains(pushed, listed, x);
        seqs::lemma_push_contains(reads.paths, lists[n], x);
    }
    assert forall|x: Seq<char>| #[trigger] after.paths.contains(x) implies refers_to(
        action,
        storage,
        n + 1,
        x,
    ) by {
        storage::lemma_listed_step(storage, lists, n, x);
        seqs::lemma_push_contains(lists.take(n), lists[n], x);
        if reads.paths.contains(x) {
            if exists|p: Seq<char>|
                storage.listed(lists, n, p) && #[trigger] seqs::entry_paths(
                    (storage.manifests)(p),
                ).contains(x) {
                let p = choose|p: Seq<char>|
                    storage.listed(lists, n, p) && #[trigger] seqs::entry_paths(
                        (storage.manifests)(p),
                    ).contains(x);
                storage::lemma_listed_step(storage, lists, n, p);
                assert(seqs::entry_paths((storage.manifests)(p)).contains(x));
            }
        }
    }
    assert forall|x: Seq<char>| #[trigger] lists.take(n + 1).contains(x) implies
        after.paths.contains(x) by {
        seqs::lemma_push_contains(lists.take(n), lists[n], x);
        assert(lists.take(n).contains(x) ==> reads.paths.contains(x));
    }
    assert forall|p: Seq<char>| #[trigger] storage.listed(lists, n + 1, p) implies
        after.paths.contains(p) && (after.queue.contains(p) || covers(
        after.paths,
        seqs::entry_paths((storage.manifests)(p)),
    )) by {
        storage::lemma_listed_step(storage, lists, n, p);
        if storage.listed(lists, n, p) {
            assert(!reads.queue.contains(p));
            assert(covers(reads.paths, seqs::entry_paths((storage.manifests)(p))));
        }
    }
    assert forall|p: Seq<char>| #[trigger] after.queue.contains(p) implies storage.listed(
        lists,
        n + 1,
        p,
    ) by {
        storage::lemma_listed_step(storage, lists, n, p);
    }
}

/// Reading the next manifest keeps the reads in agreement with storage.
pub proof fn law_manifest_step_agrees(
    action: RemoveOrphanFiles,
    reads: OrphanReads,
    storage: Storage,
)
    requires
        agrees(action, reads, storage),
        reads.queue.len() > 0,
    ensures
        agrees(action, reads.with_entries((storage.manifests)(reads.queue[0])), storage),
{
    let lists = action.manifest_lists();
    let n = reads.lists_read as int;
    let first = reads.queue[0];
    let found = seqs::entry_paths((storage.manifests)(first));
    let after = reads.with_entries((storage.manifests)(first));
    assert(reads.queue.contains(first));
    assert forall|x: Seq<char>| #[trigger]
        after.paths.contains(x) <==> reads.paths.contains(x) || found.contains(x) by {
        seqs::lemma_add_contains(reads.paths, found, x);
    }
    assert forall|x: Seq<char>| #[trigger] after.paths.contains(x) implies refers_to(
        action,
        storage,
        n,
        x,
    ) by {
        if found.contains(x) {
            assert(seqs::entry_paths((storage.manifests)(first)).contains(x));
        }
    }
    assert forall|p: Seq<char>| #[trigger] storage.listed(lists, n, p) implies
        after.paths.contains(p) && (after.queue.contains(p) || covers(
        after.paths,
        seqs::entry_paths((storage.manifests)(p)),
    )) by {
        if reads.queue.contains(p) && p != first {
            let i = choose|i: int| 0 <= i < reads.queue.len() && reads.queue[i] == p;
            assert(after.queue[i - 1] == p);
        }
    }
    assert forall|p: Seq<char>| #[trigger] after.queue.contains(p) implies storage.listed(
        lists,
        n,
        p,
    ) by {
        let i = choose|i: int| 0 <= i < after.queue.len() && after.queue[i] == p;
        assert(reads.queue[i + 1] == p);
        assert(reads.queue.contains(p));
    }
}

/// Once everything has been read, the files known to be referenced are exactly those
/// to which the table refers.
pub proof fn law_reads_are_complete(
    action: RemoveOrphanFiles,
    reads: OrphanReads,
    storage: Storage,
    path: Seq<char>,
)
    requires
        agrees(action, reads, storage),
        reads.queue.len() == 0,
        reads.lists_read == action.manifest_lists().len(),
    ensures
        reads.paths.contains(path) <==> refers_to(
            action,
            storage,
            action.manifest_lists().len() as int,
            path,
        ),
{
    let lists = action.manifest_lists();
    let n = lists.len() as int;
    if exists|p: Seq<char>|
        storage.listed(lists, n, p) && #[trigger] seqs::entry_paths(
            (storage.manifests)(p),
        ).contains(path) {
        let p = choose|p: Seq<char>|
            storage.listed(lists, n, p) && #[trigger] seqs::entry_paths(
                (storage.manifests)(p),
            ).contains(path);
        assert(!reads.queue.contains(p));
        assert(seqs::entry_paths((storage.manifests)(p)).contains(path));
    }
}

/// No file to which the table refers is ever found to be an orphan.
pub proof fn law_live_files_are_kept(
    action: RemoveOrphanFiles,
    reads: OrphanReads,
    storage: Storage,
    entry: FileEntry,
)
    requires
        agrees(action, reads, storage),
        reads.queue.len() == 0,
        reads.lists_read == action.manifest_lists().len(),
        refers_to(action, storage, action.manifest_lists().len() as int, entry.path@),
    ensures
        action.verdict(reads.paths, entry) is Referenced,
{
    law_reads_are_complete(action, reads, storage, entry.path@);
    let i = choose|i: int| 0 <= i < reads.paths.len() && reads.paths[i] == entry.path@;
    law_referenced_files_are_kept(action, reads.paths, i, entry);
}

/// Whether everything has been read.
pub open spec fn is_complete(action: RemoveOrphanFiles, reads: OrphanReads) -> bool {
    &&& reads.queue.len() == 0
    &&& reads.lists_read >= action.manifest_lists().len()
}

/// What has been read after `n` reads from storage.
pub open spec fn reads_after(action: RemoveOrphanFiles, storage: Storage, n: nat) -> OrphanReads
    decreases n,
{
    if n == 0 {
        OrphanReads::start(action)
    } else {
        let before = reads_after(action, storage, (n - 1) as nat);
        if before.queue.len() > 0 {
            before.with_entries((storage.manifests)(before.queue[0]))
        } else if !is_complete(action, before) {
            before.with_list(
                action,
                (storage.lists)(action.manifest_lists()[before.lists_read as int]),
            )
        } else {
            before
        }
    }
}

/// At any time in a run, what has been read agrees with what storage holds.
pub proof fn law_every_run_agrees(action: RemoveOrphanFiles, storage: Storage, n: nat)
    ensures
        agrees(action, reads_after(action, storage, n), storage),
    decreases n,
{
    if n == 0 {
        law_start_agrees(action, storage);
    } else {
        law_every_run_agrees(action, storage, (n - 1) as nat);
        let before = reads_after(action, storage, (n - 1) as nat);
        if before.queue.len() > 0 {
            law_manifest_step_agrees(action, before, storage);
        } else if !is_complete(action, before) {
            law_list_step_agrees(action, before, storage);
        }
    }
}

/// Every run comes to the listing of the files.
pub proof fn law_every_run_reads_all(action: RemoveOrphanFiles, storage: Storage) -> (n: nat)
    ensures
        is_complete(action, reads_after(action, storage, n)),
{
    lemma_run_reads_all_from(action, storage, 0)
}

proof fn lemma_run_reads_all_from(action: RemoveOrphanFiles, storage: Storage, n: nat) -> (m: nat)
    ensures
        is_complete(action, reads_after(action, storage, m)),
    decreases
            action.manifest_lists().len() - reads_after(action, storage, n).lists_read,
            reads_after(action, storage, n).queue.len(),
{
    let reads = reads_after(action, storage, n);
    law_every_run_agrees(action, storage, n);
    if is_complete(action, reads) {
        n
    } else {
        law_every_run_agrees(action, storage, n + 1);
        lemma_run_reads_all_from(action, storage, n + 1)
    }
}

/// No run finds a file to be an orphan to which the table refers.
pub proof fn law_every_run_keeps_live_files(
    action: RemoveOrphanFiles,
    storage: Storage,
    n: nat,
    entry: FileEntry,
)
    requires
        is_complete(action, reads_after(action, storage, n)),
        refers_to(action, storage, action.manifest_lists().len() as int, entry.path@),
    ensures
        action.verdict(reads_after(action, storage, n).paths, entry) is Referenced,
{
    law_every_run_agrees(action, storage, n);
    law_live_files_are_kept(action, reads_after(action, storage, n), storage, entry);
}

/// Whether one of the statistics files is at `path`.
pub open spec fn is_statistics_path(files: Seq<StatisticsFile>, path: Seq<char>) -> bool {
    exists|i: int| 0 <= i < files.len() && (#[trigger] files[i]).statistics_path@ == path
}

/// Whether the table mentions the file at `path`: it is its metadata file or an earlier
/// one, a statistics file, the manifest list of a snapshot, a manifest of such a list, or
/// a file with an entry, of whatever status, in such a manifest.
pub open spec fn mentions(table: Table, storage: Storage, path: Seq<char>) -> bool {
    let metadata = table.metadata;
    let all = metadata.snapshots@;
    ||| table.metadata_location is Some && table.metadata_location->0@ == path
    ||| exists|i: int|
        0 <= i < metadata.metadata_log@.len() && (#[trigger] metadata.metadata_log@[i])@ == path
    ||| is_statistics_path(metadata.statistics@, path)
    ||| is_statistics_path(metadata.partition_statistics@, path)
    ||| exists|i: int| 0 <= i < all.len() && (#[trigger] all[i]).manifest_list@ == path
    ||| exists|i: int|
        0 <= i < all.len() && storage.lists_manifest((#[trigger] all[i]).manifest_list@, path)
    ||| exists|i: int|
        0 <= i < all.len() && storage.list_enters((#[trigger] all[i]).manifest_list@, path)
}

proof fn lemma_statistics_path(files: Seq<StatisticsFile>, path: Seq<char>)
    ensures
        seqs::statistics_paths(files).contains(path) <==> is_statistics_path(files, path),
{
    let paths = seqs::statistics_paths(files);
    if paths.contains(path) {
        let i = choose|i: int| 0 <= i < paths.len() && paths[i] == path;
        assert(files[i].statistics_path@ == path);
    }
    if is_statistics_path(files, path) {
        let i = choose|i: int| 0 <= i < files.len() && (#[trigger] files[i]).statistics_path@ == path;
        assert(paths[i] == path);
    }
}

proof fn lemma_metadata_paths(action: RemoveOrphanFiles, path: Seq<char>)
    ensures
        action.metadata_paths().contains(path) <==> {
            let metadata = action.table.metadata;
            ||| action.table.metadata_location is Some && action.table.metadata_location->0@ == path
            ||| exists|i: int|
                0 <= i < metadata.metadata_log@.len() && (#[trigger] metadata.metadata_log@[i])@
                    == path
            ||| is_statistics_path(metadata.statistics@, path)
            ||| is_statistics_path(metadata.partition_statistics@, path)
        },
{
    let metadata = action.table.metadata;
    let own = action.metadata_file();
    let log = seqs::texts(metadata.metadata_log@);
    let s = seqs::statistics_paths(metadata.statistics@);
    let t = seqs::statistics_paths(metadata.partition_statistics@);
    seqs::lemma_add_contains(own + log + s, t, path);
    seqs::lemma_add_contains(own + log, s, path);
    seqs::lemma_add_contains(own, log, path);
    lemma_statistics_path(metadata.statistics@, path);
    lemma_statistics_path(metadata.partition_statistics@, path);
    if action.table.metadata_location is Some {
        assert(own[0] == action.table.metadata_location->0@);
    }
    if log.contains(path) {
        let i = choose|i: int| 0 <= i < log.len() && log[i] == path;
        assert(metadata.metadata_log@[i]@ == path);
    }
    if exists|i: int|
        0 <= i < metadata.metadata_log@.len() && (#[trigger] metadata.metadata_log@[i])@ == path {
        let i = choose|i: int|
            0 <= i < metadata.metadata_log@.len() && (#[trigger] metadata.metadata_log@[i])@ == path;
        assert(log[i] == path);
    }
}

proof fn lemma_refers_to(action: RemoveOrphanFiles, storage: Storage, path: Seq<char>)
    ensures
        refers_to(action, storage, action.manifest_lists().len() as int, path) <==> mentions(
            *action.table,
            storage,
            path,
        ),
{
    let all = action.table.metadata.snapshots@;
    let lists = action.manifest_lists();
    let n = lists.len() as int;
    lemma_metadata_paths(action, path);
    assert(lists.take(n) =~= lists);
    storage::lemma_listed_in(storage, lists, path);
    storage::lemma_entered_in(storage, lists, path);
    assert(forall|i: int| 0 <= i < all.len() ==> (#[trigger] all[i]).manifest_list@ == lists[i]);
    if lists.contains(path) {
        let i = choose|i: int| 0 <= i < lists.len() && lists[i] == path;
        assert(all[i].manifest_list@ == path);
    }
    if storage.listed(lists, n, path) {
        let i = choose|i: int|
            0 <= i < lists.len() && storage.lists_manifest(#[trigger] lists[i], path);
        assert(storage.lists_manifest(all[i].manifest_list@, path));
    }
    if exists|i: int|
        0 <= i < all.len() && storage.lists_manifest((#[trigger] all[i]).manifest_list@, path) {
        let i = choose|i: int|
            0 <= i < all.len() && storage.lists_manifest((#[trigger] all[i]).manifest_list@, path);
        assert(storage.lists_manifest(lists[i], path));
    }
    if exists|p: Seq<char>|
        storage.listed(lists, n, p) && #[trigger] seqs::entry_paths(
            (storage.manifests)(p),
        ).contains(path) {
        let p = choose|p: Seq<char>|
            storage.listed(lists, n, p) && #[trigger] seqs::entry_paths(
                (storage.manifests)(p),
            ).contains(path);
        storage::lemma_listed_in(storage, lists, p);
        storage::lemma_entry_paths((storage.manifests)(p), path);
        let i = choose|i: int|
            0 <= i < lists.len() && storage.lists_manifest(#[trigger] lists[i], p);
        assert(storage.enters(p, path));
        assert(storage.list_enters(all[i].manifest_list@, path));
    }
    if exists|i: int|
        0 <= i < all.len() && storage.list_enters((#[trigger] all[i]).manifest_list@, path) {
        let i = choose|i: int|
            0 <= i < all.len() && storage.list_enters((#[trigger] all[i]).manifest_list@, path);
        let p = choose|p: Seq<char>| #[trigger]
            storage.lists_manifest(all[i].manifest_list@, p) && storage.enters(p, path);
        assert(storage.lists_manifest(lists[i], p));
        storage::lemma_listed_in(storage, lists, p);
        storage::lemma_entry_paths((storage.manifests)(p), path);
        assert(seqs::entry_paths((storage.manifests)(p)).contains(path));
    }
}

/// When a run comes to list the files in storage, it knows exactly the files that the
/// table mentions.
pub proof fn law_run_knows_what_the_table_mentions(
    action: RemoveOrphanFiles,
    storage: Storage,
    n: nat,
    step: OrphanStep,
    path: Seq<char>,
)
    requires
        remove_orphan_files::continues(action, reads_after(action, storage, n), step),
        step is OpenListing,
    ensures
        step->OpenListing_0.run.action == action,
        mentions(*action.table, storage, path) <==> exists|k: int|
            0 <= k < step->OpenListing_0.run.paths@.len() && (
            #[trigger] step->OpenListing_0.run.paths@[k])@ == path,
{
    let reads = reads_after(action, storage, n);
    let run = step->OpenListing_0.run;
    law_every_run_agrees(action, storage, n);
    law_reads_are_complete(action, reads, storage, path);
    lemma_refers_to(action, storage, path);
    let paths = seqs::texts(run.paths@);
    assert(reads.paths == paths);
    if paths.contains(path) {
        let k = choose|k: int| 0 <= k < paths.len() && paths[k] == path;
        assert(run.paths@[k]@ == path);
    }
    if exists|k: int| 0 <= k < run.paths@.len() && (#[trigger] run.paths@[k])@ == path {
        let k = choose|k: int| 0 <= k < run.paths@.len() && (#[trigger] run.paths@[k])@ == path;
        assert(paths[k] == path);
    }
}

/// Every run comes to list the files in storage, whatever storage holds.
pub proof fn law_every_run_comes_to_list(action: RemoveOrphanFiles, storage: Storage) -> (n: nat)
    ensures
        forall|step: OrphanStep|
            remove_orphan_files::continues(action, reads_after(action, storage, n), step)
                ==> #[trigger] (step is OpenListing),
{
    law_every_run_reads_all(action, storage)
}

/// Whether two paths lead to the same file: their normal forms are equal or, where
/// equivalences have been declared, one form of the one is a form of the other.
pub open spec fn is_same_file(action: RemoveOrphanFiles, a: Seq<char>, b: Seq<char>) -> bool {
    let m = uri::normalized(a);
    let n = uri::normalized(b);
    let declared = action.equal_schemes.pairs@.len() > 0 || action.equal_authorities.pairs@.len()
        > 0;
    let canonical_m = uri::canonical(action.equal_schemes@, action.equal_authorities@, m);
    let canonical_n = uri::canonical(action.equal_schemes@, action.equal_authorities@, n);
    ||| m == n
    ||| declared && (canonical_m == canonical_n || m == canonical_n || canonical_m == n)
}

/// Whether the prefix of `path` is another than that of the location scanned, both as
/// they are and under the equivalences declared; one of them having none does not count.
pub open spec fn has_other_prefix(action: RemoveOrphanFiles, path: Seq<char>) -> bool {
    let location = match action.location {
        Some(l) => l@,
        None => action.table.metadata.location@,
    };
    let declared = action.equal_schemes.pairs@.len() > 0 || action.equal_authorities.pairs@.len()
        > 0;
    let m = uri::normalized(path);
    let n = uri::normalized(location);
    let canonical_m = uri::canonical(action.equal_schemes@, action.equal_authorities@, m);
    let canonical_n = uri::canonical(action.equal_schemes@, action.equal_authorities@, n);
    &&& uri::scheme_authority(location) is Some
    &&& uri::scheme_authority(m) is Some
    &&& uri::scheme_authority(location) != uri::scheme_authority(m)
    &&& if declared {
        uri::scheme_authority(canonical_m) != uri::scheme_authority(canonical_n)
    } else {
        uri::scheme_authority(m) != uri::scheme_authority(n)
    }
}

/// Whether the file is known to have been modified at `older_than` or later.
pub open spec fn is_young(action: RemoveOrphanFiles, entry: FileEntry) -> bool {
    entry.last_modified is Some && entry.last_modified->0.nanos >= action.older_than.nanos
}

/// A scan adds a file to the orphans exactly where it is none of the files known, has no
/// other prefix than the location and is not young; a file with another prefix ends it
/// with an error unless such files are ignored; and otherwise it goes on with the
/// orphans it had. The files known stay as they are.
pub proof fn law_scan_judges(
    scan: OrphanScan,
    entry: FileEntry,
    step: OrphanStep,
)
    requires
        remove_orphan_files::scan_goes_on(scan, entry, step),
    ensures
        ({
            let action = scan.run.action;
            let known = exists|k: int|
                0 <= k < scan.run.paths@.len() && is_same_file(
                    action,
                    entry.path@,
                    (#[trigger] scan.run.paths@[k])@,
                );
            let other = has_other_prefix(action, entry.path@);
            if !known && other && action.prefix_mismatch_mode == PrefixMismatchMode::Error {
                let location = match action.location {
                    Some(l) => l@,
                    None => action.table.metadata.location@,
                };
                &&& step is Finished
                &&& step->Finished_0 is Err
                &&& step->Finished_0->Err_0.kind == ErrorKind::DataInvalid
                &&& step->Finished_0->Err_0.message@ == "Prefix mismatch: file '"@ + entry.path@
                    + "' has scheme/authority '"@ + uri::scheme_authority(
                    uri::normalized(entry.path@),
                )->0 + "' which differs from the table location '"@ + uri::scheme_authority(
                    location,
                )->0
                    + "'. Configure equal_schemes() or equal_authorities() to declare equivalences, or set prefix_mismatch_mode(Ignore) to skip such files."@
            } else {
                let next = step->NextFile_0;
                &&& step is NextFile
                &&& next.run.action == action
                &&& next.run.paths@.len() == scan.run.paths@.len()
                &&& forall|k: int|
                    0 <= k < scan.run.paths@.len() ==> (#[trigger] next.run.paths@[k])@
                        == scan.run.paths@[k]@
                &&& forall|k: int|
                    0 <= k < scan.orphans@.len() ==> (#[trigger] next.orphans@[k])@
                        == scan.orphans@[k]@
                &&& if !known && !other && !is_young(action, entry) {
                    next.orphans@.len() == scan.orphans@.len() + 1 && next.orphans@.last()@
                        == entry.path@
                } else {
                    next.orphans@.len() == scan.orphans@.len()
                }
            }
        }),
{
    let action = scan.run.action;
    let paths = seqs::texts(scan.run.paths@);
    let path = entry.path@;
    let m = uri::normalized(path);
    assert(action.equal_schemes@.len() == action.equal_schemes.pairs@.len());
    assert(action.equal_authorities@.len() == action.equal_authorities.pairs@.len());
    assert(paths.len() == scan.run.paths@.len());
    let known = exists|k: int|
        0 <= k < scan.run.paths@.len() && is_same_file(
            action,
            path,
            (#[trigger] scan.run.paths@[k])@,
        );
    assert(known <==> action.is_referenced(paths, path)) by {
        if known {
            let k = choose|k: int|
                0 <= k < scan.run.paths@.len() && is_same_file(
                    action,
                    path,
                    (#[trigger] scan.run.paths@[k])@,
                );
            assert(paths[k] == scan.run.paths@[k]@);
            assert(action.stands_for(action.comparable(m), paths[k]) || action.stands_for(
                m,
                paths[k],
            ));
        }
        if action.names(paths, action.comparable(m)) {
            let k = choose|k: int|
                0 <= k < paths.len() && action.stands_for(
                    action.comparable(m),
                    #[trigger] paths[k],
                );
            assert(is_same_file(action, path, scan.run.paths@[k]@));
        }
        if action.names(paths, m) {
            let k = choose|k: int| 0 <= k < paths.len() && action.stands_for(m, #[trigger] paths[k]);
            assert(is_same_file(action, path, scan.run.paths@[k]@));
        }
    }
    assert(has_other_prefix(action, path) <==> action.is_foreign(path));
    assert(is_young(action, entry) <==> action.is_too_recent(entry));
    if step is NextFile {
        let next = step->NextFile_0;
        let after = seqs::texts(next.run.paths@);
        let before = seqs::texts(scan.orphans@);
        let orphans = seqs::texts(next.orphans@);
        assert(after.len() == next.run.paths@.len());
        assert(before.len() == scan.orphans@.len());
        assert(orphans.len() == next.orphans@.len());
        assert forall|k: int| 0 <= k < scan.run.paths@.len() implies (
        #[trigger] next.run.paths@[k])@ == scan.run.paths@[k]@ by {
            assert(after[k] == paths[k]);
        }
        assert forall|k: int| 0 <= k < scan.orphans@.len() implies (#[trigger] next.orphans@[k])@
            == scan.orphans@[k]@ by {
            assert(orphans[k] == before[k]);
        }
        if orphans.len() > before.len() {
            assert(orphans.last() == path);
            assert(next.orphans@.last()@ == orphans[orphans.len() - 1]);
        }
    }
}

/// A scan begins with no orphans, and with the files known by then.
pub proof fn law_scan_begins_with_nothing(
    action: RemoveOrphanFiles,
    paths: Seq<Seq<char>>,
    step: OrphanStep,
)
    requires
        remove_orphan_files::scans(action, paths, Seq::empty(), step),
    ensures
        step is NextFile,
        step->NextFile_0.run.action == action,
        step->NextFile_0.orphans@.len() == 0,
        step->NextFile_0.run.paths@.len() == paths.len(),
        forall|k: int|
            0 <= k < paths.len() ==> (#[trigger] step->NextFile_0.run.paths@[k])@ == paths[k],
{
    let known = seqs::texts(step->NextFile_0.run.paths@);
    assert(known.len() == step->NextFile_0.run.paths@.len());
    assert(seqs::texts(step->NextFile_0.orphans@).len() == step->NextFile_0.orphans@.len());
    assert(forall|k: int|
        0 <= k < known.len() ==> (#[trigger] step->NextFile_0.run.paths@[k])@ == known[k]);
}

/// A file that the table mentions, under the very path, is no orphan.
pub proof fn law_mentioned_files_are_no_orphans(
    action: RemoveOrphanFiles,
    storage: Storage,
    n: nat,
    listing: OrphanStep,
    entry: FileEntry,
)
    requires
        remove_orphan_files::continues(action, reads_after(action, storage, n), listing),
        listing is OpenListing,
        mentions(*action.table, storage, entry.path@),
    ensures
        action.verdict(listing->OpenListing_0.run.reads().paths, entry) is Referenced,
{
    let run = listing->OpenListing_0.run;
    law_run_knows_what_the_table_mentions(action, storage, n, listing, entry.path@);
    let k = choose|k: int| 0 <= k < run.paths@.len() && (#[trigger] run.paths@[k])@ == entry.path@;
    assert(run.reads().paths[k] == entry.path@);
    law_referenced_files_are_kept(action, run.reads().paths, k, entry);
}

/// The files listed are those under the location set, or under that of the table where
/// none is set.
pub proof fn law_where_files_are_listed(action: RemoveOrphanFiles)
    ensures
        action.location is Some ==> action.scan_location() == action.location->0@,
        action.location is None ==> action.scan_location() == action.table.metadata.location@,
{
}

/// No metadata file is an orphan, neither the current one nor any in the log of earlier
/// ones, and no statistics file of the table.
pub proof fn law_metadata_files_are_no_orphans(
    action: RemoveOrphanFiles,
    storage: Storage,
    n: nat,
    listing: OrphanStep,
    entry: FileEntry,
    i: int,
)
    requires
        remove_orphan_files::continues(action, reads_after(action, storage, n), listing),
        listing is OpenListing,
        ({
            let table = *action.table;
            let metadata = table.metadata;
            ||| table.metadata_location is Some && table.metadata_location->0@ == entry.path@
            ||| 0 <= i < metadata.metadata_log@.len() && metadata.metadata_log@[i]@ == entry.path@
            ||| 0 <= i < metadata.statistics@.len() && metadata.statistics@[i].statistics_path@
                == entry.path@
            ||| 0 <= i < metadata.partition_statistics@.len()
                && metadata.partition_statistics@[i].statistics_path@ == entry.path@
        }),
    ensures
        action.verdict(listing->OpenListing_0.run.reads().paths, entry) is Referenced,
{
    let metadata = action.table.metadata;
    if 0 <= i < metadata.statistics@.len() && metadata.statistics@[i].statistics_path@
        == entry.path@ {
        assert(is_statistics_path(metadata.statistics@, entry.path@));
    }
    if 0 <= i < metadata.partition_statistics@.len()
        && metadata.partition_statistics@[i].statistics_path@ == entry.path@ {
        assert(is_statistics_path(metadata.partition_statistics@, entry.path@));
    }
    assert(mentions(*action.table, storage, entry.path@));
    law_mentioned_files_are_no_orphans(action, storage, n, listing, entry);
}

} // verus!
