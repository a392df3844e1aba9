//! Removing orphan files: files under the table's location that no snapshot in the
//! metadata refers to.

use vstd::hash_set::StringHashSet;
use vstd::prelude::*;
use vstd::string::*;

use crate::error::{Error, ErrorKind};
use crate::expire_snapshots;
use crate::expire_snapshots::is_gc_disabled;
use crate::model::{ManifestEntry, ManifestFile, Snapshot, StatisticsFile, Table};
use crate::outside;
use crate::outside::to_lowercase;
use crate::seqs;
use crate::seqs::{list_entry_paths, list_manifest_paths, push_texts};
use crate::time::Timestamp;
use crate::uri;
use crate::uri::{canonical_uri, extract_scheme_authority, normalize_uri, Aliases};

verus! {

broadcast use crate::seqs::lemma_map_push;

/// How long a file is left alone by default, in nanoseconds: three days.
pub const DEFAULT_AGE_NANOS: u64 = 259_200_000_000_000;

/// Result of executing the remove orphan files action.
#[derive(Debug)]
pub struct RemoveOrphanFilesResult {
    /// Locations of orphan files that were found (and deleted unless dry_run was set).
    pub orphan_file_locations: Vec<String>,
}

impl Clone for RemoveOrphanFilesResult {
    fn clone(&self) -> (r: Self)
        ensures
            r.orphan_file_locations@ == self.orphan_file_locations@,
    {
        let mut orphan_file_locations: Vec<String> = Vec::new();
        push_texts(&mut orphan_file_locations, &self.orphan_file_locations);
        assert(orphan_file_locations@ =~= self.orphan_file_locations@);
        RemoveOrphanFilesResult { orphan_file_locations }
    }
}

impl Default for RemoveOrphanFilesResult {
    fn default() -> (r: Self)
        ensures
            r.orphan_file_locations@ == Seq::<String>::empty(),
    {
        RemoveOrphanFilesResult { orphan_file_locations: Vec::new() }
    }
}

/// Behavior when a file's URI scheme/authority does not match any known
/// equivalence configured via [`RemoveOrphanFiles::equal_schemes`] or
/// [`RemoveOrphanFiles::equal_authorities`].
#[derive(Debug, Clone, Copy, PartialEq, Eq, Structural)]
pub enum PrefixMismatchMode {
    /// Fail with an error (default). The safest option because it surfaces
    /// configuration problems rather than silently skipping or deleting.
    Error,
    /// Skip the file: do not treat it as an orphan.
    Ignore,
}

/// A file found in storage, and when it was last modified where that is known.
#[derive(Debug)]
pub struct FileEntry {
    pub path: String,
    pub last_modified: Option<Timestamp>,
}

/// Action that removes orphan files from an Iceberg table's storage location.
///
/// Orphan files are files present in the table's storage directory that are
/// not referenced by any snapshot in the current table metadata. These can
/// accumulate from failed writes, interrupted compactions, or other incomplete
/// operations.
///
/// [`RemoveOrphanFiles::execute`] starts the action; each [`OrphanStep`] says what
/// has to be done outside next.
pub struct RemoveOrphanFiles<'a> {
    pub table: &'a Table,
    pub older_than: Timestamp,
    pub location: Option<String>,
    pub dry_run: bool,
    pub equal_schemes: Aliases,
    pub equal_authorities: Aliases,
    pub prefix_mismatch_mode: PrefixMismatchMode,
}

/// What is to be done with a file found in storage.
pub enum Verdict {
    /// The table refers to the file.
    Referenced,
    /// The file's scheme or authority is not that of the location scanned.
    Mismatched,
    /// The file was modified too recently.
    TooRecent,
    /// The file is an orphan.
    Orphan,
}

/// The manifest lists of snapshots.
pub open spec fn list_paths(s: Seq<Snapshot>) -> Seq<Seq<char>> {
    s.map_values(|x: Snapshot| x.manifest_list@)
}

/// The message for a file whose scheme or authority is foreign.
pub open spec fn mismatch_message(path: Seq<char>, found: Seq<char>, expected: Seq<char>) -> Seq<
    char,
> {
    "Prefix mismatch: file '"@ + path + "' has scheme/authority '"@ + found
        + "' which differs from the table location '"@ + expected
        + "'. Configure equal_schemes() or equal_authorities() to declare equivalences, or set prefix_mismatch_mode(Ignore) to skip such files."@
}

impl<'a> RemoveOrphanFiles<'a> {
    /// Where to look for files.
    pub open spec fn scan_location(self) -> Seq<char> {
        match self.location {
            Some(l) => l@,
            None => self.table.metadata.location@,
        }
    }

    /// Whether schemes or authorities have been declared equivalent.
    pub open spec fn has_equivalences(self) -> bool {
        self.equal_schemes@.len() > 0 || self.equal_authorities@.len() > 0
    }

    /// A URI under the equivalences that have been declared.
    pub open spec fn canonical(self, s: Seq<char>) -> Seq<char> {
        uri::canonical(self.equal_schemes@, self.equal_authorities@, s)
    }

    /// The form in which a normalized URI is looked up.
    pub open spec fn comparable(self, normalized: Seq<char>) -> Seq<char> {
        if self.has_equivalences() {
            self.canonical(normalized)
        } else {
            normalized
        }
    }

    /// Whether the text `n` stands for the file at `path`.
    pub open spec fn stands_for(self, n: Seq<char>, path: Seq<char>) -> bool {
        ||| uri::normalized(path) == n
        ||| self.has_equivalences() && self.canonical(uri::normalized(path)) == n
    }

    /// Whether the text `n` stands for one of the files at `paths`.
    pub open spec fn names(self, paths: Seq<Seq<char>>, n: Seq<char>) -> bool {
        exists|i: int| 0 <= i < paths.len() && self.stands_for(n, #[trigger] paths[i])
    }

    /// Whether the file at `path` is one of those at `paths`.
    pub open spec fn is_referenced(self, paths: Seq<Seq<char>>, path: Seq<char>) -> bool {
        let normalized = uri::normalized(path);
        self.names(paths, self.comparable(normalized)) || self.names(paths, normalized)
    }

    /// The scheme and authority under the equivalences, of a normalized URI.
    pub open spec fn canonical_prefix(self, normalized: Seq<char>) -> Option<Seq<char>> {
        uri::scheme_authority(self.comparable(normalized))
    }

    /// Whether the scheme and authority of the file at `path` are foreign: other
    /// than those of the location scanned, also under the equivalences.
    pub open spec fn is_foreign(self, path: Seq<char>) -> bool {
        let expected = uri::scheme_authority(self.scan_location());
        let found = uri::scheme_authority(uri::normalized(path));
        &&& expected is Some
        &&& found is Some
        &&& found != expected
        &&& self.canonical_prefix(uri::normalized(path)) != self.canonical_prefix(
            uri::normalized(self.scan_location()),
        )
    }

    /// Whether the file is too young to be an orphan. One whose time of modification
    /// is not known is not.
    pub open spec fn is_too_recent(self, entry: FileEntry) -> bool {
        match entry.last_modified {
            Some(t) => t.nanos >= self.older_than.nanos,
            None => false,
        }
    }

    /// What is to be done with a file found in storage, where the table refers to the
    /// files at `paths`.
    pub open spec fn verdict(self, paths: Seq<Seq<char>>, entry: FileEntry) -> Verdict {
        if self.is_referenced(paths, entry.path@) {
            Verdict::Referenced
        } else if self.is_foreign(entry.path@) {
            Verdict::Mismatched
        } else if self.is_too_recent(entry) {
            Verdict::TooRecent
        } else {
            Verdict::Orphan
        }
    }

    /// The current metadata file, where its location is known.
    pub open spec fn metadata_file(self) -> Seq<Seq<char>> {
        match self.table.metadata_location {
            Some(l) => seq![l@],
            None => Seq::empty(),
        }
    }

    /// The files that the metadata itself names, apart from manifest lists.
    pub open spec fn metadata_paths(self) -> Seq<Seq<char>> {
        self.metadata_file() + seqs::texts(self.table.metadata.metadata_log@) + seqs::statistics_paths(
            self.table.metadata.statistics@,
        ) + seqs::statistics_paths(self.table.metadata.partition_statistics@)
    }

    /// The manifest lists of all snapshots.
    pub open spec fn manifest_lists(self) -> Seq<Seq<char>> {
        list_paths(self.table.metadata.snapshots@)
    }
}

/// What has been read of the snapshots so far.
#[verifier::ext_equal]
pub struct OrphanReads {
    /// How many manifest lists have been read.
    pub lists_read: nat,
    /// The files that the table is known to refer to.
    pub paths: Seq<Seq<char>>,
    /// The manifests of the last list that are still to be read.
    pub queue: Seq<Seq<char>>,
}

impl OrphanReads {
    /// Nothing has been read.
    pub open spec fn start(action: RemoveOrphanFiles) -> OrphanReads {
        OrphanReads { lists_read: 0, paths: action.metadata_paths(), queue: Seq::empty() }
    }

    /// The next manifest list was read: it and its manifests are referenced.
    pub open spec fn with_list(
        self,
        action: RemoveOrphanFiles,
        manifests: Seq<ManifestFile>,
    ) -> OrphanReads {
        OrphanReads {
            lists_read: self.lists_read + 1,
            paths: self.paths.push(action.manifest_lists()[self.lists_read as int])
                + seqs::manifest_paths(manifests),
            queue: seqs::manifest_paths(manifests),
        }
    }

    /// The next manifest of the queue was read: the files of its entries are
    /// referenced, whatever their status.
    pub open spec fn with_entries(self, entries: Seq<ManifestEntry>) -> OrphanReads {
        OrphanReads {
            paths: self.paths + seqs::entry_paths(entries),
            queue: self.queue.drop_first(),
            ..self
        }
    }
}

/// What the remove-orphan-files action needs next from outside.
pub enum OrphanStep<'a> {
    /// The action is over.
    Finished(Result<RemoveOrphanFilesResult, Error>),
    /// Load a manifest list.
    LoadManifestList(OrphanListPending<'a>),
    /// Read a manifest.
    ReadManifest(OrphanManifestPending<'a>),
    /// Begin to list the files under a location.
    OpenListing(OrphanListingPending<'a>),
    /// Take the next file of the listing.
    NextFile(OrphanScan<'a>),
    /// Delete the files that the result names, going on where a deletion fails; then
    /// the action is over with this result.
    Delete(RemoveOrphanFilesResult),
}

/// A remove-orphan-files action under way, and what it has read.
pub struct OrphanRun<'a> {
    pub action: RemoveOrphanFiles<'a>,
    pub lists_read: usize,
    pub paths: Vec<String>,
    pub queue: Vec<String>,
    pub queue_read: usize,
}

impl<'a> OrphanRun<'a> {
    /// What has been read so far.
    pub open spec fn reads(self) -> OrphanReads {
        OrphanReads {
            lists_read: self.lists_read as nat,
            paths: seqs::texts(self.paths@),
            queue: seqs::texts(self.queue@).skip(self.queue_read as int),
        }
    }

    /// The run is consistent.
    pub open spec fn wf(self) -> bool {
        &&& self.lists_read <= self.action.table.metadata.snapshots@.len()
        &&& self.queue_read <= self.queue@.len()
    }
}

/// What comes next once `reads` have been made: the manifests of the last list, then
/// the next list, and after the last list the listing of the files.
pub open spec fn continues(
    action: RemoveOrphanFiles,
    reads: OrphanReads,
    step: OrphanStep,
) -> bool {
    if reads.queue.len() > 0 {
        &&& step is ReadManifest
        &&& step->ReadManifest_0.run.wf()
        &&& step->ReadManifest_0.run.action == action
        &&& step->ReadManifest_0.run.reads() == reads
    } else if reads.lists_read < action.manifest_lists().len() {
        &&& step is LoadManifestList
        &&& step->LoadManifestList_0.run.wf()
        &&& step->LoadManifestList_0.run.action == action
        &&& step->LoadManifestList_0.run.reads() == reads
    } else {
        &&& step is OpenListing
        &&& step->OpenListing_0.run.wf()
        &&& step->OpenListing_0.run.action == action
        &&& step->OpenListing_0.run.reads() == reads
    }
}

/// Whether the step takes the next file, where the table refers to the files at
/// `paths` and `orphans` have been found.
pub open spec fn scans(
    action: RemoveOrphanFiles,
    paths: Seq<Seq<char>>,
    orphans: Seq<Seq<char>>,
    step: OrphanStep,
) -> bool {
    &&& step is NextFile
    &&& step->NextFile_0.wf()
    &&& step->NextFile_0.run.action == action
    &&& seqs::texts(step->NextFile_0.run.paths@) == paths
    &&& seqs::texts(step->NextFile_0.orphans@) == orphans
}

/// A manifest list is waiting to be loaded.
pub struct OrphanListPending<'a> {
    pub run: OrphanRun<'a>,
}

/// A manifest is waiting to be read.
pub struct OrphanManifestPending<'a> {
    pub run: OrphanRun<'a>,
}

/// The listing of files is waiting to be opened.
pub struct OrphanListingPending<'a> {
    pub run: OrphanRun<'a>,
}

/// The files in storage are being looked through.
pub struct OrphanScan<'a> {
    pub run: OrphanRun<'a>,
    /// The texts that stand for a file to which the table refers.
    pub referenced: StringHashSet,
    /// The scheme and authority of the location scanned.
    pub prefix: Option<String>,
    /// The same under the equivalences.
    pub canonical_prefix: Option<String>,
    /// The orphans found so far.
    pub orphans: Vec<String>,
}

impl<'a> OrphanScan<'a> {
    /// The scan is consistent.
    pub open spec fn wf(self) -> bool {
        &&& forall|n: Seq<char>| #[trigger]
            self.referenced@.contains(n) <==> self.run.action.names(
                seqs::texts(self.run.paths@),
                n,
            )
        &&& match self.prefix {
            Some(p) => uri::scheme_authority(self.run.action.scan_location()) == Some(p@),
            None => uri::scheme_authority(self.run.action.scan_location()) is None,
        }
        &&& ({
            let canonical = self.run.action.canonical_prefix(
                uri::normalized(self.run.action.scan_location()),
            );
            match self.canonical_prefix {
                Some(p) => canonical == Some(p@),
                None => canonical is None,
            }
        })
    }
}

/// What comes of the orphans found once all files have been scanned: a dry run ends with
/// them, and otherwise they are deleted.
pub open spec fn scan_ends(scan: OrphanScan, step: OrphanStep) -> bool {
    if scan.run.action.dry_run {
        &&& step is Finished
        &&& step->Finished_0 is Ok
        &&& step->Finished_0->Ok_0.orphan_file_locations == scan.orphans
    } else {
        &&& step is Delete
        &&& step->Delete_0.orphan_file_locations == scan.orphans
    }
}

/// What comes of the file `entry` in a scan: an orphan is added to those found, a file
/// with a foreign scheme or authority is an error unless such files are ignored, and
/// any other file is passed over.
pub open spec fn scan_goes_on(scan: OrphanScan, entry: FileEntry, step: OrphanStep) -> bool {
    let action = scan.run.action;
    let paths = seqs::texts(scan.run.paths@);
    let orphans = seqs::texts(scan.orphans@);
    match action.verdict(paths, entry) {
        Verdict::Orphan => scans(action, paths, orphans.push(entry.path@), step),
        Verdict::Mismatched if action.prefix_mismatch_mode == PrefixMismatchMode::Error => {
            &&& step is Finished
            &&& step->Finished_0 is Err
            &&& step->Finished_0->Err_0.says(
                ErrorKind::DataInvalid,
                mismatch_message(
                    entry.path@,
                    uri::scheme_authority(uri::normalized(entry.path@))->0,
                    uri::scheme_authority(action.scan_location())->0,
                ),
            )
        },
        _ => scans(action, paths, orphans, step),
    }
}

impl<'a> RemoveOrphanFiles<'a> {
    /// Create a new RemoveOrphanFiles action for the given table.
    ///
    /// Defaults:
    /// - `older_than`: now minus 3 days
    /// - `location`: table metadata location
    /// - `dry_run`: false
    /// - `prefix_mismatch_mode`: `Error`
    pub fn new(table: &'a Table) -> (action: Self)
        ensures
            action.table == table,
            exists|now: Timestamp| #[trigger]
                call_ensures(Timestamp::now, (), now) && action.older_than == now.earlier(
                    DEFAULT_AGE_NANOS as int,
                ),
            action.location is None,
            !action.dry_run,
            action.equal_schemes@ == Seq::<(Seq<char>, Seq<char>)>::empty(),
            action.equal_authorities@ == Seq::<(Seq<char>, Seq<char>)>::empty(),
            action.prefix_mismatch_mode == PrefixMismatchMode::Error,
    {
        Self::new_at(table, Timestamp::now())
    }

    /// Create a new action for the given table, at the given time.
    pub fn new_at(table: &'a Table, now: Timestamp) -> (action: Self)
        ensures
            action.table == table,
            action.older_than == now.earlier(DEFAULT_AGE_NANOS as int),
            action.location is None,
            !action.dry_run,
            action.equal_schemes@ == Seq::<(Seq<char>, Seq<char>)>::empty(),
            action.equal_authorities@ == Seq::<(Seq<char>, Seq<char>)>::empty(),
            action.prefix_mismatch_mode == PrefixMismatchMode::Error,
    {
        Self {
            table,
            older_than: now.minus(DEFAULT_AGE_NANOS),
            location: None,
            dry_run: false,
            equal_schemes: Aliases::new(),
            equal_authorities: Aliases::new(),
            prefix_mismatch_mode: PrefixMismatchMode::Error,
        }
    }

    /// Set the timestamp threshold. Files modified after this time are
    /// excluded from orphan detection. When modification time is not
    /// available from the storage backend, the file is still treated as
    /// an orphan candidate (the guard only applies when mtime is known).
    pub fn older_than(self, older_than: Timestamp) -> (action: Self)
        ensures
            action == (Self { older_than, ..self }),
    {
        Self { older_than, ..self }
    }

    /// Override the storage location to scan for orphan files.
    /// Defaults to the location in the table's metadata.
    pub fn location(self, location: &str) -> (action: Self)
        ensures
            action.location is Some,
            action.location->0@ == location@,
            action == (Self { location: action.location, ..self }),
    {
        Self { location: Some(location.to_owned()), ..self }
    }

    /// When true, orphan files are reported but not deleted.
    pub fn dry_run(self, dry_run: bool) -> (action: Self)
        ensures
            action == (Self { dry_run, ..self }),
    {
        Self { dry_run, ..self }
    }

    /// Declare that two URI schemes should be treated as equivalent.
    /// For example, `equal_schemes("s3a", "s3")` means `s3a://bucket/path`
    /// and `s3://bucket/path` refer to the same file. Schemes that are equivalent to
    /// the same one are equivalent to each other.
    pub fn equal_schemes(self, scheme_alias: &str, canonical: &str) -> (action: Self)
        ensures
            action.equal_schemes@ == uri::declared(
                self.equal_schemes@,
                outside::lower_case(scheme_alias@),
                outside::lower_case(canonical@),
            ),
            uri::makes_equivalent(
                self.equal_schemes@,
                action.equal_schemes@,
                outside::lower_case(scheme_alias@),
                outside::lower_case(canonical@),
            ),
            action == (Self { equal_schemes: action.equal_schemes, ..self }),
    {
        let mut action = self;
        action.equal_schemes.declare(
            to_lowercase(scheme_alias).as_str(),
            to_lowercase(canonical).as_str(),
        );
        action
    }

    /// Declare that two URI authorities should be treated as equivalent. Authorities
    /// that are equivalent to the same one are equivalent to each other.
    pub fn equal_authorities(self, authority_alias: &str, canonical: &str) -> (action: Self)
        ensures
            action.equal_authorities@ == uri::declared(
                self.equal_authorities@,
                authority_alias@,
                canonical@,
            ),
            uri::makes_equivalent(
                self.equal_authorities@,
                action.equal_authorities@,
                authority_alias@,
                canonical@,
            ),
            action == (Self { equal_authorities: action.equal_authorities, ..self }),
    {
        let mut action = self;
        action.equal_authorities.declare(authority_alias, canonical);
        action
    }

    /// Set the behavior when a file's URI scheme/authority does not match
    /// any configured equivalence. Defaults to [`PrefixMismatchMode::Error`].
    pub fn prefix_mismatch_mode(self, mode: PrefixMismatchMode) -> (action: Self)
        ensures
            action == (Self { prefix_mismatch_mode: mode, ..self }),
    {
        Self { prefix_mismatch_mode: mode, ..self }
    }

    /// Apply configured scheme and authority equivalences to a URI.
    pub fn apply_scheme_and_authority_equivalences(&self, uri: &str) -> (text: String)
        ensures
            text@ == self.canonical(uri@),
    {
        canonical_uri(&self.equal_schemes, &self.equal_authorities, uri)
    }

    /// Tells whether schemes or authorities have been declared equivalent.
    fn any_equivalences(&self) -> (r: bool)
        ensures
            r == self.has_equivalences(),
    {
        !self.equal_schemes.is_empty() || !self.equal_authorities.is_empty()
    }

    /// The form in which a normalized URI is looked up.
    fn comparable_uri(&self, normalized: &str) -> (text: String)
        ensures
            text@ == self.comparable(normalized@),
    {
        if self.any_equivalences() {
            self.apply_scheme_and_authority_equivalences(normalized)
        } else {
            normalized.to_owned()
        }
    }

    /// The location to scan.
    fn location_to_scan(&self) -> (location: &str)
        ensures
            location@ == self.scan_location(),
    {
        match &self.location {
            Some(l) => l.as_str(),
            None => self.table.metadata.location.as_str(),
        }
    }

    /// The files that the metadata itself names.
    fn list_metadata_paths(&self) -> (paths: Vec<String>)
        ensures
            seqs::texts(paths@) == self.metadata_paths(),
    {
        let metadata = &self.table.metadata;
        let mut paths: Vec<String> = Vec::new();
        match &self.table.metadata_location {
            Some(l) => {
                paths.push(l.clone());
            },
            None => {},
        }
        let ghost own = paths@;
        assert(seqs::texts(own) =~= self.metadata_file());
        push_texts(&mut paths, &metadata.metadata_log);
        proof {
            seqs::lemma_texts_add(own, metadata.metadata_log@);
        }
        push_statistics_paths(&mut paths, &metadata.statistics);
        push_statistics_paths(&mut paths, &metadata.partition_statistics);
        paths
    }

    /// The texts that stand for one of the files at `paths`.
    fn referenced_set(&self, paths: &Vec<String>) -> (set: StringHashSet)
        ensures
            forall|n: Seq<char>| #[trigger]
                set@.contains(n) <==> self.names(seqs::texts(paths@), n),
    {
        let equivalences = self.any_equivalences();
        let ghost all = seqs::texts(paths@);
        let mut set = StringHashSet::new();
        let mut i: usize = 0;
        while i < paths.len()
            invariant
                equivalences == self.has_equivalences(),
                all == seqs::texts(paths@),
                i <= paths.len(),
                forall|n: Seq<char>| #[trigger]
                    set@.contains(n) <==> self.names(all.take(i as int), n),
            decreases paths.len() - i,
        {
            let ghost before = set@;
            let normalized = normalize_uri(paths[i].as_str());
            if equivalences {
                set.insert(self.apply_scheme_and_authority_equivalences(normalized.as_str()));
            }
            set.insert(normalized);
            proof {
                let front = all.take(i as int);
                let more = all.take(i + 1);
                assert(more[i as int] == paths@[i as int]@);
                assert forall|n: Seq<char>| #[trigger] set@.contains(n) <==> self.names(more, n) by {
                    assert(before.contains(n) <==> self.names(front, n));
                    if self.names(front, n) {
                        let j = choose|j: int|
                            0 <= j < front.len() && self.stands_for(n, #[trigger] front[j]);
                        assert(self.stands_for(n, more[j]));
                    }
                    if self.names(more, n) {
                        let j = choose|j: int|
                            0 <= j < more.len() && self.stands_for(n, #[trigger] more[j]);
                        if j < i {
                            assert(self.stands_for(n, front[j]));
                        }
                    }
                    if self.stands_for(n, more[i as int]) {
                        assert(self.names(more, n));
                    }
                }
            }
            i = i + 1;
        }
        assert(all.take(paths.len() as int) =~= all);
        set
    }

    /// Execute the remove-orphan-files action: refuse where garbage collection is
    /// switched off, and otherwise begin to read the snapshots.
    pub fn execute(self) -> (step: OrphanStep<'a>)
        ensures
            expire_snapshots::gc_disabled(self.table.metadata) ==> {
                &&& step is Finished
                &&& step->Finished_0 is Err
                &&& step->Finished_0->Err_0.says(
                    ErrorKind::FeatureUnsupported,
                    "Cannot remove orphan files: gc.enabled is set to false"@,
                )
            },
            !expire_snapshots::gc_disabled(self.table.metadata) ==> continues(
                self,
                OrphanReads::start(self),
                step,
            ),
    {
        if is_gc_disabled(&self.table.metadata) {
            return OrphanStep::Finished(
                Err(
                    Error::new(
                        ErrorKind::FeatureUnsupported,
                        "Cannot remove orphan files: gc.enabled is set to false".to_owned(),
                    ),
                ),
            );
        }
        let paths = self.list_metadata_paths();
        let run = OrphanRun {
            action: self,
            lists_read: 0,
            paths,
            queue: Vec::new(),
            queue_read: 0,
        };
        assert(run.reads() =~= OrphanReads::start(self));
        run.advance()
    }
}

/// Adds the paths of statistics files to the end of `v`.
fn push_statistics_paths(v: &mut Vec<String>, files: &Vec<StatisticsFile>)
    ensures
        seqs::texts(final(v)@) == seqs::texts(old(v)@) + seqs::statistics_paths(files@),
{
    let ghost all = seqs::statistics_paths(files@);
    let mut i: usize = 0;
    assert(seqs::texts(v@) =~= seqs::texts(old(v)@) + all.take(0));
    while i < files.len()
        invariant
            all == seqs::statistics_paths(files@),
            i <= files.len(),
            seqs::texts(v@) == seqs::texts(old(v)@) + all.take(i as int),
        decreases files.len() - i,
    {
        v.push(files[i].statistics_path.clone());
        assert(seqs::texts(v@) =~= seqs::texts(old(v)@) + all.take(i + 1));
        i = i + 1;
    }
    assert(all.take(files.len() as int) =~= all);
}

/// Composes the message for a file whose scheme or authority is foreign.
fn compose_mismatch_message(path: &str, found: &str, expected: &str) -> (message: String)
    ensures
        message@ == mismatch_message(path@, found@, expected@),
{
    let mut message = "Prefix mismatch: file '".to_owned();
    message.append(path);
    message.append("' has scheme/authority '");
    message.append(found);
    message.append("' which differs from the table location '");
    message.append(expected);
    message.append(
        "'. Configure equal_schemes() or equal_authorities() to declare equivalences, or set prefix_mismatch_mode(Ignore) to skip such files.",
    );
    message
}

impl<'a> OrphanRun<'a> {
    /// Goes on to what comes next.
    fn advance(self) -> (step: OrphanStep<'a>)
        requires
            self.wf(),
        ensures
            continues(self.action, self.reads(), step),
    {
        assert(seqs::texts(self.queue@).len() == self.queue@.len());
        if self.queue_read < self.queue.len() {
            OrphanStep::ReadManifest(OrphanManifestPending { run: self })
        } else if self.lists_read < self.action.table.metadata.snapshots.len() {
            OrphanStep::LoadManifestList(OrphanListPending { run: self })
        } else {
            OrphanStep::OpenListing(OrphanListingPending { run: self })
        }
    }
}

impl<'a> OrphanListPending<'a> {
    /// A list is left to load, and no manifest is waiting to be read.
    pub open spec fn ready(self) -> bool {
        &&& self.run.wf()
        &&& self.run.reads().queue.len() == 0
        &&& self.run.lists_read < self.run.action.table.metadata.snapshots@.len()
    }

    /// Where the manifest list is.
    pub fn path(&self) -> (path: &str)
        requires
            self.ready(),
        ensures
            path@ == self.run.action.manifest_lists()[self.run.lists_read as int],
    {
        self.run.action.table.metadata.snapshots[self.run.lists_read].manifest_list.as_str()
    }

    /// Goes on with the manifests of the list; an error ends the action.
    pub fn resume(self, outcome: Result<Vec<ManifestFile>, Error>) -> (step: OrphanStep<'a>)
        requires
            self.ready(),
        ensures
            outcome matches Err(e) ==> step == OrphanStep::<'a>::Finished(Err(e)),
            outcome matches Ok(manifests) ==> continues(
                self.run.action,
                self.run.reads().with_list(self.run.action, manifests@),
                step,
            ),
    {
        let manifests = match outcome {
            Err(e) => {
                return OrphanStep::Finished(Err(e));
            },
            Ok(manifests) => manifests,
        };
        let ghost before = self.run.reads();
        let mut run = self.run;
        let snapshot = &run.action.table.metadata.snapshots[run.lists_read];
        run.paths.push(snapshot.manifest_list.clone());
        let queue = list_manifest_paths(&manifests);
        proof {
            seqs::lemma_texts_add(run.paths@, queue@);
        }
        push_texts(&mut run.paths, &queue);
        run.queue = queue;
        run.queue_read = 0;
        assert(run.lists_read < run.action.table.metadata.snapshots.len());
        run.lists_read = run.lists_read + 1;
        assert(run.reads() =~= before.with_list(self.run.action, manifests@));
        run.advance()
    }
}

impl<'a> OrphanManifestPending<'a> {
    /// A manifest is waiting to be read.
    pub open spec fn ready(self) -> bool {
        &&& self.run.wf()
        &&& self.run.reads().queue.len() > 0
    }

    /// Where the manifest is.
    pub fn path(&self) -> (path: &str)
        requires
            self.ready(),
        ensures
            path@ == self.run.reads().queue[0],
    {
        assert(seqs::texts(self.run.queue@).len() == self.run.queue@.len());
        self.run.queue[self.run.queue_read].as_str()
    }

    /// Goes on with the entries of the manifest; an error ends the action.
    pub fn resume(self, outcome: Result<Vec<ManifestEntry>, Error>) -> (step: OrphanStep<'a>)
        requires
            self.ready(),
        ensures
            outcome matches Err(e) ==> step == OrphanStep::<'a>::Finished(Err(e)),
            outcome matches Ok(entries) ==> continues(
                self.run.action,
                self.run.reads().with_entries(entries@),
                step,
            ),
    {
        let entries = match outcome {
            Err(e) => {
                return OrphanStep::Finished(Err(e));
            },
            Ok(entries) => entries,
        };
        let ghost before = self.run.reads();
        let mut run = self.run;
        let files = list_entry_paths(&entries);
        proof {
            seqs::lemma_texts_add(run.paths@, files@);
            assert(seqs::texts(run.queue@).len() == run.queue@.len());
        }
        push_texts(&mut run.paths, &files);
        assert(run.queue_read < run.queue.len());
        run.queue_read = run.queue_read + 1;
        assert(run.reads() =~= before.with_entries(entries@));
        run.advance()
    }
}

impl<'a> OrphanListingPending<'a> {
    /// The location whose files are to be listed.
    pub fn location(&self) -> (location: &str)
        ensures
            location@ == self.run.action.scan_location(),
    {
        self.run.action.location_to_scan()
    }

    /// Goes on once the listing has been opened; an error ends the action.
    pub fn resume(self, outcome: Result<(), Error>) -> (step: OrphanStep<'a>)
        ensures
            outcome matches Err(e) ==> step == OrphanStep::<'a>::Finished(Err(e)),
            outcome is Ok ==> scans(
                self.run.action,
                self.run.reads().paths,
                Seq::empty(),
                step,
            ),
    {
        match outcome {
            Err(e) => OrphanStep::Finished(Err(e)),
            Ok(_) => {
                let referenced = self.run.action.referenced_set(&self.run.paths);
                let location = self.run.action.location_to_scan();
                let prefix = extract_scheme_authority(location);
                let normalized = normalize_uri(location);
                let canonical_prefix = extract_scheme_authority(
                    self.run.action.comparable_uri(normalized.as_str()).as_str(),
                );
                let scan = OrphanScan {
                    run: self.run,
                    referenced,
                    prefix,
                    canonical_prefix,
                    orphans: Vec::new(),
                };
                assert(seqs::texts(scan.orphans@) =~= Seq::<Seq<char>>::empty());
                OrphanStep::NextFile(scan)
            },
        }
    }
}

impl<'a> OrphanScan<'a> {
    /// Whether the scheme and authority of a file are foreign, and if so what they
    /// are and what they should be.
    fn foreign_prefix(&self, normalized: &str, canonical: &str) -> (r: Option<(String, String)>)
        requires
            self.wf(),
        ensures
            ({
                let location = self.run.action.scan_location();
                let expected = uri::scheme_authority(location);
                let found = uri::scheme_authority(normalized@);
                let same = uri::scheme_authority(canonical@) == self.run.action.canonical_prefix(
                    uri::normalized(location),
                );
                match r {
                    Some((f, e)) => {
                        &&& found == Some(f@)
                        &&& expected == Some(e@)
                        &&& found != expected
                        &&& !same
                    },
                    None => {
                        ||| expected is None
                        ||| found is None
                        ||| found == expected
                        ||| same
                    },
                }
            }),
    {
        let expected = match &self.prefix {
            Some(p) => p,
            None => {
                return None;
            },
        };
        let found = match extract_scheme_authority(normalized) {
            Some(f) => f,
            None => {
                return None;
            },
        };
        if found == *expected {
            return None;
        }
        let same = match (extract_scheme_authority(canonical), &self.canonical_prefix) {
            (Some(c), Some(p)) => c == *p,
            (None, None) => true,
            _ => false,
        };
        if same {
            return None;
        }
        Some((found, expected.clone()))
    }

    /// Goes on with the next file of the listing; without one, the scan is over. An
    /// error ends the action.
    pub fn resume(self, next: Option<Result<FileEntry, Error>>) -> (step: OrphanStep<'a>)
        requires
            self.wf(),
        ensures
            next matches Some(Err(e)) ==> step == OrphanStep::<'a>::Finished(Err(e)),
            next is None ==> scan_ends(self, step),
            next matches Some(Ok(entry)) ==> scan_goes_on(self, entry, step),
    {
        let entry = match next {
            None => {
                let result = RemoveOrphanFilesResult { orphan_file_locations: self.orphans };
                if self.run.action.dry_run {
                    return OrphanStep::Finished(Ok(result));
                } else {
                    return OrphanStep::Delete(result);
                }
            },
            Some(Err(e)) => {
                return OrphanStep::Finished(Err(e));
            },
            Some(Ok(entry)) => entry,
        };
        let action = &self.run.action;
        let normalized = normalize_uri(entry.path.as_str());
        let canonical = action.comparable_uri(normalized.as_str());
        if self.referenced.contains(canonical.as_str()) || self.referenced.contains(
            normalized.as_str(),
        ) {
            return OrphanStep::NextFile(self);
        }
        match self.foreign_prefix(normalized.as_str(), canonical.as_str()) {
            Some((found, expected)) => {
                match action.prefix_mismatch_mode {
                    PrefixMismatchMode::Error => {
                        return OrphanStep::Finished(
                            Err(
                                Error::new(
                                    ErrorKind::DataInvalid,
                                    compose_mismatch_message(
                                        entry.path.as_str(),
                                        found.as_str(),
                                        expected.as_str(),
                                    ),
                                ),
                            ),
                        );
                    },
                    PrefixMismatchMode::Ignore => {
                        return OrphanStep::NextFile(self);
                    },
                }
            },
            None => {},
        }
        match entry.last_modified {
            Some(t) => {
                if t.nanos >= action.older_than.nanos {
                    return OrphanStep::NextFile(self);
                }
            },
            None => {},
        }
        let mut scan = self;
        scan.orphans.push(entry.path);
        OrphanStep::NextFile(scan)
    }
}

} // verus!
