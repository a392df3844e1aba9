use std::collections::HashMap;
use std::sync::Arc;

use iceberg_actions::error::{Error, ErrorKind};
use iceberg_actions::file_rewriter::{FileRewriter, RewriteFileGroup, RewriteOutcome};
use iceberg_actions::model::{
    DataContentType, DataFile, DataFileFormat, FormatVersion, ManifestContentType, ManifestEntry,
    ManifestFile, ManifestStatus, PartitionSpec, Snapshot, Struct, Table, TableMetadata,
};
use iceberg_actions::rewrite_data_files::{
    RewriteDataFiles, RewriteDataFilesResult, RewriteStep,
};

/// A passthrough rewriter that returns the data files of the scan tasks unchanged. This
/// validates the selection/grouping logic without actually rewriting any data.
struct PassthroughFileRewriter;

impl FileRewriter for PassthroughFileRewriter {
    fn rewrite(&self, _table: &Table, group: RewriteFileGroup) -> RewriteOutcome {
        RewriteOutcome::Finished(Ok(group.data_files_for_delete()))
    }
}

/// A rewriter that fails on the first call and succeeds on subsequent calls.
struct FailOnceFileRewriter {
    call_count: std::sync::atomic::AtomicU32,
}

impl FailOnceFileRewriter {
    fn new() -> Self {
        Self { call_count: std::sync::atomic::AtomicU32::new(0) }
    }
}

impl FileRewriter for FailOnceFileRewriter {
    fn rewrite(&self, _table: &Table, group: RewriteFileGroup) -> RewriteOutcome {
        let call = self.call_count.fetch_add(1, std::sync::atomic::Ordering::SeqCst);
        if call == 0 {
            RewriteOutcome::Finished(Err(Error::new(
                ErrorKind::Unexpected,
                "simulated first-call failure".to_string(),
            )))
        } else {
            RewriteOutcome::Finished(Ok(group.data_files_for_delete()))
        }
    }
}

fn make_data_file(path: &str, file_size: u64, partition: &str) -> DataFile {
    DataFile {
        content: DataContentType::Data,
        file_path: path.to_string(),
        file_format: DataFileFormat::Parquet,
        partition: Struct { encoding: partition.to_string() },
        partition_spec_id: 0,
        record_count: 100,
        file_size_in_bytes: file_size,
    }
}

fn entry(file: DataFile, status: ManifestStatus) -> ManifestEntry {
    ManifestEntry {
        status,
        snapshot_id: Some(3),
        sequence_number: Some(1),
        file_sequence_number: Some(1),
        data_file: file,
    }
}

struct World {
    table: Table,
    list: Vec<ManifestFile>,
    manifests: HashMap<String, Vec<ManifestEntry>>,
}

impl World {
    fn empty() -> World {
        let spec = Arc::new(PartitionSpec { spec_id: 0, fields: Vec::new() });
        let metadata = TableMetadata::new(1, "mem://t".to_string(), FormatVersion::V2, spec);
        World {
            table: Table { identifier: "ns.t".to_string(), metadata, metadata_location: None },
            list: Vec::new(),
            manifests: HashMap::new(),
        }
    }

    fn add_manifest(&mut self, path: &str, content: ManifestContentType, entries: Vec<ManifestEntry>) {
        self.list.push(ManifestFile {
            manifest_path: path.to_string(),
            manifest_length: 100,
            partition_spec_id: 0,
            content,
            added_files_count: Some(1),
            existing_files_count: Some(0),
        });
        self.manifests.insert(path.to_string(), entries);
    }

    fn with_files(files: Vec<DataFile>) -> World {
        let mut world = World::empty();
        world.table.metadata.snapshots.push(Snapshot {
            snapshot_id: 3,
            parent_snapshot_id: None,
            sequence_number: 11,
            timestamp_ms: 1,
            manifest_list: "list".to_string(),
        });
        world.table.metadata.current_snapshot_id = Some(3);
        let entries = files.into_iter().map(|f| entry(f, ManifestStatus::Added)).collect();
        world.add_manifest("m", ManifestContentType::Data, entries);
        world
    }
}

/// What the outside answers, and what it saw.
#[derive(Default)]
struct Outside {
    /// The number of commits that succeed before one fails, if any.
    fail_commit: Option<usize>,
    fail_apply: Option<usize>,
    /// The number of loads that succeed before one fails, if any.
    fail_reload: Option<usize>,
    commits: Vec<(Vec<String>, Vec<String>)>,
    applied: usize,
    groups: Vec<Vec<String>>,
    cleaned: Vec<String>,
    reloads: usize,
}

fn paths(files: &[DataFile]) -> Vec<String> {
    files.iter().map(|f| f.file_path.clone()).collect()
}

fn run<R: FileRewriter>(
    world: &World,
    action: RewriteDataFiles<R>,
    outside: &mut Outside,
) -> Result<RewriteDataFilesResult, Error> {
    let mut step = action.execute();
    loop {
        step = match step {
            RewriteStep::Finished(r) => return r,
            RewriteStep::LoadManifestList(p) => {
                assert_eq!(p.path(), "list");
                p.resume(Ok(world.list.clone()))
            }
            RewriteStep::ReadManifest(p) => {
                let entries = world.manifests[p.path()].clone();
                p.resume(Ok(entries))
            }
            RewriteStep::Rewrite(p) => {
                assert!(p.can_count_bytes());
                assert!(p.can_count_failed());
                let g = &p.run.groups[p.run.groups_done];
                assert_eq!(g.target_file_size_bytes, p.run.action.target_file_size_bytes);
                outside.groups.push(paths(&g.data_files_for_delete()));
                match p.rewrite() {
                    RewriteOutcome::Finished(r) => p.resume(r),
                    RewriteOutcome::Compact(_) => panic!("no compaction here"),
                }
            }
            RewriteStep::ReloadTable(p) => {
                outside.reloads += 1;
                assert_eq!(p.identifier(), "ns.t");
                assert!(p.can_count_failed());
                if outside.fail_reload == Some(outside.reloads - 1) {
                    p.resume(Err(Error::new(ErrorKind::Unexpected, "no catalog".to_string())))
                } else {
                    p.resume(Ok(()))
                }
            }
            RewriteStep::Apply(p) => {
                assert!(p.can_count_failed());
                let action = p.action();
                assert_eq!(action.starting_snapshot_id, Some(3));
                assert_eq!(action.data_sequence_number, Some(11));
                outside
                    .commits
                    .push((paths(&action.files_to_delete), paths(&action.files_to_add)));
                outside.applied += 1;
                if outside.fail_apply == Some(outside.applied - 1) {
                    p.resume(Err("bad state".to_string()))
                } else {
                    p.resume(Ok(()))
                }
            }
            RewriteStep::Commit(p) => {
                assert!(p.can_count_failed());
                assert!(p.can_count_committed());
                if outside.fail_commit == Some(outside.commits.len() - 1) {
                    p.resume(Err(Error::new(ErrorKind::Unexpected, "conflict".to_string())))
                } else {
                    p.resume(Ok(()))
                }
            }
            RewriteStep::CleanUp(p) => {
                outside.cleaned.extend(p.paths());
                p.resume()
            }
        };
    }
}

fn small_files(n: usize) -> Vec<DataFile> {
    (0..n).map(|i| make_data_file(&format!("data/small-{i}.parquet"), 1024, "")).collect()
}

#[test]
fn test_rewrite_empty_table() {
    let world = World::empty();
    let action = RewriteDataFiles::new(&world.table, PassthroughFileRewriter);
    let result = run(&world, action, &mut Outside::default()).unwrap();
    assert_eq!(result.rewritten_data_files_count, 0);
    assert_eq!(result.added_data_files_count, 0);
    assert_eq!(result.rewritten_bytes_count, 0);
    assert_eq!(result.failed_data_files_count, 0);
    assert_eq!(result.removed_delete_files_count, 0);
}

#[test]
fn test_rewrite_below_min_input_files_noop() {
    let files: Vec<DataFile> = (0..3)
        .map(|i| make_data_file(&format!("data/file-{i}.parquet"), 500 * 1024 * 1024, ""))
        .collect();
    let world = World::with_files(files);
    let action = RewriteDataFiles::new(&world.table, PassthroughFileRewriter);
    let result = run(&world, action, &mut Outside::default()).unwrap();
    assert_eq!(result.rewritten_data_files_count, 0);
    assert_eq!(result.added_data_files_count, 0);
}

#[test]
fn test_rewrite_small_files_selected() {
    let world = World::with_files(small_files(6));
    let action = RewriteDataFiles::new(&world.table, PassthroughFileRewriter).min_input_files(5);
    let mut outside = Outside::default();
    let result = run(&world, action, &mut outside).unwrap();
    assert_eq!(result.rewritten_data_files_count, 6);
    assert_eq!(result.added_data_files_count, 6);
    assert_eq!(result.rewritten_bytes_count, 6 * 1024);
    assert_eq!(outside.commits.len(), 1);
    assert_eq!(outside.reloads, 0);
}

#[test]
fn test_rewrite_inrange_files_not_selected() {
    let files: Vec<DataFile> = (0..6)
        .map(|i| make_data_file(&format!("data/file-{i}.parquet"), 500 * 1024 * 1024, ""))
        .collect();
    let world = World::with_files(files);
    let action = RewriteDataFiles::new(&world.table, PassthroughFileRewriter).min_input_files(5);
    let result = run(&world, action, &mut Outside::default()).unwrap();
    assert_eq!(result.rewritten_data_files_count, 0);
}

#[test]
fn test_rewrite_partial_progress_on_failure() {
    let world = World::with_files(small_files(6));
    let action = RewriteDataFiles::new(&world.table, FailOnceFileRewriter::new())
        .min_input_files(3)
        .max_file_group_size_bytes(3 * 1024)
        .partial_progress(true);
    let mut outside = Outside::default();
    let result = run(&world, action, &mut outside).unwrap();
    assert!(result.failed_data_files_count > 0);
    assert!(result.rewritten_data_files_count > 0);
    assert_eq!(result.rewritten_data_files_count + result.failed_data_files_count, 6);
    assert_eq!(result.failed_data_files_count, 3);
    assert_eq!(result.added_data_files_count, 3);
    assert_eq!(result.rewritten_bytes_count, 3 * 1024);
    assert_eq!(outside.reloads, 1);
}

#[test]
fn defaults_of_the_compaction() {
    let world = World::empty();
    let action = RewriteDataFiles::new(&world.table, PassthroughFileRewriter);
    assert_eq!(action.target_file_size_bytes, 512 * 1024 * 1024);
    assert_eq!(action.min_file_size_bytes, 384 * 1024 * 1024);
    assert_eq!(action.max_file_size_bytes, 921 * 1024 * 1024);
    assert_eq!(action.min_input_files, 5);
    assert_eq!(action.max_file_group_size_bytes, 100 * 1024 * 1024 * 1024);
    assert!(!action.partial_progress);
    let action = action
        .target_file_size_bytes(1)
        .min_file_size_bytes(2)
        .max_file_size_bytes(3)
        .min_input_files(4)
        .max_file_group_size_bytes(5)
        .partial_progress(true);
    assert_eq!(action.target_file_size_bytes, 1);
    assert_eq!(action.min_file_size_bytes, 2);
    assert_eq!(action.max_file_size_bytes, 3);
    assert_eq!(action.min_input_files, 4);
    assert_eq!(action.max_file_group_size_bytes, 5);
    assert!(action.partial_progress);
}

#[test]
fn candidates_are_undersized_or_oversized() {
    let world = World::empty();
    let action = RewriteDataFiles::new(&world.table, PassthroughFileRewriter)
        .min_file_size_bytes(10)
        .max_file_size_bytes(20);
    let files: Vec<DataFile> =
        [9u64, 10, 20, 21].iter().map(|n| make_data_file(&format!("f{n}"), *n, "")).collect();
    assert_eq!(paths(&action.select_candidates(&files)), vec!["f9", "f21"]);
}

#[test]
fn files_are_packed_in_order() {
    let world = World::empty();
    let spec = world.table.metadata.default_partition_spec.clone();
    let action = RewriteDataFiles::new(&world.table, PassthroughFileRewriter)
        .max_file_group_size_bytes(10)
        .target_file_size_bytes(99);
    let files: Vec<DataFile> = [4u64, 6, 1, 30, 10, 1, 9]
        .iter()
        .enumerate()
        .map(|(i, n)| make_data_file(&format!("f{i}"), *n, "p"))
        .collect();
    let value = Struct { encoding: "p".to_string() };
    let groups = action.bin_pack(&files, &value, &spec);
    let packed: Vec<Vec<String>> =
        groups.iter().map(|g| paths(&g.data_files_for_delete())).collect();
    assert_eq!(
        packed,
        vec![vec!["f0", "f1"], vec!["f2"], vec!["f3"], vec!["f4"], vec!["f5", "f6"]]
    );
    for g in &groups {
        assert_eq!(g.target_file_size_bytes, 99);
        assert_eq!(g.partition_spec.spec_id, 0);
        assert_eq!(g.partition_value.as_ref().unwrap().encoding, "p");
    }
    assert!(action.bin_pack(&Vec::new(), &value, &spec).is_empty());
    let huge = vec![make_data_file("a", u64::MAX, "p"), make_data_file("b", 1, "p")];
    assert_eq!(action.bin_pack(&huge, &value, &spec).len(), 2);
}

#[test]
fn groups_do_not_cross_partitions() {
    let mut files = Vec::new();
    for i in 0..3 {
        files.push(make_data_file(&format!("b{i}"), 1, "b"));
        files.push(make_data_file(&format!("a{i}"), 1, "a"));
    }
    files.push(make_data_file("c0", 1, "c"));
    let world = World::with_files(files);
    let action = RewriteDataFiles::new(&world.table, PassthroughFileRewriter).min_input_files(3);
    let mut outside = Outside::default();
    let result = run(&world, action, &mut outside).unwrap();
    assert_eq!(outside.groups, vec![vec!["b0", "b1", "b2"], vec!["a0", "a1", "a2"]]);
    assert_eq!(result.rewritten_data_files_count, 6);
    let all = vec!["b0", "b1", "b2", "a0", "a1", "a2"];
    assert_eq!(outside.commits[0].0, all);
    assert_eq!(outside.commits[0].1, all);
}

#[test]
fn only_live_data_files_are_rewritten() {
    let mut world = World::with_files(vec![make_data_file("a", 1, "")]);
    let mut deletes = make_data_file("pos", 1, "");
    deletes.content = DataContentType::PositionDeletes;
    world.add_manifest(
        "m2",
        ManifestContentType::Data,
        vec![
            entry(make_data_file("dead", 1, ""), ManifestStatus::Deleted),
            entry(make_data_file("dead", 1, ""), ManifestStatus::Added),
            entry(make_data_file("a", 1, ""), ManifestStatus::Existing),
            entry(make_data_file("b", 1, ""), ManifestStatus::Existing),
            entry(deletes.clone(), ManifestStatus::Added),
        ],
    );
    world.add_manifest(
        "m3",
        ManifestContentType::Deletes,
        vec![entry(make_data_file("hidden", 1, ""), ManifestStatus::Added)],
    );
    let action = RewriteDataFiles::new(&world.table, PassthroughFileRewriter).min_input_files(1);
    let mut outside = Outside::default();
    run(&world, action, &mut outside).unwrap();
    assert_eq!(outside.groups, vec![vec!["a", "b"]]);
}

#[test]
fn a_failed_rewrite_ends_an_all_at_once_run() {
    let world = World::with_files(small_files(6));
    let action = RewriteDataFiles::new(&world.table, FailOnceFileRewriter::new());
    let mut outside = Outside::default();
    let err = run(&world, action, &mut outside).unwrap_err();
    assert_eq!(err.message, "simulated first-call failure");
    assert!(outside.commits.is_empty());
    assert!(outside.cleaned.is_empty());
}

#[test]
fn a_failed_apply_is_quoted() {
    let world = World::with_files(small_files(6));
    let action = RewriteDataFiles::new(&world.table, PassthroughFileRewriter);
    let mut outside = Outside { fail_apply: Some(0), ..Outside::default() };
    let err = run(&world, action, &mut outside).unwrap_err();
    assert_eq!(err.kind, ErrorKind::Unexpected);
    assert_eq!(err.message, "Failed to apply rewrite files action: bad state");
    assert!(outside.cleaned.is_empty());
}

#[test]
fn a_failed_commit_is_cleaned_up() {
    let world = World::with_files(small_files(6));
    let action = RewriteDataFiles::new(&world.table, PassthroughFileRewriter);
    let mut outside = Outside { fail_commit: Some(0), ..Outside::default() };
    let err = run(&world, action, &mut outside).unwrap_err();
    assert_eq!(err.message, "conflict");
    assert_eq!(outside.cleaned.len(), 6);
    assert_eq!(outside.cleaned[0], "data/small-0.parquet");
}

#[test]
fn partial_progress_survives_failed_commits_and_applies() {
    for (fail_apply, fail_commit) in [(Some(0), None), (None, Some(1)), (Some(1), Some(2))] {
        let world = World::with_files(small_files(6));
        let action = RewriteDataFiles::new(&world.table, PassthroughFileRewriter)
            .max_file_group_size_bytes(2 * 1024)
            .partial_progress(true);
        let failures = fail_apply.iter().len() + fail_commit.iter().len();
        let mut outside = Outside { fail_apply, fail_commit, ..Outside::default() };
        let result = run(&world, action, &mut outside).unwrap();
        assert_eq!(outside.reloads, 3);
        assert_eq!(result.failed_data_files_count as usize, 2 * failures);
        assert_eq!(result.rewritten_data_files_count as usize, 6 - 2 * failures);
        assert_eq!(result.added_data_files_count as usize, 6 - 2 * failures);
        assert_eq!(result.rewritten_bytes_count as usize, 1024 * (6 - 2 * failures));
        assert_eq!(outside.cleaned.len(), 2 * failures);
    }
}

#[test]
fn a_failed_reload_fails_its_group_only() {
    let world = World::with_files(small_files(6));
    let action = RewriteDataFiles::new(&world.table, PassthroughFileRewriter)
        .partial_progress(true)
        .max_file_group_size_bytes(3 * 1024);
    let mut outside = Outside { fail_reload: Some(0), ..Outside::default() };
    let result = run(&world, action, &mut outside).unwrap();
    assert_eq!(outside.groups.len(), 2);
    assert_eq!(result.failed_data_files_count, 3);
    assert_eq!(result.rewritten_data_files_count, 3);
    assert_eq!(result.added_data_files_count, 3);
    assert_eq!(result.rewritten_bytes_count, 3 * 1024);
    assert_eq!(outside.cleaned, outside.groups[0]);
    assert_eq!(outside.commits, vec![(outside.groups[1].clone(), outside.groups[1].clone())]);
}

#[test]
fn partial_progress_sums_up_the_groups_committed() {
    let files: Vec<DataFile> = (0..6)
        .map(|i| make_data_file(&format!("f{i}"), 100 + i, ""))
        .collect();
    let world = World::with_files(files);
    let action = RewriteDataFiles::new(&world.table, PassthroughFileRewriter)
        .partial_progress(true)
        .max_file_group_size_bytes(210);
    let mut outside = Outside { fail_commit: Some(1), ..Outside::default() };
    let result = run(&world, action, &mut outside).unwrap();
    assert_eq!(outside.groups.len(), 3);
    assert_eq!(result.rewritten_data_files_count, 4);
    assert_eq!(result.added_data_files_count, 4);
    assert_eq!(result.rewritten_bytes_count, 100 + 101 + 104 + 105);
    assert_eq!(result.failed_data_files_count, 2);
}

#[test]
fn packing_makes_as_few_groups_as_can_be() {
    let sizes: [u64; 6] = [40, 70, 30, 50, 120, 10];
    let files: Vec<DataFile> = sizes
        .iter()
        .enumerate()
        .map(|(i, size)| make_data_file(&format!("f{i}"), *size, ""))
        .collect();
    let world = World::empty();
    let action = RewriteDataFiles::new(&world.table, PassthroughFileRewriter)
        .max_file_group_size_bytes(100);
    let spec = Arc::clone(&world.table.metadata.default_partition_spec);
    let groups = action.bin_pack(&files, &Struct::empty(), &spec);
    let lengths: Vec<usize> = groups.iter().map(|g| g.tasks.len()).collect();
    assert_eq!(lengths, vec![1, 2, 1, 1, 1]);
    // Every way to cut the files into groups within the limit has at least as many.
    for cuts in 0u32..32 {
        let mut packs: Vec<Vec<u64>> = vec![vec![sizes[0]]];
        for (i, size) in sizes.iter().enumerate().skip(1) {
            if cuts & (1 << (i - 1)) != 0 {
                packs.push(Vec::new());
            }
            packs.last_mut().unwrap().push(*size);
        }
        let fits = packs.iter().all(|p| p.len() == 1 || p.iter().sum::<u64>() <= 100);
        assert!(!fits || packs.len() >= groups.len());
    }
}

#[test]
fn bytes_that_cannot_be_counted_are_reported() {
    let files = vec![
        make_data_file("a", u64::MAX, ""),
        make_data_file("b", u64::MAX, ""),
    ];
    let world = World::with_files(files);
    let action = RewriteDataFiles::new(&world.table, PassthroughFileRewriter)
        .min_input_files(2)
        .max_file_group_size_bytes(u64::MAX);
    let step = match action.execute() {
        RewriteStep::LoadManifestList(p) => p.resume(Ok(world.list.clone())),
        _ => panic!("expected a list"),
    };
    let step = match step {
        RewriteStep::ReadManifest(p) => p.resume(Ok(world.manifests["m"].clone())),
        _ => panic!("expected a manifest"),
    };
    let step = match step {
        RewriteStep::Rewrite(p) => {
            assert!(p.can_count_bytes());
            match p.rewrite() {
                RewriteOutcome::Finished(r) => p.resume(r),
                RewriteOutcome::Compact(_) => panic!("no compaction here"),
            }
        }
        _ => panic!("expected a group"),
    };
    match step {
        RewriteStep::Rewrite(p) => assert!(!p.can_count_bytes()),
        _ => panic!("expected a second group"),
    }
}

#[test]
fn failures_of_reads_end_the_compaction() {
    let world = World::with_files(small_files(6));
    let fail = || Error::new(ErrorKind::Unexpected, "gone".to_string());
    let step = match RewriteDataFiles::new(&world.table, PassthroughFileRewriter).execute() {
        RewriteStep::LoadManifestList(p) => p.resume(Err(fail())),
        _ => panic!("expected a list"),
    };
    assert!(matches!(step, RewriteStep::Finished(Err(e)) if e.message == "gone"));
    let step = match RewriteDataFiles::new(&world.table, PassthroughFileRewriter).execute() {
        RewriteStep::LoadManifestList(p) => p.resume(Ok(world.list.clone())),
        _ => panic!("expected a list"),
    };
    let step = match step {
        RewriteStep::ReadManifest(p) => p.resume(Err(fail())),
        _ => panic!("expected a manifest"),
    };
    assert!(matches!(step, RewriteStep::Finished(Err(e)) if e.message == "gone"));
    assert_eq!(RewriteDataFilesResult::default().rewritten_data_files_count, 0);
}
