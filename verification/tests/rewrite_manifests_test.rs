use std::collections::{HashMap, HashSet};
use std::sync::Arc;

use iceberg_actions::error::{Error, ErrorKind};
use iceberg_actions::model::{
    DataContentType, DataFile, DataFileFormat, FormatVersion, ManifestContentType, ManifestEntry,
    ManifestFile, ManifestStatus, Operation, PartitionSpec, Snapshot, Struct, Table,
    TableMetadata,
};
use iceberg_actions::rewrite_manifests::{
    count_outputs, GroupKey, ManifestsStep, RewriteManifests, RewriteManifestsResult,
};
use iceberg_actions::rewrite_manifests_action::{
    ManifestWriterKind, MergedManifestGroup, MergedManifestStep, RewriteManifestsAction,
};

struct World {
    table: Table,
    list: Vec<ManifestFile>,
    manifests: HashMap<String, Vec<ManifestEntry>>,
}

fn entry(path: &str, status: ManifestStatus) -> ManifestEntry {
    ManifestEntry {
        status,
        snapshot_id: Some(5),
        sequence_number: Some(2),
        file_sequence_number: Some(1),
        data_file: DataFile {
            content: DataContentType::Data,
            file_path: path.to_string(),
            file_format: DataFileFormat::Parquet,
            partition: Struct::empty(),
            partition_spec_id: 0,
            record_count: 1,
            file_size_in_bytes: 10,
        },
    }
}

impl World {
    fn empty(version: FormatVersion) -> World {
        let spec = Arc::new(PartitionSpec { spec_id: 0, fields: Vec::new() });
        let mut metadata = TableMetadata::new(1, "mem://t".to_string(), version, spec);
        metadata.current_schema_id = 6;
        World {
            table: Table { identifier: "ns.t".to_string(), metadata, metadata_location: None },
            list: Vec::new(),
            manifests: HashMap::new(),
        }
    }

    fn with_snapshot(version: FormatVersion) -> World {
        let mut world = World::empty(version);
        world.table.metadata.snapshots.push(Snapshot {
            snapshot_id: 3,
            parent_snapshot_id: None,
            sequence_number: 1,
            timestamp_ms: 1,
            manifest_list: "list".to_string(),
        });
        world.table.metadata.current_snapshot_id = Some(3);
        world
    }

    fn add(&mut self, path: &str, content: ManifestContentType, spec: i32, length: i64, files: &[&str]) {
        self.list.push(ManifestFile {
            manifest_path: path.to_string(),
            manifest_length: length,
            partition_spec_id: spec,
            content,
            added_files_count: Some(1),
            existing_files_count: Some(0),
        });
        let entries = files.iter().map(|f| entry(f, ManifestStatus::Added)).collect();
        self.manifests.insert(path.to_string(), entries);
    }

    /// A table with `n` manifests of one file each.
    fn appended(n: usize) -> World {
        let mut world = World::with_snapshot(FormatVersion::V2);
        for i in 0..n {
            let f = format!("f{i}");
            world.add(&format!("m{i}"), ManifestContentType::Data, 0, 100, &[f.as_str()]);
        }
        world
    }
}

fn run(world: &World, action: RewriteManifests) -> (Result<RewriteManifestsResult, Error>, Option<RewriteManifestsAction>, Vec<String>) {
    let mut read = Vec::new();
    let mut applied = None;
    let mut step = action.execute();
    loop {
        step = match step {
            ManifestsStep::Finished(r) => return (r, applied, read),
            ManifestsStep::LoadManifestList(p) => {
                assert_eq!(p.path(), "list");
                p.resume(Ok(world.list.clone()))
            }
            ManifestsStep::ReadManifest(p) => {
                read.push(p.path().to_string());
                let entries = world.manifests[p.path()].clone();
                assert!(p.can_go_on(&entries));
                p.resume(Ok(entries))
            }
            ManifestsStep::Apply(p) => {
                let (action, waiting) = p.take_action();
                applied = Some(action);
                waiting.resume(Ok(()))
            }
            ManifestsStep::Commit(p) => return (p.resume(Ok(())), applied, read),
        };
    }
}

/// What a snapshot with merged manifests was given.
#[derive(Default)]
struct Written {
    paths: Vec<String>,
    kinds: Vec<ManifestWriterKind>,
    files: Vec<Vec<String>>,
    numbers: Vec<(i64, i64, Option<i64>)>,
}

/// Has the manifests of an action written.
fn write(world: &World, action: RewriteManifestsAction) -> (Result<Vec<ManifestFile>, Error>, Written) {
    let request = action.commit_as(0x0190_0000_0000_7abc_8def_0123_4567_89ab).unwrap();
    let mut written = Written::default();
    let mut step =
        request.operation.existing_manifest(&world.table, 8, request.commit_uuid);
    loop {
        step = match step {
            MergedManifestStep::Finished(r) => return (r, written),
            MergedManifestStep::OpenManifest(p) => {
                let m = p.manifest();
                assert_eq!(m.snapshot_id, 8);
                assert_eq!(m.schema_id, 6);
                assert_eq!(m.partition_spec.spec_id, 0);
                written.paths.push(m.path);
                written.kinds.push(m.kind);
                written.files.push(Vec::new());
                p.resume(Ok(()))
            }
            MergedManifestStep::AddExistingFile(p) => {
                let f = p.file();
                written.files.last_mut().unwrap().push(f.data_file.file_path);
                written.numbers.push((f.snapshot_id, f.sequence_number, f.file_sequence_number));
                p.resume(Ok(()))
            }
            MergedManifestStep::WriteManifest(p) => {
                let m = ManifestFile {
                    manifest_path: written.paths.last().unwrap().clone(),
                    manifest_length: 1,
                    partition_spec_id: 0,
                    content: ManifestContentType::Data,
                    added_files_count: Some(0),
                    existing_files_count: Some(1),
                };
                p.resume(Ok(m))
            }
        };
    }
}

#[test]
fn test_rewrite_manifests_empty_table() {
    let world = World::empty(FormatVersion::V2);
    let (result, _, _) = run(&world, RewriteManifests::new(&world.table));
    let result = result.unwrap();
    assert_eq!(result.rewritten_manifests_count, 0);
    assert_eq!(result.added_manifests_count, 0);
}

#[test]
fn test_rewrite_manifests_single_manifest_noop() {
    let world = World::appended(1);
    let action = RewriteManifests::new(&world.table).target_size_bytes(u64::MAX);
    let result = run(&world, action).0.unwrap();
    assert_eq!(result.rewritten_manifests_count, 0);
    assert_eq!(result.added_manifests_count, 0);
}

#[test]
fn test_rewrite_manifests_merges_small_manifests() {
    let world = World::appended(4);
    let action = RewriteManifests::new(&world.table).target_size_bytes(u64::MAX);
    let (result, applied, _) = run(&world, action);
    let result = result.unwrap();
    assert_eq!(result.rewritten_manifests_count, 4);
    assert_eq!(result.added_manifests_count, 1);
    let (manifests, _) = write(&world, applied.unwrap());
    assert_eq!(manifests.unwrap().len(), 1);
}

#[test]
fn test_rewrite_manifests_noop_when_already_large() {
    let world = World::appended(3);
    let action = RewriteManifests::new(&world.table).target_size_bytes(0);
    let result = run(&world, action).0.unwrap();
    assert_eq!(result.rewritten_manifests_count, 0);
    assert_eq!(result.added_manifests_count, 0);
}

#[test]
fn test_rewrite_manifests_preserves_entries() {
    let world = World::appended(3);
    let before: HashSet<String> = world
        .manifests
        .values()
        .flatten()
        .map(|e| e.data_file.file_path.clone())
        .collect();
    assert_eq!(before.len(), 3);
    let action = RewriteManifests::new(&world.table).target_size_bytes(u64::MAX);
    let (_, applied, _) = run(&world, action);
    let (_, written) = write(&world, applied.unwrap());
    let after: HashSet<String> = written.files.into_iter().flatten().collect();
    assert_eq!(after.len(), 3);
    assert_eq!(before, after);
}

#[test]
fn default_target_is_eight_mebibytes() {
    let world = World::empty(FormatVersion::V2);
    assert_eq!(RewriteManifests::new(&world.table).target_size_bytes, 8 * 1024 * 1024);
    assert_eq!(
        RewriteManifestsResult::default(),
        RewriteManifestsResult { rewritten_manifests_count: 0, added_manifests_count: 0 }
    );
}

#[test]
fn contents_and_specs_are_not_mixed() {
    let mut world = World::with_snapshot(FormatVersion::V2);
    world
        .table
        .metadata
        .partition_specs
        .push(Arc::new(PartitionSpec { spec_id: 1, fields: Vec::new() }));
    world.add("d0", ManifestContentType::Deletes, 0, 10, &["x0"]);
    world.add("a0", ManifestContentType::Data, 0, 10, &["a"]);
    world.add("big", ManifestContentType::Data, 0, 1000, &["z"]);
    world.add("b0", ManifestContentType::Data, 1, 10, &["b"]);
    world.add("a1", ManifestContentType::Data, 0, 10, &["c"]);
    world.add("d1", ManifestContentType::Deletes, 0, 10, &["x1"]);
    world.add("odd", ManifestContentType::Data, 0, -1, &["w"]);
    let action = RewriteManifests::new(&world.table).target_size_bytes(100);
    let keys = action.list_merge_keys(&world.list);
    assert_eq!(
        keys,
        vec![
            GroupKey { content_type: ManifestContentType::Deletes, spec_id: 0 },
            GroupKey { content_type: ManifestContentType::Data, spec_id: 0 },
        ]
    );
    let (result, applied, read) = run(&world, action);
    let result = result.unwrap();
    assert_eq!(result.rewritten_manifests_count, 4);
    assert_eq!(result.added_manifests_count, 2);
    assert_eq!(read, vec!["d0", "d1", "a0", "a1"]);
    let applied = applied.unwrap();
    let kept: Vec<&str> =
        applied.kept_manifests.iter().map(|m| m.manifest_path.as_str()).collect();
    assert_eq!(kept, vec!["big", "odd", "b0"]);
    assert_eq!(applied.merge_groups[0].content_type, ManifestContentType::Deletes);
    assert_eq!(applied.merge_groups[1].content_type, ManifestContentType::Data);
    assert_eq!(applied.merge_groups[1].entries.len(), 2);
    let (manifests, written) = write(&world, applied);
    assert_eq!(manifests.unwrap().len(), 5);
    assert_eq!(written.kinds, vec![ManifestWriterKind::V2Deletes, ManifestWriterKind::V2Data]);
}

#[test]
fn large_groups_are_split() {
    let mut world = World::with_snapshot(FormatVersion::V2);
    world.add("m0", ManifestContentType::Data, 0, 90, &["a", "b", "c"]);
    world.add("m1", ManifestContentType::Data, 0, 90, &["d", "e"]);
    world.add("m2", ManifestContentType::Data, 0, 90, &["f", "g"]);
    let action = RewriteManifests::new(&world.table).target_size_bytes(100);
    let (result, applied, _) = run(&world, action);
    assert_eq!(result.unwrap().added_manifests_count, 3);
    let (_, written) = write(&world, applied.unwrap());
    assert_eq!(written.files, vec![vec!["a", "b", "c"], vec!["d", "e", "f"], vec!["g"]]);
}

#[test]
fn every_live_file_is_kept_or_merged() {
    let mut world = World::with_snapshot(FormatVersion::V2);
    world.add("big", ManifestContentType::Data, 0, 500, &["a", "b"]);
    world.add("m0", ManifestContentType::Data, 0, 10, &["c"]);
    world.add("d0", ManifestContentType::Deletes, 0, 10, &["d"]);
    world.add("m1", ManifestContentType::Data, 0, 10, &["e", "f"]);
    world.manifests.get_mut("m1").unwrap()[1].status = ManifestStatus::Deleted;
    let action = RewriteManifests::new(&world.table).target_size_bytes(100);
    let (result, applied, _) = run(&world, action);
    let applied = applied.unwrap();
    let result = result.unwrap();
    assert_eq!(
        result.rewritten_manifests_count as usize,
        world.list.len() - applied.kept_manifests.len()
    );
    assert!(result.added_manifests_count <= result.rewritten_manifests_count);
    let mut files: Vec<String> = Vec::new();
    for m in &applied.kept_manifests {
        files.extend(world.manifests[&m.manifest_path].iter().map(|e| e.data_file.file_path.clone()));
    }
    for g in &applied.merge_groups {
        files.extend(g.entries.iter().map(|e| e.data_file.file_path.clone()));
    }
    files.sort();
    assert_eq!(files, vec!["a", "b", "c", "d", "e"]);
}

#[test]
fn numbers_of_outputs() {
    assert_eq!(count_outputs(0, 100), 1);
    assert_eq!(count_outputs(100, 100), 1);
    assert_eq!(count_outputs(101, 100), 2);
    assert_eq!(count_outputs(300, 100), 3);
    assert_eq!(count_outputs(5, 0), 1);
    assert_eq!(count_outputs(u64::MAX, 2), u64::MAX / 2);
    assert_eq!(count_outputs(u64::MAX, u64::MAX - 1), 1);
}

#[test]
fn entries_that_are_not_alive_are_dropped() {
    let mut world = World::appended(2);
    world.manifests.get_mut("m0").unwrap()[0].status = ManifestStatus::Deleted;
    let action = RewriteManifests::new(&world.table);
    let (result, applied, _) = run(&world, action);
    let result = result.unwrap();
    assert_eq!((result.rewritten_manifests_count, result.added_manifests_count), (2, 1));
    assert_eq!(applied.unwrap().merge_groups[0].entries.len(), 1);

    world.manifests.get_mut("m1").unwrap()[0].status = ManifestStatus::Deleted;
    let (result, applied, _) = run(&world, RewriteManifests::new(&world.table));
    let result = result.unwrap();
    assert_eq!((result.rewritten_manifests_count, result.added_manifests_count), (2, 0));
    let err = match applied.unwrap().commit() {
        Err(e) => e,
        Ok(_) => panic!("no manifest is left"),
    };
    assert_eq!(err.message, "Rewrite manifests action requires at least one manifest");
}

#[test]
fn a_missing_partition_spec_is_refused() {
    let mut world = World::with_snapshot(FormatVersion::V2);
    world.add("a0", ManifestContentType::Data, -4, 10, &["a"]);
    world.add("a1", ManifestContentType::Data, -4, 10, &["b"]);
    let (result, _, read) = run(&world, RewriteManifests::new(&world.table));
    let err = result.unwrap_err();
    assert_eq!(err.kind, ErrorKind::DataInvalid);
    assert_eq!(err.message, "Partition spec -4 not found in table metadata");
    assert!(read.is_empty());
}

#[test]
fn failures_end_the_merging() {
    let world = World::appended(2);
    let fail = || Error::new(ErrorKind::Unexpected, "gone".to_string());
    let begin = || match RewriteManifests::new(&world.table).execute() {
        ManifestsStep::LoadManifestList(p) => p,
        _ => panic!("expected a list"),
    };
    assert!(matches!(
        begin().resume(Err(fail())),
        ManifestsStep::Finished(Err(e)) if e.message == "gone"
    ));
    let step = match begin().resume(Ok(world.list.clone())) {
        ManifestsStep::ReadManifest(p) => p.resume(Err(fail())),
        _ => panic!("expected a manifest"),
    };
    assert!(matches!(step, ManifestsStep::Finished(Err(e)) if e.message == "gone"));
    let apply = || {
        let mut step = begin().resume(Ok(world.list.clone()));
        loop {
            step = match step {
                ManifestsStep::ReadManifest(p) => {
                    let entries = world.manifests[p.path()].clone();
                    p.resume(Ok(entries))
                }
                ManifestsStep::Apply(p) => return p.take_action().1,
                _ => panic!("expected reads"),
            };
        }
    };
    match apply().resume(Err("bad state".to_string())) {
        ManifestsStep::Finished(Err(e)) => {
            assert_eq!(e.kind, ErrorKind::Unexpected);
            assert_eq!(e.message, "Failed to apply rewrite manifests action: bad state");
        }
        _ => panic!("expected an error"),
    }
    match apply().resume(Ok(())) {
        ManifestsStep::Commit(p) => assert_eq!(p.resume(Err(fail())).unwrap_err().message, "gone"),
        _ => panic!("expected the commit"),
    }
}

fn group(content_type: ManifestContentType, files: &[&str]) -> MergedManifestGroup {
    MergedManifestGroup {
        entries: files.iter().map(|f| entry(f, ManifestStatus::Existing)).collect(),
        content_type,
        partition_spec: Arc::new(PartitionSpec { spec_id: 0, fields: Vec::new() }),
    }
}

#[test]
fn merged_manifests_are_written_after_the_kept_ones() {
    let world = World::empty(FormatVersion::V3);
    let mut kept = World::appended(1).list;
    kept[0].manifest_path = "kept".to_string();
    let action = RewriteManifestsAction::new()
        .with_kept_manifests(kept)
        .add_merge_group(group(ManifestContentType::Data, &[]))
        .add_merge_group(group(ManifestContentType::Data, &["a", "b"]))
        .add_merge_group(group(ManifestContentType::Deletes, &["c"]));
    let (manifests, written) = write(&world, action);
    let paths: Vec<String> = manifests.unwrap().into_iter().map(|m| m.manifest_path).collect();
    assert_eq!(
        paths,
        vec![
            "kept",
            "mem://t/metadata/01900000-0000-7abc-8def-0123456789ab-m1.avro",
            "mem://t/metadata/01900000-0000-7abc-8def-0123456789ab-m2.avro",
        ]
    );
    assert_eq!(written.kinds, vec![ManifestWriterKind::V3Data, ManifestWriterKind::V3Deletes]);
    assert_eq!(written.files, vec![vec!["a", "b"], vec!["c"]]);
    assert_eq!(written.numbers, vec![(5, 2, Some(1)); 3]);
}

#[test]
fn version_1_has_one_kind_of_manifest() {
    let world = World::empty(FormatVersion::V1);
    let action = RewriteManifestsAction::new()
        .add_merge_group(group(ManifestContentType::Data, &["a"]))
        .add_merge_group(group(ManifestContentType::Deletes, &["c"]));
    let (_, written) = write(&world, action);
    assert_eq!(written.kinds, vec![ManifestWriterKind::V1, ManifestWriterKind::V1]);
}

#[test]
fn entries_need_their_snapshot() {
    let world = World::empty(FormatVersion::V2);
    let mut g = group(ManifestContentType::Data, &["a", "b"]);
    g.entries[0].sequence_number = None;
    g.entries[0].file_sequence_number = None;
    g.entries[1].snapshot_id = None;
    let (result, written) = write(&world, RewriteManifestsAction::new().add_merge_group(g));
    let err = result.unwrap_err();
    assert_eq!(err.kind, ErrorKind::DataInvalid);
    assert_eq!(err.message, "Manifest entry missing snapshot_id");
    assert_eq!(written.numbers, vec![(5, 0, None)]);
}

#[test]
fn failures_end_the_writing() {
    let world = World::empty(FormatVersion::V2);
    let fail = || Error::new(ErrorKind::Unexpected, "full".to_string());
    let request = RewriteManifestsAction::new()
        .add_merge_group(group(ManifestContentType::Data, &["a"]))
        .commit()
        .unwrap();
    let open = || match request.operation.existing_manifest(&world.table, 8, 1) {
        MergedManifestStep::OpenManifest(p) => p,
        _ => panic!("expected a manifest"),
    };
    assert!(matches!(
        open().resume(Err(fail())),
        MergedManifestStep::Finished(Err(e)) if e.message == "full"
    ));
    let record = || match open().resume(Ok(())) {
        MergedManifestStep::AddExistingFile(p) => p,
        _ => panic!("expected a file"),
    };
    assert!(matches!(
        record().resume(Err(fail())),
        MergedManifestStep::Finished(Err(e)) if e.message == "full"
    ));
    match record().resume(Ok(())) {
        MergedManifestStep::WriteManifest(p) => assert!(matches!(
            p.resume(Err(fail())),
            MergedManifestStep::Finished(Err(e)) if e.message == "full"
        )),
        _ => panic!("expected the writing"),
    }
}

#[test]
fn request_of_a_manifest_rewrite() {
    let request = RewriteManifestsAction::new()
        .add_merge_group(group(ManifestContentType::Data, &["a"]))
        .commit()
        .unwrap();
    assert_eq!(request.operation.operation(), Operation::Replace);
    assert!(request.operation.delete_entries().unwrap().is_empty());
    assert!(request.added_data_files.is_empty());
    assert!(!request.validate_added_files);
    assert_eq!(
        request.snapshot_properties.get("iceberg.action").map(|s| s.as_str()),
        Some("rewrite-manifests")
    );
    assert_eq!(uuid::Uuid::from_u128(request.commit_uuid).get_version_num(), 7);

    let mut action = RewriteManifestsAction::new()
        .add_merge_group(group(ManifestContentType::Data, &["a"]));
    action.snapshot_properties.insert("iceberg.action".to_string(), "mine".to_string());
    let request = action.commit_as(9).unwrap();
    assert_eq!(request.commit_uuid, 9);
    assert_eq!(
        request.snapshot_properties.get("iceberg.action").map(|s| s.as_str()),
        Some("mine")
    );
}
