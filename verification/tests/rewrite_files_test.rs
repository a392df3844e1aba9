use std::collections::HashMap;
use std::sync::Arc;

use iceberg_actions::error::{Error, ErrorKind};
use iceberg_actions::existing_manifests::{CarriedManifests, ExistingManifestStep};
use iceberg_actions::model::{
    DataContentType, DataFile, DataFileFormat, FormatVersion, ManifestContentType,
    ManifestContents, ManifestEntry, ManifestFile, ManifestStatus, Operation, PartitionSpec, Snapshot, Struct, Table,
    TableMetadata,
};
use iceberg_actions::rewrite_files::{
    DeleteEntriesStep, RewriteFilesAction, RewriteFilesOperation,
};
use iceberg_actions::rewrite_manifests_action::{
    ExistingFile, ManifestWriterKind, MergedManifestStep, NewManifest,
};

struct World {
    table: Table,
    lists: HashMap<String, Vec<ManifestFile>>,
    manifests: HashMap<String, Vec<ManifestEntry>>,
}

fn make_data_file(path: &str, record_count: u64) -> DataFile {
    DataFile {
        content: DataContentType::Data,
        file_path: path.to_string(),
        file_format: DataFileFormat::Parquet,
        partition: Struct { encoding: "0".to_string() },
        partition_spec_id: 0,
        record_count,
        file_size_in_bytes: 100,
    }
}

fn added(file: DataFile, number: i64) -> ManifestEntry {
    ManifestEntry {
        status: ManifestStatus::Added,
        snapshot_id: Some(number),
        sequence_number: Some(number),
        file_sequence_number: Some(number),
        data_file: file,
    }
}

fn manifest(path: &str, content: ManifestContentType) -> ManifestFile {
    ManifestFile {
        manifest_path: path.to_string(),
        manifest_length: 100,
        partition_spec_id: 0,
        content,
        added_files_count: Some(1),
        existing_files_count: Some(0),
    }
}

impl World {
    fn new() -> World {
        let spec = Arc::new(PartitionSpec { spec_id: 0, fields: Vec::new() });
        let metadata = TableMetadata::new(1, "mem://t".to_string(), FormatVersion::V3, spec);
        World {
            table: Table { identifier: "ns.t".to_string(), metadata, metadata_location: None },
            lists: HashMap::new(),
            manifests: HashMap::new(),
        }
    }

    fn add_snapshot(&mut self, id: i64, list: Vec<ManifestFile>) {
        let path = format!("l{id}");
        self.lists.insert(path.clone(), list);
        let parent_snapshot_id = self.table.metadata.current_snapshot_id;
        self.table.metadata.snapshots.push(Snapshot {
            snapshot_id: id,
            parent_snapshot_id,
            sequence_number: id,
            timestamp_ms: id,
            manifest_list: path,
        });
        self.table.metadata.current_snapshot_id = Some(id);
    }

    /// Appends files in a manifest of their own.
    fn append(&mut self, files: Vec<DataFile>) -> i64 {
        let n = self.table.metadata.snapshots.len() as i64 + 1;
        let m = format!("m{n}");
        self.manifests.insert(m.clone(), files.into_iter().map(|f| added(f, n)).collect());
        let mut list = match self.table.metadata.snapshots.last() {
            Some(s) => self.lists[&s.manifest_list].clone(),
            None => Vec::new(),
        };
        list.push(manifest(&m, ManifestContentType::Data));
        self.add_snapshot(n, list);
        n
    }

    /// Adds delete files to the current snapshot's successor.
    fn append_deletes(&mut self, path: &str, partition: &str) -> i64 {
        let n = self.table.metadata.snapshots.len() as i64 + 1;
        let m = format!("d{n}");
        let mut file = make_data_file(path, 1);
        file.content = DataContentType::PositionDeletes;
        file.partition = Struct { encoding: partition.to_string() };
        self.manifests.insert(m.clone(), vec![added(file, n)]);
        let last = self.table.metadata.snapshots.last().unwrap();
        let mut list = self.lists[&last.manifest_list].clone();
        list.push(manifest(&m, ManifestContentType::Deletes));
        self.add_snapshot(n, list);
        n
    }
}

/// Runs the search for deletions to its end; returns the paths that it read, too.
fn search(world: &World, operation: &RewriteFilesOperation) -> (Result<Vec<ManifestEntry>, Error>, Vec<String>) {
    let mut read = Vec::new();
    let mut step = operation.delete_entries(&world.table);
    loop {
        step = match step {
            DeleteEntriesStep::Finished(r) => return (r, read),
            DeleteEntriesStep::LoadManifestList(p) => {
                read.push(p.path().to_string());
                let list = world.lists[p.path()].clone();
                p.resume(Ok(list))
            }
            DeleteEntriesStep::ReadManifest(p) => {
                read.push(p.path().to_string());
                let entries = world.manifests[p.path()].clone();
                p.resume(Ok(entries))
            }
        };
    }
}

fn deletions(world: &World, action: RewriteFilesAction) -> Result<Vec<ManifestEntry>, Error> {
    let request = action.commit()?;
    search(world, &request.operation).0
}

#[test]
fn test_rewrite_files_success() {
    let mut world = World::new();
    let original_file = make_data_file("test/original.parquet", 10);
    world.append(vec![original_file.clone()]);
    let replacement_file = make_data_file("test/replacement.parquet", 10);
    let request = RewriteFilesAction::new()
        .delete_files(vec![original_file])
        .add_files(vec![replacement_file])
        .commit()
        .unwrap();
    assert_eq!(request.operation.operation(), Operation::Replace);
    assert_eq!(request.added_data_files.len(), 1);
    assert_eq!(request.added_data_files[0].file_path, "test/replacement.parquet");
    assert!(request.validate_added_files);
    let deleted = search(&world, &request.operation).0.unwrap();
    assert_eq!(deleted.len(), 1);
    assert_eq!(deleted[0].status, ManifestStatus::Deleted);
    assert_eq!(deleted[0].data_file.file_path, "test/original.parquet");
}

#[test]
fn test_rewrite_files_fails_if_deleted_file_missing() {
    let mut world = World::new();
    world.append(vec![make_data_file("test/existing.parquet", 5)]);
    let ghost_file = make_data_file("test/ghost.parquet", 5);
    let replacement = make_data_file("test/replacement2.parquet", 5);
    let action = RewriteFilesAction::new()
        .delete_files(vec![ghost_file])
        .add_files(vec![replacement]);
    let err = deletions(&world, action).unwrap_err();
    assert_eq!(err.kind, ErrorKind::DataInvalid);
    assert!(err.message.contains("not found in the current snapshot"));
    assert_eq!(
        err.message,
        "Cannot commit rewrite: the following files to delete were not found in the current \
         snapshot: test/ghost.parquet"
    );
}

#[test]
fn all_missing_files_are_named_once() {
    let mut world = World::new();
    world.append(vec![make_data_file("a", 5)]);
    let action = RewriteFilesAction::new().delete_files(vec![
        make_data_file("x", 1),
        make_data_file("a", 1),
        make_data_file("y", 1),
        make_data_file("x", 1),
    ]);
    let err = deletions(&world, action).unwrap_err();
    assert!(err.message.ends_with("current snapshot: x, y"));
}

#[test]
fn an_empty_action_is_refused() {
    let err = match RewriteFilesAction::new().commit() {
        Err(e) => e,
        Ok(_) => panic!("nothing to do"),
    };
    assert_eq!(err.kind, ErrorKind::DataInvalid);
    assert_eq!(err.message, "Rewrite files action requires at least one file to delete or add");
}

#[test]
fn commits_carry_a_version_7_uuid_unless_given() {
    let request = RewriteFilesAction::new()
        .delete_files(vec![make_data_file("a", 1)])
        .commit()
        .unwrap();
    assert!(!request.validate_added_files);
    let uuid = uuid::Uuid::from_u128(request.commit_uuid);
    assert_eq!(uuid.get_version_num(), 7);
    assert_eq!(uuid.get_variant(), uuid::Variant::RFC4122);

    let mut action = RewriteFilesAction::new().delete_files(vec![make_data_file("a", 1)]);
    action.commit_uuid = Some(42);
    assert_eq!(action.commit().unwrap().commit_uuid, 42);
    let action = RewriteFilesAction::new().delete_files(vec![make_data_file("a", 1)]);
    assert_eq!(action.commit_as(43).unwrap().commit_uuid, 43);
}

#[test]
fn a_table_without_snapshot_has_nothing_to_delete() {
    let world = World::new();
    let action = RewriteFilesAction::new().delete_files(vec![make_data_file("a", 1)]);
    let err = deletions(&world, action).unwrap_err();
    assert_eq!(err.message, "Cannot delete files from a table with no current snapshot");
    let action = RewriteFilesAction::new().add_files(vec![make_data_file("a", 1)]);
    assert!(deletions(&world, action).unwrap().is_empty());
}

#[test]
fn additions_alone_read_nothing() {
    let mut world = World::new();
    world.append(vec![make_data_file("a", 5)]);
    let request =
        RewriteFilesAction::new().add_files(vec![make_data_file("b", 1)]).commit().unwrap();
    let (result, read) = search(&world, &request.operation);
    assert!(result.unwrap().is_empty());
    assert!(read.is_empty());
}

#[test]
fn the_starting_snapshot_must_be_an_ancestor() {
    let mut world = World::new();
    world.append(vec![make_data_file("a", 5)]);
    world.append(vec![make_data_file("b", 5)]);
    let action = RewriteFilesAction::new()
        .delete_files(vec![make_data_file("a", 1)])
        .validate_from_snapshot(-7);
    let err = deletions(&world, action).unwrap_err();
    assert_eq!(
        err.message,
        "Cannot commit rewrite: starting snapshot -7 is not an ancestor of the current snapshot \
         2. The table may have been rolled back or the snapshot expired."
    );
    for id in [1, 2] {
        let action = RewriteFilesAction::new()
            .delete_files(vec![make_data_file("a", 1)])
            .validate_from_snapshot(id);
        assert_eq!(deletions(&world, action).unwrap().len(), 1);
    }
}

#[test]
fn an_expired_starting_snapshot_is_refused() {
    let mut world = World::new();
    world.append(vec![make_data_file("a", 5)]);
    world.append(vec![make_data_file("b", 5)]);
    world.table.metadata.snapshots.remove(0);
    let action = RewriteFilesAction::new()
        .delete_files(vec![make_data_file("a", 1)])
        .validate_from_snapshot(1);
    let err = deletions(&world, action).unwrap_err();
    assert!(err.message.contains("the snapshot expired"));
}

#[test]
fn a_cycle_of_parents_does_not_hang() {
    let mut world = World::new();
    world.append(vec![make_data_file("a", 5)]);
    world.append(vec![make_data_file("b", 5)]);
    world.table.metadata.snapshots[0].parent_snapshot_id = Some(2);
    assert!(world.table.metadata.is_ancestor(2, 1));
    assert!(!world.table.metadata.is_ancestor(2, 3));
}

#[test]
fn files_must_be_present_in_the_starting_snapshot() {
    let mut world = World::new();
    world.append(vec![make_data_file("a", 5)]);
    world.append(vec![make_data_file("b", 5)]);
    let action = RewriteFilesAction::new()
        .delete_files(vec![make_data_file("a", 1), make_data_file("b", 1)])
        .validate_from_snapshot(1);
    let request = action.commit().unwrap();
    let (result, read) = search(&world, &request.operation);
    assert_eq!(
        result.unwrap_err().message,
        "Cannot commit rewrite: the following files to delete were not found in the starting \
         snapshot 1: b"
    );
    assert_eq!(read, vec!["l2", "m1", "m2", "l1", "m1"]);
}

#[test]
fn deleted_entries_keep_file_and_sequence_numbers() {
    let mut world = World::new();
    world.append(vec![make_data_file("a", 5), make_data_file("b", 5)]);
    let entries = world.manifests.get_mut("m1").unwrap();
    entries[0].sequence_number = Some(8);
    entries[0].file_sequence_number = Some(9);
    entries[0].snapshot_id = Some(6);
    entries[1].sequence_number = None;
    entries[1].file_sequence_number = None;
    entries[1].snapshot_id = None;
    let mut dead = added(make_data_file("a", 5), 1);
    dead.status = ManifestStatus::Deleted;
    entries.push(dead);
    let action = RewriteFilesAction::new()
        .delete_files(vec![make_data_file("a", 1)])
        .delete_files(vec![make_data_file("b", 1)]);
    let deleted = deletions(&world, action).unwrap();
    assert_eq!(deleted.len(), 2);
    assert_eq!(deleted[0].snapshot_id, Some(6));
    assert_eq!(deleted[0].sequence_number, Some(8));
    assert_eq!(deleted[0].file_sequence_number, Some(9));
    assert_eq!(deleted[0].data_file.record_count, 5);
    assert_eq!(deleted[1].snapshot_id, Some(0));
    assert_eq!(deleted[1].sequence_number, Some(0));
    assert_eq!(deleted[1].file_sequence_number, Some(0));
}

#[test]
fn new_deletes_in_the_partition_are_refused() {
    let mut world = World::new();
    world.append(vec![make_data_file("a", 5)]);
    world.append_deletes("pos-1", "0");
    let action = RewriteFilesAction::new()
        .delete_files(vec![make_data_file("a", 1)])
        .data_sequence_number(1);
    let err = deletions(&world, action).unwrap_err();
    assert_eq!(err.kind, ErrorKind::DataInvalid);
    assert_eq!(
        err.message,
        "Cannot commit rewrite: found new delete file pos-1 (sequence_number=2) added after the \
         planning snapshot (data_sequence_number=1). A concurrent operation added deletes for \
         data files being rewritten."
    );
}

#[test]
fn deletes_that_do_not_matter_are_accepted() {
    // Known at planning.
    let mut world = World::new();
    world.append(vec![make_data_file("a", 5)]);
    world.append_deletes("pos-1", "0");
    let action = RewriteFilesAction::new()
        .delete_files(vec![make_data_file("a", 1)])
        .data_sequence_number(2);
    assert_eq!(deletions(&world, action).unwrap().len(), 1);

    // In another partition.
    let mut world = World::new();
    world.append(vec![make_data_file("a", 5)]);
    world.append_deletes("pos-1", "1");
    let action = RewriteFilesAction::new()
        .delete_files(vec![make_data_file("a", 1)])
        .data_sequence_number(1);
    let request = action.commit().unwrap();
    let (result, read) = search(&world, &request.operation);
    assert_eq!(result.unwrap().len(), 1);
    assert_eq!(read, vec!["l2", "m1", "d2", "d2"]);

    // No longer alive, or without a sequence number to go by.
    let mut world = World::new();
    world.append(vec![make_data_file("a", 5)]);
    world.append_deletes("pos-1", "0");
    world.manifests.get_mut("d2").unwrap()[0].status = ManifestStatus::Deleted;
    let action = RewriteFilesAction::new()
        .delete_files(vec![make_data_file("a", 1)])
        .data_sequence_number(1);
    assert_eq!(deletions(&world, action).unwrap().len(), 1);
}

#[test]
fn failures_of_reads_end_the_search() {
    let mut world = World::new();
    world.append(vec![make_data_file("a", 5)]);
    let fail = || Error::new(ErrorKind::Unexpected, "gone".to_string());
    let request =
        RewriteFilesAction::new().delete_files(vec![make_data_file("a", 1)]).commit().unwrap();
    let step = match request.operation.delete_entries(&world.table) {
        DeleteEntriesStep::LoadManifestList(p) => p.resume(Err(fail())),
        _ => panic!("expected a list"),
    };
    assert!(matches!(step, DeleteEntriesStep::Finished(Err(e)) if e.message == "gone"));
    let step = match request.operation.delete_entries(&world.table) {
        DeleteEntriesStep::LoadManifestList(p) => p.resume(Ok(world.lists["l1"].clone())),
        _ => panic!("expected a list"),
    };
    let step = match step {
        DeleteEntriesStep::ReadManifest(p) => p.resume(Err(fail())),
        _ => panic!("expected a manifest"),
    };
    assert!(matches!(step, DeleteEntriesStep::Finished(Err(e)) if e.message == "gone"));
}

/// What a manifest with a partition spec of its own holds.
fn contents(entries: Vec<ManifestEntry>) -> ManifestContents {
    let partition_spec = Arc::new(PartitionSpec { spec_id: 9, fields: Vec::new() });
    ManifestContents { partition_spec, entries }
}

/// Takes over the manifests of the current snapshot; returns the paths that it read, too.
fn carry(
    world: &World,
    operation: &RewriteFilesOperation,
) -> (Result<CarriedManifests, Error>, Vec<String>) {
    let mut read = Vec::new();
    let mut step = operation.existing_manifest(&world.table);
    loop {
        step = match step {
            ExistingManifestStep::Finished(r) => return (r, read),
            ExistingManifestStep::LoadManifestList(p) => {
                read.push(p.path().to_string());
                let list = world.lists[p.path()].clone();
                p.resume(Ok(list))
            }
            ExistingManifestStep::ReadManifest(p) => {
                read.push(p.path().to_string());
                let entries = world.manifests[p.path()].clone();
                p.resume(Ok(contents(entries)))
            }
        };
    }
}

/// Writes what is left of manifests; returns the manifests taken over and those written.
fn write(
    world: &World,
    carried: &CarriedManifests,
) -> (Result<Vec<ManifestFile>, Error>, Vec<(NewManifest, Vec<ExistingFile>)>) {
    let mut written: Vec<(NewManifest, Vec<ExistingFile>)> = Vec::new();
    let mut step = carried.write(&world.table, 77, 5);
    loop {
        step = match step {
            MergedManifestStep::Finished(r) => return (r, written),
            MergedManifestStep::OpenManifest(p) => {
                written.push((p.manifest(), Vec::new()));
                p.resume(Ok(()))
            }
            MergedManifestStep::AddExistingFile(p) => {
                written.last_mut().unwrap().1.push(p.file());
                p.resume(Ok(()))
            }
            MergedManifestStep::WriteManifest(p) => {
                let path = written.last().unwrap().0.path.clone();
                p.resume(Ok(manifest(&path, ManifestContentType::Data)))
            }
        };
    }
}

fn paths_of(manifests: &[ManifestFile]) -> Vec<&str> {
    manifests.iter().map(|m| m.manifest_path.as_str()).collect()
}

fn deleting(path: &str) -> RewriteFilesOperation {
    RewriteFilesAction::new()
        .delete_files(vec![make_data_file(path, 1)])
        .commit()
        .unwrap()
        .operation
}

#[test]
fn existing_manifests_with_files_are_taken_over() {
    let mut world = World::new();
    let operation = deleting("a");
    let (carried, read) = carry(&world, &operation);
    assert!(carried.unwrap().manifests.kept_manifests.is_empty());
    assert!(read.is_empty());

    let mut list = Vec::new();
    for (path, added_files, existing) in [
        ("both", Some(1), Some(1)),
        ("none", Some(0), Some(0)),
        ("existing", Some(0), Some(2)),
        ("unknown", None, Some(0)),
    ] {
        let mut m = manifest(path, ManifestContentType::Data);
        m.added_files_count = added_files;
        m.existing_files_count = existing;
        list.push(m);
        world.manifests.insert(path.to_string(), vec![added(make_data_file(path, 1), 1)]);
    }
    world.add_snapshot(1, list);
    let (carried, read) = carry(&world, &operation);
    let carried = carried.unwrap();
    assert_eq!(paths_of(&carried.manifests.kept_manifests), vec!["both", "existing", "unknown"]);
    assert!(carried.manifests.merge_groups.is_empty());
    assert_eq!(read, vec!["l1", "both", "existing", "unknown"]);

    // Where nothing is deleted, no manifest has to be read.
    let adding =
        RewriteFilesAction::new().add_files(vec![make_data_file("n", 1)]).commit().unwrap();
    let (carried, read) = carry(&world, &adding.operation);
    assert_eq!(
        paths_of(&carried.unwrap().manifests.kept_manifests),
        vec!["both", "existing", "unknown"]
    );
    assert_eq!(read, vec!["l1"]);
}

#[test]
fn replaced_files_are_left_out_of_the_manifests_taken_over() {
    let mut world = World::new();
    world.append(vec![make_data_file("a", 1), make_data_file("b", 2), make_data_file("c", 3)]);
    world.append(vec![make_data_file("d", 4)]);
    world.append(vec![make_data_file("e", 5)]);
    let entries = world.manifests.get_mut("m1").unwrap();
    entries[1].sequence_number = Some(8);
    entries[1].file_sequence_number = Some(9);
    entries[2].status = ManifestStatus::Deleted;
    let operation = RewriteFilesAction::new()
        .delete_files(vec![make_data_file("a", 1), make_data_file("d", 4)])
        .add_files(vec![make_data_file("ad", 5)])
        .commit()
        .unwrap()
        .operation;
    let (carried, read) = carry(&world, &operation);
    let carried = carried.unwrap();
    assert_eq!(read, vec!["l3", "m1", "m2", "m3"]);
    assert_eq!(paths_of(&carried.manifests.kept_manifests), vec!["m3"]);

    let (manifests, written) = write(&world, &carried);
    let path = "mem://t/metadata/00000000-0000-0000-0000-000000000005-r0.avro";
    assert_eq!(paths_of(&manifests.unwrap()), vec!["m3", path]);
    assert_eq!(written.len(), 1);
    let (new, files) = &written[0];
    assert_eq!(new.path, path);
    assert_eq!(new.snapshot_id, 77);
    assert_eq!(new.partition_spec.spec_id, 9);
    assert_eq!(new.kind, ManifestWriterKind::V3Data);
    assert_eq!(files.len(), 1);
    assert_eq!(files[0].data_file.file_path, "b");
    assert_eq!(files[0].snapshot_id, 1);
    assert_eq!(files[0].sequence_number, 8);
    assert_eq!(files[0].file_sequence_number, Some(9));

    // The files of the new snapshot are those of the old one, without those deleted.
    let mut alive: Vec<String> = world.manifests["m3"]
        .iter()
        .map(|e| e.data_file.file_path.clone())
        .collect();
    alive.extend(files.iter().map(|f| f.data_file.file_path.clone()));
    assert_eq!(alive, vec!["e", "b"]);
}

#[test]
fn what_is_left_of_a_delete_manifest_stays_one() {
    let mut world = World::new();
    world.append(vec![make_data_file("a", 1)]);
    world.append_deletes("pos", "0");
    let mut other = make_data_file("a", 1);
    other.content = DataContentType::PositionDeletes;
    world.manifests.get_mut("d2").unwrap().push(added(other, 2));
    let carried = carry(&world, &deleting("a")).0.unwrap();
    assert!(carried.manifests.kept_manifests.is_empty());
    let (_, written) = write(&world, &carried);
    assert_eq!(written.len(), 1);
    assert_eq!(written[0].0.kind, ManifestWriterKind::V3Deletes);
    assert_eq!(written[0].1[0].data_file.file_path, "pos");
}

#[test]
fn what_is_left_keeps_the_partition_spec_of_its_manifest() {
    let mut world = World::new();
    world.append(vec![make_data_file("a", 1), make_data_file("b", 2)]);
    // The table itself does not know the spec.
    world.lists.get_mut("l1").unwrap()[0].partition_spec_id = 9;
    assert!(world.table.metadata.partition_spec_by_id(9).is_none());
    let carried = carry(&world, &deleting("a")).0.unwrap();
    let (manifests, written) = write(&world, &carried);
    assert_eq!(manifests.unwrap().len(), 1);
    assert_eq!(written[0].0.partition_spec.spec_id, 9);
    assert_eq!(written[0].1[0].data_file.file_path, "b");

    // A manifest of which nothing is left is dropped.
    world.manifests.get_mut("m1").unwrap().pop();
    let carried = carry(&world, &deleting("a")).0.unwrap();
    assert!(carried.manifests.kept_manifests.is_empty());
    assert!(carried.manifests.merge_groups.is_empty());
}

#[test]
fn failures_of_reads_end_the_taking_over() {
    let mut world = World::new();
    world.append(vec![make_data_file("a", 1)]);
    let fail = || Error::new(ErrorKind::Unexpected, "gone".to_string());
    let operation = deleting("a");
    let step = match operation.existing_manifest(&world.table) {
        ExistingManifestStep::LoadManifestList(p) => p.resume(Err(fail())),
        _ => panic!("expected a list"),
    };
    assert!(matches!(step, ExistingManifestStep::Finished(Err(e)) if e.message == "gone"));
    let step = match operation.existing_manifest(&world.table) {
        ExistingManifestStep::LoadManifestList(p) => p.resume(Ok(world.lists["l1"].clone())),
        _ => panic!("expected a list"),
    };
    let step = match step {
        ExistingManifestStep::ReadManifest(p) => p.resume(Err(fail())),
        _ => panic!("expected a manifest"),
    };
    assert!(matches!(step, ExistingManifestStep::Finished(Err(e)) if e.message == "gone"));
}

#[test]
fn what_is_left_may_lack_its_snapshot() {
    let mut world = World::new();
    world.append(vec![make_data_file("a", 1), make_data_file("b", 2)]);
    let entries = world.manifests.get_mut("m1").unwrap();
    entries[1].snapshot_id = None;
    entries[1].sequence_number = None;
    entries[1].file_sequence_number = None;
    let carried = carry(&world, &deleting("a")).0.unwrap();
    let (manifests, written) = write(&world, &carried);
    assert_eq!(manifests.unwrap().len(), 1);
    let file = &written[0].1[0];
    assert_eq!(file.data_file.file_path, "b");
    assert_eq!(file.snapshot_id, 0);
    assert_eq!(file.sequence_number, 0);
    assert_eq!(file.file_sequence_number, None);
}
