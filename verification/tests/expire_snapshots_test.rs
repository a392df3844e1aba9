use std::collections::{HashMap, HashSet};
use std::sync::Arc;

use iceberg_actions::error::{Error, ErrorKind};
use iceberg_actions::expire_snapshots::{
    is_gc_disabled, ExpireSnapshots, ExpireSnapshotsResult, ExpireStep, TableRequirement,
    TableUpdate,
};
use iceberg_actions::model::{
    DataContentType, DataFile, DataFileFormat, FormatVersion, ManifestContentType, ManifestEntry,
    ManifestFile, ManifestStatus, PartitionSpec, Snapshot, SnapshotReference, StatisticsFile,
    Struct, Table, TableMetadata,
};
use iceberg_actions::time::Timestamp;

/// A table in storage: what its manifest lists and manifests hold.
struct World {
    table: Table,
    lists: HashMap<String, Vec<ManifestFile>>,
    manifests: HashMap<String, Vec<ManifestEntry>>,
}

fn manifest(path: &str) -> ManifestFile {
    ManifestFile {
        manifest_path: path.to_string(),
        manifest_length: 100,
        partition_spec_id: 0,
        content: ManifestContentType::Data,
        added_files_count: Some(1),
        existing_files_count: Some(0),
    }
}

fn entry(path: &str, status: ManifestStatus, content: DataContentType) -> ManifestEntry {
    ManifestEntry {
        status,
        snapshot_id: Some(1),
        sequence_number: Some(1),
        file_sequence_number: Some(1),
        data_file: DataFile {
            content,
            file_path: path.to_string(),
            file_format: DataFileFormat::Parquet,
            partition: Struct::empty(),
            partition_spec_id: 0,
            record_count: 1,
            file_size_in_bytes: 10,
        },
    }
}

impl World {
    fn new() -> World {
        let spec = Arc::new(PartitionSpec { spec_id: 0, fields: Vec::new() });
        let metadata =
            TableMetadata::new(77, "mem://table".to_string(), FormatVersion::V2, spec);
        World {
            table: Table { identifier: "ns.t".to_string(), metadata, metadata_location: None },
            lists: HashMap::new(),
            manifests: HashMap::new(),
        }
    }

    /// Appends a snapshot whose list takes over the manifests of the one before and
    /// adds one with a file of its own. Returns the identifier of the snapshot.
    fn append(&mut self) -> i64 {
        let n = self.table.metadata.snapshots.len() as i64 + 1;
        let m = format!("m{n}");
        self.manifests
            .insert(m.clone(), vec![entry(&format!("f{n}"), ManifestStatus::Added, DataContentType::Data)]);
        let mut list = match self.table.metadata.snapshots.last() {
            Some(s) => self.lists[&s.manifest_list].clone(),
            None => Vec::new(),
        };
        list.push(manifest(&m));
        self.add_snapshot(n, list);
        n
    }

    /// Adds a snapshot with these manifests, on top of the current one.
    fn add_snapshot(&mut self, id: i64, list: Vec<ManifestFile>) {
        let path = format!("l{id}");
        self.lists.insert(path.clone(), list);
        let parent_snapshot_id = self.table.metadata.current_snapshot_id;
        self.table.metadata.snapshots.push(Snapshot {
            snapshot_id: id,
            parent_snapshot_id,
            sequence_number: id,
            timestamp_ms: 1000 * id,
            manifest_list: path,
        });
        self.table.metadata.current_snapshot_id = Some(id);
        self.table.metadata.refs =
            vec![SnapshotReference { name: "main".to_string(), snapshot_id: id }];
    }

    fn remaining(&self, removed: &[i64]) -> usize {
        self.table
            .metadata
            .snapshots
            .iter()
            .filter(|s| !removed.contains(&s.snapshot_id))
            .count()
    }
}

struct Outcome {
    result: Result<ExpireSnapshotsResult, Error>,
    removed: Vec<i64>,
    updates: usize,
    deleted: Vec<String>,
    read: Vec<String>,
}

/// Runs an action to its end.
fn run(world: &World, action: ExpireSnapshots) -> Outcome {
    run_with(world, action, None)
}

/// Runs an action to its end; reading the manifest or the list `bad` fails.
fn run_with(world: &World, action: ExpireSnapshots, bad: Option<&str>) -> Outcome {
    let mut removed = Vec::new();
    let mut updates = 0;
    let mut read = Vec::new();
    let mut step = action.execute();
    loop {
        step = match step {
            ExpireStep::Finished(result) => {
                return Outcome { result, removed, updates, deleted: Vec::new(), read }
            }
            ExpireStep::Commit(p) => {
                let commit = p.table_commit();
                assert_eq!(commit.identifier, "ns.t");
                assert_eq!(commit.requirements.len(), 1);
                assert!(matches!(
                    commit.requirements[0],
                    TableRequirement::UuidMatch { uuid: 77 }
                ));
                updates = commit.updates.len();
                match &commit.updates[0] {
                    TableUpdate::RemoveSnapshots { snapshot_ids } => removed = snapshot_ids.clone(),
                    _ => panic!("expected the removal of snapshots first"),
                }
                if bad == Some("commit") {
                    p.resume(Err(Error::new(ErrorKind::Unexpected, "conflict".to_string())))
                } else {
                    p.resume(Ok(()))
                }
            }
            ExpireStep::LoadManifestList(p) => {
                let path = p.path().to_string();
                read.push(path.clone());
                if bad == Some(path.as_str()) {
                    p.resume(Err(Error::new(ErrorKind::Unexpected, format!("no {path}"))))
                } else {
                    p.resume(Ok(world.lists[&path].clone()))
                }
            }
            ExpireStep::ReadManifest(p) => {
                let path = p.path().to_string();
                read.push(path.clone());
                if bad == Some(path.as_str()) {
                    p.resume(Err(Error::new(ErrorKind::Unexpected, format!("no {path}"))))
                } else {
                    p.resume(Ok(world.manifests[&path].clone()))
                }
            }
            ExpireStep::Delete { paths, result } => {
                return Outcome { result: Ok(result), removed, updates, deleted: paths, read }
            }
        };
    }
}

fn far_future() -> Timestamp {
    Timestamp { nanos: 4_000_000_000_000_000_000_000 }
}

#[test]
fn test_expire_empty_table() {
    let world = World::new();
    let result = run(&world, ExpireSnapshots::new(&world.table)).result.unwrap();
    assert_eq!(result.deleted_data_files_count, 0);
    assert_eq!(result.deleted_equality_delete_files_count, 0);
    assert_eq!(result.deleted_position_delete_files_count, 0);
    assert_eq!(result.deleted_manifest_files_count, 0);
    assert_eq!(result.deleted_manifest_lists_count, 0);
    assert_eq!(result.deleted_statistics_files_count, 0);
}

#[test]
fn test_expire_retains_current_snapshot() {
    let mut world = World::new();
    world.append();
    let far_past = Timestamp { nanos: 1_000_000_000 };
    let outcome = run(&world, ExpireSnapshots::new(&world.table).older_than(far_past));
    assert_eq!(world.remaining(&outcome.removed), 1);
    let result = outcome.result.unwrap();
    assert_eq!(result.deleted_data_files_count, 0);
    assert_eq!(result.deleted_manifest_files_count, 0);
    assert_eq!(result.deleted_manifest_lists_count, 0);
}

#[test]
fn test_expire_retain_last_n() {
    let mut world = World::new();
    for _ in 0..5 {
        world.append();
    }
    assert_eq!(world.table.metadata.snapshots.len(), 5);
    let action = ExpireSnapshots::new(&world.table).older_than(far_future()).retain_last(2);
    let outcome = run(&world, action);
    assert_eq!(world.remaining(&outcome.removed), 2);
    assert_eq!(outcome.removed, vec![1, 2, 3]);
    let result = outcome.result.unwrap();
    assert_eq!(result.deleted_manifest_lists_count, 3);
    assert_eq!(result.deleted_manifest_files_count, 0);
    assert_eq!(outcome.deleted, vec!["l1", "l2", "l3"]);
}

#[test]
fn test_expire_by_snapshot_id() {
    let mut world = World::new();
    world.append();
    world.append();
    world.append();
    let current_id = world.table.metadata.current_snapshot_id.unwrap();
    let parent_id = world.table.metadata.parent_of(current_id).unwrap();
    let action =
        ExpireSnapshots::new(&world.table).retain_last(100).expire_snapshot_id(parent_id);
    let outcome = run(&world, action);
    outcome.result.unwrap();
    assert_eq!(world.remaining(&outcome.removed), 2);
    assert!(outcome.removed.contains(&parent_id));
    assert!(!outcome.removed.contains(&current_id));
}

#[test]
fn test_expire_deletes_orphaned_data_files() {
    let mut world = World::new();
    world.append();
    world.append();
    let action = ExpireSnapshots::new(&world.table).older_than(far_future()).retain_last(1);
    let outcome = run(&world, action);
    assert_eq!(world.remaining(&outcome.removed), 1);
    assert!(outcome.result.unwrap().deleted_manifest_lists_count >= 1);
}

#[test]
fn test_expire_gc_disabled() {
    let mut world = World::new();
    world.table.metadata.set_property("gc.enabled".to_string(), "false".to_string());
    let err = run(&world, ExpireSnapshots::new(&world.table)).result.unwrap_err();
    assert_eq!(err.kind, ErrorKind::FeatureUnsupported);
    assert_eq!(err.message, "Cannot expire snapshots: gc.enabled is set to false");
}

#[test]
fn test_expire_no_op_when_nothing_to_expire() {
    let mut world = World::new();
    world.append();
    let outcome = run(&world, ExpireSnapshots::new(&world.table).retain_last(1));
    assert!(outcome.removed.is_empty());
    let result = outcome.result.unwrap();
    assert_eq!(result.deleted_data_files_count, 0);
    assert_eq!(result.deleted_manifest_files_count, 0);
    assert_eq!(result.deleted_manifest_lists_count, 0);
}

#[test]
fn test_expire_deletes_manifest_files() {
    let mut world = World::new();
    world.append();
    world.append();
    world.append();
    let action = ExpireSnapshots::new(&world.table).older_than(far_future()).retain_last(1);
    let outcome = run(&world, action);
    assert_eq!(world.remaining(&outcome.removed), 1);
    assert!(outcome.result.unwrap().deleted_manifest_lists_count >= 2);
}

#[test]
fn gc_property_is_compared_without_case() {
    let mut world = World::new();
    assert!(!is_gc_disabled(&world.table.metadata));
    for (value, disabled) in [("FALSE", true), ("False", true), ("true", false), ("falsey", false)] {
        world.table.metadata.set_property("gc.enabled".to_string(), value.to_string());
        assert_eq!(is_gc_disabled(&world.table.metadata), disabled);
    }
}

/// Two snapshots: the first has a file that the second deleted, a shared manifest, and
/// delete files of both kinds; the second wrote a manifest of its own.
fn rewritten() -> World {
    let mut world = World::new();
    world.manifests.insert(
        "old".to_string(),
        vec![
            entry("gone", ManifestStatus::Added, DataContentType::Data),
            entry("kept", ManifestStatus::Existing, DataContentType::Data),
            entry("gone", ManifestStatus::Existing, DataContentType::Data),
        ],
    );
    world.manifests.insert(
        "old-deletes".to_string(),
        vec![
            entry("pos", ManifestStatus::Added, DataContentType::PositionDeletes),
            entry("eq", ManifestStatus::Added, DataContentType::EqualityDeletes),
        ],
    );
    world.manifests.insert(
        "shared".to_string(),
        vec![entry("both", ManifestStatus::Added, DataContentType::Data)],
    );
    world.manifests.insert(
        "new".to_string(),
        vec![
            entry("kept", ManifestStatus::Existing, DataContentType::Data),
            entry("gone", ManifestStatus::Deleted, DataContentType::Data),
        ],
    );
    world.add_snapshot(1, vec![manifest("old"), manifest("old-deletes"), manifest("shared")]);
    world.add_snapshot(2, vec![manifest("shared"), manifest("new")]);
    world.table.metadata.statistics = vec![
        StatisticsFile { snapshot_id: 1, statistics_path: "s1".to_string() },
        StatisticsFile { snapshot_id: 2, statistics_path: "s2".to_string() },
    ];
    world.table.metadata.partition_statistics =
        vec![StatisticsFile { snapshot_id: 1, statistics_path: "p1".to_string() }];
    world
}

#[test]
fn deletes_what_only_expired_snapshots_refer_to_from_leaves_to_root() {
    let world = rewritten();
    let outcome = run(&world, ExpireSnapshots::new(&world.table));
    assert_eq!(outcome.removed, vec![1]);
    assert_eq!(outcome.updates, 3);
    assert_eq!(
        outcome.deleted,
        vec!["gone", "pos", "eq", "old", "old-deletes", "l1", "s1", "p1"]
    );
    assert_eq!(
        outcome.result.unwrap(),
        ExpireSnapshotsResult {
            deleted_data_files_count: 1,
            deleted_equality_delete_files_count: 1,
            deleted_position_delete_files_count: 1,
            deleted_manifest_files_count: 2,
            deleted_manifest_lists_count: 1,
            deleted_statistics_files_count: 2,
        }
    );
    // Retained snapshots are read first, in full.
    assert_eq!(
        outcome.read,
        vec!["l2", "shared", "new", "l1", "old", "old-deletes", "shared"]
    );
}

#[test]
fn counts_add_up_and_nothing_is_deleted_twice() {
    let world = rewritten();
    let outcome = run(&world, ExpireSnapshots::new(&world.table));
    let r = outcome.result.unwrap();
    let sum = r.deleted_data_files_count
        + r.deleted_equality_delete_files_count
        + r.deleted_position_delete_files_count
        + r.deleted_manifest_files_count
        + r.deleted_manifest_lists_count
        + r.deleted_statistics_files_count;
    assert_eq!(sum as usize, outcome.deleted.len());
    let distinct: HashSet<&String> = outcome.deleted.iter().collect();
    assert_eq!(distinct.len(), outcome.deleted.len());
}

#[test]
fn without_cleaning_only_metadata_changes() {
    let world = rewritten();
    let outcome = run(&world, ExpireSnapshots::new(&world.table).clean_expired_metadata(false));
    assert_eq!(outcome.removed, vec![1]);
    assert!(outcome.deleted.is_empty());
    assert!(outcome.read.is_empty());
    assert_eq!(outcome.result.unwrap(), ExpireSnapshotsResult::default());
}

#[test]
fn failures_end_the_action_before_any_deletion() {
    let world = rewritten();
    for (bad, message) in
        [("commit", "conflict"), ("l2", "no l2"), ("new", "no new"), ("old", "no old")]
    {
        let outcome = run_with(&world, ExpireSnapshots::new(&world.table), Some(bad));
        assert_eq!(outcome.result.unwrap_err().message, message);
        assert!(outcome.deleted.is_empty());
    }
}

#[test]
fn manifests_of_expired_snapshots_are_read_once() {
    let mut world = World::new();
    world.append();
    world.append();
    world.append();
    // The last snapshot starts afresh.
    world.manifests.insert(
        "fresh".to_string(),
        vec![entry("f9", ManifestStatus::Added, DataContentType::Data)],
    );
    world.add_snapshot(9, vec![manifest("fresh")]);
    let outcome = run(&world, ExpireSnapshots::new(&world.table));
    assert_eq!(
        outcome.read,
        vec!["l9", "fresh", "l1", "m1", "l2", "m2", "l3", "m3"]
    );
    assert_eq!(
        outcome.deleted,
        vec!["f1", "f2", "f3", "m1", "m2", "m3", "l1", "l2", "l3"]
    );
}

#[test]
fn snapshots_with_a_shared_list_keep_it() {
    let mut world = World::new();
    world.append();
    world.append();
    world.table.metadata.snapshots[1].manifest_list = "l1".to_string();
    let outcome = run(&world, ExpireSnapshots::new(&world.table));
    assert_eq!(outcome.removed, vec![1]);
    assert!(outcome.deleted.is_empty());
}

#[test]
fn retained_ids_follow_refs_ancestors_time_and_requests() {
    let mut world = World::new();
    for _ in 0..5 {
        world.append();
    }
    world
        .table
        .metadata
        .refs
        .push(SnapshotReference { name: "tag".to_string(), snapshot_id: 1 });

    let ids = ExpireSnapshots::new(&world.table).retained_ids();
    assert_eq!(ids, HashSet::from([1, 5]));

    let ids = ExpireSnapshots::new(&world.table).retain_last(3).retained_ids();
    assert_eq!(ids, HashSet::from([1, 3, 4, 5]));

    // Snapshot 4 was made at 4000 ms: not older than that.
    let ids = ExpireSnapshots::new(&world.table)
        .older_than(Timestamp { nanos: 4_000_000_000 })
        .retained_ids();
    assert_eq!(ids, HashSet::from([1, 4, 5]));

    let ids = ExpireSnapshots::new(&world.table)
        .older_than(Timestamp { nanos: 4_000_000_000 })
        .retain_last(3)
        .expire_snapshot_id(1)
        .expire_snapshot_id(4)
        .retained_ids();
    assert_eq!(ids, HashSet::from([3, 5]));
}

#[test]
fn a_time_before_the_epoch_keeps_everything() {
    let mut world = World::new();
    world.append();
    world.append();
    let ids = ExpireSnapshots::new(&world.table)
        .older_than(Timestamp { nanos: -5 })
        .retained_ids();
    assert_eq!(ids, HashSet::from([1, 2]));
}

#[test]
fn retaining_none_keeps_only_refs() {
    let mut world = World::new();
    world.append();
    world.append();
    world.table.metadata.refs.clear();
    let ids = ExpireSnapshots::new(&world.table).retain_last(0).retained_ids();
    assert!(ids.is_empty());
}
