use std::collections::HashMap;
use std::sync::Arc;

use iceberg_actions::error::{Error, ErrorKind};
use iceberg_actions::model::{
    DataContentType, DataFile, DataFileFormat, FormatVersion, ManifestContentType, ManifestEntry,
    ManifestFile, ManifestStatus, PartitionSpec, Snapshot, StatisticsFile, Struct, Table,
    TableMetadata,
};
use iceberg_actions::remove_orphan_files::{
    FileEntry, OrphanStep, PrefixMismatchMode, RemoveOrphanFiles, RemoveOrphanFilesResult,
    DEFAULT_AGE_NANOS,
};
use iceberg_actions::time::Timestamp;

struct World {
    table: Table,
    lists: HashMap<String, Vec<ManifestFile>>,
    manifests: HashMap<String, Vec<ManifestEntry>>,
    files: Vec<(String, Option<Timestamp>)>,
}

const LOCATION: &str = "s3://bucket/table";

fn manifest(path: &str) -> ManifestFile {
    ManifestFile {
        manifest_path: path.to_string(),
        manifest_length: 100,
        partition_spec_id: 0,
        content: ManifestContentType::Data,
        added_files_count: Some(1),
        existing_files_count: Some(0),
    }
}

fn entry(path: &str, status: ManifestStatus) -> ManifestEntry {
    ManifestEntry {
        status,
        snapshot_id: Some(1),
        sequence_number: Some(1),
        file_sequence_number: Some(1),
        data_file: DataFile {
            content: DataContentType::Data,
            file_path: path.to_string(),
            file_format: DataFileFormat::Parquet,
            partition: Struct::empty(),
            partition_spec_id: 0,
            record_count: 1,
            file_size_in_bytes: 10,
        },
    }
}

impl World {
    fn new() -> World {
        let spec = Arc::new(PartitionSpec { spec_id: 0, fields: Vec::new() });
        let metadata = TableMetadata::new(1, LOCATION.to_string(), FormatVersion::V2, spec);
        let metadata_location = Some(format!("{LOCATION}/metadata/v1.json"));
        let files = vec![(format!("{LOCATION}/metadata/v1.json"), None)];
        World {
            table: Table { identifier: "ns.t".to_string(), metadata, metadata_location },
            lists: HashMap::new(),
            manifests: HashMap::new(),
            files,
        }
    }

    /// Appends a snapshot with one data file.
    fn append(&mut self) {
        let n = self.table.metadata.snapshots.len() as i64 + 1;
        let list = format!("{LOCATION}/metadata/snap-{n}.avro");
        let m = format!("{LOCATION}/metadata/m{n}.avro");
        let f = format!("{LOCATION}/data/f{n}.parquet");
        self.lists.insert(list.clone(), vec![manifest(&m)]);
        self.manifests.insert(m.clone(), vec![entry(&f, ManifestStatus::Added)]);
        self.table.metadata.snapshots.push(Snapshot {
            snapshot_id: n,
            parent_snapshot_id: None,
            sequence_number: n,
            timestamp_ms: n,
            manifest_list: list.clone(),
        });
        self.files.extend([(list, None), (m, None), (f, None)]);
    }

    fn add_file(&mut self, path: &str) {
        self.files.push((path.to_string(), None));
    }
}

/// Runs an action to its end. Returns its result and what it deleted.
fn run(world: &World, action: RemoveOrphanFiles) -> (Result<RemoveOrphanFilesResult, Error>, Vec<String>) {
    let mut listing: Vec<FileEntry> = Vec::new();
    let mut step = action.execute();
    loop {
        step = match step {
            OrphanStep::Finished(result) => return (result, Vec::new()),
            OrphanStep::LoadManifestList(p) => {
                let list = world.lists[p.path()].clone();
                p.resume(Ok(list))
            }
            OrphanStep::ReadManifest(p) => {
                let entries = world.manifests[p.path()].clone();
                p.resume(Ok(entries))
            }
            OrphanStep::OpenListing(p) => {
                let under = p.location().to_string();
                listing = world
                    .files
                    .iter()
                    .filter(|(f, _)| f.starts_with(&under) || under == LOCATION)
                    .map(|(path, last_modified)| FileEntry {
                        path: path.clone(),
                        last_modified: *last_modified,
                    })
                    .rev()
                    .collect();
                p.resume(Ok(()))
            }
            OrphanStep::NextFile(p) => {
                let next = listing.pop().map(Ok);
                p.resume(next)
            }
            OrphanStep::Delete(result) => {
                let deleted = result.orphan_file_locations.clone();
                return (Ok(result), deleted);
            }
        };
    }
}

#[test]
fn test_remove_orphan_files_empty_table() {
    let world = World::new();
    let (result, _) = run(&world, RemoveOrphanFiles::new(&world.table));
    assert!(result.unwrap().orphan_file_locations.is_empty());
}

#[test]
fn test_remove_orphan_files_detects_orphan() {
    let mut world = World::new();
    world.append();
    let orphan_path = format!("{LOCATION}/data/orphan-file.parquet");
    world.add_file(&orphan_path);
    let (result, deleted) = run(&world, RemoveOrphanFiles::new(&world.table));
    assert!(result.unwrap().orphan_file_locations.contains(&orphan_path));
    assert_eq!(deleted, vec![orphan_path]);
}

#[test]
fn test_remove_orphan_files_dry_run() {
    let mut world = World::new();
    world.append();
    let orphan_path = format!("{LOCATION}/data/dry-run-orphan.parquet");
    world.add_file(&orphan_path);
    let (result, deleted) = run(&world, RemoveOrphanFiles::new(&world.table).dry_run(true));
    assert!(result.unwrap().orphan_file_locations.contains(&orphan_path));
    assert!(deleted.is_empty());
}

#[test]
fn test_remove_orphan_files_gc_disabled() {
    let mut world = World::new();
    world.table.metadata.set_property("gc.enabled".to_string(), "false".to_string());
    let (result, _) = run(&world, RemoveOrphanFiles::new(&world.table));
    let err = result.unwrap_err();
    assert_eq!(err.kind, ErrorKind::FeatureUnsupported);
    assert_eq!(err.message, "Cannot remove orphan files: gc.enabled is set to false");
}

#[test]
fn test_remove_orphan_files_preserves_live_files() {
    let mut world = World::new();
    world.append();
    world.append();
    let (result, deleted) = run(&world, RemoveOrphanFiles::new(&world.table));
    let orphans = result.unwrap().orphan_file_locations;
    for n in 1..3 {
        assert!(!orphans.contains(&format!("{LOCATION}/data/f{n}.parquet")));
    }
    assert!(orphans.is_empty());
    assert!(deleted.is_empty());
}

#[test]
fn test_remove_orphan_files_location_scoped() {
    let mut world = World::new();
    world.append();
    let orphan_in_data = format!("{LOCATION}/data/scoped-orphan.parquet");
    let orphan_in_other = format!("{LOCATION}/other/scoped-orphan.parquet");
    world.add_file(&orphan_in_data);
    world.add_file(&orphan_in_other);
    let scoped = format!("{LOCATION}/other");
    let (result, deleted) = run(&world, RemoveOrphanFiles::new(&world.table).location(&scoped));
    let orphans = result.unwrap().orphan_file_locations;
    assert!(orphans.contains(&orphan_in_other));
    assert!(!orphans.contains(&orphan_in_data));
    assert!(!deleted.contains(&orphan_in_data));
}

#[test]
fn defaults_of_the_action() {
    let world = World::new();
    let now = Timestamp { nanos: 1_700_000_000_000_000_000 };
    let action = RemoveOrphanFiles::new_at(&world.table, now);
    assert_eq!(action.older_than.nanos, 1_700_000_000_000_000_000 - 3 * 24 * 3600 * 1_000_000_000);
    assert_eq!(DEFAULT_AGE_NANOS, 3 * 24 * 3600 * 1_000_000_000);
    assert!(action.location.is_none());
    assert!(!action.dry_run);
    assert_eq!(action.prefix_mismatch_mode, PrefixMismatchMode::Error);
    let early = RemoveOrphanFiles::new_at(&world.table, Timestamp { nanos: i128::MIN });
    assert_eq!(early.older_than, Timestamp { nanos: 0 });
}

#[test]
fn new_action_spares_files_of_the_last_three_days() {
    let mut world = World::new();
    let since = std::time::SystemTime::now()
        .duration_since(std::time::UNIX_EPOCH)
        .unwrap()
        .as_nanos() as i128;
    let day: i128 = 24 * 3600 * 1_000_000_000;
    world.files.push((format!("{LOCATION}/a"), Some(Timestamp { nanos: since - 2 * day })));
    world.files.push((format!("{LOCATION}/b"), Some(Timestamp { nanos: since - 4 * day })));
    let (result, _) = run(&world, RemoveOrphanFiles::new(&world.table));
    assert_eq!(result.unwrap().orphan_file_locations, vec![format!("{LOCATION}/b")]);
}

#[test]
fn files_modified_at_or_after_the_threshold_are_spared() {
    let mut world = World::new();
    for (name, nanos) in [("x", 99), ("y", 100), ("z", 101)] {
        world.files.push((format!("{LOCATION}/{name}"), Some(Timestamp { nanos })));
    }
    world.add_file(&format!("{LOCATION}/unknown"));
    let action = RemoveOrphanFiles::new(&world.table).older_than(Timestamp { nanos: 100 });
    let (result, _) = run(&world, action);
    assert_eq!(
        result.unwrap().orphan_file_locations,
        vec![format!("{LOCATION}/x"), format!("{LOCATION}/unknown")]
    );
}

#[test]
fn everything_that_the_metadata_names_is_referenced() {
    let mut world = World::new();
    world.append();
    let log = format!("{LOCATION}/metadata/v0.json");
    let stats = format!("{LOCATION}/metadata/s.puffin");
    let pstats = format!("{LOCATION}/metadata/p.parquet");
    world.table.metadata.metadata_log.push(log.clone());
    world
        .table
        .metadata
        .statistics
        .push(StatisticsFile { snapshot_id: 1, statistics_path: stats.clone() });
    world
        .table
        .metadata
        .partition_statistics
        .push(StatisticsFile { snapshot_id: 1, statistics_path: pstats.clone() });
    // A file whose entry says that it was deleted counts as referenced too.
    let removed = format!("{LOCATION}/data/removed.parquet");
    let m = format!("{LOCATION}/metadata/m1.avro");
    world.manifests.get_mut(&m).unwrap().push(entry(&removed, ManifestStatus::Deleted));
    for path in [&log, &stats, &pstats, &removed] {
        world.add_file(path);
    }
    // Case of the scheme and slashes at the end make no difference.
    world.add_file("S3://bucket/table/data/f1.parquet/");
    let (result, _) = run(&world, RemoveOrphanFiles::new(&world.table));
    assert!(result.unwrap().orphan_file_locations.is_empty());
}

#[test]
fn foreign_prefix_is_an_error() {
    let mut world = World::new();
    world.append();
    world.add_file("s3a://bucket/table/data/f1.parquet");
    let (result, deleted) = run(&world, RemoveOrphanFiles::new(&world.table));
    let err = result.unwrap_err();
    assert_eq!(err.kind, ErrorKind::DataInvalid);
    assert_eq!(
        err.message,
        "Prefix mismatch: file 's3a://bucket/table/data/f1.parquet' has scheme/authority \
         's3a://bucket' which differs from the table location 's3://bucket'. \
         Configure equal_schemes() or equal_authorities() to declare equivalences, or set \
         prefix_mismatch_mode(Ignore) to skip such files."
    );
    assert!(deleted.is_empty());
}

#[test]
fn foreign_prefix_can_be_ignored() {
    let mut world = World::new();
    world.append();
    world.add_file("s3a://bucket/table/data/stray.parquet");
    let orphan = format!("{LOCATION}/data/orphan.parquet");
    world.add_file(&orphan);
    let action = RemoveOrphanFiles::new(&world.table)
        .prefix_mismatch_mode(PrefixMismatchMode::Ignore);
    let (result, _) = run(&world, action);
    assert_eq!(result.unwrap().orphan_file_locations, vec![orphan]);
}

#[test]
fn equal_schemes_name_the_same_file() {
    let mut world = World::new();
    world.append();
    world.add_file("s3a://bucket/table/data/f1.parquet");
    world.add_file("s3a://bucket/table/data/stray.parquet");
    let action = RemoveOrphanFiles::new(&world.table).equal_schemes("S3A", "S3");
    let (result, _) = run(&world, action);
    assert_eq!(
        result.unwrap().orphan_file_locations,
        vec!["s3a://bucket/table/data/stray.parquet".to_string()]
    );
}

#[test]
fn equal_authorities_name_the_same_file() {
    let mut world = World::new();
    world.append();
    world.add_file("s3://mirror/table/data/f1.parquet");
    let action = RemoveOrphanFiles::new(&world.table).equal_authorities("mirror", "bucket");
    let (result, _) = run(&world, action);
    assert!(result.unwrap().orphan_file_locations.is_empty());
}

#[test]
fn references_under_an_alias_are_recognised() {
    let mut world = World::new();
    world.append();
    let m = format!("{LOCATION}/metadata/m1.avro");
    world
        .manifests
        .get_mut(&m)
        .unwrap()
        .push(entry("s3n://bucket/table/data/old.parquet", ManifestStatus::Added));
    world.add_file(&format!("{LOCATION}/data/old.parquet"));
    let action = RemoveOrphanFiles::new(&world.table).equal_schemes("s3n", "s3");
    let (result, _) = run(&world, action);
    assert!(result.unwrap().orphan_file_locations.is_empty());
}

#[test]
fn equivalences_are_applied_to_scheme_and_authority() {
    let world = World::new();
    let action = RemoveOrphanFiles::new(&world.table)
        .equal_schemes("s3a", "s3")
        .equal_authorities("mirror", "bucket");
    let apply = |uri: &str| action.apply_scheme_and_authority_equivalences(uri);
    assert_eq!(apply("S3A://mirror/k"), "s3://bucket/k");
    assert_eq!(apply("s3a://mirror"), "s3://bucket");
    assert_eq!(apply("gs://other/k"), "gs://other/k");
    assert_eq!(apply("/tmp/k"), "/tmp/k");
}

#[test]
fn equivalences_chain() {
    let world = World::new();
    for action in [
        RemoveOrphanFiles::new(&world.table)
            .equal_schemes("s3n", "s3a")
            .equal_schemes("s3a", "s3")
            .equal_authorities("m2", "m1")
            .equal_authorities("m1", "bucket"),
        RemoveOrphanFiles::new(&world.table)
            .equal_schemes("s3a", "s3")
            .equal_schemes("s3n", "s3a")
            .equal_authorities("m1", "bucket")
            .equal_authorities("m2", "m1"),
    ] {
        for scheme in ["s3n", "s3a", "s3"] {
            for authority in ["m1", "m2", "bucket"] {
                let uri = format!("{scheme}://{authority}/k");
                assert_eq!(action.apply_scheme_and_authority_equivalences(&uri), "s3://bucket/k");
            }
        }
    }
}

#[test]
fn equivalences_can_be_declared_twice_and_both_ways() {
    let world = World::new();
    let action = RemoveOrphanFiles::new(&world.table)
        .equal_schemes("s3a", "s3")
        .equal_schemes("s3", "s3a")
        .equal_schemes("s3a", "s3")
        .equal_schemes("s3a", "gs");
    let apply = |uri: &str| action.apply_scheme_and_authority_equivalences(uri);
    assert_eq!(apply("s3://b/k"), apply("s3a://b/k"));
    assert_eq!(apply("s3://b/k"), "gs://b/k");
    assert_eq!(apply("gs://b/k"), "gs://b/k");
    assert_eq!(apply("s3n://b/k"), "s3n://b/k");
}

#[test]
fn chained_schemes_name_the_same_file() {
    let mut world = World::new();
    world.append();
    for scheme in ["s3", "s3a", "s3n"] {
        for authority in ["bucket", "mirror"] {
            world.add_file(&format!("{scheme}://{authority}/table/data/f1.parquet"));
        }
    }
    let action = RemoveOrphanFiles::new(&world.table)
        .equal_schemes("s3n", "s3a")
        .equal_schemes("s3a", "s3")
        .equal_authorities("mirror", "bucket");
    let (result, _) = run(&world, action);
    assert!(result.unwrap().orphan_file_locations.is_empty());
}

#[test]
fn location_under_an_alias_is_no_mismatch() {
    let mut world = World::new();
    world.table.metadata.location = "s3a://b/t".to_string();
    world.table.metadata_location = None;
    world.files.clear();
    world.add_file("s3://b/t/x");
    world.add_file("s3a://b/t/y");
    for (alias, canonical) in [("s3a", "s3"), ("s3", "s3a")] {
        let mut files: Vec<FileEntry> = world
            .files
            .iter()
            .rev()
            .map(|(path, _)| FileEntry { path: path.clone(), last_modified: None })
            .collect();
        let action =
            RemoveOrphanFiles::new(&world.table).equal_schemes(alias, canonical).dry_run(true);
        let mut step = match action.execute() {
            OrphanStep::OpenListing(p) => {
                assert_eq!(p.location(), "s3a://b/t");
                p.resume(Ok(()))
            }
            _ => panic!("expected the listing"),
        };
        let result = loop {
            step = match step {
                OrphanStep::NextFile(p) => p.resume(files.pop().map(Ok)),
                OrphanStep::Finished(result) => break result,
                _ => panic!("expected a file or the end"),
            };
        };
        assert_eq!(
            result.unwrap().orphan_file_locations,
            vec!["s3://b/t/x".to_string(), "s3a://b/t/y".to_string()]
        );
    }
}

#[test]
fn dry_run_finds_the_same_orphans() {
    let mut world = World::new();
    world.append();
    for name in ["x", "y"] {
        world.add_file(&format!("{LOCATION}/data/{name}"));
    }
    let (dry, kept) = run(&world, RemoveOrphanFiles::new(&world.table).dry_run(true));
    let (wet, deleted) = run(&world, RemoveOrphanFiles::new(&world.table));
    assert!(kept.is_empty());
    assert_eq!(dry.unwrap().orphan_file_locations, deleted);
    assert_eq!(wet.unwrap().orphan_file_locations, deleted);
    assert_eq!(deleted.len(), 2);
}

#[test]
fn a_later_threshold_finds_no_fewer_orphans() {
    let mut world = World::new();
    for (name, nanos) in [("x", 99), ("y", 100), ("z", 101)] {
        world.files.push((format!("{LOCATION}/{name}"), Some(Timestamp { nanos })));
    }
    let mut before: Vec<String> = Vec::new();
    for (nanos, count) in [(99, 0), (100, 1), (101, 2), (102, 3)] {
        let action = RemoveOrphanFiles::new(&world.table).older_than(Timestamp { nanos });
        let found = run(&world, action).0.unwrap().orphan_file_locations;
        assert_eq!(found.len(), count);
        let mut rest = found.iter();
        assert!(before.iter().all(|f| rest.any(|g| g == f)));
        before = found;
    }
}

#[test]
fn failures_of_reads_and_listing_end_the_action() {
    let mut world = World::new();
    world.append();
    let fail = || Error::new(ErrorKind::Unexpected, "gone".to_string());

    let step = match RemoveOrphanFiles::new(&world.table).execute() {
        OrphanStep::LoadManifestList(p) => p.resume(Err(fail())),
        _ => panic!("expected a list"),
    };
    assert!(matches!(step, OrphanStep::Finished(Err(e)) if e.message == "gone"));

    let step = match RemoveOrphanFiles::new(&world.table).execute() {
        OrphanStep::LoadManifestList(p) => {
            let list = world.lists[p.path()].clone();
            p.resume(Ok(list))
        }
        _ => panic!("expected a list"),
    };
    let step = match step {
        OrphanStep::ReadManifest(p) => p.resume(Err(fail())),
        _ => panic!("expected a manifest"),
    };
    assert!(matches!(step, OrphanStep::Finished(Err(e)) if e.message == "gone"));

    let empty = World::new();
    let step = match RemoveOrphanFiles::new(&empty.table).execute() {
        OrphanStep::OpenListing(p) => p.resume(Err(fail())),
        _ => panic!("expected the listing"),
    };
    assert!(matches!(step, OrphanStep::Finished(Err(e)) if e.message == "gone"));

    let step = match RemoveOrphanFiles::new(&empty.table).execute() {
        OrphanStep::OpenListing(p) => p.resume(Ok(())),
        _ => panic!("expected the listing"),
    };
    let step = match step {
        OrphanStep::NextFile(p) => p.resume(Some(Err(fail()))),
        _ => panic!("expected a file"),
    };
    assert!(matches!(step, OrphanStep::Finished(Err(e)) if e.message == "gone"));
}

#[test]
fn default_result_is_empty() {
    assert!(RemoveOrphanFilesResult::default().orphan_file_locations.is_empty());
}
