use std::sync::Arc;

use iceberg_actions::datafusion_file_rewriter::{CompactionStep, DataFusionFileRewriter};
use iceberg_actions::error::{Error, ErrorKind};
use iceberg_actions::file_rewriter::{
    CompactionJob, FileRewriter, FileScanTask, RewriteFileGroup, RewriteOutcome,
};
use iceberg_actions::model::{
    DataContentType, DataFile, DataFileFormat, FormatVersion, PartitionSpec, Struct, Table,
    TableMetadata,
};

fn table() -> Table {
    let spec = Arc::new(PartitionSpec { spec_id: 0, fields: Vec::new() });
    let mut metadata =
        TableMetadata::new(1, "s3://bucket/table".to_string(), FormatVersion::V2, spec);
    metadata.current_schema_id = 4;
    Table { identifier: "ns.t".to_string(), metadata, metadata_location: None }
}

fn data_file(path: &str, records: u64) -> DataFile {
    DataFile {
        content: DataContentType::Data,
        file_path: path.to_string(),
        file_format: DataFileFormat::Parquet,
        partition: Struct::empty(),
        partition_spec_id: 0,
        record_count: records,
        file_size_in_bytes: 100,
    }
}

fn group(table: &Table, files: Vec<DataFile>, value: Option<Struct>) -> RewriteFileGroup {
    RewriteFileGroup {
        tasks: files.into_iter().map(|data_file| FileScanTask { data_file }).collect(),
        target_file_size_bytes: 512 * 1024 * 1024,
        partition_spec: table.metadata.default_partition_spec.clone(),
        partition_value: value,
    }
}

fn job(outcome: RewriteOutcome) -> CompactionJob {
    match outcome {
        RewriteOutcome::Compact(job) => job,
        RewriteOutcome::Finished(_) => panic!("expected a job"),
    }
}

#[test]
fn test_implements_file_rewriter_trait() {
    let rewriter = DataFusionFileRewriter::new();
    // Verify it can be used as a trait object.
    let _trait_obj: &dyn FileRewriter = &rewriter;
}

#[test]
fn test_default_construction() {
    let _rewriter = DataFusionFileRewriter;
}

#[test]
fn test_rewrite_empty_group() {
    let table = table();
    let rewriter = DataFusionFileRewriter::new();
    let empty_group = group(&table, Vec::new(), None);
    match rewriter.rewrite(&table, empty_group) {
        RewriteOutcome::Finished(Ok(files)) => assert!(files.is_empty()),
        _ => panic!("an empty group needs no work"),
    }
}

#[test]
fn default_is_new() {
    let table = table();
    let rewriter = DataFusionFileRewriter::default();
    let g = group(&table, vec![data_file("a", 1)], None);
    assert!(matches!(rewriter.rewrite(&table, g), RewriteOutcome::Compact(_)));
}

#[test]
fn job_has_the_settings_of_the_group() {
    let table = table();
    let files = vec![data_file("a", 2), data_file("b", 1)];
    let g = group(&table, files, Some(Struct { encoding: "p=1".to_string() }));
    let uuid: u128 = 0x0190_0000_0000_7abc_8def_0123_4567_89ab;
    let job = job(DataFusionFileRewriter::new().rewrite_as(&table, g, uuid));
    assert_eq!(job.schema_id, 4);
    assert_eq!(job.target_file_size, 512 * 1024 * 1024);
    assert_eq!(job.file_name_prefix, "01900000-0000-7abc-8def-0123456789ab");
    assert_eq!(job.file_format, DataFileFormat::Parquet);
    assert_eq!(job.tasks.len(), 2);
    assert_eq!(job.tasks[1].data_file.file_path, "b");
    let key = job.partition_key.unwrap();
    assert_eq!(key.schema_id, 4);
    assert_eq!(key.partition_spec.spec_id, 0);
    assert_eq!(key.value.encoding, "p=1");
}

#[test]
fn job_without_partition_value_has_no_key() {
    let table = table();
    let g = group(&table, vec![data_file("a", 2)], None);
    let job = job(DataFusionFileRewriter::new().rewrite_as(&table, g, 7));
    assert!(job.partition_key.is_none());
}

#[test]
fn job_has_default_writer_settings() {
    let table = table();
    let g = group(&table, vec![data_file("a", 2)], None);
    let job = job(DataFusionFileRewriter::new().rewrite_as(&table, g, 7));
    let expected = parquet::file::properties::WriterProperties::default();
    assert_eq!(
        job.writer_properties.max_row_group_row_count(),
        expected.max_row_group_row_count()
    );
    assert_eq!(job.writer_properties.created_by(), expected.created_by());
}

#[test]
fn rewrite_names_files_after_new_version_7_uuids() {
    let table = table();
    let rewriter = DataFusionFileRewriter::new();
    let first = job(rewriter.rewrite(&table, group(&table, vec![data_file("a", 2)], None)));
    let second = job(rewriter.rewrite(&table, group(&table, vec![data_file("a", 2)], None)));
    let text: Vec<char> = first.file_name_prefix.chars().collect();
    assert_eq!(text.len(), 36);
    assert_eq!(text[14], '7');
    assert!(['8', '9', 'a', 'b'].contains(&text[19]));
    for i in [8usize, 13, 18, 23] {
        assert_eq!(text[i], '-');
    }
    assert!(uuid::Uuid::parse_str(&first.file_name_prefix).is_ok());
    assert_ne!(first.file_name_prefix, second.file_name_prefix);
}

fn some_job() -> CompactionJob {
    let table = table();
    let files = vec![data_file("a", 2), data_file("b", 1)];
    job(DataFusionFileRewriter::new().rewrite_as(&table, group(&table, files, None), 7))
}

fn failure(text: &str) -> Error {
    Error::new(ErrorKind::DataInvalid, text.to_string())
}

/// Runs a compaction on given batches of rows; writing the batch `bad` fails.
fn compact(batches: Vec<Result<u64, Error>>, bad: Option<u64>) -> (Result<Vec<DataFile>, Error>, Vec<u64>) {
    let mut written: Vec<u64> = Vec::new();
    let mut batches = batches.into_iter();
    let mut step: CompactionStep<u64> = some_job().start();
    loop {
        step = match step {
            CompactionStep::Finished(r) => return (r, written),
            CompactionStep::CreateLocationGenerator(p) => p.resume(Ok(())),
            CompactionStep::BuildWriter(p) => {
                assert_eq!(p.job.tasks.len(), 2);
                p.resume(Ok(()))
            }
            CompactionStep::OpenReader(p) => {
                let (tasks, opened) = p.take_tasks();
                assert_eq!(tasks.len(), 2);
                opened.resume(Ok(()))
            }
            CompactionStep::NextBatch(p) => p.resume(batches.next()),
            CompactionStep::WriteBatch(p) => {
                let (batch, done) = p.take_batch();
                if Some(batch) == bad {
                    done.resume(Err(failure("disk full")))
                } else {
                    written.push(batch);
                    done.resume(Ok(()))
                }
            }
            CompactionStep::CloseWriter => {
                let rows: u64 = written.iter().sum();
                return (Ok(vec![data_file("out", rows)]), written);
            }
        };
    }
}

/// The engine is a stand-in that makes the output file itself from the sizes of the
/// batches: what is shown is that each batch read is written once and in order, and that
/// the files of the engine come back as they are. No row is read or written here.
#[test]
fn test_rewrite_files_round_trip() {
    let (result, written) = compact(vec![Ok(2), Ok(1)], None);
    let new_files = result.unwrap();
    assert_eq!(written, vec![2, 1]);
    assert!(!new_files.is_empty());
    let total: u64 = new_files.iter().map(|f| f.record_count).sum();
    assert_eq!(total, 3);
    for f in &new_files {
        assert_eq!(f.file_format, DataFileFormat::Parquet);
        assert!(f.file_size_in_bytes > 0);
        assert_eq!(f.partition.encoding, Struct::empty().encoding);
    }
}

#[test]
fn compaction_ends_at_a_failed_read() {
    let (result, written) = compact(vec![Ok(2), Err(failure("bad page")), Ok(1)], None);
    assert_eq!(result.unwrap_err().message, "bad page");
    assert_eq!(written, vec![2]);
}

#[test]
fn compaction_ends_at_a_failed_write() {
    let (result, written) = compact(vec![Ok(2), Ok(1), Ok(5)], Some(1));
    assert_eq!(result.unwrap_err().message, "disk full");
    assert_eq!(written, vec![2]);
}

#[test]
fn failure_to_create_location_generator_is_quoted() {
    let step: CompactionStep<u64> = some_job().start();
    let pending = match step {
        CompactionStep::CreateLocationGenerator(p) => p,
        _ => panic!("expected the generator first"),
    };
    let step: CompactionStep<u64> = pending.resume(Err("no location".to_string()));
    match step {
        CompactionStep::Finished(Err(e)) => {
            assert_eq!(e.kind, ErrorKind::Unexpected);
            assert_eq!(e.message, "Failed to create location generator: no location");
        }
        _ => panic!("expected an error"),
    }
}

#[test]
fn failures_to_build_writer_and_open_reader_end_the_compaction() {
    let start: CompactionStep<u64> = some_job().start();
    let build: CompactionStep<u64> = match start {
        CompactionStep::CreateLocationGenerator(p) => p.resume(Ok(())),
        _ => panic!("expected the generator first"),
    };
    let failed: CompactionStep<u64> = match build {
        CompactionStep::BuildWriter(p) => p.resume(Err(failure("no writer"))),
        _ => panic!("expected the writer next"),
    };
    assert!(matches!(failed, CompactionStep::Finished(Err(e)) if e.message == "no writer"));

    let start: CompactionStep<u64> = some_job().start();
    let build: CompactionStep<u64> = match start {
        CompactionStep::CreateLocationGenerator(p) => p.resume(Ok(())),
        _ => panic!("expected the generator first"),
    };
    let open: CompactionStep<u64> = match build {
        CompactionStep::BuildWriter(p) => p.resume(Ok(())),
        _ => panic!("expected the writer next"),
    };
    let failed: CompactionStep<u64> = match open {
        CompactionStep::OpenReader(p) => p.take_tasks().1.resume(Err(failure("no reader"))),
        _ => panic!("expected the reader next"),
    };
    assert!(matches!(failed, CompactionStep::Finished(Err(e)) if e.message == "no reader"));
}

#[test]
fn group_lists_its_data_files() {
    let table = table();
    let g = group(&table, vec![data_file("a", 2), data_file("b", 1)], None);
    let copy = g.clone();
    let files = copy.data_files_for_delete();
    assert_eq!(files.len(), 2);
    assert_eq!(files[0].file_path, "a");
    assert_eq!(files[1].file_path, "b");
    assert_eq!(copy.target_file_size_bytes, g.target_file_size_bytes);
}
