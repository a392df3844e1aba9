//! Rewriting groups of data files: what a rewriter is given and what it answers.

use std::sync::Arc;

use parquet::file::properties::WriterProperties;
use vstd::prelude::*;

use crate::error::Error;
use crate::model::{DataFile, DataFileFormat, PartitionSpec, Struct, Table};

verus! {

/// The scan of one data file. The deletes that apply to it are not part of the task:
/// the reader finds them in the table.
#[derive(Debug)]
pub struct FileScanTask {
    /// The data file to scan.
    pub data_file: DataFile,
}

impl Clone for FileScanTask {
    fn clone(&self) -> (r: Self)
        ensures
            r == *self,
    {
        FileScanTask { data_file: self.data_file.clone() }
    }
}

/// The data files of scan tasks.
pub open spec fn task_files(tasks: Seq<FileScanTask>) -> Seq<DataFile> {
    tasks.map_values(|t: FileScanTask| t.data_file)
}

/// A group of files to be rewritten together. This provides richer context
/// to the [`FileRewriter`] than a bare list of data files:
/// - Target output file size
/// - Partition spec and value for correct output metadata
#[derive(Debug)]
pub struct RewriteFileGroup {
    /// The scans of the data files in this group.
    pub tasks: Vec<FileScanTask>,
    /// Target output file size in bytes.
    pub target_file_size_bytes: u64,
    /// The partition spec for this group's files.
    pub partition_spec: Arc<PartitionSpec>,
    /// The partition value shared by all files in this group.
    pub partition_value: Option<Struct>,
}

impl RewriteFileGroup {
    /// The data files of the group.
    pub open spec fn files(self) -> Seq<DataFile> {
        task_files(self.tasks@)
    }

    /// The data files of the group, which the rewrite replaces.
    pub fn data_files_for_delete(&self) -> (files: Vec<DataFile>)
        ensures
            files@ == self.files(),
    {
        let mut files: Vec<DataFile> = Vec::new();
        let mut i: usize = 0;
        while i < self.tasks.len()
            invariant
                i <= self.tasks.len(),
                files@ == self.files().take(i as int),
            decreases self.tasks.len() - i,
        {
            files.push(self.tasks[i].data_file.clone());
            assert(files@ =~= self.files().take(i + 1));
            i = i + 1;
        }
        assert(self.files().take(self.tasks.len() as int) =~= self.files());
        files
    }
}

impl Clone for RewriteFileGroup {
    fn clone(&self) -> (r: Self)
        ensures
            r.tasks@ == self.tasks@,
            r == (RewriteFileGroup { tasks: r.tasks, ..*self }),
    {
        let mut tasks: Vec<FileScanTask> = Vec::new();
        let mut i: usize = 0;
        while i < self.tasks.len()
            invariant
                i <= self.tasks.len(),
                tasks@ == self.tasks@.take(i as int),
            decreases self.tasks.len() - i,
        {
            tasks.push(self.tasks[i].clone());
            assert(tasks@ =~= self.tasks@.take(i + 1));
            i = i + 1;
        }
        assert(self.tasks@.take(self.tasks.len() as int) =~= self.tasks@);
        let partition_value = match &self.partition_value {
            Some(v) => Some(v.clone()),
            None => None,
        };
        RewriteFileGroup {
            tasks,
            target_file_size_bytes: self.target_file_size_bytes,
            partition_spec: Arc::clone(&self.partition_spec),
            partition_value,
        }
    }
}

/// The partition that the output files of a compaction belong to.
#[derive(Debug)]
pub struct PartitionKey {
    pub partition_spec: Arc<PartitionSpec>,
    pub schema_id: i32,
    pub value: Struct,
}

/// A compaction to be carried out by the writer stack: the rows that the tasks read
/// are written to new files.
#[derive(Debug)]
pub struct CompactionJob {
    /// The schema of the rows.
    pub schema_id: i32,
    /// The size from which on an output file is closed and the next one begun.
    pub target_file_size: usize,
    /// The settings of the Parquet writer.
    pub writer_properties: WriterProperties,
    /// What the names of the output files begin with.
    pub file_name_prefix: String,
    /// The format of the output files.
    pub file_format: DataFileFormat,
    /// The partition of the output files.
    pub partition_key: Option<PartitionKey>,
    /// The scans that read the rows.
    pub tasks: Vec<FileScanTask>,
}

/// What a rewriter answers.
#[derive(Debug)]
pub enum RewriteOutcome {
    /// The rewrite is done.
    Finished(Result<Vec<DataFile>, Error>),
    /// The rewrite is to be carried out by the writer stack.
    Compact(CompactionJob),
}

/// Pluggable trait for rewriting data files. Any compute engine (DataFusion,
/// Spark, etc.) implements this to provide the actual file compaction logic.
///
/// The rewriter receives a [`RewriteFileGroup`] containing the input files,
/// target file size, and partition context. It should produce output files
/// that collectively contain the same logical data as the input files.
pub trait FileRewriter: Send + Sync {
    /// Rewrite a group of data files, producing a new set of (typically fewer,
    /// larger) data files.
    fn rewrite(&self, table: &Table, group: RewriteFileGroup) -> RewriteOutcome;
}

} // verus!
