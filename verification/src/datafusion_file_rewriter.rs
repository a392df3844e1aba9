//! The rewriter for bin-pack compaction: reads the files of a group through the
//! delete-aware reader and writes the rows back through the standard writer stack.

use std::sync::Arc;

use vstd::prelude::*;
use vstd::string::*;

use crate::error::{Error, ErrorKind};
use crate::file_rewriter::{
    CompactionJob, FileRewriter, FileScanTask, PartitionKey, RewriteFileGroup, RewriteOutcome,
};
use crate::model::{DataFile, DataFileFormat, Table};
use crate::outside;
use crate::outside::{default_writer_properties, uuid_now_v7, uuid_to_string};

verus! {

/// A [`FileRewriter`] implementation that uses the iceberg writer
/// infrastructure to read and rewrite parquet data files.
///
/// The result is typically fewer, larger data files suitable for bin-pack
/// compaction.
pub struct DataFusionFileRewriter;

/// Whether `job` is the compaction of `group`, with output files named after `prefix`.
pub open spec fn is_job(
    table: Table,
    group: RewriteFileGroup,
    prefix: Seq<char>,
    job: CompactionJob,
) -> bool {
    &&& job.schema_id == table.metadata.current_schema_id
    &&& job.target_file_size == group.target_file_size_bytes as usize
    &&& job.file_name_prefix@ == prefix
    &&& job.file_format == DataFileFormat::Parquet
    &&& job.tasks == group.tasks
    &&& job.partition_key == (match group.partition_value {
        Some(value) => Some(
            PartitionKey {
                partition_spec: group.partition_spec,
                schema_id: table.metadata.current_schema_id,
                value,
            },
        ),
        None => None,
    })
}

impl DataFusionFileRewriter {
    /// Create a new `DataFusionFileRewriter`.
    pub fn new() -> (r: Self)
        ensures
            r == DataFusionFileRewriter,
    {
        DataFusionFileRewriter
    }

    /// Rewrite a group of data files, naming the output files after the given UUID.
    pub fn rewrite_as(&self, table: &Table, group: RewriteFileGroup, uuid: u128) -> (r:
        RewriteOutcome)
        ensures
            group.tasks@.len() == 0 ==> {
                &&& r is Finished
                &&& r->Finished_0 is Ok
                &&& r->Finished_0->Ok_0@ == Seq::<DataFile>::empty()
            },
            group.tasks@.len() > 0 ==> {
                &&& r is Compact
                &&& is_job(*table, group, outside::hyphenated(uuid), r->Compact_0)
            },
    {
        if group.tasks.len() == 0 {
            return RewriteOutcome::Finished(Ok(Vec::new()));
        }
        let schema_id: i32 = table.metadata.current_schema_id;
        let partition_spec = Arc::clone(&group.partition_spec);
        let partition_key = match group.partition_value {
            Some(value) => Some(PartitionKey { partition_spec, schema_id, value }),
            None => None,
        };
        #[verifier::truncate]
        let target_file_size: usize = group.target_file_size_bytes as usize;
        RewriteOutcome::Compact(
            CompactionJob {
                schema_id,
                target_file_size,
                writer_properties: default_writer_properties(),
                file_name_prefix: uuid_to_string(uuid),
                file_format: DataFileFormat::Parquet,
                partition_key,
                tasks: group.tasks,
            },
        )
    }
}

impl Default for DataFusionFileRewriter {
    fn default() -> (r: Self)
        ensures
            r == DataFusionFileRewriter,
    {
        DataFusionFileRewriter::new()
    }
}

impl FileRewriter for DataFusionFileRewriter {
    /// Rewrite a group of data files into new, compacted data files.
    ///
    /// An empty group needs no work. For any other one the answer is a job for the
    /// writer stack, with output files named after a new version 7 UUID:
    /// 1. Read through the delete-aware reader, which applies position and equality
    ///    deletes
    /// 2. Write record batches through the iceberg writer stack
    /// 3. Return new `DataFile` metadata for the compacted output
    fn rewrite(&self, table: &Table, group: RewriteFileGroup) -> (r: RewriteOutcome)
        ensures
            group.tasks@.len() == 0 ==> {
                &&& r is Finished
                &&& r->Finished_0 is Ok
                &&& r->Finished_0->Ok_0@ == Seq::<DataFile>::empty()
            },
            group.tasks@.len() > 0 ==> {
                &&& r is Compact
                &&& exists|uuid: u128|
                    outside::is_uuid_v7(uuid) && is_job(
                        *table,
                        group,
                        #[trigger] outside::hyphenated(uuid),
                        r->Compact_0,
                    )
            },
    {
        if group.tasks.len() == 0 {
            return RewriteOutcome::Finished(Ok(Vec::new()));
        }
        let uuid: u128 = uuid_now_v7();
        self.rewrite_as(table, group, uuid)
    }
}

/// What a compaction needs next from outside; `B` is a batch of rows.
pub enum CompactionStep<B> {
    /// The compaction is over.
    Finished(Result<Vec<DataFile>, Error>),
    /// Create the generator of locations for the output files.
    CreateLocationGenerator(LocationPending),
    /// Build the writer.
    BuildWriter(WriterPending),
    /// Open the reader on the tasks.
    OpenReader(ReaderPending),
    /// Read the next batch.
    NextBatch(BatchPending),
    /// Write a batch.
    WriteBatch(WritePending<B>),
    /// Close the writer; what it returns is the result of the compaction.
    CloseWriter,
}

/// The generator of locations is waiting to be created.
pub struct LocationPending {
    pub job: CompactionJob,
}

/// The writer is waiting to be built.
pub struct WriterPending {
    pub job: CompactionJob,
}

/// The reader is waiting to be opened.
pub struct ReaderPending {
    pub tasks: Vec<FileScanTask>,
}

/// The reader is being opened.
pub struct ReaderOpened {}

/// The next batch is waiting to be read.
pub struct BatchPending {}

/// A batch is waiting to be written.
pub struct WritePending<B> {
    pub batch: B,
}

/// A batch is being written.
pub struct BatchWritten {}

impl CompactionJob {
    /// Begin the compaction.
    pub fn start<B>(self) -> (step: CompactionStep<B>)
        ensures
            step == CompactionStep::<B>::CreateLocationGenerator(LocationPending { job: self }),
    {
        CompactionStep::CreateLocationGenerator(LocationPending { job: self })
    }
}

impl LocationPending {
    /// Goes on once the generator has been created; a failure ends the compaction with
    /// an error that quotes the reason.
    pub fn resume<B>(self, outcome: Result<(), String>) -> (step: CompactionStep<B>)
        ensures
            match outcome {
                Ok(_) => step == CompactionStep::<B>::BuildWriter(WriterPending { job: self.job }),
                Err(reason) => {
                    &&& step is Finished
                    &&& step->Finished_0 is Err
                    &&& step->Finished_0->Err_0.says(
                        ErrorKind::Unexpected,
                        "Failed to create location generator: "@ + reason@,
                    )
                },
            },
    {
        match outcome {
            Ok(_) => CompactionStep::BuildWriter(WriterPending { job: self.job }),
            Err(reason) => {
                let mut message = "Failed to create location generator: ".to_owned();
                message.append(reason.as_str());
                CompactionStep::Finished(Err(Error::new(ErrorKind::Unexpected, message)))
            },
        }
    }
}

impl WriterPending {
    /// Goes on once the writer has been built; an error ends the compaction.
    pub fn resume<B>(self, outcome: Result<(), Error>) -> (step: CompactionStep<B>)
        ensures
            match outcome {
                Ok(_) => step == CompactionStep::<B>::OpenReader(
                    ReaderPending { tasks: self.job.tasks },
                ),
                Err(e) => step == CompactionStep::<B>::Finished(Err(e)),
            },
    {
        match outcome {
            Ok(_) => CompactionStep::OpenReader(ReaderPending { tasks: self.job.tasks }),
            Err(e) => CompactionStep::Finished(Err(e)),
        }
    }
}

impl ReaderPending {
    /// Hands over the tasks to read.
    pub fn take_tasks(self) -> (r: (Vec<FileScanTask>, ReaderOpened))
        ensures
            r.0 == self.tasks,
    {
        (self.tasks, ReaderOpened {  })
    }
}

impl ReaderOpened {
    /// Goes on once the reader has been opened; an error ends the compaction.
    pub fn resume<B>(self, outcome: Result<(), Error>) -> (step: CompactionStep<B>)
        ensures
            match outcome {
                Ok(_) => step is NextBatch,
                Err(e) => step == CompactionStep::<B>::Finished(Err(e)),
            },
    {
        match outcome {
            Ok(_) => CompactionStep::NextBatch(BatchPending {  }),
            Err(e) => CompactionStep::Finished(Err(e)),
        }
    }
}

/// What follows the reading of a batch: it is written; after the last one the writer is
/// closed, and an error ends the compaction.
pub open spec fn follows_read<B>(next: Option<Result<B, Error>>, step: CompactionStep<B>) -> bool {
    match next {
        None => step is CloseWriter,
        Some(Err(e)) => step == CompactionStep::<B>::Finished(Err(e)),
        Some(Ok(batch)) => step == CompactionStep::<B>::WriteBatch(WritePending { batch }),
    }
}

/// What follows the writing of a batch: the next one is read, and an error ends the
/// compaction.
pub open spec fn follows_write<B>(outcome: Result<(), Error>, step: CompactionStep<B>) -> bool {
    match outcome {
        Ok(_) => step is NextBatch,
        Err(e) => step == CompactionStep::<B>::Finished(Err(e)),
    }
}

impl BatchPending {
    /// Goes on with the next batch, which is written; after the last one the writer is
    /// closed. An error ends the compaction.
    pub fn resume<B>(self, next: Option<Result<B, Error>>) -> (step: CompactionStep<B>)
        ensures
            follows_read(next, step),
    {
        match next {
            None => CompactionStep::CloseWriter,
            Some(Err(e)) => CompactionStep::Finished(Err(e)),
            Some(Ok(batch)) => CompactionStep::WriteBatch(WritePending { batch }),
        }
    }
}

impl<B> WritePending<B> {
    /// Hands over the batch to write.
    pub fn take_batch(self) -> (r: (B, BatchWritten))
        ensures
            r.0 == self.batch,
    {
        (self.batch, BatchWritten {  })
    }
}

impl BatchWritten {
    /// Goes on to the next batch once this one has been written; an error ends the
    /// compaction.
    pub fn resume<B>(self, outcome: Result<(), Error>) -> (step: CompactionStep<B>)
        ensures
            follows_write(outcome, step),
    {
        match outcome {
            Ok(_) => CompactionStep::NextBatch(BatchPending {  }),
            Err(e) => CompactionStep::Finished(Err(e)),
        }
    }
}

/// The batches `written` are those read so far of `batches`, but for one that is waiting
/// to be written; and where the writer is to be closed, they are all of them.
pub open spec fn keeps_pace<B>(
    batches: Seq<B>,
    read: int,
    written: Seq<B>,
    step: CompactionStep<B>,
) -> bool {
    &&& 0 <= read <= batches.len()
    &&& match step {
        CompactionStep::NextBatch(_) => written == batches.take(read),
        CompactionStep::WriteBatch(pending) => written.push(pending.batch) == batches.take(read),
        CompactionStep::CloseWriter => written == batches,
        _ => true,
    }
}

/// Before the first batch is read, none has been written.
pub proof fn law_compaction_begins_with_nothing<B>(batches: Seq<B>, step: CompactionStep<B>)
    requires
        step is NextBatch,
    ensures
        keeps_pace(batches, 0, Seq::empty(), step),
{
    assert(batches.take(0) =~= Seq::<B>::empty());
}

/// Reading keeps pace, whether a batch is left, none is, or the reader fails.
pub proof fn law_reading_keeps_pace<B>(
    batches: Seq<B>,
    read: int,
    written: Seq<B>,
    before: CompactionStep<B>,
    next: Option<Result<B, Error>>,
    after: CompactionStep<B>,
)
    requires
        before is NextBatch,
        keeps_pace(batches, read, written, before),
        next matches Some(Ok(batch)) ==> read < batches.len() && batches[read] == batch,
        next is None ==> read == batches.len(),
        follows_read(next, after),
    ensures
        keeps_pace(
            batches,
            if next matches Some(Ok(_)) {
                read + 1
            } else {
                read
            },
            written,
            after,
        ),
{
    assert(batches.take(batches.len() as int) =~= batches);
    match next {
        Some(Ok(batch)) => {
            assert(written.push(batch) =~= batches.take(read + 1));
        },
        _ => {},
    }
}

/// Writing keeps pace: a compaction writes each batch once and in the order in which
/// they were read. So at its end the rows written are the rows that the reader gave.
pub proof fn law_writing_keeps_pace<B>(
    batches: Seq<B>,
    read: int,
    written: Seq<B>,
    before: CompactionStep<B>,
    outcome: Result<(), Error>,
    after: CompactionStep<B>,
)
    requires
        before is WriteBatch,
        keeps_pace(batches, read, written, before),
        follows_write(outcome, after),
    ensures
        keeps_pace(batches, read, written.push(before->WriteBatch_0.batch), after),
{
}

/// The job for a group reads the tasks of the group and writes Parquet files of its target
/// size, with the current schema of the table and in the partition of the group.
pub proof fn law_what_a_job_asks_for(
    table: Table,
    group: RewriteFileGroup,
    prefix: Seq<char>,
    job: CompactionJob,
)
    requires
        is_job(table, group, prefix, job),
    ensures
        job.tasks@ == group.tasks@,
        group.target_file_size_bytes <= usize::MAX ==> job.target_file_size
            == group.target_file_size_bytes,
        job.schema_id == table.metadata.current_schema_id,
        job.file_format == DataFileFormat::Parquet,
        job.file_name_prefix@ == prefix,
        group.partition_value is None ==> job.partition_key is None,
        group.partition_value matches Some(value) ==> {
            &&& job.partition_key is Some
            &&& job.partition_key->0.value.encoding@ == value.encoding@
            &&& job.partition_key->0.partition_spec == group.partition_spec
            &&& job.partition_key->0.schema_id == table.metadata.current_schema_id
        },
{
}

/// A compaction creates the generator of locations, builds the writer for the job and
/// opens the reader on the tasks of the job, in this order, before it reads a batch.
pub proof fn law_how_a_compaction_begins<B>(
    job: CompactionJob,
    location: CompactionStep<B>,
    writer: CompactionStep<B>,
    reader: CompactionStep<B>,
    taken: (Vec<FileScanTask>, ReaderOpened),
    first: CompactionStep<B>,
)
    requires
        call_ensures(CompactionJob::start::<B>, (job,), location),
        location is CreateLocationGenerator ==> call_ensures(
            LocationPending::resume::<B>,
            (location->CreateLocationGenerator_0, Ok(())),
            writer,
        ),
        writer is BuildWriter ==> call_ensures(
            WriterPending::resume::<B>,
            (writer->BuildWriter_0, Ok(())),
            reader,
        ),
        reader is OpenReader ==> call_ensures(
            ReaderPending::take_tasks,
            (reader->OpenReader_0,),
            taken,
        ),
        call_ensures(ReaderOpened::resume::<B>, (taken.1, Ok(())), first),
    ensures
        location is CreateLocationGenerator,
        location->CreateLocationGenerator_0.job == job,
        writer is BuildWriter,
        writer->BuildWriter_0.job == job,
        reader is OpenReader,
        taken.0@ == job.tasks@,
        first is NextBatch,
{
}

/// What a compaction reads next is what follows a read, and what it writes is the batch
/// that was read; a failure of either ends it with its error.
pub proof fn law_how_a_compaction_goes_on<B>(
    pending: BatchPending,
    batch: B,
    e: Error,
    read: CompactionStep<B>,
    taken: (B, BatchWritten),
    written: CompactionStep<B>,
    failed_read: CompactionStep<B>,
    failed_write: CompactionStep<B>,
    last: CompactionStep<B>,
)
    requires
        call_ensures(BatchPending::resume::<B>, (pending, Some(Ok(batch))), read),
        read is WriteBatch ==> call_ensures(
            WritePending::<B>::take_batch,
            (read->WriteBatch_0,),
            taken,
        ),
        call_ensures(BatchWritten::resume::<B>, (taken.1, Ok(())), written),
        call_ensures(BatchPending::resume::<B>, (pending, Some(Err(e))), failed_read),
        call_ensures(BatchWritten::resume::<B>, (taken.1, Err(e)), failed_write),
        call_ensures(BatchPending::resume::<B>, (pending, None), last),
    ensures
        read is WriteBatch,
        taken.0 == batch,
        written is NextBatch,
        failed_read is Finished && failed_read->Finished_0 is Err && failed_read->Finished_0->Err_0
            == e,
        failed_write is Finished && failed_write->Finished_0 is Err
            && failed_write->Finished_0->Err_0 == e,
        last is CloseWriter,
{
}

/// A group without tasks needs no work and gives no files; any other one is handed to the
/// writer stack, with files named after a new UUID.
pub proof fn law_what_a_rewrite_answers(
    rewriter: DataFusionFileRewriter,
    table: Table,
    group: RewriteFileGroup,
    r: RewriteOutcome,
)
    requires
        call_ensures(<DataFusionFileRewriter as FileRewriter>::rewrite, (&rewriter, &table, group), r),
    ensures
        group.tasks@.len() == 0 ==> r is Finished && r->Finished_0 is Ok
            && r->Finished_0->Ok_0@.len() == 0,
        group.tasks@.len() > 0 ==> r is Compact && exists|uuid: u128|
            is_job(table, group, #[trigger] outside::hyphenated(uuid), r->Compact_0),
{
}

} // verus!
