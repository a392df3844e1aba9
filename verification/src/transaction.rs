//! What the actions hand to the producer of snapshots.

use vstd::prelude::*;

use crate::model::{DataFile, Properties};

verus! {

/// A snapshot to be produced on top of the current one.
pub struct SnapshotRequest<O> {
    /// The UUID of the commit.
    pub commit_uuid: u128,
    /// The properties to put into the summary of the snapshot.
    pub snapshot_properties: Properties,
    /// The data files that the snapshot adds.
    pub added_data_files: Vec<DataFile>,
    /// Whether the added files are to be validated before anything else.
    pub validate_added_files: bool,
    /// What the snapshot deletes and which manifests it takes over.
    pub operation: O,
}

} // verus!
