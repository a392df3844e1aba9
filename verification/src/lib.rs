//! Maintenance actions for Iceberg tables: expiring snapshots, removing orphan files,
//! compacting data files and merging manifests, with the transaction actions that the
//! last two commit.
//!
//! No action does input or output itself. `execute` returns a step that says what has
//! to be done outside next: load a manifest list, read a manifest, commit, delete. The
//! outcome is handed to the `resume` method of the step, which returns the next one.

pub mod datafusion_file_rewriter;
pub mod error;
pub mod existing_manifests;
pub mod existing_manifests_laws;
pub mod expire_snapshots;
pub mod expire_snapshots_calls;
pub mod expire_snapshots_laws;
pub mod file_rewriter;
pub mod model;
pub mod outside;
pub mod remove_orphan_files;
pub mod remove_orphan_files_calls;
pub mod remove_orphan_files_laws;
pub mod rewrite_data_files;
pub mod rewrite_data_files_calls;
pub mod rewrite_data_files_laws;
pub mod rewrite_files;
pub mod rewrite_files_calls;
pub mod rewrite_files_laws;
pub mod rewrite_manifests;
pub mod rewrite_manifests_action;
pub mod rewrite_manifests_calls;
pub mod rewrite_manifests_laws;
pub mod seqs;
pub mod storage;
pub mod text;
pub mod time;
pub mod transaction;
pub mod uri;

pub use crate::datafusion_file_rewriter::DataFusionFileRewriter;
pub use crate::error::{Error, ErrorKind};
pub use crate::expire_snapshots::{ExpireSnapshots, ExpireSnapshotsResult};
pub use crate::file_rewriter::{FileRewriter, RewriteFileGroup};
pub use crate::remove_orphan_files::{
    PrefixMismatchMode, RemoveOrphanFiles, RemoveOrphanFilesResult,
};
pub use crate::rewrite_data_files::{RewriteDataFiles, RewriteDataFilesResult};
pub use crate::rewrite_files::RewriteFilesAction;
pub use crate::rewrite_manifests::{RewriteManifests, RewriteManifestsResult};
pub use crate::rewrite_manifests_action::{MergedManifestGroup, RewriteManifestsAction};
