# iceberg_actions

Maintenance actions for Iceberg tables, verified with Verus:

- `ExpireSnapshots` removes old snapshots and the files that only they refer to.
- `RemoveOrphanFiles` removes files that no snapshot refers to.
- `RewriteDataFiles` compacts small and overly large data files with a pluggable
  `FileRewriter`; `DataFusionFileRewriter` is one.
- `RewriteManifests` merges small manifests.
- `RewriteFilesAction` and `RewriteManifestsAction` are the transaction actions that the
  last two commit. The first takes over the manifests of the current snapshot without the
  files it deletes.

## Layout

`src/` holds the library. It does no input or output: `execute` returns a step that says
what is needed next from outside, and the `resume` method of the step takes the outcome
and returns the next one. Contracts state each step exactly, over a model of what has
been read so far. The modules named `.._laws` state what holds of whole runs; those that
speak of storage do so over `storage::Storage`, an arbitrary content of all manifest
lists and manifests.

`src/outside.rs` holds all calls that are trusted rather than proved: UUIDs, the system
clock, Unicode lower case, and the settings of the Parquet writer.

`app/` runs the actions: asynchronous traits for catalog, storage, snapshot producer and
engine, and one loop per action. `tests/` runs the library on tables held in memory.
