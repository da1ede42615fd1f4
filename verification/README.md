# editor_persistence

What a code editor persists about its editors, verified with Verus.

- `src/editor.rs`: a serialized editor (path, unsaved contents, language,
  modification time) and the editors-table row it is stored as; reading a
  stored row back gives the stored editor.
- `src/mtime.rs`: file modification times as seconds and nanoseconds.
- `src/query.rs`: the statements built at run time: selections stored in
  batches that fit the statement parameter limit, and the removal of planning
  notes of terminals that are gone.
- `src/db.rs`, `src/folds.rs`, `src/notes.rs`: the editor database — its
  tables (editors, selections, editor folds, file folds, terminal planning
  notes, and the set of stored workspaces their rows belong to) and what each
  operation does to them, stated over maps and sequences, including the statements that the
  database refuses (rows of a missing workspace or editor, repeated keys,
  too many parameters).
- `src/laws.rs`: what holds across operations (a saved value reads back,
  overwrites replace, deletions remove, other keys are untouched).
- `src/table.rs`, `src/seqs.rs`: facts about keyed rows and filtering.
- `app/`: paths as `Path`s, scroll positions (floating point), and the SQL
  schema.
