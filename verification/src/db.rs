//! The editor database: the tables that hold what editors persist, and what
//! each of its statements does to them.
use vstd::prelude::*;
use crate::ids::{ItemId, WorkspaceId};
use crate::editor::{
    SerializedEditor, SerializedEditorView, EditorRow, EditorRowView, bound_row, loaded_editor,
    row_mtime_loadable,
};
use crate::query::{chunk_sizes, selection_chunk_sizes, SELECTIONS_PER_STATEMENT, MAX_HOST_PARAMETERS,
    selection_statement_parameters, lemma_selection_batches_fit};
use crate::table::{keys_distinct, entries_map, lemma_entries_map_index,
    lemma_entries_map_update, lemma_entries_map_push, lemma_entries_map_absent};

verus! {

/// The key of an editors row: the editor's item and its workspace.
pub type EditorKey = (u64, i64);

/// A selections row: the editor, its workspace, the start and the end.
pub type SelectionRow = (u64, i64, usize, usize);

/// The key of a file folds row: the workspace, the path's bytes and the start.
pub type FoldKey = (i64, Seq<u8>, usize);

/// The rest of a file folds row: the end and the two fingerprints.
pub type FoldValue = (usize, Option<Seq<char>>, Option<Seq<char>>);

/// The key of a planning notes row: the workspace, the terminal and the
/// working directory's path.
pub type NoteKey = (i64, u64, Seq<char>);

/// A stored editors row with its key.
pub struct EditorEntry {
    pub item_id: ItemId,
    pub workspace_id: i64,
    pub row: EditorRow,
}

/// A stored file folds row.
pub struct FileFoldEntry {
    pub workspace_id: i64,
    pub path: Vec<u8>,
    pub start: usize,
    pub end: usize,
    pub start_fingerprint: Option<String>,
    pub end_fingerprint: Option<String>,
}

/// A stored editor folds row: a fold of an editor's buffer, with the text at
/// its start and at its end.
pub struct EditorFoldEntry {
    pub editor_id: ItemId,
    pub workspace_id: i64,
    pub start: usize,
    pub end: usize,
    pub start_fingerprint: Option<String>,
    pub end_fingerprint: Option<String>,
}

/// An editor folds row as plain values: the editor, its workspace, the start,
/// the end and the two fingerprints.
pub type EditorFoldRow = (u64, i64, usize, usize, Option<Seq<char>>, Option<Seq<char>>);

pub open spec fn editor_fold_rows(s: Seq<EditorFoldEntry>) -> Seq<EditorFoldRow> {
    s.map_values(|e: EditorFoldEntry| (e.editor_id, e.workspace_id, e.start, e.end,
        crate::editor::string_opt_view(e.start_fingerprint),
        crate::editor::string_opt_view(e.end_fingerprint)))
}

/// A stored planning notes row.
pub struct NoteEntry {
    pub workspace_id: i64,
    pub terminal_item_id: ItemId,
    pub working_directory_path: String,
    pub note_item_id: ItemId,
}

pub open spec fn editor_entries(s: Seq<EditorEntry>) -> Seq<(EditorKey, EditorRowView)> {
    s.map_values(|e: EditorEntry| ((e.item_id, e.workspace_id), e.row@))
}

pub open spec fn fold_entries(s: Seq<FileFoldEntry>) -> Seq<(FoldKey, FoldValue)> {
    s.map_values(|e: FileFoldEntry| ((e.workspace_id, e.path@, e.start), (e.end,
        crate::editor::string_opt_view(e.start_fingerprint),
        crate::editor::string_opt_view(e.end_fingerprint))))
}

pub open spec fn note_entries(s: Seq<NoteEntry>) -> Seq<(NoteKey, u64)> {
    s.map_values(|e: NoteEntry| ((e.workspace_id, e.terminal_item_id, e.working_directory_path@), e.note_item_id))
}

/// An error that a statement of the database reports.
#[derive(Clone, Copy, Debug, PartialEq, Eq, Structural)]
pub enum StoreError {
    /// The statement would store a second row with the key of a stored row.
    ConstraintViolation,
    /// The statement would store a row that refers to a row that is not
    /// stored.
    ForeignKeyViolation,
    /// The statement would hold more parameters than a statement may.
    TooManyParameters,
}

/// The editor database.
pub struct EditorDb {
    pub(crate) editors: Vec<EditorEntry>,
    pub(crate) selections: Vec<SelectionRow>,
    pub(crate) file_folds: Vec<FileFoldEntry>,
    pub(crate) planning_notes: Vec<NoteEntry>,
    pub(crate) editor_folds: Vec<EditorFoldEntry>,
    pub(crate) workspaces: Vec<i64>,
}

/// The contents of the editor database.
pub struct EditorDbView {
    /// The editors table, by editor and workspace.
    pub editors: Map<EditorKey, EditorRowView>,
    /// The selections table, in the order in which rows were inserted.
    pub selections: Seq<SelectionRow>,
    /// The file folds table, by workspace, path and start.
    pub file_folds: Map<FoldKey, FoldValue>,
    /// The terminal planning notes table: the note of each terminal and
    /// working directory of a workspace.
    pub planning_notes: Map<NoteKey, u64>,
    /// The editor folds table, in the order in which rows were inserted.
    pub editor_folds: Seq<EditorFoldRow>,
    /// The workspaces that are stored; every row above belongs to one of them.
    pub workspaces: Set<i64>,
}

impl View for EditorDb {
    type V = EditorDbView;

    closed spec fn view(&self) -> EditorDbView {
        EditorDbView {
            editors: entries_map(editor_entries(self.editors@)),
            selections: self.selections@,
            file_folds: entries_map(fold_entries(self.file_folds@)),
            planning_notes: entries_map(note_entries(self.planning_notes@)),
            editor_folds: editor_fold_rows(self.editor_folds@),
            workspaces: self.workspaces@.to_set(),
        }
    }
}

/// The selections rows of one editor for the given selections.
pub open spec fn selection_rows(editor_id: u64, workspace_id: i64, sel: Seq<(usize, usize)>) -> Seq<SelectionRow> {
    sel.map_values(|p: (usize, usize)| (editor_id, workspace_id, p.0, p.1))
}

/// Whether a selections row belongs to the given editor.
pub open spec fn is_editor_row(editor_id: u64, workspace_id: i64) -> spec_fn(SelectionRow) -> bool {
    |r: SelectionRow| r.0 == editor_id && r.1 == workspace_id
}

/// Whether a selections row belongs to another editor.
pub open spec fn is_other_editor_row(editor_id: u64, workspace_id: i64) -> spec_fn(SelectionRow) -> bool {
    |r: SelectionRow| !(r.0 == editor_id && r.1 == workspace_id)
}

impl EditorDbView {
    /// The editor stored for `item_id` in `workspace_id`.
    pub open spec fn read_editor(self, item_id: u64, workspace_id: i64) -> Option<SerializedEditorView> {
        if self.editors.contains_key((item_id, workspace_id)) {
            Some(loaded_editor(self.editors[(item_id, workspace_id)]))
        } else {
            None
        }
    }

    /// Storing `e` for `item_id` in `workspace_id`, in place of what was there.
    pub open spec fn save_editor(self, item_id: u64, workspace_id: i64, e: SerializedEditorView) -> Self {
        EditorDbView { editors: self.editors.insert((item_id, workspace_id), bound_row(e)), ..self }
    }

    /// The stored selections of an editor, in the order of their rows.
    pub open spec fn read_selections(self, editor_id: u64, workspace_id: i64) -> Seq<(usize, usize)> {
        self.selections.filter(is_editor_row(editor_id, workspace_id)).map_values(
            |r: SelectionRow| (r.2, r.3),
        )
    }

    /// Storing `sel` for an editor: its stored selections are replaced by
    /// `sel`, in order; with no selections there is no statement and nothing
    /// changes.
    pub open spec fn save_selections(self, editor_id: u64, workspace_id: i64, sel: Seq<(usize, usize)>) -> Self {
        if sel.len() == 0 {
            self
        } else {
            EditorDbView {
                selections: self.selections.filter(is_other_editor_row(editor_id, workspace_id))
                    + selection_rows(editor_id, workspace_id, sel),
                ..self
            }
        }
    }
}

/// Every row of the keyed tables belongs to a stored workspace.
pub open spec fn rows_in_workspaces(v: EditorDbView) -> bool {
    &&& forall|k: EditorKey| #[trigger] v.editors.contains_key(k) ==> v.workspaces.contains(k.1)
    &&& forall|k: FoldKey| #[trigger] v.file_folds.contains_key(k) ==> v.workspaces.contains(k.0)
    &&& forall|k: NoteKey| #[trigger] v.planning_notes.contains_key(k) ==> v.workspaces.contains(k.0)
}

impl EditorDbView {
    /// The database with workspace `workspace_id` stored.
    pub open spec fn store_workspace(self, workspace_id: i64) -> Self {
        EditorDbView { workspaces: self.workspaces.insert(workspace_id), ..self }
    }
}

/// Every selections row refers to a stored editor.
pub open spec fn selections_have_editors(sel: Seq<SelectionRow>, editors: Map<EditorKey, EditorRowView>) -> bool {
    forall|i: int| 0 <= i < sel.len() ==> editors.contains_key(((#[trigger] sel[i]).0, sel[i].1))
}

impl EditorDb {
    /// The invariant of the tables: keys are distinct, every stored
    /// modification time can be read back, every selection belongs to a
    /// stored editor, and every row to a stored workspace.
    pub closed spec fn wf(&self) -> bool {
        &&& keys_distinct(editor_entries(self.editors@))
        &&& forall|i: int| 0 <= i < self.editors@.len() ==> row_mtime_loadable(#[trigger] self.editors@[i].row@)
        &&& keys_distinct(fold_entries(self.file_folds@))
        &&& keys_distinct(note_entries(self.planning_notes@))
        &&& selections_have_editors(self.selections@, entries_map(editor_entries(self.editors@)))
        &&& rows_in_workspaces(self@)
    }

    /// What the view and the invariant are made of.
    pub(crate) proof fn lemma_unfold(&self)
        ensures
            self@.editors == entries_map(editor_entries(self.editors@)),
            self@.selections == self.selections@,
            self@.file_folds == entries_map(fold_entries(self.file_folds@)),
            self@.planning_notes == entries_map(note_entries(self.planning_notes@)),
            self.wf() <==> {
                &&& keys_distinct(editor_entries(self.editors@))
                &&& forall|i: int| 0 <= i < self.editors@.len() ==> row_mtime_loadable(#[trigger] self.editors@[i].row@)
                &&& keys_distinct(fold_entries(self.file_folds@))
                &&& keys_distinct(note_entries(self.planning_notes@))
                &&& selections_have_editors(self.selections@, entries_map(editor_entries(self.editors@)))
                &&& rows_in_workspaces(self@)
            },
            self@.workspaces == self.workspaces@.to_set(),
            self@.editor_folds == editor_fold_rows(self.editor_folds@),
    {
    }

    /// An empty database.
    pub fn new() -> (db: EditorDb)
        ensures
            db.wf(),
            db@.editors == Map::<EditorKey, EditorRowView>::empty(),
            db@.selections == Seq::<SelectionRow>::empty(),
            db@.file_folds == Map::<FoldKey, FoldValue>::empty(),
            db@.planning_notes == Map::<NoteKey, u64>::empty(),
            db@.workspaces == Set::<i64>::empty(),
            db@.editor_folds == Seq::<EditorFoldRow>::empty(),
    {
        let db = EditorDb {
            editors: Vec::new(),
            selections: Vec::new(),
            file_folds: Vec::new(),
            planning_notes: Vec::new(),
            editor_folds: Vec::new(),
            workspaces: Vec::new(),
        };
        assert(db@.editor_folds =~= Seq::<EditorFoldRow>::empty());
        assert(db@.workspaces =~= Set::<i64>::empty());
        assert(db@.editors =~= Map::<EditorKey, EditorRowView>::empty());
        assert(db@.file_folds =~= Map::<FoldKey, FoldValue>::empty());
        assert(db@.planning_notes =~= Map::<NoteKey, u64>::empty());
        db
    }

    /// Whether workspace `workspace_id` is stored.
    pub fn has_workspace(&self, workspace_id: WorkspaceId) -> (r: bool)
        ensures
            r == self@.workspaces.contains(workspace_id.0),
    {
        proof {
            self.lemma_unfold();
        }
        let mut i: usize = 0;
        while i < self.workspaces.len()
            invariant
                i <= self.workspaces@.len(),
                forall|j: int| 0 <= j < i ==> self.workspaces@[j] != workspace_id.0,
            decreases self.workspaces@.len() - i,
        {
            if self.workspaces[i] == workspace_id.0 {
                assert(self.workspaces@[i as int] == workspace_id.0);
                return true;
            }
            i = i + 1;
        }
        false
    }

    /// Stores workspace `workspace_id`, so that rows may belong to it. The
    /// workspace rows are written by the workspace database; this stands for
    /// such a write.
    pub fn insert_workspace(&mut self, workspace_id: WorkspaceId)
        requires
            old(self).wf(),
        ensures
            final(self).wf(),
            final(self)@ == old(self)@.store_workspace(workspace_id.0),
    {
        proof {
            self.lemma_unfold();
        }
        if !self.has_workspace(workspace_id) {
            proof {
                crate::seqs::lemma_push_to_set(self.workspaces@, workspace_id.0);
            }
            self.workspaces.push(workspace_id.0);
        }
        proof {
            self.lemma_unfold();
            old(self).lemma_unfold();
            assert(self@.workspaces =~= old(self)@.workspaces.insert(workspace_id.0));
            assert(self@ == old(self)@.store_workspace(workspace_id.0));
        }
    }

    fn find_editor(&self, item_id: ItemId, workspace_id: i64) -> (r: Option<usize>)
        ensures
            match r {
                Some(i) => i < self.editors@.len() && self.editors@[i as int].item_id == item_id
                    && self.editors@[i as int].workspace_id == workspace_id,
                None => forall|i: int| 0 <= i < self.editors@.len() ==>
                    #[trigger] editor_entries(self.editors@)[i].0 != (item_id, workspace_id),
            },
    {
        let mut i: usize = 0;
        while i < self.editors.len()
            invariant
                i <= self.editors@.len(),
                forall|j: int| 0 <= j < i ==> #[trigger] editor_entries(self.editors@)[j].0 != (item_id, workspace_id),
            decreases self.editors@.len() - i,
        {
            if self.editors[i].item_id == item_id && self.editors[i].workspace_id == workspace_id {
                return Some(i);
            }
            i = i + 1;
        }
        None
    }

    /// Stores `serialized_editor` as the row of `item_id` in `workspace_id`,
    /// inserting the row or replacing the one that is there. The row of a
    /// workspace that is not stored cannot be inserted: nothing changes and
    /// `ForeignKeyViolation` is returned.
    pub fn save_serialized_editor(&mut self, item_id: ItemId, workspace_id: WorkspaceId, serialized_editor: SerializedEditor) -> (r: Result<(), StoreError>)
        requires
            old(self).wf(),
        ensures
            final(self).wf(),
            r is Err <==> !old(self)@.workspaces.contains(workspace_id.0),
            match r {
                Ok(()) => final(self)@ == old(self)@.save_editor(item_id, workspace_id.0, serialized_editor@),
                Err(e) => e == StoreError::ForeignKeyViolation && final(self)@ == old(self)@,
            },
    {
        if !self.has_workspace(workspace_id) {
            return Err(StoreError::ForeignKeyViolation);
        }
        let row = serialized_editor.bind();
        proof {
            crate::editor::lemma_editor_row_round_trip(serialized_editor@);
        }
        let ws = workspace_id.0;
        let ghost before = self.editors@;
        let entry = EditorEntry { item_id, workspace_id: ws, row };
        match self.find_editor(item_id, ws) {
            Some(i) => {
                self.editors.set(i, entry);
                proof {
                    assert(editor_entries(self.editors@) =~= editor_entries(before).update(
                        i as int, (editor_entries(before)[i as int].0, bound_row(serialized_editor@))));
                    lemma_entries_map_update(editor_entries(before), i as int, bound_row(serialized_editor@));
                }
            },
            None => {
                self.editors.push(entry);
                proof {
                    lemma_entries_map_absent(editor_entries(before), (item_id, ws));
                    assert(editor_entries(self.editors@) =~= editor_entries(before).push(((item_id, ws), bound_row(serialized_editor@))));
                    lemma_entries_map_push(editor_entries(before), (item_id, ws), bound_row(serialized_editor@));
                }
            },
        }
        assert(self@.editors =~= old(self)@.editors.insert((item_id, ws), bound_row(serialized_editor@)));
        proof {
            self.lemma_unfold();
            old(self).lemma_unfold();
            assert forall|i: int| 0 <= i < self.selections@.len() implies
                self@.editors.contains_key(((#[trigger] self.selections@[i]).0, self.selections@[i].1)) by {
                assert(old(self)@.editors.contains_key((self.selections@[i].0, self.selections@[i].1)));
            }
        }
        Ok(())
    }

    /// The editor stored for `item_id` in `workspace_id`, if any.
    pub fn get_serialized_editor(&self, item_id: ItemId, workspace_id: WorkspaceId) -> (r: Option<SerializedEditor>)
        requires
            self.wf(),
        ensures
            match r {
                Some(e) => self@.read_editor(item_id, workspace_id.0) == Some(e@),
                None => self@.read_editor(item_id, workspace_id.0).is_none(),
            },
    {
        match self.find_editor(item_id, workspace_id.0) {
            Some(i) => {
                proof {
                    lemma_entries_map_index(editor_entries(self.editors@), i as int);
                }
                let e = SerializedEditor::column(&self.editors[i].row);
                Some(e)
            },
            None => {
                proof {
                    lemma_entries_map_absent(editor_entries(self.editors@), (item_id, workspace_id.0));
                }
                None
            },
        }
    }

    /// Removes every stored selection of the editor.
    fn remove_editor_selections(&mut self, editor_id: ItemId, workspace_id: i64)
        ensures
            final(self).selections@ == old(self).selections@.filter(is_other_editor_row(editor_id, workspace_id)),
            final(self).editors == old(self).editors,
            final(self).editor_folds == old(self).editor_folds,
            final(self).workspaces == old(self).workspaces,
            final(self).file_folds == old(self).file_folds,
            final(self).planning_notes == old(self).planning_notes,
    {
        let mut kept: Vec<SelectionRow> = Vec::new();
        let mut i: usize = 0;
        while i < self.selections.len()
            invariant
                i <= self.selections@.len(),
                kept@ == self.selections@.take(i as int).filter(is_other_editor_row(editor_id, workspace_id)),
            decreases self.selections@.len() - i,
        {
            let r = self.selections[i];
            proof {
                crate::seqs::lemma_filter_take_step(self.selections@, is_other_editor_row(editor_id, workspace_id), i as int);
                assert(r == self.selections@[i as int]);
            }
            if !(r.0 == editor_id && r.1 == workspace_id) {
                kept.push(r);
            }
            i = i + 1;
        }
        assert(self.selections@.take(self.selections@.len() as int) =~= self.selections@);
        self.selections = kept;
    }

    /// Stores the selections of an editor, in batches of at most
    /// `SELECTIONS_PER_STATEMENT`: the editor's stored selections are removed
    /// once, then every batch is inserted, so all the selections are stored in
    /// order; with no selections nothing is stored or removed.
    /// Selections of an editor that is not stored cannot be inserted: nothing
    /// changes and `ForeignKeyViolation` is returned. On success, the sizes of
    /// the batches, one insert statement each, in order.
    pub fn save_editor_selections(&mut self, editor_id: ItemId, workspace_id: WorkspaceId, selections: Vec<(usize, usize)>) -> (r: Result<Vec<usize>, StoreError>)
        requires
            old(self).wf(),
        ensures
            final(self).wf(),
            r is Err <==> selections@.len() > 0 && !old(self)@.editors.contains_key((editor_id, workspace_id.0)),
            match r {
                Ok(batches) => {
                    &&& final(self)@ == old(self)@.save_selections(editor_id, workspace_id.0, selections@)
                    &&& batches@.map_values(|c: usize| c as nat)
                        == chunk_sizes(selections@.len(), SELECTIONS_PER_STATEMENT as nat)
                    &&& forall|i: int| 0 <= i < batches@.len() ==>
                        selection_statement_parameters(#[trigger] batches@[i] as nat) <= MAX_HOST_PARAMETERS
                },
                Err(e) => e == StoreError::ForeignKeyViolation && final(self)@ == old(self)@,
            },
    {
        let ws = workspace_id.0;
        proof {
            self.lemma_unfold();
        }
        if selections.len() > 0 {
            match self.find_editor(editor_id, ws) {
                Some(i) => {
                    proof {
                        lemma_entries_map_index(editor_entries(self.editors@), i as int);
                    }
                },
                None => {
                    proof {
                        lemma_entries_map_absent(editor_entries(self.editors@), (editor_id, ws));
                    }
                    return Err(StoreError::ForeignKeyViolation);
                },
            }
        }
        if selections.len() == 0 {
            let none: Vec<usize> = Vec::new();
            assert(none@.map_values(|c: usize| c as nat) =~= chunk_sizes(0, SELECTIONS_PER_STATEMENT as nat));
            return Ok(none);
        }
        let sizes = selection_chunk_sizes(selections.len());
        let ghost n = selections@.len();
        let ghost sizes_nat = sizes@.map_values(|c: usize| c as nat);
        let ghost old_rows = self.selections@;
        let total_len = selections.len();
        self.remove_editor_selections(editor_id, ws);
        proof {
            assert(selections@.take(0) =~= Seq::<(usize, usize)>::empty());
            assert(selection_rows(editor_id, ws, selections@.take(0)) =~= Seq::<SelectionRow>::empty());
            assert(self.selections@ =~= old_rows.filter(is_other_editor_row(editor_id, ws))
                + selection_rows(editor_id, ws, selections@.take(0)));
            assert(sizes_nat.skip(0) =~= sizes_nat);
        }
        let mut last: usize = 0;
        let mut k: usize = 0;
        while k < sizes.len()
            invariant
                k <= sizes@.len(),
                n == selections@.len(),
                n == total_len,
                sizes_nat == sizes@.map_values(|c: usize| c as nat),
                sizes_nat == chunk_sizes(n, SELECTIONS_PER_STATEMENT as nat),
                last <= n,
                sizes_nat.skip(k as int) == chunk_sizes((n - last) as nat, SELECTIONS_PER_STATEMENT as nat),
                self.selections@ == old_rows.filter(is_other_editor_row(editor_id, ws))
                    + selection_rows(editor_id, ws, selections@.take(last as int)),
                self.editors == old(self).editors,
                self.editor_folds == old(self).editor_folds,
                self.workspaces == old(self).workspaces,
                self.file_folds == old(self).file_folds,
                self.planning_notes == old(self).planning_notes,
            decreases sizes@.len() - k,
        {
            let count = sizes[k];
            proof {
                let m = (n - last) as nat;
                let rest = chunk_sizes(m, SELECTIONS_PER_STATEMENT as nat);
                assert(sizes_nat.skip(k as int)[0] == sizes_nat[k as int]);
                assert(rest.len() > 0);
                if m <= SELECTIONS_PER_STATEMENT {
                    assert(rest == seq![m]);
                    assert(sizes_nat.skip(k as int + 1) =~= chunk_sizes(0, SELECTIONS_PER_STATEMENT as nat));
                    assert(count == m);
                } else {
                    assert(rest == seq![SELECTIONS_PER_STATEMENT as nat] + chunk_sizes((m - SELECTIONS_PER_STATEMENT) as nat, SELECTIONS_PER_STATEMENT as nat));
                    assert(sizes_nat.skip(k as int + 1) =~= rest.drop_first());
                    assert(rest.drop_first() =~= chunk_sizes((m - SELECTIONS_PER_STATEMENT) as nat, SELECTIONS_PER_STATEMENT as nat));
                    assert(count == SELECTIONS_PER_STATEMENT);
                }
            }
            let first = last;
            last = last + count;
            let mut j: usize = first;
            while j < last
                invariant
                    first <= j <= last,
                    last <= n,
                    n == total_len,
                    n == selections@.len(),
                    self.selections@ == old_rows.filter(is_other_editor_row(editor_id, ws))
                        + selection_rows(editor_id, ws, selections@.take(j as int)),
                    self.editors == old(self).editors,
                    self.editor_folds == old(self).editor_folds,
                    self.workspaces == old(self).workspaces,
                    self.file_folds == old(self).file_folds,
                    self.planning_notes == old(self).planning_notes,
                decreases last - j,
            {
                let (start, end) = selections[j];
                self.selections.push((editor_id, ws, start, end));
                assert(selection_rows(editor_id, ws, selections@.take(j + 1))
                    =~= selection_rows(editor_id, ws, selections@.take(j as int)).push((editor_id, ws, start, end)));
                j = j + 1;
            }
            k = k + 1;
        }
        proof {
            self.lemma_unfold();
            old(self).lemma_unfold();
            assert(chunk_sizes((n - last) as nat, SELECTIONS_PER_STATEMENT as nat).len() == 0);
            assert(last == n);
            assert(selections@.take(n as int) =~= selections@);
            assert(self@.selections =~= old(self)@.save_selections(editor_id, ws, selections@).selections);
            let sel2 = self@.selections;
            assert forall|i: int| 0 <= i < sel2.len() implies
                self@.editors.contains_key(((#[trigger] sel2[i]).0, sel2[i].1)) by {
                let kept = old_rows.filter(is_other_editor_row(editor_id, ws));
                if i < kept.len() {
                    crate::seqs::lemma_filter_kept_is_element(old_rows, is_other_editor_row(editor_id, ws), i);
                    assert(sel2[i] == kept[i]);
                    let j = choose|j: int| 0 <= j < old_rows.len() && old_rows[j] == kept[i];
                    assert(old(self)@.editors.contains_key((old_rows[j].0, old_rows[j].1)));
                }
            }
        }
        proof {
            lemma_selection_batches_fit(n);
            assert forall|i: int| 0 <= i < sizes@.len() implies
                selection_statement_parameters(#[trigger] sizes@[i] as nat) <= MAX_HOST_PARAMETERS by {
                assert(sizes_nat[i] == sizes@[i] as nat);
            }
        }
        Ok(sizes)
    }

    /// The stored selections of an editor, in the order of their rows.
    pub fn get_editor_selections(&self, editor_id: ItemId, workspace_id: WorkspaceId) -> (r: Vec<(usize, usize)>)
        requires
            self.wf(),
        ensures
            r@ == self@.read_selections(editor_id, workspace_id.0),
    {
        let mut out: Vec<(usize, usize)> = Vec::new();
        let mut i: usize = 0;
        while i < self.selections.len()
            invariant
                i <= self.selections@.len(),
                out@ == self.selections@.take(i as int).filter(is_editor_row(editor_id, workspace_id.0)).map_values(
                    |r: SelectionRow| (r.2, r.3)),
            decreases self.selections@.len() - i,
        {
            let r = self.selections[i];
            proof {
                crate::seqs::lemma_filter_take_step(self.selections@, is_editor_row(editor_id, workspace_id.0), i as int);
                assert(r == self.selections@[i as int]);
            }
            let ghost before = self.selections@.take(i as int).filter(is_editor_row(editor_id, workspace_id.0));
            if r.0 == editor_id && r.1 == workspace_id.0 {
                out.push((r.2, r.3));
                assert(before.push(r).map_values(|r: SelectionRow| (r.2, r.3))
                    =~= before.map_values(|r: SelectionRow| (r.2, r.3)).push((r.2, r.3)));
            }
            i = i + 1;
        }
        assert(self.selections@.take(self.selections@.len() as int) =~= self.selections@);
        proof {
            self.lemma_unfold();
        }
        out
    }
}

} // verus!
