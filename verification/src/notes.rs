//! Planning notes attached to terminals: one note per terminal and working
//! directory of a workspace.
use vstd::prelude::*;
use crate::ids::{ItemId, WorkspaceId};
use crate::db::{EditorDb, EditorDbView, NoteKey, NoteEntry, note_entries, StoreError};
use crate::query::{MAX_HOST_PARAMETERS, unloaded_notes_statement_parameters};
use crate::paths::{utf8_lossy, path_to_string_lossy};
use crate::table::{keys_distinct, entries_map, retained, without_keys, lemma_entries_map_index,
    lemma_entries_map_update, lemma_entries_map_push, lemma_entries_map_absent, lemma_retained_start,
    lemma_retained_end, lemma_retained_remove, lemma_retained_keep};

verus! {

/// Whether a planning notes key is the given one.
pub open spec fn is_note_key(key: NoteKey) -> spec_fn(NoteKey) -> bool {
    |k: NoteKey| k == key
}

/// Whether a planning notes key belongs to the given terminal of a workspace.
pub open spec fn is_terminal_key(workspace_id: i64, terminal_item_id: u64) -> spec_fn(NoteKey) -> bool {
    |k: NoteKey| k.0 == workspace_id && k.1 == terminal_item_id
}

/// Whether a planning notes key belongs to a terminal of the workspace that is
/// not among `alive`.
pub open spec fn is_unloaded_key(workspace_id: i64, alive: Seq<u64>) -> spec_fn(NoteKey) -> bool {
    |k: NoteKey| k.0 == workspace_id && !alive.contains(k.1)
}

impl EditorDbView {
    /// The note of a terminal and working directory.
    pub open spec fn read_note(self, workspace_id: i64, terminal_item_id: u64, path: Seq<char>) -> Option<u64> {
        if self.planning_notes.contains_key((workspace_id, terminal_item_id, path)) {
            Some(self.planning_notes[(workspace_id, terminal_item_id, path)])
        } else {
            None
        }
    }

    /// The notes of a workspace.
    pub open spec fn note_ids(self, workspace_id: i64) -> Set<u64> {
        Set::new(|n: u64| exists|k: NoteKey| #[trigger] self.planning_notes.contains_key(k) && k.0 == workspace_id
            && self.planning_notes[k] == n)
    }

    /// Attaching `note` to a terminal and working directory, in place of the
    /// note attached there.
    pub open spec fn save_note(self, workspace_id: i64, terminal_item_id: u64, path: Seq<char>, note: u64) -> Self {
        EditorDbView {
            planning_notes: self.planning_notes.insert((workspace_id, terminal_item_id, path), note),
            ..self
        }
    }

    /// Detaching the note of a terminal and working directory.
    pub open spec fn delete_note(self, workspace_id: i64, terminal_item_id: u64, path: Seq<char>) -> Self {
        EditorDbView {
            planning_notes: self.planning_notes.remove((workspace_id, terminal_item_id, path)),
            ..self
        }
    }

    /// Detaching the notes of the terminals of a workspace that are not among
    /// `alive`; with no terminal alive, every note of the workspace.
    pub open spec fn delete_unloaded_notes(self, workspace_id: i64, alive: Seq<u64>) -> Self {
        EditorDbView {
            planning_notes: without_keys(self.planning_notes, is_unloaded_key(workspace_id, alive)),
            ..self
        }
    }

    /// Replacing note `old_note` by `new_note` wherever the workspace uses it.
    pub open spec fn rekey_note(self, workspace_id: i64, old_note: u64, new_note: u64) -> Self {
        EditorDbView {
            planning_notes: Map::new(
                |k: NoteKey| self.planning_notes.contains_key(k),
                |k: NoteKey| if k.0 == workspace_id && self.planning_notes[k] == old_note {
                    new_note
                } else {
                    self.planning_notes[k]
                },
            ),
            ..self
        }
    }

    /// Moving the notes of terminal `old_terminal` to `new_terminal`: each note
    /// is first attached to the new terminal, in place of any note there, and
    /// then every note of the old terminal is detached. A terminal rekeyed to
    /// itself keeps its notes.
    pub open spec fn rekey_terminal(self, workspace_id: i64, old_terminal: u64, new_terminal: u64) -> Self {
        if old_terminal == new_terminal {
            self
        } else {
            self.move_terminal_notes(workspace_id, old_terminal, new_terminal)
        }
    }

    /// Attaching the notes of `old_terminal` to `new_terminal`, in place of
    /// any note there, then detaching every note of `old_terminal`.
    pub open spec fn move_terminal_notes(self, workspace_id: i64, old_terminal: u64, new_terminal: u64) -> Self {
        let m = self.planning_notes;
        let moved = Map::new(
            |k: NoteKey| m.contains_key(k) || (k.0 == workspace_id && k.1 == new_terminal
                && m.contains_key((workspace_id, old_terminal, k.2))),
            |k: NoteKey| if k.0 == workspace_id && k.1 == new_terminal && m.contains_key((workspace_id, old_terminal, k.2)) {
                m[(workspace_id, old_terminal, k.2)]
            } else {
                m[k]
            },
        );
        EditorDbView {
            planning_notes: without_keys(moved, is_terminal_key(workspace_id, old_terminal)),
            ..self
        }
    }
}

/// Which planning notes a removal selects.
enum NoteSelector<'a> {
    Key(u64, &'a String),
    Terminal(u64),
    Unloaded(&'a Vec<u64>),
}

spec fn selects(sel: NoteSelector, workspace_id: i64) -> spec_fn(NoteKey) -> bool {
    match sel {
        NoteSelector::Key(t, p) => is_note_key((workspace_id, t, p@)),
        NoteSelector::Terminal(t) => is_terminal_key(workspace_id, t),
        NoteSelector::Unloaded(alive) => is_unloaded_key(workspace_id, alive@),
    }
}

fn contains_id(ids: &Vec<u64>, id: u64) -> (r: bool)
    ensures
        r == ids@.contains(id),
{
    let mut i: usize = 0;
    while i < ids.len()
        invariant
            i <= ids@.len(),
            forall|j: int| 0 <= j < i ==> ids@[j] != id,
        decreases ids@.len() - i,
    {
        if ids[i] == id {
            assert(ids@[i as int] == id);
            return true;
        }
        i = i + 1;
    }
    false
}

fn selects_row(sel: &NoteSelector, workspace_id: i64, e: &NoteEntry) -> (r: bool)
    ensures
        r == selects(*sel, workspace_id)((e.workspace_id, e.terminal_item_id, e.working_directory_path@)),
{
    if e.workspace_id != workspace_id {
        return false;
    }
    match sel {
        NoteSelector::Key(t, p) => e.terminal_item_id == *t && e.working_directory_path == **p,
        NoteSelector::Terminal(t) => e.terminal_item_id == *t,
        NoteSelector::Unloaded(alive) => !contains_id(alive, e.terminal_item_id),
    }
}

impl EditorDb {
    fn find_note(&self, workspace_id: i64, terminal_item_id: ItemId, path: &String) -> (r: Option<usize>)
        ensures
            match r {
                Some(i) => i < self.planning_notes@.len()
                    && note_entries(self.planning_notes@)[i as int].0 == (workspace_id, terminal_item_id, path@),
                None => forall|i: int| 0 <= i < self.planning_notes@.len() ==>
                    #[trigger] note_entries(self.planning_notes@)[i].0 != (workspace_id, terminal_item_id, path@),
            },
    {
        let mut i: usize = 0;
        while i < self.planning_notes.len()
            invariant
                i <= self.planning_notes@.len(),
                forall|j: int| 0 <= j < i ==>
                    #[trigger] note_entries(self.planning_notes@)[j].0 != (workspace_id, terminal_item_id, path@),
            decreases self.planning_notes@.len() - i,
        {
            let e = &self.planning_notes[i];
            if e.workspace_id == workspace_id && e.terminal_item_id == terminal_item_id && e.working_directory_path == *path {
                return Some(i);
            }
            i = i + 1;
        }
        None
    }

    /// Attaches `note_item_id` to the key, in place of the note there.
    fn upsert_note(&mut self, workspace_id: i64, terminal_item_id: ItemId, path: String, note_item_id: ItemId)
        requires
            old(self).wf(),
            old(self)@.workspaces.contains(workspace_id),
        ensures
            final(self).wf(),
            final(self)@ == old(self)@.save_note(workspace_id, terminal_item_id, path@, note_item_id),
    {
        proof {
            self.lemma_unfold();
        }
        let ghost before = self.planning_notes@;
        let ghost key: NoteKey = (workspace_id, terminal_item_id, path@);
        match self.find_note(workspace_id, terminal_item_id, &path) {
            Some(i) => {
                self.planning_notes.set(i, NoteEntry { workspace_id, terminal_item_id, working_directory_path: path, note_item_id });
                proof {
                    assert(note_entries(self.planning_notes@) =~= note_entries(before).update(i as int, (key, note_item_id)));
                    lemma_entries_map_update(note_entries(before), i as int, note_item_id);
                }
            },
            None => {
                proof {
                    lemma_entries_map_absent(note_entries(before), key);
                }
                self.planning_notes.push(NoteEntry { workspace_id, terminal_item_id, working_directory_path: path, note_item_id });
                proof {
                    assert(note_entries(self.planning_notes@) =~= note_entries(before).push((key, note_item_id)));
                    lemma_entries_map_push(note_entries(before), key, note_item_id);
                }
            },
        }
        proof {
            self.lemma_unfold();
            old(self).lemma_unfold();
        }
    }

    /// Removes the notes that `sel` selects.
    fn remove_notes(&mut self, workspace_id: i64, sel: NoteSelector)
        requires
            old(self).wf(),
        ensures
            final(self).wf(),
            final(self)@ == (EditorDbView {
                planning_notes: without_keys(old(self)@.planning_notes, selects(sel, workspace_id)),
                ..old(self)@
            }),
    {
        proof {
            self.lemma_unfold();
            lemma_retained_start(note_entries(self.planning_notes@), selects(sel, workspace_id));
        }
        let ghost m0 = self@.planning_notes;
        let ghost drop = selects(sel, workspace_id);
        let mut i: usize = 0;
        while i < self.planning_notes.len()
            invariant
                i <= self.planning_notes@.len(),
                keys_distinct(note_entries(self.planning_notes@)),
                entries_map(note_entries(self.planning_notes@)) == retained(m0, drop, note_entries(self.planning_notes@).skip(i as int)),
                drop == selects(sel, workspace_id),
                self.editors == old(self).editors,
                self.editor_folds == old(self).editor_folds,
                self.workspaces == old(self).workspaces,
                self.selections == old(self).selections,
                self.file_folds == old(self).file_folds,
            decreases self.planning_notes@.len() - i,
        {
            if selects_row(&sel, workspace_id, &self.planning_notes[i]) {
                let ghost before = self.planning_notes@;
                proof {
                    lemma_retained_remove(note_entries(before), i as int, m0, drop);
                }
                self.planning_notes.remove(i);
                assert(note_entries(self.planning_notes@) =~= note_entries(before).remove(i as int));
            } else {
                proof {
                    lemma_retained_keep(note_entries(self.planning_notes@), i as int, m0, drop);
                }
                i = i + 1;
            }
        }
        proof {
            lemma_retained_end(note_entries(self.planning_notes@), m0, drop);
            self.lemma_unfold();
            old(self).lemma_unfold();
        }
    }

    /// Attaches note `note_item_id` to a terminal and working directory, in
    /// place of the note attached there; the directory is kept as the lossy
    /// text of its path. A note of a workspace that is not stored cannot be
    /// attached: nothing changes and `ForeignKeyViolation` is returned.
    pub fn save_terminal_planning_note(&mut self, workspace_id: WorkspaceId, terminal_item_id: ItemId, working_directory_path: Vec<u8>, note_item_id: ItemId) -> (r: Result<(), StoreError>)
        requires
            old(self).wf(),
        ensures
            final(self).wf(),
            r is Err <==> !old(self)@.workspaces.contains(workspace_id.0),
            match r {
                Ok(()) => final(self)@ == old(self)@.save_note(workspace_id.0, terminal_item_id, utf8_lossy(working_directory_path@), note_item_id),
                Err(e) => e == StoreError::ForeignKeyViolation && final(self)@ == old(self)@,
            },
    {
        if !self.has_workspace(workspace_id) {
            return Err(StoreError::ForeignKeyViolation);
        }
        let path = path_to_string_lossy(working_directory_path.as_slice());
        self.upsert_note(workspace_id.0, terminal_item_id, path, note_item_id);
        Ok(())
    }

    /// The note attached to a terminal and working directory, if any.
    pub fn get_terminal_planning_note(&self, workspace_id: WorkspaceId, terminal_item_id: ItemId, working_directory_path: String) -> (r: Option<ItemId>)
        requires
            self.wf(),
        ensures
            r == self@.read_note(workspace_id.0, terminal_item_id, working_directory_path@),
    {
        proof {
            self.lemma_unfold();
        }
        match self.find_note(workspace_id.0, terminal_item_id, &working_directory_path) {
            Some(i) => {
                proof {
                    lemma_entries_map_index(note_entries(self.planning_notes@), i as int);
                }
                Some(self.planning_notes[i].note_item_id)
            },
            None => {
                proof {
                    lemma_entries_map_absent(note_entries(self.planning_notes@), (workspace_id.0, terminal_item_id, working_directory_path@));
                }
                None
            },
        }
    }

    /// Detaches the note of a terminal and working directory.
    pub fn delete_terminal_planning_note(&mut self, workspace_id: WorkspaceId, terminal_item_id: ItemId, working_directory_path: Vec<u8>)
        requires
            old(self).wf(),
        ensures
            final(self).wf(),
            final(self)@ == old(self)@.delete_note(workspace_id.0, terminal_item_id, utf8_lossy(working_directory_path@)),
    {
        let path = path_to_string_lossy(working_directory_path.as_slice());
        self.remove_notes(workspace_id.0, NoteSelector::Key(terminal_item_id, &path));
        assert(without_keys(old(self)@.planning_notes, is_note_key((workspace_id.0, terminal_item_id, path@)))
            =~= old(self)@.planning_notes.remove((workspace_id.0, terminal_item_id, path@)));
    }

    /// Detaches the notes of the terminals of a workspace that are not among
    /// `alive_terminal_ids`. The removal is one statement with a parameter
    /// for the workspace and one for each alive terminal; with more parameters
    /// than a statement may hold it fails with `TooManyParameters` and nothing
    /// is removed.
    pub fn delete_unloaded_terminal_planning_notes(&mut self, workspace_id: WorkspaceId, alive_terminal_ids: Vec<ItemId>) -> (r: Result<(), StoreError>)
        requires
            old(self).wf(),
        ensures
            final(self).wf(),
            r is Err <==> unloaded_notes_statement_parameters(alive_terminal_ids@.len()) > MAX_HOST_PARAMETERS,
            match r {
                Ok(()) => final(self)@ == old(self)@.delete_unloaded_notes(workspace_id.0, alive_terminal_ids@),
                Err(e) => e == StoreError::TooManyParameters && final(self)@ == old(self)@,
            },
    {
        if alive_terminal_ids.len() >= MAX_HOST_PARAMETERS {
            return Err(StoreError::TooManyParameters);
        }
        self.remove_notes(workspace_id.0, NoteSelector::Unloaded(&alive_terminal_ids));
        Ok(())
    }

    /// The notes used in a workspace, each once.
    pub fn terminal_planning_note_item_ids(&self, workspace_id: WorkspaceId) -> (r: Vec<ItemId>)
        requires
            self.wf(),
        ensures
            r@.no_duplicates(),
            r@.to_set() == self@.note_ids(workspace_id.0),
    {
        proof {
            self.lemma_unfold();
        }
        let ghost es = note_entries(self.planning_notes@);
        let ws = workspace_id.0;
        let mut out: Vec<ItemId> = Vec::new();
        let mut i: usize = 0;
        while i < self.planning_notes.len()
            invariant
                i <= self.planning_notes@.len(),
                ws == workspace_id.0,
                es == note_entries(self.planning_notes@),
                out@.no_duplicates(),
                forall|q: int| 0 <= q < out@.len() ==> used_in_rows(es, i as int, ws, #[trigger] out@[q]),
                forall|j: int| 0 <= j < i && (#[trigger] es[j]).0.0 == ws ==> out@.contains(es[j].1),
            decreases self.planning_notes@.len() - i,
        {
            let e = &self.planning_notes[i];
            let ghost before = out@;
            if e.workspace_id == ws && !contains_id(&out, e.note_item_id) {
                out.push(e.note_item_id);
                proof {
                    assert(used_in_rows(es, i as int + 1, ws, e.note_item_id)) by {
                        assert(es[i as int].0.0 == ws && es[i as int].1 == e.note_item_id);
                    }
                    assert forall|j: int| 0 <= j < i + 1 && (#[trigger] es[j]).0.0 == ws implies out@.contains(es[j].1) by {
                        if j < i {
                            let q = choose|q: int| 0 <= q < before.len() && before[q] == es[j].1;
                            assert(out@[q] == es[j].1);
                        } else {
                            assert(out@[before.len() as int] == es[j].1);
                        }
                    }
                }
            } else {
                proof {
                    assert forall|j: int| 0 <= j < i + 1 && (#[trigger] es[j]).0.0 == ws implies out@.contains(es[j].1) by {
                        if j == i {
                            assert(es[j].1 == e.note_item_id);
                        }
                    }
                }
            }
            proof {
                assert forall|q: int| 0 <= q < out@.len() implies used_in_rows(es, i as int + 1, ws, #[trigger] out@[q]) by {
                    if q < before.len() {
                        assert(out@[q] == before[q]);
                        lemma_used_in_more_rows(es, i as int, ws, before[q]);
                    }
                }
            }
            i = i + 1;
        }
        proof {
            assert forall|n: u64| #[trigger] out@.to_set().contains(n) <==> self@.note_ids(ws).contains(n) by {
                if out@.to_set().contains(n) {
                    let q = choose|q: int| 0 <= q < out@.len() && out@[q] == n;
                    assert(used_in_rows(es, self.planning_notes@.len() as int, ws, out@[q]));
                    let j = choose|j: int| 0 <= j < self.planning_notes@.len() && (#[trigger] es[j]).0.0 == ws && es[j].1 == n;
                    lemma_entries_map_index(es, j);
                    assert(self@.planning_notes.contains_key(es[j].0));
                }
                if self@.note_ids(ws).contains(n) {
                    let k = choose|k: NoteKey| #[trigger] self@.planning_notes.contains_key(k) && k.0 == ws
                        && self@.planning_notes[k] == n;
                    let j = crate::table::lemma_entries_map_key(es, k);
                    assert(out@.contains(es[j].1));
                }
            }
            assert(out@.to_set() =~= self@.note_ids(ws));
        }
        out
    }

    /// Replaces note `old_note_item_id` by `new_note_item_id` wherever the
    /// workspace uses it.
    pub fn rekey_terminal_planning_note_item(&mut self, workspace_id: WorkspaceId, old_note_item_id: ItemId, new_note_item_id: ItemId)
        requires
            old(self).wf(),
        ensures
            final(self).wf(),
            final(self)@ == old(self)@.rekey_note(workspace_id.0, old_note_item_id, new_note_item_id),
    {
        proof {
            self.lemma_unfold();
        }
        let ws = workspace_id.0;
        let ghost f = rekeyed(ws, old_note_item_id, new_note_item_id);
        let mut rows: Vec<NoteEntry> = Vec::new();
        std::mem::swap(&mut rows, &mut self.planning_notes);
        let ghost es = note_entries(rows@);
        let mut i: usize = 0;
        while i < rows.len()
            invariant
                i <= rows@.len(),
                es == note_entries(rows@),
                self.planning_notes@.len() == i,
                forall|j: int| 0 <= j < i ==> #[trigger] note_entries(self.planning_notes@)[j] == (es[j].0, f(es[j].0, es[j].1)),
                f == rekeyed(ws, old_note_item_id, new_note_item_id),
                ws == workspace_id.0,
                self.editors == old(self).editors,
                self.editor_folds == old(self).editor_folds,
                self.workspaces == old(self).workspaces,
                self.selections == old(self).selections,
                self.file_folds == old(self).file_folds,
            decreases rows@.len() - i,
        {
            let e = &rows[i];
            let note = if e.workspace_id == ws && e.note_item_id == old_note_item_id {
                new_note_item_id
            } else {
                e.note_item_id
            };
            let ghost before = self.planning_notes@;
            self.planning_notes.push(NoteEntry {
                workspace_id: e.workspace_id,
                terminal_item_id: e.terminal_item_id,
                working_directory_path: e.working_directory_path.clone(),
                note_item_id: note,
            });
            proof {
                assert forall|j: int| 0 <= j < i + 1 implies #[trigger] note_entries(self.planning_notes@)[j] == (es[j].0, f(es[j].0, es[j].1)) by {
                    if j < i {
                        assert(self.planning_notes@[j] == before[j]);
                        assert(note_entries(self.planning_notes@)[j] == note_entries(before)[j]);
                    } else {
                        assert(self.planning_notes@[j].working_directory_path@ == e.working_directory_path@);
                        assert(es[j] == ((e.workspace_id, e.terminal_item_id, e.working_directory_path@), e.note_item_id));
                        assert(f(es[j].0, es[j].1) == note);
                    }
                }
            }
            i = i + 1;
        }
        proof {
            crate::table::lemma_entries_map_values(es, note_entries(self.planning_notes@), f);
            self.lemma_unfold();
            old(self).lemma_unfold();
            assert(self@.planning_notes =~= old(self)@.rekey_note(ws, old_note_item_id, new_note_item_id).planning_notes);
        }
    }

    /// Moves the notes of terminal `old_terminal_item_id` to
    /// `new_terminal_item_id`: each is attached to the new terminal, in place
    /// of any note there, and then the old terminal's notes are detached. A
    /// terminal rekeyed to itself keeps its notes.
    pub fn rekey_terminal_planning_note_terminal_item(&mut self, workspace_id: WorkspaceId, old_terminal_item_id: ItemId, new_terminal_item_id: ItemId)
        requires
            old(self).wf(),
        ensures
            final(self).wf(),
            final(self)@ == old(self)@.rekey_terminal(workspace_id.0, old_terminal_item_id, new_terminal_item_id),
    {
        if old_terminal_item_id == new_terminal_item_id {
            return;
        }
        proof {
            self.lemma_unfold();
        }
        let ws = workspace_id.0;
        let ghost m0 = self@.planning_notes;
        let ghost es = note_entries(self.planning_notes@);
        let mut moving: Vec<(String, u64)> = Vec::new();
        let mut i: usize = 0;
        while i < self.planning_notes.len()
            invariant
                i <= self.planning_notes@.len(),
                ws == workspace_id.0,
                es == note_entries(self.planning_notes@),
                keys_distinct(es),
                m0 == entries_map(es),
                forall|q: int| 0 <= q < moving@.len() ==> {
                    &&& m0.contains_key((ws, old_terminal_item_id, (#[trigger] moving@[q]).0@))
                    &&& m0[(ws, old_terminal_item_id, moving@[q].0@)] == moving@[q].1
                },
                forall|j: int| 0 <= j < i && (#[trigger] es[j]).0.0 == ws && es[j].0.1 == old_terminal_item_id ==>
                    exists|q: int| 0 <= q < moving@.len() && moving@[q].0@ == es[j].0.2,
            decreases self.planning_notes@.len() - i,
        {
            let e = &self.planning_notes[i];
            if e.workspace_id == ws && e.terminal_item_id == old_terminal_item_id {
                let ghost before = moving@;
                moving.push((e.working_directory_path.clone(), e.note_item_id));
                proof {
                    lemma_entries_map_index(es, i as int);
                    assert forall|q: int| 0 <= q < moving@.len() implies {
                        &&& m0.contains_key((ws, old_terminal_item_id, (#[trigger] moving@[q]).0@))
                        &&& m0[(ws, old_terminal_item_id, moving@[q].0@)] == moving@[q].1
                    } by {
                        if q < before.len() {
                            assert(moving@[q] == before[q]);
                        }
                    }
                    assert forall|j: int| 0 <= j < i + 1 && (#[trigger] es[j]).0.0 == ws && es[j].0.1 == old_terminal_item_id implies
                        exists|q: int| 0 <= q < moving@.len() && moving@[q].0@ == es[j].0.2 by {
                        if j < i {
                            let q = choose|q: int| 0 <= q < before.len() && before[q].0@ == es[j].0.2;
                            assert(moving@[q] == before[q]);
                        } else {
                            assert(moving@[before.len() as int].0@ == es[j].0.2);
                        }
                    }
                }
            }
            i = i + 1;
        }
        let ghost paths = moving@.map_values(|p: (String, u64)| p.0@);
        let mut q: usize = 0;
        while q < moving.len()
            invariant
                q <= moving@.len(),
                ws == workspace_id.0,
                paths == moving@.map_values(|p: (String, u64)| p.0@),
                self.wf(),
                forall|r: int| 0 <= r < moving@.len() ==> {
                    &&& m0.contains_key((ws, old_terminal_item_id, (#[trigger] moving@[r]).0@))
                    &&& m0[(ws, old_terminal_item_id, moving@[r].0@)] == moving@[r].1
                },
                self@.planning_notes == moved_notes(m0, ws, old_terminal_item_id, new_terminal_item_id, paths.take(q as int)),
                forall|k: NoteKey| #[trigger] m0.contains_key(k) ==> self@.workspaces.contains(k.0),
                self@.editors == old(self)@.editors,
                self@.editor_folds == old(self)@.editor_folds,
                self@.workspaces == old(self)@.workspaces,
                self@.selections == old(self)@.selections,
                self@.file_folds == old(self)@.file_folds,
            decreases moving@.len() - q,
        {
            let path = moving[q].0.clone();
            let note = moving[q].1;
            assert(m0.contains_key((ws, old_terminal_item_id, moving@[q as int].0@)));
            let ghost before = self@.planning_notes;
            self.upsert_note(ws, new_terminal_item_id, path, note);
            proof {
                assert(paths.take(q as int + 1) =~= paths.take(q as int).push(paths[q as int]));
                lemma_moved_notes_step(m0, ws, old_terminal_item_id, new_terminal_item_id, paths.take(q as int), paths[q as int]);
                assert(note == m0[(ws, old_terminal_item_id, paths[q as int])]);
            }
            q = q + 1;
        }
        proof {
            assert(paths.take(moving@.len() as int) =~= paths);
            assert forall|p: Seq<char>| #[trigger] paths.contains(p) <==> m0.contains_key((ws, old_terminal_item_id, p)) by {
                if paths.contains(p) {
                    let r = choose|r: int| 0 <= r < paths.len() && paths[r] == p;
                    assert(moving@[r].0@ == p);
                }
                if m0.contains_key((ws, old_terminal_item_id, p)) {
                    let j = crate::table::lemma_entries_map_key(es, (ws, old_terminal_item_id, p));
                    let r = choose|r: int| 0 <= r < moving@.len() && moving@[r].0@ == es[j].0.2;
                    assert(paths[r] == p);
                }
            }
            old(self).lemma_unfold();
            assert(moved_notes(m0, ws, old_terminal_item_id, new_terminal_item_id, paths) =~= Map::new(
                |k: NoteKey| m0.contains_key(k) || (k.0 == ws && k.1 == new_terminal_item_id
                    && m0.contains_key((ws, old_terminal_item_id, k.2))),
                |k: NoteKey| if k.0 == ws && k.1 == new_terminal_item_id && m0.contains_key((ws, old_terminal_item_id, k.2)) {
                    m0[(ws, old_terminal_item_id, k.2)]
                } else {
                    m0[k]
                },
            ));
        }
        assert(self@.planning_notes == Map::new(
                |k: NoteKey| m0.contains_key(k) || (k.0 == ws && k.1 == new_terminal_item_id
                    && m0.contains_key((ws, old_terminal_item_id, k.2))),
                |k: NoteKey| if k.0 == ws && k.1 == new_terminal_item_id && m0.contains_key((ws, old_terminal_item_id, k.2)) {
                    m0[(ws, old_terminal_item_id, k.2)]
                } else {
                    m0[k]
                },
            ));
        self.remove_notes(ws, NoteSelector::Terminal(old_terminal_item_id));
        proof {
            let target = old(self)@.rekey_terminal(ws, old_terminal_item_id, new_terminal_item_id);
            assert(self@.planning_notes == target.planning_notes);
        }
    }
}

/// Some of the first `i` rows belongs to the workspace and holds note `n`.
spec fn used_in_rows(es: Seq<(NoteKey, u64)>, i: int, ws: i64, n: u64) -> bool {
    exists|j: int| 0 <= j < i && (#[trigger] es[j]).0.0 == ws && es[j].1 == n
}

proof fn lemma_used_in_more_rows(es: Seq<(NoteKey, u64)>, i: int, ws: i64, n: u64)
    requires
        used_in_rows(es, i, ws, n),
    ensures
        used_in_rows(es, i + 1, ws, n),
{
    let j = choose|j: int| 0 <= j < i && (#[trigger] es[j]).0.0 == ws && es[j].1 == n;
    assert(0 <= j < i + 1 && es[j].0.0 == ws && es[j].1 == n);
}

/// The note that rekeying `old_note` to `new_note` in a workspace leaves at a key.
spec fn rekeyed(ws: i64, old_note: u64, new_note: u64) -> spec_fn(NoteKey, u64) -> u64 {
    |k: NoteKey, v: u64| if k.0 == ws && v == old_note { new_note } else { v }
}

/// The notes after the notes of the old terminal at `paths` have been
/// attached to the new terminal.
spec fn moved_notes(m0: Map<NoteKey, u64>, ws: i64, old_t: u64, new_t: u64, paths: Seq<Seq<char>>) -> Map<NoteKey, u64> {
    Map::new(
        |k: NoteKey| m0.contains_key(k) || (k.0 == ws && k.1 == new_t && paths.contains(k.2)),
        |k: NoteKey| if k.0 == ws && k.1 == new_t && paths.contains(k.2) { m0[(ws, old_t, k.2)] } else { m0[k] },
    )
}

proof fn lemma_moved_notes_step(m0: Map<NoteKey, u64>, ws: i64, old_t: u64, new_t: u64, paths: Seq<Seq<char>>, p: Seq<char>)
    ensures
        moved_notes(m0, ws, old_t, new_t, paths.push(p))
            == moved_notes(m0, ws, old_t, new_t, paths).insert((ws, new_t, p), m0[(ws, old_t, p)]),
{
    assert forall|x: Seq<char>| #[trigger] paths.push(p).contains(x) <==> (paths.contains(x) || x == p) by {
        if paths.push(p).contains(x) {
            let r = choose|r: int| 0 <= r < paths.push(p).len() && paths.push(p)[r] == x;
            if r < paths.len() {
                assert(paths[r] == x);
            }
        }
        if paths.contains(x) {
            let r = choose|r: int| 0 <= r < paths.len() && paths[r] == x;
            assert(paths.push(p)[r] == x);
        }
        if x == p {
            assert(paths.push(p)[paths.len() as int] == x);
        }
    }
    assert(moved_notes(m0, ws, old_t, new_t, paths.push(p))
        =~= moved_notes(m0, ws, old_t, new_t, paths).insert((ws, new_t, p), m0[(ws, old_t, p)]));
}

/// The note attached to a terminal and working directory, the directory given
/// by its path's bytes.
pub fn get_terminal_planning_note(db: &EditorDb, workspace_id: WorkspaceId, terminal_item_id: ItemId, working_directory_path: &[u8]) -> (r: Option<ItemId>)
    requires
        db.wf(),
    ensures
        r == db@.read_note(workspace_id.0, terminal_item_id, utf8_lossy(working_directory_path@)),
{
    db.get_terminal_planning_note(workspace_id, terminal_item_id, path_to_string_lossy(working_directory_path))
}

/// Attaches a note to a terminal and working directory of `db`; a note of a
/// workspace that is not stored is refused with `ForeignKeyViolation`.
pub fn save_terminal_planning_note(db: &mut EditorDb, workspace_id: WorkspaceId, terminal_item_id: ItemId, working_directory_path: Vec<u8>, note_item_id: ItemId) -> (r: Result<(), StoreError>)
    requires
        old(db).wf(),
    ensures
        final(db).wf(),
        r is Err <==> !old(db)@.workspaces.contains(workspace_id.0),
        match r {
            Ok(()) => final(db)@ == old(db)@.save_note(workspace_id.0, terminal_item_id, utf8_lossy(working_directory_path@), note_item_id),
            Err(e) => e == StoreError::ForeignKeyViolation && final(db)@ == old(db)@,
        },
{
    db.save_terminal_planning_note(workspace_id, terminal_item_id, working_directory_path, note_item_id)
}

/// Detaches the note of a terminal and working directory of `db`.
pub fn delete_terminal_planning_note(db: &mut EditorDb, workspace_id: WorkspaceId, terminal_item_id: ItemId, working_directory_path: Vec<u8>)
    requires
        old(db).wf(),
    ensures
        final(db).wf(),
        final(db)@ == old(db)@.delete_note(workspace_id.0, terminal_item_id, utf8_lossy(working_directory_path@)),
{
    db.delete_terminal_planning_note(workspace_id, terminal_item_id, working_directory_path)
}

/// Moves the notes of a terminal of `db` to another terminal.
pub fn rekey_terminal_planning_note_terminal_item(db: &mut EditorDb, workspace_id: WorkspaceId, old_terminal_item_id: ItemId, new_terminal_item_id: ItemId)
    requires
        old(db).wf(),
    ensures
        final(db).wf(),
        final(db)@ == old(db)@.rekey_terminal(workspace_id.0, old_terminal_item_id, new_terminal_item_id),
{
    db.rekey_terminal_planning_note_terminal_item(workspace_id, old_terminal_item_id, new_terminal_item_id)
}

/// Replaces a note of `db` by another wherever the workspace uses it.
pub fn rekey_terminal_planning_note_item(db: &mut EditorDb, workspace_id: WorkspaceId, old_note_item_id: ItemId, new_note_item_id: ItemId)
    requires
        old(db).wf(),
    ensures
        final(db).wf(),
        final(db)@ == old(db)@.rekey_note(workspace_id.0, old_note_item_id, new_note_item_id),
{
    db.rekey_terminal_planning_note_item(workspace_id, old_note_item_id, new_note_item_id)
}

/// Detaches the notes of the terminals of a workspace of `db` that are not
/// among `alive_terminal_ids`; with more of them than one statement may hold,
/// nothing is removed and `TooManyParameters` is returned.
pub fn delete_unloaded_terminal_planning_notes(db: &mut EditorDb, workspace_id: WorkspaceId, alive_terminal_ids: Vec<ItemId>) -> (r: Result<(), StoreError>)
    requires
        old(db).wf(),
    ensures
        final(db).wf(),
        r is Err <==> unloaded_notes_statement_parameters(alive_terminal_ids@.len()) > MAX_HOST_PARAMETERS,
        match r {
            Ok(()) => final(db)@ == old(db)@.delete_unloaded_notes(workspace_id.0, alive_terminal_ids@),
            Err(e) => e == StoreError::TooManyParameters && final(db)@ == old(db)@,
        },
{
    db.delete_unloaded_terminal_planning_notes(workspace_id, alive_terminal_ids)
}

} // verus!
