//! What holds of the editor database across its operations.
use vstd::prelude::*;
use crate::db::{EditorDbView, SelectionRow, is_editor_row, is_other_editor_row, selection_rows};
use crate::editor::{SerializedEditorView, editor_view_valid, persisted_editor, lemma_editor_row_round_trip, bound_row};
use crate::paths::utf8_lossy;
use crate::folds::{FoldInput, FoldListing, starts_distinct, with_folds, is_file_key, lemma_with_folds_keys};
use crate::table::without_keys;
use crate::db::{FoldKey, NoteKey};

verus! {

/// Reading an editor back after saving it gives the saved editor (a
/// modification time before the epoch comes back as none), and saving leaves
/// the editors of other items and workspaces as they were.
pub proof fn lemma_saved_editor_read_back(v: EditorDbView, item_id: u64, workspace_id: i64, e: SerializedEditorView, other_item: u64, other_workspace: i64)
    requires
        editor_view_valid(e),
    ensures
        v.save_editor(item_id, workspace_id, e).read_editor(item_id, workspace_id) == Some(persisted_editor(e)),
        (other_item, other_workspace) != (item_id, workspace_id) ==>
            v.save_editor(item_id, workspace_id, e).read_editor(other_item, other_workspace) == v.read_editor(other_item, other_workspace),
{
    lemma_editor_row_round_trip(e);
}

/// Saving an editor twice keeps only the second.
pub proof fn lemma_saved_editor_overwrites(v: EditorDbView, item_id: u64, workspace_id: i64, e1: SerializedEditorView, e2: SerializedEditorView)
    requires
        editor_view_valid(e2),
    ensures
        v.save_editor(item_id, workspace_id, e1).save_editor(item_id, workspace_id, e2).read_editor(item_id, workspace_id) == Some(persisted_editor(e2)),
{
    lemma_editor_row_round_trip(e2);
}

/// Storing selections and reading them back gives all of them, in order,
/// however many batches they take.
pub proof fn lemma_saved_selections_read_back(v: EditorDbView, editor_id: u64, workspace_id: i64, sel: Seq<(usize, usize)>)
    requires
        sel.len() > 0,
    ensures
        v.save_selections(editor_id, workspace_id, sel).read_selections(editor_id, workspace_id) == sel,
{
    let others = v.selections.filter(is_other_editor_row(editor_id, workspace_id));
    let rows = selection_rows(editor_id, workspace_id, sel);
    Seq::filter_distributes_over_add(others, rows, is_editor_row(editor_id, workspace_id));
    assert forall|i: int| 0 <= i < others.len() implies !is_editor_row(editor_id, workspace_id)(#[trigger] others[i]) by {
        v.selections.lemma_filter_pred(is_other_editor_row(editor_id, workspace_id), i);
    }
    crate::seqs::lemma_filter_none(others, is_editor_row(editor_id, workspace_id));
    crate::seqs::lemma_filter_all(rows, is_editor_row(editor_id, workspace_id));
    assert((Seq::<SelectionRow>::empty() + rows) =~= rows);
    assert(rows.map_values(|r: SelectionRow| (r.2, r.3)) =~= sel);
}

/// Storing no selections changes nothing.
pub proof fn lemma_no_selections_change_nothing(v: EditorDbView, editor_id: u64, workspace_id: i64)
    ensures
        v.save_selections(editor_id, workspace_id, Seq::empty()) == v,
{
}

/// Storing the selections of one editor leaves those of every other editor as
/// they were.
pub proof fn lemma_saved_selections_keep_others(v: EditorDbView, editor_id: u64, workspace_id: i64, sel: Seq<(usize, usize)>, other_editor: u64, other_workspace: i64)
    requires
        (other_editor, other_workspace) != (editor_id, workspace_id),
    ensures
        v.save_selections(editor_id, workspace_id, sel).read_selections(other_editor, other_workspace)
            == v.read_selections(other_editor, other_workspace),
{
    if sel.len() > 0 {
        let p_other = is_other_editor_row(editor_id, workspace_id);
        let q = is_editor_row(other_editor, other_workspace);
        let others = v.selections.filter(p_other);
        let rows = selection_rows(editor_id, workspace_id, sel);
        Seq::filter_distributes_over_add(others, rows, q);
        assert forall|i: int| 0 <= i < rows.len() implies !q(#[trigger] rows[i]) by {}
        crate::seqs::lemma_filter_none(rows, q);
        lemma_filter_commute_other(v.selections, editor_id, workspace_id, other_editor, other_workspace);
        assert(others.filter(q) + Seq::<SelectionRow>::empty() =~= others.filter(q));
    }
}

/// Selecting the rows of one editor after dropping those of another editor
/// selects the same rows as from the start.
proof fn lemma_filter_commute_other(s: Seq<SelectionRow>, editor_id: u64, workspace_id: i64, other_editor: u64, other_workspace: i64)
    requires
        (other_editor, other_workspace) != (editor_id, workspace_id),
    ensures
        s.filter(is_other_editor_row(editor_id, workspace_id)).filter(is_editor_row(other_editor, other_workspace))
            == s.filter(is_editor_row(other_editor, other_workspace)),
    decreases s.len(),
{
    reveal(Seq::filter);
    if s.len() > 0 {
        lemma_filter_commute_other(s.drop_last(), editor_id, workspace_id, other_editor, other_workspace);
        let p = is_other_editor_row(editor_id, workspace_id);
        let q = is_editor_row(other_editor, other_workspace);
        let f = s.drop_last().filter(p);
        if p(s.last()) {
            assert(f.push(s.last()).drop_last() =~= f);
        }
    }
}

/// After storing folds with distinct starts for a file, the file's stored
/// folds are exactly those, each with both fingerprints; the folds of every
/// other file are as they were.
pub proof fn lemma_saved_folds_read_back(v: EditorDbView, workspace_id: i64, path: Seq<u8>, f: Seq<FoldInput>, start: usize, other: (i64, Seq<u8>, usize))
    requires
        starts_distinct(f),
    ensures
        v.save_folds(workspace_id, path, f).file_folds.contains_key((workspace_id, path, start))
            <==> exists|i: int| 0 <= i < f.len() && #[trigger] f[i].0 == start,
        forall|i: int| 0 <= i < f.len() ==> #[trigger] v.save_folds(workspace_id, path, f).file_folds[(workspace_id, path, f[i].0)]
            == (f[i].1, Some(f[i].2), Some(f[i].3)),
        !(other.0 == workspace_id && other.1 == path) ==> (
            v.save_folds(workspace_id, path, f).file_folds.contains_key(other) == v.file_folds.contains_key(other)
            && (v.file_folds.contains_key(other) ==> v.save_folds(workspace_id, path, f).file_folds[other] == v.file_folds[other])),
{
    let base = without_keys(v.file_folds, is_file_key(workspace_id, path));
    lemma_with_folds_keys(base, workspace_id, path, f, (workspace_id, path, start));
    lemma_with_folds_keys(base, workspace_id, path, f, other);
    assert forall|i: int| 0 <= i < f.len() implies #[trigger] with_folds(base, workspace_id, path, f)[(workspace_id, path, f[i].0)]
        == (f[i].1, Some(f[i].2), Some(f[i].3)) by {
        lemma_with_folds_value(base, workspace_id, path, f, i);
    }
}

/// The value stored for a fold of distinct-start folds is that fold's.
proof fn lemma_with_folds_value(base: Map<(i64, Seq<u8>, usize), (usize, Option<Seq<char>>, Option<Seq<char>>)>, workspace_id: i64, path: Seq<u8>, f: Seq<FoldInput>, i: int)
    requires
        starts_distinct(f),
        0 <= i < f.len(),
    ensures
        with_folds(base, workspace_id, path, f)[(workspace_id, path, f[i].0)] == (f[i].1, Some(f[i].2), Some(f[i].3)),
    decreases f.len(),
{
    if i < f.len() - 1 {
        let g = f.drop_last();
        assert(starts_distinct(g)) by {
            assert forall|a: int, b: int| 0 <= a < b < g.len() implies #[trigger] g[a].0 != #[trigger] g[b].0 by {
                assert(g[a] == f[a] && g[b] == f[b]);
            }
        }
        assert(g[i] == f[i]);
        lemma_with_folds_value(base, workspace_id, path, g, i);
        assert(f[i].0 != f.last().0);
    }
}

/// Deleting a file's folds leaves none of them.
pub proof fn lemma_deleted_folds_gone(v: EditorDbView, workspace_id: i64, path: Seq<u8>, start: usize)
    ensures
        !v.delete_folds(workspace_id, path).file_folds.contains_key((workspace_id, path, start)),
{
}

/// A saved note is read back; a deleted one is gone.
pub proof fn lemma_saved_note_read_back(v: EditorDbView, workspace_id: i64, terminal: u64, path: Seq<char>, note: u64)
    ensures
        v.save_note(workspace_id, terminal, path, note).read_note(workspace_id, terminal, path) == Some(note),
        v.save_note(workspace_id, terminal, path, note).note_ids(workspace_id).contains(note),
        v.delete_note(workspace_id, terminal, path).read_note(workspace_id, terminal, path).is_none(),
{
    let w = v.save_note(workspace_id, terminal, path, note);
    assert(w.planning_notes.contains_key((workspace_id, terminal, path)));
}

/// Moving the notes of a terminal to a different terminal attaches each to the
/// new terminal and detaches it from the old one; other terminals keep theirs.
pub proof fn lemma_rekeyed_terminal_notes(v: EditorDbView, workspace_id: i64, old_terminal: u64, new_terminal: u64, path: Seq<char>, other: (i64, u64, Seq<char>))
    requires
        old_terminal != new_terminal,
    ensures
        v.read_note(workspace_id, old_terminal, path) is Some ==>
            v.rekey_terminal(workspace_id, old_terminal, new_terminal).read_note(workspace_id, new_terminal, path)
                == v.read_note(workspace_id, old_terminal, path),
        v.rekey_terminal(workspace_id, old_terminal, new_terminal).read_note(workspace_id, old_terminal, path).is_none(),
        !(other.0 == workspace_id && (other.1 == old_terminal || other.1 == new_terminal)) ==>
            v.rekey_terminal(workspace_id, old_terminal, new_terminal).read_note(other.0, other.1, other.2)
                == v.read_note(other.0, other.1, other.2),
{
}

/// Rekeying a terminal to itself keeps every note.
pub proof fn lemma_rekeyed_terminal_to_itself(v: EditorDbView, workspace_id: i64, terminal: u64)
    ensures
        v.rekey_terminal(workspace_id, terminal, terminal) == v,
{
}

/// Replacing a note leaves the new note where the old one was used in the
/// workspace, and the old one nowhere in it.
pub proof fn lemma_rekeyed_note(v: EditorDbView, workspace_id: i64, old_note: u64, new_note: u64, terminal: u64, path: Seq<char>)
    requires
        old_note != new_note,
    ensures
        v.read_note(workspace_id, terminal, path) == Some(old_note) ==>
            v.rekey_note(workspace_id, old_note, new_note).read_note(workspace_id, terminal, path) == Some(new_note),
        !v.rekey_note(workspace_id, old_note, new_note).note_ids(workspace_id).contains(old_note),
{
    let w = v.rekey_note(workspace_id, old_note, new_note);
    if w.note_ids(workspace_id).contains(old_note) {
        let k = choose|k: (i64, u64, Seq<char>)| #[trigger] w.planning_notes.contains_key(k) && k.0 == workspace_id
            && w.planning_notes[k] == old_note;
        assert(v.planning_notes.contains_key(k));
    }
}

/// Removing the notes of unloaded terminals keeps a note of the workspace
/// exactly when its terminal is alive, and keeps the notes of every other
/// workspace.
pub proof fn lemma_unloaded_notes_removed(v: EditorDbView, workspace_id: i64, alive: Seq<u64>, key: (i64, u64, Seq<char>))
    ensures
        key.0 == workspace_id ==> (v.delete_unloaded_notes(workspace_id, alive).read_note(key.0, key.1, key.2)
            == if alive.contains(key.1) { v.read_note(key.0, key.1, key.2) } else { None }),
        key.0 != workspace_id ==> v.delete_unloaded_notes(workspace_id, alive).read_note(key.0, key.1, key.2)
            == v.read_note(key.0, key.1, key.2),
{
}

/// The row bound for an editor holds its whole path twice: as the bytes, and
/// as the lossy text of all of them; an editor with no path has neither.
pub proof fn lemma_bound_row_holds_whole_path(e: SerializedEditorView)
    ensures
        bound_row(e).path == e.abs_path,
        e.abs_path is Some ==> bound_row(e).buffer_path == Some(utf8_lossy(e.abs_path->0)),
        e.abs_path is None ==> bound_row(e).buffer_path is None,
{
}

/// Deleting the folds of one file removes every fold of that file and keeps
/// every fold of every other file, with its value.
pub proof fn lemma_deleted_folds_keep_other_files(v: EditorDbView, workspace_id: i64, path: Seq<u8>, key: FoldKey)
    ensures
        key.0 == workspace_id && key.1 == path ==> !v.delete_folds(workspace_id, path).file_folds.contains_key(key),
        !(key.0 == workspace_id && key.1 == path) ==> (
            v.delete_folds(workspace_id, path).file_folds.contains_key(key) == v.file_folds.contains_key(key)
            && (v.file_folds.contains_key(key) ==> v.delete_folds(workspace_id, path).file_folds[key] == v.file_folds[key])),
{
}

/// Saving a note at one terminal and working directory leaves the note of
/// every other key (another directory of the same terminal among them) as it
/// was.
pub proof fn lemma_saved_note_keeps_others(v: EditorDbView, workspace_id: i64, terminal: u64, path: Seq<char>, note: u64, key: NoteKey)
    requires
        key != (workspace_id, terminal, path),
    ensures
        v.save_note(workspace_id, terminal, path, note).read_note(key.0, key.1, key.2) == v.read_note(key.0, key.1, key.2),
{
}

/// Deleting the note of one terminal and working directory leaves the note of
/// every other key as it was.
pub proof fn lemma_deleted_note_keeps_others(v: EditorDbView, workspace_id: i64, terminal: u64, path: Seq<char>, key: NoteKey)
    ensures
        v.delete_note(workspace_id, terminal, path).read_note(workspace_id, terminal, path) is None,
        key != (workspace_id, terminal, path) ==>
            v.delete_note(workspace_id, terminal, path).read_note(key.0, key.1, key.2) == v.read_note(key.0, key.1, key.2),
{
}

/// Replacing a note of a workspace changes no key's presence; a key that held
/// the old note in that workspace holds the new one, and every other key
/// keeps its note.
pub proof fn lemma_rekeyed_note_keeps_others(v: EditorDbView, workspace_id: i64, old_note: u64, new_note: u64, key: NoteKey)
    ensures
        v.rekey_note(workspace_id, old_note, new_note).read_note(key.0, key.1, key.2) is Some
            <==> v.read_note(key.0, key.1, key.2) is Some,
        key.0 == workspace_id && v.read_note(key.0, key.1, key.2) == Some(old_note) ==>
            v.rekey_note(workspace_id, old_note, new_note).read_note(key.0, key.1, key.2) == Some(new_note),
        v.read_note(key.0, key.1, key.2) is Some && (v.read_note(key.0, key.1, key.2)->0 != old_note || key.0 != workspace_id) ==>
            v.rekey_note(workspace_id, old_note, new_note).read_note(key.0, key.1, key.2) == v.read_note(key.0, key.1, key.2),
{
}

/// Once the folds of a file are deleted, the only listing of that file's
/// folds is the empty one.
pub proof fn lemma_deleted_folds_list_nothing(v: EditorDbView, workspace_id: i64, path: Seq<u8>, r: Seq<FoldListing>)
    requires
        v.delete_folds(workspace_id, path).lists_file_folds(workspace_id, path, r),
    ensures
        r.len() == 0,
{
    if r.len() > 0 {
        assert(v.delete_folds(workspace_id, path).file_folds.contains_key((workspace_id, path, r[0].0)));
    }
}

/// The notes of a workspace are those read at some terminal and working
/// directory of it; saving a note in another workspace does not change them,
/// and deleting the notes of every terminal of the workspace leaves none.
pub proof fn lemma_note_ids_of_workspace(v: EditorDbView, workspace_id: i64, note: u64, other_workspace: i64, terminal: u64, path: Seq<char>)
    ensures
        v.note_ids(workspace_id).contains(note) <==>
            exists|t: u64, p: Seq<char>| #[trigger] v.read_note(workspace_id, t, p) == Some(note),
        other_workspace != workspace_id ==>
            v.save_note(other_workspace, terminal, path, note).note_ids(workspace_id) == v.note_ids(workspace_id),
        v.delete_unloaded_notes(workspace_id, Seq::empty()).note_ids(workspace_id).is_empty(),
{
    if v.note_ids(workspace_id).contains(note) {
        let k = choose|k: NoteKey| #[trigger] v.planning_notes.contains_key(k) && k.0 == workspace_id
            && v.planning_notes[k] == note;
        assert(v.read_note(workspace_id, k.1, k.2) == Some(note));
    }
    if exists|t: u64, p: Seq<char>| #[trigger] v.read_note(workspace_id, t, p) == Some(note) {
        let (t, p) = choose|t: u64, p: Seq<char>| #[trigger] v.read_note(workspace_id, t, p) == Some(note);
        assert(v.planning_notes.contains_key((workspace_id, t, p)));
    }
    if other_workspace != workspace_id {
        let w = v.save_note(other_workspace, terminal, path, note);
        assert forall|n: u64| w.note_ids(workspace_id).contains(n) <==> v.note_ids(workspace_id).contains(n) by {
            if w.note_ids(workspace_id).contains(n) {
                let k = choose|k: NoteKey| #[trigger] w.planning_notes.contains_key(k) && k.0 == workspace_id
                    && w.planning_notes[k] == n;
                assert(v.planning_notes.contains_key(k));
            }
            if v.note_ids(workspace_id).contains(n) {
                let k = choose|k: NoteKey| #[trigger] v.planning_notes.contains_key(k) && k.0 == workspace_id
                    && v.planning_notes[k] == n;
                assert(w.planning_notes.contains_key(k));
            }
        }
        assert(w.note_ids(workspace_id) =~= v.note_ids(workspace_id));
    }
    let d = v.delete_unloaded_notes(workspace_id, Seq::empty());
    assert forall|n: u64| !d.note_ids(workspace_id).contains(n) by {
        if d.note_ids(workspace_id).contains(n) {
            let k = choose|k: NoteKey| #[trigger] d.planning_notes.contains_key(k) && k.0 == workspace_id
                && d.planning_notes[k] == n;
            assert(!Seq::<u64>::empty().contains(k.1));
        }
    }
    assert(d.note_ids(workspace_id) =~= Set::empty());
}

} // verus!
