use editor_persistence::db::{EditorDb, StoreError};
use editor_persistence::editor::SerializedEditor;
use editor_persistence::ids::WorkspaceId;
use editor_persistence::mtime::MTime;
use editor_persistence::notes;

/// A database in which workspaces 1 to 8 are stored.
fn database() -> EditorDb {
    let mut db = EditorDb::new();
    for id in 1..=8 {
        db.insert_workspace(WorkspaceId(id));
    }
    db
}

fn folds(items: &[(usize, usize, &str, &str)]) -> Vec<(usize, usize, String, String)> {
    items
        .iter()
        .map(|(s, e, a, b)| (*s, *e, a.to_string(), b.to_string()))
        .collect()
}

fn stored(s: usize, e: usize, a: &str, b: &str) -> (usize, usize, Option<String>, Option<String>) {
    (s, e, Some(a.to_string()), Some(b.to_string()))
}

#[test]
fn test_save_and_get_serialized_editor() {
    let mut db = database();
    let workspace_id = WorkspaceId(1);

    let serialized_editor = SerializedEditor {
        abs_path: Some(b"testing.txt".to_vec()),
        contents: None,
        language: None,
        mtime: None,
    };
    assert_eq!(db.save_serialized_editor(1234, workspace_id, serialized_editor.clone()), Ok(()));
    let have = db.get_serialized_editor(1234, workspace_id).unwrap();
    assert_eq!(have, serialized_editor);

    // Now update contents and language
    let serialized_editor = SerializedEditor {
        abs_path: Some(b"testing.txt".to_vec()),
        contents: Some("Test".to_owned()),
        language: Some("Go".to_owned()),
        mtime: None,
    };
    assert_eq!(db.save_serialized_editor(1234, workspace_id, serialized_editor.clone()), Ok(()));
    let have = db.get_serialized_editor(1234, workspace_id).unwrap();
    assert_eq!(have, serialized_editor);

    // Now set all the fields to NULL
    let serialized_editor = SerializedEditor {
        abs_path: None,
        contents: None,
        language: None,
        mtime: None,
    };
    assert_eq!(db.save_serialized_editor(1234, workspace_id, serialized_editor.clone()), Ok(()));
    let have = db.get_serialized_editor(1234, workspace_id).unwrap();
    assert_eq!(have, serialized_editor);

    // Storing and retrieving mtime
    let serialized_editor = SerializedEditor {
        abs_path: None,
        contents: None,
        language: None,
        mtime: Some(MTime::from_seconds_and_nanos(100, 42)),
    };
    assert_eq!(db.save_serialized_editor(1234, workspace_id, serialized_editor.clone()), Ok(()));
    let have = db.get_serialized_editor(1234, workspace_id).unwrap();
    assert_eq!(have, serialized_editor);
}

#[test]
fn test_save_and_get_file_folds() {
    let mut db = database();
    let workspace_id = WorkspaceId(1);

    let file_path = b"/tmp/test_file_folds.rs".to_vec();

    // Save folds with fingerprints
    let saved = folds(&[
        (100, 200, "fn main() {", "} // end main"),
        (300, 400, "struct Foo {", "} // end Foo"),
    ]);
    assert_eq!(db.save_file_folds(workspace_id, file_path.clone(), saved), Ok(()));

    // Retrieve and verify fingerprints are preserved
    let retrieved = db.get_file_folds(workspace_id, &file_path);
    assert_eq!(retrieved.len(), 2);
    assert_eq!(retrieved[0], stored(100, 200, "fn main() {", "} // end main"));
    assert_eq!(retrieved[1], stored(300, 400, "struct Foo {", "} // end Foo"));

    // Test overwrite: saving new folds replaces old ones
    let new_folds = folds(&[(500, 600, "impl Bar {", "} // end impl")]);
    assert_eq!(db.save_file_folds(workspace_id, file_path.clone(), new_folds), Ok(()));
    let retrieved = db.get_file_folds(workspace_id, &file_path);
    assert_eq!(retrieved.len(), 1);
    assert_eq!(retrieved[0], stored(500, 600, "impl Bar {", "} // end impl"));

    // Test delete
    db.delete_file_folds(workspace_id, file_path.clone());
    let retrieved = db.get_file_folds(workspace_id, &file_path);
    assert!(retrieved.is_empty());

    // Test multiple files don't interfere
    let file_path_a = b"/tmp/file_a.rs".to_vec();
    let file_path_b = b"/tmp/file_b.rs".to_vec();
    let folds_a = folds(&[(10, 20, "a_start", "a_end")]);
    let folds_b = folds(&[(30, 40, "b_start", "b_end")]);
    assert_eq!(db.save_file_folds(workspace_id, file_path_a.clone(), folds_a), Ok(()));
    assert_eq!(db.save_file_folds(workspace_id, file_path_b.clone(), folds_b), Ok(()));

    let retrieved_a = db.get_file_folds(workspace_id, &file_path_a);
    let retrieved_b = db.get_file_folds(workspace_id, &file_path_b);
    assert_eq!(retrieved_a.len(), 1);
    assert_eq!(retrieved_b.len(), 1);
    assert_eq!(retrieved_a[0].0, 10); // file_a's fold
    assert_eq!(retrieved_b[0].0, 30); // file_b's fold
}

#[test]
fn test_terminal_planning_notes_round_trip_and_rekey() {
    let mut db = database();
    let workspace_id = WorkspaceId(1);
    let cwd = b"/tmp/project-a".to_vec();
    let cwd_text = String::from_utf8_lossy(&cwd).into_owned();

    assert_eq!(db.save_terminal_planning_note(workspace_id, 11, cwd.clone(), 101), Ok(()));
    assert_eq!(db.get_terminal_planning_note(workspace_id, 11, cwd_text.clone()), Some(101));
    assert_eq!(db.terminal_planning_note_item_ids(workspace_id), vec![101]);

    db.rekey_terminal_planning_note_terminal_item(workspace_id, 11, 22);
    assert_eq!(db.get_terminal_planning_note(workspace_id, 22, cwd_text.clone()), Some(101));
    assert_eq!(db.get_terminal_planning_note(workspace_id, 11, cwd_text.clone()), None);

    db.rekey_terminal_planning_note_item(workspace_id, 101, 202);
    assert_eq!(db.get_terminal_planning_note(workspace_id, 22, cwd_text.clone()), Some(202));
    assert_eq!(db.terminal_planning_note_item_ids(workspace_id), vec![202]);

    db.delete_terminal_planning_note(workspace_id, 22, cwd.clone());
    assert_eq!(db.get_terminal_planning_note(workspace_id, 22, cwd_text.clone()), None);
    assert!(db.terminal_planning_note_item_ids(workspace_id).is_empty());
}

#[test]
fn test_delete_unloaded_terminal_planning_notes() {
    let mut db = database();
    let workspace_id = WorkspaceId(1);

    assert_eq!(db.save_terminal_planning_note(workspace_id, 1, b"/tmp/a".to_vec(), 10), Ok(()));
    assert_eq!(db.save_terminal_planning_note(workspace_id, 2, b"/tmp/b".to_vec(), 20), Ok(()));

    assert_eq!(db.delete_unloaded_terminal_planning_notes(workspace_id, vec![2]), Ok(()));
    assert_eq!(db.terminal_planning_note_item_ids(workspace_id), vec![20]);

    assert_eq!(db.delete_unloaded_terminal_planning_notes(workspace_id, Vec::new()), Ok(()));
    assert!(db.terminal_planning_note_item_ids(workspace_id).is_empty());
}

#[test]
fn editors_of_other_items_and_workspaces_are_kept_apart() {
    let mut db = database();
    let a = SerializedEditor { contents: Some("a".to_owned()), ..Default::default() };
    let b = SerializedEditor { contents: Some("b".to_owned()), ..Default::default() };
    assert_eq!(db.save_serialized_editor(1, WorkspaceId(1), a.clone()), Ok(()));
    assert_eq!(db.save_serialized_editor(1, WorkspaceId(2), b.clone()), Ok(()));
    assert_eq!(db.get_serialized_editor(1, WorkspaceId(1)), Some(a));
    assert_eq!(db.get_serialized_editor(1, WorkspaceId(2)), Some(b));
    assert_eq!(db.get_serialized_editor(2, WorkspaceId(1)), None);
}

#[test]
fn file_folds_come_back_in_order_of_start() {
    let mut db = database();
    let ws = WorkspaceId(3);
    let path = b"/src/lib.rs".to_vec();
    let saved = folds(&[(50, 60, "c", "c'"), (5, 9, "a", "a'"), (20, 30, "b", "b'")]);
    assert_eq!(db.save_file_folds(ws, path.clone(), saved), Ok(()));
    let got = db.get_file_folds(ws, &path);
    assert_eq!(got, vec![stored(5, 9, "a", "a'"), stored(20, 30, "b", "b'"), stored(50, 60, "c", "c'")]);
}

#[test]
fn file_folds_with_a_repeated_start_stop_at_the_repeat() {
    let mut db = database();
    let ws = WorkspaceId(3);
    let path = b"/src/main.rs".to_vec();
    assert_eq!(db.save_file_folds(ws, path.clone(), folds(&[(1, 2, "old", "old")])), Ok(()));
    let saved = folds(&[(7, 8, "x", "x'"), (3, 4, "y", "y'"), (7, 9, "z", "z'"), (11, 12, "w", "w'")]);
    assert_eq!(db.save_file_folds(ws, path.clone(), saved), Err(StoreError::ConstraintViolation));
    let got = db.get_file_folds(ws, &path);
    assert_eq!(got, vec![stored(3, 4, "y", "y'"), stored(7, 8, "x", "x'")]);
}

#[test]
fn selections_round_trip_and_empty_save_keeps_them() {
    let mut db = database();
    let ws = WorkspaceId(4);
    assert_eq!(db.save_serialized_editor(9, ws, SerializedEditor::default()), Ok(()));
    assert_eq!(db.save_serialized_editor(10, ws, SerializedEditor::default()), Ok(()));
    assert_eq!(db.save_editor_selections(9, ws, vec![(1, 2), (5, 5), (3, 8)]), Ok(vec![3]));
    assert_eq!(db.get_editor_selections(9, ws), vec![(1, 2), (5, 5), (3, 8)]);
    assert_eq!(db.save_editor_selections(9, ws, vec![(4, 6)]), Ok(vec![1]));
    assert_eq!(db.get_editor_selections(9, ws), vec![(4, 6)]);
    assert_eq!(db.save_editor_selections(9, ws, Vec::new()), Ok(Vec::new()));
    assert_eq!(db.get_editor_selections(9, ws), vec![(4, 6)]);
    assert_eq!(db.save_editor_selections(10, ws, vec![(0, 1)]), Ok(vec![1]));
    assert_eq!(db.get_editor_selections(9, ws), vec![(4, 6)]);
    assert_eq!(db.get_editor_selections(10, ws), vec![(0, 1)]);
}

#[test]
fn selections_of_an_editor_that_is_not_stored_are_refused() {
    let mut db = database();
    let ws = WorkspaceId(4);
    assert_eq!(db.save_editor_selections(9, ws, vec![(1, 2)]), Err(StoreError::ForeignKeyViolation));
    assert_eq!(db.get_editor_selections(9, ws), Vec::<(usize, usize)>::new());
    assert_eq!(db.save_editor_selections(9, ws, Vec::new()), Ok(Vec::new()));
    assert_eq!(db.save_serialized_editor(9, WorkspaceId(5), SerializedEditor::default()), Ok(()));
    assert_eq!(db.save_editor_selections(9, ws, vec![(1, 2)]), Err(StoreError::ForeignKeyViolation));
}

#[test]
fn selections_beyond_one_batch_are_all_stored_in_order() {
    let mut db = database();
    let ws = WorkspaceId(4);
    assert_eq!(db.save_serialized_editor(9, ws, SerializedEditor::default()), Ok(()));
    let selections: Vec<(usize, usize)> = (0..8003).map(|i| (i, i + 1)).collect();
    assert_eq!(db.get_editor_folds(9, ws), Vec::new());
    assert_eq!(db.save_editor_selections(9, ws, selections), Ok(vec![8000, 3]));
    let expected: Vec<(usize, usize)> = (0..8003).map(|i| (i, i + 1)).collect();
    assert_eq!(db.get_editor_selections(9, ws), expected);
}

#[test]
fn rekeying_a_terminal_to_itself_keeps_its_notes() {
    let mut db = database();
    let ws = WorkspaceId(5);
    assert_eq!(db.save_terminal_planning_note(ws, 7, b"/w".to_vec(), 70), Ok(()));
    db.rekey_terminal_planning_note_terminal_item(ws, 7, 7);
    assert_eq!(db.get_terminal_planning_note(ws, 7, "/w".to_string()), Some(70));
}

#[test]
fn rekeying_a_terminal_replaces_the_note_already_there() {
    let mut db = database();
    let ws = WorkspaceId(5);
    assert_eq!(db.save_terminal_planning_note(ws, 1, b"/w".to_vec(), 10), Ok(()));
    assert_eq!(db.save_terminal_planning_note(ws, 2, b"/w".to_vec(), 20), Ok(()));
    assert_eq!(db.save_terminal_planning_note(ws, 2, b"/v".to_vec(), 21), Ok(()));
    db.rekey_terminal_planning_note_terminal_item(ws, 1, 2);
    assert_eq!(db.get_terminal_planning_note(ws, 2, "/w".to_string()), Some(10));
    assert_eq!(db.get_terminal_planning_note(ws, 2, "/v".to_string()), Some(21));
    assert_eq!(db.get_terminal_planning_note(ws, 1, "/w".to_string()), None);
}

#[test]
fn note_ids_are_listed_once_per_workspace() {
    let mut db = database();
    assert_eq!(db.save_terminal_planning_note(WorkspaceId(1), 1, b"/a".to_vec(), 5), Ok(()));
    assert_eq!(db.save_terminal_planning_note(WorkspaceId(1), 2, b"/b".to_vec(), 5), Ok(()));
    assert_eq!(db.save_terminal_planning_note(WorkspaceId(2), 3, b"/c".to_vec(), 6), Ok(()));
    assert_eq!(db.terminal_planning_note_item_ids(WorkspaceId(1)), vec![5]);
    assert_eq!(db.terminal_planning_note_item_ids(WorkspaceId(2)), vec![6]);
    assert_eq!(db.delete_unloaded_terminal_planning_notes(WorkspaceId(1), Vec::new()), Ok(()));
    assert_eq!(db.terminal_planning_note_item_ids(WorkspaceId(2)), vec![6]);
}

#[test]
fn notes_are_keyed_by_the_lossy_text_of_the_path() {
    let mut db = database();
    let ws = WorkspaceId(6);
    assert_eq!(db.save_terminal_planning_note(ws, 1, vec![b'/', 0xff, b'x'], 3), Ok(()));
    assert_eq!(db.get_terminal_planning_note(ws, 1, "/\u{FFFD}x".to_string()), Some(3));
    assert_eq!(
        notes::get_terminal_planning_note(&db, ws, 1, &[b'/', 0xfe, b'x']),
        Some(3)
    );
}

#[test]
fn free_functions_act_on_the_given_database() {
    let mut db = database();
    let ws = WorkspaceId(8);
    assert_eq!(notes::save_terminal_planning_note(&mut db, ws, 1, b"/p".to_vec(), 100), Ok(()));
    notes::rekey_terminal_planning_note_terminal_item(&mut db, ws, 1, 2);
    notes::rekey_terminal_planning_note_item(&mut db, ws, 100, 200);
    assert_eq!(notes::get_terminal_planning_note(&db, ws, 2, b"/p"), Some(200));
    assert_eq!(notes::delete_unloaded_terminal_planning_notes(&mut db, ws, vec![2]), Ok(()));
    assert_eq!(notes::get_terminal_planning_note(&db, ws, 2, b"/p"), Some(200));
    notes::delete_terminal_planning_note(&mut db, ws, 2, b"/p".to_vec());
    assert_eq!(notes::get_terminal_planning_note(&db, ws, 2, b"/p"), None);
}

#[test]
fn rows_of_a_workspace_that_is_not_stored_are_refused() {
    let mut db = EditorDb::new();
    let ws = WorkspaceId(42);
    assert_eq!(db.save_serialized_editor(1, ws, SerializedEditor::default()), Err(StoreError::ForeignKeyViolation));
    assert_eq!(db.get_serialized_editor(1, ws), None);
    assert_eq!(db.save_terminal_planning_note(ws, 1, b"/w".to_vec(), 5), Err(StoreError::ForeignKeyViolation));
    assert_eq!(db.get_terminal_planning_note(ws, 1, "/w".to_string()), None);
    assert_eq!(
        db.save_file_folds(ws, b"/f".to_vec(), folds(&[(1, 2, "a", "b")])),
        Err(StoreError::ForeignKeyViolation)
    );
    assert_eq!(db.save_file_folds(ws, b"/f".to_vec(), Vec::new()), Ok(()));
    db.insert_workspace(ws);
    assert!(db.has_workspace(ws));
    assert_eq!(db.save_serialized_editor(1, ws, SerializedEditor::default()), Ok(()));
    assert_eq!(db.get_serialized_editor(1, ws), Some(SerializedEditor::default()));
}

#[test]
fn too_many_alive_terminals_remove_nothing() {
    let mut db = database();
    let ws = WorkspaceId(2);
    assert_eq!(db.save_terminal_planning_note(ws, 1, b"/a".to_vec(), 10), Ok(()));
    let alive: Vec<u64> = (100..100 + 32766).collect();
    assert_eq!(db.delete_unloaded_terminal_planning_notes(ws, alive), Err(StoreError::TooManyParameters));
    assert_eq!(db.terminal_planning_note_item_ids(ws), vec![10]);
    let alive: Vec<u64> = (100..100 + 32765).collect();
    assert_eq!(db.delete_unloaded_terminal_planning_notes(ws, alive), Ok(()));
    assert!(db.terminal_planning_note_item_ids(ws).is_empty());
}

#[test]
fn an_editor_whose_time_lies_before_the_epoch_comes_back_without_a_time() {
    let mut db = database();
    let ws = WorkspaceId(3);
    let e = SerializedEditor {
        abs_path: Some(b"old.txt".to_vec()),
        contents: Some("x".to_owned()),
        language: None,
        mtime: Some(MTime::before_epoch(5, 7)),
    };
    assert_eq!(db.save_serialized_editor(1, ws, e.clone()), Ok(()));
    assert_eq!(db.get_serialized_editor(1, ws), Some(SerializedEditor { mtime: None, ..e }));
}
