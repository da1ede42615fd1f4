use editor_persistence::editor::{EditorRow, SerializedEditor};
use editor_persistence::mtime::MTime;
use editor_persistence::query::{
    clear_selections_query, selection_chunk_sizes, selection_chunks, selection_placeholders, selections_query,
    unloaded_notes_query, MAX_HOST_PARAMETERS, MAX_QUERY_PLACEHOLDERS, SELECTIONS_PER_STATEMENT,
};

#[test]
fn nanoseconds_carry_into_seconds() {
    let m = MTime::from_seconds_and_nanos(1, 1_500_000_000);
    assert_eq!(m.to_seconds_and_nanos_for_persistence(), Some((2, 500_000_000)));
    let m = MTime::from_seconds_and_nanos(100, 42);
    assert_eq!(m.to_seconds_and_nanos_for_persistence(), Some((100, 42)));
}

#[test]
fn an_editor_binds_six_columns() {
    assert_eq!(SerializedEditor::column_count(), 6);
    let e = SerializedEditor {
        abs_path: Some(vec![b'a', 0xff, b'b']),
        contents: Some("text".to_owned()),
        language: Some("Rust".to_owned()),
        mtime: Some(MTime::from_seconds_and_nanos(7, 9)),
    };
    let row = e.bind();
    assert_eq!(
        row,
        EditorRow {
            path: Some(vec![b'a', 0xff, b'b']),
            buffer_path: Some("a\u{FFFD}b".to_owned()),
            contents: Some("text".to_owned()),
            language: Some("Rust".to_owned()),
            mtime_seconds: Some(7),
            mtime_nanos: Some(9),
        }
    );
    assert_eq!(SerializedEditor::column(&row), e);
}

#[test]
fn a_row_without_both_time_columns_has_no_time() {
    let row = EditorRow {
        path: None,
        buffer_path: Some("ignored".to_owned()),
        contents: None,
        language: None,
        mtime_seconds: Some(5),
        mtime_nanos: None,
    };
    assert_eq!(SerializedEditor::column(&row), SerializedEditor::default());
}

#[test]
fn negative_stored_nanoseconds_read_as_unsigned() {
    let row = EditorRow {
        path: None,
        buffer_path: None,
        contents: None,
        language: None,
        mtime_seconds: Some(10),
        mtime_nanos: Some(-1),
    };
    let e = SerializedEditor::column(&row);
    assert_eq!(e.mtime.unwrap().to_seconds_and_nanos_for_persistence(), Some((14, 294_967_295)));
}

#[test]
fn selection_batches_hold_at_most_a_quarter_of_the_placeholders() {
    assert_eq!(SELECTIONS_PER_STATEMENT, MAX_QUERY_PLACEHOLDERS / 4);
    assert_eq!(selection_chunk_sizes(0), Vec::<usize>::new());
    assert_eq!(selection_chunk_sizes(8000), vec![8000]);
    assert_eq!(selection_chunk_sizes(16001), vec![8000, 8000, 1]);
    let chunks = selection_chunks(8002);
    assert_eq!(chunks.len(), 2);
    assert_eq!(chunks[0].0, 8000);
    assert_eq!(chunks[1], (2, "(?1, ?2, ?, ?), (?1, ?2, ?, ?)".to_string()));
}

#[test]
fn selection_placeholders_are_comma_separated() {
    assert_eq!(selection_placeholders(0), "");
    assert_eq!(selection_placeholders(1), "(?1, ?2, ?, ?)");
    assert_eq!(selection_placeholders(3), "(?1, ?2, ?, ?), (?1, ?2, ?, ?), (?1, ?2, ?, ?)");
}

#[test]
fn selections_are_cleared_once_then_inserted_in_batches() {
    assert_eq!(
        clear_selections_query(),
        "DELETE FROM editor_selections WHERE editor_id = ?1 AND workspace_id = ?2"
    );
    assert_eq!(
        selections_query("(?1, ?2, ?, ?)"),
        "INSERT OR IGNORE INTO editor_selections (editor_id, workspace_id, start, end) VALUES (?1, ?2, ?, ?)"
    );
    assert!(2 + 2 * SELECTIONS_PER_STATEMENT <= MAX_HOST_PARAMETERS);
}

#[test]
fn times_before_the_epoch_are_not_persisted() {
    let m = MTime::before_epoch(3, 1_000_000_001);
    assert_eq!(m.to_seconds_and_nanos_for_persistence(), None);
    assert_eq!(MTime::before_epoch(0, 0), MTime::from_seconds_and_nanos(0, 0));
    assert_eq!(MTime::before_epoch(0, 0).to_seconds_and_nanos_for_persistence(), Some((0, 0)));
    let e = SerializedEditor { mtime: Some(m), ..Default::default() };
    let row = e.bind();
    assert_eq!(row.mtime_seconds, None);
    assert_eq!(row.mtime_nanos, None);
    assert_eq!(SerializedEditor::column(&row), SerializedEditor::default());
}

#[test]
fn unloaded_notes_query_lists_one_placeholder_per_alive_terminal() {
    assert_eq!(unloaded_notes_query(0), "DELETE FROM terminal_planning_notes WHERE workspace_id = ?1");
    assert_eq!(
        unloaded_notes_query(3),
        "DELETE FROM terminal_planning_notes WHERE workspace_id = ?1 AND terminal_item_id NOT IN (?, ?, ?)"
    );
}
