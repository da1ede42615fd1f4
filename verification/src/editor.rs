//! The row that the editors table keeps for a serialized editor, and the
//! conversions between the two.
use vstd::prelude::*;
use crate::mtime::{MTime, MTimeView, NANOS_PER_SEC, mtime_view_valid, normalized_parts};
use crate::paths::{utf8_lossy, path_to_string_lossy, clone_bytes};

verus! {

/// What an editor persists about its buffer.
#[derive(Clone, Debug, PartialEq, Default)]
pub struct SerializedEditor {
    /// The bytes of the buffer's file path, if the buffer has a file.
    pub abs_path: Option<Vec<u8>>,
    /// The unsaved text of the buffer, if it is kept.
    pub contents: Option<String>,
    /// The name of the buffer's language.
    pub language: Option<String>,
    /// The modification time of the file when it was last read.
    pub mtime: Option<MTime>,
}

/// A serialized editor as plain values.
pub struct SerializedEditorView {
    pub abs_path: Option<Seq<u8>>,
    pub contents: Option<Seq<char>>,
    pub language: Option<Seq<char>>,
    pub mtime: Option<MTimeView>,
}

/// The six persisted columns of an editors row, in the order in which they are
/// bound and read: `path`, `buffer_path`, `contents`, `language`,
/// `mtime_seconds`, `mtime_nanos`.
#[derive(Clone, Debug, PartialEq)]
pub struct EditorRow {
    pub path: Option<Vec<u8>>,
    pub buffer_path: Option<String>,
    pub contents: Option<String>,
    pub language: Option<String>,
    pub mtime_seconds: Option<i64>,
    pub mtime_nanos: Option<i32>,
}

/// An editors row as plain values.
pub struct EditorRowView {
    pub path: Option<Seq<u8>>,
    pub buffer_path: Option<Seq<char>>,
    pub contents: Option<Seq<char>>,
    pub language: Option<Seq<char>>,
    pub mtime_seconds: Option<i64>,
    pub mtime_nanos: Option<i32>,
}

pub open spec fn bytes_opt_view(o: Option<Vec<u8>>) -> Option<Seq<u8>> {
    match o {
        Some(v) => Some(v@),
        None => None,
    }
}

pub open spec fn string_opt_view(o: Option<String>) -> Option<Seq<char>> {
    match o {
        Some(s) => Some(s@),
        None => None,
    }
}

impl View for SerializedEditor {
    type V = SerializedEditorView;

    open spec fn view(&self) -> SerializedEditorView {
        SerializedEditorView {
            abs_path: bytes_opt_view(self.abs_path),
            contents: string_opt_view(self.contents),
            language: string_opt_view(self.language),
            mtime: match self.mtime {
                Some(m) => Some(m@),
                None => None,
            },
        }
    }
}

impl View for EditorRow {
    type V = EditorRowView;

    open spec fn view(&self) -> EditorRowView {
        EditorRowView {
            path: bytes_opt_view(self.path),
            buffer_path: string_opt_view(self.buffer_path),
            contents: string_opt_view(self.contents),
            language: string_opt_view(self.language),
            mtime_seconds: self.mtime_seconds,
            mtime_nanos: self.mtime_nanos,
        }
    }
}

/// Whether a serialized editor holds only what an editor can hold: a
/// modification time, if any, is one that an `MTime` can hold.
pub open spec fn editor_view_valid(e: SerializedEditorView) -> bool {
    e.mtime matches Some(m) ==> mtime_view_valid(m)
}

/// The row that binding `e` writes: the path twice (as bytes, and as lossy text
/// in `buffer_path`), the contents, the language, and the modification time as
/// signed seconds and nanoseconds since the epoch; a time before the epoch is
/// stored as no time (both columns empty).
pub open spec fn bound_row(e: SerializedEditorView) -> EditorRowView {
    EditorRowView {
        path: e.abs_path,
        buffer_path: match e.abs_path {
            Some(p) => Some(utf8_lossy(p)),
            None => None,
        },
        contents: e.contents,
        language: e.language,
        mtime_seconds: match e.mtime {
            Some(m) => if m.before_epoch { None } else { Some(m.secs as i64) },
            None => None,
        },
        mtime_nanos: match e.mtime {
            Some(m) => if m.before_epoch { None } else { Some(m.nanos as i32) },
            None => None,
        },
    }
}

/// The unsigned value that a stored nanoseconds column is read as.
pub open spec fn nanos_as_unsigned(n: i32) -> int {
    if n >= 0 {
        n as int
    } else {
        n + 0x1_0000_0000
    }
}

/// Whether the stored modification time of a row can be read back into a
/// time: the seconds are not negative and, with the carried nanoseconds, fit
/// in an `i64`.
pub open spec fn row_mtime_loadable(r: EditorRowView) -> bool {
    match (r.mtime_seconds, r.mtime_nanos) {
        (Some(s), Some(n)) => s >= 0 && s + nanos_as_unsigned(n) / (NANOS_PER_SEC as int) <= i64::MAX,
        _ => true,
    }
}

/// The editor that reading a row gives: `buffer_path` is not read, and the
/// modification time is present only when both of its columns are.
pub open spec fn loaded_editor(r: EditorRowView) -> SerializedEditorView {
    SerializedEditorView {
        abs_path: r.path,
        contents: r.contents,
        language: r.language,
        mtime: match (r.mtime_seconds, r.mtime_nanos) {
            (Some(s), Some(n)) => {
                let p = normalized_parts(s as int, nanos_as_unsigned(n));
                Some(MTimeView { before_epoch: false, secs: p.0 as u64, nanos: p.1 as u32 })
            },
            _ => None,
        },
    }
}

fn clone_opt_bytes(o: &Option<Vec<u8>>) -> (r: Option<Vec<u8>>)
    ensures
        bytes_opt_view(r) == bytes_opt_view(*o),
{
    match o {
        Some(v) => Some(clone_bytes(v)),
        None => None,
    }
}

pub(crate) fn clone_opt_string(o: &Option<String>) -> (r: Option<String>)
    ensures
        r == *o,
{
    match o {
        Some(s) => Some(s.clone()),
        None => None,
    }
}

impl SerializedEditor {
    /// The number of columns that an editor is bound to and read from.
    pub fn column_count() -> (n: usize)
        ensures
            n == 6,
    {
        6
    }

    /// The row to store for this editor.
    pub fn bind(&self) -> (row: EditorRow)
        ensures
            row@ == bound_row(self@),
            editor_view_valid(self@),
    {
        let path = clone_opt_bytes(&self.abs_path);
        let buffer_path = match &self.abs_path {
            Some(p) => Some(path_to_string_lossy(p.as_slice())),
            None => None,
        };
        let persisted = match self.mtime {
            Some(m) => m.to_seconds_and_nanos_for_persistence(),
            None => None,
        };
        let (mtime_seconds, mtime_nanos) = match persisted {
            Some((seconds, nanos)) => (Some(seconds as i64), Some(nanos as i32)),
            None => (None, None),
        };
        EditorRow {
            path,
            buffer_path,
            contents: clone_opt_string(&self.contents),
            language: clone_opt_string(&self.language),
            mtime_seconds,
            mtime_nanos,
        }
    }

    /// The editor that a stored row holds.
    pub fn column(row: &EditorRow) -> (e: SerializedEditor)
        requires
            row_mtime_loadable(row@),
        ensures
            e@ == loaded_editor(row@),
    {
        let mtime = match (row.mtime_seconds, row.mtime_nanos) {
            (Some(seconds), Some(nanos)) => {
                let unsigned_nanos: u32 = nanos as u32;
                assert(nanos >= 0 ==> unsigned_nanos == nanos) by (bit_vector)
                    requires unsigned_nanos == nanos as u32;
                assert(nanos < 0 ==> unsigned_nanos == nanos + 0x1_0000_0000) by (bit_vector)
                    requires unsigned_nanos == nanos as u32;
                Some(MTime::from_seconds_and_nanos(seconds as u64, unsigned_nanos))
            },
            _ => None,
        };
        SerializedEditor {
            abs_path: clone_opt_bytes(&row.path),
            contents: clone_opt_string(&row.contents),
            language: clone_opt_string(&row.language),
            mtime,
        }
    }
}

/// What of an editor is kept by storing it: everything but a modification time
/// before the epoch, which is stored as no time.
pub open spec fn persisted_editor(e: SerializedEditorView) -> SerializedEditorView {
    SerializedEditorView {
        mtime: match e.mtime {
            Some(m) => if m.before_epoch { None } else { Some(m) },
            None => None,
        },
        ..e
    }
}

/// Storing a serialized editor and reading its row back gives the same editor,
/// except that a modification time before the epoch comes back as no time.
pub proof fn lemma_editor_row_round_trip(e: SerializedEditorView)
    requires
        editor_view_valid(e),
    ensures
        row_mtime_loadable(bound_row(e)),
        loaded_editor(bound_row(e)) == persisted_editor(e),
        (e.mtime matches Some(m) && !m.before_epoch) || e.mtime is None ==> loaded_editor(bound_row(e)) == e,
{
    match e.mtime {
        Some(m) => {
            if !m.before_epoch {
                let s: u64 = m.secs;
                let n: u32 = m.nanos;
                assert((n as i32) >= 0 && (n as i32) == n) by (bit_vector)
                    requires n < 1_000_000_000u32;
                assert((s as i64) == s);
                assert(normalized_parts(s as int, n as int) == (s as int, n as int));
            }
        },
        None => {},
    }
}

} // verus!
