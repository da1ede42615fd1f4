//! The persisted state of editors: the rows that the editor database keeps for
//! each editor, its selections, the folds of each file, and the planning notes
//! attached to terminals, together with the encodings and query texts that the
//! database layer uses for them.
pub mod ids;
pub mod mtime;
pub mod paths;
pub mod editor;
pub mod query;
pub mod db;
pub mod folds;
pub mod notes;
pub mod laws;
pub mod table;
pub mod seqs;
