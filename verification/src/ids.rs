use vstd::prelude::*;

verus! {

/// The identifier of an item (an editor, a terminal, a note) within a workspace.
pub type ItemId = u64;

/// The identifier of a workspace in the workspace database.
#[derive(Clone, Copy, Debug, PartialEq, Eq, Structural)]
pub struct WorkspaceId(pub i64);

} // verus!
