//! The texts of the statements that the editor database builds at run time:
//! the batched insert of selections, and the removal of planning notes of
//! terminals that are no longer open.
use vstd::prelude::*;

verus! {

/// The most parameters that one statement may hold.
pub const MAX_QUERY_PLACEHOLDERS: usize = 32000;

/// Selections stored by one statement: each takes four parameters, so this is
/// a quarter of `MAX_QUERY_PLACEHOLDERS`.
pub const SELECTIONS_PER_STATEMENT: usize = 8000;

/// The highest parameter number that a statement may use: SQLite's default
/// `SQLITE_MAX_VARIABLE_NUMBER`. A statement with more parameters fails.
pub const MAX_HOST_PARAMETERS: usize = 32766;

/// A batch of selections fills a statement's parameters.
pub proof fn lemma_batch_fills_statement()
    ensures
        SELECTIONS_PER_STATEMENT * 4 == MAX_QUERY_PLACEHOLDERS,
{
}

/// `parts` with `sep` between each two consecutive parts.
pub open spec fn seq_join(parts: Seq<Seq<char>>, sep: Seq<char>) -> Seq<char>
    decreases parts.len(),
{
    if parts.len() == 0 {
        seq![]
    } else if parts.len() == 1 {
        parts[0]
    } else {
        seq_join(parts.drop_last(), sep) + sep + parts.last()
    }
}

/// The text of each string.
pub open spec fn texts(parts: Seq<String>) -> Seq<Seq<char>> {
    parts.map_values(|s: String| s@)
}

/// Joins the parts with `itertools::join`.
///
/// Trusted: the result is the parts' texts with `sep` between each two
/// consecutive parts, and empty for no parts, as `Itertools::join` in
/// itertools 0.15.0 writes them.
#[verifier::external_body]
fn join_with(parts: &Vec<String>, sep: &str) -> (r: String)
    ensures
        r@ == seq_join(texts(parts@), sep@),
{
    itertools::join(parts.iter(), sep)
}

/// The sizes of the batches that `n` items are split into, at most `size`
/// each, in order; every batch is full but the last.
pub open spec fn chunk_sizes(n: nat, size: nat) -> Seq<nat>
    decreases n,
{
    if n == 0 || size == 0 {
        seq![]
    } else if n <= size {
        seq![n]
    } else {
        seq![size] + chunk_sizes((n - size) as nat, size)
    }
}

/// The sum of a sequence of sizes.
pub open spec fn total(sizes: Seq<nat>) -> nat
    decreases sizes.len(),
{
    if sizes.len() == 0 {
        0
    } else {
        sizes[0] + total(sizes.drop_first())
    }
}

/// The batches add up to all the items, and none is empty or over the size.
pub proof fn lemma_chunk_sizes_cover(n: nat, size: nat)
    requires
        size > 0,
    ensures
        total(chunk_sizes(n, size)) == n,
        forall|i: int| 0 <= i < chunk_sizes(n, size).len() ==> 0 < #[trigger] chunk_sizes(n, size)[i] <= size,
        chunk_sizes(n, size).len() == (n + size - 1) / (size as int),
    decreases n,
{
    if n == 0 {
        assert((size - 1) / (size as int) == 0) by (nonlinear_arith)
            requires size > 0;
    } else if n <= size {
        assert((n + size - 1) / (size as int) == 1) by (nonlinear_arith)
            requires 0 < n <= size;
        reveal_with_fuel(total, 2);
    } else {
        lemma_chunk_sizes_cover((n - size) as nat, size);
        let rest = chunk_sizes((n - size) as nat, size);
        assert((seq![size] + rest).drop_first() =~= rest);
        assert((n + size - 1) / (size as int) == ((n - size) + size - 1) / (size as int) + 1) by (nonlinear_arith)
            requires n > size, size > 0;
    }
}

/// The sizes of the batches in which `len` selections are stored.
pub fn selection_chunk_sizes(len: usize) -> (r: Vec<usize>)
    ensures
        r@.map_values(|c: usize| c as nat) == chunk_sizes(len as nat, SELECTIONS_PER_STATEMENT as nat),
{
    let mut r: Vec<usize> = Vec::new();
    let mut remaining: usize = len;
    while remaining > 0
        invariant
            r@.map_values(|c: usize| c as nat) + chunk_sizes(remaining as nat, SELECTIONS_PER_STATEMENT as nat)
                == chunk_sizes(len as nat, SELECTIONS_PER_STATEMENT as nat),
        decreases remaining,
    {
        let ghost before = r@;
        if remaining <= SELECTIONS_PER_STATEMENT {
            r.push(remaining);
            remaining = 0;
        } else {
            r.push(SELECTIONS_PER_STATEMENT);
            remaining = remaining - SELECTIONS_PER_STATEMENT;
        }
        assert(r@.map_values(|c: usize| c as nat) =~= before.map_values(|c: usize| c as nat).push(r@.last() as nat));
    }
    assert(r@.map_values(|c: usize| c as nat) + chunk_sizes(0, SELECTIONS_PER_STATEMENT as nat)
        =~= r@.map_values(|c: usize| c as nat));
    r
}

/// The placeholders of one selection: the editor, the workspace, the start and
/// the end.
pub open spec fn selection_placeholder() -> Seq<char> {
    "(?1, ?2, ?, ?)"@
}

/// `count` copies of `item`, separated by a comma and a space.
pub open spec fn repeated_list(item: Seq<char>, count: nat) -> Seq<char> {
    seq_join(Seq::new(count, |i: int| item), ", "@)
}

fn repeated(item: &str, count: usize) -> (r: Vec<String>)
    ensures
        texts(r@) == Seq::new(count as nat, |i: int| item@),
{
    let mut r: Vec<String> = Vec::new();
    let mut i: usize = 0;
    while i < count
        invariant
            i <= count,
            r@.len() == i,
            forall|j: int| 0 <= j < i ==> #[trigger] r@[j]@ == item@,
        decreases count - i,
    {
        r.push(item.to_owned());
        i = i + 1;
    }
    assert(texts(r@) =~= Seq::new(count as nat, |i: int| item@));
    r
}

/// The placeholder list of a batch of `count` selections.
pub fn selection_placeholders(count: usize) -> (r: String)
    ensures
        r@ == repeated_list(selection_placeholder(), count as nat),
{
    let items = repeated("(?1, ?2, ?, ?)", count);
    join_with(&items, ", ")
}

/// For each batch of `len` selections, its size and its placeholder list.
pub fn selection_chunks(len: usize) -> (r: Vec<(usize, String)>)
    ensures
        r@.len() == chunk_sizes(len as nat, SELECTIONS_PER_STATEMENT as nat).len(),
        forall|i: int| 0 <= i < r@.len() ==> {
            &&& #[trigger] r@[i].0 == chunk_sizes(len as nat, SELECTIONS_PER_STATEMENT as nat)[i]
            &&& r@[i].1@ == repeated_list(selection_placeholder(), r@[i].0 as nat)
        },
{
    let sizes = selection_chunk_sizes(len);
    let ghost spec_sizes = chunk_sizes(len as nat, SELECTIONS_PER_STATEMENT as nat);
    assert(sizes@.len() == spec_sizes.len()) by {
        assert(sizes@.map_values(|c: usize| c as nat).len() == sizes@.len());
    }
    let mut r: Vec<(usize, String)> = Vec::new();
    let mut i: usize = 0;
    while i < sizes.len()
        invariant
            i <= sizes@.len(),
            sizes@.len() == spec_sizes.len(),
            sizes@.map_values(|c: usize| c as nat) == spec_sizes,
            r@.len() == i,
            forall|j: int| 0 <= j < i ==> {
                &&& #[trigger] r@[j].0 == spec_sizes[j]
                &&& r@[j].1@ == repeated_list(selection_placeholder(), r@[j].0 as nat)
            },
        decreases sizes@.len() - i,
    {
        let count = sizes[i];
        assert(sizes@.map_values(|c: usize| c as nat)[i as int] == count as nat);
        r.push((count, selection_placeholders(count)));
        i = i + 1;
    }
    r
}

/// The statement that removes the stored selections of an editor before its
/// batches are inserted.
pub open spec fn clear_selections_query_text() -> Seq<char> {
    "DELETE FROM editor_selections WHERE editor_id = ?1 AND workspace_id = ?2"@
}

/// The statement that removes the stored selections of an editor.
pub fn clear_selections_query() -> (q: String)
    ensures
        q@ == clear_selections_query_text(),
{
    "DELETE FROM editor_selections WHERE editor_id = ?1 AND workspace_id = ?2".to_owned()
}

/// The statement that inserts one batch of selections.
pub open spec fn selections_query_text(placeholders: Seq<char>) -> Seq<char> {
    "INSERT OR IGNORE INTO editor_selections (editor_id, workspace_id, start, end) VALUES "@
        + placeholders
}

/// The statement that inserts the batch with the given placeholder list.
pub fn selections_query(placeholders: &str) -> (q: String)
    ensures
        q@ == selections_query_text(placeholders@),
{
    let mut q = "INSERT OR IGNORE INTO editor_selections (editor_id, workspace_id, start, end) VALUES ".to_owned();
    q.append(placeholders);
    q
}

/// The highest parameter number of the statement that inserts `count`
/// selections: the editor and the workspace, then a start and an end for each.
pub open spec fn selection_statement_parameters(count: nat) -> nat {
    2 + 2 * count
}

/// The highest parameter number of the statement that removes the notes of
/// terminals other than `alive_count` given ones: the workspace, then each
/// terminal.
pub open spec fn unloaded_notes_statement_parameters(alive_count: nat) -> nat {
    1 + alive_count
}

/// Every batch of selections stays within the parameter limit.
pub proof fn lemma_selection_batches_fit(n: nat)
    ensures
        forall|i: int| 0 <= i < chunk_sizes(n, SELECTIONS_PER_STATEMENT as nat).len() ==>
            selection_statement_parameters(#[trigger] chunk_sizes(n, SELECTIONS_PER_STATEMENT as nat)[i])
                <= MAX_HOST_PARAMETERS,
{
    lemma_chunk_sizes_cover(n, SELECTIONS_PER_STATEMENT as nat);
}

/// The statement that removes the planning notes of a workspace whose
/// terminals are not among `alive_count` given ones: with none given, every
/// note of the workspace.
pub open spec fn unloaded_notes_query_text(alive_count: nat) -> Seq<char> {
    if alive_count == 0 {
        "DELETE FROM terminal_planning_notes WHERE workspace_id = ?1"@
    } else {
        "DELETE FROM terminal_planning_notes WHERE workspace_id = ?1 AND terminal_item_id NOT IN ("@
            + repeated_list("?"@, alive_count) + ")"@
    }
}

/// The statement that removes the planning notes of terminals other than
/// `alive_count` given ones.
pub fn unloaded_notes_query(alive_count: usize) -> (q: String)
    ensures
        q@ == unloaded_notes_query_text(alive_count as nat),
{
    let placeholders = join_with(&repeated("?", alive_count), ", ");
    if alive_count == 0 {
        "DELETE FROM terminal_planning_notes WHERE workspace_id = ?1".to_owned()
    } else {
        let mut q = "DELETE FROM terminal_planning_notes WHERE workspace_id = ?1 AND terminal_item_id NOT IN (".to_owned();
        q.append(placeholders.as_str());
        q.append(")");
        q
    }
}

} // verus!
