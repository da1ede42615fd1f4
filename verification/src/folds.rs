//! The folds of each file, kept by workspace, path and start so that they
//! outlive the editors that made them.
use vstd::prelude::*;
use crate::ids::WorkspaceId;
use crate::db::{EditorDb, EditorDbView, FoldKey, FoldValue, FileFoldEntry, fold_entries, StoreError, EditorFoldRow,
    editor_fold_rows};
use crate::ids::ItemId;
use crate::editor::{string_opt_view, clone_opt_string};
use crate::paths::{bytes_equal, clone_bytes};
use crate::table::{keys_distinct, has_key, entries_map, retained, without_keys, lemma_entries_map_index,
    lemma_entries_map_push, lemma_entries_map_key, lemma_retained_start, lemma_retained_end,
    lemma_retained_remove, lemma_retained_keep};

verus! {

/// A fold to store: start, end, and the text at its start and at its end.
pub type FoldInput = (usize, usize, Seq<char>, Seq<char>);

/// A stored fold as read back: start, end and the two fingerprints.
pub type FoldListing = (usize, usize, Option<Seq<char>>, Option<Seq<char>>);

/// Whether a file folds key belongs to the given file.
pub open spec fn is_file_key(workspace_id: i64, path: Seq<u8>) -> spec_fn(FoldKey) -> bool {
    |k: FoldKey| k.0 == workspace_id && k.1 == path
}

/// The folds to store as plain values.
pub open spec fn fold_inputs(folds: Seq<(usize, usize, String, String)>) -> Seq<FoldInput> {
    folds.map_values(|f: (usize, usize, String, String)| (f.0, f.1, f.2@, f.3@))
}

/// Stored folds as plain values.
pub open spec fn fold_listings(folds: Seq<(usize, usize, Option<String>, Option<String>)>) -> Seq<FoldListing> {
    folds.map_values(|f: (usize, usize, Option<String>, Option<String>)| (f.0, f.1, string_opt_view(f.2), string_opt_view(f.3)))
}

/// `m` with the folds of `f` inserted in order, each keyed by its start.
pub open spec fn with_folds(m: Map<FoldKey, FoldValue>, workspace_id: i64, path: Seq<u8>, f: Seq<FoldInput>) -> Map<FoldKey, FoldValue>
    decreases f.len(),
{
    if f.len() == 0 {
        m
    } else {
        with_folds(m, workspace_id, path, f.drop_last()).insert(
            (workspace_id, path, f.last().0),
            (f.last().1, Some(f.last().2), Some(f.last().3)),
        )
    }
}

/// No two folds of `f` share a start.
pub open spec fn starts_distinct(f: Seq<FoldInput>) -> bool {
    forall|a: int, b: int| 0 <= a < b < f.len() ==> #[trigger] f[a].0 != #[trigger] f[b].0
}

/// The fold at index `d` is the first whose start repeats that of an earlier
/// fold.
pub open spec fn first_repeat(f: Seq<FoldInput>, d: int) -> bool {
    &&& 0 <= d < f.len()
    &&& starts_distinct(f.take(d))
    &&& !starts_distinct(f.take(d + 1))
}

/// Whether an editor folds row belongs to the given editor.
pub open spec fn is_editor_fold(editor_id: u64, workspace_id: i64) -> spec_fn(EditorFoldRow) -> bool {
    |r: EditorFoldRow| r.0 == editor_id && r.1 == workspace_id
}

impl EditorDbView {
    /// The stored folds of an editor, in the order of their rows.
    pub open spec fn read_editor_folds(self, editor_id: u64, workspace_id: i64) -> Seq<FoldListing> {
        self.editor_folds.filter(is_editor_fold(editor_id, workspace_id)).map_values(
            |r: EditorFoldRow| (r.2, r.3, r.4, r.5),
        )
    }

    /// The database without the folds of the given file.
    pub open spec fn delete_folds(self, workspace_id: i64, path: Seq<u8>) -> Self {
        EditorDbView { file_folds: without_keys(self.file_folds, is_file_key(workspace_id, path)), ..self }
    }

    /// The database with the folds of the given file replaced by `f`.
    pub open spec fn save_folds(self, workspace_id: i64, path: Seq<u8>, f: Seq<FoldInput>) -> Self {
        EditorDbView {
            file_folds: with_folds(
                without_keys(self.file_folds, is_file_key(workspace_id, path)),
                workspace_id,
                path,
                f,
            ),
            ..self
        }
    }

    /// Whether `r` lists the folds stored for the given file: each stored fold
    /// once, in increasing order of start.
    pub open spec fn lists_file_folds(self, workspace_id: i64, path: Seq<u8>, r: Seq<FoldListing>) -> bool {
        &&& forall|a: int, b: int| 0 <= a < b < r.len() ==> #[trigger] r[a].0 < #[trigger] r[b].0
        &&& forall|a: int| 0 <= a < r.len() ==> {
            &&& self.file_folds.contains_key((workspace_id, path, #[trigger] r[a].0))
            &&& self.file_folds[(workspace_id, path, r[a].0)] == (r[a].1, r[a].2, r[a].3)
        }
        &&& forall|start: usize| #[trigger] self.file_folds.contains_key((workspace_id, path, start))
            ==> exists|a: int| 0 <= a < r.len() && r[a].0 == start
    }
}

/// Inserting folds of one file leaves the keys of other files as they were,
/// and holds a key of the file exactly when some inserted fold has its start.
pub proof fn lemma_with_folds_keys(m: Map<FoldKey, FoldValue>, workspace_id: i64, path: Seq<u8>, f: Seq<FoldInput>, k: FoldKey)
    ensures
        !is_file_key(workspace_id, path)(k) ==> (with_folds(m, workspace_id, path, f).contains_key(k) == m.contains_key(k)
            && (m.contains_key(k) ==> with_folds(m, workspace_id, path, f)[k] == m[k])),
        (is_file_key(workspace_id, path)(k) && !m.contains_key(k)) ==> (with_folds(m, workspace_id, path, f).contains_key(k)
            <==> exists|i: int| 0 <= i < f.len() && #[trigger] f[i].0 == k.2),
    decreases f.len(),
{
    if f.len() > 0 {
        lemma_with_folds_keys(m, workspace_id, path, f.drop_last(), k);
        if is_file_key(workspace_id, path)(k) && !m.contains_key(k) {
            if with_folds(m, workspace_id, path, f.drop_last()).contains_key(k) {
                let i = choose|i: int| 0 <= i < f.drop_last().len() && #[trigger] f.drop_last()[i].0 == k.2;
                assert(f[i].0 == k.2);
            }
            if exists|i: int| 0 <= i < f.len() && #[trigger] f[i].0 == k.2 {
                let i = choose|i: int| 0 <= i < f.len() && #[trigger] f[i].0 == k.2;
                if i < f.len() - 1 {
                    assert(f.drop_last()[i].0 == k.2);
                }
            }
        }
    }
}

impl EditorDb {
    /// Removes the stored folds of a file.
    fn remove_file_folds(&mut self, workspace_id: i64, path: &[u8])
        requires
            old(self).wf(),
        ensures
            final(self).wf(),
            final(self)@ == old(self)@.delete_folds(workspace_id, path@),
    {
        proof {
            self.lemma_unfold();
            lemma_retained_start(fold_entries(self.file_folds@), is_file_key(workspace_id, path@));
        }
        let ghost m0 = self@.file_folds;
        let ghost drop = is_file_key(workspace_id, path@);
        let mut i: usize = 0;
        while i < self.file_folds.len()
            invariant
                i <= self.file_folds@.len(),
                keys_distinct(fold_entries(self.file_folds@)),
                entries_map(fold_entries(self.file_folds@)) == retained(m0, drop, fold_entries(self.file_folds@).skip(i as int)),
                drop == is_file_key(workspace_id, path@),
                self.editors == old(self).editors,
                self.editor_folds == old(self).editor_folds,
                self.workspaces == old(self).workspaces,
                self.selections == old(self).selections,
                self.planning_notes == old(self).planning_notes,
            decreases self.file_folds@.len() - i,
        {
            let in_file = self.file_folds[i].workspace_id == workspace_id
                && bytes_equal(self.file_folds[i].path.as_slice(), path);
            if in_file {
                let ghost before = self.file_folds@;
                proof {
                    lemma_retained_remove(fold_entries(before), i as int, m0, drop);
                }
                self.file_folds.remove(i);
                assert(fold_entries(self.file_folds@) =~= fold_entries(before).remove(i as int));
            } else {
                proof {
                    lemma_retained_keep(fold_entries(self.file_folds@), i as int, m0, drop);
                }
                i = i + 1;
            }
        }
        proof {
            lemma_retained_end(fold_entries(self.file_folds@), m0, drop);
            self.lemma_unfold();
            old(self).lemma_unfold();
        }
    }

    /// Removes the stored folds of a file.
    pub fn delete_file_folds(&mut self, workspace_id: WorkspaceId, path: Vec<u8>)
        requires
            old(self).wf(),
        ensures
            final(self).wf(),
            final(self)@ == old(self)@.delete_folds(workspace_id.0, path@),
    {
        self.remove_file_folds(workspace_id.0, path.as_slice());
    }

    fn has_fold(&self, workspace_id: i64, path: &[u8], start: usize) -> (r: bool)
        requires
            self.wf(),
        ensures
            r == self@.file_folds.contains_key((workspace_id, path@, start)),
    {
        proof {
            self.lemma_unfold();
        }
        let mut i: usize = 0;
        while i < self.file_folds.len()
            invariant
                i <= self.file_folds@.len(),
                keys_distinct(fold_entries(self.file_folds@)),
                self@.file_folds == entries_map(fold_entries(self.file_folds@)),
                forall|j: int| 0 <= j < i ==> #[trigger] fold_entries(self.file_folds@)[j].0 != (workspace_id, path@, start),
            decreases self.file_folds@.len() - i,
        {
            let e = &self.file_folds[i];
            if e.workspace_id == workspace_id && e.start == start && bytes_equal(e.path.as_slice(), path) {
                proof {
                    lemma_entries_map_index(fold_entries(self.file_folds@), i as int);
                }
                return true;
            }
            i = i + 1;
        }
        proof {
            crate::table::lemma_entries_map_absent(fold_entries(self.file_folds@), (workspace_id, path@, start));
        }
        false
    }

    /// Replaces the stored folds of a file by `folds`, inserted one by one in
    /// order. A fold whose start repeats that of an earlier one cannot be
    /// stored: the insertion stops there with `ConstraintViolation`, keeping
    /// the folds inserted before it. Folds of a workspace that is not stored
    /// cannot be inserted: the first insertion fails with
    /// `ForeignKeyViolation` and nothing changes.
    pub fn save_file_folds(&mut self, workspace_id: WorkspaceId, path: Vec<u8>, folds: Vec<(usize, usize, String, String)>) -> (r: Result<(), StoreError>)
        requires
            old(self).wf(),
        ensures
            final(self).wf(),
            r == Err::<(), StoreError>(StoreError::ForeignKeyViolation)
                <==> folds@.len() > 0 && !old(self)@.workspaces.contains(workspace_id.0),
            r is Ok <==> starts_distinct(fold_inputs(folds@))
                && (folds@.len() == 0 || old(self)@.workspaces.contains(workspace_id.0)),
            match r {
                Ok(()) => final(self)@ == old(self)@.save_folds(workspace_id.0, path@, fold_inputs(folds@)),
                Err(StoreError::ForeignKeyViolation) => final(self)@ == old(self)@,
                Err(e) => e == StoreError::ConstraintViolation && exists|d: int| first_repeat(fold_inputs(folds@), d)
                    && final(self)@ == old(self)@.save_folds(workspace_id.0, path@, fold_inputs(folds@).take(d)),
            },
    {
        let ws = workspace_id.0;
        let ghost fv = fold_inputs(folds@);
        if folds.len() > 0 && !self.has_workspace(workspace_id) {
            return Err(StoreError::ForeignKeyViolation);
        }
        self.remove_file_folds(ws, path.as_slice());
        let ghost base = self@.file_folds;
        proof {
            assert(fv.take(0) =~= Seq::<FoldInput>::empty());
        }
        let mut j: usize = 0;
        while j < folds.len()
            invariant
                j <= folds@.len(),
                fv == fold_inputs(folds@),
                ws == workspace_id.0,
                self.wf(),
                base == without_keys(old(self)@.file_folds, is_file_key(ws, path@)),
                self@.file_folds == with_folds(base, ws, path@, fv.take(j as int)),
                self@.editors == old(self)@.editors,
                self@.editor_folds == old(self)@.editor_folds,
                self@.workspaces == old(self)@.workspaces,
                self@.selections == old(self)@.selections,
                self@.planning_notes == old(self)@.planning_notes,
                starts_distinct(fv.take(j as int)),
                folds@.len() > 0 ==> self@.workspaces.contains(ws),
            decreases folds@.len() - j,
        {
            let (start, end, start_fp, end_fp) = (folds[j].0, folds[j].1, folds[j].2.clone(), folds[j].3.clone());
            let found = self.has_fold(ws, path.as_slice(), start);
            proof {
                lemma_with_folds_keys(base, ws, path@, fv.take(j as int), (ws, path@, start));
                assert(fv[j as int].0 == start);
                assert(fv.take(j as int + 1).drop_last() =~= fv.take(j as int));
            }
            if found {
                proof {
                    let i = choose|i: int| 0 <= i < fv.take(j as int).len() && #[trigger] fv.take(j as int)[i].0 == start;
                    assert(fv.take(j as int + 1)[i].0 == fv.take(j as int + 1)[j as int].0);
                    assert(first_repeat(fold_inputs(folds@), j as int));
                    let goal = old(self)@.save_folds(workspace_id.0, path@, fold_inputs(folds@).take(j as int));
                    assert(self@ == goal);
                }
                return Err(StoreError::ConstraintViolation);
            }
            let ghost before = self.file_folds@;
            let ghost key: FoldKey = (ws, path@, start);
            let ghost val: FoldValue = (end, Some(start_fp@), Some(end_fp@));
            proof {
                self.lemma_unfold();
                assert(!has_key(fold_entries(before), key));
                lemma_entries_map_push(fold_entries(before), key, val);
            }
            self.file_folds.push(FileFoldEntry {
                workspace_id: ws,
                path: clone_bytes(&path),
                start,
                end,
                start_fingerprint: Some(start_fp),
                end_fingerprint: Some(end_fp),
            });
            proof {
                assert(fold_entries(self.file_folds@) =~= fold_entries(before).push((key, val)));
                self.lemma_unfold();
                assert forall|a: int, b: int| 0 <= a < b < fv.take(j as int + 1).len() implies
                    #[trigger] fv.take(j as int + 1)[a].0 != #[trigger] fv.take(j as int + 1)[b].0 by {
                    if b == j {
                        assert(fv.take(j as int)[a].0 == fv.take(j as int + 1)[a].0);
                        if fv.take(j as int)[a].0 == start {
                            assert(exists|i: int| 0 <= i < fv.take(j as int).len() && #[trigger] fv.take(j as int)[i].0 == start);
                        }
                    } else {
                        assert(fv.take(j as int)[a] == fv.take(j as int + 1)[a]);
                        assert(fv.take(j as int)[b] == fv.take(j as int + 1)[b]);
                    }
                }
            }
            j = j + 1;
        }
        proof {
            assert(fv.take(folds@.len() as int) =~= fv);
        }
        Ok(())
    }
}

#[verifier::opaque]
spec fn sorted_starts(lo: Seq<FoldListing>) -> bool {
    forall|a: int, b: int| 0 <= a < b < lo.len() ==> #[trigger] lo[a].0 < #[trigger] lo[b].0
}

/// Each listed fold is the row of its start among the first `i` rows.
#[verifier::opaque]
spec fn listed_from_rows(lo: Seq<FoldListing>, es: Seq<(FoldKey, FoldValue)>, i: int, ws: i64, path: Seq<u8>) -> bool {
    forall|a: int| #![trigger lo[a]] 0 <= a < lo.len() ==> exists|j: int| 0 <= j < i
        && #[trigger] es[j].0 == (ws, path, lo[a].0)
        && es[j].1 == (lo[a].1, lo[a].2, lo[a].3)
}

/// Each of the first `i` rows that belongs to the file is listed.
#[verifier::opaque]
spec fn rows_listed(lo: Seq<FoldListing>, es: Seq<(FoldKey, FoldValue)>, i: int, ws: i64, path: Seq<u8>) -> bool {
    forall|j: int| 0 <= j < i && is_file_key(ws, path)(#[trigger] es[j].0) ==>
        exists|a: int| 0 <= a < lo.len() && #[trigger] lo[a].0 == es[j].0.2
}

proof fn lemma_listing_empty(es: Seq<(FoldKey, FoldValue)>, ws: i64, path: Seq<u8>)
    ensures
        sorted_starts(Seq::empty()),
        listed_from_rows(Seq::empty(), es, 0, ws, path),
        rows_listed(Seq::empty(), es, 0, ws, path),
{
    reveal(sorted_starts);
    reveal(listed_from_rows);
    reveal(rows_listed);
}

proof fn lemma_listing_skip(lo: Seq<FoldListing>, es: Seq<(FoldKey, FoldValue)>, i: int, ws: i64, path: Seq<u8>)
    requires
        0 <= i < es.len(),
        !is_file_key(ws, path)(es[i].0),
        listed_from_rows(lo, es, i, ws, path),
        rows_listed(lo, es, i, ws, path),
    ensures
        listed_from_rows(lo, es, i + 1, ws, path),
        rows_listed(lo, es, i + 1, ws, path),
{
    reveal(listed_from_rows);
    reveal(rows_listed);
    assert forall|a: int| #![trigger lo[a]] 0 <= a < lo.len() implies exists|j: int| 0 <= j < i + 1
        && #[trigger] es[j].0 == (ws, path, lo[a].0)
        && es[j].1 == (lo[a].1, lo[a].2, lo[a].3) by {
        let j = choose|j: int| 0 <= j < i && #[trigger] es[j].0 == (ws, path, lo[a].0)
            && es[j].1 == (lo[a].1, lo[a].2, lo[a].3);
    }
}

proof fn lemma_sorted_insert(lo: Seq<FoldListing>, p: int, li: FoldListing)
    requires
        0 <= p <= lo.len(),
        forall|a: int| 0 <= a < p ==> #[trigger] lo[a].0 < li.0,
        p < lo.len() ==> lo[p].0 > li.0,
        sorted_starts(lo),
    ensures
        sorted_starts(lo.insert(p, li)),
{
    reveal(sorted_starts);
    let lo2 = lo.insert(p, li);
    assert forall|a: int, b: int| 0 <= a < b < lo2.len() implies #[trigger] lo2[a].0 < #[trigger] lo2[b].0 by {
        if b < p {
            assert(lo2[a] == lo[a] && lo2[b] == lo[b]);
        } else if b == p {
            assert(lo2[a] == lo[a]);
        } else if a < p {
            assert(lo2[a] == lo[a] && lo2[b] == lo[b - 1]);
            if b - 1 > p {
                assert(lo[p].0 < lo[b - 1].0);
            }
        } else if a == p {
            assert(lo2[b] == lo[b - 1]);
            if b - 1 > p {
                assert(lo[p].0 < lo[b - 1].0);
            }
        } else {
            assert(lo2[a] == lo[a - 1] && lo2[b] == lo[b - 1]);
        }
    }
}

proof fn lemma_next_start_differs(lo: Seq<FoldListing>, p: int, li: FoldListing, es: Seq<(FoldKey, FoldValue)>, i: int, ws: i64, path: Seq<u8>)
    requires
        keys_distinct(es),
        0 <= i < es.len(),
        es[i].0 == (ws, path, li.0),
        0 <= p < lo.len(),
        listed_from_rows(lo, es, i, ws, path),
    ensures
        lo[p].0 != li.0,
{
    reveal(listed_from_rows);
    let j = choose|j: int| 0 <= j < i && #[trigger] es[j].0 == (ws, path, lo[p].0)
        && es[j].1 == (lo[p].1, lo[p].2, lo[p].3);
}

proof fn lemma_listed_insert(lo: Seq<FoldListing>, p: int, li: FoldListing, es: Seq<(FoldKey, FoldValue)>, i: int, ws: i64, path: Seq<u8>)
    requires
        0 <= i < es.len(),
        es[i].0 == (ws, path, li.0),
        es[i].1 == (li.1, li.2, li.3),
        0 <= p <= lo.len(),
        listed_from_rows(lo, es, i, ws, path),
    ensures
        listed_from_rows(lo.insert(p, li), es, i + 1, ws, path),
{
    reveal(listed_from_rows);
    let lo2 = lo.insert(p, li);
    assert forall|a: int| #![trigger lo2[a]] 0 <= a < lo2.len() implies exists|j: int| 0 <= j < i + 1
        && #[trigger] es[j].0 == (ws, path, lo2[a].0)
        && es[j].1 == (lo2[a].1, lo2[a].2, lo2[a].3) by {
        if a < p {
            assert(lo2[a] == lo[a]);
            let j = choose|j: int| 0 <= j < i && #[trigger] es[j].0 == (ws, path, lo[a].0)
                && es[j].1 == (lo[a].1, lo[a].2, lo[a].3);
        } else if a == p {
            assert(lo2[a] == li);
            assert(es[i].0 == (ws, path, lo2[a].0));
        } else {
            assert(lo2[a] == lo[a - 1]);
            let j = choose|j: int| 0 <= j < i && #[trigger] es[j].0 == (ws, path, lo[a - 1].0)
                && es[j].1 == (lo[a - 1].1, lo[a - 1].2, lo[a - 1].3);
        }
    }
}

proof fn lemma_rows_listed_insert(lo: Seq<FoldListing>, p: int, li: FoldListing, es: Seq<(FoldKey, FoldValue)>, i: int, ws: i64, path: Seq<u8>)
    requires
        0 <= i < es.len(),
        es[i].0 == (ws, path, li.0),
        0 <= p <= lo.len(),
        rows_listed(lo, es, i, ws, path),
    ensures
        rows_listed(lo.insert(p, li), es, i + 1, ws, path),
{
    reveal(rows_listed);
    let lo2 = lo.insert(p, li);
    assert forall|j: int| 0 <= j < i + 1 && is_file_key(ws, path)(#[trigger] es[j].0) implies
        exists|a: int| 0 <= a < lo2.len() && #[trigger] lo2[a].0 == es[j].0.2 by {
        if j == i {
            assert(lo2[p].0 == es[j].0.2);
        } else {
            let a = choose|a: int| 0 <= a < lo.len() && #[trigger] lo[a].0 == es[j].0.2;
            if a < p {
                assert(lo2[a] == lo[a]);
            } else {
                assert(lo2[a + 1] == lo[a]);
            }
        }
    }
}

proof fn lemma_listing_done(v: EditorDbView, lo: Seq<FoldListing>, es: Seq<(FoldKey, FoldValue)>, ws: i64, path: Seq<u8>)
    requires
        keys_distinct(es),
        v.file_folds == entries_map(es),
        sorted_starts(lo),
        listed_from_rows(lo, es, es.len() as int, ws, path),
        rows_listed(lo, es, es.len() as int, ws, path),
    ensures
        v.lists_file_folds(ws, path, lo),
{
    reveal(sorted_starts);
    reveal(listed_from_rows);
    reveal(rows_listed);
    assert forall|a: int| 0 <= a < lo.len() implies {
        &&& v.file_folds.contains_key((ws, path, #[trigger] lo[a].0))
        &&& v.file_folds[(ws, path, lo[a].0)] == (lo[a].1, lo[a].2, lo[a].3)
    } by {
        let j = choose|j: int| 0 <= j < es.len() && #[trigger] es[j].0 == (ws, path, lo[a].0)
            && es[j].1 == (lo[a].1, lo[a].2, lo[a].3);
        lemma_entries_map_index(es, j);
    }
    assert forall|start: usize| #[trigger] v.file_folds.contains_key((ws, path, start))
        implies exists|a: int| 0 <= a < lo.len() && lo[a].0 == start by {
        let j = lemma_entries_map_key(es, (ws, path, start));
        assert(is_file_key(ws, path)(es[j].0));
        let a = choose|a: int| 0 <= a < lo.len() && #[trigger] lo[a].0 == es[j].0.2;
    }
}

impl EditorDb {
    /// The stored folds of an editor, in the order of their rows.
    pub fn get_editor_folds(&self, editor_id: ItemId, workspace_id: WorkspaceId) -> (r: Vec<(usize, usize, Option<String>, Option<String>)>)
        requires
            self.wf(),
        ensures
            fold_listings(r@) == self@.read_editor_folds(editor_id, workspace_id.0),
    {
        proof {
            self.lemma_unfold();
        }
        let ghost rows = editor_fold_rows(self.editor_folds@);
        let mut out: Vec<(usize, usize, Option<String>, Option<String>)> = Vec::new();
        let mut i: usize = 0;
        while i < self.editor_folds.len()
            invariant
                i <= self.editor_folds@.len(),
                rows == editor_fold_rows(self.editor_folds@),
                fold_listings(out@) == rows.take(i as int).filter(is_editor_fold(editor_id, workspace_id.0)).map_values(
                    |r: EditorFoldRow| (r.2, r.3, r.4, r.5)),
            decreases self.editor_folds@.len() - i,
        {
            let e = &self.editor_folds[i];
            proof {
                crate::seqs::lemma_filter_take_step(rows, is_editor_fold(editor_id, workspace_id.0), i as int);
            }
            let ghost before = rows.take(i as int).filter(is_editor_fold(editor_id, workspace_id.0));
            let ghost before_out = out@;
            if e.editor_id == editor_id && e.workspace_id == workspace_id.0 {
                let item = (e.start, e.end, clone_opt_string(&e.start_fingerprint), clone_opt_string(&e.end_fingerprint));
                out.push(item);
                assert(rows[i as int] == (e.editor_id, e.workspace_id, e.start, e.end,
                    string_opt_view(e.start_fingerprint), string_opt_view(e.end_fingerprint)));
                assert(fold_listings(out@) =~= fold_listings(before_out).push(
                    (item.0, item.1, string_opt_view(item.2), string_opt_view(item.3))));
                assert(before.push(rows[i as int]).map_values(|r: EditorFoldRow| (r.2, r.3, r.4, r.5))
                    =~= before.map_values(|r: EditorFoldRow| (r.2, r.3, r.4, r.5)).push(
                        (item.0, item.1, string_opt_view(item.2), string_opt_view(item.3))));
            } else {
                assert(rows[i as int].0 == e.editor_id && rows[i as int].1 == e.workspace_id);
            }
            i = i + 1;
        }
        assert(rows.take(self.editor_folds@.len() as int) =~= rows);
        out
    }
}

impl EditorDb {
    /// The stored folds of a file, in increasing order of start.
    pub fn get_file_folds(&self, workspace_id: WorkspaceId, path: &[u8]) -> (r: Vec<(usize, usize, Option<String>, Option<String>)>)
        requires
            self.wf(),
        ensures
            self@.lists_file_folds(workspace_id.0, path@, fold_listings(r@)),
    {
        proof {
            self.lemma_unfold();
        }
        let ghost es = fold_entries(self.file_folds@);
        let ws = workspace_id.0;
        let mut out: Vec<(usize, usize, Option<String>, Option<String>)> = Vec::new();
        proof {
            lemma_listing_empty(es, ws, path@);
            assert(fold_listings(out@) =~= Seq::<FoldListing>::empty());
        }
        let mut i: usize = 0;
        while i < self.file_folds.len()
            invariant
                i <= self.file_folds@.len(),
                ws == workspace_id.0,
                es == fold_entries(self.file_folds@),
                keys_distinct(es),
                self@.file_folds == entries_map(es),
                sorted_starts(fold_listings(out@)),
                listed_from_rows(fold_listings(out@), es, i as int, ws, path@),
                rows_listed(fold_listings(out@), es, i as int, ws, path@),
            decreases self.file_folds@.len() - i,
        {
            let e = &self.file_folds[i];
            let ghost lo = fold_listings(out@);
            if e.workspace_id == ws && bytes_equal(e.path.as_slice(), path) {
                let start = e.start;
                let mut p: usize = 0;
                while p < out.len() && out[p].0 < start
                    invariant
                        p <= out@.len(),
                        lo == fold_listings(out@),
                        forall|a: int| 0 <= a < p ==> #[trigger] lo[a].0 < start,
                    decreases out@.len() - p,
                {
                    p = p + 1;
                }
                let item = (start, e.end, clone_opt_string(&e.start_fingerprint), clone_opt_string(&e.end_fingerprint));
                let ghost li = (item.0, item.1, string_opt_view(item.2), string_opt_view(item.3));
                proof {
                    if p < out@.len() {
                        lemma_next_start_differs(lo, p as int, li, es, i as int, ws, path@);
                    }
                    lemma_sorted_insert(lo, p as int, li);
                    lemma_listed_insert(lo, p as int, li, es, i as int, ws, path@);
                    lemma_rows_listed_insert(lo, p as int, li, es, i as int, ws, path@);
                }
                out.insert(p, item);
                assert(fold_listings(out@) =~= lo.insert(p as int, li));
            } else {
                proof {
                    lemma_listing_skip(lo, es, i as int, ws, path@);
                }
            }
            i = i + 1;
        }
        proof {
            lemma_listing_done(self@, fold_listings(out@), es, ws, path@);
        }
        out
    }
}

/// Two strictly increasing sequences with the same elements are equal.
proof fn lemma_sorted_unique(s1: Seq<usize>, s2: Seq<usize>)
    requires
        forall|a: int, b: int| 0 <= a < b < s1.len() ==> #[trigger] s1[a] < #[trigger] s1[b],
        forall|a: int, b: int| 0 <= a < b < s2.len() ==> #[trigger] s2[a] < #[trigger] s2[b],
        forall|x: usize| #[trigger] s1.contains(x) <==> s2.contains(x),
    ensures
        s1 == s2,
    decreases s1.len() + s2.len(),
{
    if s1.len() == 0 || s2.len() == 0 {
        if s1.len() > 0 {
            assert(s1.contains(s1[0]));
        }
        if s2.len() > 0 {
            assert(s2.contains(s2[0]));
            assert(s1.contains(s2[0]));
        }
        assert(s1 =~= s2);
    } else {
        assert(s1.contains(s1[0]));
        assert(s2.contains(s2[0]));
        assert(s1.contains(s1[0]) == s2.contains(s1[0]));
        assert(s1.contains(s2[0]) == s2.contains(s2[0]));
        let k = choose|k: int| 0 <= k < s2.len() && s2[k] == s1[0];
        let m = choose|m: int| 0 <= m < s1.len() && s1[m] == s2[0];
        assert(s1[0] == s2[0]) by {
            if k > 0 {
                assert(s2[0] < s2[k]);
            }
            if m > 0 {
                assert(s1[0] < s1[m]);
            }
        }
        let t1 = s1.drop_first();
        let t2 = s2.drop_first();
        assert forall|a: int, b: int| 0 <= a < b < t1.len() implies #[trigger] t1[a] < #[trigger] t1[b] by {
            assert(t1[a] == s1[a + 1] && t1[b] == s1[b + 1]);
        }
        assert forall|a: int, b: int| 0 <= a < b < t2.len() implies #[trigger] t2[a] < #[trigger] t2[b] by {
            assert(t2[a] == s2[a + 1] && t2[b] == s2[b + 1]);
        }
        assert forall|x: usize| #[trigger] t1.contains(x) <==> t2.contains(x) by {
            if t1.contains(x) {
                let i = choose|i: int| 0 <= i < t1.len() && t1[i] == x;
                assert(s1[i + 1] == x && s1[0] < s1[i + 1]);
                assert(s1.contains(x));
                assert(s1.contains(x) == s2.contains(x));
                let j = choose|j: int| 0 <= j < s2.len() && s2[j] == x;
                if j == 0 {
                    assert(false);
                }
                assert(t2[j - 1] == x);
            }
            if t2.contains(x) {
                let i = choose|i: int| 0 <= i < t2.len() && t2[i] == x;
                assert(s2[i + 1] == x && s2[0] < s2[i + 1]);
                assert(s2.contains(x));
                assert(s1.contains(x) == s2.contains(x));
                let j = choose|j: int| 0 <= j < s1.len() && s1[j] == x;
                if j == 0 {
                    assert(false);
                }
                assert(t1[j - 1] == x);
            }
        }
        lemma_sorted_unique(t1, t2);
        assert(s1 =~= s2) by {
            assert forall|i: int| 0 <= i < s1.len() implies s1[i] == s2[i] by {
                if i > 0 {
                    assert(s1[i] == t1[i - 1] && s2[i] == t2[i - 1]);
                }
            }
        }
    }
}

/// At most one sequence lists the folds of a file: the listing is determined
/// by the stored folds.
pub proof fn lemma_file_fold_listing_unique(v: EditorDbView, workspace_id: i64, path: Seq<u8>, r1: Seq<FoldListing>, r2: Seq<FoldListing>)
    requires
        v.lists_file_folds(workspace_id, path, r1),
        v.lists_file_folds(workspace_id, path, r2),
    ensures
        r1 == r2,
{
    let s1 = r1.map_values(|x: FoldListing| x.0);
    let s2 = r2.map_values(|x: FoldListing| x.0);
    assert forall|a: int, b: int| 0 <= a < b < s1.len() implies #[trigger] s1[a] < #[trigger] s1[b] by {
        assert(r1[a].0 < r1[b].0);
    }
    assert forall|a: int, b: int| 0 <= a < b < s2.len() implies #[trigger] s2[a] < #[trigger] s2[b] by {
        assert(r2[a].0 < r2[b].0);
    }
    assert forall|x: usize| #[trigger] s1.contains(x) <==> s2.contains(x) by {
        if s1.contains(x) {
            let i = choose|i: int| 0 <= i < s1.len() && s1[i] == x;
            assert(v.file_folds.contains_key((workspace_id, path, r1[i].0)));
            let j = choose|j: int| 0 <= j < r2.len() && r2[j].0 == x;
            assert(s2[j] == x);
        }
        if s2.contains(x) {
            let i = choose|i: int| 0 <= i < s2.len() && s2[i] == x;
            assert(v.file_folds.contains_key((workspace_id, path, r2[i].0)));
            let j = choose|j: int| 0 <= j < r1.len() && r1[j].0 == x;
            assert(s1[j] == x);
        }
    }
    lemma_sorted_unique(s1, s2);
    assert(r1.len() == s1.len() && r2.len() == s2.len());
    assert forall|i: int| 0 <= i < r1.len() implies r1[i] == r2[i] by {
        assert(s1[i] == s2[i]);
        assert(v.file_folds[(workspace_id, path, r1[i].0)] == (r1[i].1, r1[i].2, r1[i].3));
        assert(v.file_folds[(workspace_id, path, r2[i].0)] == (r2[i].1, r2[i].2, r2[i].3));
    }
    assert(r1 =~= r2);
}

} // verus!
