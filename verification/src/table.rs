//! Tables whose rows are identified by a key: a row sequence with distinct keys
//! stands for the finite map from each key to the rest of its row.
use vstd::prelude::*;

verus! {

/// No two rows share a key.
pub open spec fn keys_distinct<K, V>(s: Seq<(K, V)>) -> bool {
    forall|i: int, j: int|
        0 <= i < s.len() && 0 <= j < s.len() && i != j ==> #[trigger] s[i].0 != #[trigger] s[j].0
}

/// Some row has key `k`.
pub open spec fn has_key<K, V>(s: Seq<(K, V)>, k: K) -> bool {
    exists|i: int| 0 <= i < s.len() && #[trigger] s[i].0 == k
}

/// The map from each key of `s` to the value of its row.
pub open spec fn entries_map<K, V>(s: Seq<(K, V)>) -> Map<K, V> {
    Map::new(
        |k: K| has_key(s, k),
        |k: K| s[choose|i: int| 0 <= i < s.len() && #[trigger] s[i].0 == k].1,
    )
}

/// The row at index `i` is what the map holds for its key.
pub proof fn lemma_entries_map_index<K, V>(s: Seq<(K, V)>, i: int)
    requires
        keys_distinct(s),
        0 <= i < s.len(),
    ensures
        entries_map(s).contains_key(s[i].0),
        entries_map(s)[s[i].0] == s[i].1,
{
    assert(has_key(s, s[i].0));
    let j = choose|j: int| 0 <= j < s.len() && #[trigger] s[j].0 == s[i].0;
    assert(s[j].0 == s[i].0);
}

/// The map finds each of its keys at some index.
pub proof fn lemma_entries_map_key<K, V>(s: Seq<(K, V)>, k: K) -> (i: int)
    requires
        keys_distinct(s),
        entries_map(s).contains_key(k),
    ensures
        0 <= i < s.len(),
        s[i].0 == k,
        entries_map(s)[k] == s[i].1,
{
    let i = choose|i: int| 0 <= i < s.len() && #[trigger] s[i].0 == k;
    lemma_entries_map_index(s, i);
    i
}

/// Replacing the value of one row replaces the value of its key.
pub proof fn lemma_entries_map_update<K, V>(s: Seq<(K, V)>, i: int, v: V)
    requires
        keys_distinct(s),
        0 <= i < s.len(),
    ensures
        keys_distinct(s.update(i, (s[i].0, v))),
        entries_map(s.update(i, (s[i].0, v))) == entries_map(s).insert(s[i].0, v),
{
    let t = s.update(i, (s[i].0, v));
    assert forall|a: int, b: int| 0 <= a < t.len() && 0 <= b < t.len() && a != b implies #[trigger] t[a].0 != #[trigger] t[b].0 by {
        assert(t[a].0 == s[a].0);
        assert(t[b].0 == s[b].0);
    }
    let m = entries_map(s).insert(s[i].0, v);
    assert forall|k: K| #[trigger] entries_map(t).contains_key(k) <==> m.contains_key(k) by {
        if has_key(t, k) {
            let j = choose|j: int| 0 <= j < t.len() && #[trigger] t[j].0 == k;
            assert(s[j].0 == k);
            lemma_entries_map_index(s, j);
        }
        if m.contains_key(k) && k != s[i].0 {
            let j = lemma_entries_map_key(s, k);
            assert(t[j].0 == k);
        }
        if k == s[i].0 {
            assert(t[i].0 == k);
        }
    }
    assert forall|k: K| #[trigger] entries_map(t).contains_key(k) implies entries_map(t)[k] == m[k] by {
        let j = lemma_entries_map_key(t, k);
        if j == i {
        } else {
            assert(s[j] == t[j]);
            lemma_entries_map_index(s, j);
        }
    }
    assert(entries_map(t) =~= m);
}

/// Adding a row with a new key adds that key.
pub proof fn lemma_entries_map_push<K, V>(s: Seq<(K, V)>, k: K, v: V)
    requires
        keys_distinct(s),
        !has_key(s, k),
    ensures
        keys_distinct(s.push((k, v))),
        entries_map(s.push((k, v))) == entries_map(s).insert(k, v),
{
    let t = s.push((k, v));
    assert forall|a: int, b: int| 0 <= a < t.len() && 0 <= b < t.len() && a != b implies #[trigger] t[a].0 != #[trigger] t[b].0 by {
        if a < s.len() && b < s.len() {
            assert(t[a] == s[a] && t[b] == s[b]);
        } else if a < s.len() {
            assert(t[a] == s[a]);
        } else {
            assert(t[b] == s[b]);
        }
    }
    let m = entries_map(s).insert(k, v);
    assert forall|q: K| #[trigger] entries_map(t).contains_key(q) <==> m.contains_key(q) by {
        if has_key(t, q) {
            let j = choose|j: int| 0 <= j < t.len() && #[trigger] t[j].0 == q;
            if j < s.len() {
                assert(s[j].0 == q);
            }
        }
        if entries_map(s).contains_key(q) {
            let j = lemma_entries_map_key(s, q);
            assert(t[j].0 == q);
        }
        if q == k {
            assert(t[s.len() as int].0 == q);
        }
    }
    assert forall|q: K| #[trigger] entries_map(t).contains_key(q) implies entries_map(t)[q] == m[q] by {
        let j = lemma_entries_map_key(t, q);
        if j < s.len() {
            assert(s[j] == t[j]);
            lemma_entries_map_index(s, j);
        }
    }
    assert(entries_map(t) =~= m);
}

/// Removing a row removes its key.
pub proof fn lemma_entries_map_remove<K, V>(s: Seq<(K, V)>, i: int)
    requires
        keys_distinct(s),
        0 <= i < s.len(),
    ensures
        keys_distinct(s.remove(i)),
        entries_map(s.remove(i)) == entries_map(s).remove(s[i].0),
{
    let t = s.remove(i);
    assert forall|a: int, b: int| 0 <= a < t.len() && 0 <= b < t.len() && a != b implies #[trigger] t[a].0 != #[trigger] t[b].0 by {
        let sa = if a < i { a } else { a + 1 };
        let sb = if b < i { b } else { b + 1 };
        assert(t[a] == s[sa] && t[b] == s[sb]);
    }
    let m = entries_map(s).remove(s[i].0);
    assert forall|q: K| #[trigger] entries_map(t).contains_key(q) <==> m.contains_key(q) by {
        if has_key(t, q) {
            let j = choose|j: int| 0 <= j < t.len() && #[trigger] t[j].0 == q;
            let sj = if j < i { j } else { j + 1 };
            assert(s[sj] == t[j]);
            lemma_entries_map_index(s, sj);
        }
        if m.contains_key(q) {
            let j = lemma_entries_map_key(s, q);
            let tj = if j < i { j } else { j - 1 };
            assert(t[tj] == s[j]);
        }
    }
    assert forall|q: K| #[trigger] entries_map(t).contains_key(q) implies entries_map(t)[q] == m[q] by {
        let j = lemma_entries_map_key(t, q);
        let sj = if j < i { j } else { j + 1 };
        assert(s[sj] == t[j]);
        lemma_entries_map_index(s, sj);
    }
    assert(entries_map(t) =~= m);
}

/// A key is present exactly when some row has it.
pub proof fn lemma_entries_map_absent<K, V>(s: Seq<(K, V)>, k: K)
    requires
        forall|i: int| 0 <= i < s.len() ==> #[trigger] s[i].0 != k,
    ensures
        !entries_map(s).contains_key(k),
        !has_key(s, k),
{
}

/// The map `m0` without the keys that `drop` selects, except those still held
/// by a row of `rest`: the state of a removal that has yet to look at `rest`.
pub open spec fn retained<K, V>(m0: Map<K, V>, drop: spec_fn(K) -> bool, rest: Seq<(K, V)>) -> Map<K, V> {
    Map::new(|k: K| m0.contains_key(k) && (!drop(k) || has_key(rest, k)), |k: K| m0[k])
}

/// `m0` without the keys that `drop` selects.
pub open spec fn without_keys<K, V>(m0: Map<K, V>, drop: spec_fn(K) -> bool) -> Map<K, V> {
    Map::new(|k: K| m0.contains_key(k) && !drop(k), |k: K| m0[k])
}

/// Before a removal looks at any row, nothing is gone.
pub proof fn lemma_retained_start<K, V>(s: Seq<(K, V)>, drop: spec_fn(K) -> bool)
    ensures
        entries_map(s) == retained(entries_map(s), drop, s.skip(0)),
{
    assert(s.skip(0) =~= s);
    assert(entries_map(s) =~= retained(entries_map(s), drop, s.skip(0)));
}

/// Once a removal has looked at every row, the selected keys are gone.
pub proof fn lemma_retained_end<K, V>(s: Seq<(K, V)>, m0: Map<K, V>, drop: spec_fn(K) -> bool)
    requires
        entries_map(s) == retained(m0, drop, s.skip(s.len() as int)),
    ensures
        entries_map(s) == without_keys(m0, drop),
{
    assert(retained(m0, drop, s.skip(s.len() as int)) =~= without_keys(m0, drop));
}

/// Removing a selected row at the position a removal has reached.
pub proof fn lemma_retained_remove<K, V>(s: Seq<(K, V)>, i: int, m0: Map<K, V>, drop: spec_fn(K) -> bool)
    requires
        keys_distinct(s),
        0 <= i < s.len(),
        drop(s[i].0),
        entries_map(s) == retained(m0, drop, s.skip(i)),
    ensures
        keys_distinct(s.remove(i)),
        entries_map(s.remove(i)) == retained(m0, drop, s.remove(i).skip(i)),
{
    lemma_entries_map_remove(s, i);
    let t = s.remove(i);
    assert(t.skip(i) =~= s.skip(i + 1));
    assert forall|k: K| #[trigger] has_key(s.skip(i), k) <==> (k == s[i].0 || has_key(s.skip(i + 1), k)) by {
        if has_key(s.skip(i), k) {
            let j = choose|j: int| 0 <= j < s.skip(i).len() && #[trigger] s.skip(i)[j].0 == k;
            if j > 0 {
                assert(s.skip(i + 1)[j - 1] == s.skip(i)[j]);
            }
        }
        if has_key(s.skip(i + 1), k) {
            let j = choose|j: int| 0 <= j < s.skip(i + 1).len() && #[trigger] s.skip(i + 1)[j].0 == k;
            assert(s.skip(i)[j + 1] == s.skip(i + 1)[j]);
        }
        if k == s[i].0 {
            assert(s.skip(i)[0] == s[i]);
        }
    }
    assert(!has_key(s.skip(i + 1), s[i].0)) by {
        if has_key(s.skip(i + 1), s[i].0) {
            let j = choose|j: int| 0 <= j < s.skip(i + 1).len() && #[trigger] s.skip(i + 1)[j].0 == s[i].0;
            assert(s[i + 1 + j] == s.skip(i + 1)[j]);
        }
    }
    assert(entries_map(t) =~= retained(m0, drop, t.skip(i)));
}

/// Passing over a row that is kept.
pub proof fn lemma_retained_keep<K, V>(s: Seq<(K, V)>, i: int, m0: Map<K, V>, drop: spec_fn(K) -> bool)
    requires
        keys_distinct(s),
        0 <= i < s.len(),
        !drop(s[i].0),
        entries_map(s) == retained(m0, drop, s.skip(i)),
    ensures
        entries_map(s) == retained(m0, drop, s.skip(i + 1)),
{
    assert forall|k: K| #[trigger] has_key(s.skip(i), k) <==> (k == s[i].0 || has_key(s.skip(i + 1), k)) by {
        if has_key(s.skip(i), k) {
            let j = choose|j: int| 0 <= j < s.skip(i).len() && #[trigger] s.skip(i)[j].0 == k;
            if j > 0 {
                assert(s.skip(i + 1)[j - 1] == s.skip(i)[j]);
            }
        }
        if has_key(s.skip(i + 1), k) {
            let j = choose|j: int| 0 <= j < s.skip(i + 1).len() && #[trigger] s.skip(i + 1)[j].0 == k;
            assert(s.skip(i)[j + 1] == s.skip(i + 1)[j]);
        }
        if k == s[i].0 {
            assert(s.skip(i)[0] == s[i]);
        }
    }
    assert(retained(m0, drop, s.skip(i)) =~= retained(m0, drop, s.skip(i + 1)));
}

/// Rewriting the value of every row by `f` of its key and old value rewrites
/// the map the same way.
pub proof fn lemma_entries_map_values<K, V>(s: Seq<(K, V)>, t: Seq<(K, V)>, f: spec_fn(K, V) -> V)
    requires
        keys_distinct(s),
        t.len() == s.len(),
        forall|i: int| 0 <= i < s.len() ==> #[trigger] t[i] == (s[i].0, f(s[i].0, s[i].1)),
    ensures
        keys_distinct(t),
        entries_map(t) == Map::new(|k: K| entries_map(s).contains_key(k), |k: K| f(k, entries_map(s)[k])),
{
    assert forall|a: int, b: int| 0 <= a < t.len() && 0 <= b < t.len() && a != b implies #[trigger] t[a].0 != #[trigger] t[b].0 by {
        assert(t[a].0 == s[a].0 && t[b].0 == s[b].0);
    }
    let m = Map::new(|k: K| entries_map(s).contains_key(k), |k: K| f(k, entries_map(s)[k]));
    assert forall|k: K| #[trigger] entries_map(t).contains_key(k) <==> m.contains_key(k) by {
        if has_key(t, k) {
            let j = choose|j: int| 0 <= j < t.len() && #[trigger] t[j].0 == k;
            assert(t[j].0 == s[j].0);
            lemma_entries_map_index(s, j);
        }
        if m.contains_key(k) {
            let j = lemma_entries_map_key(s, k);
            assert(t[j].0 == k);
        }
    }
    assert forall|k: K| #[trigger] entries_map(t).contains_key(k) implies entries_map(t)[k] == m[k] by {
        let j = lemma_entries_map_key(t, k);
        assert(t[j].0 == s[j].0);
        lemma_entries_map_index(s, j);
    }
    assert(entries_map(t) =~= m);
}

} // verus!
