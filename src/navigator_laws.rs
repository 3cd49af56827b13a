//! Laws of the navigator's row model: how expansion shapes the rows, and
//! how the selection follows a row through filtering.

use vstd::prelude::*;
use crate::navigator::{block, first_with_key, flatten, pane_rows, restored};
use crate::rows::{key_of_row, KeyView, RowView, SessionRowView};

verus! {

/// The rows of two runs of sessions are the rows of each, one after the other.
pub proof fn lemma_flatten_append(a: Seq<SessionRowView>, b: Seq<SessionRowView>, e: Set<Seq<char>>)
    ensures
        flatten(a + b, e) == flatten(a, e) + flatten(b, e),
    decreases b.len(),
{
    if b.len() == 0 {
        assert(a + b =~= a);
        assert(flatten(a, e) + flatten(b, e) =~= flatten(a, e));
    } else {
        lemma_flatten_append(a, b.drop_last(), e);
        assert((a + b).drop_last() =~= a + b.drop_last());
        assert((a + b).last() == b.last());
        assert(flatten(a + b, e) =~= flatten(a, e) + flatten(b, e));
    }
}

/// Two expansion sets that agree on the sessions of `f` give `f` the same rows.
pub proof fn lemma_flatten_same_on(f: Seq<SessionRowView>, e1: Set<Seq<char>>, e2: Set<Seq<char>>)
    requires
        forall|i: int| 0 <= i < f.len() ==> e1.contains(#[trigger] f[i].id) == e2.contains(f[i].id),
    ensures
        flatten(f, e1) == flatten(f, e2),
    decreases f.len(),
{
    if f.len() > 0 {
        let p = f.drop_last();
        assert forall|i: int| 0 <= i < p.len() implies e1.contains(#[trigger] p[i].id) == e2.contains(p[i].id) by {
            assert(p[i] == f[i]);
        }
        lemma_flatten_same_on(p, e1, e2);
        assert(f.last() == f[f.len() - 1]);
        assert(block(f.last(), e1) == block(f.last(), e2));
    }
}

/// Expanding and collapsing session `i`: with `i`'s id held by no other
/// session, expanding it puts exactly its pane rows, in their order, right
/// after its row, and collapsing it leaves every other row as it is and
/// drops exactly those pane rows.
pub proof fn lemma_expand_collapse_rows(f: Seq<SessionRowView>, e: Set<Seq<char>>, i: int)
    requires
        0 <= i < f.len(),
        forall|j: int| 0 <= j < f.len() && j != i ==> (#[trigger] f[j]).id != f[i].id,
    ensures
        ({
            let s = f[i];
            let before = flatten(f.subrange(0, i), e);
            let after = flatten(f.subrange(i + 1, f.len() as int), e);
            &&& flatten(f, e.insert(s.id)) == before + seq![RowView::Session(s)] + pane_rows(s.panes) + after
            &&& flatten(f, e.remove(s.id)) == before + seq![RowView::Session(s)] + after
        }),
{
    let s = f[i];
    let pre = f.subrange(0, i);
    let post = f.subrange(i + 1, f.len() as int);
    assert(f =~= pre + seq![s] + post);
    lemma_flatten_append(pre + seq![s], post, e.insert(s.id));
    lemma_flatten_append(pre, seq![s], e.insert(s.id));
    lemma_flatten_append(pre + seq![s], post, e.remove(s.id));
    lemma_flatten_append(pre, seq![s], e.remove(s.id));
    assert forall|j: int| 0 <= j < pre.len() implies e.insert(s.id).contains(#[trigger] pre[j].id) == e.contains(pre[j].id) by {
        assert(pre[j] == f[j]);
    }
    assert forall|j: int| 0 <= j < pre.len() implies e.remove(s.id).contains(#[trigger] pre[j].id) == e.contains(pre[j].id) by {
        assert(pre[j] == f[j]);
    }
    assert forall|j: int| 0 <= j < post.len() implies e.insert(s.id).contains(#[trigger] post[j].id) == e.contains(post[j].id) by {
        assert(post[j] == f[i + 1 + j]);
    }
    assert forall|j: int| 0 <= j < post.len() implies e.remove(s.id).contains(#[trigger] post[j].id) == e.contains(post[j].id) by {
        assert(post[j] == f[i + 1 + j]);
    }
    lemma_flatten_same_on(pre, e.insert(s.id), e);
    lemma_flatten_same_on(pre, e.remove(s.id), e);
    lemma_flatten_same_on(post, e.insert(s.id), e);
    lemma_flatten_same_on(post, e.remove(s.id), e);
    assert(seq![s].drop_last() =~= Seq::<SessionRowView>::empty());
    assert(seq![s].last() == s);
    assert(flatten(Seq::<SessionRowView>::empty(), e.insert(s.id)).len() == 0);
    assert(flatten(Seq::<SessionRowView>::empty(), e.remove(s.id)).len() == 0);
    assert(flatten(seq![s], e.insert(s.id)) == flatten(seq![s].drop_last(), e.insert(s.id)) + block(s, e.insert(s.id)));
    assert(flatten(seq![s], e.remove(s.id)) == flatten(seq![s].drop_last(), e.remove(s.id)) + block(s, e.remove(s.id)));
    assert(flatten(seq![s], e.insert(s.id)) =~= seq![RowView::Session(s)] + pane_rows(s.panes));
    assert(flatten(seq![s], e.remove(s.id)) =~= seq![RowView::Session(s)]);
    assert(flatten(f, e.insert(s.id)) =~= flatten(pre, e) + seq![RowView::Session(s)] + pane_rows(s.panes) + flatten(post, e));
    assert(flatten(f, e.remove(s.id)) =~= flatten(pre, e) + seq![RowView::Session(s)] + flatten(post, e));
}

/// Some row of `rows` has identity `k`, so a first one does.
pub proof fn lemma_first_key_exists(rows: Seq<RowView>, k: KeyView, j: int)
    requires
        0 <= j < rows.len(),
        key_of_row(rows[j]) == k,
    ensures
        exists|i: int| first_with_key(rows, k, i),
    decreases j,
{
    if forall|m: int| 0 <= m < j ==> key_of_row(#[trigger] rows[m]) != k {
        assert(first_with_key(rows, k, j));
    } else {
        let m = choose|m: int| 0 <= m < j && key_of_row(#[trigger] rows[m]) == k;
        lemma_first_key_exists(rows, k, m);
    }
}

/// Every session of `f` has its row among the rows of `f`.
pub proof fn lemma_session_row_shown(f: Seq<SessionRowView>, e: Set<Seq<char>>, i: int)
    requires
        0 <= i < f.len(),
    ensures
        exists|j: int| 0 <= j < flatten(f, e).len() && #[trigger] flatten(f, e)[j] == RowView::Session(f[i]),
    decreases f.len(),
{
    let p = f.drop_last();
    if i == f.len() - 1 {
        let j = flatten(p, e).len() as int;
        assert(flatten(f, e)[j] == RowView::Session(f[i]));
    } else {
        lemma_session_row_shown(p, e, i);
        let j = choose|j: int| 0 <= j < flatten(p, e).len() && #[trigger] flatten(p, e)[j] == RowView::Session(p[i]);
        assert(flatten(f, e)[j] == flatten(p, e)[j]);
    }
}

/// A selected session row that the filter keeps stays selected, wherever
/// it now stands: when the new sessions `f` hold session `id`, the restored
/// selection is a row of that session; when the filter keeps nothing,
/// nothing is selected.
pub proof fn lemma_selection_follows_session(f: Seq<SessionRowView>, e: Set<Seq<char>>, id: Seq<char>)
    ensures
        (exists|i: int| 0 <= i < f.len() && #[trigger] f[i].id == id) ==> ({
            let rows = flatten(f, e);
            &&& restored(rows, Some(KeyView::Session(id))) is Some
            &&& rows[restored(rows, Some(KeyView::Session(id)))->0] matches RowView::Session(s) && s.id == id
        }),
        f.len() == 0 ==> restored(flatten(f, e), Some(KeyView::Session(id))) is None,
{
    let rows = flatten(f, e);
    if exists|i: int| 0 <= i < f.len() && #[trigger] f[i].id == id {
        let i = choose|i: int| 0 <= i < f.len() && #[trigger] f[i].id == id;
        lemma_session_row_shown(f, e, i);
        let j = choose|j: int| 0 <= j < rows.len() && #[trigger] rows[j] == RowView::Session(f[i]);
        lemma_first_key_exists(rows, KeyView::Session(id), j);
        let c = choose|c: int| first_with_key(rows, KeyView::Session(id), c);
        assert(key_of_row(rows[c]) == KeyView::Session(id));
    }
}


/// Expanding more sessions keeps every row: each row shown under `e1` is
/// shown under any `e2` that holds at least the sessions of `e1`.
pub proof fn lemma_flatten_rows_kept(f: Seq<SessionRowView>, e1: Set<Seq<char>>, e2: Set<Seq<char>>, j: int)
    requires
        forall|i: int| 0 <= i < f.len() && e1.contains(#[trigger] f[i].id) ==> e2.contains(f[i].id),
        0 <= j < flatten(f, e1).len(),
    ensures
        exists|k: int| 0 <= k < flatten(f, e2).len() && #[trigger] flatten(f, e2)[k] == flatten(f, e1)[j],
    decreases f.len(),
{
    let p = f.drop_last();
    let s = f.last();
    let n1 = flatten(p, e1).len() as int;
    let n2 = flatten(p, e2).len() as int;
    assert forall|i: int| 0 <= i < p.len() && e1.contains(#[trigger] p[i].id) implies e2.contains(p[i].id) by {
        assert(p[i] == f[i]);
    }
    if j < n1 {
        lemma_flatten_rows_kept(p, e1, e2, j);
        let k = choose|k: int| 0 <= k < flatten(p, e2).len() && #[trigger] flatten(p, e2)[k] == flatten(p, e1)[j];
        assert(flatten(f, e2)[k] == flatten(p, e2)[k]);
        assert(flatten(f, e1)[j] == flatten(p, e1)[j]);
    } else {
        let o = j - n1;
        assert(flatten(f, e1)[j] == block(s, e1)[o]);
        if o == 0 {
            assert(flatten(f, e2)[n2] == block(s, e2)[0]);
        } else {
            assert(e1.contains(s.id));
            assert(f[f.len() - 1] == s);
            assert(e2.contains(s.id));
            assert(block(s, e1) == block(s, e2));
            assert(flatten(f, e2)[n2 + o] == block(s, e2)[o]);
        }
    }
}

/// Every session row shown is the row of one of the sessions.
pub proof fn lemma_session_rows_come_from_sessions(f: Seq<SessionRowView>, e: Set<Seq<char>>, j: int)
    requires
        0 <= j < flatten(f, e).len(),
        flatten(f, e)[j] is Session,
    ensures
        exists|i: int| 0 <= i < f.len() && flatten(f, e)[j] == RowView::Session(#[trigger] f[i]),
    decreases f.len(),
{
    let p = f.drop_last();
    let n = flatten(p, e).len() as int;
    if j < n {
        assert(flatten(f, e)[j] == flatten(p, e)[j]);
        lemma_session_rows_come_from_sessions(p, e, j);
        let i = choose|i: int| 0 <= i < p.len() && flatten(p, e)[j] == RowView::Session(#[trigger] p[i]);
        assert(p[i] == f[i]);
    } else {
        let o = j - n;
        assert(flatten(f, e)[j] == block(f.last(), e)[o]);
        if o > 0 {
            assert(block(f.last(), e)[o] == pane_rows(f.last().panes)[o - 1]);
        }
        assert(f[f.len() - 1] == f.last());
    }
}

/// When the row with identity `k` is shown, the restored selection is a
/// row with that identity.
pub proof fn lemma_restored_keeps_key(rows: Seq<RowView>, k: KeyView, j: int)
    requires
        0 <= j < rows.len(),
        key_of_row(rows[j]) == k,
    ensures
        restored(rows, Some(k)) matches Some(c) && 0 <= c < rows.len() && key_of_row(rows[c]) == k,
{
    lemma_first_key_exists(rows, k, j);
}

} // verus!
