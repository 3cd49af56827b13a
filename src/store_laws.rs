//! Laws of the metadata store, stated over the models that the store's
//! operations are specified by.

use vstd::prelude::*;
use crate::entries::{entries_map, has_key, keys_distinct, lemma_entries_map_empty, lemma_entries_map_push};
use crate::status::AgentStatus;
use crate::store::{
    empty_view, first_with_id, keyed_by_name, merge_panes, merge_view, prune_spec, renormalized,
    rename_spec, SessionContext, SessionView, upsert_session_spec,
};

verus! {

/// Merging a record into an empty one gives the record back.
pub proof fn lemma_merge_into_empty(r: SessionView)
    ensures
        merge_view(empty_view(), r) == r,
{
    assert(merge_panes(Map::empty(), r.panes) =~= r.panes);
}

/// Loading what was saved gives the same store back: re-keying entries that
/// already sit under the key of their name, with distinct keys, changes
/// nothing.
pub proof fn lemma_reload_keeps_store(s: Seq<(String, SessionContext)>)
    requires
        keys_distinct(s),
        keyed_by_name(entries_map(s)),
    ensures
        renormalized(s) == entries_map(s),
    decreases s.len(),
{
    if s.len() == 0 {
        lemma_entries_map_empty(s);
        assert(renormalized(s) =~= entries_map(s));
    } else {
        let p = s.drop_last();
        let e = s.last();
        assert(s == p.push(e));
        assert(keys_distinct(p)) by {
            assert forall|a: int, b: int| 0 <= a < p.len() && 0 <= b < p.len() && a != b
                implies #[trigger] p[a].0@ != #[trigger] p[b].0@ by {
                assert(p[a] == s[a]);
                assert(p[b] == s[b]);
            }
        }
        assert(!has_key(p, e.0@)) by {
            if has_key(p, e.0@) {
                let j = choose|j: int| 0 <= j < p.len() && #[trigger] p[j].0@ == e.0@;
                assert(s[j].0@ == s[s.len() - 1].0@);
            }
        }
        lemma_entries_map_push(p, e);
        assert(keyed_by_name(entries_map(p))) by {
            assert forall|k: Seq<char>| #[trigger] entries_map(p).contains_key(k) implies
                (entries_map(p)[k].session_name matches Some(n) ==> crate::key::key_of(n) == k) by {
                assert(k != e.0@);
                assert(entries_map(s).contains_key(k));
                assert(entries_map(s)[k] == entries_map(p)[k]);
            }
        }
        lemma_reload_keeps_store(p);
        assert(entries_map(s).contains_key(e.0@));
        lemma_merge_into_empty(e.1@);
        assert(renormalized(s) =~= entries_map(s));
    }
}

/// Upserting a session twice with the same arguments leaves the store as
/// one upsert does: no record is duplicated.
pub proof fn lemma_upsert_session_idempotent(
    m: Map<Seq<char>, SessionView>,
    k: Seq<char>,
    name: Seq<char>,
    id: Option<Seq<char>>,
    status: Option<AgentStatus>,
    context: Option<Seq<char>>,
)
    ensures
        upsert_session_spec(upsert_session_spec(m, k, name, id, status, context), k, name, id, status, context)
            == upsert_session_spec(m, k, name, id, status, context),
        upsert_session_spec(m, k, name, id, status, context).dom() == m.dom().insert(k),
{
    let once = upsert_session_spec(m, k, name, id, status, context);
    assert(upsert_session_spec(once, k, name, id, status, context) =~= once);
    assert(once.dom() =~= m.dom().insert(k));
}

/// The session id of a record is whatever the last upsert that supplied one
/// set, and the two upserts leave one record under the key.
pub proof fn lemma_session_id_last_writer_wins(
    m: Map<Seq<char>, SessionView>,
    k: Seq<char>,
    name: Seq<char>,
    id1: Seq<char>,
    id2: Seq<char>,
    status1: Option<AgentStatus>,
    status2: Option<AgentStatus>,
    context1: Option<Seq<char>>,
    context2: Option<Seq<char>>,
)
    ensures
        ({
            let r = upsert_session_spec(
                upsert_session_spec(m, k, name, Some(id1), status1, context1),
                k,
                name,
                Some(id2),
                status2,
                context2,
            );
            &&& r[k].session_id == Some(id2)
            &&& r[k].session_name == Some(name)
            &&& r.dom() == m.dom().insert(k)
        }),
{
    let r = upsert_session_spec(
        upsert_session_spec(m, k, name, Some(id1), status1, context1),
        k,
        name,
        Some(id2),
        status2,
        context2,
    );
    assert(r.dom() =~= m.dom().insert(k));
}

/// Renaming relocates a record: when entry `i` is the only one last seen
/// with id `id` and nothing sits under the new key `k`, the old key is gone
/// and the record under `k` carries the new name, the id, and everything
/// else the old record held.
pub proof fn lemma_rename_relocates(
    s: Seq<(String, SessionContext)>,
    i: int,
    id: Seq<char>,
    name: Seq<char>,
    k: Seq<char>,
)
    requires
        keys_distinct(s),
        0 <= i < s.len(),
        s[i].1@.session_id == Some(id),
        forall|j: int| 0 <= j < s.len() && j != i ==> (#[trigger] s[j].1@).session_id != Some(id),
        !entries_map(s).contains_key(k),
        s[i].0@ != k,
    ensures
        ({
            let r = rename_spec(s, id, name, k);
            &&& !r.contains_key(s[i].0@)
            &&& r.contains_key(k)
            &&& r[k] == SessionView {
                session_name: Some(name),
                session_id: Some(id),
                ..s[i].1@
            }
        }),
{
    assert(first_with_id(s, id, i));
    let c = choose|c: int| first_with_id(s, id, c);
    assert(c == i);
    let moved = SessionView { session_name: Some(name), session_id: Some(id), ..s[i].1@ };
    lemma_merge_into_empty(moved);
}

/// Pruning touches panes only, and only of records whose session `live`
/// reports: such a record keeps exactly its panes that `live` lists for it;
/// every other record stays as it was, panes included, and no record is
/// added or removed.
pub proof fn lemma_prune_is_scoped(m: Map<Seq<char>, SessionView>, live: Map<Seq<char>, Set<Seq<char>>>, k: Seq<char>)
    requires
        m.contains_key(k),
    ensures
        prune_spec(m, live).dom() == m.dom(),
        ({
            let r = prune_spec(m, live)[k];
            let o = m[k];
            &&& r.session_name == o.session_name
            &&& r.session_id == o.session_id
            &&& r.status == o.status
            &&& r.context == o.context
            &&& o.session_name matches Some(n) ==> (live.contains_key(n) ==> r.panes == o.panes.restrict(live[n]))
            &&& o.session_name matches Some(n) ==> (!live.contains_key(n) ==> r == o)
            &&& o.session_name is None ==> r == o
        }),
{
    assert(prune_spec(m, live).dom() =~= m.dom());
}

} // verus!
