//! What the session manager reports: sessions, panes, and the live pane
//! sets that pruning works from.

use vstd::prelude::*;
use crate::entries::{find_key, has_key, keys_distinct, key_index, lemma_entries_map_empty};
use crate::store::{id_set, LivePanes};
use crate::text::{split_tab_pair, tab_pair_of};

verus! {

/// A session as the session manager lists it.
#[derive(Clone, Debug)]
pub struct TmuxSession {
    pub id: String,
    pub name: String,
}

/// A pane as the session manager lists it, with the name of its session.
#[derive(Clone, Debug)]
pub struct TmuxPane {
    pub session_name: String,
    pub pane_id: String,
}

/// Reads one line of a session listing: the session id, a tab, the name.
pub fn parse_session_line(line: &str) -> (r: Option<TmuxSession>)
    ensures
        match r {
            Some(t) => tab_pair_of(line@) == Some((t.id@, t.name@)),
            None => tab_pair_of(line@) is None,
        },
{
    match split_tab_pair(line) {
        Some((id, name)) => Some(TmuxSession { id, name }),
        None => None,
    }
}

/// Reads one line of a pane listing: the session name, a tab, the pane id.
pub fn parse_pane_line(line: &str) -> (r: Option<TmuxPane>)
    ensures
        match r {
            Some(t) => tab_pair_of(line@) == Some((t.session_name@, t.pane_id@)),
            None => tab_pair_of(line@) is None,
        },
{
    match split_tab_pair(line) {
        Some((session_name, pane_id)) => Some(TmuxPane { session_name, pane_id }),
        None => None,
    }
}

/// Whether `panes` lists a pane of session `n`.
pub open spec fn mentions(panes: Seq<TmuxPane>, n: Seq<char>) -> bool {
    exists|i: int| 0 <= i < panes.len() && #[trigger] panes[i].session_name@ == n
}

/// The ids of the panes that `panes` lists for session `n`.
pub open spec fn ids_for(panes: Seq<TmuxPane>, n: Seq<char>) -> Set<Seq<char>> {
    Set::new(
        |p: Seq<char>|
            exists|i: int| 0 <= i < panes.len() && #[trigger] panes[i].session_name@ == n && panes[i].pane_id@ == p,
    )
}

/// The live pane ids of each session that `panes` mentions.
pub open spec fn live_of(panes: Seq<TmuxPane>) -> Map<Seq<char>, Set<Seq<char>>> {
    Map::new(|n: Seq<char>| mentions(panes, n), |n: Seq<char>| ids_for(panes, n))
}

/// Listing one more pane adds its id to the set of its session.
pub proof fn lemma_live_of_push(panes: Seq<TmuxPane>, p: TmuxPane)
    ensures
        live_of(panes.push(p)) == live_of(panes).insert(
            p.session_name@,
            ids_for(panes, p.session_name@).insert(p.pane_id@),
        ),
        !mentions(panes, p.session_name@) ==> ids_for(panes, p.session_name@) == Set::<Seq<char>>::empty(),
{
    let t = panes.push(p);
    assert forall|a: int| 0 <= a < panes.len() implies #[trigger] t[a] == panes[a] by {}
    assert(t[panes.len() as int] == p);
    assert forall|n: Seq<char>| #[trigger] mentions(t, n) == (mentions(panes, n) || n == p.session_name@) by {
        if mentions(t, n) {
            let a = choose|a: int| 0 <= a < t.len() && #[trigger] t[a].session_name@ == n;
            if a < panes.len() {
                assert(panes[a].session_name@ == n);
            }
        }
        if mentions(panes, n) {
            let a = choose|a: int| 0 <= a < panes.len() && #[trigger] panes[a].session_name@ == n;
            assert(t[a].session_name@ == n);
        }
    }
    assert forall|n: Seq<char>| #[trigger] ids_for(t, n) == (if n == p.session_name@ {
        ids_for(panes, n).insert(p.pane_id@)
    } else {
        ids_for(panes, n)
    }) by {
        assert forall|q: Seq<char>| #[trigger] ids_for(t, n).contains(q) == (if n == p.session_name@ {
            ids_for(panes, n).insert(p.pane_id@)
        } else {
            ids_for(panes, n)
        }).contains(q) by {
            if ids_for(t, n).contains(q) {
                let a = choose|a: int| 0 <= a < t.len() && #[trigger] t[a].session_name@ == n && t[a].pane_id@ == q;
                if a < panes.len() {
                    assert(panes[a].session_name@ == n);
                }
            }
            if ids_for(panes, n).contains(q) {
                let a = choose|a: int| 0 <= a < panes.len() && #[trigger] panes[a].session_name@ == n && panes[a].pane_id@ == q;
                assert(t[a].session_name@ == n);
            }
            if n == p.session_name@ && q == p.pane_id@ {
                assert(t[panes.len() as int].session_name@ == n);
            }
        }
        assert(ids_for(t, n) =~= (if n == p.session_name@ {
            ids_for(panes, n).insert(p.pane_id@)
        } else {
            ids_for(panes, n)
        }));
    }
    assert(live_of(t) =~= live_of(panes).insert(p.session_name@, ids_for(panes, p.session_name@).insert(p.pane_id@)));
    if !mentions(panes, p.session_name@) {
        assert forall|q: Seq<char>| !ids_for(panes, p.session_name@).contains(q) by {
            if ids_for(panes, p.session_name@).contains(q) {
                let a = choose|a: int|
                    0 <= a < panes.len() && #[trigger] panes[a].session_name@ == p.session_name@ && panes[a].pane_id@ == q;
                assert(mentions(panes, p.session_name@));
            }
        }
        assert(ids_for(panes, p.session_name@) =~= Set::<Seq<char>>::empty());
    }
}

/// Groups the listed panes by session name.
pub fn collect_live_panes(panes: &Vec<TmuxPane>) -> (r: LivePanes)
    ensures
        r.wf(),
        r@ == live_of(panes@),
{
    let mut live = LivePanes { sessions: Vec::new() };
    proof {
        lemma_entries_map_empty(live.sessions@);
        assert(live@ =~= live_of(panes@.subrange(0, 0)));
    }
    let mut i: usize = 0;
    while i < panes.len()
        invariant
            i <= panes@.len(),
            live.wf(),
            live@ == live_of(panes@.subrange(0, i as int)),
        decreases panes@.len() - i,
    {
        let ghost done = panes@.subrange(0, i as int);
        let ghost next = panes@.subrange(0, i as int + 1);
        let ghost s = live.sessions@;
        let ghost before = live@;
        let name = panes[i].session_name.clone();
        let id = panes[i].pane_id.clone();
        proof {
            assert forall|a: int| 0 <= a < done.len() implies #[trigger] next[a] == done[a] by {}
            assert(next[i as int] == panes@[i as int]);
            assert(next == done.push(panes@[i as int]));
            lemma_live_of_push(done, panes@[i as int]);
        }
        match find_key(&live.sessions, &name) {
            Some(j) => {
                let (n, mut ids) = live.sessions.remove(j);
                let ghost old_ids = ids@;
                ids.push(id);
                live.sessions.insert(j, (n, ids));
                proof {
                    assert(live.sessions@ =~= s.update(j as int, (n, ids)));
                    assert(id_set(ids@) =~= id_set(old_ids).insert(panes@[i as int].pane_id@)) by {
                        assert forall|p: Seq<char>| id_set(old_ids).contains(p) implies #[trigger] id_set(ids@).contains(p) by {
                            let a = choose|a: int| 0 <= a < old_ids.len() && #[trigger] old_ids[a]@ == p;
                            assert(ids@[a] == old_ids[a]);
                        }
                        assert(ids@[old_ids.len() as int]@ == panes@[i as int].pane_id@);
                        assert forall|p: Seq<char>| #[trigger] id_set(ids@).contains(p) implies
                            id_set(old_ids).contains(p) || p == panes@[i as int].pane_id@ by {
                            let a = choose|a: int| 0 <= a < ids@.len() && #[trigger] ids@[a]@ == p;
                            if a < old_ids.len() {
                                assert(old_ids[a] == ids@[a]);
                            }
                        }
                    }
                    assert(keys_distinct(live.sessions@)) by {
                        assert forall|a: int, b: int|
                            0 <= a < live.sessions@.len() && 0 <= b < live.sessions@.len() && a != b
                            implies #[trigger] live.sessions@[a].0@ != #[trigger] live.sessions@[b].0@ by {
                            assert(live.sessions@[a].0@ == s[a].0@);
                            assert(live.sessions@[b].0@ == s[b].0@);
                        }
                    }
                    assert forall|k: Seq<char>| #[trigger] has_key(live.sessions@, k) == has_key(s, k) by {
                        if has_key(s, k) {
                            let a = choose|a: int| 0 <= a < s.len() && #[trigger] s[a].0@ == k;
                            assert(live.sessions@[a].0@ == k);
                        }
                        if has_key(live.sessions@, k) {
                            let a = choose|a: int| 0 <= a < live.sessions@.len() && #[trigger] live.sessions@[a].0@ == k;
                            assert(s[a].0@ == k);
                        }
                    }
                    assert forall|k: Seq<char>| has_key(s, k) implies
                        #[trigger] key_index(live.sessions@, k) == key_index(s, k) by {
                        assert(has_key(live.sessions@, k));
                        let b = key_index(live.sessions@, k);
                        assert(live.sessions@[b].0@ == k);
                        assert(s[b].0@ == live.sessions@[b].0@);
                    }
                    crate::entries::lemma_entries_map_index(s, j as int);
                    assert(before.contains_key(name@));
                    assert(before[name@] == id_set(old_ids));
                    assert(live@ =~= before.insert(name@, id_set(ids@)));
                }
            },
            None => {
                let mut ids: Vec<String> = Vec::new();
                ids.push(id);
                proof {
                    assert(id_set(ids@) =~= set![panes@[i as int].pane_id@]) by {
                        assert(ids@[0]@ == panes@[i as int].pane_id@);
                    }
                }
                live.sessions.push((name, ids));
                proof {
                    assert(keys_distinct(live.sessions@)) by {
                        assert forall|a: int, b: int|
                            0 <= a < live.sessions@.len() && 0 <= b < live.sessions@.len() && a != b
                            implies #[trigger] live.sessions@[a].0@ != #[trigger] live.sessions@[b].0@ by {
                            if a < s.len() {
                                assert(live.sessions@[a] == s[a]);
                            }
                            if b < s.len() {
                                assert(live.sessions@[b] == s[b]);
                            }
                        }
                    }
                    assert forall|k: Seq<char>| #[trigger] has_key(live.sessions@, k) == (has_key(s, k) || k == panes@[i as int].session_name@) by {
                        if has_key(s, k) {
                            let a = choose|a: int| 0 <= a < s.len() && #[trigger] s[a].0@ == k;
                            assert(live.sessions@[a].0@ == k);
                        }
                        if has_key(live.sessions@, k) {
                            let a = choose|a: int| 0 <= a < live.sessions@.len() && #[trigger] live.sessions@[a].0@ == k;
                            if a < s.len() {
                                assert(s[a].0@ == k);
                            }
                        }
                        if k == panes@[i as int].session_name@ {
                            assert(live.sessions@[s.len() as int].0@ == k);
                        }
                    }
                    assert forall|k: Seq<char>| has_key(s, k) implies
                        #[trigger] key_index(live.sessions@, k) == key_index(s, k) by {
                        assert(has_key(live.sessions@, k));
                        let b = key_index(live.sessions@, k);
                        assert(live.sessions@[b].0@ == k);
                        if b < s.len() {
                            assert(live.sessions@[b] == s[b]);
                            assert(s[b].0@ == k);
                        } else {
                            assert(live.sessions@[b].0@ == panes@[i as int].session_name@);
                        }
                    }
                    assert(live.sessions@[s.len() as int].0@ == panes@[i as int].session_name@);
                    assert(has_key(live.sessions@, panes@[i as int].session_name@));
                    let b = key_index(live.sessions@, panes@[i as int].session_name@);
                    assert(live.sessions@[b].0@ == panes@[i as int].session_name@);
                    assert(b == s.len()) by {
                        if b < s.len() {
                            assert(live.sessions@[b] == s[b]);
                            assert(has_key(s, panes@[i as int].session_name@));
                        }
                    }
                    assert(!before.contains_key(name@));
                    assert(live@ =~= before.insert(name@, id_set(ids@)));
                }
            },
        }
        i = i + 1;
    }
    proof {
        assert(panes@.subrange(0, panes@.len() as int) == panes@);
    }
    live
}

} // verus!
