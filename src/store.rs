//! The metadata store: session records keyed by the hash of the session
//! name, with merge-safe upsert, rename and pruning.

use vstd::prelude::*;
use crate::entries::{
    entries_map, find_key, has_key, keys_distinct, lemma_entries_map_empty,
    lemma_entries_map_index, lemma_entries_map_push, lemma_entries_map_remove,
    lemma_entries_map_update,
};
use crate::key::{key_of, session_key};
use crate::status::AgentStatus;

verus! {

/// The metadata of one pane.
#[derive(Clone, Copy, Debug, PartialEq, Eq, Structural)]
pub struct PaneContext {
    pub status: Option<AgentStatus>,
}

impl View for PaneContext {
    type V = Option<AgentStatus>;

    open spec fn view(&self) -> Option<AgentStatus> {
        self.status
    }
}

/// The metadata of one session, with its panes keyed by pane id.
#[derive(Debug)]
pub struct SessionContext {
    pub session_name: Option<String>,
    pub session_id: Option<String>,
    pub status: Option<AgentStatus>,
    pub context: Option<String>,
    pub panes: Vec<(String, PaneContext)>,
}

/// The model of a session record.
pub struct SessionView {
    pub session_name: Option<Seq<char>>,
    pub session_id: Option<Seq<char>>,
    pub status: Option<AgentStatus>,
    pub context: Option<Seq<char>>,
    pub panes: Map<Seq<char>, Option<AgentStatus>>,
}

/// The view of an optional string.
pub open spec fn opt_view(s: Option<String>) -> Option<Seq<char>> {
    match s {
        Some(t) => Some(t@),
        None => None,
    }
}

impl View for SessionContext {
    type V = SessionView;

    open spec fn view(&self) -> SessionView {
        SessionView {
            session_name: opt_view(self.session_name),
            session_id: opt_view(self.session_id),
            status: self.status,
            context: opt_view(self.context),
            panes: entries_map(self.panes@),
        }
    }
}

/// `a` where it holds a value, else `b`.
pub open spec fn fill<A>(a: Option<A>, b: Option<A>) -> Option<A> {
    if a is Some {
        a
    } else {
        b
    }
}

/// The status recorded for pane `id` in `m`, or none.
pub open spec fn pane_status(m: Map<Seq<char>, Option<AgentStatus>>, id: Seq<char>) -> Option<AgentStatus> {
    if m.contains_key(id) {
        m[id]
    } else {
        None
    }
}

/// The panes of `t` with those of `s` merged in: every pane of either, and
/// a status taken from `s` only where `t` records none.
pub open spec fn merge_panes(
    t: Map<Seq<char>, Option<AgentStatus>>,
    s: Map<Seq<char>, Option<AgentStatus>>,
) -> Map<Seq<char>, Option<AgentStatus>> {
    Map::new(
        |id: Seq<char>| t.contains_key(id) || s.contains_key(id),
        |id: Seq<char>| fill(pane_status(t, id), pane_status(s, id)),
    )
}

/// Additive merge of `s` into `t`: each field of `t` that holds a value
/// keeps it, each empty one takes the value of `s`.
pub open spec fn merge_view(t: SessionView, s: SessionView) -> SessionView {
    SessionView {
        session_name: fill(t.session_name, s.session_name),
        session_id: fill(t.session_id, s.session_id),
        status: fill(t.status, s.status),
        context: fill(t.context, s.context),
        panes: merge_panes(t.panes, s.panes),
    }
}

/// A record with nothing recorded.
pub open spec fn empty_view() -> SessionView {
    SessionView {
        session_name: None,
        session_id: None,
        status: None,
        context: None,
        panes: Map::empty(),
    }
}

impl SessionContext {
    /// Pane ids are distinct.
    pub open spec fn wf(&self) -> bool {
        keys_distinct(self.panes@)
    }

    /// A record with nothing recorded.
    pub fn new() -> (r: SessionContext)
        ensures
            r.wf(),
            r@ == empty_view(),
    {
        let r = SessionContext {
            session_name: None,
            session_id: None,
            status: None,
            context: None,
            panes: Vec::new(),
        };
        proof {
            lemma_entries_map_empty(r.panes@);
        }
        r
    }

    /// Records `status` for pane `pane_id`, adding the pane if absent.
    pub fn set_pane(&mut self, pane_id: String, status: Option<AgentStatus>)
        requires
            old(self).wf(),
        ensures
            final(self).wf(),
            final(self)@ == (SessionView {
                panes: old(self)@.panes.insert(pane_id@, status),
                ..old(self)@
            }),
    {
        let ghost old_panes = self.panes@;
        match find_key(&self.panes, &pane_id) {
            Some(i) => {
                proof {
                    lemma_entries_map_update(old_panes, i as int, (pane_id, PaneContext { status }));
                }
                self.panes.set(i, (pane_id, PaneContext { status }));
            },
            None => {
                proof {
                    lemma_entries_map_push(old_panes, (pane_id, PaneContext { status }));
                }
                self.panes.push((pane_id, PaneContext { status }));
            },
        }
    }

    /// A field-by-field copy.
    pub fn duplicate(&self) -> (r: SessionContext)
        ensures
            r@ == self@,
            r.panes@ == self.panes@,
    {
        SessionContext {
            session_name: copy_opt(&self.session_name),
            session_id: copy_opt(&self.session_id),
            status: self.status,
            context: copy_opt(&self.context),
            panes: copy_panes(&self.panes),
        }
    }
}

/// A copy of an optional string.
fn copy_opt(s: &Option<String>) -> (r: Option<String>)
    ensures
        r == *s,
{
    match s {
        Some(t) => Some(t.clone()),
        None => None,
    }
}

/// A copy of a pane list.
fn copy_panes(v: &Vec<(String, PaneContext)>) -> (r: Vec<(String, PaneContext)>)
    ensures
        r@ == v@,
{
    let mut r: Vec<(String, PaneContext)> = Vec::new();
    let mut i: usize = 0;
    while i < v.len()
        invariant
            i <= v@.len(),
            r@ == v@.subrange(0, i as int),
        decreases v@.len() - i,
    {
        r.push((v[i].0.clone(), v[i].1));
        i = i + 1;
    }
    r
}

/// Merges `source` into `target` additively: fields of `target` that hold a
/// value keep it, empty ones take the value of `source`; likewise pane by
/// pane, and panes only `source` has are added.
pub fn merge_context(target: &mut SessionContext, source: SessionContext)
    requires
        old(target).wf(),
        source.wf(),
    ensures
        final(target).wf(),
        final(target)@ == merge_view(old(target)@, source@),
{
    if target.session_name.is_none() {
        target.session_name = source.session_name;
    }
    if target.session_id.is_none() {
        target.session_id = source.session_id;
    }
    if target.status.is_none() {
        target.status = source.status;
    }
    if target.context.is_none() {
        target.context = source.context;
    }
    let ghost t0 = target.panes@;
    let ghost scalars = (target.session_name, target.session_id, target.status, target.context);
    let src = source.panes;
    let mut i: usize = 0;
    while i < src.len()
        invariant
            i <= src@.len(),
            keys_distinct(src@),
            keys_distinct(target.panes@),
            (target.session_name, target.session_id, target.status, target.context) == scalars,
            entries_map(target.panes@) == merge_panes(entries_map(t0), entries_map(src@.subrange(0, i as int))),
        decreases src@.len() - i,
    {
        let ghost before = target.panes@;
        let ghost done = src@.subrange(0, i as int);
        let ghost next = src@.subrange(0, i as int + 1);
        let id = src[i].0.clone();
        let incoming = src[i].1;
        let ghost m_before = entries_map(before);
        let ghost m_t0 = entries_map(t0);
        proof {
            assert(next == done.push(src@[i as int]));
            assert(keys_distinct(done));
            assert(!has_key(done, src@[i as int].0@)) by {
                if has_key(done, src@[i as int].0@) {
                    let j = choose|j: int| 0 <= j < done.len() && #[trigger] done[j].0@ == src@[i as int].0@;
                    assert(src@[j].0@ == src@[i as int].0@);
                }
            }
            lemma_entries_map_push(done, src@[i as int]);
            assert(!entries_map(done).contains_key(id@));
        }
        match find_key(&target.panes, &id) {
            Some(j) => {
                proof {
                    lemma_entries_map_index(before, j as int);
                }
                if target.panes[j].1.status.is_none() {
                    proof {
                        lemma_entries_map_update(before, j as int, (id, incoming));
                    }
                    target.panes.set(j, (id, incoming));
                }
            },
            None => {
                proof {
                    lemma_entries_map_push(before, (id, incoming));
                }
                target.panes.push((id, incoming));
            },
        }
        proof {
            let m_next = entries_map(next);
            let m_done = entries_map(done);
            assert(m_next == m_done.insert(id@, incoming.status));
            assert forall|x: Seq<char>| x != id@ implies pane_status(m_next, x) == pane_status(m_done, x) by {}
            assert(pane_status(m_next, id@) == incoming.status);
            assert(pane_status(m_done, id@) == None::<AgentStatus>);
            assert(m_before.contains_key(id@) ==> m_before[id@] == pane_status(m_t0, id@));
            assert(entries_map(target.panes@) =~= merge_panes(m_t0, m_next));
        }
        i = i + 1;
    }
    proof {
        assert(src@.subrange(0, src@.len() as int) == src@);
    }
}


/// The recorded record under `k`, or an empty one.
pub open spec fn record_or_empty(m: Map<Seq<char>, SessionView>, k: Seq<char>) -> SessionView {
    if m.contains_key(k) {
        m[k]
    } else {
        empty_view()
    }
}

/// Every named record sits under the key of its name.
pub open spec fn keyed_by_name(m: Map<Seq<char>, SessionView>) -> bool {
    forall|k: Seq<char>|
        #[trigger] m.contains_key(k) ==> (m[k].session_name matches Some(n) ==> key_of(n) == k)
}

/// The key under which an entry stored under `k` belongs.
pub open spec fn home_key(k: Seq<char>, r: SessionView) -> Seq<char> {
    match r.session_name {
        Some(n) => key_of(n),
        None => k,
    }
}

/// `m` with `r` merged into the record under `k`, which is created if absent.
pub open spec fn merge_into(m: Map<Seq<char>, SessionView>, k: Seq<char>, r: SessionView) -> Map<
    Seq<char>,
    SessionView,
> {
    m.insert(k, merge_view(record_or_empty(m, k), r))
}

/// The stored entries, each merged in turn into the record under the key of
/// its name (or under its stored key if it has no name).
pub open spec fn renormalized(s: Seq<(String, SessionContext)>) -> Map<Seq<char>, SessionView>
    decreases s.len(),
{
    if s.len() == 0 {
        Map::empty()
    } else {
        let m = renormalized(s.drop_last());
        merge_into(m, home_key(s.last().0@, s.last().1@), s.last().1@)
    }
}

/// The record `r` after a session upsert.
pub open spec fn upserted(
    r: SessionView,
    name: Seq<char>,
    id: Option<Seq<char>>,
    status: Option<AgentStatus>,
    context: Option<Seq<char>>,
) -> SessionView {
    SessionView {
        session_name: Some(name),
        session_id: fill(id, r.session_id),
        status: fill(status, r.status),
        context: fill(context, r.context),
        panes: r.panes,
    }
}

/// The store after a session upsert under `k`.
pub open spec fn upsert_session_spec(
    m: Map<Seq<char>, SessionView>,
    k: Seq<char>,
    name: Seq<char>,
    id: Option<Seq<char>>,
    status: Option<AgentStatus>,
    context: Option<Seq<char>>,
) -> Map<Seq<char>, SessionView> {
    m.insert(k, upserted(record_or_empty(m, k), name, id, status, context))
}

/// The store after a pane upsert under `k`.
pub open spec fn upsert_pane_spec(
    m: Map<Seq<char>, SessionView>,
    k: Seq<char>,
    name: Seq<char>,
    pane_id: Seq<char>,
    status: Option<AgentStatus>,
) -> Map<Seq<char>, SessionView> {
    let r = record_or_empty(m, k);
    m.insert(k, SessionView { session_name: Some(name), panes: r.panes.insert(pane_id, status), ..r })
}

/// Entry `i` is the first whose session id is `id`.
pub open spec fn first_with_id(s: Seq<(String, SessionContext)>, id: Seq<char>, i: int) -> bool {
    &&& 0 <= i < s.len()
    &&& s[i].1@.session_id == Some(id)
    &&& forall|j: int| 0 <= j < i ==> (#[trigger] s[j].1@).session_id != Some(id)
}

/// The store after renaming the session last seen with id `id` to `name`,
/// whose key is `k`.
pub open spec fn rename_spec(
    s: Seq<(String, SessionContext)>,
    id: Seq<char>,
    name: Seq<char>,
    k: Seq<char>,
) -> Map<Seq<char>, SessionView> {
    let m = entries_map(s);
    if exists|i: int| first_with_id(s, id, i) {
        let i = choose|i: int| first_with_id(s, id, i);
        let moved = SessionView { session_name: Some(name), session_id: Some(id), ..s[i].1@ };
        merge_into(m.remove(s[i].0@), k, moved)
    } else {
        let moved = SessionView { session_name: Some(name), session_id: Some(id), ..empty_view() };
        merge_into(m, k, moved)
    }
}

/// The set of ids held in `v`.
pub open spec fn id_set(v: Seq<String>) -> Set<Seq<char>> {
    Set::new(|p: Seq<char>| exists|j: int| 0 <= j < v.len() && #[trigger] v[j]@ == p)
}

/// `r` with only the panes that `live` reports for its session, if `live`
/// reports that session at all.
pub open spec fn pruned_record(r: SessionView, live: Map<Seq<char>, Set<Seq<char>>>) -> SessionView {
    match r.session_name {
        Some(n) => if live.contains_key(n) {
            SessionView { panes: r.panes.restrict(live[n]), ..r }
        } else {
            r
        },
        None => r,
    }
}

/// The store after pruning against `live`.
pub open spec fn prune_spec(m: Map<Seq<char>, SessionView>, live: Map<Seq<char>, Set<Seq<char>>>) -> Map<
    Seq<char>,
    SessionView,
> {
    Map::new(|k: Seq<char>| m.contains_key(k), |k: Seq<char>| pruned_record(m[k], live))
}

/// The panes that the session manager reports, grouped by session name.
pub struct LivePanes {
    pub sessions: Vec<(String, Vec<String>)>,
}

impl View for LivePanes {
    type V = Map<Seq<char>, Set<Seq<char>>>;

    open spec fn view(&self) -> Map<Seq<char>, Set<Seq<char>>> {
        Map::new(
            |n: Seq<char>| has_key(self.sessions@, n),
            |n: Seq<char>| id_set(self.sessions@[crate::entries::key_index(self.sessions@, n)].1@),
        )
    }
}

impl LivePanes {
    /// Session names are distinct.
    pub open spec fn wf(&self) -> bool {
        keys_distinct(self.sessions@)
    }
}

/// Whether `v` holds `s`.
pub fn contains_str(v: &Vec<String>, s: &String) -> (r: bool)
    ensures
        r == id_set(v@).contains(s@),
{
    let mut i: usize = 0;
    while i < v.len()
        invariant
            i <= v@.len(),
            forall|j: int| 0 <= j < i ==> #[trigger] v@[j]@ != s@,
        decreases v@.len() - i,
    {
        if v[i] == *s {
            assert(id_set(v@).contains(s@));
            return true;
        }
        i = i + 1;
    }
    false
}

/// The panes of `panes` whose id `ids` holds.
fn retain_live(panes: &Vec<(String, PaneContext)>, ids: &Vec<String>) -> (r: Vec<(String, PaneContext)>)
    requires
        keys_distinct(panes@),
    ensures
        keys_distinct(r@),
        entries_map(r@) == entries_map(panes@).restrict(id_set(ids@)),
{
    let mut r: Vec<(String, PaneContext)> = Vec::new();
    let mut i: usize = 0;
    proof {
        lemma_entries_map_empty(r@);
        lemma_entries_map_empty(panes@.subrange(0, 0));
    }
    while i < panes.len()
        invariant
            i <= panes@.len(),
            keys_distinct(panes@),
            keys_distinct(r@),
            forall|a: int| 0 <= a < r@.len() ==> has_key(panes@.subrange(0, i as int), #[trigger] r@[a].0@),
            entries_map(r@) == entries_map(panes@.subrange(0, i as int)).restrict(id_set(ids@)),
        decreases panes@.len() - i,
    {
        let ghost done = panes@.subrange(0, i as int);
        let ghost next = panes@.subrange(0, i as int + 1);
        let ghost e = panes@[i as int];
        proof {
            assert(next == done.push(e));
            assert(keys_distinct(done));
            assert(!has_key(done, e.0@)) by {
                if has_key(done, e.0@) {
                    let j = choose|j: int| 0 <= j < done.len() && #[trigger] done[j].0@ == e.0@;
                    assert(panes@[j].0@ == e.0@);
                }
            }
            lemma_entries_map_push(done, e);
            assert forall|a: int| 0 <= a < r@.len() implies has_key(next, #[trigger] r@[a].0@) by {
                let j = choose|j: int| 0 <= j < done.len() && #[trigger] done[j].0@ == r@[a].0@;
                assert(next[j] == done[j]);
            }
        }
        if contains_str(ids, &panes[i].0) {
            let ghost before = r@;
            proof {
                assert(!has_key(before, e.0@)) by {
                    if has_key(before, e.0@) {
                        let a = choose|a: int| 0 <= a < before.len() && #[trigger] before[a].0@ == e.0@;
                        assert(has_key(done, before[a].0@));
                    }
                }
                lemma_entries_map_push(before, e);
            }
            r.push((panes[i].0.clone(), panes[i].1));
            proof {
                assert(r@ == before.push(e));
                assert forall|a: int| 0 <= a < r@.len() implies has_key(next, #[trigger] r@[a].0@) by {
                    if a == before.len() {
                        assert(next[i as int].0@ == e.0@);
                    } else {
                        assert(r@[a] == before[a]);
                    }
                }
                assert(entries_map(r@) =~= entries_map(next).restrict(id_set(ids@)));
            }
        } else {
            proof {
                assert(entries_map(r@) =~= entries_map(next).restrict(id_set(ids@)));
            }
        }
        i = i + 1;
    }
    proof {
        assert(panes@.subrange(0, panes@.len() as int) == panes@);
    }
    r
}

/// The metadata store: records keyed by identity key.
pub struct Store {
    pub entries: Vec<(String, SessionContext)>,
}

impl View for Store {
    type V = Map<Seq<char>, SessionView>;

    open spec fn view(&self) -> Map<Seq<char>, SessionView> {
        entries_map(self.entries@)
    }
}

impl Store {
    /// Keys are distinct and every record is well formed.
    pub open spec fn wf(&self) -> bool {
        &&& keys_distinct(self.entries@)
        &&& forall|i: int| 0 <= i < self.entries@.len() ==> (#[trigger] self.entries@[i]).1.wf()
    }

    /// An empty store.
    pub fn new() -> (r: Store)
        ensures
            r.wf(),
            r@ == Map::<Seq<char>, SessionView>::empty(),
    {
        let r = Store { entries: Vec::new() };
        proof {
            lemma_entries_map_empty(r.entries@);
        }
        r
    }

    /// The record under `key`, if any.
    pub fn get(&self, key: &String) -> (r: Option<&SessionContext>)
        requires
            self.wf(),
        ensures
            match r {
                Some(c) => self@.contains_key(key@) && c@ == self@[key@] && c.wf(),
                None => !self@.contains_key(key@),
            },
    {
        match find_key(&self.entries, key) {
            Some(i) => {
                proof {
                    lemma_entries_map_index(self.entries@, i as int);
                }
                Some(&self.entries[i].1)
            },
            None => None,
        }
    }

    /// Removes and returns the record under `key`, or an empty record.
    fn take_or_new(&mut self, key: &String) -> (r: SessionContext)
        requires
            old(self).wf(),
        ensures
            final(self).wf(),
            r.wf(),
            r@ == record_or_empty(old(self)@, key@),
            final(self)@ == old(self)@.remove(key@),
    {
        let ghost s = self.entries@;
        match find_key(&self.entries, key) {
            Some(i) => {
                proof {
                    lemma_entries_map_index(s, i as int);
                    lemma_entries_map_remove(s, i as int);
                }
                let (_, rec) = self.entries.remove(i);
                proof {
                    assert forall|j: int| 0 <= j < self.entries@.len() implies (#[trigger] self.entries@[j]).1.wf() by {
                        assert(self.entries@[j] == s[if j < i { j } else { j + 1 }]);
                    }
                }
                rec
            },
            None => {
                proof {
                    assert(self@ =~= old(self)@.remove(key@));
                }
                SessionContext::new()
            },
        }
    }

    /// Stores `rec` under `key`, which holds no record.
    fn put_new(&mut self, key: String, rec: SessionContext)
        requires
            old(self).wf(),
            !old(self)@.contains_key(key@),
            rec.wf(),
        ensures
            final(self).wf(),
            final(self)@ == old(self)@.insert(key@, rec@),
    {
        let ghost s = self.entries@;
        proof {
            lemma_entries_map_push(s, (key, rec));
        }
        self.entries.push((key, rec));
        proof {
            assert forall|j: int| 0 <= j < self.entries@.len() implies (#[trigger] self.entries@[j]).1.wf() by {
                if j < s.len() {
                    assert(self.entries@[j] == s[j]);
                }
            }
        }
    }

    /// Merges `rec` additively into the record under `key`, creating it if
    /// absent.
    pub fn merge_in(&mut self, key: String, rec: SessionContext)
        requires
            old(self).wf(),
            rec.wf(),
        ensures
            final(self).wf(),
            final(self)@ == merge_into(old(self)@, key@, rec@),
            keyed_by_name(old(self)@) && (rec@.session_name matches Some(n) ==> key_of(n) == key@)
                ==> keyed_by_name(final(self)@),
    {
        let mut target = self.take_or_new(&key);
        merge_context(&mut target, rec);
        self.put_new(key, target);
        proof {
            assert(self@ =~= merge_into(old(self)@, key@, rec@));
        }
    }
}

/// Sets the name of the session under `key`, and its id, status and
/// context where given; other fields and the panes stay.
pub fn upsert_session_at(
    contexts: &mut Store,
    key: String,
    session_name: String,
    session_id: Option<String>,
    status: Option<AgentStatus>,
    context: Option<String>,
)
    requires
        old(contexts).wf(),
    ensures
        final(contexts).wf(),
        final(contexts)@ == upsert_session_spec(
            old(contexts)@,
            key@,
            session_name@,
            opt_view(session_id),
            status,
            opt_view(context),
        ),
        keyed_by_name(old(contexts)@) && key@ == key_of(session_name@) ==> keyed_by_name(final(contexts)@),
{
    let mut rec = contexts.take_or_new(&key);
    rec.session_name = Some(session_name);
    if session_id.is_some() {
        rec.session_id = session_id;
    }
    if status.is_some() {
        rec.status = status;
    }
    if context.is_some() {
        rec.context = context;
    }
    contexts.put_new(key, rec);
    proof {
        assert(contexts@ =~= upsert_session_spec(
            old(contexts)@,
            key@,
            session_name@,
            opt_view(session_id),
            status,
            opt_view(context),
        ));
    }
}

/// Upserts the session named `session_name` under its key, which is
/// returned.
pub fn upsert_session(
    contexts: &mut Store,
    session_name: String,
    session_id: Option<String>,
    status: Option<AgentStatus>,
    context: Option<String>,
) -> (r: String)
    requires
        old(contexts).wf(),
    ensures
        r@ == key_of(session_name@),
        final(contexts).wf(),
        final(contexts)@ == upsert_session_spec(
            old(contexts)@,
            key_of(session_name@),
            session_name@,
            opt_view(session_id),
            status,
            opt_view(context),
        ),
        keyed_by_name(old(contexts)@) ==> keyed_by_name(final(contexts)@),
{
    let key = session_key(session_name.as_str());
    upsert_session_at(contexts, key.clone(), session_name, session_id, status, context);
    key
}

/// Records the name of the session under `key` and the status of its pane
/// `pane_id`, adding the record and the pane where absent.
pub fn upsert_pane_at(contexts: &mut Store, key: String, session_name: &str, pane_id: &str, status: Option<AgentStatus>)
    requires
        old(contexts).wf(),
    ensures
        final(contexts).wf(),
        final(contexts)@ == upsert_pane_spec(old(contexts)@, key@, session_name@, pane_id@, status),
        keyed_by_name(old(contexts)@) && key@ == key_of(session_name@) ==> keyed_by_name(final(contexts)@),
{
    let mut rec = contexts.take_or_new(&key);
    rec.session_name = Some(String::from_str(session_name));
    rec.set_pane(String::from_str(pane_id), status);
    contexts.put_new(key, rec);
    proof {
        assert(contexts@ =~= upsert_pane_spec(old(contexts)@, key@, session_name@, pane_id@, status));
    }
}

/// Records the status of pane `pane_id` of the session named
/// `session_name`, under the key of that name.
pub fn upsert_pane(contexts: &mut Store, session_name: &str, pane_id: &str, status: Option<AgentStatus>)
    requires
        old(contexts).wf(),
    ensures
        final(contexts).wf(),
        final(contexts)@ == upsert_pane_spec(old(contexts)@, key_of(session_name@), session_name@, pane_id@, status),
        keyed_by_name(old(contexts)@) ==> keyed_by_name(final(contexts)@),
{
    let key = session_key(session_name);
    upsert_pane_at(contexts, key, session_name, pane_id, status);
}

/// Moves the record last seen with session id `session_id` (the first
/// such entry) to `key`, the key of `session_name`: its name and id are
/// set to the new values and it is merged additively into whatever
/// record already sits there. With no such record, a record holding only
/// the name and id is merged in instead.
pub fn rename_session_at(contexts: &mut Store, session_id: &str, session_name: &str, key: String)
    requires
        old(contexts).wf(),
    ensures
        final(contexts).wf(),
        final(contexts)@ == rename_spec(old(contexts).entries@, session_id@, session_name@, key@),
        keyed_by_name(old(contexts)@) && key@ == key_of(session_name@) ==> keyed_by_name(final(contexts)@),
{
    let ghost s = contexts.entries@;
    let id = String::from_str(session_id);
    let mut i: usize = 0;
    let mut found: Option<usize> = None;
    while i < contexts.entries.len()
        invariant_except_break
            found is None,
        invariant
            contexts.entries@ == s,
            i <= s.len(),
            forall|j: int| 0 <= j < i ==> (#[trigger] s[j].1@).session_id != Some(id@),
        ensures
            contexts.entries@ == s,
            match found {
                Some(j) => first_with_id(s, id@, j as int),
                None => forall|j: int| 0 <= j < s.len() ==> (#[trigger] s[j].1@).session_id != Some(id@),
            },
        decreases s.len() - i,
    {
        let hit = match &contexts.entries[i].1.session_id {
            Some(sid) => *sid == id,
            None => false,
        };
        if hit {
            found = Some(i);
            proof {
                assert(s[i as int].1@.session_id == Some(id@));
            }
            break;
        }
        i = i + 1;
    }
    let mut moved = match found {
        Some(j) => {
            proof {
                assert(first_with_id(s, id@, j as int));
                lemma_entries_map_remove(s, j as int);
            }
            let (_, rec) = contexts.entries.remove(j);
            proof {
                assert forall|a: int| 0 <= a < contexts.entries@.len() implies (#[trigger] contexts.entries@[a]).1.wf() by {
                    assert(contexts.entries@[a] == s[if a < j { a } else { a + 1 }]);
                }
            }
            rec
        },
        None => {
            proof {
                assert(!exists|a: int| first_with_id(s, id@, a));
            }
            SessionContext::new()
        },
    };
    moved.session_name = Some(String::from_str(session_name));
    moved.session_id = Some(id);
    contexts.merge_in(key, moved);
}

/// Renames the session last seen with id `session_id` to `session_name`,
/// moving its record under the key of the new name.
pub fn rename_session(contexts: &mut Store, session_id: &str, session_name: &str)
    requires
        old(contexts).wf(),
    ensures
        final(contexts).wf(),
        final(contexts)@ == rename_spec(old(contexts).entries@, session_id@, session_name@, key_of(session_name@)),
        keyed_by_name(old(contexts)@) ==> keyed_by_name(final(contexts)@),
{
    let key = session_key(session_name);
    rename_session_at(contexts, session_id, session_name, key);
}

/// Drops, from each record whose session `live` reports, the panes that
/// `live` does not report; every other record, and every scalar field,
/// stays as it is.
pub fn prune_panes(contexts: &mut Store, live: &LivePanes)
    requires
        old(contexts).wf(),
        live.wf(),
    ensures
        final(contexts).wf(),
        final(contexts)@ == prune_spec(old(contexts)@, live@),
        keyed_by_name(old(contexts)@) ==> keyed_by_name(final(contexts)@),
{
    let ghost s = contexts.entries@;
    let mut i: usize = 0;
    while i < contexts.entries.len()
        invariant
            i <= s.len(),
            contexts.entries@.len() == s.len(),
            keys_distinct(s),
            live.wf(),
            forall|j: int| 0 <= j < s.len() ==> (#[trigger] s[j]).1.wf(),
            forall|j: int| 0 <= j < s.len() ==> (#[trigger] contexts.entries@[j]).0@ == s[j].0@,
            forall|j: int| 0 <= j < s.len() ==> (#[trigger] contexts.entries@[j]).1.wf(),
            forall|j: int| 0 <= j < i ==> (#[trigger] contexts.entries@[j]).1@ == pruned_record(s[j].1@, live@),
            forall|j: int| i <= j < s.len() ==> (#[trigger] contexts.entries@[j]) == s[j],
        decreases s.len() - i,
    {
        let mut keep: Option<usize> = None;
        match &contexts.entries[i].1.session_name {
            Some(n) => {
                keep = find_key(&live.sessions, n);
            },
            None => {},
        }
        match keep {
            Some(j) => {
                let ghost r = s[i as int].1;
                proof {
                    lemma_entries_map_index(live.sessions@, j as int);
                    assert(live@.contains_key(live.sessions@[j as int].0@));
                }
                let panes = retain_live(&contexts.entries[i].1.panes, &live.sessions[j].1);
                let mut rec = contexts.entries[i].1.duplicate();
                rec.panes = panes;
                let k = contexts.entries[i].0.clone();
                contexts.entries.set(i, (k, rec));
                proof {
                    assert(contexts.entries@[i as int].1@ =~= pruned_record(r@, live@));
                }
            },
            None => {
                proof {
                    let r = s[i as int].1@;
                    if let Some(n) = r.session_name {
                        assert(!live@.contains_key(n));
                    }
                }
            },
        }
        i = i + 1;
    }
    proof {
        assert forall|k: Seq<char>| #[trigger] has_key(contexts.entries@, k) == has_key(s, k) by {
            if has_key(contexts.entries@, k) {
                let j = choose|j: int| 0 <= j < contexts.entries@.len() && #[trigger] contexts.entries@[j].0@ == k;
                assert(s[j].0@ == k);
            }
            if has_key(s, k) {
                let j = choose|j: int| 0 <= j < s.len() && #[trigger] s[j].0@ == k;
                assert(contexts.entries@[j].0@ == k);
            }
        }
        assert(keys_distinct(contexts.entries@)) by {
            assert forall|a: int, b: int|
                0 <= a < contexts.entries@.len() && 0 <= b < contexts.entries@.len() && a != b
                implies #[trigger] contexts.entries@[a].0@ != #[trigger] contexts.entries@[b].0@ by {
                assert(s[a].0@ != s[b].0@);
            }
        }
        assert forall|k: Seq<char>| has_key(contexts.entries@, k) implies
            #[trigger] contexts@[k] == prune_spec(old(contexts)@, live@)[k] by {
            let j = crate::entries::key_index(contexts.entries@, k);
            lemma_entries_map_index(contexts.entries@, j);
            lemma_entries_map_index(s, j);
        }
        assert(contexts@ =~= prune_spec(old(contexts)@, live@));
    }
}



/// Re-keys loaded entries: each is merged, in order, into the record under
/// the key of its name (or under its stored key if it has no name), so that
/// entries written under a stale key end up under the right one.
pub fn normalize_context_keys(contexts: Vec<(String, SessionContext)>) -> (r: Store)
    requires
        forall|i: int| 0 <= i < contexts@.len() ==> (#[trigger] contexts@[i]).1.wf(),
    ensures
        r.wf(),
        r@ == renormalized(contexts@),
        keyed_by_name(r@),
{
    let mut store = Store::new();
    let mut i: usize = 0;
    proof {
        assert(contexts@.subrange(0, 0).len() == 0);
    }
    while i < contexts.len()
        invariant
            i <= contexts@.len(),
            forall|j: int| 0 <= j < contexts@.len() ==> (#[trigger] contexts@[j]).1.wf(),
            store.wf(),
            store@ == renormalized(contexts@.subrange(0, i as int)),
            keyed_by_name(store@),
        decreases contexts@.len() - i,
    {
        let key = match &contexts[i].1.session_name {
            Some(n) => session_key(n.as_str()),
            None => contexts[i].0.clone(),
        };
        let rec = contexts[i].1.duplicate();
        proof {
            let next = contexts@.subrange(0, i as int + 1);
            assert(next.drop_last() == contexts@.subrange(0, i as int));
            assert(next.last() == contexts@[i as int]);
        }
        store.merge_in(key, rec);
        i = i + 1;
    }
    proof {
        assert(contexts@.subrange(0, contexts@.len() as int) == contexts@);
    }
    store
}

} // verus!
