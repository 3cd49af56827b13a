//! Display rows: one per session, optionally followed by one per pane, built
//! from the live session list and the metadata store.

use vstd::prelude::*;
use crate::entries::find_key;
use crate::key::{key_of, session_key};
use crate::order::{seq_le, sort_ids, views};
use crate::status::{token_of, AgentStatus};
use crate::store::{pane_status, SessionView, Store};
use crate::text::{display_width, trim, trim_of, width_of};
use crate::tmux::{TmuxPane, TmuxSession};

verus! {

/// A pane row.
pub struct PaneRow {
    pub id: String,
    pub status: Option<AgentStatus>,
    pub session_id: String,
}

/// A session row, with the rows of its panes in ascending id order.
pub struct SessionRow {
    pub id: String,
    pub name: String,
    pub status: Option<AgentStatus>,
    pub context: String,
    pub panes: Vec<PaneRow>,
}

/// The model of a pane row.
pub struct PaneRowView {
    pub id: Seq<char>,
    pub status: Option<AgentStatus>,
    pub session_id: Seq<char>,
}

/// The model of a session row.
pub struct SessionRowView {
    pub id: Seq<char>,
    pub name: Seq<char>,
    pub status: Option<AgentStatus>,
    pub context: Seq<char>,
    pub panes: Seq<PaneRowView>,
}

impl View for PaneRow {
    type V = PaneRowView;

    open spec fn view(&self) -> PaneRowView {
        PaneRowView { id: self.id@, status: self.status, session_id: self.session_id@ }
    }
}

impl View for SessionRow {
    type V = SessionRowView;

    open spec fn view(&self) -> SessionRowView {
        SessionRowView {
            id: self.id@,
            name: self.name@,
            status: self.status,
            context: self.context@,
            panes: pane_views(self.panes@),
        }
    }
}

/// The views of a list of pane rows.
pub open spec fn pane_views(v: Seq<PaneRow>) -> Seq<PaneRowView> {
    v.map_values(|p: PaneRow| p@)
}

/// A display row.
pub enum RowItem {
    Session(SessionRow),
    Pane(PaneRow),
}

/// The model of a display row.
pub enum RowView {
    Session(SessionRowView),
    Pane(PaneRowView),
}

impl View for RowItem {
    type V = RowView;

    open spec fn view(&self) -> RowView {
        match self {
            RowItem::Session(s) => RowView::Session(s@),
            RowItem::Pane(p) => RowView::Pane(p@),
        }
    }
}

/// The logical identity of a row, which selection follows.
#[derive(Debug)]
pub enum RowKey {
    Session(String),
    Pane { session_id: String, pane_id: String },
}

/// The model of a row identity.
pub enum KeyView {
    Session(Seq<char>),
    Pane(Seq<char>, Seq<char>),
}

impl View for RowKey {
    type V = KeyView;

    open spec fn view(&self) -> KeyView {
        match self {
            RowKey::Session(id) => KeyView::Session(id@),
            RowKey::Pane { session_id, pane_id } => KeyView::Pane(session_id@, pane_id@),
        }
    }
}

/// The identity of a row.
pub open spec fn key_of_row(r: RowView) -> KeyView {
    match r {
        RowView::Session(s) => KeyView::Session(s.id),
        RowView::Pane(p) => KeyView::Pane(p.session_id, p.id),
    }
}

/// The id of the session that owns a row.
pub open spec fn owner_of_row(r: RowView) -> Seq<char> {
    match r {
        RowView::Session(s) => s.id,
        RowView::Pane(p) => p.session_id,
    }
}

impl PaneRow {
    /// A field-by-field copy.
    pub fn duplicate(&self) -> (r: PaneRow)
        ensures
            r@ == self@,
    {
        PaneRow { id: self.id.clone(), status: self.status, session_id: self.session_id.clone() }
    }
}

impl SessionRow {
    /// A field-by-field copy.
    pub fn duplicate(&self) -> (r: SessionRow)
        ensures
            r@ == self@,
    {
        let mut panes: Vec<PaneRow> = Vec::new();
        let mut i: usize = 0;
        while i < self.panes.len()
            invariant
                i <= self.panes@.len(),
                panes@.len() == i,
                forall|j: int| 0 <= j < i ==> #[trigger] panes@[j]@ == self.panes@[j]@,
            decreases self.panes@.len() - i,
        {
            panes.push(self.panes[i].duplicate());
            i = i + 1;
        }
        proof {
            assert(pane_views(panes@) =~= pane_views(self.panes@));
        }
        let r = SessionRow {
            id: self.id.clone(),
            name: self.name.clone(),
            status: self.status,
            context: self.context.clone(),
            panes,
        };
        proof {
            assert(r@ =~= self@);
        }
        r
    }
}

impl RowItem {
    /// The logical identity of this row.
    pub fn key(&self) -> (r: RowKey)
        ensures
            r@ == key_of_row(self@),
    {
        match self {
            RowItem::Session(row) => RowKey::Session(row.id.clone()),
            RowItem::Pane(row) => RowKey::Pane { session_id: row.session_id.clone(), pane_id: row.id.clone() },
        }
    }

    /// The id of the session that owns this row.
    pub fn owner(&self) -> (r: String)
        ensures
            r@ == owner_of_row(self@),
    {
        match self {
            RowItem::Session(row) => row.id.clone(),
            RowItem::Pane(row) => row.session_id.clone(),
        }
    }

    /// A copy of this row.
    pub fn duplicate(&self) -> (r: RowItem)
        ensures
            r@ == self@,
    {
        match self {
            RowItem::Session(row) => RowItem::Session(row.duplicate()),
            RowItem::Pane(row) => RowItem::Pane(row.duplicate()),
        }
    }
}

impl RowKey {
    /// A copy of this identity.
    pub fn duplicate(&self) -> (r: RowKey)
        ensures
            r@ == self@,
    {
        match self {
            RowKey::Session(id) => RowKey::Session(id.clone()),
            RowKey::Pane { session_id, pane_id } => RowKey::Pane { session_id: session_id.clone(), pane_id: pane_id.clone() },
        }
    }

    /// Whether two identities are the same.
    pub fn same(&self, other: &RowKey) -> (r: bool)
        ensures
            r == (self@ == other@),
    {
        match (self, other) {
            (RowKey::Session(a), RowKey::Session(b)) => *a == *b,
            (RowKey::Pane { session_id: a, pane_id: x }, RowKey::Pane { session_id: b, pane_id: y }) => *a == *b && *x == *y,
            _ => false,
        }
    }
}

/// The marker shown where no data was received.
pub open spec fn placeholder() -> Seq<char> {
    seq!['-']
}

/// The marker shown where no data was received.
fn placeholder_string() -> (r: String)
    ensures
        r@ == placeholder(),
{
    let r = String::from_str("-");
    proof {
        reveal_strlit("-");
    }
    r
}

/// The text shown for an optional free-text field: trimmed, or the
/// placeholder when absent or blank.
pub open spec fn field_text(v: Option<Seq<char>>) -> Seq<char> {
    match v {
        Some(t) => if trim_of(t).len() == 0 {
            placeholder()
        } else {
            trim_of(t)
        },
        None => placeholder(),
    }
}

/// The text shown for a free-text field.
pub fn normalize_field(value: Option<&String>) -> (r: String)
    ensures
        r@ == field_text(match value {
            Some(v) => Some(v@),
            None => None,
        }),
{
    match value {
        Some(v) => {
            let t = trim(v.as_str());
            if t.unicode_len() == 0 {
                placeholder_string()
            } else {
                String::from_str(t)
            }
        },
        None => placeholder_string(),
    }
}

/// The text shown for an optional status.
pub open spec fn status_text_of(s: Option<AgentStatus>) -> Seq<char> {
    match s {
        Some(x) => token_of(x),
        None => placeholder(),
    }
}

/// The text shown for an optional status.
pub fn status_text(status: Option<&AgentStatus>) -> (r: String)
    ensures
        r@ == status_text_of(match status {
            Some(s) => Some(*s),
            None => None,
        }),
{
    match status {
        Some(s) => s.token(),
        None => placeholder_string(),
    }
}

/// The indent that marks a pane row's label.
pub open spec fn pane_indent() -> Seq<char> {
    seq![' ', ' ', '\u{2514}', '\u{2500}', ' ']
}

/// The label of a row: a session's name, or a pane's id under an indent.
pub open spec fn label_of(r: RowView) -> Seq<char> {
    match r {
        RowView::Session(s) => s.name,
        RowView::Pane(p) => pane_indent() + p.id,
    }
}

/// The status of a row.
pub open spec fn status_of_row(r: RowView) -> Option<AgentStatus> {
    match r {
        RowView::Session(s) => s.status,
        RowView::Pane(p) => p.status,
    }
}

/// The context text of a row; pane rows carry none.
pub open spec fn context_of_row(r: RowView) -> Seq<char> {
    match r {
        RowView::Session(s) => s.context,
        RowView::Pane(_) => placeholder(),
    }
}

/// The label of a row.
pub fn row_label(item: &RowItem) -> (r: String)
    ensures
        r@ == label_of(item@),
{
    match item {
        RowItem::Session(row) => row.name.clone(),
        RowItem::Pane(row) => {
            let mut r = String::from_str("  \u{2514}\u{2500} ");
            proof {
                reveal_strlit("  \u{2514}\u{2500} ");
            }
            r.append(row.id.as_str());
            r
        },
    }
}

/// The status of a row.
pub fn row_status(item: &RowItem) -> (r: Option<AgentStatus>)
    ensures
        r == status_of_row(item@),
{
    match item {
        RowItem::Session(row) => row.status,
        RowItem::Pane(row) => row.status,
    }
}

/// The context text of a row.
pub fn row_context(item: &RowItem) -> (r: String)
    ensures
        r@ == context_of_row(item@),
{
    match item {
        RowItem::Session(row) => row.context.clone(),
        RowItem::Pane(_) => placeholder_string(),
    }
}

/// The ids that `panes` lists for session `n`, in listing order.
pub open spec fn listed_ids(panes: Seq<TmuxPane>, n: Seq<char>) -> Seq<Seq<char>>
    decreases panes.len(),
{
    if panes.len() == 0 {
        Seq::empty()
    } else {
        let rest = listed_ids(panes.drop_last(), n);
        if panes.last().session_name@ == n {
            rest.push(panes.last().pane_id@)
        } else {
            rest
        }
    }
}

/// The ids of a list of pane rows.
pub open spec fn pane_ids(ps: Seq<PaneRowView>) -> Seq<Seq<char>> {
    ps.map_values(|p: PaneRowView| p.id)
}

/// The record under `k`, if any.
pub open spec fn record_at(m: Map<Seq<char>, SessionView>, k: Seq<char>) -> Option<SessionView> {
    if m.contains_key(k) {
        Some(m[k])
    } else {
        None
    }
}

/// `row` is the row of session `id`/`name` given its record `rec` and the
/// pane listing `panes`: the record's status and context, and one row per
/// listed pane of the session, in ascending id order, each with the pane's
/// recorded status.
pub open spec fn row_fits(
    row: SessionRowView,
    id: Seq<char>,
    name: Seq<char>,
    rec: Option<SessionView>,
    panes: Seq<TmuxPane>,
) -> bool {
    &&& row.id == id
    &&& row.name == name
    &&& row.status == (match rec {
        Some(c) => c.status,
        None => None,
    })
    &&& row.context == field_text(match rec {
        Some(c) => c.context,
        None => None,
    })
    &&& pane_ids(row.panes).to_multiset() == listed_ids(panes, name).to_multiset()
    &&& forall|a: int, b: int| 0 <= a < b < row.panes.len() ==> seq_le(#[trigger] row.panes[a].id, #[trigger] row.panes[b].id)
    &&& forall|j: int| 0 <= j < row.panes.len() ==> (#[trigger] row.panes[j]).session_id == id
    &&& forall|j: int| 0 <= j < row.panes.len() ==> (#[trigger] row.panes[j]).status == (match rec {
        Some(c) => pane_status(c.panes, row.panes[j].id),
        None => None,
    })
}

/// The ids that `panes` lists for the session named `name`.
fn ids_of_session(panes: &Vec<TmuxPane>, name: &String) -> (r: Vec<String>)
    ensures
        views(r@) == listed_ids(panes@, name@),
{
    let mut r: Vec<String> = Vec::new();
    let mut i: usize = 0;
    while i < panes.len()
        invariant
            i <= panes@.len(),
            views(r@) == listed_ids(panes@.subrange(0, i as int), name@),
        decreases panes@.len() - i,
    {
        proof {
            let next = panes@.subrange(0, i as int + 1);
            assert(next.drop_last() == panes@.subrange(0, i as int));
            assert(next.last() == panes@[i as int]);
        }
        if panes[i].session_name == *name {
            let ghost before = r@;
            r.push(panes[i].pane_id.clone());
            proof {
                assert(views(r@) =~= views(before).push(panes@[i as int].pane_id@));
            }
        }
        i = i + 1;
    }
    proof {
        assert(panes@.subrange(0, panes@.len() as int) == panes@);
    }
    r
}

/// The row of `session`, whose record is the one under `key` in `contexts`.
pub fn session_row(session: &TmuxSession, key: &String, contexts: &Store, panes: &Vec<TmuxPane>) -> (r: SessionRow)
    requires
        contexts.wf(),
    ensures
        row_fits(r@, session.id@, session.name@, record_at(contexts@, key@), panes@),
{
    let rec = contexts.get(key);
    let status = match rec {
        Some(c) => c.status,
        None => None,
    };
    let context = match rec {
        Some(c) => normalize_field(c.context.as_ref()),
        None => normalize_field(None),
    };
    let listed = ids_of_session(panes, &session.name);
    let ids = sort_ids(listed);
    let mut rows: Vec<PaneRow> = Vec::new();
    let mut i: usize = 0;
    while i < ids.len()
        invariant
            i <= ids@.len(),
            rows@.len() == i,
            contexts.wf(),
            match rec {
                Some(c) => contexts@.contains_key(key@) && c@ == contexts@[key@] && c.wf(),
                None => !contexts@.contains_key(key@),
            },
            forall|j: int| 0 <= j < i ==> (#[trigger] rows@[j])@.id == ids@[j]@,
            forall|j: int| 0 <= j < i ==> (#[trigger] rows@[j])@.session_id == session.id@,
            forall|j: int| 0 <= j < i ==> (#[trigger] rows@[j])@.status == (match record_at(contexts@, key@) {
                Some(c) => pane_status(c.panes, rows@[j]@.id),
                None => None,
            }),
        decreases ids@.len() - i,
    {
        let pane_status_here = match rec {
            Some(c) => match find_key(&c.panes, &ids[i]) {
                Some(j) => {
                    proof {
                        crate::entries::lemma_entries_map_index(c.panes@, j as int);
                    }
                    c.panes[j].1.status
                },
                None => None,
            },
            None => None,
        };
        rows.push(PaneRow { id: ids[i].clone(), status: pane_status_here, session_id: session.id.clone() });
        i = i + 1;
    }
    let r = SessionRow { id: session.id.clone(), name: session.name.clone(), status, context, panes: rows };
    proof {
        assert(pane_ids(r@.panes) =~= views(ids@));
    }
    r
}

/// The rows of the listed sessions, in listing order.
pub fn build_sessions(sessions: Vec<TmuxSession>, contexts: &Store, panes: Vec<TmuxPane>) -> (r: Vec<SessionRow>)
    requires
        contexts.wf(),
    ensures
        r@.len() == sessions@.len(),
        forall|i: int| 0 <= i < r@.len() ==> row_fits(
            #[trigger] r@[i]@,
            sessions@[i].id@,
            sessions@[i].name@,
            record_at(contexts@, key_of(sessions@[i].name@)),
            panes@,
        ),
{
    let mut r: Vec<SessionRow> = Vec::new();
    let mut i: usize = 0;
    while i < sessions.len()
        invariant
            i <= sessions@.len(),
            r@.len() == i,
            contexts.wf(),
            forall|j: int| 0 <= j < i ==> row_fits(
                #[trigger] r@[j]@,
                sessions@[j].id@,
                sessions@[j].name@,
                record_at(contexts@, key_of(sessions@[j].name@)),
                panes@,
            ),
        decreases sessions@.len() - i,
    {
        let key = session_key(sessions[i].name.as_str());
        r.push(session_row(&sessions[i], &key, contexts, &panes));
        i = i + 1;
    }
    r
}

/// The views of a list of rows.
pub open spec fn row_views(v: Seq<RowItem>) -> Seq<RowView> {
    v.map_values(|r: RowItem| r@)
}

/// The text of column `col` of a row: label, status, context.
pub open spec fn cell_of(r: RowView, col: int) -> Seq<char> {
    if col == 0 {
        label_of(r)
    } else if col == 1 {
        status_text_of(status_of_row(r))
    } else {
        context_of_row(r)
    }
}

/// The header of column `col`.
pub open spec fn header_of(col: int) -> Seq<char> {
    if col == 0 {
        seq!['S', 'e', 's', 's', 'i', 'o', 'n']
    } else if col == 1 {
        seq!['S', 't', 'a', 't', 'u', 's']
    } else {
        seq!['C', 'o', 'n', 't', 'e', 'x', 't']
    }
}

/// The widest cell of column `col` over `rows`, and at least `floor`.
pub open spec fn widest(rows: Seq<RowView>, col: int, floor: nat) -> nat
    decreases rows.len(),
{
    if rows.len() == 0 {
        floor
    } else {
        let w = widest(rows.drop_last(), col, floor);
        let x = width_of(cell_of(rows.last(), col));
        if x > w {
            x
        } else {
            w
        }
    }
}

/// The width of column `col`: its widest cell or its header.
fn column_width(items: &Vec<RowItem>, col: u8) -> (r: usize)
    requires
        col <= 2,
    ensures
        r == widest(row_views(items@), col as int, width_of(header_of(col as int))),
{
    let header = if col == 0 {
        String::from_str("Session")
    } else if col == 1 {
        String::from_str("Status")
    } else {
        String::from_str("Context")
    };
    proof {
        reveal_strlit("Session");
        reveal_strlit("Status");
        reveal_strlit("Context");
        assert(header@ =~= header_of(col as int));
    }
    let mut w = display_width(header.as_str());
    let mut i: usize = 0;
    proof {
        assert(row_views(items@).subrange(0, 0).len() == 0);
    }
    while i < items.len()
        invariant
            col <= 2,
            i <= items@.len(),
            w == widest(row_views(items@).subrange(0, i as int), col as int, width_of(header_of(col as int))),
        decreases items@.len() - i,
    {
        let cell = if col == 0 {
            row_label(&items[i])
        } else if col == 1 {
            status_text(row_status(&items[i]).as_ref())
        } else {
            row_context(&items[i])
        };
        let x = display_width(cell.as_str());
        proof {
            let next = row_views(items@).subrange(0, i as int + 1);
            assert(next.drop_last() =~= row_views(items@).subrange(0, i as int));
            assert(next.last() == items@[i as int]@);
        }
        if x > w {
            w = x;
        }
        i = i + 1;
    }
    proof {
        assert(row_views(items@).subrange(0, items@.len() as int) == row_views(items@));
    }
    w
}

/// The widths of the label, status and context columns, each the widest
/// cell or header, kept to 16 bits.
pub fn measure_widths(items: &Vec<RowItem>) -> (r: (u16, u16, u16))
    ensures
        r.0 as int == widest(row_views(items@), 0, width_of(header_of(0))) % 65536,
        r.1 as int == widest(row_views(items@), 1, width_of(header_of(1))) % 65536,
        r.2 as int == widest(row_views(items@), 2, width_of(header_of(2))) % 65536,
{
    let a = column_width(items, 0);
    let b = column_width(items, 1);
    let c = column_width(items, 2);
    ((a % 65536) as u16, (b % 65536) as u16, (c % 65536) as u16)
}

} // verus!
