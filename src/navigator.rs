//! The session navigator: a filterable, expandable list of session and pane
//! rows whose selection follows the logical row across rebuilds. Outside
//! work (the fuzzy filter, the session manager, the store file) is left to
//! the caller, which hands the results back.

use vstd::prelude::*;
use crate::rows::{
    key_of_row, measure_widths, owner_of_row, row_views, status_text, status_text_of, PaneRowView,
    RowItem, RowKey, RowView, SessionRow, SessionRowView, KeyView, header_of, widest,
};
use crate::order::views;
use crate::store::id_set;
use crate::store::contains_str;
use crate::navigator_laws::{
    lemma_flatten_rows_kept, lemma_restored_keeps_key, lemma_selection_follows_session, lemma_session_row_shown,
    lemma_session_rows_come_from_sessions,
};
use crate::text::{first_field, first_field_of, is_blank, pop_char, push_char, trim_of, width_of};

verus! {

/// The views of a list of session rows.
pub open spec fn session_views(v: Seq<SessionRow>) -> Seq<SessionRowView> {
    v.map_values(|s: SessionRow| s@)
}

/// The display rows of a session's panes.
pub open spec fn pane_rows(ps: Seq<PaneRowView>) -> Seq<RowView> {
    ps.map_values(|p: PaneRowView| RowView::Pane(p))
}

/// The rows of one session: its own row, then its pane rows if expanded.
pub open spec fn block(s: SessionRowView, expanded: Set<Seq<char>>) -> Seq<RowView> {
    seq![RowView::Session(s)] + if expanded.contains(s.id) {
        pane_rows(s.panes)
    } else {
        Seq::empty()
    }
}

/// The display rows of the sessions `f`, with the sessions in `expanded`
/// followed by their panes.
pub open spec fn flatten(f: Seq<SessionRowView>, expanded: Set<Seq<char>>) -> Seq<RowView>
    decreases f.len(),
{
    if f.len() == 0 {
        Seq::empty()
    } else {
        flatten(f.drop_last(), expanded) + block(f.last(), expanded)
    }
}

/// Row `i` is the first of `rows` with identity `k`.
pub open spec fn first_with_key(rows: Seq<RowView>, k: KeyView, i: int) -> bool {
    &&& 0 <= i < rows.len()
    &&& key_of_row(rows[i]) == k
    &&& forall|j: int| 0 <= j < i ==> key_of_row(#[trigger] rows[j]) != k
}

/// The selection after a rebuild that produced `rows`: the row with the
/// identity previously selected, else the first row, else none.
pub open spec fn restored(rows: Seq<RowView>, previous: Option<KeyView>) -> Option<int> {
    if rows.len() == 0 {
        None
    } else {
        match previous {
            Some(k) => if exists|i: int| first_with_key(rows, k, i) {
                Some(choose|i: int| first_with_key(rows, k, i))
            } else {
                Some(0)
            },
            None => Some(0),
        }
    }
}

/// Session `i` is the first of `s` with id `id`.
pub open spec fn first_with_session_id(s: Seq<SessionRowView>, id: Seq<char>, i: int) -> bool {
    &&& 0 <= i < s.len()
    &&& s[i].id == id
    &&& forall|j: int| 0 <= j < i ==> (#[trigger] s[j]).id != id
}

/// The sessions of `s` that the filter's result lines name, in the order of
/// the lines; a line names the session whose id is its first field.
pub open spec fn ranked(s: Seq<SessionRowView>, lines: Seq<Seq<char>>) -> Seq<SessionRowView>
    decreases lines.len(),
{
    if lines.len() == 0 {
        Seq::empty()
    } else {
        let r = ranked(s, lines.drop_last());
        let id = first_field_of(lines.last());
        if exists|i: int| first_with_session_id(s, id, i) {
            r.push(s[choose|i: int| first_with_session_id(s, id, i)])
        } else {
            r
        }
    }
}

/// The line handed to the fuzzy filter for a session: id, name, status and
/// context, tab-separated.
pub open spec fn candidate_of(s: SessionRowView) -> Seq<char> {
    s.id + seq!['\t'] + s.name + seq!['\t'] + status_text_of(s.status) + seq!['\t'] + s.context
}

/// The column widths of `rows`, each kept to 16 bits.
pub open spec fn widths_of(rows: Seq<RowView>) -> (u16, u16, u16) {
    (
        (widest(rows, 0, width_of(header_of(0))) % 65536) as u16,
        (widest(rows, 1, width_of(header_of(1))) % 65536) as u16,
        (widest(rows, 2, width_of(header_of(2))) % 65536) as u16,
    )
}

/// The selection after moving down over `len` rows.
pub open spec fn next_index(selected: Option<usize>, len: nat) -> Option<usize> {
    match selected {
        Some(i) => if i + 1 < len { Some((i + 1) as usize) } else { Some(0usize) },
        None => if len == 0 { None } else { Some(0usize) },
    }
}

/// The selection after moving up over `len` rows.
pub open spec fn previous_index(selected: Option<usize>, len: nat) -> Option<usize> {
    match selected {
        Some(i) => if i == 0 { Some((len - 1) as usize) } else { Some((i - 1) as usize) },
        None => if len == 0 { None } else { Some((len - 1) as usize) },
    }
}

/// An input event, already decoded for the current mode.
pub enum NavEvent {
    Down,
    Up,
    StartSearch,
    Input(char),
    Erase,
    LeaveSearch,
    Confirm,
    Expand,
    Collapse,
    Refresh,
    Quit,
}

/// What the caller must do after an event.
pub enum NavAction {
    /// Nothing: draw and wait for the next event.
    Continue,
    /// Run the fuzzy filter over `candidate_lines` with the query and hand
    /// its result lines to `apply_ranked`.
    Filter,
    /// Switch the client to this session, then stop.
    Switch(String),
    /// Prune the store against the live panes, rebuild the session rows and
    /// hand them to `reload`.
    Refresh,
    /// Stop without switching.
    Exit,
}

/// The navigator's state.
pub struct App {
    pub sessions: Vec<SessionRow>,
    pub filtered_sessions: Vec<SessionRow>,
    pub rows: Vec<RowItem>,
    pub widths: (u16, u16, u16),
    pub search_query: String,
    pub search_mode: bool,
    pub expanded_sessions: Vec<String>,
    pub selected: Option<usize>,
}

impl App {
    /// The rows are those of the filtered sessions with the expanded ones
    /// followed by their panes; a row is selected exactly when there is one.
    pub open spec fn wf(&self) -> bool {
        &&& row_views(self.rows@) == flatten(session_views(self.filtered_sessions@), id_set(self.expanded_sessions@))
        &&& (self.selected is None <==> self.rows@.len() == 0)
        &&& (self.selected matches Some(i) ==> i < self.rows@.len())
        &&& self.widths == widths_of(row_views(self.rows@))
    }

    /// The identity of the selected row, in the model.
    pub open spec fn selected_key_view(&self) -> Option<KeyView> {
        match self.selected {
            Some(i) => Some(key_of_row(self.rows@[i as int]@)),
            None => None,
        }
    }

    /// The expanded session ids, in the model.
    pub open spec fn expanded(&self) -> Set<Seq<char>> {
        id_set(self.expanded_sessions@)
    }

    /// A navigator over `sessions`, unfiltered and collapsed, with the first
    /// row selected.
    pub fn new(sessions: Vec<SessionRow>) -> (r: App)
        ensures
            r.wf(),
            session_views(r.sessions@) == session_views(sessions@),
            session_views(r.filtered_sessions@) == session_views(sessions@),
            r.expanded() == Set::<Seq<char>>::empty(),
            r.search_query@.len() == 0,
            !r.search_mode,
            r.selected == (if sessions@.len() == 0 { None::<usize> } else { Some(0usize) }),
    {
        let filtered = copy_sessions(&sessions);
        let mut app = App {
            sessions,
            filtered_sessions: filtered,
            rows: Vec::new(),
            widths: (0, 0, 0),
            search_query: String::new(),
            search_mode: false,
            expanded_sessions: Vec::new(),
            selected: None,
        };
        proof {
            assert(app.expanded() =~= Set::<Seq<char>>::empty());
        }
        app.rebuild_rows();
        proof {
            lemma_flatten_empty_iff(session_views(app.filtered_sessions@), app.expanded());
        }
        app.ensure_selection();
        app
    }

    /// Rebuilds the rows from the filtered sessions and the expanded set;
    /// the selection index is kept, to be restored by the caller.
    fn rebuild_rows(&mut self)
        ensures
            row_views(final(self).rows@) == flatten(session_views(final(self).filtered_sessions@), final(self).expanded()),
            final(self).widths == widths_of(row_views(final(self).rows@)),
            final(self).sessions == old(self).sessions,
            final(self).filtered_sessions == old(self).filtered_sessions,
            final(self).expanded_sessions == old(self).expanded_sessions,
            final(self).search_query == old(self).search_query,
            final(self).search_mode == old(self).search_mode,
            final(self).selected == old(self).selected,
    {
        let mut rows: Vec<RowItem> = Vec::new();
        let ghost f = session_views(self.filtered_sessions@);
        let ghost e = self.expanded();
        let mut i: usize = 0;
        proof {
            assert(f.subrange(0, 0).len() == 0);
            assert(row_views(rows@) =~= flatten(f.subrange(0, 0), e));
        }
        while i < self.filtered_sessions.len()
            invariant
                i <= self.filtered_sessions@.len(),
                f == session_views(self.filtered_sessions@),
                e == id_set(self.expanded_sessions@),
                row_views(rows@) == flatten(f.subrange(0, i as int), e),
            decreases self.filtered_sessions@.len() - i,
        {
            let session = &self.filtered_sessions[i];
            let ghost before = row_views(rows@);
            rows.push(RowItem::Session(session.duplicate()));
            proof {
                assert(row_views(rows@) =~= before + seq![RowView::Session(f[i as int])]);
            }
            if contains_str(&self.expanded_sessions, &session.id) {
                let mut j: usize = 0;
                while j < session.panes.len()
                    invariant
                        j <= session.panes@.len(),
                        row_views(rows@) == before + seq![RowView::Session(f[i as int])]
                            + pane_rows(f[i as int].panes.subrange(0, j as int)),
                        f[i as int] == session@,
                    decreases session.panes@.len() - j,
                {
                    let ghost mid = row_views(rows@);
                    rows.push(RowItem::Pane(session.panes[j].duplicate()));
                    proof {
                        assert(row_views(rows@) =~= mid.push(RowView::Pane(session.panes@[j as int]@)));
                        assert(pane_rows(f[i as int].panes.subrange(0, j as int + 1)) =~= pane_rows(
                            f[i as int].panes.subrange(0, j as int),
                        ).push(RowView::Pane(session.panes@[j as int]@)));
                    }
                    j = j + 1;
                }
                proof {
                    assert(f[i as int].panes.subrange(0, session.panes@.len() as int) =~= f[i as int].panes);
                }
            }
            proof {
                let next = f.subrange(0, i as int + 1);
                assert(next.drop_last() =~= f.subrange(0, i as int));
                assert(next.last() == f[i as int]);
                assert(row_views(rows@) =~= flatten(f.subrange(0, i as int), e) + block(f[i as int], e));
            }
            i = i + 1;
        }
        proof {
            assert(f.subrange(0, f.len() as int) =~= f);
        }
        self.rows = rows;
        self.widths = measure_widths(&self.rows);
    }

    /// Selects the first row if there are rows and none is selected, and
    /// nothing if there are none.
    fn ensure_selection(&mut self)
        requires
            row_views(old(self).rows@) == flatten(session_views(old(self).filtered_sessions@), old(self).expanded()),
            old(self).widths == widths_of(row_views(old(self).rows@)),
            old(self).selected matches Some(i) ==> i < old(self).rows@.len(),
        ensures
            final(self).wf(),
            final(self).selected == (if old(self).rows@.len() == 0 {
                None
            } else if old(self).selected is None {
                Some(0usize)
            } else {
                old(self).selected
            }),
            final(self).rows == old(self).rows,
            final(self).sessions == old(self).sessions,
            final(self).filtered_sessions == old(self).filtered_sessions,
            final(self).expanded_sessions == old(self).expanded_sessions,
            final(self).search_query == old(self).search_query,
            final(self).search_mode == old(self).search_mode,
    {
        if self.rows.len() == 0 {
            self.selected = None;
        } else if self.selected.is_none() {
            self.selected = Some(0);
        }
    }

    /// Moves the selection down one row, from the last row to the first.
    pub fn next_row(&mut self)
        requires
            old(self).wf(),
        ensures
            final(self).wf(),
            final(self).selected == next_index(old(self).selected, old(self).rows@.len()),
            final(self).rows == old(self).rows,
            final(self).sessions == old(self).sessions,
            final(self).filtered_sessions == old(self).filtered_sessions,
            final(self).expanded_sessions == old(self).expanded_sessions,
            final(self).search_query == old(self).search_query,
            final(self).search_mode == old(self).search_mode,
    {
        if self.rows.len() == 0 {
            return;
        }
        let next = match self.selected {
            Some(i) => if i + 1 < self.rows.len() { i + 1 } else { 0 },
            None => 0,
        };
        self.selected = Some(next);
    }

    /// Moves the selection up one row, from the first row to the last.
    pub fn previous_row(&mut self)
        requires
            old(self).wf(),
        ensures
            final(self).wf(),
            final(self).selected == previous_index(old(self).selected, old(self).rows@.len()),
            final(self).rows == old(self).rows,
            final(self).sessions == old(self).sessions,
            final(self).filtered_sessions == old(self).filtered_sessions,
            final(self).expanded_sessions == old(self).expanded_sessions,
            final(self).search_query == old(self).search_query,
            final(self).search_mode == old(self).search_mode,
    {
        if self.rows.len() == 0 {
            return;
        }
        let prev = match self.selected {
            Some(i) => if i == 0 { self.rows.len() - 1 } else { i - 1 },
            None => self.rows.len() - 1,
        };
        self.selected = Some(prev);
    }

    /// The selected row, if any.
    pub fn selected_row(&self) -> (r: Option<&RowItem>)
        requires
            self.wf(),
        ensures
            match self.selected {
                Some(i) => r == Some(&self.rows@[i as int]),
                None => r is None,
            },
    {
        match self.selected {
            Some(i) => Some(&self.rows[i]),
            None => None,
        }
    }

    /// The identity of the selected row, if any.
    pub fn selected_key(&self) -> (r: Option<RowKey>)
        requires
            self.wf(),
        ensures
            match r {
                Some(k) => self.selected_key_view() == Some(k@),
                None => self.selected_key_view() is None,
            },
    {
        match self.selected {
            Some(i) => Some(self.rows[i].key()),
            None => None,
        }
    }

    /// Selects the row whose identity is `previous`, else the first row, else
    /// nothing.
    pub fn restore_selection(&mut self, previous: Option<RowKey>)
        requires
            row_views(old(self).rows@) == flatten(session_views(old(self).filtered_sessions@), old(self).expanded()),
            old(self).widths == widths_of(row_views(old(self).rows@)),
        ensures
            final(self).wf(),
            final(self).selected matches Some(i) ==> restored(row_views(old(self).rows@), match previous {
                Some(k) => Some(k@),
                None => None,
            }) == Some(i as int),
            final(self).selected is None ==> restored(row_views(old(self).rows@), match previous {
                Some(k) => Some(k@),
                None => None,
            }) is None,
            final(self).rows == old(self).rows,
            final(self).sessions == old(self).sessions,
            final(self).filtered_sessions == old(self).filtered_sessions,
            final(self).expanded_sessions == old(self).expanded_sessions,
            final(self).search_query == old(self).search_query,
            final(self).search_mode == old(self).search_mode,
    {
        let ghost rv = row_views(self.rows@);
        if self.rows.len() == 0 {
            self.selected = None;
            return;
        }
        match previous {
            Some(key) => {
                match find_row(&self.rows, &key) {
                    Some(i) => {
                        self.selected = Some(i);
                    },
                    None => {
                        self.selected = Some(0);
                    },
                }
            },
            None => {
                self.selected = Some(0);
            },
        }
    }

    /// Whether the query asks for filtering, that is, is not blank.
    pub fn needs_filter(&self) -> (r: bool)
        ensures
            r == (trim_of(self.search_query@).len() != 0),
    {
        !is_blank(self.search_query.as_str())
    }

    /// Shows every session, then restores the selection to `previous`.
    pub fn show_all_with(&mut self, previous: Option<RowKey>)
        requires
            old(self).wf(),
        ensures
            final(self).wf(),
            session_views(final(self).filtered_sessions@) == session_views(old(self).sessions@),
            final(self).selected matches Some(i) ==> restored(row_views(final(self).rows@), match previous {
                Some(k) => Some(k@),
                None => None,
            }) == Some(i as int),
            final(self).selected is None ==> restored(row_views(final(self).rows@), match previous {
                Some(k) => Some(k@),
                None => None,
            }) is None,
            final(self).sessions == old(self).sessions,
            final(self).expanded_sessions == old(self).expanded_sessions,
            final(self).search_query == old(self).search_query,
            final(self).search_mode == old(self).search_mode,
    {
        self.filtered_sessions = copy_sessions(&self.sessions);
        self.rebuild_rows();
        self.restore_selection(previous);
    }

    /// The lines handed to the fuzzy filter, one per session in order.
    pub fn candidate_lines(&self) -> (r: Vec<String>)
        ensures
            r@.len() == self.sessions@.len(),
            forall|i: int| 0 <= i < r@.len() ==> (#[trigger] r@[i])@ == candidate_of(self.sessions@[i]@),
    {
        let mut r: Vec<String> = Vec::new();
        let mut i: usize = 0;
        while i < self.sessions.len()
            invariant
                i <= self.sessions@.len(),
                r@.len() == i,
                forall|j: int| 0 <= j < i ==> (#[trigger] r@[j])@ == candidate_of(self.sessions@[j]@),
            decreases self.sessions@.len() - i,
        {
            let row = &self.sessions[i];
            let mut line = row.id.clone();
            push_char(&mut line, '\t');
            line.append(row.name.as_str());
            push_char(&mut line, '\t');
            let status = status_text(row.status.as_ref());
            line.append(status.as_str());
            push_char(&mut line, '\t');
            line.append(row.context.as_str());
            proof {
                assert(line@ =~= candidate_of(row@));
            }
            r.push(line);
            i = i + 1;
        }
        r
    }

    /// Shows the sessions that the filter's result `lines` name, in their
    /// order, then restores the selection to `previous`.
    pub fn apply_ranked_with(&mut self, previous: Option<RowKey>, lines: &Vec<String>)
        requires
            old(self).wf(),
        ensures
            final(self).wf(),
            session_views(final(self).filtered_sessions@) == ranked(session_views(old(self).sessions@), views(lines@)),
            final(self).selected matches Some(i) ==> restored(row_views(final(self).rows@), match previous {
                Some(k) => Some(k@),
                None => None,
            }) == Some(i as int),
            final(self).selected is None ==> restored(row_views(final(self).rows@), match previous {
                Some(k) => Some(k@),
                None => None,
            }) is None,
            final(self).sessions == old(self).sessions,
            final(self).expanded_sessions == old(self).expanded_sessions,
            final(self).search_query == old(self).search_query,
            final(self).search_mode == old(self).search_mode,
    {
        let ghost sv = session_views(self.sessions@);
        let mut filtered: Vec<SessionRow> = Vec::new();
        let mut i: usize = 0;
        proof {
            assert(views(lines@).subrange(0, 0).len() == 0);
        }
        while i < lines.len()
            invariant
                i <= lines@.len(),
                sv == session_views(self.sessions@),
                session_views(filtered@) == ranked(sv, views(lines@).subrange(0, i as int)),
            decreases lines@.len() - i,
        {
            let id = first_field(lines[i].as_str());
            let ghost before = session_views(filtered@);
            proof {
                let next = views(lines@).subrange(0, i as int + 1);
                assert(next.drop_last() =~= views(lines@).subrange(0, i as int));
                assert(next.last() == lines@[i as int]@);
            }
            match find_session(&self.sessions, &id) {
                Some(j) => {
                    filtered.push(self.sessions[j].duplicate());
                    proof {
                        assert(session_views(filtered@) =~= before.push(sv[j as int]));
                    }
                },
                None => {},
            }
            i = i + 1;
        }
        proof {
            assert(views(lines@).subrange(0, lines@.len() as int) =~= views(lines@));
        }
        self.filtered_sessions = filtered;
        self.rebuild_rows();
        self.restore_selection(previous);
    }

    /// Shows the sessions that the filter's result `lines` name, keeping
    /// the selected row selected where it is still shown.
    pub fn apply_ranked(&mut self, lines: &Vec<String>)
        requires
            old(self).wf(),
        ensures
            final(self).wf(),
            session_views(final(self).filtered_sessions@) == ranked(session_views(old(self).sessions@), views(lines@)),
            final(self).selected matches Some(i) ==> restored(row_views(final(self).rows@), old(self).selected_key_view())
                == Some(i as int),
            final(self).selected is None ==> restored(row_views(final(self).rows@), old(self).selected_key_view()) is None,
            old(self).selected_key_view() matches Some(KeyView::Session(id)) ==> ((exists|i: int|
                0 <= i < final(self).filtered_sessions@.len() && #[trigger] final(self).filtered_sessions@[i]@.id == id)
                ==> final(self).selected_key_view() == old(self).selected_key_view()),
            final(self).filtered_sessions@.len() == 0 ==> final(self).selected is None,
            final(self).sessions == old(self).sessions,
            final(self).expanded_sessions == old(self).expanded_sessions,
            final(self).search_query == old(self).search_query,
            final(self).search_mode == old(self).search_mode,
    {
        let previous = self.selected_key();
        self.apply_ranked_with(previous, lines);
        proof {
            let f = session_views(self.filtered_sessions@);
            lemma_flatten_empty_iff(f, self.expanded());
            if let Some(KeyView::Session(id)) = old(self).selected_key_view() {
                if exists|i: int| 0 <= i < self.filtered_sessions@.len() && #[trigger] self.filtered_sessions@[i]@.id == id {
                    let i = choose|i: int| 0 <= i < self.filtered_sessions@.len() && #[trigger] self.filtered_sessions@[i]@.id == id;
                    assert(f[i].id == id);
                    lemma_selection_follows_session(f, self.expanded(), id);
                    let c = self.selected->0 as int;
                    assert(row_views(self.rows@)[c] == self.rows@[c]@);
                }
            }
        }
    }

    /// Re-applies the query: a blank one shows every session at once and
    /// `false` is returned; otherwise `true` is returned and the caller is to
    /// run the fuzzy filter and hand its result to `apply_ranked`.
    pub fn apply_search(&mut self) -> (r: bool)
        requires
            old(self).wf(),
        ensures
            final(self).wf(),
            r == (trim_of(old(self).search_query@).len() != 0),
            r ==> *final(self) == *old(self),
            !r ==> session_views(final(self).filtered_sessions@) == session_views(old(self).sessions@),
            !r ==> (final(self).selected matches Some(i) ==> restored(row_views(final(self).rows@), old(self).selected_key_view())
                == Some(i as int)),
            !r ==> (final(self).selected is None ==> restored(row_views(final(self).rows@), old(self).selected_key_view()) is None),
            final(self).sessions == old(self).sessions,
            final(self).expanded_sessions == old(self).expanded_sessions,
            final(self).search_query == old(self).search_query,
            final(self).search_mode == old(self).search_mode,
    {
        if self.needs_filter() {
            return true;
        }
        let previous = self.selected_key();
        self.show_all_with(previous);
        false
    }

    /// Materializes the pane rows of the selected row's session, keeping the
    /// selected row selected.
    pub fn expand_selected(&mut self)
        requires
            old(self).wf(),
        ensures
            final(self).wf(),
            old(self).selected is None ==> *final(self) == *old(self),
            old(self).selected matches Some(i) ==> final(self).expanded() == old(self).expanded().insert(
                owner_of_row(old(self).rows@[i as int]@),
            ),
            old(self).selected is Some ==> (final(self).selected matches Some(j) && restored(
                row_views(final(self).rows@),
                old(self).selected_key_view(),
            ) == Some(j as int)),
            old(self).selected is Some ==> final(self).selected_key_view() == old(self).selected_key_view(),
            final(self).sessions == old(self).sessions,
            final(self).filtered_sessions == old(self).filtered_sessions,
            final(self).search_query == old(self).search_query,
            final(self).search_mode == old(self).search_mode,
    {
        let previous = self.selected_key();
        let owner = match self.selected_row() {
            Some(row) => row.owner(),
            None => {
                return;
            },
        };
        if !contains_str(&self.expanded_sessions, &owner) {
            self.expanded_sessions.push(owner);
            proof {
                assert(id_set(self.expanded_sessions@) =~= old(self).expanded().insert(owner@)) by {
                    let v = self.expanded_sessions@;
                    let w = old(self).expanded_sessions@;
                    assert forall|p: Seq<char>| #[trigger] id_set(v).contains(p) == old(self).expanded().insert(owner@).contains(p) by {
                        if id_set(w).contains(p) {
                            let a = choose|a: int| 0 <= a < w.len() && #[trigger] w[a]@ == p;
                            assert(v[a] == w[a]);
                        }
                        if id_set(v).contains(p) {
                            let a = choose|a: int| 0 <= a < v.len() && #[trigger] v[a]@ == p;
                            if a < w.len() {
                                assert(w[a] == v[a]);
                            }
                        }
                        if p == owner@ {
                            assert(v[w.len() as int]@ == p);
                        }
                    }
                }
            }
        } else {
            proof {
                assert(id_set(self.expanded_sessions@) =~= old(self).expanded().insert(owner@));
            }
        }
        self.rebuild_rows();
        proof {
            let f = session_views(self.filtered_sessions@);
            lemma_flatten_empty_iff(f, old(self).expanded());
            lemma_flatten_empty_iff(f, self.expanded());
            let sel = old(self).selected->0 as int;
            lemma_flatten_rows_kept(f, old(self).expanded(), self.expanded(), sel);
            let k = choose|k: int| 0 <= k < flatten(f, self.expanded()).len()
                && #[trigger] flatten(f, self.expanded())[k] == flatten(f, old(self).expanded())[sel];
            assert(row_views(old(self).rows@)[sel] == old(self).rows@[sel]@);
            assert(row_views(self.rows@)[k] == self.rows@[k]@);
            lemma_restored_keeps_key(row_views(self.rows@), old(self).selected_key_view()->0, k);
        }
        self.restore_selection(previous);
        proof {
            let c = self.selected->0 as int;
            assert(row_views(self.rows@)[c] == self.rows@[c]@);
        }
    }

    /// Drops the pane rows of the selected row's session, keeping the
    /// selected row selected where it is still shown.
    pub fn collapse_selected(&mut self)
        requires
            old(self).wf(),
        ensures
            final(self).wf(),
            old(self).selected is None ==> *final(self) == *old(self),
            old(self).selected matches Some(i) ==> final(self).expanded() == old(self).expanded().remove(
                owner_of_row(old(self).rows@[i as int]@),
            ),
            old(self).selected is Some ==> (final(self).selected matches Some(j) && restored(
                row_views(final(self).rows@),
                old(self).selected_key_view(),
            ) == Some(j as int)),
            old(self).selected_key_view() matches Some(KeyView::Session(_)) ==> final(self).selected_key_view()
                == old(self).selected_key_view(),
            final(self).sessions == old(self).sessions,
            final(self).filtered_sessions == old(self).filtered_sessions,
            final(self).search_query == old(self).search_query,
            final(self).search_mode == old(self).search_mode,
    {
        let previous = self.selected_key();
        let owner = match self.selected_row() {
            Some(row) => row.owner(),
            None => {
                return;
            },
        };
        self.expanded_sessions = without(&self.expanded_sessions, &owner);
        self.rebuild_rows();
        proof {
            let f = session_views(self.filtered_sessions@);
            lemma_flatten_empty_iff(f, self.expanded());
            lemma_flatten_empty_iff(f, old(self).expanded());
            let sel = old(self).selected->0 as int;
            assert(row_views(old(self).rows@)[sel] == old(self).rows@[sel]@);
            if old(self).rows@[sel]@ is Session {
                lemma_session_rows_come_from_sessions(f, old(self).expanded(), sel);
                let i = choose|i: int| 0 <= i < f.len()
                    && flatten(f, old(self).expanded())[sel] == RowView::Session(#[trigger] f[i]);
                lemma_session_row_shown(f, self.expanded(), i);
                let k = choose|k: int| 0 <= k < flatten(f, self.expanded()).len()
                    && #[trigger] flatten(f, self.expanded())[k] == RowView::Session(f[i]);
                assert(row_views(self.rows@)[k] == self.rows@[k]@);
                lemma_restored_keeps_key(row_views(self.rows@), old(self).selected_key_view()->0, k);
            }
        }
        self.restore_selection(previous);
        proof {
            if self.selected is Some {
                let c = self.selected->0 as int;
                assert(row_views(self.rows@)[c] == self.rows@[c]@);
            }
        }
    }

    /// Replaces the session rows with a fresh build, shows them all, and
    /// restores the selection; the identity that was selected is returned,
    /// for `apply_ranked_with` when the query asks for filtering.
    pub fn reload(&mut self, sessions: Vec<SessionRow>) -> (r: Option<RowKey>)
        requires
            old(self).wf(),
        ensures
            final(self).wf(),
            match r {
                Some(k) => old(self).selected_key_view() == Some(k@),
                None => old(self).selected_key_view() is None,
            },
            session_views(final(self).sessions@) == session_views(sessions@),
            session_views(final(self).filtered_sessions@) == session_views(sessions@),
            final(self).selected matches Some(i) ==> restored(row_views(final(self).rows@), old(self).selected_key_view())
                == Some(i as int),
            final(self).selected is None ==> restored(row_views(final(self).rows@), old(self).selected_key_view()) is None,
            final(self).expanded_sessions == old(self).expanded_sessions,
            final(self).search_query == old(self).search_query,
            final(self).search_mode == old(self).search_mode,
    {
        let previous = self.selected_key();
        let again = match &previous {
            Some(k) => Some(k.duplicate()),
            None => None,
        };
        self.sessions = sessions;
        self.show_all_with(again);
        previous
    }

    /// Handles one event and says what the caller must do next.
    pub fn handle_event(&mut self, event: NavEvent) -> (r: NavAction)
        requires
            old(self).wf(),
        ensures
            final(self).wf(),
            final(self).sessions == old(self).sessions,
            event is Quit ==> r is Exit && *final(self) == *old(self),
            event is Refresh ==> r is Refresh && *final(self) == *old(self),
            event is Confirm ==> *final(self) == *old(self) && match old(self).selected {
                Some(i) => r matches NavAction::Switch(id) && id@ == owner_of_row(old(self).rows@[i as int]@),
                None => r is Exit,
            },
            event is LeaveSearch ==> r is Continue && !final(self).search_mode
                && final(self).rows == old(self).rows && final(self).selected == old(self).selected
                && final(self).filtered_sessions == old(self).filtered_sessions,
            event is Down ==> r is Continue && final(self).rows == old(self).rows
                && final(self).selected == next_index(old(self).selected, old(self).rows@.len()),
            event is Up ==> r is Continue && final(self).rows == old(self).rows
                && final(self).selected == previous_index(old(self).selected, old(self).rows@.len()),
            event is StartSearch ==> final(self).search_mode && final(self).search_query == old(self).search_query,
            event matches NavEvent::Input(c) ==> final(self).search_query@ == old(self).search_query@.push(c),
            event is Erase ==> final(self).search_query@ == (if old(self).search_query@.len() == 0 {
                old(self).search_query@
            } else {
                old(self).search_query@.drop_last()
            }),
            (event is StartSearch || event is Input || event is Erase) ==> (
                (r is Filter <==> trim_of(final(self).search_query@).len() != 0)
                && (r is Continue <==> trim_of(final(self).search_query@).len() == 0)
                && (r is Continue ==> session_views(final(self).filtered_sessions@) == session_views(old(self).sessions@))),
            (event is Expand || event is Collapse) ==> r is Continue,
            event is Expand ==> (old(self).selected matches Some(i) ==> final(self).expanded() == old(self).expanded().insert(
                owner_of_row(old(self).rows@[i as int]@),
            )),
            event is Collapse ==> (old(self).selected matches Some(i) ==> final(self).expanded() == old(self).expanded().remove(
                owner_of_row(old(self).rows@[i as int]@),
            )),
    {
        match event {
            NavEvent::Down => {
                self.next_row();
                NavAction::Continue
            },
            NavEvent::Up => {
                self.previous_row();
                NavAction::Continue
            },
            NavEvent::StartSearch => {
                self.search_mode = true;
                if self.apply_search() {
                    NavAction::Filter
                } else {
                    NavAction::Continue
                }
            },
            NavEvent::Input(c) => {
                push_char(&mut self.search_query, c);
                if self.apply_search() {
                    NavAction::Filter
                } else {
                    NavAction::Continue
                }
            },
            NavEvent::Erase => {
                let _ = pop_char(&mut self.search_query);
                if self.apply_search() {
                    NavAction::Filter
                } else {
                    NavAction::Continue
                }
            },
            NavEvent::LeaveSearch => {
                self.search_mode = false;
                NavAction::Continue
            },
            NavEvent::Confirm => match self.selected_row() {
                Some(row) => NavAction::Switch(row.owner()),
                None => NavAction::Exit,
            },
            NavEvent::Expand => {
                self.expand_selected();
                NavAction::Continue
            },
            NavEvent::Collapse => {
                self.collapse_selected();
                NavAction::Continue
            },
            NavEvent::Refresh => NavAction::Refresh,
            NavEvent::Quit => NavAction::Exit,
        }
    }
}

/// The index of the first row with identity `key`, if any.
fn find_row(rows: &Vec<RowItem>, key: &RowKey) -> (r: Option<usize>)
    ensures
        match r {
            Some(i) => first_with_key(row_views(rows@), key@, i as int)
                && forall|c: int| first_with_key(row_views(rows@), key@, c) ==> c == i,
            None => !exists|c: int| first_with_key(row_views(rows@), key@, c),
        },
{
    let ghost rv = row_views(rows@);
    let mut i: usize = 0;
    while i < rows.len()
        invariant
            i <= rows@.len(),
            rv == row_views(rows@),
            forall|j: int| 0 <= j < i ==> key_of_row(#[trigger] rv[j]) != key@,
        decreases rows@.len() - i,
    {
        if rows[i].key().same(key) {
            proof {
                assert(first_with_key(rv, key@, i as int));
            }
            return Some(i);
        }
        i = i + 1;
    }
    None
}

/// The index of the first session with id `id`, if any.
fn find_session(sessions: &Vec<SessionRow>, id: &String) -> (r: Option<usize>)
    ensures
        match r {
            Some(j) => first_with_session_id(session_views(sessions@), id@, j as int)
                && forall|c: int| first_with_session_id(session_views(sessions@), id@, c) ==> c == j,
            None => !exists|c: int| first_with_session_id(session_views(sessions@), id@, c),
        },
{
    let ghost sv = session_views(sessions@);
    let mut j: usize = 0;
    while j < sessions.len()
        invariant
            j <= sessions@.len(),
            sv == session_views(sessions@),
            forall|a: int| 0 <= a < j ==> (#[trigger] sv[a]).id != id@,
        decreases sessions@.len() - j,
    {
        if sessions[j].id == *id {
            proof {
                assert(first_with_session_id(sv, id@, j as int));
            }
            return Some(j);
        }
        j = j + 1;
    }
    None
}

/// `v` without any occurrence of `s`.
fn without(v: &Vec<String>, s: &String) -> (r: Vec<String>)
    ensures
        id_set(r@) == id_set(v@).remove(s@),
{
    let mut r: Vec<String> = Vec::new();
    let mut i: usize = 0;
    while i < v.len()
        invariant
            i <= v@.len(),
            forall|a: int| 0 <= a < r@.len() ==> (#[trigger] r@[a])@ != s@ && id_set(v@).contains(r@[a]@),
            forall|a: int| 0 <= a < i && v@[a]@ != s@ ==> id_set(r@).contains(#[trigger] v@[a]@),
        decreases v@.len() - i,
    {
        if v[i] != *s {
            let ghost before = r@;
            r.push(v[i].clone());
            proof {
                assert(r@[before.len() as int]@ == v@[i as int]@);
                assert forall|a: int| 0 <= a < i + 1 && v@[a]@ != s@ implies id_set(r@).contains(#[trigger] v@[a]@) by {
                    if a < i {
                        let b = choose|b: int| 0 <= b < before.len() && #[trigger] before[b]@ == v@[a]@;
                        assert(r@[b] == before[b]);
                    }
                }
            }
        }
        i = i + 1;
    }
    proof {
        assert forall|p: Seq<char>| #[trigger] id_set(r@).contains(p) == id_set(v@).remove(s@).contains(p) by {
            if id_set(r@).contains(p) {
                let a = choose|a: int| 0 <= a < r@.len() && #[trigger] r@[a]@ == p;
            }
            if id_set(v@).remove(s@).contains(p) {
                let a = choose|a: int| 0 <= a < v@.len() && #[trigger] v@[a]@ == p;
            }
        }
        assert(id_set(r@) =~= id_set(v@).remove(s@));
    }
    r
}

/// Copies a list of session rows.
fn copy_sessions(v: &Vec<SessionRow>) -> (r: Vec<SessionRow>)
    ensures
        session_views(r@) == session_views(v@),
{
    let mut r: Vec<SessionRow> = Vec::new();
    let mut i: usize = 0;
    while i < v.len()
        invariant
            i <= v@.len(),
            r@.len() == i,
            forall|j: int| 0 <= j < i ==> (#[trigger] r@[j])@ == v@[j]@,
        decreases v@.len() - i,
    {
        r.push(v[i].duplicate());
        i = i + 1;
    }
    proof {
        assert(session_views(r@) =~= session_views(v@));
    }
    r
}

/// The rows are empty exactly when there are no sessions.
pub proof fn lemma_flatten_empty_iff(f: Seq<SessionRowView>, e: Set<Seq<char>>)
    ensures
        (flatten(f, e).len() == 0) == (f.len() == 0),
    decreases f.len(),
{
    if f.len() > 0 {
        lemma_flatten_empty_iff(f.drop_last(), e);
    }
}

} // verus!
