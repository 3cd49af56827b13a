use jkl::key::session_key;
use jkl::navigator::{App, NavAction, NavEvent};
use jkl::rows::{
    build_sessions, measure_widths, normalize_field, row_context, row_label, row_status, status_text,
    PaneRow, RowItem, RowKey, SessionRow,
};
use jkl::selector::{current_pane_status, pane_status_options, PaneSelector, SelectorAction, SelectorEvent};
use jkl::status::AgentStatus;
use jkl::store::{upsert_pane, upsert_session, Store};
use jkl::tmux::{TmuxPane, TmuxSession};

fn session(id: &str, name: &str, panes: &[&str]) -> SessionRow {
    SessionRow {
        id: id.to_string(),
        name: name.to_string(),
        status: None,
        context: "-".to_string(),
        panes: panes
            .iter()
            .map(|p| PaneRow { id: p.to_string(), status: None, session_id: id.to_string() })
            .collect(),
    }
}

fn labels(app: &App) -> Vec<String> {
    app.rows.iter().map(row_label).collect()
}

fn selected_label(app: &App) -> Option<String> {
    app.selected_row().map(row_label)
}

fn abc() -> App {
    App::new(vec![session("$1", "A", &[]), session("$2", "B", &[]), session("$3", "C", &[])])
}

#[test]
fn filter_keeps_selected_row() {
    let mut app = abc();
    assert_eq!(selected_label(&app).as_deref(), Some("A"));
    app.apply_ranked(&vec!["$3\tC\t-\t-".to_string(), "$1\tA\t-\t-".to_string()]);
    assert_eq!(labels(&app), vec!["C".to_string(), "A".to_string()]);
    assert_eq!(app.selected, Some(1));
    assert_eq!(selected_label(&app).as_deref(), Some("A"));
}

#[test]
fn filter_matching_nothing_selects_nothing() {
    let mut app = abc();
    app.apply_ranked(&vec![]);
    assert!(app.rows.is_empty());
    assert_eq!(app.selected, None);
    assert!(matches!(app.handle_event(NavEvent::Confirm), NavAction::Exit));
}

#[test]
fn clearing_query_restores_all_rows() {
    let mut app = abc();
    assert!(matches!(app.handle_event(NavEvent::StartSearch), NavAction::Continue));
    assert!(app.search_mode);
    assert!(matches!(app.handle_event(NavEvent::Input('b')), NavAction::Filter));
    assert_eq!(app.search_query, "b");
    app.apply_ranked(&vec!["$2\tB\t-\t-".to_string()]);
    assert_eq!(labels(&app), vec!["B".to_string()]);
    assert!(matches!(app.handle_event(NavEvent::Erase), NavAction::Continue));
    assert_eq!(app.search_query, "");
    assert_eq!(labels(&app), vec!["A".to_string(), "B".to_string(), "C".to_string()]);
    assert_eq!(selected_label(&app).as_deref(), Some("B"));
}

#[test]
fn blank_query_needs_no_filter() {
    let mut app = abc();
    assert!(matches!(app.handle_event(NavEvent::Input(' ')), NavAction::Continue));
    assert!(!app.needs_filter());
    assert_eq!(app.rows.len(), 3);
}

#[test]
fn leave_search_keeps_filtered_view() {
    let mut app = abc();
    app.handle_event(NavEvent::StartSearch);
    app.handle_event(NavEvent::Input('c'));
    app.apply_ranked(&vec!["$3\tC\t-\t-".to_string()]);
    assert!(matches!(app.handle_event(NavEvent::LeaveSearch), NavAction::Continue));
    assert!(!app.search_mode);
    assert_eq!(labels(&app), vec!["C".to_string()]);
}

#[test]
fn movement_wraps_around() {
    let mut app = abc();
    app.handle_event(NavEvent::Up);
    assert_eq!(app.selected, Some(2));
    app.handle_event(NavEvent::Down);
    assert_eq!(app.selected, Some(0));
    app.handle_event(NavEvent::Down);
    assert_eq!(app.selected, Some(1));
}

#[test]
fn expand_inserts_sorted_panes_after_session() {
    let mut store = Store::new();
    upsert_pane(&mut store, "S", "%1", Some(AgentStatus::Working));
    let sessions = vec![
        TmuxSession { id: "$1".to_string(), name: "R".to_string() },
        TmuxSession { id: "$2".to_string(), name: "S".to_string() },
        TmuxSession { id: "$3".to_string(), name: "T".to_string() },
    ];
    let panes = vec![
        TmuxPane { session_name: "S".to_string(), pane_id: "%2".to_string() },
        TmuxPane { session_name: "S".to_string(), pane_id: "%1".to_string() },
    ];
    let mut app = App::new(build_sessions(sessions, &store, panes));
    app.handle_event(NavEvent::Down);
    assert_eq!(selected_label(&app).as_deref(), Some("S"));
    assert!(matches!(app.handle_event(NavEvent::Expand), NavAction::Continue));
    assert_eq!(
        labels(&app),
        vec!["R".to_string(), "S".to_string(), "  \u{2514}\u{2500} %1".to_string(), "  \u{2514}\u{2500} %2".to_string(), "T".to_string()]
    );
    assert_eq!(selected_label(&app).as_deref(), Some("S"));
    assert_eq!(row_status(&app.rows[2]), Some(AgentStatus::Working));
    assert_eq!(row_status(&app.rows[3]), None);
    app.handle_event(NavEvent::Collapse);
    assert_eq!(labels(&app), vec!["R".to_string(), "S".to_string(), "T".to_string()]);
    assert_eq!(selected_label(&app).as_deref(), Some("S"));
}

#[test]
fn collapse_from_pane_row_falls_back_to_first() {
    let mut app = App::new(vec![session("$1", "A", &["%1"]), session("$2", "B", &[])]);
    app.handle_event(NavEvent::Expand);
    app.handle_event(NavEvent::Down);
    assert!(matches!(app.selected_key(), Some(RowKey::Pane { .. })));
    app.handle_event(NavEvent::Collapse);
    assert_eq!(app.selected, Some(0));
    assert_eq!(labels(&app), vec!["A".to_string(), "B".to_string()]);
}

#[test]
fn confirm_switches_to_owner() {
    let mut app = App::new(vec![session("$7", "A", &["%1"])]);
    app.handle_event(NavEvent::Expand);
    app.handle_event(NavEvent::Down);
    match app.handle_event(NavEvent::Confirm) {
        NavAction::Switch(id) => assert_eq!(id, "$7"),
        _ => panic!("expected a switch"),
    }
    assert!(matches!(app.handle_event(NavEvent::Quit), NavAction::Exit));
    assert!(matches!(app.handle_event(NavEvent::Refresh), NavAction::Refresh));
}

#[test]
fn reload_keeps_selection() {
    let mut app = abc();
    app.handle_event(NavEvent::Down);
    app.handle_event(NavEvent::Down);
    let previous = app.reload(vec![session("$3", "C", &[]), session("$4", "D", &[])]);
    assert!(matches!(previous, Some(RowKey::Session(ref id)) if id == "$3"));
    assert_eq!(app.selected, Some(0));
    assert_eq!(labels(&app), vec!["C".to_string(), "D".to_string()]);
}

#[test]
fn candidate_lines_are_tab_separated() {
    let mut s = session("$1", "main", &[]);
    s.status = Some(AgentStatus::Waiting);
    s.context = "review".to_string();
    let app = App::new(vec![s]);
    assert_eq!(app.candidate_lines(), vec!["$1\tmain\twaiting\treview".to_string()]);
}

#[test]
fn build_sessions_reads_store() {
    let mut store = Store::new();
    upsert_session(&mut store, "main".to_string(), None, Some(AgentStatus::Done), Some("  ship it  ".to_string()));
    let rows = build_sessions(
        vec![TmuxSession { id: "$1".to_string(), name: "main".to_string() }, TmuxSession { id: "$2".to_string(), name: "other".to_string() }],
        &store,
        vec![],
    );
    assert_eq!(rows.len(), 2);
    assert_eq!(rows[0].status, Some(AgentStatus::Done));
    assert_eq!(rows[0].context, "ship it");
    assert_eq!(rows[1].status, None);
    assert_eq!(rows[1].context, "-");
}

#[test]
fn cell_texts() {
    assert_eq!(normalize_field(None), "-");
    assert_eq!(normalize_field(Some(&"   ".to_string())), "-");
    assert_eq!(normalize_field(Some(&"  x ".to_string())), "x");
    assert_eq!(status_text(None), "-");
    assert_eq!(status_text(Some(&AgentStatus::Idle)), "idle");
    let pane = RowItem::Pane(PaneRow { id: "%1".to_string(), status: None, session_id: "$1".to_string() });
    assert_eq!(row_context(&pane), "-");
    assert_eq!(row_label(&pane), "  \u{2514}\u{2500} %1");
}

#[test]
fn widths_cover_headers_and_cells() {
    assert_eq!(measure_widths(&vec![]), (7, 6, 7));
    let mut s = session("$1", "a-long-session-name", &[]);
    s.status = Some(AgentStatus::Working);
    s.context = "\u{65e5}\u{672c}".to_string();
    let rows = vec![RowItem::Session(s)];
    assert_eq!(measure_widths(&rows), (19, 7, 7));
}

#[test]
fn selector_starts_on_current_status() {
    assert_eq!(PaneSelector::new("s".to_string(), "%1".to_string(), Some(AgentStatus::Idle)).selected, 2);
    assert_eq!(PaneSelector::new("s".to_string(), "%1".to_string(), None).selected, 0);
    let labels: Vec<String> = pane_status_options().into_iter().map(|o| o.0).collect();
    assert_eq!(labels, vec!["working", "waiting", "idle", "done", "none"]);
}

#[test]
fn selector_wraps_and_commits() {
    let mut store = Store::new();
    upsert_pane(&mut store, "s", "%1", Some(AgentStatus::Done));
    let current = current_pane_status(&store, "s", "%1");
    assert_eq!(current, Some(AgentStatus::Done));
    let mut sel = PaneSelector::new("s".to_string(), "%1".to_string(), current);
    assert_eq!(sel.selected, 3);
    sel.handle_event(SelectorEvent::Right);
    sel.handle_event(SelectorEvent::Right);
    assert_eq!(sel.selected, 0);
    sel.handle_event(SelectorEvent::Left);
    assert_eq!(sel.selected, 4);
    match sel.handle_event(SelectorEvent::Confirm) {
        SelectorAction::Commit(status) => {
            assert_eq!(status, Some(AgentStatus::Unset));
            sel.commit(&mut store, status);
        }
        _ => panic!("expected a commit"),
    }
    assert_eq!(current_pane_status(&store, "s", "%1"), Some(AgentStatus::Unset));
    assert!(store.get(&session_key("s")).is_some());
    assert!(matches!(sel.handle_event(SelectorEvent::Cancel), SelectorAction::Exit));
}
