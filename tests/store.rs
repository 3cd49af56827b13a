use jkl::key::session_key;
use jkl::status::AgentStatus;
use jkl::store::{
    merge_context, normalize_context_keys, prune_panes, rename_session, upsert_pane,
    upsert_session, upsert_session_at, LivePanes, PaneContext, SessionContext, Store,
};
use jkl::commands::{handle_rename, handle_upsert};

fn reload(store: &Store) -> Store {
    let mut entries = Vec::new();
    for (k, r) in store.entries.iter() {
        entries.push((k.clone(), r.duplicate()));
    }
    normalize_context_keys(entries)
}

fn record<'a>(store: &'a Store, name: &str) -> &'a SessionContext {
    store.get(&session_key(name)).expect("record present")
}

fn pane_ids(rec: &SessionContext) -> Vec<String> {
    let mut ids: Vec<String> = rec.panes.iter().map(|p| p.0.clone()).collect();
    ids.sort();
    ids
}

#[test]
fn upsert_creates_single_record() {
    let mut store = Store::new();
    let key = upsert_session(&mut store, "build-agent".to_string(), None, Some(AgentStatus::Working), None);
    assert_eq!(key, session_key("build-agent"));
    let loaded = reload(&store);
    assert_eq!(loaded.entries.len(), 1);
    let rec = record(&loaded, "build-agent");
    assert_eq!(rec.session_name.as_deref(), Some("build-agent"));
    assert_eq!(rec.status, Some(AgentStatus::Working));
    assert_eq!(rec.session_id, None);
    assert_eq!(rec.context, None);
}

#[test]
fn upsert_twice_keeps_single_record() {
    let mut store = Store::new();
    upsert_session(&mut store, "build-agent".to_string(), None, Some(AgentStatus::Working), None);
    upsert_session(&mut store, "build-agent".to_string(), None, Some(AgentStatus::Working), None);
    let loaded = reload(&store);
    assert_eq!(loaded.entries.len(), 1);
    let rec = record(&loaded, "build-agent");
    assert_eq!(rec.status, Some(AgentStatus::Working));
}

#[test]
fn session_id_last_writer_wins() {
    let mut store = Store::new();
    upsert_session(&mut store, "s".to_string(), Some("$1".to_string()), None, None);
    upsert_session(&mut store, "s".to_string(), Some("$2".to_string()), None, None);
    assert_eq!(store.entries.len(), 1);
    assert_eq!(record(&store, "s").session_id.as_deref(), Some("$2"));
}

#[test]
fn upsert_fills_only_given_fields() {
    let mut store = Store::new();
    upsert_session(&mut store, "s".to_string(), Some("$1".to_string()), Some(AgentStatus::Idle), Some("ctx".to_string()));
    upsert_session(&mut store, "s".to_string(), None, None, None);
    let rec = record(&store, "s");
    assert_eq!(rec.session_id.as_deref(), Some("$1"));
    assert_eq!(rec.status, Some(AgentStatus::Idle));
    assert_eq!(rec.context.as_deref(), Some("ctx"));
}

#[test]
fn upsert_at_uses_given_key() {
    let mut store = Store::new();
    upsert_session_at(&mut store, "k1".to_string(), "s".to_string(), None, Some(AgentStatus::Done), None);
    let rec = store.get(&"k1".to_string()).expect("record under k1");
    assert_eq!(rec.session_name.as_deref(), Some("s"));
    assert_eq!(rec.status, Some(AgentStatus::Done));
}

#[test]
fn rename_merges_and_relocates() {
    let mut store = Store::new();
    upsert_session(&mut store, "old".to_string(), Some("$3".to_string()), Some(AgentStatus::Working), Some("building".to_string()));
    rename_session(&mut store, "$3", "new");
    assert!(store.get(&session_key("old")).is_none());
    assert_eq!(store.entries.len(), 1);
    let rec = record(&store, "new");
    assert_eq!(rec.session_name.as_deref(), Some("new"));
    assert_eq!(rec.session_id.as_deref(), Some("$3"));
    assert_eq!(rec.status, Some(AgentStatus::Working));
    assert_eq!(rec.context.as_deref(), Some("building"));
}

#[test]
fn rename_merge_keeps_target_fields() {
    let mut store = Store::new();
    upsert_session(&mut store, "old".to_string(), Some("$3".to_string()), Some(AgentStatus::Working), Some("building".to_string()));
    upsert_session(&mut store, "new".to_string(), None, Some(AgentStatus::Idle), None);
    rename_session(&mut store, "$3", "new");
    assert_eq!(store.entries.len(), 1);
    let rec = record(&store, "new");
    assert_eq!(rec.status, Some(AgentStatus::Idle));
    assert_eq!(rec.context.as_deref(), Some("building"));
    assert_eq!(rec.session_id.as_deref(), Some("$3"));
}

#[test]
fn rename_unknown_id_creates_record() {
    let mut store = Store::new();
    rename_session(&mut store, "$9", "fresh");
    let rec = record(&store, "fresh");
    assert_eq!(rec.session_name.as_deref(), Some("fresh"));
    assert_eq!(rec.session_id.as_deref(), Some("$9"));
    assert_eq!(rec.status, None);
    assert!(rec.panes.is_empty());
}

fn live(entries: &[(&str, &[&str])]) -> LivePanes {
    LivePanes {
        sessions: entries
            .iter()
            .map(|(n, ids)| (n.to_string(), ids.iter().map(|i| i.to_string()).collect()))
            .collect(),
    }
}

#[test]
fn prune_is_pane_and_name_scoped() {
    let mut store = Store::new();
    for p in ["%1", "%2", "%3"] {
        upsert_pane(&mut store, "sess1", p, Some(AgentStatus::Working));
    }
    upsert_pane(&mut store, "sess2", "%7", Some(AgentStatus::Done));
    upsert_session(&mut store, "sess2".to_string(), None, Some(AgentStatus::Idle), Some("keep".to_string()));
    prune_panes(&mut store, &live(&[("sess1", &["%1", "%3"])]));
    assert_eq!(pane_ids(record(&store, "sess1")), vec!["%1".to_string(), "%3".to_string()]);
    let other = record(&store, "sess2");
    assert_eq!(pane_ids(other), vec!["%7".to_string()]);
    assert_eq!(other.status, Some(AgentStatus::Idle));
    assert_eq!(other.context.as_deref(), Some("keep"));
    assert_eq!(store.entries.len(), 2);
}

#[test]
fn prune_keeps_scalar_fields() {
    let mut store = Store::new();
    upsert_session(&mut store, "sess1".to_string(), Some("$1".to_string()), Some(AgentStatus::Waiting), Some("c".to_string()));
    upsert_pane(&mut store, "sess1", "%1", None);
    prune_panes(&mut store, &live(&[("sess1", &[])]));
    let rec = record(&store, "sess1");
    assert!(rec.panes.is_empty());
    assert_eq!(rec.session_id.as_deref(), Some("$1"));
    assert_eq!(rec.status, Some(AgentStatus::Waiting));
}

#[test]
fn upsert_pane_sets_status_and_name() {
    let mut store = Store::new();
    upsert_pane(&mut store, "s", "%4", Some(AgentStatus::Unset));
    let rec = record(&store, "s");
    assert_eq!(rec.session_name.as_deref(), Some("s"));
    assert_eq!(rec.panes.len(), 1);
    assert_eq!(rec.panes[0].1.status, Some(AgentStatus::Unset));
    upsert_pane(&mut store, "s", "%4", None);
    assert_eq!(record(&store, "s").panes[0].1.status, None);
}

fn bare(name: Option<&str>) -> SessionContext {
    let mut r = SessionContext::new();
    r.session_name = name.map(|n| n.to_string());
    r
}

#[test]
fn merge_is_additive() {
    let mut target = bare(Some("a"));
    target.status = Some(AgentStatus::Idle);
    target.set_pane("%1".to_string(), None);
    target.set_pane("%2".to_string(), Some(AgentStatus::Done));
    let mut source = bare(Some("b"));
    source.status = Some(AgentStatus::Working);
    source.context = Some("from source".to_string());
    source.session_id = Some("$5".to_string());
    source.set_pane("%1".to_string(), Some(AgentStatus::Waiting));
    source.set_pane("%2".to_string(), Some(AgentStatus::Idle));
    source.set_pane("%3".to_string(), Some(AgentStatus::Working));
    merge_context(&mut target, source);
    assert_eq!(target.session_name.as_deref(), Some("a"));
    assert_eq!(target.status, Some(AgentStatus::Idle));
    assert_eq!(target.context.as_deref(), Some("from source"));
    assert_eq!(target.session_id.as_deref(), Some("$5"));
    let status_of = |id: &str| target.panes.iter().find(|p| p.0 == id).map(|p| p.1);
    assert_eq!(status_of("%1"), Some(PaneContext { status: Some(AgentStatus::Waiting) }));
    assert_eq!(status_of("%2"), Some(PaneContext { status: Some(AgentStatus::Done) }));
    assert_eq!(status_of("%3"), Some(PaneContext { status: Some(AgentStatus::Working) }));
}

#[test]
fn load_rekeys_stale_entries() {
    let mut stale = bare(Some("alpha"));
    stale.status = Some(AgentStatus::Working);
    let mut current = bare(Some("alpha"));
    current.context = Some("ctx".to_string());
    let unnamed = bare(None);
    let store = normalize_context_keys(vec![
        ("stale-key".to_string(), stale),
        (session_key("alpha"), current),
        ("orphan".to_string(), unnamed),
    ]);
    assert_eq!(store.entries.len(), 2);
    assert!(store.get(&"stale-key".to_string()).is_none());
    assert!(store.get(&"orphan".to_string()).is_some());
    let rec = record(&store, "alpha");
    assert_eq!(rec.status, Some(AgentStatus::Working));
    assert_eq!(rec.context.as_deref(), Some("ctx"));
}

#[test]
fn handle_upsert_rejects_bad_status() {
    let mut store = Store::new();
    let r = handle_upsert(&mut store, vec!["s".to_string()], None, None, Some("busy".to_string()), None);
    let e = r.expect_err("invalid status");
    assert_eq!(e.message(), "Invalid status: busy");
    assert!(store.entries.is_empty());
}

#[test]
fn handle_upsert_joins_and_routes() {
    let mut store = Store::new();
    let r = handle_upsert(
        &mut store,
        vec!["my".to_string(), "agent".to_string()],
        Some("$2".to_string()),
        None,
        Some(" WAITING ".to_string()),
        Some(vec!["two".to_string(), "words".to_string()]),
    );
    assert!(r.is_ok());
    let rec = record(&store, "my agent");
    assert_eq!(rec.status, Some(AgentStatus::Waiting));
    assert_eq!(rec.context.as_deref(), Some("two words"));
    let r = handle_upsert(&mut store, vec!["my".to_string(), "agent".to_string()], None, Some("%1".to_string()), Some("done".to_string()), None);
    assert!(r.is_ok());
    let rec = record(&store, "my agent");
    assert_eq!(rec.panes.len(), 1);
    assert_eq!(rec.panes[0].1.status, Some(AgentStatus::Done));
}

#[test]
fn handle_rename_joins_name() {
    let mut store = Store::new();
    upsert_session(&mut store, "x".to_string(), Some("$4".to_string()), None, None);
    handle_rename(&mut store, "$4", vec!["new".to_string(), "name".to_string()]);
    assert!(store.get(&session_key("x")).is_none());
    assert_eq!(record(&store, "new name").session_id.as_deref(), Some("$4"));
}
