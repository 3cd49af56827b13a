use jkl::commands::{handle_tui, join_tokens, MissingArgument};
use jkl::key::session_key;
use jkl::order::{sort_ids, str_le};
use jkl::status::AgentStatus;
use jkl::text::{first_field, is_blank, split_tab_pair};
use jkl::tmux::{collect_live_panes, parse_pane_line, parse_session_line, TmuxPane};

#[test]
fn key_is_deterministic_hex() {
    let a = session_key("build-agent");
    assert_eq!(a, session_key("build-agent"));
    assert_ne!(a, session_key("build-agent2"));
    assert_eq!(a.len(), 64);
    assert!(a.chars().all(|c| c.is_ascii_digit() || ('a'..='f').contains(&c)));
}

#[test]
fn key_of_empty_name() {
    assert_eq!(session_key(""), "af1349b9f5f9a1a6a0404dea36dcc9499bcb25c9adc112b7cc9a93cae41f3262");
}

#[test]
fn status_parse_is_lenient() {
    assert_eq!(AgentStatus::parse(" Working ").ok(), Some(AgentStatus::Working));
    assert_eq!(AgentStatus::parse("NONE").ok(), Some(AgentStatus::Unset));
    assert_eq!(AgentStatus::parse("idle").ok(), Some(AgentStatus::Idle));
    assert_eq!("Done".parse::<AgentStatus>().ok(), Some(AgentStatus::Done));
}

#[test]
fn status_parse_rejects_unknown() {
    let e = AgentStatus::parse("  Busy ").err().expect("rejected");
    assert_eq!(e.message(), "Invalid status: busy");
}

#[test]
fn status_tokens() {
    assert_eq!(AgentStatus::Idle.token(), "idle");
    assert_eq!(AgentStatus::Working.token(), "working");
    assert_eq!(AgentStatus::Waiting.token(), "waiting");
    assert_eq!(AgentStatus::Done.token(), "done");
    assert_eq!(AgentStatus::Unset.token(), "none");
}

#[test]
fn blank_text() {
    assert!(is_blank(" \t "));
    assert!(is_blank(""));
    assert!(!is_blank(" a "));
}

#[test]
fn join_tokens_uses_spaces() {
    assert_eq!(join_tokens(vec![]), "");
    assert_eq!(join_tokens(vec!["one".to_string()]), "one");
    assert_eq!(join_tokens(vec!["a".to_string(), "b".to_string(), "c".to_string()]), "a b c");
}

#[test]
fn tab_fields() {
    assert_eq!(first_field("$1\tmain\tidle"), "$1");
    assert_eq!(first_field("nodelim"), "nodelim");
    assert_eq!(split_tab_pair(" a \t b c "), Some(("a".to_string(), "b c".to_string())));
    assert_eq!(split_tab_pair("a\t  "), None);
    assert_eq!(split_tab_pair("a b"), None);
}

#[test]
fn listing_lines() {
    let s = parse_session_line("$1\tmain").expect("session");
    assert_eq!((s.id.as_str(), s.name.as_str()), ("$1", "main"));
    assert!(parse_session_line("\tmain").is_none());
    let p = parse_pane_line("main\t%3\textra").expect("pane");
    assert_eq!((p.session_name.as_str(), p.pane_id.as_str()), ("main", "%3\textra"));
}

#[test]
fn live_panes_grouped_by_session() {
    let pane = |s: &str, p: &str| TmuxPane { session_name: s.to_string(), pane_id: p.to_string() };
    let live = collect_live_panes(&vec![pane("a", "%1"), pane("b", "%2"), pane("a", "%3")]);
    assert_eq!(live.sessions.len(), 2);
    let a = live.sessions.iter().find(|e| e.0 == "a").expect("a");
    assert_eq!(a.1, vec!["%1".to_string(), "%3".to_string()]);
}

#[test]
fn ids_sort_ascending() {
    let v = vec!["%2".to_string(), "%10".to_string(), "%1".to_string()];
    assert_eq!(sort_ids(v), vec!["%1".to_string(), "%10".to_string(), "%2".to_string()]);
    assert!(str_le("ab", "abc"));
    assert!(!str_le("b", "abc"));
    assert!(str_le("", ""));
}

#[test]
fn tui_arguments() {
    assert_eq!(handle_tui(false, None, None).ok(), Some(None));
    assert_eq!(handle_tui(true, None, Some("%1".to_string())).err(), Some(MissingArgument::SessionName));
    assert_eq!(handle_tui(true, Some(vec!["s".to_string()]), None).err(), Some(MissingArgument::PaneId));
    assert_eq!(
        handle_tui(true, Some(vec!["my".to_string(), "s".to_string()]), Some("%1".to_string())).ok(),
        Some(Some(("my s".to_string(), "%1".to_string())))
    );
    assert_eq!(MissingArgument::PaneId.message(), "Missing --pane-id");
}
