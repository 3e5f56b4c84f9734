use kubetui::discovery::{ApiResourceEntry, Discovery, GroupResources};
use kubetui::refresh::{plan_frame, FrameOutcome, RenderedTable, Screen};
use kubetui::state::{Action, Editing, Key, KeyPress, Tab, UIState};
use kubetui::table::ColumnDefinition;

fn plain(key: Key) -> KeyPress {
    KeyPress { key, control: false }
}

fn ctrl(c: char) -> KeyPress {
    KeyPress { key: Key::Char(c), control: true }
}

fn typed(ui: &mut UIState, text: &str) {
    for c in text.chars() {
        assert_eq!(ui.handle_key(plain(Key::Char(c))), Action::Continue);
    }
}

#[test]
fn default_state_has_one_default_tab() {
    let ui = UIState::default();
    assert_eq!(ui.tabs.len(), 1);
    assert_eq!(ui.active_tab_idx, 0);
    assert!(ui.editing.is_none());
    let t = ui.active_tab();
    assert_eq!(t.namespace.as_deref(), Some("default"));
    assert_eq!(t.resource, "pods");
    assert_eq!(t.filter, "");
}

#[test]
fn new_tab_keeps_active_index() {
    let mut ui = UIState::default();
    ui.handle_key(ctrl('t'));
    ui.handle_key(ctrl('t'));
    assert_eq!(ui.tabs.len(), 3);
    assert_eq!(ui.active_tab_idx, 0);
    ui.new_tab();
    assert_eq!(ui.tabs.len(), 4);
    assert_eq!(ui.active_tab_idx, 0);
}

#[test]
fn next_tab_stops_at_last() {
    let mut ui = UIState::default();
    ui.handle_key(ctrl('t'));
    ui.handle_key(plain(Key::Tab));
    assert_eq!(ui.active_tab_idx, 1);
    ui.handle_key(plain(Key::Tab));
    assert_eq!(ui.active_tab_idx, 1);
}

#[test]
fn prev_tab_stops_at_first() {
    let mut ui = UIState::default();
    ui.handle_key(ctrl('t'));
    ui.handle_key(plain(Key::BackTab));
    assert_eq!(ui.active_tab_idx, 0);
    ui.handle_key(plain(Key::Tab));
    ui.handle_key(plain(Key::BackTab));
    assert_eq!(ui.active_tab_idx, 0);
}

#[test]
fn typing_edits_only_active_resource() {
    let mut ui = UIState::default();
    ui.handle_key(ctrl('t'));
    ui.handle_key(plain(Key::Tab));
    ui.handle_key(plain(Key::Char('r')));
    assert_eq!(ui.editing, Some(Editing::Resource));
    ui.handle_key(plain(Key::Backspace));
    typed(&mut ui, "x");
    assert_eq!(ui.tabs[1].resource, "podx");
    assert_eq!(ui.tabs[1].namespace.as_deref(), Some("default"));
    assert_eq!(ui.tabs[1].filter, "");
    assert_eq!(ui.tabs[0].resource, "pods");
    ui.handle_key(plain(Key::Enter));
    assert!(ui.editing.is_none());
}

#[test]
fn editing_mode_keys_are_typed_not_commands() {
    let mut ui = UIState::default();
    ui.handle_key(plain(Key::Char('f')));
    typed(&mut ui, "rnf");
    assert_eq!(ui.editing, Some(Editing::Filter));
    assert_eq!(ui.active_tab().filter, "rnf");
    ui.handle_key(plain(Key::Tab));
    assert_eq!(ui.active_tab_idx, 0);
    assert_eq!(ui.handle_key(ctrl('c')), Action::Continue);
    ui.handle_key(plain(Key::Esc));
    assert!(ui.editing.is_none());
}

#[test]
fn namespace_typing_and_erasing() {
    let mut ui = UIState::default();
    ui.handle_key(plain(Key::Char('n')));
    assert_eq!(ui.editing, Some(Editing::Namespace));
    for _ in 0..10 {
        ui.handle_key(plain(Key::Backspace));
    }
    assert_eq!(ui.active_tab().namespace.as_deref(), Some(""));
    typed(&mut ui, "kube-system");
    assert_eq!(ui.active_tab().namespace.as_deref(), Some("kube-system"));
}

#[test]
fn namespace_typing_into_unset_namespace_does_nothing() {
    let mut ui = UIState::default();
    ui.active_tab_mut().namespace = None;
    ui.handle_key(plain(Key::Char('n')));
    typed(&mut ui, "abc");
    ui.handle_key(plain(Key::Backspace));
    assert_eq!(ui.active_tab().namespace, None);
    assert_eq!(ui.active_tab().resource, "pods");
}

#[test]
fn quit_chord_quits() {
    let mut ui = UIState::default();
    assert_eq!(ui.handle_key(ctrl('c')), Action::Quit);
    assert_eq!(ui.handle_key(plain(Key::Char('c'))), Action::Continue);
    assert_eq!(ui.handle_key(plain(Key::Other)), Action::Continue);
}

#[test]
fn default_tab_values() {
    let t = Tab::default();
    assert_eq!(t.namespace, Some("default".to_string()));
    assert_eq!(t.resource, "pods");
    assert!(t.filter.is_empty());
}

fn sample_table() -> RenderedTable {
    let cols = vec![ColumnDefinition {
        name: "NAME".to_string(),
        column_type: "string".to_string(),
        description: String::new(),
        format: "name".to_string(),
        priority: 0,
    }];
    RenderedTable::new(&cols, vec![vec!["web-0".to_string()]])
}

#[test]
fn stale_table_kept_after_unresolved_alias() {
    let mut screen = Screen::new();
    screen.apply(FrameOutcome::Fetched(sample_table()));
    let before = format!("{:?}", screen.table);
    screen.apply(FrameOutcome::Unresolved);
    assert_eq!(format!("{:?}", screen.table), before);
    assert!(!screen.resource_valid);
    assert!(!screen.fetch_failed);
}

#[test]
fn stale_table_kept_after_fetch_error() {
    let mut screen = Screen::new();
    screen.apply(FrameOutcome::Fetched(sample_table()));
    let before = format!("{:?}", screen.table);
    screen.apply(FrameOutcome::FetchFailed);
    assert_eq!(format!("{:?}", screen.table), before);
    assert!(screen.resource_valid);
    assert!(screen.fetch_failed);
    screen.apply(FrameOutcome::Fetched(RenderedTable::new(&Vec::new(), Vec::new())));
    assert!(screen.table.unwrap().headers.is_empty());
}

#[test]
fn screen_starts_empty() {
    let screen = Screen::new();
    assert!(screen.table.is_none());
    assert!(screen.resource_valid);
    assert!(!screen.fetch_failed);
}

fn pods_catalog() -> Discovery {
    let core = vec![GroupResources {
        group_version: "v1".to_string(),
        resources: vec![ApiResourceEntry {
            name: "pods".to_string(),
            singular_name: "pod".to_string(),
            kind: "Pod".to_string(),
            group: None,
            version: None,
            short_names: Some(vec!["po".to_string()]),
            verbs: vec!["list".to_string()],
            namespaced: true,
        }],
    }];
    Discovery::from_listings(&Vec::new(), &core).unwrap()
}

#[test]
fn plan_frame_requests_resolved_resource() {
    let d = pods_catalog();
    let ui = UIState::default();
    let req = plan_frame(&d, &ui).unwrap();
    assert_eq!(req.uri().path(), "/api/v1/namespaces/default/pods");
}

#[test]
fn plan_frame_unresolved_alias() {
    let d = pods_catalog();
    let mut ui = UIState::default();
    ui.active_tab_mut().resource = "nosuch".to_string();
    assert!(matches!(plan_frame(&d, &ui), Err(FrameOutcome::Unresolved)));
}

#[test]
fn plan_frame_invalid_request_counts_as_failed_fetch() {
    let d = pods_catalog();
    let mut ui = UIState::default();
    ui.active_tab_mut().namespace = Some("bad namespace".to_string());
    assert!(matches!(plan_frame(&d, &ui), Err(FrameOutcome::FetchFailed)));
}
