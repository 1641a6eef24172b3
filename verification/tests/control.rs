use mdr::app::{App, AppState, NavDir, Rect};
use mdr::config::Config;
use mdr::control::{activate_link, dispatch, handle_key, handle_mouse, nav_step, repeat, url_opened, Effect, Motion, MouseKind};
use mdr::fs::{build_dir_node, DirEntry, FileNode};
use mdr::keys::{Action, KeyCode, CONTROL, NONE, SHIFT};

fn walked(dir: &str, files: &[&str], dirs: &[&str]) -> FileNode {
    let mut entries: Vec<DirEntry> =
        files.iter().map(|f| DirEntry { name: f.to_string(), path: format!("{}/{}", dir, f), is_dir: false }).collect();
    entries.extend(dirs.iter().map(|d| DirEntry { name: d.to_string(), path: format!("{}/{}", dir, d), is_dir: true }));
    build_dir_node(dir, entries)
}

fn viewing(content: &str) -> App {
    let mut app = App::new(Config::default());
    app.set_content(None, content.to_string(), Some("/d".to_string()));
    app
}

fn many_lines(n: usize) -> String {
    (0..n).map(|i| format!("L{}\n\n", i)).collect()
}

#[test]
fn count_prefix_repeats_motion() {
    let mut app = viewing(&many_lines(40));
    assert!(matches!(handle_key(&mut app, KeyCode::Char('5'), NONE, 24), Effect::Nothing));
    assert_eq!(app.count_buffer, "5");
    handle_key(&mut app, KeyCode::Char('j'), NONE, 24);
    assert_eq!(app.scroll, 5);
    assert_eq!(app.count_buffer, "");
    handle_key(&mut app, KeyCode::Char('k'), NONE, 24);
    assert_eq!(app.scroll, 4);
}

#[test]
fn g_goes_to_top_and_count_g_to_line() {
    let mut app = viewing(&many_lines(40));
    app.scroll = 20;
    handle_key(&mut app, KeyCode::Char('g'), NONE, 24);
    assert_eq!(app.scroll, 0);
    handle_key(&mut app, KeyCode::Char('1'), NONE, 24);
    handle_key(&mut app, KeyCode::Char('2'), NONE, 24);
    handle_key(&mut app, KeyCode::Char('g'), NONE, 24);
    assert_eq!(app.scroll, 11);
    assert_eq!(app.count_buffer, "");
}

#[test]
fn g_moves_tree_cursor_to_first_node() {
    let mut app = App::new(Config::default());
    app.tree = Some(FileNode::Dir {
        path: "/r".to_string(),
        name: "r".to_string(),
        expanded: true,
        children: vec![
            FileNode::File("/r/a.md".to_string()),
            FileNode::File("/r/b.md".to_string()),
            FileNode::File("/r/c.md".to_string()),
        ],
    });
    app.tree_cursor = 3;
    handle_key(&mut app, KeyCode::Char('g'), NONE, 24);
    assert_eq!(app.tree_cursor, 0);
    handle_key(&mut app, KeyCode::Char('3'), NONE, 24);
    handle_key(&mut app, KeyCode::Char('g'), NONE, 24);
    assert_eq!(app.tree_cursor, 2);
}

#[test]
fn half_page_uses_terminal_height() {
    let mut app = viewing(&many_lines(100));
    handle_key(&mut app, KeyCode::Char('d'), CONTROL, 24);
    assert_eq!(app.scroll, 11);
    handle_key(&mut app, KeyCode::Char('f'), CONTROL, 24);
    assert_eq!(app.scroll, 33);
    handle_key(&mut app, KeyCode::Char('u'), CONTROL, 24);
    assert_eq!(app.scroll, 22);
}

#[test]
fn search_prompt_captures_keys() {
    let mut app = viewing("one\n\ntwo\n\nthree");
    handle_key(&mut app, KeyCode::Char('/'), NONE, 24);
    assert!(app.search_input.is_some());
    handle_key(&mut app, KeyCode::Char('t'), NONE, 24);
    handle_key(&mut app, KeyCode::Char('q'), NONE, 24);
    handle_key(&mut app, KeyCode::Backspace, NONE, 24);
    handle_key(&mut app, KeyCode::Char('w'), NONE, 24);
    assert!(app.running);
    handle_key(&mut app, KeyCode::Enter, NONE, 24);
    assert!(app.search_input.is_none());
    assert_eq!(app.scroll, 2);
    handle_key(&mut app, KeyCode::Char('N'), SHIFT, 24);
    assert_eq!(app.scroll, 2);
}

#[test]
fn ctrl_c_quits_even_unbound_and_q_quits() {
    let mut app = viewing("x");
    handle_key(&mut app, KeyCode::Char('c'), CONTROL, 24);
    assert!(!app.running);
    let mut app2 = viewing("x");
    handle_key(&mut app2, KeyCode::Char('q'), NONE, 24);
    assert!(!app2.running);
}

#[test]
fn activate_markdown_link_loads_it() {
    let mut app = viewing("see [doc](doc.md) and [pic](pic.png) and [web](https://x.org)");
    app.cycle_link(1, 10);
    match handle_key(&mut app, KeyCode::Enter, NONE, 24) {
        Effect::Load(p) => assert_eq!(p, "/d/doc.md"),
        _ => panic!("expected a load"),
    }
    assert_eq!(app.state, AppState::Loading);

    let mut app = viewing("see [doc](doc.md) and [pic](pic.png) and [web](https://x.org)");
    app.selected_link = Some(1);
    assert!(matches!(activate_link(&mut app), Effect::Nothing));
    assert_eq!(app.status_message.as_deref(), Some("Not a markdown file: /d/pic.png"));
    app.selected_link = Some(2);
    match activate_link(&mut app) {
        Effect::OpenUrl(u) => assert_eq!(u, "https://x.org"),
        _ => panic!("expected a web address"),
    }
    url_opened(&mut app, "https://x.org", None);
    assert_eq!(app.status_message.as_deref(), Some("Opening: https://x.org"));
    url_opened(&mut app, "https://x.org", Some("no browser".to_string()));
    assert_eq!(app.status_message.as_deref(), Some("Open failed: no browser"));
}

#[test]
fn activate_in_browser_lists_opens_and_loads() {
    let mut app = App::new(Config::default());
    app.tree = Some(walked("/t", &["a.md", "b.txt"], &["sub"]));
    // Flat: t, sub, a.md, b.txt
    app.tree_cursor = 1;
    match dispatch(&mut app, Action::Activate, 1, 1, 1) {
        Effect::ListDir(p) => assert_eq!(p, "/t/sub"),
        _ => panic!("expected a directory listing"),
    }
    app.toggle_selected(Some(Vec::new()));
    assert_eq!(app.tree.as_ref().unwrap().visible_count(), 4);
    app.tree_cursor = 3;
    assert!(matches!(dispatch(&mut app, Action::Activate, 1, 1, 1), Effect::Nothing));
    app.tree_cursor = 2;
    match dispatch(&mut app, Action::Activate, 1, 1, 1) {
        Effect::Load(p) => assert_eq!(p, "/t/a.md"),
        _ => panic!("expected a load"),
    }
    assert_eq!(app.state, AppState::Loading);
    // Nothing but quitting works while loading.
    assert!(matches!(dispatch(&mut app, Action::Down, 3, 1, 1), Effect::Nothing));
    assert_eq!(app.tree_cursor, 2);
}

#[test]
fn back_from_document_returns_to_tree() {
    let mut app = viewing("x");
    dispatch(&mut app, Action::Back, 1, 1, 1);
    assert_eq!(app.state, AppState::Viewing);
    app.tree = Some(walked("/t", &["a.md"], &[]));
    dispatch(&mut app, Action::Back, 1, 1, 1);
    assert_eq!(app.state, AppState::Browsing);
}

#[test]
fn history_navigation_effects() {
    let mut app = App::new(Config::default());
    assert!(matches!(nav_step(&mut app, NavDir::Back), Effect::Nothing));
    assert_eq!(app.status_message.as_deref(), Some("Already at oldest file"));
    app.set_content(Some("/n/A.md".to_string()), "A".to_string(), None);
    app.set_content(Some("/n/B.md".to_string()), "B".to_string(), None);
    match nav_step(&mut app, NavDir::Back) {
        Effect::Load(p) => assert_eq!(p, "/n/A.md"),
        _ => panic!("expected a load"),
    }
    assert!(app.suppress_history_push);
    assert_eq!(app.pending_scroll, Some(0));
    assert_eq!(app.state, AppState::Loading);
    app.set_content(Some("/n/A.md".to_string()), "A".to_string(), None);
    assert_eq!(app.history.len(), 2);
    assert!(matches!(nav_step(&mut app, NavDir::Back), Effect::Nothing));
    assert_eq!(app.status_message.as_deref(), Some("Already at oldest file"));
}

#[test]
fn repeat_moves_stop_at_ends() {
    let mut app = App::new(Config::default());
    app.tree = Some(walked("/t", &["a.md", "b.md"], &[]));
    repeat(&mut app, 10, Motion::CursorDown);
    assert_eq!(app.tree_cursor, 2);
    repeat(&mut app, 1, Motion::CursorUp);
    assert_eq!(app.tree_cursor, 1);
    app.scroll = u16::MAX - 1;
    repeat(&mut app, 5, Motion::ScrollDown);
    assert_eq!(app.scroll, u16::MAX);
    repeat(&mut app, 3, Motion::ScrollUp);
    assert_eq!(app.scroll, u16::MAX - 3);
}

#[test]
fn mouse_wheel_and_click() {
    let mut app = viewing("line\n\nsee [t](t.md)");
    app.status_message = Some("old".to_string());
    handle_mouse(&mut app, MouseKind::ScrollDown, 0, 0);
    assert_eq!(app.scroll, 1);
    assert!(app.status_message.is_none());
    handle_mouse(&mut app, MouseKind::ScrollUp, 0, 0);
    assert_eq!(app.scroll, 0);
    app.last_preview_body = Some(Rect { x: 0, y: 1, width: 40, height: 10 });
    app.last_gutter_width = 3;
    // Row 2 of the document is on screen row 3; "see " takes 4 columns.
    match handle_mouse(&mut app, MouseKind::LeftDown, 3 + 4, 3) {
        Effect::Load(p) => assert_eq!(p, "/d/t.md"),
        _ => panic!("expected a load"),
    }
    assert_eq!(app.selected_link, Some(0));
    // Loading ignores the mouse.
    assert!(matches!(handle_mouse(&mut app, MouseKind::ScrollDown, 0, 0), Effect::Nothing));
    assert_eq!(app.scroll, 0);
}
