use mdr::app::{App, AppState, NavDir, Rect, SearchDirection, HISTORY_CAP};
use mdr::config::Config;
use mdr::fs::{build_dir_node, DirEntry, FileNode};
use mdr::markdown::LinkTarget;

fn entry(dir: &str, name: &str, is_dir: bool) -> DirEntry {
    DirEntry { name: name.to_string(), path: format!("{}/{}", dir, name), is_dir }
}

/// The tree of directory `dir` holding the files `files` and the
/// sub-directories `dirs`, as a fresh directory walk gives it.
fn walked(dir: &str, files: &[&str], dirs: &[&str]) -> FileNode {
    let mut entries: Vec<DirEntry> = files.iter().map(|f| entry(dir, f, false)).collect();
    entries.extend(dirs.iter().map(|d| entry(dir, d, true)));
    build_dir_node(dir, entries)
}

fn children(node: FileNode) -> Vec<FileNode> {
    match node {
        FileNode::Dir { children, .. } => children,
        FileNode::File(_) => Vec::new(),
    }
}

fn make_app_with_tree(tree: FileNode) -> App {
    let mut app = App::new(Config::default());
    app.tree = Some(tree);
    app
}

/// Toggles the node at the cursor, reading a directory first when it has
/// never been read, as the event loop does.
fn toggle(app: &mut App, listings: &[(&str, FileNode)]) {
    let listing = app
        .selected_listing_path()
        .map(|p| children(listings.iter().find(|(d, _)| *d == p).map(|(_, n)| clone_node(n)).unwrap()));
    app.toggle_selected(listing);
}

fn clone_node(n: &FileNode) -> FileNode {
    match n {
        FileNode::File(p) => FileNode::File(p.clone()),
        FileNode::Dir { path, name, children, expanded } => FileNode::Dir {
            path: path.clone(),
            name: name.clone(),
            children: children.iter().map(clone_node).collect(),
            expanded: *expanded,
        },
    }
}

#[test]
fn test_toggle_collapses_root() {
    let tree = walked("/t", &["a.md"], &[]);
    let mut app = make_app_with_tree(tree);
    assert_eq!(app.tree.as_ref().unwrap().visible_count(), 2); // root + a.md
    toggle(&mut app, &[]); // root is at cursor 0, expanded — collapse
    assert_eq!(app.tree.as_ref().unwrap().visible_count(), 1); // root only
}

#[test]
fn test_toggle_expands_collapsed_subdir_lazily() {
    let tree = walked("/t", &[], &["sub"]);
    let sub = walked("/t/sub", &["inner.md"], &[]);
    let mut app = make_app_with_tree(tree);
    // Initially: root (expanded) + sub (collapsed), whose children are not read yet.
    assert_eq!(app.tree.as_ref().unwrap().visible_count(), 2);
    app.tree_cursor = 1; // on `sub`
    assert_eq!(app.selected_listing_path().as_deref(), Some("/t/sub"));
    toggle(&mut app, &[("/t/sub", sub)]);
    // After expanding `sub`, its `inner.md` should appear.
    assert_eq!(app.tree.as_ref().unwrap().visible_count(), 3);
}

#[test]
fn test_goto_line_in_browsing_clamps() {
    let tree = walked("/t", &["a.md", "b.md", "c.md"], &[]);
    let mut app = make_app_with_tree(tree);
    // Flat list: root, a.md, b.md, c.md (4 items, indices 0..3)
    app.goto_line(3);
    assert_eq!(app.tree_cursor, 2);
    // Out-of-range clamps
    app.goto_line(99);
    assert_eq!(app.tree_cursor, 3);
    // 0 or 1 -> first
    app.goto_line(0);
    assert_eq!(app.tree_cursor, 0);
    app.goto_line(1);
    assert_eq!(app.tree_cursor, 0);
}

#[test]
fn test_goto_bottom_in_browsing() {
    let tree = walked("/t", &["a.md", "b.md"], &[]);
    let mut app = make_app_with_tree(tree);
    app.goto_bottom(10);
    // Last index is flat_len - 1 = 2
    assert_eq!(app.tree_cursor, 2);
}

#[test]
fn test_half_page_down_up_in_browsing() {
    let names: Vec<String> = (0..10).map(|i| format!("f{:02}.md", i)).collect();
    let refs: Vec<&str> = names.iter().map(|s| s.as_str()).collect();
    let tree = walked("/t", &refs, &[]);
    let mut app = make_app_with_tree(tree);
    app.half_page_down(5);
    assert_eq!(app.tree_cursor, 5);
    app.half_page_up(2);
    assert_eq!(app.tree_cursor, 3);
    // saturate at 0
    app.half_page_up(100);
    assert_eq!(app.tree_cursor, 0);
    // saturate at top
    app.half_page_down(1000);
    assert_eq!(app.tree_cursor, 10); // flat_len - 1 = 11 items - 1 = 10
}

#[test]
fn test_count_buffer_digits_and_take() {
    let mut app = App::new(Config::default());
    assert!(!app.push_count_digit('0')); // leading 0 ignored
    assert!(app.push_count_digit('1'));
    assert!(app.push_count_digit('2'));
    assert!(app.push_count_digit('0')); // 0 ok now
    assert!(!app.push_count_digit('a'));
    assert_eq!(app.take_count(), 120);
    assert_eq!(app.count_buffer, "");
    assert_eq!(app.take_count(), 1); // empty -> 1
}

#[test]
fn test_search_in_browsing_jumps_cursor() {
    let tree = walked("/t", &["alpha.md", "beta.md", "gamma.md"], &[]);
    let mut app = make_app_with_tree(tree);
    // Flat order: root, alpha.md, beta.md, gamma.md
    app.tree_cursor = 0;
    app.start_search(SearchDirection::Forward);
    for c in "BETA".chars() {
        app.search_input_push(c);
    }
    app.confirm_search();
    assert_eq!(app.tree_cursor, 2);
    assert_eq!(app.last_search.as_deref(), Some("BETA"));

    // n repeats forward: nothing else matches "BETA", so wraps and lands on same.
    app.repeat_search(false);
    assert_eq!(app.tree_cursor, 2);
}

#[test]
fn test_search_not_found_sets_status_message() {
    let tree = walked("/t", &["only.md"], &[]);
    let mut app = make_app_with_tree(tree);
    app.start_search(SearchDirection::Forward);
    for c in "zzz".chars() {
        app.search_input_push(c);
    }
    app.confirm_search();
    assert!(app.status_message.is_some());
}

#[test]
fn test_line_prompt_collects_digits_and_jumps() {
    let tree = walked("/t", &["a.md", "b.md", "c.md"], &[]);
    let mut app = make_app_with_tree(tree);
    app.start_line_prompt();
    assert!(app.line_prompt.is_some());
    app.line_prompt_push('3'); // accepted
    app.line_prompt_push('a'); // ignored — non-digit
    app.confirm_line_prompt();
    assert!(app.line_prompt.is_none());
    // Flat list: root, a.md, b.md, c.md → line 3 = b.md (index 2).
    assert_eq!(app.tree_cursor, 2);
}

#[test]
fn test_line_prompt_cancels_on_esc_path() {
    let mut app = App::new(Config::default());
    app.start_line_prompt();
    app.line_prompt_push('5');
    app.cancel_line_prompt();
    assert!(app.line_prompt.is_none());
}

#[test]
fn test_cycle_link_with_no_links_sets_status() {
    let mut app = App::new(Config::default());
    app.set_content(None, "no links here, just text".to_string(), None);
    app.cycle_link(1, 20);
    assert_eq!(app.selected_link, None);
    assert_eq!(app.status_message.as_deref(), Some("No links"));
}

#[test]
fn test_cycle_link_wraps_and_selects_first_link() {
    let mut app = App::new(Config::default());
    app.set_content(None, "[a](a.md) and [b](b.md) and [c](c.md)".to_string(), Some("/tmp".to_string()));
    app.cycle_link(1, 20);
    assert_eq!(app.selected_link, Some(0));
    app.cycle_link(1, 20);
    assert_eq!(app.selected_link, Some(1));
    app.cycle_link(-1, 20);
    assert_eq!(app.selected_link, Some(0));
    app.cycle_link(-1, 20);
    // Wraps to the last link.
    assert_eq!(app.selected_link, Some(2));
}

#[test]
fn test_link_at_terminal_hits_link_in_body_area() {
    let mut app = App::new(Config::default());
    app.set_content(None, "see [target](file.md) here".to_string(), Some("/tmp".to_string()));
    // Pretend a frame was rendered: body at (10, 5) with no gutter.
    app.last_preview_body = Some(Rect { x: 10, y: 5, width: 80, height: 24 });
    app.last_gutter_width = 0;
    app.scroll = 0;
    // "see " = chars 0..4, "target" = 4..10. Click at col 16 (= 10 + 6).
    let idx = app.link_at_terminal(16, 5);
    assert_eq!(idx, Some(0));
    // Outside body — None.
    assert_eq!(app.link_at_terminal(0, 0), None);
    // Inside body but on whitespace — None.
    assert_eq!(app.link_at_terminal(11, 5), None);
}

#[test]
fn test_link_at_terminal_respects_gutter_and_scroll() {
    let mut app = App::new(Config::default());
    app.set_content(None, "line1\n\nlink [target](file.md) end".to_string(), Some("/tmp".to_string()));
    app.last_preview_body = Some(Rect { x: 0, y: 0, width: 80, height: 24 });
    app.last_gutter_width = 4; // 3-digit gutter + space
    app.scroll = 2;
    // Link is on parsed line 2 ("link [target] end"). With scroll=2,
    // line 2 maps to row 0. Display: "link " 5 chars, "target" at 5..11.
    // Click at col 4 + 5 + 2 = 11 (gutter + "link " + 2 chars in).
    let idx = app.link_at_terminal(11, 0);
    assert_eq!(idx, Some(0));
    // Click in the gutter — None.
    assert_eq!(app.link_at_terminal(2, 0), None);
}

#[test]
fn test_history_records_and_navigates_back_forward() {
    let mut app = App::new(Config::default());
    // Open A, B, C in sequence. Each call to set_content with a real path
    // should push to history.
    app.set_content(Some("/n/A.md".to_string()), "content A".to_string(), Some("/n".to_string()));
    app.scroll = 5;
    app.set_content(Some("/n/B.md".to_string()), "content B".to_string(), Some("/n".to_string()));
    app.scroll = 10;
    app.set_content(Some("/n/C.md".to_string()), "content C".to_string(), Some("/n".to_string()));
    assert_eq!(app.history.len(), 3);
    assert_eq!(app.history_pos, Some(2));

    let target = app.nav_step(NavDir::Back).expect("expected back target");
    assert_eq!(target.0, "/n/B.md");
    assert_eq!(target.1, 10);
    assert_eq!(app.history_pos, Some(1));
    assert_eq!(app.history[2].scroll, app.scroll);

    let target = app.nav_step(NavDir::Back).expect("expected back target");
    assert_eq!(target.0, "/n/A.md");
    assert_eq!(target.1, 5);
    assert_eq!(app.history_pos, Some(0));

    assert!(app.nav_step(NavDir::Back).is_none());

    let target = app.nav_step(NavDir::Forward).expect("expected forward target");
    assert_eq!(target.0, "/n/B.md");
    assert_eq!(app.history_pos, Some(1));
}

#[test]
fn test_history_truncates_forward_on_new_open() {
    let mut app = App::new(Config::default());
    for name in ["A", "B", "C"] {
        app.set_content(Some(format!("/n/{}.md", name)), name.to_string(), Some("/n".to_string()));
    }
    app.nav_step(NavDir::Back);
    app.nav_step(NavDir::Back);
    assert_eq!(app.history_pos, Some(0));
    app.set_content(Some("/n/D.md".to_string()), "D".to_string(), Some("/n".to_string()));
    assert_eq!(app.history.len(), 2);
    assert_eq!(app.history[1].path, "/n/D.md");
    assert_eq!(app.history_pos, Some(1));
}

#[test]
fn test_history_skip_when_suppressed() {
    let mut app = App::new(Config::default());
    app.set_content(Some("/n/A.md".to_string()), "A".to_string(), Some("/n".to_string()));
    app.suppress_history_push = true;
    app.pending_scroll = Some(7);
    app.set_content(Some("/n/A.md".to_string()), "A again".to_string(), Some("/n".to_string()));
    assert_eq!(app.history.len(), 1);
    assert_eq!(app.scroll, 7);
    assert!(app.pending_scroll.is_none());
    assert!(!app.suppress_history_push);
}

#[test]
fn test_history_capped_at_history_cap() {
    let mut app = App::new(Config::default());
    for i in 0..(HISTORY_CAP + 20) {
        app.set_content(Some(format!("/n/F{}.md", i)), format!("file {}", i), Some("/n".to_string()));
    }
    assert_eq!(app.history.len(), HISTORY_CAP);
    // Oldest entries dropped — the front should be F20, not F0.
    assert_eq!(app.history.front().unwrap().path, "/n/F20.md");
}

#[test]
fn test_collapse_clamps_cursor() {
    let tree = walked("/t", &["a.md", "b.md"], &[]);
    let mut app = make_app_with_tree(tree);

    app.tree_cursor = 2; // on b.md
    app.collapse_selected(); // cursor on b.md (file) — no-op
    assert_eq!(app.tree_cursor, 2);

    app.tree_cursor = 0; // on root
    app.collapse_selected(); // collapses root
    assert_eq!(app.tree.as_ref().unwrap().visible_count(), 1);
    assert_eq!(app.tree_cursor, 0); // clamped from 0 (still in range)
}

#[test]
fn test_quit_flips_running() {
    let mut app = App::new(Config::default());
    assert!(app.running);
    app.quit();
    assert!(!app.running);
}

#[test]
fn test_scroll_primitives_saturate() {
    let mut app = App::new(Config::default());
    app.scroll_down();
    app.scroll_down();
    assert_eq!(app.scroll, 2);
    app.scroll_up();
    assert_eq!(app.scroll, 1);
    app.scroll_top();
    assert_eq!(app.scroll, 0);
    app.scroll_up(); // saturates at 0
    assert_eq!(app.scroll, 0);
}

#[test]
fn test_cursor_primitives_with_no_tree() {
    let mut app = App::new(Config::default());
    // No tree — cursor_down is a no-op (max=0).
    app.cursor_down();
    assert_eq!(app.tree_cursor, 0);
    app.cursor_up();
    assert_eq!(app.tree_cursor, 0);
    app.cursor_top();
    assert_eq!(app.tree_cursor, 0);
}

#[test]
fn test_cursor_primitives_walk_tree() {
    let tree = walked("/t", &["a.md", "b.md"], &[]);
    let mut app = make_app_with_tree(tree);
    // Flat: root, a.md, b.md (3 items)
    app.cursor_down();
    app.cursor_down();
    assert_eq!(app.tree_cursor, 2);
    app.cursor_down(); // saturates at last index
    assert_eq!(app.tree_cursor, 2);
    app.cursor_up();
    assert_eq!(app.tree_cursor, 1);
    app.cursor_top();
    assert_eq!(app.tree_cursor, 0);
}

#[test]
fn test_goto_line_in_viewing() {
    let mut app = App::new(Config::default());
    app.set_content(None, "a\nb\nc\nd\ne".to_string(), None);
    // Now in Viewing state with 5 content lines.
    app.goto_line(3);
    assert_eq!(app.scroll, 2); // 1-indexed → row 2
    app.goto_line(99); // clamps to last
    let total = app.parse_current().lines.len();
    assert_eq!(app.scroll as usize, total - 1);
    app.goto_line(0); // 0 → line 1
    assert_eq!(app.scroll, 0);
}

#[test]
fn test_goto_bottom_in_viewing() {
    let mut app = App::new(Config::default());
    app.set_content(None, "a\nb\nc\nd\ne\nf".to_string(), None);
    let total = app.parse_current().lines.len();
    app.goto_bottom(2);
    assert_eq!(app.scroll as usize, total.saturating_sub(2));
}

#[test]
fn test_half_page_down_up_in_viewing_saturates() {
    let mut app = App::new(Config::default());
    // Many lines so half-page math has somewhere to go.
    let body: String = (0..30).map(|i| format!("L{}\n", i)).collect();
    app.set_content(None, body, None);
    app.half_page_down(5);
    assert_eq!(app.scroll, 5);
    app.half_page_up(2);
    assert_eq!(app.scroll, 3);
    app.half_page_up(100); // saturate at top
    assert_eq!(app.scroll, 0);
    app.half_page_down(10_000); // clamp to last
    let total = app.parse_current().lines.len() as u16;
    assert_eq!(app.scroll, total.saturating_sub(1));
}

#[test]
fn test_jumps_in_loading_state_are_noops() {
    let mut app = App::new(Config::default());
    app.set_loading();
    app.scroll = 7;
    app.tree_cursor = 3;
    app.goto_line(1);
    app.goto_bottom(10);
    app.half_page_down(5);
    app.half_page_up(5);
    // Nothing changed.
    assert_eq!(app.scroll, 7);
    assert_eq!(app.tree_cursor, 3);
}

#[test]
fn test_cancel_search_clears_input() {
    let mut app = App::new(Config::default());
    app.start_search(SearchDirection::Forward);
    app.search_input_push('x');
    app.cancel_search();
    assert!(app.search_input.is_none());
}

#[test]
fn test_search_input_pop_removes_last_char() {
    let mut app = App::new(Config::default());
    app.start_search(SearchDirection::Forward);
    for c in "abc".chars() {
        app.search_input_push(c);
    }
    app.search_input_pop();
    assert_eq!(app.search_input.as_ref().unwrap().buffer, "ab");
}

#[test]
fn test_repeat_search_without_previous_sets_status() {
    let mut app = App::new(Config::default());
    app.repeat_search(false);
    assert_eq!(app.status_message.as_deref(), Some("No previous search"));
}

#[test]
fn test_repeat_search_reverse_flips_direction() {
    let tree = walked("/t", &["alpha.md", "beta.md", "gamma.md"], &[]);
    let mut app = make_app_with_tree(tree);
    // Flat: root, alpha.md, beta.md, gamma.md
    app.tree_cursor = 0;
    app.start_search(SearchDirection::Forward);
    for c in "a".chars() {
        app.search_input_push(c);
    }
    app.confirm_search();
    // First match forward (skip current=true): alpha at index 1.
    assert_eq!(app.tree_cursor, 1);
    // Repeat reverse: backward from 1, with `a` matching gamma (wraps).
    app.repeat_search(true);
    // Either way, last_search_direction is unchanged.
    assert_eq!(app.last_search_direction, SearchDirection::Forward);
}

#[test]
fn test_search_backward_wraps() {
    let tree = walked("/t", &["alpha.md", "beta.md"], &[]);
    let mut app = make_app_with_tree(tree);
    // Flat: root, alpha.md, beta.md (3 items, cursor 0)
    app.start_search(SearchDirection::Backward);
    for c in "BETA".chars() {
        app.search_input_push(c);
    }
    app.confirm_search();
    // Backward from 0, skip_current=true → wraps to beta.md (index 2).
    assert_eq!(app.tree_cursor, 2);
}

#[test]
fn test_search_in_viewing_finds_line() {
    let mut app = App::new(Config::default());
    app.set_content(None, "first\nsecond\nthird\n".to_string(), None);
    app.scroll = 0;
    app.start_search(SearchDirection::Forward);
    for c in "third".chars() {
        app.search_input_push(c);
    }
    app.confirm_search();
    // Should jump to the line containing "third".
    let third_idx = app
        .parse_current()
        .lines
        .iter()
        .position(|l| l.spans.iter().map(|s| s.content.as_str()).collect::<String>().contains("third"))
        .unwrap();
    assert_eq!(app.scroll as usize, third_idx);
}

#[test]
fn test_line_prompt_pop_removes_last_digit() {
    let mut app = App::new(Config::default());
    app.start_line_prompt();
    app.line_prompt_push('1');
    app.line_prompt_push('2');
    app.line_prompt_pop();
    assert_eq!(app.line_prompt.as_ref().unwrap().buffer, "1");
}

#[test]
fn test_cycle_link_backward_from_none_starts_at_last() {
    let mut app = App::new(Config::default());
    app.set_content(None, "[a](a.md) [b](b.md) [c](c.md)".to_string(), Some("/tmp".to_string()));
    // step = -1 with selected_link=None → starts at last index (n-1).
    app.cycle_link(-1, 20);
    assert_eq!(app.selected_link, Some(2));
}

#[test]
fn test_cycle_link_scrolls_into_view() {
    let mut app = App::new(Config::default());
    // Build content where the only link is far below the viewport.
    let mut body = String::new();
    for _ in 0..10 {
        body.push_str("filler\n");
    }
    body.push_str("[far](far.md)\n");
    app.set_content(None, body, Some("/tmp".to_string()));
    app.scroll = 0;
    app.cycle_link(1, 3); // viewport = 3 rows
    // Link is around row 10. With viewport=3, scroll should jump down so
    // the link is visible.
    let link_line = app.parse_current().links[0].line as u16;
    assert!(app.scroll <= link_line && link_line < app.scroll + 3);
}

#[test]
fn test_current_link_returns_selected() {
    let mut app = App::new(Config::default());
    app.set_content(None, "[a](a.md) [b](b.md)".to_string(), Some("/tmp".to_string()));
    app.cycle_link(1, 20);
    let link = app.current_link().expect("expected a link");
    match link.target {
        LinkTarget::Local(p) => assert!(p.ends_with("a.md")),
        other => panic!("expected Local, got {:?}", other),
    }
}

#[test]
fn test_current_link_none_when_unselected() {
    let mut app = App::new(Config::default());
    app.set_content(None, "[x](x.md)".to_string(), Some("/tmp".to_string()));
    // No cycle_link call → selected_link stays None.
    assert!(app.current_link().is_none());
}

#[test]
fn test_selected_node_returns_node_at_cursor() {
    let tree = walked("/t", &["a.md", "b.md"], &[]);
    let mut app = make_app_with_tree(tree);
    app.tree_cursor = 1; // on a.md
    let node = app.selected_node().expect("expected a node");
    assert!(node.is_markdown());
    assert!(node.name().ends_with(".md"));
}

#[test]
fn test_selected_node_none_without_tree() {
    let app = App::new(Config::default());
    assert!(app.selected_node().is_none());
}

#[test]
fn test_set_error_switches_state_to_browsing() {
    let mut app = App::new(Config::default());
    app.set_content(None, "x".to_string(), None);
    assert_eq!(app.state, AppState::Viewing);
    app.set_error("boom".to_string());
    assert_eq!(app.state, AppState::Browsing);
    assert_eq!(app.load_error.as_deref(), Some("boom"));
}

#[test]
fn test_set_loading_clears_content() {
    let mut app = App::new(Config::default());
    app.set_content(None, "x".to_string(), None);
    app.load_error = Some("prev".to_string());
    app.set_loading();
    assert_eq!(app.state, AppState::Loading);
    assert!(app.content.is_none());
    assert!(app.load_error.is_none());
}

#[test]
fn test_collapse_clamps_cursor_into_range() {
    let tree = walked("/t", &["y.md"], &["sub"]);
    let sub = walked("/t/sub", &["x.md"], &[]);
    let mut app = make_app_with_tree(tree);
    // Expand sub so we can collapse later. Flat after expand: root, sub, x.md, y.md
    app.tree_cursor = 1;
    toggle(&mut app, &[("/t/sub", sub)]);
    assert_eq!(app.tree.as_ref().unwrap().visible_count(), 4);
    // Move cursor onto x.md (index 2).
    app.tree_cursor = 2;
    // Collapse sub — x.md disappears, cursor should clamp.
    app.tree_cursor = 1;
    app.collapse_selected();
    assert!(app.tree_cursor < app.tree.as_ref().unwrap().visible_count());
}

#[test]
fn test_wikilink_resolves_via_tree_index_after_open() {
    let tree = walked("/t", &["home.md"], &["nested"]);
    let nested = walked("/t/nested", &["Target.md"], &[]);
    let mut app = make_app_with_tree(tree);
    // Expand the nested dir so the index walks into it.
    app.tree_cursor = 1; // on `nested`
    toggle(&mut app, &[("/t/nested", nested)]);
    // Now open home.md and parse — wiki-link `[[Target]]` should resolve
    // to the nested path via the tree index.
    app.set_content(Some("/t/home.md".to_string()), "see [[Target]]".to_string(), Some("/t".to_string()));
    let result = app.parse_current();
    let link = result.links.first().expect("expected a link");
    match &link.target {
        LinkTarget::Local(p) => {
            assert!(p.ends_with("nested/Target.md"), "unexpected resolved path: {}", p);
        }
        other => panic!("expected Local, got {:?}", other),
    }
}

// --- own tests ---

#[test]
fn new_app_resolves_theme_colors() {
    let mut cfg = Config::default();
    cfg.theme.heading_color = "Blue".to_string();
    cfg.theme.image_height = 3;
    let app = App::new(cfg);
    assert_eq!(app.render_cfg.heading_color, mdr::markdown::Color::Blue);
    assert_eq!(app.render_cfg.h1_color, mdr::markdown::Color::LightRed);
    assert_eq!(app.render_cfg.image_height, 3);
    assert_eq!(app.state, AppState::Browsing);
}

#[test]
fn take_count_clamps_and_accepts_plus() {
    let mut app = App::new(Config::default());
    app.count_buffer = "999999".to_string();
    assert_eq!(app.take_count(), 10000);
    app.count_buffer = "+7".to_string();
    assert_eq!(app.take_count(), 7);
    app.count_buffer = "99999999999".to_string();
    assert_eq!(app.take_count(), 1);
    // The count keeps at most six digits.
    for c in "12345678".chars() {
        assert!(app.push_count_digit(c));
    }
    assert_eq!(app.count_buffer, "123456");
}

#[test]
fn line_prompt_keeps_nine_digits_and_empty_prompt_just_closes() {
    let mut app = App::new(Config::default());
    app.start_line_prompt();
    for c in "1234567890".chars() {
        app.line_prompt_push(c);
    }
    assert_eq!(app.line_prompt.as_ref().unwrap().buffer, "123456789");
    app.tree_cursor = 0;
    app.start_line_prompt();
    app.confirm_line_prompt();
    assert!(app.line_prompt.is_none());
    assert_eq!(app.tree_cursor, 0);
}

#[test]
fn reopening_current_file_keeps_history() {
    let mut app = App::new(Config::default());
    app.set_content(Some("/n/A.md".to_string()), "A".to_string(), None);
    app.set_content(Some("/n/A.md".to_string()), "A".to_string(), None);
    assert_eq!(app.history.len(), 1);
    assert_eq!(app.history_pos, Some(0));
    assert_eq!(app.file_name.as_deref(), Some("A.md"));
    app.set_content(None, "x".to_string(), None);
    assert_eq!(app.file_name.as_deref(), Some("untitled"));
}

#[test]
fn back_then_forward_returns_to_left_file_and_scroll() {
    let mut app = App::new(Config::default());
    app.set_content(Some("/n/A.md".to_string()), "A".to_string(), None);
    app.set_content(Some("/n/B.md".to_string()), "B".to_string(), None);
    app.scroll = 9;
    let back = app.nav_step(NavDir::Back).unwrap();
    assert_eq!(back.0, "/n/A.md");
    app.scroll = 4;
    let fwd = app.nav_step(NavDir::Forward).unwrap();
    assert_eq!(fwd, ("/n/B.md".to_string(), 9));
    assert!(app.nav_step(NavDir::Forward).is_none());
}

#[test]
fn search_is_case_insensitive_in_document() {
    let mut app = App::new(Config::default());
    app.set_content(None, "alpha\n\nBeta Gamma\n\ndelta".to_string(), None);
    app.start_search(SearchDirection::Forward);
    for c in "gAmMa".chars() {
        app.search_input_push(c);
    }
    app.confirm_search();
    assert_eq!(app.scroll, 2);
    assert!(app.status_message.is_none());
    // An empty search repeats the previous one, wrapping to the same row.
    app.start_search(SearchDirection::Forward);
    app.confirm_search();
    assert_eq!(app.scroll, 2);
    app.last_search = Some("omega".to_string());
    app.repeat_search(false);
    assert_eq!(app.status_message.as_deref(), Some("Pattern not found: omega"));
}

#[test]
fn history_stays_well_formed_across_opens_and_moves() {
    let mut app = App::new(Config::default());
    assert!(app.history.is_empty() && app.history_pos.is_none());
    for i in 0..(HISTORY_CAP + 5) {
        app.set_content(Some(format!("/d/f{}.md", i)), "x".to_string(), None);
        assert!(app.history.len() <= HISTORY_CAP);
        assert_eq!(app.history_pos, Some(app.history.len() - 1));
        assert_eq!(app.history.back().unwrap().path, format!("/d/f{}.md", i));
    }
    assert_eq!(app.history.len(), HISTORY_CAP);
    let r = app.nav_step(NavDir::Back);
    assert!(r.is_some());
    assert_eq!(app.history_pos, Some(HISTORY_CAP - 2));
    assert!(app.nav_step(NavDir::Forward).is_some());
    assert!(app.nav_step(NavDir::Forward).is_none());
    assert_eq!(app.history_pos, Some(HISTORY_CAP - 1));
}
