//! What key presses and mouse events do to the viewer.
//!
//! Each handler changes the viewer's state and answers with the outside
//! work that the caller has to do next: read a file, open a web address, or
//! read a directory.
use vstd::prelude::*;
use crate::app::{
    App, AppState, NavDir, SearchDirection, with_caches, current_link_step, nav_step_step, toggle_selected_step,
    needs_listing, set_loading_step, collapse_selected_step, quit_step, scroll_top_step, cursor_top_step,
    goto_bottom_step, half_page_down_step, half_page_up_step, start_search_step, repeat_search_step,
    start_line_prompt_step, cycle_link_step, tree_len, sub0, min_int, opt_string, went_to_line,
    cancel_search_step, confirm_search_step, search_input_pop_step, search_input_push_step,
    cancel_line_prompt_step, confirm_line_prompt_step, line_prompt_pop_step, line_prompt_push_step,
    push_count_digit_step, take_count_step, link_at_terminal_step, scroll_down_step, scroll_up_step,
    cursor_down_step, cursor_up_step,
};
use crate::fs::{FileNode, flat, is_markdown_spec, is_markdown_path};
use crate::keys::{Action, KeyCode, NONE, CONTROL, normalized, keymap_lookup, normalize_combo};
use crate::markdown::{LinkTarget, link_view, LinkTargetV};
use crate::text::{chars_of, string_of, push_all};

verus! {

/// The outside work a handler leaves to its caller.
pub enum Effect {
    /// Nothing to do.
    Nothing,
    /// Read the file at this path and show it with `App::set_content` (or
    /// report the error with `App::set_error`); the viewer shows that it is
    /// loading.
    Load(String),
    /// Open this web address in the system's browser, then report with
    /// `url_opened`.
    OpenUrl(String),
    /// Read this directory and hand its children to `App::toggle_selected`
    /// (or record the error in `load_error`).
    ListDir(String),
}

/// `post` is `pre` set loading, with the file at `path` to be read.
pub open spec fn load_started(pre: App, post: App, path: Seq<char>, e: Effect) -> bool {
    set_loading_step(pre, post) && (e matches Effect::Load(q) && q@ == path)
}

/// What opening the node at the tree cursor does: a directory opens or
/// closes (one whose children were never read asks for its listing first);
/// a markdown file is loaded; anything else is left alone.
pub open spec fn activate_selected_step(pre: App, post: App, e: Effect) -> bool {
    match pre.tree {
        None => post == pre && e == Effect::Nothing,
        Some(t) => if pre.tree_cursor >= flat(t).len() {
            post == pre && e == Effect::Nothing
        } else {
            match flat(t)[pre.tree_cursor as int] {
                FileNode::Dir { path, .. } => if needs_listing(pre.tree, pre.tree_cursor as int) {
                    post == pre && (e matches Effect::ListDir(q) && q@ == path@)
                } else {
                    toggle_selected_step(pre, post, None) && e == Effect::Nothing
                },
                FileNode::File(p) => if is_markdown_spec(p@) {
                    load_started(pre, post, p@, e)
                } else {
                    post == pre && e == Effect::Nothing
                },
            }
        },
    }
}

/// Opens the node at the tree cursor.
pub fn activate_selected(app: &mut App) -> (e: Effect)
    ensures
        activate_selected_step(*old(app), *final(app), e),
{
    let node: Option<FileNode> = match app.selected_node() {
        Some(FileNode::File(p)) => Some(FileNode::File(p.clone())),
        Some(FileNode::Dir { path, .. }) => Some(
            FileNode::Dir { path: path.clone(), name: String::new(), children: Vec::new(), expanded: false },
        ),
        None => None,
    };
    match node {
        None => Effect::Nothing,
        Some(FileNode::Dir { path, .. }) => {
            match app.selected_listing_path() {
                Some(p) => Effect::ListDir(p),
                None => {
                    app.toggle_selected(None);
                    Effect::Nothing
                },
            }
        },
        Some(FileNode::File(p)) => {
            if is_markdown_path(p.as_str()) {
                app.set_loading();
                Effect::Load(p)
            } else {
                Effect::Nothing
            }
        },
    }
}

/// What following the selected link does: a markdown file is loaded, any
/// other file only gets a status message, and a web address is to be
/// opened.
pub open spec fn activate_link_step(pre: App, post: App, e: Effect) -> bool {
    exists|mid: App, link: Option<crate::markdown::LinkRef>|
        #![trigger current_link_step(pre, mid, link)]
        current_link_step(pre, mid, link) && match link {
            None => post == mid && e == Effect::Nothing,
            Some(l) => match l.target {
                LinkTarget::Local(path) => if is_markdown_spec(path@) {
                    load_started(mid, post, path@, e)
                } else {
                    &&& e == Effect::Nothing
                    &&& opt_string(post.status_message) == Some("Not a markdown file: "@ + path@)
                    &&& post == (App { status_message: post.status_message, ..mid })
                },
                LinkTarget::Url(url) => post == mid && (e matches Effect::OpenUrl(u) && u@ == url@),
            },
        }
}

/// Follows the selected link.
pub fn activate_link(app: &mut App) -> (e: Effect)
    ensures
        activate_link_step(*old(app), *final(app), e),
{
    let link = app.current_link();
    let ghost mid = *app;
    let e = match link {
        None => Effect::Nothing,
        Some(l) => match l.target {
            LinkTarget::Local(path) => {
                if is_markdown_path(path.as_str()) {
                    app.set_loading();
                    Effect::Load(path)
                } else {
                    let mut msg = chars_of("Not a markdown file: ");
                    let pc = chars_of(path.as_str());
                    push_all(&mut msg, &pc);
                    app.status_message = Some(string_of(&msg));
                    Effect::Nothing
                }
            },
            LinkTarget::Url(url) => Effect::OpenUrl(url),
        },
    };
    assert(current_link_step(*old(app), mid, link));
    e
}

/// Reports on opening a web address: the status message says it is being
/// opened, or why it could not be.
pub fn url_opened(app: &mut App, url: &str, error: Option<String>)
    ensures
        opt_string(final(app).status_message) == Some(
            match error {
                None => "Opening: "@ + url@,
                Some(err) => "Open failed: "@ + err@,
            },
        ),
        *final(app) == (App { status_message: final(app).status_message, ..*old(app) }),
{
    let msg = match error {
        None => {
            let mut m = chars_of("Opening: ");
            let u = chars_of(url);
            push_all(&mut m, &u);
            m
        },
        Some(err) => {
            let mut m = chars_of("Open failed: ");
            let ec = chars_of(err.as_str());
            push_all(&mut m, &ec);
            m
        },
    };
    app.status_message = Some(string_of(&msg));
}

/// What a history move does: the file moved to is loaded at the scroll
/// position it was left at, without adding to the history; at either end
/// the status message says so.
pub open spec fn nav_step_effect(pre: App, post: App, dir: NavDir, e: Effect) -> bool {
    exists|mid: App, r: Option<(String, u16)>|
        #![trigger nav_step_step(pre, mid, dir, r)]
        nav_step_step(pre, mid, dir, r) && match r {
            Some((path, scroll)) => load_started(
                App { suppress_history_push: true, pending_scroll: Some(scroll), ..mid },
                post,
                path@,
                e,
            ),
            None => {
                &&& e == Effect::Nothing
                &&& opt_string(post.status_message) == Some(
                    match dir {
                        NavDir::Back => "Already at oldest file"@,
                        NavDir::Forward => "Already at newest file"@,
                    },
                )
                &&& post == (App { status_message: post.status_message, ..mid })
            },
        }
}

/// Moves through the history.
pub fn nav_step(app: &mut App, dir: NavDir) -> (e: Effect)
    ensures
        nav_step_effect(*old(app), *final(app), dir, e),
{
    let r = app.nav_step(dir);
    let ghost mid = *app;
    let e = match r {
        Some((path, scroll)) => {
            app.suppress_history_push = true;
            app.pending_scroll = Some(scroll);
            app.set_loading();
            Effect::Load(path)
        },
        None => {
            let msg = match dir {
                NavDir::Back => "Already at oldest file".to_string(),
                NavDir::Forward => "Already at newest file".to_string(),
            };
            app.status_message = Some(msg);
            Effect::Nothing
        },
    };
    assert(nav_step_step(*old(app), mid, dir, r));
    e
}

/// A one-row move that a count repeats.
#[derive(Clone, Copy, PartialEq, Eq, Structural, Debug)]
pub enum Motion {
    ScrollDown,
    ScrollUp,
    CursorDown,
    CursorUp,
}

/// `a` after `k` one-row moves: scrolling stops at either end of the scroll
/// range, and the cursor at the first and the last node.
pub open spec fn repeated(a: App, m: Motion, k: int) -> App {
    match m {
        Motion::ScrollDown => App { scroll: min_int(a.scroll + k, u16::MAX as int) as u16, ..a },
        Motion::ScrollUp => App { scroll: sub0(a.scroll as int, k) as u16, ..a },
        Motion::CursorDown => App {
            tree_cursor: if a.tree_cursor + 1 < tree_len(a.tree) {
                min_int(a.tree_cursor + k, tree_len(a.tree) - 1) as usize
            } else {
                a.tree_cursor
            },
            ..a
        },
        Motion::CursorUp => App { tree_cursor: sub0(a.tree_cursor as int, k) as usize, ..a },
    }
}

/// Makes the move `m` `count` times.
pub fn repeat(app: &mut App, count: usize, m: Motion)
    ensures
        *final(app) == repeated(*old(app), m, count as int),
{
    let len: usize = match &app.tree {
        Some(t) => t.visible_count(),
        None => 0,
    };
    let mut i: usize = 0;
    while i < count
        invariant
            i <= count,
            len == tree_len(old(app).tree),
            *app == repeated(*old(app), m, i as int),
        decreases count - i,
    {
        let ghost prev = *app;
        match m {
            Motion::ScrollDown => app.scroll_down(),
            Motion::ScrollUp => app.scroll_up(),
            Motion::CursorDown => app.cursor_down(),
            Motion::CursorUp => app.cursor_up(),
        }
        proof {
            let a0 = *old(app);
            assert(tree_len(prev.tree) == tree_len(a0.tree));
            match m {
                Motion::ScrollDown => {
                    assert(app.scroll == min_int(a0.scroll + i + 1, u16::MAX as int));
                },
                Motion::ScrollUp => {
                    assert(app.scroll == sub0(a0.scroll as int, i + 1));
                },
                Motion::CursorDown => {
                    assert(app.tree_cursor == repeated(a0, m, i + 1).tree_cursor);
                },
                Motion::CursorUp => {
                    assert(app.tree_cursor == sub0(a0.tree_cursor as int, i + 1));
                },
            }
        }
        i += 1;
    }
}

/// What an action does in the current state, repeated `count` times where
/// that means anything (at least once); `half_page` and `page` are the
/// lengths of the page moves. While loading only quitting does anything.
pub open spec fn dispatch_step(
    pre: App,
    post: App,
    action: Action,
    count: usize,
    half_page: usize,
    page: usize,
    e: Effect,
) -> bool {
    let c: int = if count >= 1 {
        count as int
    } else {
        1
    };
    let plain = e == Effect::Nothing;
    if action == Action::Quit {
        quit_step(pre, post) && plain
    } else if pre.state == AppState::Loading {
        post == pre && plain
    } else {
        let viewing = pre.state == AppState::Viewing;
        match action {
            Action::Down => plain && post == repeated(
                pre,
                if viewing {
                    Motion::ScrollDown
                } else {
                    Motion::CursorDown
                },
                c,
            ),
            Action::Up => plain && post == repeated(
                pre,
                if viewing {
                    Motion::ScrollUp
                } else {
                    Motion::CursorUp
                },
                c,
            ),
            Action::Top => plain && if viewing {
                scroll_top_step(pre, post)
            } else {
                cursor_top_step(pre, post)
            },
            Action::Bottom => plain && goto_bottom_step(pre, post, page),
            Action::HalfPageDown => plain && half_page_down_step(pre, post, (half_page * c) as usize),
            Action::HalfPageUp => plain && half_page_up_step(pre, post, (half_page * c) as usize),
            Action::PageDown => plain && half_page_down_step(pre, post, (page * c) as usize),
            Action::PageUp => plain && half_page_up_step(pre, post, (page * c) as usize),
            Action::Back => if viewing {
                plain && post == (if pre.tree is Some {
                    App { state: AppState::Browsing, ..pre }
                } else {
                    pre
                })
            } else {
                plain && collapse_selected_step(pre, post)
            },
            Action::Activate => if viewing {
                activate_link_step(pre, post, e)
            } else {
                activate_selected_step(pre, post, e)
            },
            Action::SearchForward => plain && start_search_step(pre, post, SearchDirection::Forward),
            Action::SearchBackward => plain && start_search_step(pre, post, SearchDirection::Backward),
            Action::RepeatNext => plain && repeat_search_step(pre, post, false),
            Action::RepeatPrev => plain && repeat_search_step(pre, post, true),
            Action::LineJumpPrompt => plain && start_line_prompt_step(pre, post),
            Action::NextLink => plain && if viewing {
                cycle_link_step(pre, post, 1i32, page)
            } else {
                post == pre
            },
            Action::PrevLink => plain && if viewing {
                cycle_link_step(pre, post, -1i32, page)
            } else {
                post == pre
            },
            Action::NavBack => nav_step_effect(pre, post, NavDir::Back, e),
            Action::NavForward => nav_step_effect(pre, post, NavDir::Forward, e),
            Action::Quit => false,
        }
    }
}

/// Carries out `action`.
pub fn dispatch(app: &mut App, action: Action, count: usize, half_page: usize, page: usize) -> (e: Effect)
    requires
        half_page * (if count >= 1 {
            count as int
        } else {
            1
        }) <= usize::MAX,
        page * (if count >= 1 {
            count as int
        } else {
            1
        }) <= usize::MAX,
    ensures
        dispatch_step(*old(app), *final(app), action, count, half_page, page, e),
{
    let count = if count >= 1 {
        count
    } else {
        1
    };
    if action == Action::Quit {
        app.quit();
        return Effect::Nothing;
    }
    if app.state == AppState::Loading {
        return Effect::Nothing;
    }
    let viewing = app.state == AppState::Viewing;
    match action {
        Action::Down => {
            repeat(app, count, if viewing {
                Motion::ScrollDown
            } else {
                Motion::CursorDown
            });
            Effect::Nothing
        },
        Action::Up => {
            repeat(app, count, if viewing {
                Motion::ScrollUp
            } else {
                Motion::CursorUp
            });
            Effect::Nothing
        },
        Action::Top => {
            if viewing {
                app.scroll_top();
            } else {
                app.cursor_top();
            }
            Effect::Nothing
        },
        Action::Bottom => {
            app.goto_bottom(page);
            Effect::Nothing
        },
        Action::HalfPageDown => {
            app.half_page_down(half_page * count);
            Effect::Nothing
        },
        Action::HalfPageUp => {
            app.half_page_up(half_page * count);
            Effect::Nothing
        },
        Action::PageDown => {
            app.half_page_down(page * count);
            Effect::Nothing
        },
        Action::PageUp => {
            app.half_page_up(page * count);
            Effect::Nothing
        },
        Action::Back => {
            if viewing {
                if app.tree.is_some() {
                    app.state = AppState::Browsing;
                }
            } else {
                app.collapse_selected();
            }
            Effect::Nothing
        },
        Action::Activate => {
            if viewing {
                activate_link(app)
            } else {
                activate_selected(app)
            }
        },
        Action::SearchForward => {
            app.start_search(SearchDirection::Forward);
            Effect::Nothing
        },
        Action::SearchBackward => {
            app.start_search(SearchDirection::Backward);
            Effect::Nothing
        },
        Action::RepeatNext => {
            app.repeat_search(false);
            Effect::Nothing
        },
        Action::RepeatPrev => {
            app.repeat_search(true);
            Effect::Nothing
        },
        Action::LineJumpPrompt => {
            app.start_line_prompt();
            Effect::Nothing
        },
        Action::NextLink => {
            if viewing {
                app.cycle_link(1, page);
            }
            Effect::Nothing
        },
        Action::PrevLink => {
            if viewing {
                app.cycle_link(-1, page);
            }
            Effect::Nothing
        },
        Action::NavBack => nav_step(app, NavDir::Back),
        Action::NavForward => nav_step(app, NavDir::Forward),
        Action::Quit => Effect::Nothing,
    }
}

/// Half a page for a terminal `h` rows high (at least one row).
pub open spec fn half_page_of(h: u16) -> usize {
    let v = sub0(h as int, 2) / 2;
    (if v >= 1 {
        v
    } else {
        1
    }) as usize
}

/// A page for a terminal `h` rows high (at least one row).
pub open spec fn page_of(h: u16) -> usize {
    let v = sub0(h as int, 2);
    (if v >= 1 {
        v
    } else {
        1
    }) as usize
}

/// A key that ends a count-taking press: the count typed so far is taken,
/// and the key's bound action runs that many times (with the status message
/// cleared); an unbound Ctrl+C quits.
pub open spec fn counted_action(p1: App, post: App, code: KeyCode, mods: u8, h: u16, e: Effect) -> bool {
    exists|p2: App, n: u32|
        #![trigger take_count_step(p1, p2, n)]
        take_count_step(p1, p2, n) && match keymap_lookup(p1.keymap@, normalized(code, mods)) {
            Some(a) => dispatch_step(
                App { status_message: None, ..p2 },
                post,
                a,
                n as usize,
                half_page_of(h),
                page_of(h),
                e,
            ),
            None => e == Effect::Nothing && if code == KeyCode::Char('c') && mods & CONTROL != 0 {
                quit_step(p2, post)
            } else {
                post == p2
            },
        }
}

/// Whether a key press adds a digit to the count.
pub open spec fn is_count_digit(a: App, code: KeyCode, mods: u8) -> bool {
    match code {
        KeyCode::Char(c) => mods == NONE && crate::app::is_digit(c) && !(c == '0' && a.count_buffer@.len() == 0),
        _ => false,
    }
}

/// What a key press does, for a terminal `h` rows high. An open search or
/// `:N` prompt takes every key (Esc closes it, Enter runs it, Backspace
/// deletes, characters are typed). Otherwise: digits build the count; an
/// unbound `g` takes the count and jumps to that row or node, or to the top
/// when the count is at most one; any other key takes the count and runs
/// its action.
pub open spec fn key_step(pre: App, post: App, code: KeyCode, mods: u8, h: u16, e: Effect) -> bool {
    if pre.search_input is Some {
        e == Effect::Nothing && match code {
            KeyCode::Esc => cancel_search_step(pre, post),
            KeyCode::Enter => confirm_search_step(pre, post),
            KeyCode::Backspace => search_input_pop_step(pre, post),
            KeyCode::Char(c) => search_input_push_step(pre, post, c),
            _ => post == pre,
        }
    } else if pre.line_prompt is Some {
        e == Effect::Nothing && match code {
            KeyCode::Esc => cancel_line_prompt_step(pre, post),
            KeyCode::Enter => confirm_line_prompt_step(pre, post),
            KeyCode::Backspace => line_prompt_pop_step(pre, post),
            KeyCode::Char(c) => line_prompt_push_step(pre, post, c),
            _ => post == pre,
        }
    } else if is_count_digit(pre, code, mods) {
        e == Effect::Nothing && push_count_digit_step(pre, post, code->Char_0, true)
    } else if code == KeyCode::Char('g') && mods == NONE && keymap_lookup(pre.keymap@, normalized(code, mods))
        is None {
        exists|p2: App, n: u32|
            #![trigger take_count_step(pre, p2, n)]
            take_count_step(pre, p2, n) && if n > 1 {
                e == Effect::Nothing && went_to_line(App { status_message: None, ..p2 }, post, n as int)
            } else {
                dispatch_step(
                    App { status_message: None, ..p2 },
                    post,
                    Action::Top,
                    1,
                    half_page_of(h),
                    page_of(h),
                    e,
                )
            }
    } else {
        counted_action(pre, post, code, mods, h, e)
    }
}

/// Handles a key press in a terminal `term_height` rows high.
pub fn handle_key(app: &mut App, code: KeyCode, mods: u8, term_height: u16) -> (e: Effect)
    ensures
        key_step(*old(app), *final(app), code, mods, term_height, e),
{
    if app.search_input.is_some() {
        match code {
            KeyCode::Esc => app.cancel_search(),
            KeyCode::Enter => app.confirm_search(),
            KeyCode::Backspace => app.search_input_pop(),
            KeyCode::Char(c) => app.search_input_push(c),
            _ => {},
        }
        return Effect::Nothing;
    }
    if app.line_prompt.is_some() {
        match code {
            KeyCode::Esc => app.cancel_line_prompt(),
            KeyCode::Enter => app.confirm_line_prompt(),
            KeyCode::Backspace => app.line_prompt_pop(),
            KeyCode::Char(c) => app.line_prompt_push(c),
            _ => {},
        }
        return Effect::Nothing;
    }
    let rows = term_height.saturating_sub(2);
    let half: usize = if rows / 2 >= 1 {
        (rows / 2) as usize
    } else {
        1
    };
    let page: usize = if rows >= 1 {
        rows as usize
    } else {
        1
    };
    let ghost p1 = *app;
    match code {
        KeyCode::Char(c) => {
            if mods == NONE {
                if app.push_count_digit(c) {
                    return Effect::Nothing;
                }
            }
        },
        _ => {},
    }
    assert(*app == p1);
    if code == KeyCode::Char('g') && mods == NONE {
        let combo = normalize_combo(code, mods);
        if !app.keymap.contains_key(&combo) {
            let count = app.take_count();
            let ghost p2 = *app;
            app.status_message = None;
            if count > 1 {
                app.goto_line(count as usize);
                assert(take_count_step(p1, p2, count));
                return Effect::Nothing;
            } else {
                let e = dispatch(app, Action::Top, 1, half, page);
                assert(take_count_step(p1, p2, count));
                return e;
            }
        }
    }
    let count = app.take_count();
    let ghost p2 = *app;
    let found = app.keymap.get(&normalize_combo(code, mods));
    let e = match found {
        Some(action) => {
            app.status_message = None;
            assert(count <= 10000);
            assert(half * (count as int) <= usize::MAX && page * (count as int) <= usize::MAX) by (nonlinear_arith)
                requires
                    half <= 32767,
                    page <= 65535,
                    count <= 10000,
            ;
            dispatch(app, action, count as usize, half, page)
        },
        None => {
            if code == KeyCode::Char('c') && mods & CONTROL != 0 {
                app.quit();
            }
            Effect::Nothing
        },
    };
    assert(take_count_step(p1, p2, count));
    e
}

/// A mouse event the viewer acts on.
#[derive(Clone, Copy, PartialEq, Eq, Structural, Debug)]
pub enum MouseKind {
    LeftDown,
    ScrollDown,
    ScrollUp,
    Other,
}

/// What a mouse event at terminal cell (`col`, `row`) does: a left click on
/// a link selects and follows it; the wheel scrolls the document or moves
/// the tree cursor (clearing the status message). Nothing happens while
/// loading.
pub open spec fn mouse_step(pre: App, post: App, kind: MouseKind, col: u16, row: u16, e: Effect) -> bool {
    if pre.state == AppState::Loading {
        post == pre && e == Effect::Nothing
    } else {
        let p1 = App { status_message: None, ..pre };
        let viewing = pre.state == AppState::Viewing;
        match kind {
            MouseKind::LeftDown => exists|mid: App, r: Option<usize>|
                #![trigger link_at_terminal_step(pre, mid, col, row, r)]
                link_at_terminal_step(pre, mid, col, row, r) && match r {
                    Some(idx) => activate_link_step(
                        App { selected_link: Some(idx), status_message: None, ..mid },
                        post,
                        e,
                    ),
                    None => post == mid && e == Effect::Nothing,
                },
            MouseKind::ScrollDown => e == Effect::Nothing && if viewing {
                scroll_down_step(p1, post)
            } else {
                cursor_down_step(p1, post)
            },
            MouseKind::ScrollUp => e == Effect::Nothing && if viewing {
                scroll_up_step(p1, post)
            } else {
                cursor_up_step(p1, post)
            },
            MouseKind::Other => post == pre && e == Effect::Nothing,
        }
    }
}

/// Handles a mouse event at terminal cell (`column`, `row`).
pub fn handle_mouse(app: &mut App, kind: MouseKind, column: u16, row: u16) -> (e: Effect)
    ensures
        mouse_step(*old(app), *final(app), kind, column, row, e),
{
    if app.state == AppState::Loading {
        return Effect::Nothing;
    }
    let viewing = app.state == AppState::Viewing;
    match kind {
        MouseKind::LeftDown => {
            let r = app.link_at_terminal(column, row);
            let ghost mid = *app;
            let e = match r {
                Some(idx) => {
                    app.selected_link = Some(idx);
                    app.status_message = None;
                    activate_link(app)
                },
                None => Effect::Nothing,
            };
            assert(link_at_terminal_step(*old(app), mid, column, row, r));
            e
        },
        MouseKind::ScrollDown => {
            app.status_message = None;
            if viewing {
                app.scroll_down();
            } else {
                app.cursor_down();
            }
            Effect::Nothing
        },
        MouseKind::ScrollUp => {
            app.status_message = None;
            if viewing {
                app.scroll_up();
            } else {
                app.cursor_up();
            }
            Effect::Nothing
        },
        MouseKind::Other => Effect::Nothing,
    }
}

/// A page forward and a page back cancel out: viewing a document with room
/// below, `PageDown` scrolls down by exactly `count` pages of the terminal
/// height less two rows, and `PageUp` then scrolls back up by the same
/// distance, to where it started. A page is twice half a page, give or take
/// the odd row.
pub proof fn lemma_page_down_then_up(
    pre: App,
    mid: App,
    post: App,
    count: usize,
    h: u16,
    e1: Effect,
    e2: Effect,
)
    requires
        pre.state == AppState::Viewing,
        1 <= count,
        page_of(h) * count <= u16::MAX,
        pre.scroll + page_of(h) * count <= pre.line_count() - 1,
        pre.line_count() - 1 <= u16::MAX,
        dispatch_step(pre, mid, Action::PageDown, count, half_page_of(h), page_of(h), e1),
        dispatch_step(mid, post, Action::PageUp, count, half_page_of(h), page_of(h), e2),
    ensures
        mid.scroll == pre.scroll + page_of(h) * count,
        post.scroll == pre.scroll,
        post.content == pre.content,
        h >= 3 ==> page_of(h) == h - 2,
        h >= 4 ==> 2 * half_page_of(h) <= page_of(h) <= 2 * half_page_of(h) + 1,
{
    let d = page_of(h) * count;
    assert(d >= 0) by (nonlinear_arith)
        requires
            page_of(h) >= 1,
            count >= 1,
            d == page_of(h) * count,
    ;
    assert((d as usize) as u16 == d);
    assert(count as int >= 1);
    assert(half_page_down_step(pre, mid, d as usize));
    assert((sub0(pre.line_count(), 1) as u16) as int == pre.line_count() - 1);
    assert(mid.scroll == pre.scroll + d);
    assert(mid.state == AppState::Viewing);
    assert(half_page_up_step(mid, post, d as usize));
}

/// Half a page forward and half a page back cancel out: viewing a document
/// with room below, `HalfPageDown` scrolls down by exactly `count` half
/// pages (half the terminal height less two rows), and `HalfPageUp` then
/// scrolls back up to where it started.
pub proof fn lemma_half_page_down_then_up(
    pre: App,
    mid: App,
    post: App,
    count: usize,
    h: u16,
    e1: Effect,
    e2: Effect,
)
    requires
        pre.state == AppState::Viewing,
        1 <= count,
        half_page_of(h) * count <= u16::MAX,
        pre.scroll + half_page_of(h) * count <= pre.line_count() - 1,
        pre.line_count() - 1 <= u16::MAX,
        dispatch_step(pre, mid, Action::HalfPageDown, count, half_page_of(h), page_of(h), e1),
        dispatch_step(mid, post, Action::HalfPageUp, count, half_page_of(h), page_of(h), e2),
    ensures
        mid.scroll == pre.scroll + half_page_of(h) * count,
        post.scroll == pre.scroll,
        post.content == pre.content,
        h >= 4 ==> half_page_of(h) == (h - 2) / 2,
{
    let d = half_page_of(h) * count;
    assert(d >= 0) by (nonlinear_arith)
        requires
            half_page_of(h) >= 1,
            count >= 1,
            d == half_page_of(h) * count,
    ;
    assert((d as usize) as u16 == d);
    assert(count as int >= 1);
    assert(half_page_down_step(pre, mid, d as usize));
    assert((sub0(pre.line_count(), 1) as u16) as int == pre.line_count() - 1);
    assert(mid.scroll == pre.scroll + d);
    assert(mid.state == AppState::Viewing);
    assert(half_page_up_step(mid, post, d as usize));
}

} // verus!
