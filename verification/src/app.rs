//! The viewer's state and what each user command does to it: moving through
//! the file tree and the rendered document, counts and prompts, search,
//! link selection, and browser-style history.
use vstd::prelude::*;
use vstd::string::StrSliceExecFns;
use std::collections::VecDeque;
use crate::config::Config;
use crate::fs::{FileNode, flat, all_nodes, is_markdown_spec, is_markdown_path, NodeOp, applied_at};
use crate::keys::{Keymap, build_keymap, keymap_entries};
use crate::markdown::{
    ParseResult, RenderConfig, ResultV, SpanV, LinkRef, LinkRefV, cmark_events, render_spec, color_from_str,
    color_of_name, parse_full_with, lines_view, link_view,
};
use crate::path::{file_name, file_name_vec, file_stem, file_stem_vec};
use crate::text::{lowercase, to_lowercase, chars_of, string_of, push_all, contains_seq, contains_vec, decimal};
use crate::wikilink::{TreeIndex, index_get, spec_rewrite, rewrite, opt_str};

verus! {

/// The most history entries kept; older ones are dropped.
pub const HISTORY_CAP: usize = 100;

/// Which way a search goes.
#[derive(Clone, Copy, PartialEq, Eq, Structural, Debug)]
pub enum SearchDirection {
    Forward,
    Backward,
}

/// A search being typed.
pub struct SearchInput {
    pub direction: SearchDirection,
    pub buffer: String,
}

/// A `:N` line-number prompt being typed.
pub struct LineJumpPrompt {
    pub buffer: String,
}

impl Default for LineJumpPrompt {
    /// An empty prompt.
    fn default() -> (r: Self)
        ensures
            r.buffer@ == Seq::<char>::empty(),
    {
        LineJumpPrompt { buffer: String::new() }
    }
}

/// What the main pane shows.
#[derive(Clone, Copy, PartialEq, Eq, Structural, Debug)]
pub enum AppState {
    Browsing,
    Viewing,
    Loading,
}

impl Default for AppState {
    /// The file browser.
    fn default() -> (r: Self)
        ensures
            r == AppState::Browsing,
    {
        AppState::Browsing
    }
}

/// A rectangle of terminal cells.
#[derive(Clone, Copy, PartialEq, Eq, Structural, Debug)]
pub struct Rect {
    pub x: u16,
    pub y: u16,
    pub width: u16,
    pub height: u16,
}

/// A file visited, with the scroll position it was left at.
pub struct HistoryEntry {
    pub path: String,
    pub scroll: u16,
}

/// A direction through the history.
#[derive(Clone, Copy, PartialEq, Eq, Structural, Debug)]
pub enum NavDir {
    Back,
    Forward,
}

/// The whole state of the viewer.
pub struct App {
    pub running: bool,
    pub state: AppState,
    pub scroll: u16,
    pub content: Option<String>,
    pub file_name: Option<String>,
    pub base_dir: Option<String>,
    pub tree: Option<FileNode>,
    pub tree_cursor: usize,
    pub config: Config,
    pub keymap: Keymap,
    pub load_error: Option<String>,
    pub count_buffer: String,
    pub search_input: Option<SearchInput>,
    pub last_search: Option<String>,
    pub last_search_direction: SearchDirection,
    pub line_prompt: Option<LineJumpPrompt>,
    pub selected_link: Option<usize>,
    pub status_message: Option<String>,
    /// The preview body area of the last frame, to map mouse clicks to
    /// rows and columns.
    pub last_preview_body: Option<Rect>,
    /// Width in cells of the line-number gutter of the last frame.
    pub last_gutter_width: u16,
    /// Files visited, oldest first; `history_pos` is the one shown.
    pub history: VecDeque<HistoryEntry>,
    pub history_pos: Option<usize>,
    /// Set with `pending_scroll` when moving through the history: the next
    /// `set_content` restores that scroll and does not add to the history.
    pub suppress_history_push: bool,
    pub pending_scroll: Option<u16>,
    /// The rendering of `content`, once made.
    pub cached_parse: Option<ParseResult>,
    /// Lower-cased file stem to path, for wiki-links, once made.
    pub tree_index: Option<TreeIndex>,
    /// The colors and image height of the theme, resolved once.
    pub render_cfg: RenderConfig,
}

/// The render configuration of a user configuration: its colors by name
/// and its image height.
pub open spec fn render_config_of(config: Config) -> RenderConfig {
    RenderConfig {
        h1_color: color_of_name(lowercase(config.theme.h1_color@)),
        heading_color: color_of_name(lowercase(config.theme.heading_color@)),
        code_color: color_of_name(lowercase(config.theme.code_color@)),
        image_height: config.theme.image_height,
    }
}

/// The number of visible nodes of an optional tree.
pub open spec fn tree_len(tree: Option<FileNode>) -> int {
    match tree {
        Some(t) => flat(t).len() as int,
        None => 0,
    }
}

/// The index of the last visible node (0 without nodes).
pub open spec fn tree_max(tree: Option<FileNode>) -> int {
    if tree_len(tree) > 0 {
        tree_len(tree) - 1
    } else {
        0
    }
}

pub open spec fn min_int(a: int, b: int) -> int {
    if a <= b {
        a
    } else {
        b
    }
}

/// `n - m`, or 0 when `m` is larger.
pub open spec fn sub0(n: int, m: int) -> int {
    if n >= m {
        n - m
    } else {
        0
    }
}

/// The index `m` with node `n` added: a markdown file goes in under its
/// lower-cased file stem, unless that stem is already there.
pub open spec fn index_add(m: Seq<(Seq<char>, Seq<char>)>, n: FileNode) -> Seq<(Seq<char>, Seq<char>)> {
    match n {
        FileNode::File(p) => if is_markdown_spec(p@) && file_stem(p@) is Some {
            let key = lowercase(file_stem(p@)->0);
            if index_get(m, key) is Some {
                m
            } else {
                m.push((key, p@))
            }
        } else {
            m
        },
        _ => m,
    }
}

/// The wiki-link index of a list of nodes, taken in order.
pub open spec fn index_of_nodes(nodes: Seq<FileNode>) -> Seq<(Seq<char>, Seq<char>)>
    decreases nodes.len(),
{
    if nodes.len() == 0 {
        seq![]
    } else {
        index_add(index_of_nodes(nodes.drop_last()), nodes.last())
    }
}

/// The wiki-link index of an optional tree, over every node (expanded or
/// not) in depth-first order.
pub open spec fn tree_index_of(tree: Option<FileNode>) -> Seq<(Seq<char>, Seq<char>)> {
    match tree {
        Some(t) => index_of_nodes(all_nodes(t)),
        None => seq![],
    }
}

fn index_add_exec(idx: &mut TreeIndex, n: &FileNode)
    ensures
        final(idx)@ == index_add(old(idx)@, *n),
{
    match n {
        FileNode::File(p) => {
            if is_markdown_path(p.as_str()) {
                let pc = chars_of(p.as_str());
                match file_stem_vec(&pc) {
                    Some(stem) => {
                        let key = to_lowercase(&stem);
                        idx.insert_if_absent(string_of(&key), p.clone());
                    },
                    None => {},
                }
            }
        },
        _ => {},
    }
}

/// Builds the wiki-link index of a tree: every markdown file under its
/// lower-cased file stem; when two files share a stem, the first in
/// depth-first order wins.
pub fn build_tree_index(node: &FileNode) -> (r: TreeIndex)
    ensures
        r@ == index_of_nodes(all_nodes(*node)),
{
    let nodes = node.visit_all();
    let ghost ns = crate::fs::refs_view(nodes@);
    let mut idx = TreeIndex::new();
    let mut i: usize = 0;
    while i < nodes.len()
        invariant
            i <= nodes@.len(),
            ns == crate::fs::refs_view(nodes@),
            ns == all_nodes(*node),
            idx@ == index_of_nodes(ns.take(i as int)),
        decreases nodes@.len() - i,
    {
        let n = nodes[i];
        assert(ns.take(i + 1).drop_last() =~= ns.take(i as int));
        assert(ns.take(i + 1).last() == *n);
        index_add_exec(&mut idx, n);
        i += 1;
    }
    assert(ns.take(nodes@.len() as int) =~= ns);
    idx
}

/// Whether `c` is an ASCII digit.
pub open spec fn is_digit(c: char) -> bool {
    '0' <= c && c <= '9'
}

/// The value of a string of decimal digits.
pub open spec fn digits_value(s: Seq<char>) -> int
    decreases s.len(),
{
    if s.len() == 0 {
        0
    } else {
        digits_value(s.drop_last()) * 10 + (s.last() as int - '0' as int)
    }
}

/// Whether every character of `d` is an ASCII digit.
pub open spec fn all_digits(d: Seq<char>) -> bool {
    forall|i: int| 0 <= i < d.len() ==> is_digit(#[trigger] d[i])
}

/// `s` without one leading `+`.
pub open spec fn unsigned_digits(s: Seq<char>) -> Seq<char> {
    if s.len() > 0 && s[0] == '+' {
        s.skip(1)
    } else {
        s
    }
}

/// What `str::parse` gives for an unsigned integer type whose largest value
/// is `max`: an optional `+`, then one or more ASCII digits, whose value is
/// at most `max`.
pub open spec fn parse_unsigned(s: Seq<char>, max: int) -> Option<int> {
    let d = unsigned_digits(s);
    if d.len() > 0 && all_digits(d) && digits_value(d) <= max {
        Some(digits_value(d))
    } else {
        None
    }
}

proof fn lemma_digits_value_mono(s: Seq<char>, i: int)
    requires
        0 <= i <= s.len(),
        forall|j: int| 0 <= j < s.len() ==> is_digit(#[trigger] s[j]),
    ensures
        0 <= digits_value(s.take(i)) <= digits_value(s),
    decreases s.len() - i,
{
    if i < s.len() {
        lemma_digits_value_mono(s, i + 1);
        assert(s.take(i + 1).drop_last() =~= s.take(i));
        assert(is_digit(s[i]));
        assert(digits_value(s.take(i)) * 10 >= digits_value(s.take(i)) || digits_value(s.take(i)) < 0);
    } else {
        assert(s.take(i) =~= s);
        lemma_digits_value_nonneg(s);
    }
}

proof fn lemma_digits_value_nonneg(s: Seq<char>)
    requires
        forall|j: int| 0 <= j < s.len() ==> is_digit(#[trigger] s[j]),
    ensures
        digits_value(s) >= 0,
    decreases s.len(),
{
    if s.len() > 0 {
        assert(is_digit(s[s.len() - 1]));
        lemma_digits_value_nonneg(s.drop_last());
    }
}

/// Parses `s` as a number no larger than `max`, as `str::parse` does for an
/// unsigned integer type whose largest value is `max`.
pub fn parse_number(s: &[char], max: u64) -> (r: Option<u64>)
    ensures
        match r {
            Some(v) => parse_unsigned(s@, max as int) == Some(v as int),
            None => parse_unsigned(s@, max as int) is None,
        },
{
    let start: usize = if s.len() > 0 && s[0] == '+' {
        1
    } else {
        0
    };
    let ghost d = unsigned_digits(s@);
    assert(d =~= s@.skip(start as int));
    if start >= s.len() {
        return None;
    }
    let mut v: u64 = 0;
    let mut i: usize = start;
    assert(d.take(0) =~= Seq::<char>::empty());
    while i < s.len()
        invariant
            start <= i <= s@.len(),
            d == s@.skip(start as int),
            d == unsigned_digits(s@),
            d.len() == s@.len() - start,
            d.len() > 0,
            v as int == digits_value(d.take(i - start)),
            v <= max,
            forall|j: int| 0 <= j < i - start ==> is_digit(#[trigger] d[j]),
        decreases s@.len() - i,
    {
        let c = s[i];
        assert(d[i - start] == c);
        if !('0' <= c && c <= '9') {
            assert(!is_digit(d[i - start]));
            assert(!all_digits(d));
            assert(parse_unsigned(s@, max as int) is None);
            return None;
        }
        let digit: u64 = (c as u32 - '0' as u32) as u64;
        assert(d.take(i - start + 1).drop_last() =~= d.take(i - start));
        let nv: u128 = v as u128 * 10 + digit as u128;
        assert(nv == digits_value(d.take(i - start + 1)));
        if nv > max as u128 {
            proof {
                if all_digits(d) {
                    lemma_digits_value_mono(d, i - start + 1);
                    assert(digits_value(d) > max);
                }
                assert(parse_unsigned(s@, max as int) is None);
            }
            return None;
        }
        v = nv as u64;
        i += 1;
    }
    assert(d.take(s@.len() - start) =~= d);
    Some(v)
}

impl App {
    /// The render configuration, resolved from the theme when the app was made.
    pub open spec fn render_config(self) -> RenderConfig {
        self.render_cfg
    }

    /// A fresh viewer for `config`: running, browsing, with nothing loaded,
    /// the key map built from the configured bindings and the theme colors
    /// resolved.
    pub fn new(config: Config) -> (r: App)
        ensures
            r.running,
            r.state == AppState::Browsing,
            r.scroll == 0,
            r.content is None,
            r.file_name is None,
            r.base_dir is None,
            r.tree is None,
            r.tree_cursor == 0,
            r.config == config,
            r.keymap@ == keymap_entries(config.keys@),
            r.load_error is None,
            r.count_buffer@ == Seq::<char>::empty(),
            r.search_input is None,
            r.last_search is None,
            r.last_search_direction == SearchDirection::Forward,
            r.line_prompt is None,
            r.selected_link is None,
            r.status_message is None,
            r.last_preview_body is None,
            r.last_gutter_width == 0,
            r.history@ == Seq::<HistoryEntry>::empty(),
            r.history_pos is None,
            history_inv(r),
            !r.suppress_history_push,
            r.pending_scroll is None,
            r.render_config() == render_config_of(config),
            r.parse_now() == r.fresh_parse(),
    {
        let keymap = build_keymap(&config);
        let render_cfg = RenderConfig {
            h1_color: color_from_str(config.theme.h1_color.as_str()),
            heading_color: color_from_str(config.theme.heading_color.as_str()),
            code_color: color_from_str(config.theme.code_color.as_str()),
            image_height: config.theme.image_height,
        };
        App {
            running: true,
            state: AppState::Browsing,
            scroll: 0,
            content: None,
            file_name: None,
            base_dir: None,
            tree: None,
            tree_cursor: 0,
            config,
            keymap,
            load_error: None,
            count_buffer: String::new(),
            search_input: None,
            last_search: None,
            last_search_direction: SearchDirection::Forward,
            line_prompt: None,
            selected_link: None,
            status_message: None,
            last_preview_body: None,
            last_gutter_width: 0,
            history: VecDeque::new(),
            history_pos: None,
            suppress_history_push: false,
            pending_scroll: None,
            cached_parse: None,
            tree_index: None,
            render_cfg,
        }
    }

    /// The wiki-link index in use: the one made earlier, or else that of the
    /// tree.
    pub open spec fn index_now(self) -> Seq<(Seq<char>, Seq<char>)> {
        match self.tree_index {
            Some(i) => i@,
            None => tree_index_of(self.tree),
        }
    }

    /// The document as rendered from scratch: wiki-links in the content are
    /// rewritten against the index, then the markdown is rendered.
    pub open spec fn fresh_parse(self) -> ResultV {
        let content = match self.content {
            Some(c) => c@,
            None => Seq::<char>::empty(),
        };
        let base = opt_string(self.base_dir);
        render_spec(
            cmark_events(spec_rewrite(content, Some(self.index_now()), base)),
            self.render_cfg,
            base,
        )
    }

    /// The rendering of the current document: the one made earlier, or else
    /// a fresh one.
    pub open spec fn parse_now(self) -> ResultV {
        match self.cached_parse {
            Some(p) => p@,
            None => self.fresh_parse(),
        }
    }

    /// `new` holds a rendering, the same as `old` would show, with the same
    /// wiki-link index.
    pub open spec fn parsed_from(pre: App, post: App) -> bool {
        &&& post.cached_parse is Some
        &&& post.parse_now() == pre.parse_now()
        &&& post.index_now() == pre.index_now()
    }

    /// The number of rows of the current document.
    pub open spec fn line_count(self) -> int {
        self.parse_now().lines.len() as int
    }

    /// Stops the viewer.
    pub fn quit(&mut self)
        ensures
            quit_step(*old(self), *final(self)),

    {
        self.running = false;
    }

    /// Scrolls the document down one row (saturating).
    pub fn scroll_down(&mut self)
        ensures
            scroll_down_step(*old(self), *final(self)),

    {
        self.scroll = self.scroll.saturating_add(1);
    }

    /// Scrolls the document up one row (stopping at the top).
    pub fn scroll_up(&mut self)
        ensures
            scroll_up_step(*old(self), *final(self)),

    {
        self.scroll = self.scroll.saturating_sub(1);
    }

    /// Scrolls to the top of the document.
    pub fn scroll_top(&mut self)
        ensures
            scroll_top_step(*old(self), *final(self)),

    {
        self.scroll = 0;
    }

    /// Moves the tree cursor down one node, unless it is on the last one.
    pub fn cursor_down(&mut self)
        ensures
            cursor_down_step(*old(self), *final(self)),

    {
        let max: usize = match &self.tree {
            Some(t) => t.visible_count(),
            None => 0,
        };
        if max > 0 && self.tree_cursor < max - 1 {
            self.tree_cursor += 1;
        }
    }

    /// Moves the tree cursor up one node (stopping at the first).
    pub fn cursor_up(&mut self)
        ensures
            cursor_up_step(*old(self), *final(self)),

    {
        self.tree_cursor = self.tree_cursor.saturating_sub(1);
    }

    /// Moves the tree cursor to the first node.
    pub fn cursor_top(&mut self)
        ensures
            cursor_top_step(*old(self), *final(self)),

    {
        self.tree_cursor = 0;
    }

    /// Adds a digit to the count typed before a motion (`5j`). Only ASCII
    /// digits count, and `0` only after another digit; the count keeps at
    /// most six digits. Says whether `c` was taken as part of a count.
    pub fn push_count_digit(&mut self, c: char) -> (r: bool)
        ensures
            push_count_digit_step(*old(self), *final(self), c, r),

    {
        if !('0' <= c && c <= '9') {
            return false;
        }
        let len = self.count_buffer.as_str().unicode_len();
        if c == '0' && len == 0 {
            return false;
        }
        if len < 6 {
            self.count_buffer.push(c);
        }
        true
    }

    /// Takes the typed count: its value kept between 1 and 10000, or 1 when
    /// it is not a number; the count is cleared.
    pub fn take_count(&mut self) -> (r: u32)
        ensures
            take_count_step(*old(self), *final(self), r),

    {
        let digits = chars_of(self.count_buffer.as_str());
        let n: u64 = match parse_number(&digits, u32::MAX as u64) {
            Some(v) => v,
            None => 1,
        };
        let clamped: u32 = if n < 1 {
            1
        } else if n > 10000 {
            10000
        } else {
            n as u32
        };
        self.count_buffer = String::new();
        clamped
    }

    /// Opens the `:N` prompt and clears the status message.
    pub fn start_line_prompt(&mut self)
        ensures
            start_line_prompt_step(*old(self), *final(self)),

    {
        self.line_prompt = Some(LineJumpPrompt::default());
        self.status_message = None;
    }

    /// Closes the `:N` prompt.
    pub fn cancel_line_prompt(&mut self)
        ensures
            cancel_line_prompt_step(*old(self), *final(self)),

    {
        self.line_prompt = None;
    }

    /// Adds a digit to the `:N` prompt, which keeps at most nine; anything
    /// but an ASCII digit is ignored, and so is a digit without a prompt.
    pub fn line_prompt_push(&mut self, c: char)
        ensures
            line_prompt_push_step(*old(self), *final(self), c),

    {
        if !('0' <= c && c <= '9') {
            return;
        }
        match self.line_prompt.take() {
            Some(mut p) => {
                if p.buffer.as_str().unicode_len() < 9 {
                    p.buffer.push(c);
                }
                self.line_prompt = Some(p);
            },
            None => {},
        }
    }

    /// Removes the last character of the `:N` prompt.
    pub fn line_prompt_pop(&mut self)
        ensures
            line_prompt_pop_step(*old(self), *final(self)),

    {
        match self.line_prompt.take() {
            Some(p) => {
                let chars = chars_of(p.buffer.as_str());
                let n = chars.len();
                let kept = if n > 0 {
                    crate::text::slice_vec(&chars, 0, n - 1)
                } else {
                    chars
                };
                proof {
                    if n > 0 {
                        assert(kept@ =~= p.buffer@.drop_last());
                    }
                }
                self.line_prompt = Some(LineJumpPrompt { buffer: string_of(&kept) });
            },
            None => {},
        }
    }

    /// Opens a search prompt going `direction` and clears the status message.
    pub fn start_search(&mut self, direction: SearchDirection)
        ensures
            start_search_step(*old(self), *final(self), direction),

    {
        self.search_input = Some(SearchInput { direction, buffer: String::new() });
        self.status_message = None;
    }

    /// Closes the search prompt.
    pub fn cancel_search(&mut self)
        ensures
            cancel_search_step(*old(self), *final(self)),

    {
        self.search_input = None;
    }

    /// Adds a character to the search prompt, if one is open.
    pub fn search_input_push(&mut self, c: char)
        ensures
            search_input_push_step(*old(self), *final(self), c),

    {
        match self.search_input.take() {
            Some(mut i) => {
                i.buffer.push(c);
                self.search_input = Some(i);
            },
            None => {},
        }
    }

    /// Removes the last character of the search prompt, if one is open.
    pub fn search_input_pop(&mut self)
        ensures
            search_input_pop_step(*old(self), *final(self)),

    {
        match self.search_input.take() {
            Some(i) => {
                let chars = chars_of(i.buffer.as_str());
                let n = chars.len();
                let kept = if n > 0 {
                    crate::text::slice_vec(&chars, 0, n - 1)
                } else {
                    chars
                };
                proof {
                    if n > 0 {
                        assert(kept@ =~= i.buffer@.drop_last());
                    }
                }
                self.search_input = Some(SearchInput { direction: i.direction, buffer: string_of(&kept) });
            },
            None => {},
        }
    }

    /// Shows the loading state: the content and any load error are cleared.
    pub fn set_loading(&mut self)
        ensures
            set_loading_step(*old(self), *final(self)),

    {
        self.state = AppState::Loading;
        self.content = None;
        self.load_error = None;
    }

    /// Records a load error and goes back to the file browser.
    pub fn set_error(&mut self, err: String)
        ensures
            set_error_step(*old(self), *final(self), err),

    {
        self.load_error = Some(err);
        self.state = AppState::Browsing;
    }
}

/// An optional `String` as text.
pub open spec fn opt_string(s: Option<String>) -> Option<Seq<char>> {
    match s {
        Some(x) => Some(x@),
        None => None,
    }
}

/// `new` is `old` after jumping to row or node `n` (counted from 1, 0
/// counting as 1, stopping at the last): in the document the scroll
/// position, in the browser the tree cursor; nothing while loading.
pub open spec fn went_to_line(pre: App, post: App, n: int) -> bool {
    match pre.state {
        AppState::Viewing => App::parsed_from(pre, post) && post == (App {
            scroll: min_int(sub0(n, 1), sub0(pre.line_count(), 1)) as u16,
            cached_parse: post.cached_parse,
            tree_index: post.tree_index,
            ..pre
        }),
        AppState::Browsing => post == (App { tree_cursor: min_int(sub0(n, 1), tree_max(pre.tree)) as usize, ..pre }),
        AppState::Loading => post == pre,
    }
}

impl App {
    fn ensure_parsed(&mut self)
        ensures
            App::parsed_from(*old(self), *final(self)),
            *final(self) == (App {
                cached_parse: final(self).cached_parse,
                tree_index: final(self).tree_index,
                ..*old(self)
            }),
    {
        if self.cached_parse.is_none() {
            if self.tree_index.is_none() {
                let idx = match &self.tree {
                    Some(t) => build_tree_index(t),
                    None => TreeIndex::new(),
                };
                self.tree_index = Some(idx);
            }
            proof {
                reveal_strlit("");
            }
            let content: &str = match &self.content {
                Some(c) => c.as_str(),
                None => "",
            };
            let base: Option<&str> = match &self.base_dir {
                Some(b) => Some(b.as_str()),
                None => None,
            };
            assert(opt_str(base) == opt_string(self.base_dir));
            let pre = rewrite(content, self.tree_index.as_ref(), base);
            let result = parse_full_with(pre.as_str(), &self.render_cfg, base);
            self.cached_parse = Some(result);
        }
    }

    /// The rendering of the current document (wiki-links rewritten first),
    /// made once and kept until the document or the tree changes.
    pub fn parse_current(&mut self) -> (r: &ParseResult)
        ensures
            r@ == old(self).parse_now(),
            App::parsed_from(*old(self), *final(self)),
            *final(self) == (App {
                cached_parse: final(self).cached_parse,
                tree_index: final(self).tree_index,
                ..*old(self)
            }),
    {
        self.ensure_parsed();
        self.cached_parse.as_ref().unwrap()
    }

    fn total_lines(&mut self) -> (n: usize)
        ensures
            n == old(self).line_count(),
            App::parsed_from(*old(self), *final(self)),
            *final(self) == (App {
                cached_parse: final(self).cached_parse,
                tree_index: final(self).tree_index,
                ..*old(self)
            }),
    {
        self.ensure_parsed();
        match &self.cached_parse {
            Some(p) => p.lines.len(),
            None => 0,
        }
    }

    fn tree_max_index(&self) -> (n: usize)
        ensures
            n == tree_max(self.tree),
    {
        let len: usize = match &self.tree {
            Some(t) => t.visible_count(),
            None => 0,
        };
        len.saturating_sub(1)
    }

    /// Jumps to row or node `n`, counted from 1 (0 counts as 1), stopping at
    /// the last one: in the document the scroll position, in the browser the
    /// tree cursor. Does nothing while loading.
    pub fn goto_line(&mut self, n: usize)
        ensures
            went_to_line(*old(self), *final(self), n as int),
    {
        let idx = n.saturating_sub(1);
        match self.state {
            AppState::Viewing => {
                let max = self.total_lines().saturating_sub(1);
                let target = if idx < max {
                    idx
                } else {
                    max
                };
                self.scroll = target as u16;
            },
            AppState::Browsing => {
                let max = self.tree_max_index();
                self.tree_cursor = if idx < max {
                    idx
                } else {
                    max
                };
            },
            AppState::Loading => {},
        }
    }

    /// Jumps to the end: in the document so that the last `page_size` rows
    /// show, in the browser to the last node. Does nothing while loading.
    pub fn goto_bottom(&mut self, page_size: usize)
        ensures
            goto_bottom_step(*old(self), *final(self), page_size),

    {
        match self.state {
            AppState::Viewing => {
                let total = self.total_lines();
                self.scroll = total.saturating_sub(page_size) as u16;
            },
            AppState::Browsing => {
                self.tree_cursor = self.tree_max_index();
            },
            AppState::Loading => {},
        }
    }

    /// Moves down by `half_page`: in the document no further than the last
    /// row, in the browser no further than the last node. Does nothing while
    /// loading.
    pub fn half_page_down(&mut self, half_page: usize)
        ensures
            half_page_down_step(*old(self), *final(self), half_page),

    {
        match self.state {
            AppState::Viewing => {
                let max = self.total_lines().saturating_sub(1) as u16;
                let moved = self.scroll.saturating_add(half_page as u16);
                self.scroll = if moved < max {
                    moved
                } else {
                    max
                };
            },
            AppState::Browsing => {
                let max = self.tree_max_index();
                let moved = self.tree_cursor.saturating_add(half_page);
                self.tree_cursor = if moved < max {
                    moved
                } else {
                    max
                };
            },
            AppState::Loading => {},
        }
    }

    /// Moves up by `half_page`, stopping at the first row or node. Does
    /// nothing while loading.
    pub fn half_page_up(&mut self, half_page: usize)
        ensures
            half_page_up_step(*old(self), *final(self), half_page),

    {
        match self.state {
            AppState::Viewing => {
                self.scroll = self.scroll.saturating_sub(half_page as u16);
            },
            AppState::Browsing => {
                self.tree_cursor = self.tree_cursor.saturating_sub(half_page);
            },
            AppState::Loading => {},
        }
    }
}

/// The text of a row: its spans' texts, in order.
pub open spec fn line_text(line: Seq<SpanV>) -> Seq<char>
    decreases line.len(),
{
    if line.len() == 0 {
        seq![]
    } else {
        line_text(line.drop_last()) + line.last().text
    }
}

/// The lower-cased texts that a search looks through: the document's rows
/// when viewing, the visible nodes' names when browsing, nothing while
/// loading.
pub open spec fn search_lines(a: App) -> Seq<Seq<char>> {
    match a.state {
        AppState::Viewing => a.parse_now().lines.map_values(|l: Seq<SpanV>| lowercase(line_text(l))),
        AppState::Browsing => match a.tree {
            Some(t) => flat(t).map_values(|n: FileNode| lowercase(crate::fs::node_name(n))),
            None => seq![],
        },
        AppState::Loading => seq![],
    }
}

/// The row or node a search starts from.
pub open spec fn search_index(a: App) -> int {
    match a.state {
        AppState::Viewing => a.scroll as int,
        AppState::Browsing => a.tree_cursor as int,
        AppState::Loading => 0,
    }
}

/// The order in which a search visits the `n` rows when it starts at
/// `from`: onwards (or backwards) from `from`, or from the next one when
/// `skip` is set, wrapping around at the end.
pub open spec fn search_order(n: int, from: int, dir: SearchDirection, skip: bool) -> Seq<int> {
    match dir {
        SearchDirection::Forward => {
            let start = if skip {
                from + 1
            } else {
                from
            };
            Seq::new(sub0(n, start) as nat, |k: int| start + k) + Seq::new(
                min_int(start, n) as nat,
                |k: int| k,
            )
        },
        SearchDirection::Backward => {
            let first = if skip {
                from
            } else {
                from + 1
            };
            Seq::new(first as nat, |k: int| first - 1 - k) + Seq::new(
                sub0(n, min_int(first, n)) as nat,
                |k: int| n - 1 - k,
            )
        },
    }
}

/// The first row of `order` whose text holds `q`.
pub open spec fn first_match(lines: Seq<Seq<char>>, q: Seq<char>, order: Seq<int>) -> Option<int>
    decreases order.len(),
{
    if order.len() == 0 {
        None
    } else if contains_seq(lines[order[0]], q) {
        Some(order[0])
    } else {
        first_match(lines, q, order.drop_first())
    }
}

/// Where a search for `query` lands, if anywhere: the first row, in search
/// order, whose lower-cased text holds the lower-cased query.
pub open spec fn search_result(a: App, query: Seq<char>, dir: SearchDirection, skip: bool) -> Option<int> {
    let lines = search_lines(a);
    let n = lines.len() as int;
    if query.len() == 0 || n == 0 {
        None
    } else {
        first_match(lines, lowercase(query), search_order(n, min_int(search_index(a), n - 1), dir, skip))
    }
}

/// `a` with the search position moved to `i`.
pub open spec fn moved_to(a: App, i: int) -> App {
    match a.state {
        AppState::Viewing => App { scroll: i as u16, ..a },
        AppState::Browsing => App { tree_cursor: i as usize, ..a },
        AppState::Loading => a,
    }
}

/// `old` with the caches of `new`.
pub open spec fn with_caches(pre: App, post: App) -> App {
    App { cached_parse: post.cached_parse, tree_index: post.tree_index, ..pre }
}

proof fn lemma_first_match(lines: Seq<Seq<char>>, q: Seq<char>, order: Seq<int>, j: int)
    requires
        0 <= j <= order.len(),
        forall|k: int| 0 <= k < j ==> !contains_seq(lines[#[trigger] order[k]], q),
    ensures
        first_match(lines, q, order) == first_match(lines, q, order.skip(j)),
    decreases j,
{
    if j > 0 {
        assert(order.drop_first().skip(j - 1) =~= order.skip(j));
        assert(!contains_seq(lines[order[0]], q));
        assert forall|k: int| 0 <= k < j - 1 implies !contains_seq(lines[#[trigger] order.drop_first()[k]], q) by {
            assert(order.drop_first()[k] == order[k + 1]);
        }
        lemma_first_match(lines, q, order.drop_first(), j - 1);
    } else {
        assert(order.skip(0) =~= order);
    }
}

/// A list of indices as integers.
pub open spec fn as_ints(v: Seq<usize>) -> Seq<int> {
    v.map_values(|x: usize| x as int)
}

/// A list of character vectors as texts.
pub open spec fn texts(v: Seq<Vec<char>>) -> Seq<Seq<char>> {
    v.map_values(|l: Vec<char>| l@)
}

proof fn lemma_as_ints_push(v: Seq<usize>, x: usize)
    ensures
        as_ints(v.push(x)) == as_ints(v).push(x as int),
{
    assert(as_ints(v.push(x)) =~= as_ints(v).push(x as int));
}

proof fn lemma_texts_push(v: Seq<Vec<char>>, x: Vec<char>)
    ensures
        texts(v.push(x)) == texts(v).push(x@),
{
    assert(texts(v.push(x)) =~= texts(v).push(x@));
}

fn find_first(lines: &Vec<Vec<char>>, q: &Vec<char>, order: &Vec<usize>) -> (r: Option<usize>)
    requires
        forall|k: int| 0 <= k < order@.len() ==> 0 <= #[trigger] order@[k] < lines@.len(),
    ensures
        match r {
            Some(i) => first_match(texts(lines@), q@, as_ints(order@)) == Some(i as int),
            None => first_match(texts(lines@), q@, as_ints(order@)) is None,
        },
{
    let ghost ls = texts(lines@);
    let ghost ov = as_ints(order@);
    let mut j: usize = 0;
    while j < order.len()
        invariant
            j <= order@.len(),
            ov == as_ints(order@),
            ls == texts(lines@),
            forall|k: int| 0 <= k < order@.len() ==> 0 <= #[trigger] order@[k] < lines@.len(),
            forall|k: int| 0 <= k < j ==> !contains_seq(ls[#[trigger] ov[k]], q@),
        decreases order@.len() - j,
    {
        let i = order[j];
        assert(ov[j as int] == i as int);
        assert(ls[i as int] == lines@[i as int]@);
        if contains_vec(&lines[i], q) {
            proof {
                lemma_first_match(ls, q@, ov, j as int);
            }
            return Some(i);
        }
        j += 1;
    }
    proof {
        lemma_first_match(ls, q@, ov, ov.len() as int);
        assert(ov.skip(ov.len() as int) =~= Seq::<int>::empty());
    }
    None
}

fn row_text(l: &crate::markdown::Line) -> (r: Vec<char>)
    ensures
        r@ == line_text(crate::markdown::line_view(*l)),
{
    let mut out: Vec<char> = Vec::new();
    let mut i: usize = 0;
    let ghost lv = crate::markdown::line_view(*l);
    while i < l.spans.len()
        invariant
            i <= l.spans@.len(),
            lv == crate::markdown::line_view(*l),
            out@ == line_text(lv.take(i as int)),
        decreases l.spans@.len() - i,
    {
        let t = chars_of(l.spans[i].content.as_str());
        assert(lv.take(i + 1).drop_last() =~= lv.take(i as int));
        push_all(&mut out, &t);
        i += 1;
    }
    assert(lv.take(l.spans@.len() as int) =~= lv);
    out
}

fn build_order(n: usize, from: usize, dir: SearchDirection, skip: bool) -> (r: Vec<usize>)
    requires
        from < n,
    ensures
        as_ints(r@) == search_order(n as int, from as int, dir, skip),
        forall|k: int| 0 <= k < r@.len() ==> 0 <= #[trigger] r@[k] < n,
{
    let mut v: Vec<usize> = Vec::new();
    let ghost target = search_order(n as int, from as int, dir, skip);
    match dir {
        SearchDirection::Forward => {
            let start = if skip {
                from + 1
            } else {
                from
            };
            let mut k = start;
            while k < n
                invariant
                    start <= k <= n || (start == n && k == n),
                    as_ints(v@) =~= Seq::new((k - start) as nat, |j: int| start + j),
                decreases n - k,
            {
                let ghost prev = v@;
                v.push(k);
                proof {
                    lemma_as_ints_push(prev, k);
                }
                k += 1;
                assert(as_ints(v@) =~= Seq::new((k - start) as nat, |j: int| start + j));
            }
            let ghost first = as_ints(v@);
            let mut k2: usize = 0;
            while k2 < start && k2 < n
                invariant
                    k2 <= start,
                    k2 <= n,
                    as_ints(v@) =~= first + Seq::new(k2 as nat, |j: int| j),
                decreases n - k2,
            {
                let ghost prev = v@;
                v.push(k2);
                proof {
                    lemma_as_ints_push(prev, k2);
                }
                k2 += 1;
                assert(as_ints(v@) =~= first + Seq::new(k2 as nat, |j: int| j));
            }
            assert(as_ints(v@) =~= target);
        },
        SearchDirection::Backward => {
            let first_n = if skip {
                from
            } else {
                from + 1
            };
            let mut k: usize = 0;
            while k < first_n
                invariant
                    k <= first_n,
                    first_n <= n,
                    as_ints(v@) =~= Seq::new(k as nat, |j: int| first_n - 1 - j),
                decreases first_n - k,
            {
                let ghost prev = v@;
                v.push(first_n - 1 - k);
                proof {
                    lemma_as_ints_push(prev, (first_n - 1 - k) as usize);
                }
                k += 1;
                assert(as_ints(v@) =~= Seq::new(k as nat, |j: int| first_n - 1 - j));
            }
            let ghost first = as_ints(v@);
            let wrap = n - first_n;
            let mut k2: usize = 0;
            while k2 < wrap
                invariant
                    k2 <= wrap,
                    wrap == n - first_n,
                    as_ints(v@) =~= first + Seq::new(k2 as nat, |j: int| n - 1 - j),
                decreases wrap - k2,
            {
                let ghost prev = v@;
                v.push(n - 1 - k2);
                proof {
                    lemma_as_ints_push(prev, (n - 1 - k2) as usize);
                }
                k2 += 1;
                assert(as_ints(v@) =~= first + Seq::new(k2 as nat, |j: int| n - 1 - j));
            }
            assert(as_ints(v@) =~= target);
        },
    }
    assert forall|k: int| 0 <= k < v@.len() implies 0 <= #[trigger] v@[k] < n by {
        assert(as_ints(v@)[k] == v@[k] as int);
        assert(target[k] == v@[k] as int);
    }
    v
}

impl App {
    fn search_target_lines_lower(&mut self) -> (r: Vec<Vec<char>>)
        ensures
            texts(r@) == search_lines(*old(self)),
            final(self).parse_now() == old(self).parse_now(),
            final(self).index_now() == old(self).index_now(),
            *final(self) == with_caches(*old(self), *final(self)),
    {
        let mut out: Vec<Vec<char>> = Vec::new();
        match self.state {
            AppState::Viewing => {
                let ghost lv = old(self).parse_now().lines;
                let result = self.parse_current();
                let mut i: usize = 0;
                while i < result.lines.len()
                    invariant
                        i <= result.lines@.len(),
                        lv == crate::markdown::lines_view(result.lines@),
                        texts(out@) =~= lv.take(i as int).map_values(
                            |l: Seq<SpanV>| lowercase(line_text(l)),
                        ),
                    decreases result.lines@.len() - i,
                {
                    let t = row_text(&result.lines[i]);
                    let low = to_lowercase(&t);
                    let ghost prev = out@;
                    out.push(low);
                    proof {
                        lemma_texts_push(prev, low);
                        assert(lv[i as int] == crate::markdown::line_view(result.lines@[i as int]));
                    }
                    i += 1;
                    assert(texts(out@) =~= lv.take(i as int).map_values(
                        |l: Seq<SpanV>| lowercase(line_text(l)),
                    ));
                }
                assert(lv.take(result.lines@.len() as int) =~= lv);
            },
            AppState::Browsing => {
                match &self.tree {
                    Some(t) => {
                        let nodes = t.visible_nodes();
                        let ghost fl = flat(*t);
                        let mut i: usize = 0;
                        while i < nodes.len()
                            invariant
                                i <= nodes@.len(),
                                fl == crate::fs::refs_view(nodes@),
                                texts(out@) =~= fl.take(i as int).map_values(
                                    |n: FileNode| lowercase(crate::fs::node_name(n)),
                                ),
                            decreases nodes@.len() - i,
                        {
                            let name = nodes[i].name();
                            let nc = chars_of(name.as_str());
                            let low = to_lowercase(&nc);
                            let ghost prev = out@;
                            out.push(low);
                            proof {
                                lemma_texts_push(prev, low);
                                assert(fl[i as int] == *nodes@[i as int]);
                            }
                            i += 1;
                            assert(texts(out@) =~= fl.take(i as int).map_values(
                                |n: FileNode| lowercase(crate::fs::node_name(n)),
                            ));
                        }
                        assert(fl.take(nodes@.len() as int) =~= fl);
                    },
                    None => {
                        assert(texts(out@) =~= search_lines(*old(self)));
                    },
                }
            },
            AppState::Loading => {
                assert(texts(out@) =~= search_lines(*old(self)));
            },
        }
        out
    }

    fn current_search_index(&self) -> (r: usize)
        ensures
            r == search_index(*self),
    {
        match self.state {
            AppState::Viewing => self.scroll as usize,
            AppState::Browsing => self.tree_cursor,
            AppState::Loading => 0,
        }
    }

    fn jump_to(&mut self, idx: usize)
        ensures
            *final(self) == moved_to(*old(self), idx as int),
    {
        match self.state {
            AppState::Viewing => {
                self.scroll = idx as u16;
            },
            AppState::Browsing => {
                self.tree_cursor = idx;
            },
            AppState::Loading => {},
        }
    }

    /// Searches for `query` (ignoring case) from the current row or node,
    /// `direction`-wards, wrapping around; `skip_current` starts from the
    /// next one. Moves there and says whether there was a match.
    fn jump_to_match(&mut self, query: &str, direction: SearchDirection, skip_current: bool) -> (r: bool)
        ensures
            r == search_result(*old(self), query@, direction, skip_current) is Some,
            *final(self) == (match search_result(*old(self), query@, direction, skip_current) {
                Some(i) => moved_to(with_caches(*old(self), *final(self)), i),
                None => with_caches(*old(self), *final(self)),
            }),
            final(self).parse_now() == old(self).parse_now(),
            final(self).index_now() == old(self).index_now(),
    {
        let qc = chars_of(query);
        if qc.len() == 0 {
            return false;
        }
        let lines = self.search_target_lines_lower();
        let ghost ls = texts(lines@);
        let n = lines.len();
        if n == 0 {
            return false;
        }
        let cur = self.current_search_index();
        let from = if cur < n - 1 {
            cur
        } else {
            n - 1
        };
        let q = to_lowercase(&qc);
        let order = build_order(n, from, direction, skip_current);
        assert(search_index(*self) == search_index(*old(self)));
        let found = find_first(&lines, &q, &order);
        match found {
            Some(i) => {
                let ghost mid = *self;
                self.jump_to(i);
                assert(with_caches(*old(self), *self) =~= mid);
                true
            },
            None => false,
        }
    }
}

/// `new` is `old` after a search for `q` going `dir` from the next row or
/// node: moved to the match if there is one, with the status message saying
/// when there is none; the search fields are set by the caller.
pub open spec fn search_applied(pre: App, post: App, q: Seq<char>, dir: SearchDirection) -> bool {
    let found = search_result(pre, q, dir, true);
    &&& post.parse_now() == pre.parse_now()
    &&& post.index_now() == pre.index_now()
    &&& post == (App {
        search_input: post.search_input,
        last_search: post.last_search,
        last_search_direction: post.last_search_direction,
        status_message: post.status_message,
        ..(match found {
            Some(i) => moved_to(with_caches(pre, post), i),
            None => with_caches(pre, post),
        })
    })
    &&& opt_string(post.status_message) == (if found is Some {
        None
    } else {
        Some("Pattern not found: "@ + q)
    })
}

/// The other direction.
pub open spec fn flipped(d: SearchDirection) -> SearchDirection {
    match d {
        SearchDirection::Forward => SearchDirection::Backward,
        SearchDirection::Backward => SearchDirection::Forward,
    }
}

fn not_found_message(q: &[char]) -> (r: String)
    ensures
        r@ == "Pattern not found: "@ + q@,
{
    let mut msg = chars_of("Pattern not found: ");
    push_all(&mut msg, q);
    string_of(&msg)
}

impl App {
    /// Runs the typed search: its text, or the previous search's when
    /// nothing was typed (with no previous search nothing happens), is
    /// remembered with its direction and searched for from the next row or
    /// node; the status message says when there is no match.
    pub fn confirm_search(&mut self)
        ensures
            confirm_search_step(*old(self), *final(self)),

    {
        let input = match self.search_input.take() {
            Some(i) => i,
            None => {
                return;
            },
        };
        let direction = input.direction;
        let query: String = if input.buffer.as_str().unicode_len() == 0 {
            match &self.last_search {
                Some(q) => q.clone(),
                None => {
                    return;
                },
            }
        } else {
            input.buffer
        };
        self.last_search = Some(query.clone());
        self.last_search_direction = direction;
        let found = self.jump_to_match(query.as_str(), direction, true);
        if !found {
            let qc = chars_of(query.as_str());
            self.status_message = Some(not_found_message(&qc));
        } else {
            self.status_message = None;
        }
    }

    /// Searches again for the previous search, the same way or (with
    /// `reverse`) the other way, from the next row or node; the status message
    /// says when there is no previous search or no match.
    pub fn repeat_search(&mut self, reverse: bool)
        ensures
            repeat_search_step(*old(self), *final(self), reverse),

    {
        let query = match &self.last_search {
            Some(q) => q.clone(),
            None => {
                self.status_message = Some("No previous search".to_string());
                return;
            },
        };
        let direction = if reverse {
            match self.last_search_direction {
                SearchDirection::Forward => SearchDirection::Backward,
                SearchDirection::Backward => SearchDirection::Forward,
            }
        } else {
            self.last_search_direction
        };
        let found = self.jump_to_match(query.as_str(), direction, true);
        if !found {
            let qc = chars_of(query.as_str());
            self.status_message = Some(not_found_message(&qc));
        } else {
            self.status_message = None;
        }
    }
}

/// The history with everything after the current entry dropped.
pub open spec fn truncated(h: Seq<HistoryEntry>, pos: Option<usize>) -> Seq<HistoryEntry> {
    match pos {
        Some(p) => if p + 1 < h.len() {
            h.take(p + 1)
        } else {
            h
        },
        None => h,
    }
}

/// The history and position after opening `path`: entries after the current
/// one are dropped; unless `path` is already the current entry, it is added
/// (with scroll 0) and becomes current, and only the newest `HISTORY_CAP`
/// entries are kept.
pub open spec fn after_push(h: Seq<HistoryEntry>, pos: Option<usize>, path: String) -> (
    Seq<HistoryEntry>,
    Option<usize>,
) {
    let t = truncated(h, pos);
    if pos is Some && t.len() > 0 && t.last().path@ == path@ {
        (t, pos)
    } else {
        let h2 = t.push(HistoryEntry { path, scroll: 0 });
        let h3 = if h2.len() > HISTORY_CAP {
            h2.skip(h2.len() - HISTORY_CAP)
        } else {
            h2
        };
        (h3, Some((h3.len() - 1) as usize))
    }
}

/// The history with the current entry's scroll set to `scroll`.
pub open spec fn saved(h: Seq<HistoryEntry>, pos: Option<usize>, scroll: u16) -> Seq<HistoryEntry> {
    match pos {
        Some(p) => if p < h.len() {
            h.update(p as int, HistoryEntry { path: h[p as int].path, scroll })
        } else {
            h
        },
        None => h,
    }
}

/// The position a history move goes to, if it can move.
pub open spec fn nav_target(pos: Option<usize>, len: int, dir: NavDir) -> Option<int> {
    match pos {
        None => None,
        Some(p) => match dir {
            NavDir::Back => if p == 0 {
                None
            } else {
                Some(p - 1)
            },
            NavDir::Forward => if p + 1 >= len {
                None
            } else {
                Some(p + 1)
            },
        },
    }
}

/// The name shown for a document at `path`: its file name, or `untitled`.
pub open spec fn display_name(path: Option<Seq<char>>) -> Seq<char> {
    match path {
        Some(p) => match file_name(p) {
            Some(n) => n,
            None => "untitled"@,
        },
        None => "untitled"@,
    }
}

impl App {
    fn push_history(&mut self, path: String)
        ensures
            (final(self).history@, final(self).history_pos) == after_push(
                old(self).history@,
                old(self).history_pos,
                path,
            ),
            *final(self) == (App {
                history: final(self).history,
                history_pos: final(self).history_pos,
                ..*old(self)
            }),
    {
        let ghost h = self.history@;
        match self.history_pos {
            Some(pos) => {
                if pos < self.history.len() {
                    self.history.truncate(pos + 1);
                }
                assert(self.history@ =~= truncated(h, self.history_pos));
                let len = self.history.len();
                if len > 0 {
                    let a = chars_of(self.history[len - 1].path.as_str());
                    let b = chars_of(path.as_str());
                    if crate::text::chars_eq(&a, &b) {
                        return;
                    }
                }
            },
            None => {},
        }
        let mut hist: VecDeque<HistoryEntry> = VecDeque::new();
        std::mem::swap(&mut hist, &mut self.history);
        hist.push_back(HistoryEntry { path, scroll: 0 });
        let ghost h2 = hist@;
        while hist.len() > HISTORY_CAP
            invariant
                h2.len() >= 1,
                hist@.len() >= 1,
                hist@.len() <= h2.len(),
                hist@ == h2.skip(h2.len() - hist@.len()),
                hist@.len() >= HISTORY_CAP || hist@ == h2,
                h2.len() > HISTORY_CAP ==> hist@.len() >= HISTORY_CAP,
            decreases hist@.len(),
        {
            let ghost before = hist@;
            hist.pop_front();
            assert(hist@ =~= before.skip(1));
            assert(hist@ =~= h2.skip(h2.len() - hist@.len()));
        }
        proof {
            if h2.len() <= HISTORY_CAP {
                assert(h2.skip(0) =~= h2);
            }
        }
        let n = hist.len();
        self.history = hist;
        self.history_pos = Some(n - 1);
    }

    /// Records the current scroll position in the current history entry.
    pub fn save_scroll_to_history(&mut self)
        ensures
            save_scroll_to_history_step(*old(self), *final(self)),

    {
        match self.history_pos {
            Some(pos) => {
                let mut hist: VecDeque<HistoryEntry> = VecDeque::new();
                std::mem::swap(&mut hist, &mut self.history);
                let ghost h = hist@;
                match hist.remove(pos) {
                    Some(e) => {
                        hist.insert(pos, HistoryEntry { path: e.path, scroll: self.scroll });
                        assert(hist@ =~= h.update(pos as int, HistoryEntry { path: h[pos as int].path, scroll: self.scroll }));
                    },
                    None => {},
                }
                self.history = hist;
                assert(self.history@ =~= saved(old(self).history@, old(self).history_pos, old(self).scroll));
            },
            None => {},
        }
    }

    /// Moves through the history in `dir`, first recording the current
    /// scroll position. Gives the path and scroll position to show, or
    /// `None` (changing nothing) at either end.
    pub fn nav_step(&mut self, dir: NavDir) -> (r: Option<(String, u16)>)
        ensures
            nav_step_step(*old(self), *final(self), dir, r),

    {
        let pos = match self.history_pos {
            Some(p) => p,
            None => {
                return None;
            },
        };
        let len = self.history.len();
        let new_pos: usize = match dir {
            NavDir::Back => {
                if pos == 0 {
                    return None;
                }
                pos - 1
            },
            NavDir::Forward => {
                if len == 0 || pos >= len - 1 {
                    return None;
                }
                pos + 1
            },
        };
        self.save_scroll_to_history();
        self.history_pos = Some(new_pos);
        if new_pos < self.history.len() {
            let e = &self.history[new_pos];
            Some((e.path.clone(), e.scroll))
        } else {
            None
        }
    }

    /// Shows `content`, read from `path` (if any) in `base_dir`: the viewer
    /// switches to the document at the pending scroll position (or the top),
    /// with no link selected and a fresh rendering. The file is added to the
    /// history, unless the move came from the history itself, in which case
    /// only that flag is cleared; the scroll of the entry left is recorded
    /// first in the same case as the file is added.
    pub fn set_content(&mut self, path: Option<String>, content: String, base_dir: Option<String>)
        ensures
            set_content_step(*old(self), *final(self), path, content, base_dir),

    {
        if !self.suppress_history_push {
            self.save_scroll_to_history();
        }
        let derived: String = match &path {
            Some(p) => {
                let pc = chars_of(p.as_str());
                match file_name_vec(&pc) {
                    Some(n) => string_of(&n),
                    None => "untitled".to_string(),
                }
            },
            None => "untitled".to_string(),
        };
        self.content = Some(content);
        self.file_name = Some(derived);
        self.base_dir = base_dir;
        self.scroll = match self.pending_scroll.take() {
            Some(s) => s,
            None => 0,
        };
        self.state = AppState::Viewing;
        self.selected_link = None;
        self.cached_parse = None;
        match path {
            Some(p) => {
                if self.suppress_history_push {
                    self.suppress_history_push = false;
                } else {
                    self.push_history(p);
                }
            },
            None => {},
        }
    }
}

/// The history never grows past `HISTORY_CAP` entries: opening a file keeps
/// a history of at most `HISTORY_CAP` entries at most that long.
pub proof fn lemma_history_capped(h: Seq<HistoryEntry>, pos: Option<usize>, path: String)
    requires
        h.len() <= HISTORY_CAP,
    ensures
        after_push(h, pos, path).0.len() <= HISTORY_CAP,
{
}

/// Opening a file makes it the current history entry (from a history whose
/// position, if any, is one of its entries).
pub proof fn lemma_open_becomes_current(h: Seq<HistoryEntry>, pos: Option<usize>, path: String)
    requires
        pos matches Some(p) ==> p < h.len(),
    ensures
        ({
            let (h2, pos2) = after_push(h, pos, path);
            pos2 matches Some(p2) && p2 < h2.len() && h2[p2 as int].path@ == path@
        }),
{
    let t = truncated(h, pos);
    if pos is Some && t.len() > 0 && t.last().path@ == path@ {
        let p = pos->0;
        if p + 1 < h.len() {
            assert(t.len() == p + 1);
        }
    } else {
        let h2 = t.push(HistoryEntry { path, scroll: 0 });
        if h2.len() > HISTORY_CAP {
            let h3 = h2.skip(h2.len() - HISTORY_CAP);
            assert(h3[h3.len() - 1] == h2[h2.len() - 1]);
        }
    }
}

/// Opening the file that is already the newest, current entry leaves the
/// history as it is.
pub proof fn lemma_reopen_keeps_history(h: Seq<HistoryEntry>, p: usize, path: String)
    requires
        p + 1 == h.len(),
        h[p as int].path@ == path@,
    ensures
        after_push(h, Some(p), path) == (h, Some(p)),
{
}

/// Going back and then forward returns to the entry that was left, with the
/// scroll position it was left at.
pub proof fn lemma_back_then_forward(h: Seq<HistoryEntry>, p: usize, s1: u16, s2: u16)
    requires
        0 < p < h.len(),
    ensures
        nav_target(Some(p), h.len() as int, NavDir::Back) == Some(p - 1),
        ({
            let h1 = saved(h, Some(p), s1);
            &&& nav_target(Some((p - 1) as usize), h1.len() as int, NavDir::Forward) == Some(p as int)
            &&& saved(h1, Some((p - 1) as usize), s2)[p as int] == (HistoryEntry { path: h[p as int].path, scroll: s1 })
        }),
{
}

/// The history is well formed: at most `HISTORY_CAP` entries, a position
/// exactly when there are entries, and that position on one of them.
pub open spec fn history_inv(a: App) -> bool {
    &&& a.history@.len() <= HISTORY_CAP
    &&& (a.history_pos is None <==> a.history@.len() == 0)
    &&& (a.history_pos matches Some(p) ==> p < a.history@.len())
}

proof fn lemma_saved_len(h: Seq<HistoryEntry>, pos: Option<usize>, scroll: u16)
    ensures
        saved(h, pos, scroll).len() == h.len(),
        forall|i: int| 0 <= i < h.len() ==> (#[trigger] saved(h, pos, scroll)[i]).path == h[i].path,
{
}

/// Showing a document keeps the history well formed. When it is recorded
/// (a path is given and no history move is under way), it becomes the
/// newest entry and the current one.
pub proof fn lemma_set_content_history(
    pre: App,
    post: App,
    path: Option<String>,
    content: String,
    base_dir: Option<String>,
)
    requires
        history_inv(pre),
        set_content_step(pre, post, path, content, base_dir),
    ensures
        history_inv(post),
        !pre.suppress_history_push && path is Some ==> {
            &&& post.history_pos == Some((post.history@.len() - 1) as usize)
            &&& post.history@.last().path@ == path->0@
        },
{
    let h1 = if pre.suppress_history_push {
        pre.history@
    } else {
        saved(pre.history@, pre.history_pos, pre.scroll)
    };
    lemma_saved_len(pre.history@, pre.history_pos, pre.scroll);
    if let Some(p) = path {
        if !pre.suppress_history_push {
            lemma_history_capped(h1, pre.history_pos, p);
            lemma_open_becomes_current(h1, pre.history_pos, p);
            let t = truncated(h1, pre.history_pos);
            if pre.history_pos is Some && t.len() > 0 && t.last().path@ == p@ {
                let q = pre.history_pos->0;
                if q + 1 < h1.len() {
                    assert(t.len() == q + 1);
                }
            }
        }
    }
}

/// A history move keeps the history well formed, and it is made exactly
/// when there is an entry to move to, whose path and scroll it hands back.
pub proof fn lemma_nav_step_history(pre: App, post: App, dir: NavDir, r: Option<(String, u16)>)
    requires
        history_inv(pre),
        nav_step_step(pre, post, dir, r),
    ensures
        history_inv(post),
        r is Some <==> nav_target(pre.history_pos, pre.history@.len() as int, dir) is Some,
{
    lemma_saved_len(pre.history@, pre.history_pos, pre.scroll);
}

/// Saving the scroll position keeps the history well formed.
pub proof fn lemma_save_scroll_history(pre: App, post: App)
    requires
        history_inv(pre),
        save_scroll_to_history_step(pre, post),
    ensures
        history_inv(post),
{
    lemma_saved_len(pre.history@, pre.history_pos, pre.scroll);
}

/// The link selected after moving `step` links from `selected` among `n`
/// links, wrapping around; with none selected, a forward move selects the
/// first link and a backward move the last.
pub open spec fn cycled(selected: Option<usize>, step: i32, n: int) -> int {
    match selected {
        Some(i) => (i + step) % n,
        None => if step >= 0 {
            0
        } else {
            n - 1
        },
    }
}

/// The scroll position that brings row `line` into a view of `viewport`
/// rows starting at `scroll`: unchanged when it shows already, else with the
/// row at the top (moving up) or at the bottom (moving down).
pub open spec fn scrolled_to(scroll: u16, line: u16, viewport: u16) -> u16 {
    if line < scroll {
        line
    } else if line >= min_int(scroll + viewport, u16::MAX as int) {
        sub0(line as int, sub0(viewport as int, 1)) as u16
    } else {
        scroll
    }
}

/// The first link whose text covers column `col` of row `line`.
pub open spec fn link_hit(links: Seq<LinkRefV>, line: int, col: int) -> Option<int>
    decreases links.len(),
{
    if links.len() == 0 {
        None
    } else if links[0].line == line && links[0].col_start <= col < links[0].col_end {
        Some(0)
    } else {
        match link_hit(links.drop_first(), line, col) {
            Some(k) => Some(k + 1),
            None => None,
        }
    }
}

/// The row and column of the document under terminal cell (`col`, `row`),
/// when it is inside the preview body and right of the line-number gutter.
pub open spec fn cell_position(body: Rect, gutter: u16, scroll: u16, col: u16, row: u16) -> Option<(int, int)> {
    if col < body.x || col >= min_int(body.x + body.width, u16::MAX as int) || row < body.y || row >= min_int(
        body.y + body.height,
        u16::MAX as int,
    ) {
        None
    } else if col - body.x < gutter {
        None
    } else {
        Some(((row - body.y) + scroll, col - body.x - gutter))
    }
}

proof fn lemma_neg_mod(t: int, n: int, k: int)
    requires
        n > 0,
        t < 0,
        k == (-t) % n,
    ensures
        t % n == (if k == 0 {
            0
        } else {
            n - k
        }),
{
    let a = -t;
    let q = a / n;
    assert(a == q * n + k) by (nonlinear_arith)
        requires
            n > 0,
            q == a / n,
            k == a % n,
    ;
    assert(0 <= k < n) by (nonlinear_arith)
        requires
            n > 0,
            k == a % n,
    ;
    if k == 0 {
        assert(t == (-q) * n) by (nonlinear_arith)
            requires
                a == q * n + k,
                k == 0,
                t == -a,
        ;
        vstd::arithmetic::div_mod::lemma_mod_multiples_basic(-q, n);
    } else {
        assert(t == (-q - 1) * n + (n - k)) by (nonlinear_arith)
            requires
                a == q * n + k,
                t == -a,
        ;
        vstd::arithmetic::div_mod::lemma_mod_multiples_vanish(-q - 1, n - k, n);
        vstd::arithmetic::div_mod::lemma_small_mod((n - k) as nat, n as nat);
    }
}

fn find_link_hit(links: &Vec<LinkRef>, line: usize, col: usize) -> (r: Option<usize>)
    ensures
        match r {
            Some(k) => link_hit(links@.map_values(|l: LinkRef| link_view(l)), line as int, col as int) == Some(
                k as int,
            ),
            None => link_hit(links@.map_values(|l: LinkRef| link_view(l)), line as int, col as int) is None,
        },
{
    let ghost lv = links@.map_values(|l: LinkRef| link_view(l));
    let mut k: usize = 0;
    assert(lv.skip(0) =~= lv);
    while k < links.len()
        invariant
            k <= links@.len(),
            lv == links@.map_values(|l: LinkRef| link_view(l)),
            link_hit(lv, line as int, col as int) == match link_hit(lv.skip(k as int), line as int, col as int) {
                Some(j) => Some(j + k),
                None => None,
            },
        decreases links@.len() - k,
    {
        let l = &links[k];
        assert(lv[k as int] == link_view(*l));
        assert(lv.skip(k as int)[0] == lv[k as int]);
        assert(lv.skip(k as int).drop_first() =~= lv.skip(k + 1));
        if l.line == line && col >= l.col_start && col < l.col_end {
            return Some(k);
        }
        k += 1;
    }
    assert(lv.skip(k as int) =~= Seq::<LinkRefV>::empty());
    None
}

fn copy_link(l: &LinkRef) -> (r: LinkRef)
    ensures
        link_view(r) == link_view(*l),
{
    let target = match &l.target {
        crate::markdown::LinkTarget::Local(p) => crate::markdown::LinkTarget::Local(p.clone()),
        crate::markdown::LinkTarget::Url(u) => crate::markdown::LinkTarget::Url(u.clone()),
    };
    LinkRef { line: l.line, col_start: l.col_start, col_end: l.col_end, target }
}

impl App {
    /// Selects the link `step` links away (+1 next, -1 previous), wrapping
    /// around, and scrolls it into a view of `viewport` rows; the status
    /// message says when the document has no links.
    pub fn cycle_link(&mut self, step: i32, viewport: usize)
        ensures
            cycle_link_step(*old(self), *final(self), step, viewport),

    {
        let ghost links = old(self).parse_now().links;
        let first = self.parse_current();
        let n = first.links.len();
        assert(first@.links.len() == n);
        let ghost mid = *self;
        if n == 0 {
            self.selected_link = None;
            self.status_message = Some("No links".to_string());
            return;
        }
        let next: usize = match self.selected_link {
            Some(i) => {
                let t: i128 = i as i128 + step as i128;
                if t >= 0 {
                    let r = (t as u128 % n as u128) as usize;
                    proof {
                        assert(r as int == (i + step) % (n as int));
                    }
                    r
                } else {
                    let k = ((-t) as u128 % n as u128) as usize;
                    proof {
                        lemma_neg_mod(t as int, n as int, k as int);
                    }
                    if k == 0 {
                        0
                    } else {
                        n - k
                    }
                }
            },
            None => {
                if step >= 0 {
                    0
                } else {
                    n - 1
                }
            },
        };
        assert(0 <= next < n) by {
            if let Some(i) = self.selected_link {
                vstd::arithmetic::div_mod::lemma_mod_bound((i + step) as int, n as int);
            }
        }
        self.selected_link = Some(next);
        self.status_message = None;
        assert(self.parse_now() == old(self).parse_now());
        let current = self.parse_current();
        assert(current@.links.len() == current.links@.len());
        assert(current.links@.len() == n);
        let line_usize = current.links[next].line;
        let line = line_usize as u16;
        let vp: u16 = (if viewport >= 1 {
            viewport
        } else {
            1
        }) as u16;
        if line < self.scroll {
            self.scroll = line;
        } else if line >= self.scroll.saturating_add(vp) {
            self.scroll = line.saturating_sub(vp.saturating_sub(1));
        }
    }

    /// The selected link, if one is selected and the document has it.
    pub fn current_link(&mut self) -> (r: Option<LinkRef>)
        ensures
            current_link_step(*old(self), *final(self), r),

    {
        let idx = match self.selected_link {
            Some(i) => i,
            None => {
                return None;
            },
        };
        let result = self.parse_current();
        if idx < result.links.len() {
            Some(copy_link(&result.links[idx]))
        } else {
            None
        }
    }

    /// The link under terminal cell (`term_col`, `term_row`), if the cell is
    /// in the preview body, right of the gutter, on a link's text.
    pub fn link_at_terminal(&mut self, term_col: u16, term_row: u16) -> (r: Option<usize>)
        ensures
            link_at_terminal_step(*old(self), *final(self), term_col, term_row, r),

    {
        let body = match self.last_preview_body {
            Some(b) => b,
            None => {
                return None;
            },
        };
        if term_col < body.x || term_col >= body.x.saturating_add(body.width) || term_row < body.y
            || term_row >= body.y.saturating_add(body.height) {
            return None;
        }
        let local_col = term_col - body.x;
        if local_col < self.last_gutter_width {
            return None;
        }
        let char_col = (local_col - self.last_gutter_width) as usize;
        let line_index = (term_row - body.y) as usize + self.scroll as usize;
        let result = self.parse_current();
        find_link_hit(&result.links, line_index, char_col)
    }
}

/// The cursor kept on a node: at most the last of `len` nodes (0 without
/// nodes).
pub open spec fn clamped(cursor: usize, len: int) -> usize {
    if len == 0 {
        0
    } else if cursor >= len {
        (len - 1) as usize
    } else {
        cursor
    }
}

/// Whether the visible node at `cursor` is a collapsed directory whose
/// children have not been read yet.
pub open spec fn needs_listing(tree: Option<FileNode>, cursor: int) -> bool {
    match tree {
        Some(t) => 0 <= cursor < flat(t).len() && flat(t)[cursor] is Dir && !flat(t)[cursor]->expanded
            && flat(t)[cursor]->children@.len() == 0,
        None => false,
    }
}

/// What toggling the node at the cursor does: a directory whose children
/// were just read gets them and opens; any other directory flips.
pub open spec fn toggle_op(tree: Option<FileNode>, cursor: int, listing: Option<Vec<FileNode>>) -> NodeOp {
    match listing {
        Some(kids) => if needs_listing(tree, cursor) {
            NodeOp::Expand(kids)
        } else {
            NodeOp::Toggle
        },
        None => NodeOp::Toggle,
    }
}

impl App {
    /// The visible node at the tree cursor.
    pub fn selected_node(&self) -> (r: Option<&FileNode>)
        ensures
            match self.tree {
                None => r is None,
                Some(t) => if self.tree_cursor < flat(t).len() {
                    r == Some(&flat(t)[self.tree_cursor as int])
                } else {
                    r is None
                },
            },
    {
        match &self.tree {
            None => None,
            Some(t) => {
                let nodes = t.visible_nodes();
                if self.tree_cursor < nodes.len() {
                    assert(crate::fs::refs_view(nodes@)[self.tree_cursor as int] == *nodes@[self.tree_cursor as int]);
                    Some(nodes[self.tree_cursor])
                } else {
                    None
                }
            },
        }
    }

    /// The path of the directory at the cursor when it must be read before
    /// it can open: a collapsed directory with no children yet.
    pub fn selected_listing_path(&self) -> (r: Option<String>)
        ensures
            match r {
                Some(p) => needs_listing(self.tree, self.tree_cursor as int) && p@ == flat(
                    self.tree->0,
                )[self.tree_cursor as int]->path@,
                None => !needs_listing(self.tree, self.tree_cursor as int),
            },
    {
        match self.selected_node() {
            Some(FileNode::Dir { path, children, expanded, .. }) => {
                if !*expanded && children.len() == 0 {
                    Some(path.clone())
                } else {
                    None
                }
            },
            _ => None,
        }
    }

    fn clamp_cursor(&mut self)
        ensures
            *final(self) == (App {
                tree_cursor: clamped(old(self).tree_cursor, tree_len(old(self).tree)),
                ..*old(self)
            }),
    {
        let len: usize = match &self.tree {
            Some(t) => t.visible_count(),
            None => 0,
        };
        if len == 0 {
            self.tree_cursor = 0;
        } else if self.tree_cursor >= len {
            self.tree_cursor = len - 1;
        }
    }

    fn apply_to_selected(&mut self, op: NodeOp)
        ensures
            match old(self).tree {
                None => *final(self) == *old(self),
                Some(t) => final(self).tree matches Some(t2) && applied_at(
                    t,
                    t2,
                    old(self).tree_cursor as nat,
                    op,
                ) && *final(self) == (App { tree: final(self).tree, ..*old(self) }),
            },
    {
        match self.tree.take() {
            Some(mut t) => {
                t.apply_at(self.tree_cursor, op);
                self.tree = Some(t);
            },
            None => {},
        }
    }

    /// Opens or closes the directory at the cursor. A collapsed directory
    /// whose children were not read yet takes `listing`, the children just
    /// read (see `selected_listing_path`). The cursor is kept on a node, and
    /// the wiki-link index and the rendering are dropped, since the known
    /// files may have changed.
    pub fn toggle_selected(&mut self, listing: Option<Vec<FileNode>>)
        ensures
            toggle_selected_step(*old(self), *final(self), listing),

    {
        if self.tree.is_none() {
            return;
        }
        let needs = self.selected_listing_path().is_some();
        let op = match listing {
            Some(kids) => if needs {
                NodeOp::Expand(kids)
            } else {
                NodeOp::Toggle
            },
            None => NodeOp::Toggle,
        };
        self.apply_to_selected(op);
        self.clamp_cursor();
        self.tree_index = None;
        self.cached_parse = None;
    }

    /// Closes the directory at the cursor (files and closed directories
    /// stay as they are) and keeps the cursor on a node.
    pub fn collapse_selected(&mut self)
        ensures
            collapse_selected_step(*old(self), *final(self)),

    {
        if self.tree.is_none() {
            return;
        }
        self.apply_to_selected(NodeOp::Collapse);
        self.clamp_cursor();
    }
}

impl App {
    /// Runs the `:N` prompt: jumps to row or node N (a number that does not
    /// parse counts as 1) and clears the status message; an empty prompt
    /// just closes.
    pub fn confirm_line_prompt(&mut self)
        ensures
            confirm_line_prompt_step(*old(self), *final(self)),

    {
        let p = match self.line_prompt.take() {
            Some(p) => p,
            None => {
                return;
            },
        };
        let digits = chars_of(p.buffer.as_str());
        if digits.len() == 0 {
            return;
        }
        let n: usize = match parse_number(&digits, usize::MAX as u64) {
            Some(v) => v as usize,
            None => 1,
        };
        let ghost before = *self;
        self.goto_line(n);
        let ghost after = *self;
        self.status_message = None;
        assert((App { status_message: old(self).status_message, ..*self }) == after);
    }
}

/// What `App::quit` does: `post` is `pre` after the call.
pub open spec fn quit_step(pre: App, post: App) -> bool {
    post == (App { running: false, ..pre })
}

/// What `App::scroll_down` does: `post` is `pre` after the call.
pub open spec fn scroll_down_step(pre: App, post: App) -> bool {
    post == (App {
        scroll: if pre.scroll == u16::MAX {
            u16::MAX
        } else {
            (pre.scroll + 1) as u16
        },
        ..pre
    })
}

/// What `App::scroll_up` does: `post` is `pre` after the call.
pub open spec fn scroll_up_step(pre: App, post: App) -> bool {
    post == (App {
        scroll: if pre.scroll == 0 {
            0
        } else {
            (pre.scroll - 1) as u16
        },
        ..pre
    })
}

/// What `App::scroll_top` does: `post` is `pre` after the call.
pub open spec fn scroll_top_step(pre: App, post: App) -> bool {
    post == (App { scroll: 0, ..pre })
}

/// What `App::cursor_down` does: `post` is `pre` after the call.
pub open spec fn cursor_down_step(pre: App, post: App) -> bool {
    post == (App {
        tree_cursor: if pre.tree_cursor + 1 < tree_len(pre.tree) {
            (pre.tree_cursor + 1) as usize
        } else {
            pre.tree_cursor
        },
        ..pre
    })
}

/// What `App::cursor_up` does: `post` is `pre` after the call.
pub open spec fn cursor_up_step(pre: App, post: App) -> bool {
    post == (App { tree_cursor: sub0(pre.tree_cursor as int, 1) as usize, ..pre })
}

/// What `App::cursor_top` does: `post` is `pre` after the call.
pub open spec fn cursor_top_step(pre: App, post: App) -> bool {
    post == (App { tree_cursor: 0, ..pre })
}

/// What `App::push_count_digit` does: `post` is `pre` after the call (with result `r`).
pub open spec fn push_count_digit_step(pre: App, post: App, c: char, r: bool) -> bool {
    &&& r == (is_digit(c) && !(c == '0' && pre.count_buffer@.len() == 0))
    &&& !r ==> post == pre
    &&& post.count_buffer@ == (if r && pre.count_buffer@.len() < 6 {
        pre.count_buffer@.push(c)
    } else {
        pre.count_buffer@
    })
    &&& post == (App { count_buffer: post.count_buffer, ..pre })
}

/// What `App::take_count` does: `post` is `pre` after the call (with result `r`).
pub open spec fn take_count_step(pre: App, post: App, r: u32) -> bool {
    &&& r == (match parse_unsigned(pre.count_buffer@, u32::MAX as int) {
        Some(v) => if v < 1 {
            1
        } else if v > 10000 {
            10000
        } else {
            v
        },
        None => 1,
    })
    &&& post.count_buffer@ == Seq::<char>::empty()
    &&& post == (App { count_buffer: post.count_buffer, ..pre })
}

/// What `App::start_line_prompt` does: `post` is `pre` after the call.
pub open spec fn start_line_prompt_step(pre: App, post: App) -> bool {
    &&& post.line_prompt is Some
    &&& post.line_prompt->0.buffer@ == Seq::<char>::empty()
    &&& post == (App {
        line_prompt: post.line_prompt,
        status_message: None,
        ..pre
    })
}

/// What `App::cancel_line_prompt` does: `post` is `pre` after the call.
pub open spec fn cancel_line_prompt_step(pre: App, post: App) -> bool {
    post == (App { line_prompt: None, ..pre })
}

/// What `App::line_prompt_push` does: `post` is `pre` after the call.
pub open spec fn line_prompt_push_step(pre: App, post: App, c: char) -> bool {
    match pre.line_prompt {
        Some(p) => if is_digit(c) && p.buffer@.len() < 9 {
            post.line_prompt is Some && post.line_prompt->0.buffer@ == p.buffer@.push(c)
                && post == (App { line_prompt: post.line_prompt, ..pre })
        } else {
            post == pre
        },
        None => post == pre,
    }
}

/// What `App::line_prompt_pop` does: `post` is `pre` after the call.
pub open spec fn line_prompt_pop_step(pre: App, post: App) -> bool {
    match pre.line_prompt {
        Some(p) => post.line_prompt is Some && post.line_prompt->0.buffer@ == (
        if p.buffer@.len() > 0 {
            p.buffer@.drop_last()
        } else {
            p.buffer@
        }) && post == (App { line_prompt: post.line_prompt, ..pre }),
        None => post == pre,
    }
}

/// What `App::start_search` does: `post` is `pre` after the call.
pub open spec fn start_search_step(pre: App, post: App, direction: SearchDirection) -> bool {
    &&& post.search_input is Some
    &&& post.search_input->0.direction == direction
    &&& post.search_input->0.buffer@ == Seq::<char>::empty()
    &&& post == (App {
        search_input: post.search_input,
        status_message: None,
        ..pre
    })
}

/// What `App::cancel_search` does: `post` is `pre` after the call.
pub open spec fn cancel_search_step(pre: App, post: App) -> bool {
    post == (App { search_input: None, ..pre })
}

/// What `App::search_input_push` does: `post` is `pre` after the call.
pub open spec fn search_input_push_step(pre: App, post: App, c: char) -> bool {
    match pre.search_input {
        Some(i) => post.search_input is Some && post.search_input->0.direction
            == i.direction && post.search_input->0.buffer@ == i.buffer@.push(c) && post == (App { search_input: post.search_input, ..pre }),
        None => post == pre,
    }
}

/// What `App::search_input_pop` does: `post` is `pre` after the call.
pub open spec fn search_input_pop_step(pre: App, post: App) -> bool {
    match pre.search_input {
        Some(i) => post.search_input is Some && post.search_input->0.direction
            == i.direction && post.search_input->0.buffer@ == (if i.buffer@.len() > 0 {
            i.buffer@.drop_last()
        } else {
            i.buffer@
        }) && post == (App { search_input: post.search_input, ..pre }),
        None => post == pre,
    }
}

/// What `App::set_loading` does: `post` is `pre` after the call.
pub open spec fn set_loading_step(pre: App, post: App) -> bool {
    post == (App { state: AppState::Loading, content: None, load_error: None, ..pre })
}

/// What `App::set_error` does: `post` is `pre` after the call.
pub open spec fn set_error_step(pre: App, post: App, err: String) -> bool {
    post == (App { load_error: Some(err), state: AppState::Browsing, ..pre })
}

/// What `App::goto_bottom` does: `post` is `pre` after the call.
pub open spec fn goto_bottom_step(pre: App, post: App, page_size: usize) -> bool {
    match pre.state {
        AppState::Viewing => App::parsed_from(pre, post) && post == (App {
            scroll: sub0(pre.line_count(), page_size as int) as u16,
            cached_parse: post.cached_parse,
            tree_index: post.tree_index,
            ..pre
        }),
        AppState::Browsing => post == (App {
            tree_cursor: tree_max(pre.tree) as usize,
            ..pre
        }),
        AppState::Loading => post == pre,
    }
}

/// What `App::half_page_down` does: `post` is `pre` after the call.
pub open spec fn half_page_down_step(pre: App, post: App, half_page: usize) -> bool {
    match pre.state {
        AppState::Viewing => App::parsed_from(pre, post) && post == (App {
            scroll: min_int(
                min_int(pre.scroll + (half_page as u16), u16::MAX as int),
                (sub0(pre.line_count(), 1) as u16) as int,
            ) as u16,
            cached_parse: post.cached_parse,
            tree_index: post.tree_index,
            ..pre
        }),
        AppState::Browsing => post == (App {
            tree_cursor: min_int(pre.tree_cursor + half_page, tree_max(pre.tree)) as usize,
            ..pre
        }),
        AppState::Loading => post == pre,
    }
}

/// What `App::half_page_up` does: `post` is `pre` after the call.
pub open spec fn half_page_up_step(pre: App, post: App, half_page: usize) -> bool {
    match pre.state {
        AppState::Viewing => post == (App {
            scroll: sub0(pre.scroll as int, (half_page as u16) as int) as u16,
            ..pre
        }),
        AppState::Browsing => post == (App {
            tree_cursor: sub0(pre.tree_cursor as int, half_page as int) as usize,
            ..pre
        }),
        AppState::Loading => post == pre,
    }
}

/// What `App::confirm_search` does: `post` is `pre` after the call.
pub open spec fn confirm_search_step(pre: App, post: App) -> bool {
    match pre.search_input {
        None => post == pre,
        Some(inp) => if inp.buffer@.len() == 0 && pre.last_search is None {
            post == (App { search_input: None, ..pre })
        } else {
            let q = if inp.buffer@.len() == 0 {
                pre.last_search->0@
            } else {
                inp.buffer@
            };
            &&& post.search_input is None
            &&& opt_string(post.last_search) == Some(q)
            &&& post.last_search_direction == inp.direction
            &&& search_applied(pre, post, q, inp.direction)
        },
    }
}

/// What `App::repeat_search` does: `post` is `pre` after the call.
pub open spec fn repeat_search_step(pre: App, post: App, reverse: bool) -> bool {
    match pre.last_search {
        None => opt_string(post.status_message) == Some("No previous search"@) && post
            == (App { status_message: post.status_message, ..pre }),
        Some(q) => {
            let dir = if reverse {
                flipped(pre.last_search_direction)
            } else {
                pre.last_search_direction
            };
            &&& post.search_input == pre.search_input
            &&& post.last_search == pre.last_search
            &&& post.last_search_direction == pre.last_search_direction
            &&& search_applied(pre, post, q@, dir)
        },
    }
}

/// What `App::save_scroll_to_history` does: `post` is `pre` after the call.
pub open spec fn save_scroll_to_history_step(pre: App, post: App) -> bool {
    &&& post == (App {
        history: post.history,
        ..pre
    })
    &&& post.history@ == saved(pre.history@, pre.history_pos, pre.scroll)
}

/// What `App::nav_step` does: `post` is `pre` after the call (with result `r`).
pub open spec fn nav_step_step(pre: App, post: App, dir: NavDir, r: Option<(String, u16)>) -> bool {
    match nav_target(pre.history_pos, pre.history@.len() as int, dir) {
        None => r is None && post == pre,
        Some(np) => {
            let h = saved(pre.history@, pre.history_pos, pre.scroll);
            &&& post.history@ == h
            &&& post == (App {
                history: post.history,
                history_pos: Some(np as usize),
                ..pre
            })
            &&& r == (if np < h.len() {
                Some((h[np].path, h[np].scroll))
            } else {
                None
            })
        },
    }
}

/// What `App::set_content` does: `post` is `pre` after the call.
pub open spec fn set_content_step(pre: App, post: App, path: Option<String>, content: String, base_dir: Option<String>) -> bool {
    &&& post.content == Some(content)
    &&& opt_string(post.file_name) == Some(display_name(opt_string(path)))
    &&& post.base_dir == base_dir
    &&& post.scroll == (match pre.pending_scroll {
        Some(s) => s,
        None => 0,
    })
    &&& post.pending_scroll is None
    &&& post.state == AppState::Viewing
    &&& post.selected_link is None
    &&& post.cached_parse is None
    &&& ({
        let h1 = if pre.suppress_history_push {
            pre.history@
        } else {
            saved(pre.history@, pre.history_pos, pre.scroll)
        };
        match path {
            Some(p) => if pre.suppress_history_push {
                post.history@ == h1 && post.history_pos == pre.history_pos
                    && !post.suppress_history_push
            } else {
                (post.history@, post.history_pos) == after_push(h1, pre.history_pos, p)
                    && !post.suppress_history_push
            },
            None => post.history@ == h1 && post.history_pos == pre.history_pos
                && post.suppress_history_push == pre.suppress_history_push,
        }
    })
    &&& post == (App {
        content: post.content,
        file_name: post.file_name,
        base_dir: post.base_dir,
        scroll: post.scroll,
        pending_scroll: None,
        state: AppState::Viewing,
        selected_link: None,
        cached_parse: None,
        history: post.history,
        history_pos: post.history_pos,
        suppress_history_push: post.suppress_history_push,
        ..pre
    })
}

/// What `App::cycle_link` does: `post` is `pre` after the call.
pub open spec fn cycle_link_step(pre: App, post: App, step: i32, viewport: usize) -> bool {
    &&& App::parsed_from(pre, post)
    &&& ({
        let links = pre.parse_now().links;
        let n = links.len() as int;
        if n == 0 {
            &&& post.selected_link is None
            &&& opt_string(post.status_message) == Some("No links"@)
            &&& post == (App {
                selected_link: None,
                status_message: post.status_message,
                ..with_caches(pre, post)
            })
        } else {
            let next = cycled(pre.selected_link, step, n);
            let vp = (if viewport >= 1 {
                viewport
            } else {
                1
            }) as u16;
            post == (App {
                selected_link: Some(next as usize),
                status_message: None,
                scroll: scrolled_to(pre.scroll, links[next].line as u16, vp),
                ..with_caches(pre, post)
            })
        }
    })
}

/// What `App::current_link` does: `post` is `pre` after the call (with result `r`).
pub open spec fn current_link_step(pre: App, post: App, r: Option<LinkRef>) -> bool {
    match pre.selected_link {
        None => r is None && post == pre,
        Some(i) => {
            &&& App::parsed_from(pre, post)
            &&& post == with_caches(pre, post)
            &&& match r {
                Some(l) => i < pre.parse_now().links.len() && link_view(l) == pre.parse_now().links[i as int],
                None => i >= pre.parse_now().links.len(),
            }
        },
    }
}

/// What `App::link_at_terminal` does: `post` is `pre` after the call (with result `r`).
pub open spec fn link_at_terminal_step(pre: App, post: App, term_col: u16, term_row: u16, r: Option<usize>) -> bool {
    match pre.last_preview_body {
        None => r is None && post == pre,
        Some(body) => match cell_position(
            body,
            pre.last_gutter_width,
            pre.scroll,
            term_col,
            term_row,
        ) {
            None => r is None && post == pre,
            Some((line, col)) => {
                &&& App::parsed_from(pre, post)
                &&& post == with_caches(pre, post)
                &&& match r {
                    Some(k) => link_hit(pre.parse_now().links, line, col) == Some(k as int),
                    None => link_hit(pre.parse_now().links, line, col) is None,
                }
            },
        },
    }
}

/// What `App::toggle_selected` does: `post` is `pre` after the call.
pub open spec fn toggle_selected_step(pre: App, post: App, listing: Option<Vec<FileNode>>) -> bool {
    match pre.tree {
        None => post == pre,
        Some(t) => post.tree matches Some(t2) && applied_at(
            t,
            t2,
            pre.tree_cursor as nat,
            toggle_op(pre.tree, pre.tree_cursor as int, listing),
        ) && post == (App {
            tree: post.tree,
            tree_cursor: clamped(pre.tree_cursor, flat(t2).len() as int),
            tree_index: None,
            cached_parse: None,
            ..pre
        }),
    }
}

/// What `App::collapse_selected` does: `post` is `pre` after the call.
pub open spec fn collapse_selected_step(pre: App, post: App) -> bool {
    match pre.tree {
        None => post == pre,
        Some(t) => post.tree matches Some(t2) && applied_at(
            t,
            t2,
            pre.tree_cursor as nat,
            NodeOp::Collapse,
        ) && post == (App {
            tree: post.tree,
            tree_cursor: clamped(pre.tree_cursor, flat(t2).len() as int),
            ..pre
        }),
    }
}

/// What `App::confirm_line_prompt` does: `post` is `pre` after the call.
pub open spec fn confirm_line_prompt_step(pre: App, post: App) -> bool {
    match pre.line_prompt {
        None => post == pre,
        Some(p) => if p.buffer@.len() == 0 {
            post == (App { line_prompt: None, ..pre })
        } else {
            let n = match parse_unsigned(p.buffer@, usize::MAX as int) {
                Some(v) => v,
                None => 1,
            };
            &&& post.status_message is None
            &&& went_to_line(
                App { line_prompt: None, ..pre },
                App { status_message: pre.status_message, ..post },
                n,
            )
        },
    }
}

proof fn lemma_order_covers(n: int, from: int, dir: SearchDirection, skip: bool, k: int) -> (j: int)
    requires
        0 <= from < n,
        0 <= k < n,
    ensures
        0 <= j < search_order(n, from, dir, skip).len(),
        search_order(n, from, dir, skip)[j] == k,
{
    let order = search_order(n, from, dir, skip);
    match dir {
        SearchDirection::Forward => {
            let start = if skip {
                from + 1
            } else {
                from
            };
            if k >= start {
                k - start
            } else {
                (n - start) + k
            }
        },
        SearchDirection::Backward => {
            let first = if skip {
                from
            } else {
                from + 1
            };
            if k < first {
                first - 1 - k
            } else {
                first + (n - 1 - k)
            }
        },
    }
}

proof fn lemma_first_match_some(lines: Seq<Seq<char>>, q: Seq<char>, order: Seq<int>, j: int)
    requires
        0 <= j < order.len(),
        contains_seq(lines[order[j]], q),
    ensures
        first_match(lines, q, order) matches Some(i) && contains_seq(lines[i], q),
    decreases j,
{
    if j > 0 && !contains_seq(lines[order[0]], q) {
        assert(order.drop_first()[j - 1] == order[j]);
        lemma_first_match_some(lines, q, order.drop_first(), j - 1);
    }
}

/// A search wraps around: when some row (or node) holds the query, ignoring
/// case, the search lands on a row that holds it, whichever way it goes and
/// wherever it starts.
pub proof fn lemma_search_finds_any(a: App, query: Seq<char>, dir: SearchDirection, skip: bool, k: int)
    requires
        query.len() > 0,
        0 <= k < search_lines(a).len(),
        contains_seq(search_lines(a)[k], lowercase(query)),
    ensures
        search_result(a, query, dir, skip) matches Some(i) && contains_seq(search_lines(a)[i], lowercase(query)),
{
    let lines = search_lines(a);
    let n = lines.len() as int;
    let from = min_int(search_index(a), n - 1);
    if from < 0 {
        assert(false) by {
            assert(search_index(a) >= 0);
        }
    }
    let j = lemma_order_covers(n, from, dir, skip, k);
    lemma_first_match_some(lines, lowercase(query), search_order(n, from, dir, skip), j);
}

/// Moving through the links always selects one of them.
pub proof fn lemma_cycled_in_range(selected: Option<usize>, step: i32, n: int)
    requires
        n > 0,
    ensures
        0 <= cycled(selected, step, n) < n,
{
    if let Some(i) = selected {
        vstd::arithmetic::div_mod::lemma_mod_bound((i + step) as int, n);
    }
}

} // verus!
