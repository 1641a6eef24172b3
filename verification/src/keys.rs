//! Key names, viewer actions, and the key map built from the configured
//! bindings.
//!
//! A key string is a plain key (`q`, `Enter`, `Down`) with optional
//! modifier prefixes joined by `+` (`Ctrl+d`, `Shift+Tab`).
use vstd::prelude::*;
use crate::text::{
    lowercase, to_lowercase, chars_of, eq_str, split, split_vec, lemma_split_nonempty, lemma_split_without_sep, trim,
    trim_vec,
};
use crate::config::{Config, KeyBinding, binding_keys};

verus! {

/// What a key press asks the viewer to do.
#[derive(Clone, Copy, PartialEq, Eq, Structural, Debug, Hash)]
pub enum Action {
    Quit,
    Down,
    Up,
    Top,
    Bottom,
    HalfPageDown,
    HalfPageUp,
    PageDown,
    PageUp,
    Activate,
    Back,
    SearchForward,
    SearchBackward,
    RepeatNext,
    RepeatPrev,
    LineJumpPrompt,
    NextLink,
    PrevLink,
    NavBack,
    NavForward,
}

/// A key as the terminal reports it.
#[derive(Clone, Copy, PartialEq, Eq, Structural, Debug, Hash)]
pub enum KeyCode {
    Backspace,
    Enter,
    Left,
    Right,
    Up,
    Down,
    Home,
    End,
    PageUp,
    PageDown,
    Tab,
    BackTab,
    Delete,
    Insert,
    F(u8),
    Char(char),
    Null,
    Esc,
    /// Any other key (media keys, lock keys, ...).
    Other,
}

/// Modifier keys held with a key, one bit each.
pub type KeyModifiers = u8;

/// No modifier.
pub const NONE: u8 = 0;

/// The Shift modifier bit.
pub const SHIFT: u8 = 1;

/// The Control modifier bit.
pub const CONTROL: u8 = 2;

/// The Alt modifier bit.
pub const ALT: u8 = 4;

/// The Super modifier bit.
pub const SUPER: u8 = 8;

/// The Hyper modifier bit.
pub const HYPER: u8 = 16;

/// The Meta modifier bit.
pub const META: u8 = 32;

/// A key with the modifiers held.
pub type KeyCombo = (KeyCode, KeyModifiers);

/// A combination with Shift dropped from character keys: the case is already
/// in the character, and terminals report a shifted letter as `G` + Shift.
pub open spec fn normalized(code: KeyCode, mods: u8) -> KeyCombo {
    if code is Char {
        (code, mods & 0xfe)
    } else {
        (code, mods)
    }
}

/// Drops Shift from character keys, so that `G` + Shift matches a `G` binding.
pub fn normalize_combo(code: KeyCode, mods: u8) -> (r: KeyCombo)
    ensures
        r == normalized(code, mods),
{
    match code {
        KeyCode::Char(_) => (code, mods & 0xfe),
        _ => (code, mods),
    }
}

/// The modifier bit that a lower-cased, trimmed modifier name stands for.
pub open spec fn modifier_bit(tok: Seq<char>) -> Option<u8> {
    if tok == "ctrl"@ || tok == "control"@ {
        Some(CONTROL)
    } else if tok == "shift"@ {
        Some(SHIFT)
    } else if tok == "alt"@ || tok == "meta"@ || tok == "opt"@ || tok == "option"@ {
        Some(ALT)
    } else {
        None
    }
}

/// The modifier bit for `tok`, which has been trimmed and lower-cased.
pub fn modifier_flag(tok: &[char]) -> (r: Option<u8>)
    ensures
        r == modifier_bit(tok@),
{
    if eq_str(tok, "ctrl") || eq_str(tok, "control") {
        Some(CONTROL)
    } else if eq_str(tok, "shift") {
        Some(SHIFT)
    } else if eq_str(tok, "alt") || eq_str(tok, "meta") || eq_str(tok, "opt") || eq_str(tok, "option") {
        Some(ALT)
    } else {
        None
    }
}

/// The modifiers that the prefix tokens name, or `None` when one of them is
/// no modifier.
pub open spec fn modifiers_of(toks: Seq<Seq<char>>) -> Option<u8>
    decreases toks.len(),
{
    if toks.len() == 0 {
        Some(NONE)
    } else {
        match (modifiers_of(toks.drop_last()), modifier_bit(lowercase(trim(toks.last())))) {
            (Some(m), Some(f)) => Some(m | f),
            _ => None,
        }
    }
}

/// The key that a key name stands for: a named key, `Space`, or a single
/// character.
pub open spec fn key_code_of(s: Seq<char>) -> Option<KeyCode> {
    if s == "Enter"@ || s == "enter"@ {
        Some(KeyCode::Enter)
    } else if s == "Esc"@ || s == "esc"@ || s == "Escape"@ || s == "escape"@ {
        Some(KeyCode::Esc)
    } else if s == "Up"@ || s == "up"@ {
        Some(KeyCode::Up)
    } else if s == "Down"@ || s == "down"@ {
        Some(KeyCode::Down)
    } else if s == "Left"@ || s == "left"@ {
        Some(KeyCode::Left)
    } else if s == "Right"@ || s == "right"@ {
        Some(KeyCode::Right)
    } else if s == "Tab"@ || s == "tab"@ {
        Some(KeyCode::Tab)
    } else if s == "Space"@ || s == "space"@ {
        Some(KeyCode::Char(' '))
    } else if s == "Backspace"@ || s == "backspace"@ {
        Some(KeyCode::Backspace)
    } else if s == "Home"@ || s == "home"@ {
        Some(KeyCode::Home)
    } else if s == "End"@ || s == "end"@ {
        Some(KeyCode::End)
    } else if s == "PageUp"@ || s == "pageup"@ {
        Some(KeyCode::PageUp)
    } else if s == "PageDown"@ || s == "pagedown"@ {
        Some(KeyCode::PageDown)
    } else if s.len() == 1 {
        Some(KeyCode::Char(s[0]))
    } else {
        None
    }
}

fn parse_key_code(s: &[char]) -> (r: Option<KeyCode>)
    ensures
        r == key_code_of(s@),
{
    if eq_str(s, "Enter") || eq_str(s, "enter") {
        Some(KeyCode::Enter)
    } else if eq_str(s, "Esc") || eq_str(s, "esc") || eq_str(s, "Escape") || eq_str(s, "escape") {
        Some(KeyCode::Esc)
    } else if eq_str(s, "Up") || eq_str(s, "up") {
        Some(KeyCode::Up)
    } else if eq_str(s, "Down") || eq_str(s, "down") {
        Some(KeyCode::Down)
    } else if eq_str(s, "Left") || eq_str(s, "left") {
        Some(KeyCode::Left)
    } else if eq_str(s, "Right") || eq_str(s, "right") {
        Some(KeyCode::Right)
    } else if eq_str(s, "Tab") || eq_str(s, "tab") {
        Some(KeyCode::Tab)
    } else if eq_str(s, "Space") || eq_str(s, "space") {
        Some(KeyCode::Char(' '))
    } else if eq_str(s, "Backspace") || eq_str(s, "backspace") {
        Some(KeyCode::Backspace)
    } else if eq_str(s, "Home") || eq_str(s, "home") {
        Some(KeyCode::Home)
    } else if eq_str(s, "End") || eq_str(s, "end") {
        Some(KeyCode::End)
    } else if eq_str(s, "PageUp") || eq_str(s, "pageup") {
        Some(KeyCode::PageUp)
    } else if eq_str(s, "PageDown") || eq_str(s, "pagedown") {
        Some(KeyCode::PageDown)
    } else if s.len() == 1 {
        Some(KeyCode::Char(s[0]))
    } else {
        None
    }
}

/// What `parse_key` gives for a key string: the text is split at `+`; the
/// last piece names the key and the others name modifiers. A string that ends
/// in `+` after a modifier, an unknown modifier or an unknown key gives `None`.
pub open spec fn key_combo_of(s: Seq<char>) -> Option<KeyCombo> {
    let toks = split(s, '+');
    let last = toks.last();
    let mods = toks.drop_last();
    if last.len() == 0 && mods.len() > 0 {
        None
    } else {
        match modifiers_of(mods) {
            None => None,
            Some(m) => match key_code_of(last) {
                None => None,
                Some(c) => Some(normalized(c, m)),
            },
        }
    }
}

/// Parses a key string such as `q`, `Enter`, `Ctrl+d` or `Shift+Tab`.
pub fn parse_key(s: &str) -> (r: Option<KeyCombo>)
    ensures
        r == key_combo_of(s@),
{
    let text = chars_of(s);
    let toks = split_vec(&text, '+');
    let ghost pieces = split(s@, '+');
    proof {
        lemma_split_nonempty(s@, '+');
    }
    let n = toks.len();
    assert(pieces[n - 1] == toks@[n - 1]@);
    let last = &toks[n - 1];
    if last.len() == 0 && n > 1 {
        return None;
    }
    let mut mods: u8 = NONE;
    let mut i: usize = 0;
    while i + 1 < n
        invariant
            n == toks@.len(),
            n >= 1,
            i + 1 <= n,
            pieces == toks@.map_values(|p: Vec<char>| p@),
            pieces == split(s@, '+'),
            !(pieces.last().len() == 0 && n > 1),
            modifiers_of(pieces.drop_last().take(i as int)) == Some(mods),
        decreases n - i,
    {
        let tok = trim_vec(&toks[i]);
        let low = to_lowercase(&tok);
        assert(pieces.drop_last().take(i + 1).drop_last() =~= pieces.drop_last().take(i as int));
        assert(pieces.drop_last().take(i + 1).last() == toks@[i as int]@);
        match modifier_flag(&low) {
            Some(f) => {
                mods = mods | f;
            },
            None => {
                proof {
                    assert(low@ == lowercase(trim(pieces.drop_last().take(i + 1).last())));
                    assert(modifiers_of(pieces.drop_last().take(i + 1)) is None);
                    lemma_modifiers_none_prefix(pieces.drop_last(), i + 1);
                }
                return None;
            },
        }
        i += 1;
    }
    assert(pieces.drop_last().take(i as int) =~= pieces.drop_last());
    match parse_key_code(last) {
        Some(code) => Some(normalize_combo(code, mods)),
        None => None,
    }
}

proof fn lemma_modifiers_none_prefix(toks: Seq<Seq<char>>, k: int)
    requires
        0 <= k <= toks.len(),
        modifiers_of(toks.take(k)) is None,
    ensures
        modifiers_of(toks) is None,
    decreases toks.len() - k,
{
    if k < toks.len() {
        assert(toks.take(k + 1).drop_last() =~= toks.take(k));
        lemma_modifiers_none_prefix(toks, k + 1);
    } else {
        assert(toks.take(k) =~= toks);
    }
}

/// The action that an action name stands for, with its accepted aliases.
pub open spec fn action_of(s: Seq<char>) -> Option<Action> {
    if s == "quit"@ {
        Some(Action::Quit)
    } else if s == "down"@ || s == "scroll_down"@ {
        Some(Action::Down)
    } else if s == "up"@ || s == "scroll_up"@ {
        Some(Action::Up)
    } else if s == "top"@ {
        Some(Action::Top)
    } else if s == "bottom"@ || s == "end"@ {
        Some(Action::Bottom)
    } else if s == "halfpage_down"@ || s == "half_page_down"@ {
        Some(Action::HalfPageDown)
    } else if s == "halfpage_up"@ || s == "half_page_up"@ {
        Some(Action::HalfPageUp)
    } else if s == "page_down"@ || s == "pagedown"@ {
        Some(Action::PageDown)
    } else if s == "page_up"@ || s == "pageup"@ {
        Some(Action::PageUp)
    } else if s == "activate"@ || s == "open"@ {
        Some(Action::Activate)
    } else if s == "back"@ {
        Some(Action::Back)
    } else if s == "search_forward"@ {
        Some(Action::SearchForward)
    } else if s == "search_backward"@ {
        Some(Action::SearchBackward)
    } else if s == "repeat_next"@ {
        Some(Action::RepeatNext)
    } else if s == "repeat_prev"@ {
        Some(Action::RepeatPrev)
    } else if s == "line_jump_prompt"@ || s == "goto_line"@ {
        Some(Action::LineJumpPrompt)
    } else if s == "next_link"@ {
        Some(Action::NextLink)
    } else if s == "prev_link"@ {
        Some(Action::PrevLink)
    } else if s == "nav_back"@ || s == "history_back"@ {
        Some(Action::NavBack)
    } else if s == "nav_forward"@ || s == "history_forward"@ {
        Some(Action::NavForward)
    } else {
        None
    }
}

/// The action that an action name (or one of its aliases) stands for.
pub fn parse_action(s: &str) -> (r: Option<Action>)
    ensures
        r == action_of(s@),
{
    let t = chars_of(s);
    if eq_str(&t, "quit") {
        Some(Action::Quit)
    } else if eq_str(&t, "down") || eq_str(&t, "scroll_down") {
        Some(Action::Down)
    } else if eq_str(&t, "up") || eq_str(&t, "scroll_up") {
        Some(Action::Up)
    } else if eq_str(&t, "top") {
        Some(Action::Top)
    } else if eq_str(&t, "bottom") || eq_str(&t, "end") {
        Some(Action::Bottom)
    } else if eq_str(&t, "halfpage_down") || eq_str(&t, "half_page_down") {
        Some(Action::HalfPageDown)
    } else if eq_str(&t, "halfpage_up") || eq_str(&t, "half_page_up") {
        Some(Action::HalfPageUp)
    } else if eq_str(&t, "page_down") || eq_str(&t, "pagedown") {
        Some(Action::PageDown)
    } else if eq_str(&t, "page_up") || eq_str(&t, "pageup") {
        Some(Action::PageUp)
    } else if eq_str(&t, "activate") || eq_str(&t, "open") {
        Some(Action::Activate)
    } else if eq_str(&t, "back") {
        Some(Action::Back)
    } else if eq_str(&t, "search_forward") {
        Some(Action::SearchForward)
    } else if eq_str(&t, "search_backward") {
        Some(Action::SearchBackward)
    } else if eq_str(&t, "repeat_next") {
        Some(Action::RepeatNext)
    } else if eq_str(&t, "repeat_prev") {
        Some(Action::RepeatPrev)
    } else if eq_str(&t, "line_jump_prompt") || eq_str(&t, "goto_line") {
        Some(Action::LineJumpPrompt)
    } else if eq_str(&t, "next_link") {
        Some(Action::NextLink)
    } else if eq_str(&t, "prev_link") {
        Some(Action::PrevLink)
    } else if eq_str(&t, "nav_back") || eq_str(&t, "history_back") {
        Some(Action::NavBack)
    } else if eq_str(&t, "nav_forward") || eq_str(&t, "history_forward") {
        Some(Action::NavForward)
    } else {
        None
    }
}

/// Key combinations bound to actions. A later binding of a combination
/// takes precedence over an earlier one.
///
/// This stands in for a `HashMap<KeyCombo, Action>`: vstd specifies
/// `HashMap` only for keys it knows how to hash (integers and `bool`), not
/// for a combination of a key and modifiers, so the map is a vector of
/// pairs, looked up from the newest.
pub struct Keymap {
    entries: Vec<(KeyCombo, Action)>,
}

impl View for Keymap {
    type V = Seq<(KeyCombo, Action)>;

    closed spec fn view(&self) -> Seq<(KeyCombo, Action)> {
        self.entries@
    }
}

/// The action bound to `k`: the latest binding wins.
pub open spec fn keymap_lookup(s: Seq<(KeyCombo, Action)>, k: KeyCombo) -> Option<Action>
    decreases s.len(),
{
    if s.len() == 0 {
        None
    } else if s.last().0 == k {
        Some(s.last().1)
    } else {
        keymap_lookup(s.drop_last(), k)
    }
}

impl Keymap {
    /// A key map with no bindings.
    pub fn new() -> (r: Keymap)
        ensures
            r@ == Seq::<(KeyCombo, Action)>::empty(),
    {
        Keymap { entries: Vec::new() }
    }

    /// Binds `combo` to `action`, over any earlier binding of `combo`.
    pub fn insert(&mut self, combo: KeyCombo, action: Action)
        ensures
            final(self)@ == old(self)@.push((combo, action)),
    {
        self.entries.push((combo, action));
    }

    /// The action bound to `combo`.
    pub fn get(&self, combo: &KeyCombo) -> (r: Option<Action>)
        ensures
            r == keymap_lookup(self@, *combo),
    {
        let mut i: usize = self.entries.len();
        assert(self@.take(i as int) =~= self@);
        while i > 0
            invariant
                i <= self@.len(),
                self@ == self.entries@,
                keymap_lookup(self@, *combo) == keymap_lookup(self@.take(i as int), *combo),
            decreases i,
        {
            let e = &self.entries[i - 1];
            assert(self@.take(i as int).drop_last() =~= self@.take(i - 1));
            if e.0.0 == combo.0 && e.0.1 == combo.1 {
                return Some(e.1);
            }
            i -= 1;
        }
        None
    }

    /// Whether `combo` is bound.
    pub fn contains_key(&self, combo: &KeyCombo) -> (r: bool)
        ensures
            r == keymap_lookup(self@, *combo) is Some,
    {
        self.get(combo).is_some()
    }
}

/// The combinations that a binding's key strings parse to, in order;
/// strings that do not parse are left out.
pub open spec fn binding_combos(keys: Seq<String>) -> Seq<KeyCombo>
    decreases keys.len(),
{
    if keys.len() == 0 {
        seq![]
    } else {
        match key_combo_of(keys.last()@) {
            Some(c) => binding_combos(keys.drop_last()).push(c),
            None => binding_combos(keys.drop_last()),
        }
    }
}

/// The key-map entries that one configured action contributes: none when the
/// action name is unknown.
pub open spec fn entry_bindings(e: (String, KeyBinding)) -> Seq<(KeyCombo, Action)> {
    match action_of(e.0@) {
        None => seq![],
        Some(a) => binding_combos(binding_keys(e.1)).map_values(|c: KeyCombo| (c, a)),
    }
}

/// The key-map entries of a whole table of bindings, in table order.
pub open spec fn keymap_entries(t: Seq<(String, KeyBinding)>) -> Seq<(KeyCombo, Action)>
    decreases t.len(),
{
    if t.len() == 0 {
        seq![]
    } else {
        keymap_entries(t.drop_last()) + entry_bindings(t.last())
    }
}

/// Builds the key map from the configured bindings: each key string of each
/// known action is parsed, and the ones that parse are bound to the action.
pub fn build_keymap(config: &Config) -> (r: Keymap)
    ensures
        r@ == keymap_entries(config.keys@),
{
    let mut map = Keymap::new();
    let n = config.keys.len();
    let mut i: usize = 0;
    while i < n
        invariant
            n == config.keys@.len(),
            i <= n,
            map@ == keymap_entries(config.keys@.take(i as int)),
        decreases n - i,
    {
        let (name, binding) = config.keys.entry(i);
        let ghost before = map@;
        assert(config.keys@.take(i + 1).drop_last() =~= config.keys@.take(i as int));
        assert(config.keys@.take(i + 1).last() == config.keys@[i as int]);
        match parse_action(name.as_str()) {
            Some(action) => {
                let keys = binding.as_slice();
                let mut j: usize = 0;
                while j < keys.len()
                    invariant
                        j <= keys@.len(),
                        keys@ == binding_keys(*binding),
                        map@ == before + binding_combos(keys@.take(j as int)).map_values(
                            |c: KeyCombo| (c, action),
                        ),
                    decreases keys@.len() - j,
                {
                    assert(keys@.take(j + 1).drop_last() =~= keys@.take(j as int));
                    let ghost prev = binding_combos(keys@.take(j as int));
                    match parse_key(keys[j].as_str()) {
                        Some(combo) => {
                            map.insert(combo, action);
                            assert(prev.push(combo).map_values(|c: KeyCombo| (c, action)) =~= prev.map_values(
                                |c: KeyCombo| (c, action),
                            ).push((combo, action)));
                        },
                        None => {},
                    }
                    j += 1;
                }
                assert(keys@.take(keys@.len() as int) =~= keys@);
                assert(map@ =~= keymap_entries(config.keys@.take(i + 1)));
            },
            None => {
                assert(map@ =~= keymap_entries(config.keys@.take(i + 1)));
            },
        }
        i += 1;
    }
    assert(config.keys@.take(n as int) =~= config.keys@);
    map
}

/// Character keys never carry Shift once normalized: the case is in the
/// character itself.
pub proof fn lemma_normalized_char_has_no_shift(code: KeyCode, mods: u8)
    ensures
        code is Char ==> normalized(code, mods).1 & SHIFT == 0,
        !(code is Char) ==> normalized(code, mods) == (code, mods),
{
    assert((mods & 0xfe) & 1 == 0) by (bit_vector);
}

/// Every key string that parses to a character key parses without Shift.
pub proof fn lemma_parsed_char_has_no_shift(s: Seq<char>)
    ensures
        match key_combo_of(s) {
            Some((code, m)) => code is Char ==> m & SHIFT == 0,
            None => true,
        },
{
    let toks = split(s, '+');
    let last = toks.last();
    let mods = toks.drop_last();
    if !(last.len() == 0 && mods.len() > 0) {
        if let Some(m) = modifiers_of(mods) {
            if let Some(c) = key_code_of(last) {
                lemma_normalized_char_has_no_shift(c, m);
            }
        }
    }
}

/// The names a key goes by in a key binding: the named keys with a
/// capital and in lower case (Esc also as Escape), the space bar as
/// `Space`; other keys have none.
pub open spec fn key_names(c: KeyCode) -> Seq<Seq<char>> {
    match c {
        KeyCode::Enter => seq!["Enter"@, "enter"@],
        KeyCode::Esc => seq!["Esc"@, "esc"@, "Escape"@, "escape"@],
        KeyCode::Up => seq!["Up"@, "up"@],
        KeyCode::Down => seq!["Down"@, "down"@],
        KeyCode::Left => seq!["Left"@, "left"@],
        KeyCode::Right => seq!["Right"@, "right"@],
        KeyCode::Tab => seq!["Tab"@, "tab"@],
        KeyCode::Backspace => seq!["Backspace"@, "backspace"@],
        KeyCode::Home => seq!["Home"@, "home"@],
        KeyCode::End => seq!["End"@, "end"@],
        KeyCode::PageUp => seq!["PageUp"@, "pageup"@],
        KeyCode::PageDown => seq!["PageDown"@, "pagedown"@],
        KeyCode::Char(ch) => if ch == ' ' {
            seq!["Space"@, "space"@]
        } else {
            seq![]
        },
        _ => seq![],
    }
}

/// Every name of a key stands for that key.
pub proof fn lemma_key_names(c: KeyCode, k: int)
    requires
        0 <= k < key_names(c).len(),
    ensures
        key_code_of(key_names(c)[k]) == Some(c),
{
    let n = key_names(c)[k];
    if c == KeyCode::Enter {
        if k == 0 {
            reveal_strlit("Enter");
            assert(n == "Enter"@);
        }
        if k == 1 {
            reveal_strlit("enter");
            assert(n == "enter"@);
            reveal_strlit("Enter");
            assert(n[0] != "Enter"@[0]);
        }
    } else if c == KeyCode::Esc {
        if k == 0 {
            reveal_strlit("Esc");
            assert(n == "Esc"@);
            reveal_strlit("Enter");
            assert(n.len() != "Enter"@.len());
            reveal_strlit("enter");
            assert(n.len() != "enter"@.len());
        }
        if k == 1 {
            reveal_strlit("esc");
            assert(n == "esc"@);
            reveal_strlit("Enter");
            assert(n.len() != "Enter"@.len());
            reveal_strlit("enter");
            assert(n.len() != "enter"@.len());
            reveal_strlit("Esc");
            assert(n[0] != "Esc"@[0]);
        }
        if k == 2 {
            reveal_strlit("Escape");
            assert(n == "Escape"@);
            reveal_strlit("Enter");
            assert(n.len() != "Enter"@.len());
            reveal_strlit("enter");
            assert(n.len() != "enter"@.len());
            reveal_strlit("Esc");
            assert(n.len() != "Esc"@.len());
            reveal_strlit("esc");
            assert(n.len() != "esc"@.len());
        }
        if k == 3 {
            reveal_strlit("escape");
            assert(n == "escape"@);
            reveal_strlit("Enter");
            assert(n.len() != "Enter"@.len());
            reveal_strlit("enter");
            assert(n.len() != "enter"@.len());
            reveal_strlit("Esc");
            assert(n.len() != "Esc"@.len());
            reveal_strlit("esc");
            assert(n.len() != "esc"@.len());
            reveal_strlit("Escape");
            assert(n[0] != "Escape"@[0]);
        }
    } else if c == KeyCode::Up {
        if k == 0 {
            reveal_strlit("Up");
            assert(n == "Up"@);
            reveal_strlit("Enter");
            assert(n.len() != "Enter"@.len());
            reveal_strlit("enter");
            assert(n.len() != "enter"@.len());
            reveal_strlit("Esc");
            assert(n.len() != "Esc"@.len());
            reveal_strlit("esc");
            assert(n.len() != "esc"@.len());
            reveal_strlit("Escape");
            assert(n.len() != "Escape"@.len());
            reveal_strlit("escape");
            assert(n.len() != "escape"@.len());
        }
        if k == 1 {
            reveal_strlit("up");
            assert(n == "up"@);
            reveal_strlit("Enter");
            assert(n.len() != "Enter"@.len());
            reveal_strlit("enter");
            assert(n.len() != "enter"@.len());
            reveal_strlit("Esc");
            assert(n.len() != "Esc"@.len());
            reveal_strlit("esc");
            assert(n.len() != "esc"@.len());
            reveal_strlit("Escape");
            assert(n.len() != "Escape"@.len());
            reveal_strlit("escape");
            assert(n.len() != "escape"@.len());
            reveal_strlit("Up");
            assert(n[0] != "Up"@[0]);
        }
    } else if c == KeyCode::Down {
        if k == 0 {
            reveal_strlit("Down");
            assert(n == "Down"@);
            reveal_strlit("Enter");
            assert(n.len() != "Enter"@.len());
            reveal_strlit("enter");
            assert(n.len() != "enter"@.len());
            reveal_strlit("Esc");
            assert(n.len() != "Esc"@.len());
            reveal_strlit("esc");
            assert(n.len() != "esc"@.len());
            reveal_strlit("Escape");
            assert(n.len() != "Escape"@.len());
            reveal_strlit("escape");
            assert(n.len() != "escape"@.len());
            reveal_strlit("Up");
            assert(n.len() != "Up"@.len());
            reveal_strlit("up");
            assert(n.len() != "up"@.len());
        }
        if k == 1 {
            reveal_strlit("down");
            assert(n == "down"@);
            reveal_strlit("Enter");
            assert(n.len() != "Enter"@.len());
            reveal_strlit("enter");
            assert(n.len() != "enter"@.len());
            reveal_strlit("Esc");
            assert(n.len() != "Esc"@.len());
            reveal_strlit("esc");
            assert(n.len() != "esc"@.len());
            reveal_strlit("Escape");
            assert(n.len() != "Escape"@.len());
            reveal_strlit("escape");
            assert(n.len() != "escape"@.len());
            reveal_strlit("Up");
            assert(n.len() != "Up"@.len());
            reveal_strlit("up");
            assert(n.len() != "up"@.len());
            reveal_strlit("Down");
            assert(n[0] != "Down"@[0]);
        }
    } else if c == KeyCode::Left {
        if k == 0 {
            reveal_strlit("Left");
            assert(n == "Left"@);
            reveal_strlit("Enter");
            assert(n.len() != "Enter"@.len());
            reveal_strlit("enter");
            assert(n.len() != "enter"@.len());
            reveal_strlit("Esc");
            assert(n.len() != "Esc"@.len());
            reveal_strlit("esc");
            assert(n.len() != "esc"@.len());
            reveal_strlit("Escape");
            assert(n.len() != "Escape"@.len());
            reveal_strlit("escape");
            assert(n.len() != "escape"@.len());
            reveal_strlit("Up");
            assert(n.len() != "Up"@.len());
            reveal_strlit("up");
            assert(n.len() != "up"@.len());
            reveal_strlit("Down");
            assert(n[0] != "Down"@[0]);
            reveal_strlit("down");
            assert(n[0] != "down"@[0]);
        }
        if k == 1 {
            reveal_strlit("left");
            assert(n == "left"@);
            reveal_strlit("Enter");
            assert(n.len() != "Enter"@.len());
            reveal_strlit("enter");
            assert(n.len() != "enter"@.len());
            reveal_strlit("Esc");
            assert(n.len() != "Esc"@.len());
            reveal_strlit("esc");
            assert(n.len() != "esc"@.len());
            reveal_strlit("Escape");
            assert(n.len() != "Escape"@.len());
            reveal_strlit("escape");
            assert(n.len() != "escape"@.len());
            reveal_strlit("Up");
            assert(n.len() != "Up"@.len());
            reveal_strlit("up");
            assert(n.len() != "up"@.len());
            reveal_strlit("Down");
            assert(n[0] != "Down"@[0]);
            reveal_strlit("down");
            assert(n[0] != "down"@[0]);
            reveal_strlit("Left");
            assert(n[0] != "Left"@[0]);
        }
    } else if c == KeyCode::Right {
        if k == 0 {
            reveal_strlit("Right");
            assert(n == "Right"@);
            reveal_strlit("Enter");
            assert(n[0] != "Enter"@[0]);
            reveal_strlit("enter");
            assert(n[0] != "enter"@[0]);
            reveal_strlit("Esc");
            assert(n.len() != "Esc"@.len());
            reveal_strlit("esc");
            assert(n.len() != "esc"@.len());
            reveal_strlit("Escape");
            assert(n.len() != "Escape"@.len());
            reveal_strlit("escape");
            assert(n.len() != "escape"@.len());
            reveal_strlit("Up");
            assert(n.len() != "Up"@.len());
            reveal_strlit("up");
            assert(n.len() != "up"@.len());
            reveal_strlit("Down");
            assert(n.len() != "Down"@.len());
            reveal_strlit("down");
            assert(n.len() != "down"@.len());
            reveal_strlit("Left");
            assert(n.len() != "Left"@.len());
            reveal_strlit("left");
            assert(n.len() != "left"@.len());
        }
        if k == 1 {
            reveal_strlit("right");
            assert(n == "right"@);
            reveal_strlit("Enter");
            assert(n[0] != "Enter"@[0]);
            reveal_strlit("enter");
            assert(n[0] != "enter"@[0]);
            reveal_strlit("Esc");
            assert(n.len() != "Esc"@.len());
            reveal_strlit("esc");
            assert(n.len() != "esc"@.len());
            reveal_strlit("Escape");
            assert(n.len() != "Escape"@.len());
            reveal_strlit("escape");
            assert(n.len() != "escape"@.len());
            reveal_strlit("Up");
            assert(n.len() != "Up"@.len());
            reveal_strlit("up");
            assert(n.len() != "up"@.len());
            reveal_strlit("Down");
            assert(n.len() != "Down"@.len());
            reveal_strlit("down");
            assert(n.len() != "down"@.len());
            reveal_strlit("Left");
            assert(n.len() != "Left"@.len());
            reveal_strlit("left");
            assert(n.len() != "left"@.len());
            reveal_strlit("Right");
            assert(n[0] != "Right"@[0]);
        }
    } else if c == KeyCode::Tab {
        if k == 0 {
            reveal_strlit("Tab");
            assert(n == "Tab"@);
            reveal_strlit("Enter");
            assert(n.len() != "Enter"@.len());
            reveal_strlit("enter");
            assert(n.len() != "enter"@.len());
            reveal_strlit("Esc");
            assert(n[0] != "Esc"@[0]);
            reveal_strlit("esc");
            assert(n[0] != "esc"@[0]);
            reveal_strlit("Escape");
            assert(n.len() != "Escape"@.len());
            reveal_strlit("escape");
            assert(n.len() != "escape"@.len());
            reveal_strlit("Up");
            assert(n.len() != "Up"@.len());
            reveal_strlit("up");
            assert(n.len() != "up"@.len());
            reveal_strlit("Down");
            assert(n.len() != "Down"@.len());
            reveal_strlit("down");
            assert(n.len() != "down"@.len());
            reveal_strlit("Left");
            assert(n.len() != "Left"@.len());
            reveal_strlit("left");
            assert(n.len() != "left"@.len());
            reveal_strlit("Right");
            assert(n.len() != "Right"@.len());
            reveal_strlit("right");
            assert(n.len() != "right"@.len());
        }
        if k == 1 {
            reveal_strlit("tab");
            assert(n == "tab"@);
            reveal_strlit("Enter");
            assert(n.len() != "Enter"@.len());
            reveal_strlit("enter");
            assert(n.len() != "enter"@.len());
            reveal_strlit("Esc");
            assert(n[0] != "Esc"@[0]);
            reveal_strlit("esc");
            assert(n[0] != "esc"@[0]);
            reveal_strlit("Escape");
            assert(n.len() != "Escape"@.len());
            reveal_strlit("escape");
            assert(n.len() != "escape"@.len());
            reveal_strlit("Up");
            assert(n.len() != "Up"@.len());
            reveal_strlit("up");
            assert(n.len() != "up"@.len());
            reveal_strlit("Down");
            assert(n.len() != "Down"@.len());
            reveal_strlit("down");
            assert(n.len() != "down"@.len());
            reveal_strlit("Left");
            assert(n.len() != "Left"@.len());
            reveal_strlit("left");
            assert(n.len() != "left"@.len());
            reveal_strlit("Right");
            assert(n.len() != "Right"@.len());
            reveal_strlit("right");
            assert(n.len() != "right"@.len());
            reveal_strlit("Tab");
            assert(n[0] != "Tab"@[0]);
        }
    } else if c == KeyCode::Char(' ') {
        if k == 0 {
            reveal_strlit("Space");
            assert(n == "Space"@);
            reveal_strlit("Enter");
            assert(n[0] != "Enter"@[0]);
            reveal_strlit("enter");
            assert(n[0] != "enter"@[0]);
            reveal_strlit("Esc");
            assert(n.len() != "Esc"@.len());
            reveal_strlit("esc");
            assert(n.len() != "esc"@.len());
            reveal_strlit("Escape");
            assert(n.len() != "Escape"@.len());
            reveal_strlit("escape");
            assert(n.len() != "escape"@.len());
            reveal_strlit("Up");
            assert(n.len() != "Up"@.len());
            reveal_strlit("up");
            assert(n.len() != "up"@.len());
            reveal_strlit("Down");
            assert(n.len() != "Down"@.len());
            reveal_strlit("down");
            assert(n.len() != "down"@.len());
            reveal_strlit("Left");
            assert(n.len() != "Left"@.len());
            reveal_strlit("left");
            assert(n.len() != "left"@.len());
            reveal_strlit("Right");
            assert(n[0] != "Right"@[0]);
            reveal_strlit("right");
            assert(n[0] != "right"@[0]);
            reveal_strlit("Tab");
            assert(n.len() != "Tab"@.len());
            reveal_strlit("tab");
            assert(n.len() != "tab"@.len());
        }
        if k == 1 {
            reveal_strlit("space");
            assert(n == "space"@);
            reveal_strlit("Enter");
            assert(n[0] != "Enter"@[0]);
            reveal_strlit("enter");
            assert(n[0] != "enter"@[0]);
            reveal_strlit("Esc");
            assert(n.len() != "Esc"@.len());
            reveal_strlit("esc");
            assert(n.len() != "esc"@.len());
            reveal_strlit("Escape");
            assert(n.len() != "Escape"@.len());
            reveal_strlit("escape");
            assert(n.len() != "escape"@.len());
            reveal_strlit("Up");
            assert(n.len() != "Up"@.len());
            reveal_strlit("up");
            assert(n.len() != "up"@.len());
            reveal_strlit("Down");
            assert(n.len() != "Down"@.len());
            reveal_strlit("down");
            assert(n.len() != "down"@.len());
            reveal_strlit("Left");
            assert(n.len() != "Left"@.len());
            reveal_strlit("left");
            assert(n.len() != "left"@.len());
            reveal_strlit("Right");
            assert(n[0] != "Right"@[0]);
            reveal_strlit("right");
            assert(n[0] != "right"@[0]);
            reveal_strlit("Tab");
            assert(n.len() != "Tab"@.len());
            reveal_strlit("tab");
            assert(n.len() != "tab"@.len());
            reveal_strlit("Space");
            assert(n[0] != "Space"@[0]);
        }
    } else if c == KeyCode::Backspace {
        if k == 0 {
            reveal_strlit("Backspace");
            assert(n == "Backspace"@);
            reveal_strlit("Enter");
            assert(n.len() != "Enter"@.len());
            reveal_strlit("enter");
            assert(n.len() != "enter"@.len());
            reveal_strlit("Esc");
            assert(n.len() != "Esc"@.len());
            reveal_strlit("esc");
            assert(n.len() != "esc"@.len());
            reveal_strlit("Escape");
            assert(n.len() != "Escape"@.len());
            reveal_strlit("escape");
            assert(n.len() != "escape"@.len());
            reveal_strlit("Up");
            assert(n.len() != "Up"@.len());
            reveal_strlit("up");
            assert(n.len() != "up"@.len());
            reveal_strlit("Down");
            assert(n.len() != "Down"@.len());
            reveal_strlit("down");
            assert(n.len() != "down"@.len());
            reveal_strlit("Left");
            assert(n.len() != "Left"@.len());
            reveal_strlit("left");
            assert(n.len() != "left"@.len());
            reveal_strlit("Right");
            assert(n.len() != "Right"@.len());
            reveal_strlit("right");
            assert(n.len() != "right"@.len());
            reveal_strlit("Tab");
            assert(n.len() != "Tab"@.len());
            reveal_strlit("tab");
            assert(n.len() != "tab"@.len());
            reveal_strlit("Space");
            assert(n.len() != "Space"@.len());
            reveal_strlit("space");
            assert(n.len() != "space"@.len());
        }
        if k == 1 {
            reveal_strlit("backspace");
            assert(n == "backspace"@);
            reveal_strlit("Enter");
            assert(n.len() != "Enter"@.len());
            reveal_strlit("enter");
            assert(n.len() != "enter"@.len());
            reveal_strlit("Esc");
            assert(n.len() != "Esc"@.len());
            reveal_strlit("esc");
            assert(n.len() != "esc"@.len());
            reveal_strlit("Escape");
            assert(n.len() != "Escape"@.len());
            reveal_strlit("escape");
            assert(n.len() != "escape"@.len());
            reveal_strlit("Up");
            assert(n.len() != "Up"@.len());
            reveal_strlit("up");
            assert(n.len() != "up"@.len());
            reveal_strlit("Down");
            assert(n.len() != "Down"@.len());
            reveal_strlit("down");
            assert(n.len() != "down"@.len());
            reveal_strlit("Left");
            assert(n.len() != "Left"@.len());
            reveal_strlit("left");
            assert(n.len() != "left"@.len());
            reveal_strlit("Right");
            assert(n.len() != "Right"@.len());
            reveal_strlit("right");
            assert(n.len() != "right"@.len());
            reveal_strlit("Tab");
            assert(n.len() != "Tab"@.len());
            reveal_strlit("tab");
            assert(n.len() != "tab"@.len());
            reveal_strlit("Space");
            assert(n.len() != "Space"@.len());
            reveal_strlit("space");
            assert(n.len() != "space"@.len());
            reveal_strlit("Backspace");
            assert(n[0] != "Backspace"@[0]);
        }
    } else if c == KeyCode::Home {
        if k == 0 {
            reveal_strlit("Home");
            assert(n == "Home"@);
            reveal_strlit("Enter");
            assert(n.len() != "Enter"@.len());
            reveal_strlit("enter");
            assert(n.len() != "enter"@.len());
            reveal_strlit("Esc");
            assert(n.len() != "Esc"@.len());
            reveal_strlit("esc");
            assert(n.len() != "esc"@.len());
            reveal_strlit("Escape");
            assert(n.len() != "Escape"@.len());
            reveal_strlit("escape");
            assert(n.len() != "escape"@.len());
            reveal_strlit("Up");
            assert(n.len() != "Up"@.len());
            reveal_strlit("up");
            assert(n.len() != "up"@.len());
            reveal_strlit("Down");
            assert(n[0] != "Down"@[0]);
            reveal_strlit("down");
            assert(n[0] != "down"@[0]);
            reveal_strlit("Left");
            assert(n[0] != "Left"@[0]);
            reveal_strlit("left");
            assert(n[0] != "left"@[0]);
            reveal_strlit("Right");
            assert(n.len() != "Right"@.len());
            reveal_strlit("right");
            assert(n.len() != "right"@.len());
            reveal_strlit("Tab");
            assert(n.len() != "Tab"@.len());
            reveal_strlit("tab");
            assert(n.len() != "tab"@.len());
            reveal_strlit("Space");
            assert(n.len() != "Space"@.len());
            reveal_strlit("space");
            assert(n.len() != "space"@.len());
            reveal_strlit("Backspace");
            assert(n.len() != "Backspace"@.len());
            reveal_strlit("backspace");
            assert(n.len() != "backspace"@.len());
        }
        if k == 1 {
            reveal_strlit("home");
            assert(n == "home"@);
            reveal_strlit("Enter");
            assert(n.len() != "Enter"@.len());
            reveal_strlit("enter");
            assert(n.len() != "enter"@.len());
            reveal_strlit("Esc");
            assert(n.len() != "Esc"@.len());
            reveal_strlit("esc");
            assert(n.len() != "esc"@.len());
            reveal_strlit("Escape");
            assert(n.len() != "Escape"@.len());
            reveal_strlit("escape");
            assert(n.len() != "escape"@.len());
            reveal_strlit("Up");
            assert(n.len() != "Up"@.len());
            reveal_strlit("up");
            assert(n.len() != "up"@.len());
            reveal_strlit("Down");
            assert(n[0] != "Down"@[0]);
            reveal_strlit("down");
            assert(n[0] != "down"@[0]);
            reveal_strlit("Left");
            assert(n[0] != "Left"@[0]);
            reveal_strlit("left");
            assert(n[0] != "left"@[0]);
            reveal_strlit("Right");
            assert(n.len() != "Right"@.len());
            reveal_strlit("right");
            assert(n.len() != "right"@.len());
            reveal_strlit("Tab");
            assert(n.len() != "Tab"@.len());
            reveal_strlit("tab");
            assert(n.len() != "tab"@.len());
            reveal_strlit("Space");
            assert(n.len() != "Space"@.len());
            reveal_strlit("space");
            assert(n.len() != "space"@.len());
            reveal_strlit("Backspace");
            assert(n.len() != "Backspace"@.len());
            reveal_strlit("backspace");
            assert(n.len() != "backspace"@.len());
            reveal_strlit("Home");
            assert(n[0] != "Home"@[0]);
        }
    } else if c == KeyCode::End {
        if k == 0 {
            reveal_strlit("End");
            assert(n == "End"@);
            reveal_strlit("Enter");
            assert(n.len() != "Enter"@.len());
            reveal_strlit("enter");
            assert(n.len() != "enter"@.len());
            reveal_strlit("Esc");
            assert(n[1] != "Esc"@[1]);
            reveal_strlit("esc");
            assert(n[0] != "esc"@[0]);
            reveal_strlit("Escape");
            assert(n.len() != "Escape"@.len());
            reveal_strlit("escape");
            assert(n.len() != "escape"@.len());
            reveal_strlit("Up");
            assert(n.len() != "Up"@.len());
            reveal_strlit("up");
            assert(n.len() != "up"@.len());
            reveal_strlit("Down");
            assert(n.len() != "Down"@.len());
            reveal_strlit("down");
            assert(n.len() != "down"@.len());
            reveal_strlit("Left");
            assert(n.len() != "Left"@.len());
            reveal_strlit("left");
            assert(n.len() != "left"@.len());
            reveal_strlit("Right");
            assert(n.len() != "Right"@.len());
            reveal_strlit("right");
            assert(n.len() != "right"@.len());
            reveal_strlit("Tab");
            assert(n[0] != "Tab"@[0]);
            reveal_strlit("tab");
            assert(n[0] != "tab"@[0]);
            reveal_strlit("Space");
            assert(n.len() != "Space"@.len());
            reveal_strlit("space");
            assert(n.len() != "space"@.len());
            reveal_strlit("Backspace");
            assert(n.len() != "Backspace"@.len());
            reveal_strlit("backspace");
            assert(n.len() != "backspace"@.len());
            reveal_strlit("Home");
            assert(n.len() != "Home"@.len());
            reveal_strlit("home");
            assert(n.len() != "home"@.len());
        }
        if k == 1 {
            reveal_strlit("end");
            assert(n == "end"@);
            reveal_strlit("Enter");
            assert(n.len() != "Enter"@.len());
            reveal_strlit("enter");
            assert(n.len() != "enter"@.len());
            reveal_strlit("Esc");
            assert(n[0] != "Esc"@[0]);
            reveal_strlit("esc");
            assert(n[1] != "esc"@[1]);
            reveal_strlit("Escape");
            assert(n.len() != "Escape"@.len());
            reveal_strlit("escape");
            assert(n.len() != "escape"@.len());
            reveal_strlit("Up");
            assert(n.len() != "Up"@.len());
            reveal_strlit("up");
            assert(n.len() != "up"@.len());
            reveal_strlit("Down");
            assert(n.len() != "Down"@.len());
            reveal_strlit("down");
            assert(n.len() != "down"@.len());
            reveal_strlit("Left");
            assert(n.len() != "Left"@.len());
            reveal_strlit("left");
            assert(n.len() != "left"@.len());
            reveal_strlit("Right");
            assert(n.len() != "Right"@.len());
            reveal_strlit("right");
            assert(n.len() != "right"@.len());
            reveal_strlit("Tab");
            assert(n[0] != "Tab"@[0]);
            reveal_strlit("tab");
            assert(n[0] != "tab"@[0]);
            reveal_strlit("Space");
            assert(n.len() != "Space"@.len());
            reveal_strlit("space");
            assert(n.len() != "space"@.len());
            reveal_strlit("Backspace");
            assert(n.len() != "Backspace"@.len());
            reveal_strlit("backspace");
            assert(n.len() != "backspace"@.len());
            reveal_strlit("Home");
            assert(n.len() != "Home"@.len());
            reveal_strlit("home");
            assert(n.len() != "home"@.len());
            reveal_strlit("End");
            assert(n[0] != "End"@[0]);
        }
    } else if c == KeyCode::PageUp {
        if k == 0 {
            reveal_strlit("PageUp");
            assert(n == "PageUp"@);
            reveal_strlit("Enter");
            assert(n.len() != "Enter"@.len());
            reveal_strlit("enter");
            assert(n.len() != "enter"@.len());
            reveal_strlit("Esc");
            assert(n.len() != "Esc"@.len());
            reveal_strlit("esc");
            assert(n.len() != "esc"@.len());
            reveal_strlit("Escape");
            assert(n[0] != "Escape"@[0]);
            reveal_strlit("escape");
            assert(n[0] != "escape"@[0]);
            reveal_strlit("Up");
            assert(n.len() != "Up"@.len());
            reveal_strlit("up");
            assert(n.len() != "up"@.len());
            reveal_strlit("Down");
            assert(n.len() != "Down"@.len());
            reveal_strlit("down");
            assert(n.len() != "down"@.len());
            reveal_strlit("Left");
            assert(n.len() != "Left"@.len());
            reveal_strlit("left");
            assert(n.len() != "left"@.len());
            reveal_strlit("Right");
            assert(n.len() != "Right"@.len());
            reveal_strlit("right");
            assert(n.len() != "right"@.len());
            reveal_strlit("Tab");
            assert(n.len() != "Tab"@.len());
            reveal_strlit("tab");
            assert(n.len() != "tab"@.len());
            reveal_strlit("Space");
            assert(n.len() != "Space"@.len());
            reveal_strlit("space");
            assert(n.len() != "space"@.len());
            reveal_strlit("Backspace");
            assert(n.len() != "Backspace"@.len());
            reveal_strlit("backspace");
            assert(n.len() != "backspace"@.len());
            reveal_strlit("Home");
            assert(n.len() != "Home"@.len());
            reveal_strlit("home");
            assert(n.len() != "home"@.len());
            reveal_strlit("End");
            assert(n.len() != "End"@.len());
            reveal_strlit("end");
            assert(n.len() != "end"@.len());
        }
        if k == 1 {
            reveal_strlit("pageup");
            assert(n == "pageup"@);
            reveal_strlit("Enter");
            assert(n.len() != "Enter"@.len());
            reveal_strlit("enter");
            assert(n.len() != "enter"@.len());
            reveal_strlit("Esc");
            assert(n.len() != "Esc"@.len());
            reveal_strlit("esc");
            assert(n.len() != "esc"@.len());
            reveal_strlit("Escape");
            assert(n[0] != "Escape"@[0]);
            reveal_strlit("escape");
            assert(n[0] != "escape"@[0]);
            reveal_strlit("Up");
            assert(n.len() != "Up"@.len());
            reveal_strlit("up");
            assert(n.len() != "up"@.len());
            reveal_strlit("Down");
            assert(n.len() != "Down"@.len());
            reveal_strlit("down");
            assert(n.len() != "down"@.len());
            reveal_strlit("Left");
            assert(n.len() != "Left"@.len());
            reveal_strlit("left");
            assert(n.len() != "left"@.len());
            reveal_strlit("Right");
            assert(n.len() != "Right"@.len());
            reveal_strlit("right");
            assert(n.len() != "right"@.len());
            reveal_strlit("Tab");
            assert(n.len() != "Tab"@.len());
            reveal_strlit("tab");
            assert(n.len() != "tab"@.len());
            reveal_strlit("Space");
            assert(n.len() != "Space"@.len());
            reveal_strlit("space");
            assert(n.len() != "space"@.len());
            reveal_strlit("Backspace");
            assert(n.len() != "Backspace"@.len());
            reveal_strlit("backspace");
            assert(n.len() != "backspace"@.len());
            reveal_strlit("Home");
            assert(n.len() != "Home"@.len());
            reveal_strlit("home");
            assert(n.len() != "home"@.len());
            reveal_strlit("End");
            assert(n.len() != "End"@.len());
            reveal_strlit("end");
            assert(n.len() != "end"@.len());
            reveal_strlit("PageUp");
            assert(n[0] != "PageUp"@[0]);
        }
    } else if c == KeyCode::PageDown {
        if k == 0 {
            reveal_strlit("PageDown");
            assert(n == "PageDown"@);
            reveal_strlit("Enter");
            assert(n.len() != "Enter"@.len());
            reveal_strlit("enter");
            assert(n.len() != "enter"@.len());
            reveal_strlit("Esc");
            assert(n.len() != "Esc"@.len());
            reveal_strlit("esc");
            assert(n.len() != "esc"@.len());
            reveal_strlit("Escape");
            assert(n.len() != "Escape"@.len());
            reveal_strlit("escape");
            assert(n.len() != "escape"@.len());
            reveal_strlit("Up");
            assert(n.len() != "Up"@.len());
            reveal_strlit("up");
            assert(n.len() != "up"@.len());
            reveal_strlit("Down");
            assert(n.len() != "Down"@.len());
            reveal_strlit("down");
            assert(n.len() != "down"@.len());
            reveal_strlit("Left");
            assert(n.len() != "Left"@.len());
            reveal_strlit("left");
            assert(n.len() != "left"@.len());
            reveal_strlit("Right");
            assert(n.len() != "Right"@.len());
            reveal_strlit("right");
            assert(n.len() != "right"@.len());
            reveal_strlit("Tab");
            assert(n.len() != "Tab"@.len());
            reveal_strlit("tab");
            assert(n.len() != "tab"@.len());
            reveal_strlit("Space");
            assert(n.len() != "Space"@.len());
            reveal_strlit("space");
            assert(n.len() != "space"@.len());
            reveal_strlit("Backspace");
            assert(n.len() != "Backspace"@.len());
            reveal_strlit("backspace");
            assert(n.len() != "backspace"@.len());
            reveal_strlit("Home");
            assert(n.len() != "Home"@.len());
            reveal_strlit("home");
            assert(n.len() != "home"@.len());
            reveal_strlit("End");
            assert(n.len() != "End"@.len());
            reveal_strlit("end");
            assert(n.len() != "end"@.len());
            reveal_strlit("PageUp");
            assert(n.len() != "PageUp"@.len());
            reveal_strlit("pageup");
            assert(n.len() != "pageup"@.len());
        }
        if k == 1 {
            reveal_strlit("pagedown");
            assert(n == "pagedown"@);
            reveal_strlit("Enter");
            assert(n.len() != "Enter"@.len());
            reveal_strlit("enter");
            assert(n.len() != "enter"@.len());
            reveal_strlit("Esc");
            assert(n.len() != "Esc"@.len());
            reveal_strlit("esc");
            assert(n.len() != "esc"@.len());
            reveal_strlit("Escape");
            assert(n.len() != "Escape"@.len());
            reveal_strlit("escape");
            assert(n.len() != "escape"@.len());
            reveal_strlit("Up");
            assert(n.len() != "Up"@.len());
            reveal_strlit("up");
            assert(n.len() != "up"@.len());
            reveal_strlit("Down");
            assert(n.len() != "Down"@.len());
            reveal_strlit("down");
            assert(n.len() != "down"@.len());
            reveal_strlit("Left");
            assert(n.len() != "Left"@.len());
            reveal_strlit("left");
            assert(n.len() != "left"@.len());
            reveal_strlit("Right");
            assert(n.len() != "Right"@.len());
            reveal_strlit("right");
            assert(n.len() != "right"@.len());
            reveal_strlit("Tab");
            assert(n.len() != "Tab"@.len());
            reveal_strlit("tab");
            assert(n.len() != "tab"@.len());
            reveal_strlit("Space");
            assert(n.len() != "Space"@.len());
            reveal_strlit("space");
            assert(n.len() != "space"@.len());
            reveal_strlit("Backspace");
            assert(n.len() != "Backspace"@.len());
            reveal_strlit("backspace");
            assert(n.len() != "backspace"@.len());
            reveal_strlit("Home");
            assert(n.len() != "Home"@.len());
            reveal_strlit("home");
            assert(n.len() != "home"@.len());
            reveal_strlit("End");
            assert(n.len() != "End"@.len());
            reveal_strlit("end");
            assert(n.len() != "end"@.len());
            reveal_strlit("PageUp");
            assert(n.len() != "PageUp"@.len());
            reveal_strlit("pageup");
            assert(n.len() != "pageup"@.len());
            reveal_strlit("PageDown");
            assert(n[0] != "PageDown"@[0]);
        }
    } else {
        assert(key_names(c).len() == 0);
    }
}

/// A single character other than `+` stands for that character's key.
pub proof fn lemma_single_char_key(ch: char)
    ensures
        key_code_of(seq![ch]) == Some(KeyCode::Char(ch)),
        ch != '+' ==> key_combo_of(seq![ch]) == Some((KeyCode::Char(ch), NONE)),
{
    reveal_strlit("Enter");
    reveal_strlit("enter");
    reveal_strlit("Esc");
    reveal_strlit("esc");
    reveal_strlit("Escape");
    reveal_strlit("escape");
    reveal_strlit("Up");
    reveal_strlit("up");
    reveal_strlit("Down");
    reveal_strlit("down");
    reveal_strlit("Left");
    reveal_strlit("left");
    reveal_strlit("Right");
    reveal_strlit("right");
    reveal_strlit("Tab");
    reveal_strlit("tab");
    reveal_strlit("Space");
    reveal_strlit("space");
    reveal_strlit("Backspace");
    reveal_strlit("backspace");
    reveal_strlit("Home");
    reveal_strlit("home");
    reveal_strlit("End");
    reveal_strlit("end");
    reveal_strlit("PageUp");
    reveal_strlit("pageup");
    reveal_strlit("PageDown");
    reveal_strlit("pagedown");
    if ch != '+' {
        lemma_split_without_sep(seq![ch], '+');
        assert(split(seq![ch], '+').drop_last() =~= Seq::<Seq<char>>::empty());
        assert(0u8 & 0xfeu8 == 0u8) by (bit_vector);
    }
}

/// A key binding that is just a key's name parses to that key with no
/// modifiers.
pub proof fn lemma_key_name_parses(c: KeyCode, k: int)
    requires
        0 <= k < key_names(c).len(),
    ensures
        key_combo_of(key_names(c)[k]) == Some((c, NONE)),
{
    let n = key_names(c)[k];
    lemma_key_names(c, k);
    reveal_strlit("Enter");
    reveal_strlit("enter");
    reveal_strlit("Esc");
    reveal_strlit("esc");
    reveal_strlit("Escape");
    reveal_strlit("escape");
    reveal_strlit("Up");
    reveal_strlit("up");
    reveal_strlit("Down");
    reveal_strlit("down");
    reveal_strlit("Left");
    reveal_strlit("left");
    reveal_strlit("Right");
    reveal_strlit("right");
    reveal_strlit("Tab");
    reveal_strlit("tab");
    reveal_strlit("Space");
    reveal_strlit("space");
    reveal_strlit("Backspace");
    reveal_strlit("backspace");
    reveal_strlit("Home");
    reveal_strlit("home");
    reveal_strlit("End");
    reveal_strlit("end");
    reveal_strlit("PageUp");
    reveal_strlit("pageup");
    reveal_strlit("PageDown");
    reveal_strlit("pagedown");
    assert forall|i: int| 0 <= i < n.len() implies n[i] != '+' by {}
    lemma_split_without_sep(n, '+');
    assert(split(n, '+').drop_last() =~= Seq::<Seq<char>>::empty());
    assert(0u8 & 0xfeu8 == 0u8) by (bit_vector);
}

} // verus!
