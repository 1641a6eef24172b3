use mdr::config::Config;
use mdr::keys::{build_keymap, normalize_combo, parse_action, parse_key, Action, KeyCode, ALT, CONTROL, NONE, SHIFT};

#[test]
fn test_parse_key_chars_and_specials() {
    assert_eq!(parse_key("q"), Some((KeyCode::Char('q'), NONE)));
    assert_eq!(parse_key("Enter"), Some((KeyCode::Enter, NONE)));
    assert_eq!(parse_key("Esc"), Some((KeyCode::Esc, NONE)));
    assert_eq!(parse_key("Down"), Some((KeyCode::Down, NONE)));
    assert_eq!(parse_key("ab"), None);
    assert_eq!(parse_key(""), None);
}

#[test]
fn test_parse_key_with_modifiers() {
    assert_eq!(parse_key("Ctrl+d"), Some((KeyCode::Char('d'), CONTROL)));
    assert_eq!(parse_key("ctrl+u"), Some((KeyCode::Char('u'), CONTROL)));
    assert_eq!(parse_key("Shift+Tab"), Some((KeyCode::Tab, SHIFT)));
    assert_eq!(parse_key("Alt+Enter"), Some((KeyCode::Enter, ALT)));
}

#[test]
fn test_normalize_strips_shift_from_char_keys() {
    // Capital G typed as Shift+g should match a 'G' binding.
    let (code, mods) = normalize_combo(KeyCode::Char('G'), SHIFT);
    assert_eq!(code, KeyCode::Char('G'));
    assert_eq!(mods, NONE);
    // SHIFT is preserved on non-Char keys (e.g. Shift+Tab).
    let (code, mods) = normalize_combo(KeyCode::Tab, SHIFT);
    assert_eq!(code, KeyCode::Tab);
    assert_eq!(mods, SHIFT);
}

#[test]
fn test_build_keymap_from_default_config() {
    let cfg = Config::default();
    let map = build_keymap(&cfg);
    assert_eq!(map.get(&(KeyCode::Char('q'), NONE)), Some(Action::Quit));
    assert_eq!(map.get(&(KeyCode::Char('j'), NONE)), Some(Action::Down));
    assert_eq!(map.get(&(KeyCode::Down, NONE)), Some(Action::Down));
    assert_eq!(map.get(&(KeyCode::Enter, NONE)), Some(Action::Activate));
    assert_eq!(map.get(&(KeyCode::Char('G'), NONE)), Some(Action::Bottom));
    assert_eq!(map.get(&(KeyCode::Char('d'), CONTROL)), Some(Action::HalfPageDown));
    assert_eq!(map.get(&(KeyCode::Char('u'), CONTROL)), Some(Action::HalfPageUp));
    assert_eq!(map.get(&(KeyCode::Char('f'), CONTROL)), Some(Action::PageDown));
    assert_eq!(map.get(&(KeyCode::Char('b'), CONTROL)), Some(Action::PageUp));
    assert_eq!(map.get(&(KeyCode::Char(':'), NONE)), Some(Action::LineJumpPrompt));
    assert_eq!(map.get(&(KeyCode::Tab, NONE)), Some(Action::NextLink));
    // `g` is not a single-key binding; the chord is handled by the key handler.
    assert_eq!(map.get(&(KeyCode::Char('g'), NONE)), None);
}

#[test]
fn parse_key_accepts_modifier_aliases_and_spaces() {
    assert_eq!(parse_key("Control+x"), Some((KeyCode::Char('x'), CONTROL)));
    assert_eq!(parse_key(" CTRL +x"), Some((KeyCode::Char('x'), CONTROL)));
    assert_eq!(parse_key("meta+a"), Some((KeyCode::Char('a'), ALT)));
    assert_eq!(parse_key("Option+a"), Some((KeyCode::Char('a'), ALT)));
    assert_eq!(parse_key("Ctrl+Shift+Tab"), Some((KeyCode::Tab, CONTROL | SHIFT)));
}

#[test]
fn parse_key_rejects_unknown_modifier_and_trailing_plus() {
    assert_eq!(parse_key("Hyper+a"), None);
    assert_eq!(parse_key("Ctrl++"), None);
    assert_eq!(parse_key("Ctrl+"), None);
    // A lone `+` is the plus key itself.
    assert_eq!(parse_key("+"), None);
}

#[test]
fn parse_key_named_keys_and_space() {
    assert_eq!(parse_key("space"), Some((KeyCode::Char(' '), NONE)));
    assert_eq!(parse_key("PageDown"), Some((KeyCode::PageDown, NONE)));
    assert_eq!(parse_key("escape"), Some((KeyCode::Esc, NONE)));
    assert_eq!(parse_key("backspace"), Some((KeyCode::Backspace, NONE)));
    assert_eq!(parse_key("home"), Some((KeyCode::Home, NONE)));
    // Shift on a character key is dropped: the case is in the character.
    assert_eq!(parse_key("Shift+g"), Some((KeyCode::Char('g'), NONE)));
}

#[test]
fn parse_action_knows_aliases() {
    assert_eq!(parse_action("quit"), Some(Action::Quit));
    assert_eq!(parse_action("scroll_down"), Some(Action::Down));
    assert_eq!(parse_action("end"), Some(Action::Bottom));
    assert_eq!(parse_action("half_page_up"), Some(Action::HalfPageUp));
    assert_eq!(parse_action("open"), Some(Action::Activate));
    assert_eq!(parse_action("goto_line"), Some(Action::LineJumpPrompt));
    assert_eq!(parse_action("history_forward"), Some(Action::NavForward));
    assert_eq!(parse_action("jump"), None);
}

#[test]
fn later_binding_of_a_key_wins() {
    let mut cfg = Config::default();
    cfg.keys.insert("top".to_string(), mdr::config::KeyBinding::Single("q".to_string()));
    let map = build_keymap(&cfg);
    // `top` comes after `quit` in the table, so it takes `q` over.
    assert_eq!(map.get(&(KeyCode::Char('q'), NONE)), Some(Action::Top));
    assert!(map.contains_key(&(KeyCode::Char('j'), NONE)));
}

#[test]
fn unknown_action_names_bind_nothing() {
    let mut cfg = Config::default();
    cfg.keys.insert("fly".to_string(), mdr::config::KeyBinding::Single("x".to_string()));
    let map = build_keymap(&cfg);
    assert_eq!(map.get(&(KeyCode::Char('x'), NONE)), None);
}

#[test]
fn default_keymap_binds_esc_h_and_left_to_back() {
    let map = build_keymap(&Config::default());
    assert_eq!(map.get(&(KeyCode::Esc, NONE)), Some(Action::Back));
    assert_eq!(map.get(&(KeyCode::Char('h'), NONE)), Some(Action::Back));
    assert_eq!(map.get(&(KeyCode::Left, NONE)), Some(Action::Back));
}
