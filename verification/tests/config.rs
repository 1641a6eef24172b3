use mdr::config::{merge, Config, KeyBinding, KeyTable, ThemeConfig, UiConfig};

fn user_config(heading: &str, code: &str, keys: Vec<(&str, KeyBinding)>) -> Config {
    let mut table = KeyTable::new();
    for (name, binding) in keys {
        table.insert(name.to_string(), binding);
    }
    Config {
        theme: ThemeConfig {
            h1_color: "lightred".to_string(),
            heading_color: heading.to_string(),
            code_color: code.to_string(),
            line_number_color: "darkgray".to_string(),
            show_line_numbers: true,
            image_height: 12,
            syntax_highlight: true,
            syntax_theme: "base16-ocean.dark".to_string(),
        },
        ui: UiConfig::default(),
        keys: table,
    }
}

#[test]
fn test_default_config_has_quit_key() {
    let cfg = Config::default();
    assert_eq!(cfg.keys.get("quit").unwrap().as_slice(), &["q".to_string()]);
}

#[test]
fn test_merge_keeps_default_keys_for_unspecified_actions() {
    let user = user_config("red", "blue", vec![("quit", KeyBinding::Single("Q".to_string()))]);
    let merged = merge(Config::default(), user);
    // User override
    assert_eq!(merged.theme.heading_color, "red");
    assert_eq!(merged.keys.get("quit").unwrap().as_slice(), &["Q".to_string()]);
    // Defaults preserved
    assert!(merged.keys.contains_key("down"));
    assert!(merged.keys.contains_key("activate"));
    assert!(merged.keys.contains_key("back"));
}

#[test]
fn default_config_values() {
    let cfg = Config::default();
    assert_eq!(cfg.theme.h1_color, "lightred");
    assert_eq!(cfg.theme.heading_color, "cyan");
    assert_eq!(cfg.theme.code_color, "yellow");
    assert_eq!(cfg.theme.line_number_color, "darkgray");
    assert!(cfg.theme.show_line_numbers);
    assert_eq!(cfg.theme.image_height, 12);
    assert!(cfg.theme.syntax_highlight);
    assert_eq!(cfg.theme.syntax_theme, "base16-ocean.dark");
    assert!(cfg.ui.mouse);
    assert_eq!(cfg.keys.len(), 19);
    assert_eq!(
        cfg.keys.get("nav_forward").unwrap().as_slice(),
        &["Ctrl+]".to_string(), "]".to_string()]
    );
    assert_eq!(
        cfg.keys.get("activate").unwrap().as_slice(),
        &["Enter".to_string(), "l".to_string(), "Right".to_string()]
    );
}

#[test]
fn merge_adds_new_actions_and_replaces_theme_and_ui() {
    let mut user = user_config(
        "green",
        "white",
        vec![
            ("top", KeyBinding::Multiple(vec!["g".to_string(), "Home".to_string()])),
            ("down", KeyBinding::Single("n".to_string())),
        ],
    );
    user.ui.mouse = false;
    let merged = merge(Config::default(), user);
    assert_eq!(merged.theme.code_color, "white");
    assert!(!merged.ui.mouse);
    assert_eq!(merged.keys.len(), 20);
    assert_eq!(merged.keys.get("down").unwrap().as_slice(), &["n".to_string()]);
    assert_eq!(
        merged.keys.get("top").unwrap().as_slice(),
        &["g".to_string(), "Home".to_string()]
    );
    assert_eq!(merged.keys.get("up").unwrap().as_slice(), &["k".to_string(), "Up".to_string()]);
}

#[test]
fn key_table_insert_replaces_in_place() {
    let mut t = KeyTable::new();
    t.insert("a".to_string(), KeyBinding::Single("x".to_string()));
    t.insert("b".to_string(), KeyBinding::Single("y".to_string()));
    t.insert("a".to_string(), KeyBinding::Single("z".to_string()));
    assert_eq!(t.len(), 2);
    assert_eq!(t.entry(0).0, "a");
    assert_eq!(t.get("a").unwrap().as_slice(), &["z".to_string()]);
    assert!(t.get("c").is_none());
}
