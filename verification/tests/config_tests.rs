use nanolike::bindings_file::default_keybindings_text;
use nanolike::config::{
    config_dir, config_path, default_keybindings, keybindings_path, Action, BindingMap, Config,
    KeyBindings,
};

fn make_keybindings() -> KeyBindings {
    KeyBindings::new(default_keybindings())
}

fn default_actions() -> Vec<Action> {
    vec![
        Action::Quit, Action::Save, Action::SaveAs, Action::Help,
        Action::CutLine, Action::Paste, Action::CopyLine, Action::SelectAll,
        Action::Search, Action::SearchNext, Action::SearchPrev, Action::Replace,
        Action::GotoLine, Action::PageUp, Action::PageDown, Action::FileTop,
        Action::FileBottom, Action::Undo, Action::Redo, Action::NextWord,
        Action::PrevWord, Action::DeleteWord, Action::DeleteToEol,
        Action::ToggleLineNumbers, Action::ToggleWordWrap, Action::ToggleAutoIndent,
        Action::OpenFile, Action::NextTab, Action::PrevTab, Action::CloseTab,
        Action::NewTab,
    ]
}

#[test]
fn config_default_values() {
    let cfg = Config::default();
    assert_eq!(cfg.tab_size, 4);
    assert!(cfg.use_spaces);
    assert!(cfg.auto_indent);
    assert!(!cfg.word_wrap);
    assert!(cfg.line_numbers);
}

#[test]
fn default_keybindings_has_expected_actions() {
    let kb = default_keybindings();
    for action in &default_actions() {
        assert!(kb.contains_key(*action), "Missing action: {}", action.to_string());
    }
}

#[test]
fn default_keybindings_quit_has_keys() {
    let kb = default_keybindings();
    let keys = kb.get(Action::Quit).unwrap();
    assert!(keys.contains(&"ctrl+x".to_string()));
    assert!(keys.contains(&"ctrl+q".to_string()));
}

#[test]
fn keybindings_get_action_known_key() {
    let kb = make_keybindings();
    assert_eq!(kb.get_action("ctrl+x"), Some(Action::Quit));
    assert_eq!(kb.get_action("ctrl+z"), Some(Action::Undo));
    assert_eq!(kb.get_action("ctrl+s"), Some(Action::Save));
}

#[test]
fn keybindings_get_action_unknown_key() {
    let kb = make_keybindings();
    assert!(kb.get_action("ctrl+shift+f99").is_none());
}

#[test]
fn keybindings_first_key() {
    let kb = make_keybindings();
    assert_eq!(kb.first_key(Action::Quit), "ctrl+x");
    assert_eq!(kb.first_key(Action::Undo), "ctrl+z");
}

#[test]
fn keybindings_first_key_unknown_action_returns_empty() {
    let mut bindings = default_keybindings();
    bindings.remove(Action::Quit);
    let kb = KeyBindings::new(bindings);
    assert_eq!(kb.first_key(Action::Quit), "");
}

#[test]
fn keybindings_all_default_keys_resolve_to_actions() {
    let kb = make_keybindings();
    let defaults = default_keybindings();
    for (action, keys) in defaults.entries().iter() {
        for key in keys {
            let resolved = kb.get_action(key);
            assert!(
                resolved.is_some(),
                "Key '{}' for action '{}' not resolvable",
                key,
                action.to_string()
            );
        }
    }
}

#[test]
fn keybindings_custom_override_replaces_default() {
    let mut bindings = default_keybindings();
    bindings.insert(Action::Quit, vec!["ctrl+shift+q".to_string()]);
    let kb = KeyBindings::new(bindings);
    assert_ne!(kb.get_action("ctrl+x"), Some(Action::Quit));
    assert_ne!(kb.get_action("ctrl+q"), Some(Action::Quit));
    assert_eq!(kb.get_action("ctrl+shift+q"), Some(Action::Quit));
}

#[test]
fn action_display_fromstr_roundtrip() {
    let pairs = [
        (Action::Quit, "quit"),
        (Action::SearchNext, "search_next"),
        (Action::ToggleLineNumbers, "toggle_line_numbers"),
        (Action::NewTab, "new_tab"),
    ];
    for (action, expected_str) in pairs {
        assert_eq!(action.to_string(), expected_str, "Display mismatch for {:?}", action);
        assert_eq!(expected_str.parse::<Action>(), Ok(action), "FromStr mismatch for {}", expected_str);
    }
}

#[test]
fn action_fromstr_unknown_returns_err() {
    assert!("not_an_action".parse::<Action>().is_err());
    assert!("Quit".parse::<Action>().is_err());
    assert!("".parse::<Action>().is_err());
}

// ── further cases ─────────────────────────────────────────────────────────────

#[test]
fn every_action_name_parses_back() {
    for a in default_actions() {
        assert_eq!(Action::from_name(a.name()), Ok(a));
    }
}

#[test]
fn default_bindings_bind_all_actions() {
    let kb = default_keybindings();
    assert_eq!(kb.len(), 31);
    for a in default_actions() {
        assert!(!kb.get(a).unwrap().is_empty());
    }
}

#[test]
fn binding_map_insert_remove() {
    let mut m = BindingMap::new();
    assert_eq!(m.len(), 0);
    m.insert(Action::Undo, vec!["ctrl+z".to_string()]);
    m.insert(Action::Undo, vec!["f9".to_string()]);
    assert_eq!(m.len(), 1);
    assert_eq!(m.get(Action::Undo).unwrap(), &vec!["f9".to_string()]);
    m.remove(Action::Undo);
    assert!(!m.contains_key(Action::Undo));
    m.remove(Action::Redo);
    assert_eq!(m.len(), 0);
}

#[test]
fn user_overrides_are_merged_with_defaults() {
    let user = vec![
        ("quit".to_string(), vec!["f10".to_string()]),
        ("no_such_action".to_string(), vec!["f11".to_string()]),
    ];
    let kb = KeyBindings::load(user);
    assert_eq!(kb.get_action("f10"), Some(Action::Quit));
    assert_eq!(kb.get_action("ctrl+x"), None);
    assert_eq!(kb.get_action("f11"), None);
    assert_eq!(kb.get_action("ctrl+s"), Some(Action::Save));
}

#[test]
fn config_paths_under_home_or_current_dir() {
    assert_eq!(config_dir(Some("/home/u")), "/home/u/.config/nanolike");
    assert_eq!(config_dir(Some("/")), "/.config/nanolike");
    assert_eq!(config_dir(None), "./.config/nanolike");
    assert_eq!(config_path(Some("/home/u")), "/home/u/.config/nanolike/config.json");
    assert_eq!(keybindings_path(None), "./.config/nanolike/keybindings.json");
}

fn keys_of(kb: &KeyBindings, a: Action) -> Vec<String> {
    kb.bindings.get(a).unwrap().clone()
}

#[test]
fn search_default_keys_include_ctrl_w() {
    let kb = make_keybindings();
    assert_eq!(keys_of(&kb, Action::Search), vec!["ctrl+f".to_string(), "ctrl+w".to_string()]);
    assert_eq!(keys_of(&kb, Action::CloseTab), vec!["ctrl+w".to_string()]);
}

#[test]
fn key_bound_twice_resolves_to_first_declared_action() {
    let kb = make_keybindings();
    assert_eq!(kb.get_action("ctrl+w"), Some(Action::Search));
    assert_eq!(kb.get_action("ctrl+f"), Some(Action::Search));
    assert_eq!(kb.get_action("ctrl+t"), Some(Action::NewTab));
    assert_eq!(kb.get_action("ctrl+j"), None);
}

#[test]
fn load_text_applies_known_entries() {
    let kb = KeyBindings::load_text(Some(r#"{"save": ["ctrl+k"], "bogus": ["ctrl+b"]}"#));
    assert_eq!(keys_of(&kb, Action::Save), vec!["ctrl+k".to_string()]);
    assert_eq!(keys_of(&kb, Action::Quit), vec!["ctrl+x".to_string(), "ctrl+q".to_string()]);
    assert_eq!(kb.get_action("ctrl+b"), None);
    assert_eq!(kb.get_action("ctrl+k"), Some(Action::Save));
}

#[test]
fn load_text_without_file_or_with_bad_text_gives_defaults() {
    let defaults = make_keybindings();
    for kb in [KeyBindings::load_text(None), KeyBindings::load_text(Some("not json")),
        KeyBindings::load_text(Some(r#"{"save": "ctrl+s"}"#))] {
        for a in default_actions() {
            assert_eq!(keys_of(&kb, a), keys_of(&defaults, a));
        }
    }
}

#[test]
fn exported_defaults_read_back() {
    let text = default_keybindings_text();
    let parsed: std::collections::HashMap<String, Vec<String>> = serde_json::from_str(&text).unwrap();
    assert_eq!(parsed.len(), 31);
    assert_eq!(parsed["search"], vec!["ctrl+f".to_string(), "ctrl+w".to_string()]);
    assert_eq!(parsed["quit"], vec!["ctrl+x".to_string(), "ctrl+q".to_string()]);
    let kb = KeyBindings::load_text(Some(&text));
    let defaults = make_keybindings();
    for a in default_actions() {
        assert_eq!(keys_of(&kb, a), keys_of(&defaults, a));
    }
}

#[test]
fn saved_bindings_read_back() {
    let kb = KeyBindings::load_text(Some(r#"{"undo": ["ctrl+u", "f9"]}"#));
    let again = KeyBindings::load_text(Some(&kb.text()));
    for a in default_actions() {
        assert_eq!(keys_of(&again, a), keys_of(&kb, a));
    }
    assert_eq!(keys_of(&again, Action::Undo), vec!["ctrl+u".to_string(), "f9".to_string()]);
}

#[test]
fn rebinding_search_frees_ctrl_w_for_close_tab() {
    let kb = KeyBindings::load_text(Some(r#"{"search": ["ctrl+f"]}"#));
    assert_eq!(kb.get_action("ctrl+w"), Some(Action::CloseTab));
    assert_eq!(kb.get_action("ctrl+f"), Some(Action::Search));
}
