use boltscribe::hotkeys::HotkeyConfig;
use boltscribe::keyboard_shortcut::{event_flags, parse, ShortcutKey};
use boltscribe::mouse_shortcuts::{self, MouseShortcutButton};
use boltscribe::shortcuts::{active_config_hotkeys, validate_hotkeys, validate_mouse_hotkeys};

#[test]
fn parses_soundsource_default_shortcut() {
    let shortcut = parse("Cmd+Opt+Ctrl+A").unwrap();

    assert!(shortcut.command);
    assert!(shortcut.option);
    assert!(shortcut.control);
    assert!(!shortcut.shift);
    assert_eq!(shortcut.key, ShortcutKey::Character('A'));
}

#[test]
fn parses_lowercase_shortcut_aliases() {
    let shortcut = parse("cmd+alt+control+space").unwrap();

    assert!(shortcut.command);
    assert!(shortcut.option);
    assert!(shortcut.control);
    assert_eq!(shortcut.key, ShortcutKey::Space);
}

#[test]
fn parses_function_keys() {
    let shortcut = parse("Cmd+F20").unwrap();

    assert!(shortcut.command);
    assert_eq!(shortcut.key, ShortcutKey::Function(20));
}

#[test]
fn rejects_invalid_shortcuts() {
    assert!(parse("").is_err());
    assert!(parse("Cmd+Opt").is_err());
    assert!(parse("Cmd+A+B").is_err());
    assert!(parse("Cmd+Unknown").is_err());
    assert!(parse("Cmd+F21").is_err());
    assert!(parse("A").is_err());
}

#[test]
fn shortcut_errors_name_the_reason() {
    assert_eq!(parse("  ").unwrap_err(), "shortcut is empty");
    assert_eq!(parse("Cmd++A").unwrap_err(), "shortcut 'Cmd++A' contains an empty token");
    assert_eq!(parse("Cmd+Command+A").unwrap_err(), "shortcut contains duplicate modifier 'Command'");
    assert_eq!(parse("Cmd+A+B").unwrap_err(), "shortcut 'Cmd+A+B' contains multiple main keys");
    assert_eq!(parse("Cmd+F21").unwrap_err(), "function key 'F21' is outside F1-F20");
    assert_eq!(parse("Cmd+Fx").unwrap_err(), "unknown shortcut key 'Fx'");
    assert_eq!(parse("Cmd+Opt").unwrap_err(), "shortcut 'Cmd+Opt' has no main key");
    assert_eq!(parse("A").unwrap_err(), "shortcut 'A' must include at least one modifier");
    assert_eq!(parse("Shift+f+05").unwrap_err(), "unknown shortcut key 'f'");
    assert_eq!(parse("Shift+f05").unwrap().key, ShortcutKey::Function(5));
}

#[test]
fn event_flags_follow_the_modifier_masks() {
    let shortcut = parse("Cmd+Opt+Ctrl+A").unwrap();
    assert_eq!(event_flags(shortcut), (1 << 20) | (1 << 19) | (1 << 18));
    assert_eq!(event_flags(parse("Shift+9").unwrap()), 1 << 17);
}

#[test]
fn parses_mouse_shortcut_with_modifiers() {
    let shortcut = mouse_shortcuts::parse("Ctrl+Shift+MouseBack").unwrap().unwrap();

    assert_eq!(shortcut.button, MouseShortcutButton::Back);
    assert!(shortcut.modifiers.ctrl);
    assert!(shortcut.modifiers.shift);
    assert!(!shortcut.modifiers.alt);
    assert!(!shortcut.modifiers.meta);
}

#[test]
fn ignores_keyboard_shortcuts() {
    assert!(mouse_shortcuts::parse("Ctrl+Shift+Space").unwrap().is_none());
}

#[test]
fn rejects_mouse_shortcut_with_keyboard_key() {
    assert!(mouse_shortcuts::parse("MouseMiddle+Space").unwrap_err().contains("keyboard key"));
}

#[test]
fn mouse_tokens_ignore_case_and_separators() {
    let shortcut = mouse_shortcuts::parse(" win + x_button-2 ").unwrap().unwrap();
    assert_eq!(shortcut.button, MouseShortcutButton::Forward);
    assert!(shortcut.modifiers.meta);
    assert_eq!(
        mouse_shortcuts::parse("MouseBack+XButton1").unwrap_err(),
        "Mouse shortcut 'MouseBack+XButton1' contains multiple mouse buttons"
    );
    assert_eq!(
        mouse_shortcuts::parse("A+MouseMiddle+B").unwrap_err(),
        "Mouse shortcut 'A+MouseMiddle+B' cannot include keyboard key 'A+B'"
    );
}

fn config_with_hotkeys(hotkeys: Vec<&str>) -> HotkeyConfig {
    let mut config = HotkeyConfig {
        hotkey: "PageUp".to_string(),
        hotkeys: hotkeys.into_iter().map(ToOwned::to_owned).collect(),
        hotkey_enabled: vec![true, true],
    };
    config.normalize_hotkeys();
    config
}

fn ids(config: &HotkeyConfig, ids: Vec<Result<u32, &str>>) -> Vec<Result<u32, String>> {
    assert_eq!(ids.len(), active_config_hotkeys(config).len());
    ids.into_iter().map(|r| r.map_err(|e| e.to_string())).collect()
}

#[test]
fn validates_two_shortcuts_with_combo_key() {
    let config = config_with_hotkeys(vec!["PageUp", "CmdOrCtrl+Shift+Space"]);
    let keyboard = ids(&config, vec![Ok(1), Ok(2)]);

    assert_eq!(
        validate_hotkeys(&config, &keyboard).unwrap().keyboard,
        vec!["PageUp".to_string(), "CmdOrCtrl+Shift+Space".to_string()]
    );
}

#[test]
fn rejects_duplicate_shortcuts() {
    let config = config_with_hotkeys(vec!["Ctrl+Shift+Space", "Shift+Ctrl+Space"]);
    let keyboard = ids(&config, vec![Ok(7), Ok(7)]);

    assert!(validate_hotkeys(&config, &keyboard).unwrap_err().contains("Duplicate shortcut"));
}

#[test]
fn rejects_exact_duplicate_shortcuts() {
    let config = config_with_hotkeys(vec!["PageUp", "PageUp"]);
    let keyboard = ids(&config, vec![Ok(3), Ok(3)]);

    assert!(validate_hotkeys(&config, &keyboard).unwrap_err().contains("Duplicate shortcut"));
}

#[test]
fn accepts_all_shortcuts_disabled() {
    let mut config = HotkeyConfig {
        hotkey: "PageUp".to_string(),
        hotkeys: vec!["PageUp".to_string(), "CmdOrCtrl+Shift+Space".to_string()],
        hotkey_enabled: vec![false, false],
    };
    config.normalize_hotkeys();

    let validated = validate_hotkeys(&config, &Vec::new()).unwrap();
    assert!(validated.keyboard.is_empty());
    assert!(validated.mouse.is_empty());
}

#[test]
fn validates_mouse_shortcut() {
    let config = config_with_hotkeys(vec!["PageUp", "Ctrl+MouseBack"]);
    let keyboard = ids(&config, vec![Ok(1), Err("not a keyboard shortcut")]);

    let validated = validate_hotkeys(&config, &keyboard).unwrap();

    assert_eq!(validated.keyboard, vec!["PageUp".to_string()]);
    assert_eq!(validated.mouse.len(), 1);
}

#[test]
fn rejects_duplicate_mouse_shortcuts() {
    let config = config_with_hotkeys(vec!["Ctrl+MouseBack", "Control+MouseBack"]);
    let keyboard = ids(&config, vec![Err("x"), Err("x")]);

    assert!(validate_hotkeys(&config, &keyboard).unwrap_err().contains("Duplicate shortcut"));
    assert_eq!(validate_mouse_hotkeys(&config).unwrap_err(), "Duplicate shortcut 'Control+MouseBack'");
}

#[test]
fn invalid_keyboard_shortcut_reports_the_parser_reason() {
    let config = config_with_hotkeys(vec!["PageUp", "Nope"]);
    let keyboard = ids(&config, vec![Ok(1), Err("unknown key")]);
    assert_eq!(validate_hotkeys(&config, &keyboard).unwrap_err(), "Invalid shortcut 'Nope': unknown key");
}

#[test]
fn hotkeys_are_limited_to_two_slots() {
    let mut config = HotkeyConfig {
        hotkey: "PageUp".to_string(),
        hotkeys: vec!["PageUp".to_string(), "CmdOrCtrl+Shift+Space".to_string(), "F8".to_string()],
        hotkey_enabled: Vec::new(),
    };
    config.normalize_hotkeys();

    assert_eq!(config.hotkeys, vec!["PageUp".to_string(), "CmdOrCtrl+Shift+Space".to_string()]);
    assert_eq!(config.hotkey_enabled, vec![true, true]);
    assert_eq!(config.hotkey, "PageUp");
}

#[test]
fn disabled_hotkeys_are_not_active() {
    let mut config = HotkeyConfig {
        hotkey: "PageUp".to_string(),
        hotkeys: vec!["PageUp".to_string(), "CmdOrCtrl+Shift+Space".to_string()],
        hotkey_enabled: vec![false, true],
    };
    config.normalize_hotkeys();

    assert_eq!(config.hotkey, "CmdOrCtrl+Shift+Space");
    assert_eq!(config.hotkey_enabled, vec![false, true]);
    assert_eq!(config.active_hotkeys(), vec!["CmdOrCtrl+Shift+Space".to_string()]);

    config.hotkey_enabled = vec![false, false];
    config.normalize_hotkeys();

    assert!(config.hotkey.is_empty());
    assert!(config.active_hotkeys().is_empty());
}

#[test]
fn legacy_hotkey_is_promoted_to_first_hotkey_slot() {
    // The serialised defaults without `hotkeys` and `hotkey_enabled` read
    // back as empty lists; the legacy field holds F8.
    let mut config = HotkeyConfig { hotkey: "F8".to_string(), hotkeys: Vec::new(), hotkey_enabled: Vec::new() };
    config.normalize_hotkeys();

    assert_eq!(config.hotkey, "F8");
    assert_eq!(config.hotkeys, vec!["F8".to_string(), String::new()]);
    assert_eq!(config.hotkey_enabled, vec![true, false]);
    assert_eq!(config.active_hotkeys(), vec!["F8".to_string()]);
}

#[test]
fn normalizing_hotkeys_twice_changes_nothing_more() {
    let mut config = HotkeyConfig {
        hotkey: " F5 ".to_string(),
        hotkeys: vec![" F6".to_string(), "F6 ".to_string(), "F7".to_string()],
        hotkey_enabled: vec![],
    };
    config.normalize_hotkeys();
    assert_eq!(config.hotkeys, vec!["F6".to_string(), "F6".to_string()]);
    assert_eq!(config.hotkey_enabled, vec![true, true]);
    assert_eq!(config.hotkey, "F6");
    let once = config.clone();
    config.normalize_hotkeys();
    assert_eq!(config, once);
}

#[test]
fn normalizing_hotkeys_with_blank_first_slots_falls_back_on_the_second_pass() {
    let mut config = HotkeyConfig {
        hotkey: String::new(),
        hotkeys: vec![" ".to_string(), String::new(), "F7".to_string()],
        hotkey_enabled: vec![],
    };
    config.normalize_hotkeys();
    assert_eq!(config.hotkeys, vec![String::new(), String::new()]);
    // The switches and the legacy field already see the default shortcut.
    assert_eq!(config.hotkey_enabled, vec![true, false]);
    assert_eq!(config.hotkey, "PageUp");
    config.normalize_hotkeys();
    assert_eq!(config.hotkeys, vec!["PageUp".to_string(), String::new()]);
}

#[test]
fn every_parsed_key_has_a_key_code() {
    for s in ["Cmd+A", "Ctrl+z", "Opt+0", "Shift+9", "Cmd+Space", "Cmd+F1", "Cmd+F20", "Cmd+Shift+M"] {
        let shortcut = parse(s).unwrap();
        assert!(boltscribe::keyboard_shortcut::key_code(shortcut.key).is_ok(), "{s}");
    }
    assert_eq!(boltscribe::keyboard_shortcut::key_code(ShortcutKey::Character('A')), Ok(0x00));
    assert_eq!(boltscribe::keyboard_shortcut::key_code(ShortcutKey::Space), Ok(0x31));
    assert_eq!(boltscribe::keyboard_shortcut::key_code(ShortcutKey::Function(1)), Ok(0x7A));
    assert_eq!(boltscribe::keyboard_shortcut::key_code(ShortcutKey::Function(20)), Ok(0x5A));
    assert!(boltscribe::keyboard_shortcut::key_code(ShortcutKey::Character('!')).is_err());
}
