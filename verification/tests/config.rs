use shellsense::config::{
    configured, example, is_valid_color, parse_chord, protocol_chord, Chord, Config, Input, Key,
};

#[test]
fn colors_accept_default_and_hex_only() {
    assert!(is_valid_color("default"));
    assert!(is_valid_color("#abcdef"));
    assert!(is_valid_color("#ABCDEF"));
    assert!(!is_valid_color("#12345"));
    assert!(!is_valid_color("123456"));
    assert!(!is_valid_color("#1234567"));
}

#[test]
fn defaults_are_valid_and_example_round_trips() {
    let config = Config::default();
    config.validate().expect("defaults should validate");

    let parsed: toml::Value = toml::from_str(example()).expect("example should parse");
    assert_eq!(
        parsed["ui"]["max_rows"].as_integer(),
        Some(config.ui.max_rows as i64)
    );
    assert_eq!(
        parsed["completion"]["max_results"].as_integer(),
        Some(config.completion.max_results as i64)
    );
}

#[test]
fn bounds_and_colors_are_reported_in_order() {
    let mut config = Config::default();
    config.ui.max_rows = 0;
    config.ui.match_color = "#12345".into();
    let message = config.validate().unwrap_err();
    assert!(message.contains("ui.max_rows"), "{message}");
    assert!(message.contains("between 1"), "{message}");
    config.ui.max_rows = 8;
    assert_eq!(
        config.validate().unwrap_err(),
        "ui.match_color must be 'default' or a six-digit #RRGGBB color (got '#12345')"
    );
    config.ui.match_color = "default".into();
    config.completion.max_results = 1001;
    assert_eq!(
        config.validate().unwrap_err(),
        "completion.max_results must be between 1 and 1000 (got 1001)"
    );
}

#[test]
fn shortcuts_must_parse_and_differ() {
    let mut config = Config::default();
    config.keys.search = "ctrl+space".into();
    assert_eq!(
        config.validate().unwrap_err(),
        "keys.search: duplicate shortcut 'ctrl+space'"
    );
    config.keys.search = "Ctrl+Zap".into();
    assert_eq!(config.validate().unwrap_err(), "keys.search: unsupported key 'zap'");
    config.keys.search = "Ctrl+Foo".into();
    assert_eq!(config.validate().unwrap_err(), "keys.search: invalid function key");
    config.keys.search = "Ctrl+Alt+F".into();
    config.keys.protocol_prefix = "F4".into();
    assert_eq!(
        config.validate().unwrap_err(),
        "keys.protocol_prefix must be F5 through F12"
    );
}

#[test]
fn description_overrides_must_not_be_blank() {
    let mut config = Config::default();
    config.descriptions = vec![("git".into(), " ".into())];
    assert_eq!(
        config.validate().unwrap_err(),
        "descriptions.git must contain 1 to 2048 characters"
    );
    config.descriptions = vec![("git log --oneline".into(), "逐行查看提交".into())];
    assert!(config.validate().is_ok());
}

#[test]
fn chords_parse_keys_and_modifiers() {
    assert_eq!(
        parse_chord("Ctrl+Alt+Space"),
        Ok(Chord { key: Key::Char(' '), ctrl: true, alt: true, shift: false })
    );
    assert_eq!(parse_chord(" shift + F12 "), Ok(Chord { key: Key::F(12), ctrl: false, alt: false, shift: true }));
    assert_eq!(parse_chord("F13"), Err("function keys must be F1 through F12".to_string()));
    assert_eq!(parse_chord("Fx"), Err("invalid function key".to_string()));
    assert_eq!(parse_chord("Ctrl"), Err("missing key".to_string()));
    assert_eq!(
        parse_chord("a+b"),
        Err("use one key with optional Ctrl/Alt/Shift modifiers".to_string())
    );
    assert_eq!(parse_chord("X"), Ok(Chord { key: Key::Char('x'), ctrl: false, alt: false, shift: false }));
}

#[test]
fn configured_shortcuts_map_to_actions() {
    let keys = Config::default().keys;
    let pressed = Chord { key: Key::Char(' '), ctrl: true, alt: false, shift: false };
    assert!(matches!(configured(pressed, &keys), Some(Input::Trigger)));
    let f1 = Chord { key: Key::F(1), ctrl: false, alt: false, shift: false };
    assert!(matches!(configured(f1, &keys), Some(Input::Details)));
    let upper = Chord { key: Key::Char('R'), ctrl: true, alt: true, shift: false };
    assert!(matches!(configured(upper, &keys), Some(Input::Reload)));
    let none = Chord { key: Key::Char('q'), ctrl: false, alt: false, shift: false };
    assert!(configured(none, &keys).is_none());
}

#[test]
fn protocol_chords_use_function_key_codes() {
    assert_eq!(protocol_chord("F12", 'a'), b"\x1b[24~a".to_vec());
    assert_eq!(protocol_chord("F5", 'z'), b"\x1b[15~z".to_vec());
    assert_eq!(protocol_chord("F11", '中'), "\x1b[23~中".as_bytes().to_vec());
}

#[test]
fn themes_replace_colors_not_given_explicitly() {
    let mut config = Config::default();
    config.ui.theme = "light".into();
    config.apply_theme(&vec!["background".to_string()]);
    assert_eq!(config.ui.foreground, "#202020");
    assert_eq!(config.ui.background, "default");
    assert_eq!(config.ui.match_color, "#9c3600");
    let mut dark = Config::default();
    dark.apply_theme(&Vec::new());
    assert_eq!(dark.ui.foreground, "default");
}
