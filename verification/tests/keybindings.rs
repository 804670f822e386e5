use ggg::app::keybindings::{
    KeyAction, KeyBindingSpec, KeyCode, KeyCombo, KeyModifiers, KeybindingResolver,
    KeybindingsConfig,
};

fn control() -> KeyModifiers {
    KeyModifiers { control: true, ..KeyModifiers::empty() }
}

#[test]
fn test_parse_single_char() {
    let combo = KeyCombo::parse("j").unwrap();
    assert_eq!(combo.code, KeyCode::Char('j'));
    assert!(combo.modifiers.is_empty());
}

#[test]
fn test_parse_uppercase_char() {
    let combo = KeyCombo::parse("G").unwrap();
    assert_eq!(combo.code, KeyCode::Char('G'));
    assert!(combo.modifiers.is_empty());
}

#[test]
fn test_parse_ctrl_key() {
    let combo = KeyCombo::parse("Ctrl+z").unwrap();
    assert_eq!(combo.code, KeyCode::Char('z'));
    assert!(combo.modifiers.control);
}

#[test]
fn test_parse_special_keys() {
    assert_eq!(KeyCombo::parse("Enter").unwrap().code, KeyCode::Enter);
    assert_eq!(KeyCombo::parse("Space").unwrap().code, KeyCode::Char(' '));
    assert_eq!(KeyCombo::parse("Tab").unwrap().code, KeyCode::Tab);
    assert_eq!(KeyCombo::parse("Escape").unwrap().code, KeyCode::Esc);
    assert_eq!(KeyCombo::parse("Up").unwrap().code, KeyCode::Up);
    assert_eq!(KeyCombo::parse("Down").unwrap().code, KeyCode::Down);
}

#[test]
fn test_default_keybindings() {
    let resolver = KeybindingResolver::default();

    assert_eq!(
        resolver.resolve(KeyCode::Char('j'), KeyModifiers::empty()),
        Some(KeyAction::MoveDown)
    );
    assert_eq!(
        resolver.resolve(KeyCode::Down, KeyModifiers::empty()),
        Some(KeyAction::MoveDown)
    );
    assert_eq!(
        resolver.resolve(KeyCode::Char('k'), KeyModifiers::empty()),
        Some(KeyAction::MoveUp)
    );
    assert_eq!(
        resolver.resolve(KeyCode::Char('a'), KeyModifiers::empty()),
        Some(KeyAction::AddDownload)
    );
    assert_eq!(
        resolver.resolve(KeyCode::Char(' '), KeyModifiers::empty()),
        Some(KeyAction::ToggleDownload)
    );
    assert_eq!(resolver.resolve(KeyCode::Char('z'), control()), Some(KeyAction::Undo));
}

#[test]
fn test_uppercase_normalization() {
    let resolver = KeybindingResolver::default();

    assert_eq!(
        resolver.resolve(KeyCode::Char('G'), KeyModifiers::empty()),
        Some(KeyAction::MoveToBottom)
    );
    assert_eq!(
        resolver.resolve(KeyCode::Char('S'), KeyModifiers::empty()),
        Some(KeyAction::ResumeAll)
    );
}

#[test]
fn shift_is_redundant_with_upper_case() {
    let resolver = KeybindingResolver::default();
    let shift = KeyModifiers { shift: true, ..KeyModifiers::empty() };
    assert_eq!(
        resolver.resolve(KeyCode::Char('G'), shift),
        resolver.resolve(KeyCode::Char('G'), KeyModifiers::empty())
    );
}

#[test]
fn the_last_binding_of_a_key_wins() {
    let mut config = KeybindingsConfig::default();
    config.bind(KeyAction::Undo, KeyBindingSpec::Single("ctrl+y".to_string()));
    let resolver = KeybindingResolver::from_config(&config);
    assert_eq!(resolver.resolve(KeyCode::Char('y'), control()), Some(KeyAction::Undo));
    assert_eq!(resolver.resolve(KeyCode::Char('z'), control()), None);
}

#[test]
fn what_is_no_key_is_not_parsed() {
    assert!(KeyCombo::parse("").is_none());
    assert!(KeyCombo::parse("Hyper+Ultra+x").is_none());
    assert!(KeyCombo::parse("nosuchkey").is_none());
}

#[test]
fn every_action_is_listed_once() {
    let all = KeyAction::all();
    assert_eq!(all.len(), 30);
    for i in 0..all.len() {
        for j in 0..i {
            assert_ne!(all[i], all[j]);
        }
    }
}

#[test]
fn actions_and_combinations_have_one_entry_each() {
    let mut config = KeybindingsConfig::default();
    let count = config.bindings.len();
    config.bind(KeyAction::Undo, KeyBindingSpec::Single("j".to_string()));
    assert_eq!(config.bindings.len(), count);
    let resolver = KeybindingResolver::from_config(&config);
    assert_eq!(
        resolver.resolve(KeyCode::Char('j'), KeyModifiers::empty()),
        Some(KeyAction::Undo)
    );
    for i in 0..resolver.entries.len() {
        for j in 0..i {
            assert_ne!(resolver.entries[i].0, resolver.entries[j].0);
        }
    }
}
