use rxbms::keybind::{BindTarget, KeyBindings, KeyBindingsByMode, PlayMode};
use rxbms::settings::{SettingValue, SettingsRegistry, SettingsStore};

#[test]
fn from_store_respects_mode() {
    let registry = SettingsRegistry::builtin();
    let store = SettingsStore::from_registry(&registry, None);
    let five = KeyBindings::from_store(&store, PlayMode::FiveKey);
    let seven = KeyBindings::from_store(&store, PlayMode::SevenKey);
    // 5K: turntable + keys 1-5; 7K: turntable + keys 1-7
    assert!(five.get(BindTarget::Key(5)).is_some());
    assert!(five.get(BindTarget::Key(6)).is_none());
    assert!(five.get(BindTarget::Scratch).is_some());
    assert!(seven.get(BindTarget::Key(6)).is_some());
    assert!(seven.get(BindTarget::Key(7)).is_some());
}

fn bindings(pairs: &[(BindTarget, &str)]) -> KeyBindings {
    let mut b = KeyBindings::empty();
    for (t, k) in pairs {
        b.set(*t, k);
    }
    b
}

#[test]
fn default_bindings_complete() {
    let b = bindings(&[
        (BindTarget::Scratch, "KeyA"),
        (BindTarget::Key(1), "KeyS"),
        (BindTarget::Key(2), "KeyD"),
        (BindTarget::Key(3), "KeyF"),
        (BindTarget::Key(4), "Space"),
        (BindTarget::Key(5), "KeyJ"),
        (BindTarget::Key(6), "KeyK"),
        (BindTarget::Key(7), "KeyL"),
    ]);
    assert_eq!(b.entries().len(), 8);
    assert_eq!(b.target_for("KeyA"), Some(BindTarget::Scratch));
    assert_eq!(b.target_for("KeyS"), Some(BindTarget::Key(1)));
}

#[test]
fn set_removes_conflict() {
    let mut b = bindings(&[(BindTarget::Key(1), "KeyS"), (BindTarget::Key(7), "KeyL")]);
    b.set(BindTarget::Key(7), "KeyS");
    assert_eq!(b.get(BindTarget::Key(1)), None);
    assert_eq!(b.get(BindTarget::Key(7)), Some(String::from("KeyS")));
}

#[test]
fn default_layout_and_labels() {
    let map = KeyBindings::default_map();
    assert_eq!(map.len(), 8);
    assert!(map.contains(&(BindTarget::Scratch, String::from("KeyA"))));
    assert!(map.contains(&(BindTarget::Key(4), String::from("Space"))));
    assert_eq!(BindTarget::Scratch.setting_id(PlayMode::SevenKey), "key7_scratch");
    assert_eq!(BindTarget::Key(3).setting_id(PlayMode::FiveKey), "key5_3");
    assert_eq!(PlayMode::FiveKey.max_key(), 5);
    assert_eq!(PlayMode::SevenKey.label(), "7K");
}

#[test]
fn stored_key_overrides_default() {
    let registry = SettingsRegistry::builtin();
    let mut store = SettingsStore::from_registry(&registry, None);
    store.set("key7_1", SettingValue::KeyCode(String::from("KeyQ")));
    let all = KeyBindingsByMode::from_store(&store);
    assert_eq!(all.for_mode(PlayMode::SevenKey).get(BindTarget::Key(1)), Some(String::from("KeyQ")));
    assert_eq!(all.for_mode(PlayMode::SevenKey).target_for("KeyQ"), Some(BindTarget::Key(1)));
    assert_eq!(all.for_mode(PlayMode::FiveKey).get(BindTarget::Key(1)), Some(String::from("KeyS")));
}

#[test]
fn entries_are_sorted_and_unique() {
    let b = bindings(&[(BindTarget::Key(3), "KeyF"), (BindTarget::Scratch, "KeyA"), (BindTarget::Key(1), "KeyS")]);
    let e = b.entries();
    assert_eq!(
        e,
        vec![
            (BindTarget::Scratch, String::from("KeyA")),
            (BindTarget::Key(1), String::from("KeyS")),
            (BindTarget::Key(3), String::from("KeyF")),
        ]
    );
    assert_eq!(b.target_for("KeyZ"), None);
}
