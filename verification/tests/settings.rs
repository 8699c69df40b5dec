use rxbms::settings::{
    adjust_int, cycle_enum, rebind_key, values_equal, SettingCategory, SettingDef, SettingValue, SettingsRegistry, SettingsStore,
};

#[test]
fn builtin_registry_and_store() {
    let registry = SettingsRegistry::builtin();
    assert_eq!(registry.defs.len(), 21);
    let store = SettingsStore::from_registry(&registry, None);
    assert_eq!(store.get_int("gauge_type", 9), 2);
    assert_eq!(store.get_keycode("key7_4", "?"), "Space");
    assert!(store.contains("volume"));
    assert!(!store.contains("no_such_setting"));
}

#[test]
fn saved_values_override_known_ids_only() {
    let registry = SettingsRegistry::builtin();
    let saved = vec![
        (String::from("gauge_type"), SettingValue::Int(4)),
        (String::from("bogus"), SettingValue::Int(1)),
    ];
    let store = SettingsStore::from_registry(&registry, Some(&saved));
    assert_eq!(store.get_int("gauge_type", 0), 4);
    assert!(!store.contains("bogus"));
    let all = store.all();
    assert_eq!(all.len(), 21);
}

#[test]
fn adjust_int_clamps_to_bounds() {
    let registry = SettingsRegistry {
        defs: vec![
            SettingDef::int_("cover", "Cover", SettingCategory::Display, 0, 10, 3, 5),
            SettingDef::text_("skin_path", "Skin", SettingCategory::Skin, "a"),
        ],
    };
    let mut store = SettingsStore::from_registry(&registry, None);
    adjust_int(&registry, &mut store, "cover", true);
    assert_eq!(store.get_int("cover", -1), 8);
    adjust_int(&registry, &mut store, "cover", true);
    assert_eq!(store.get_int("cover", -1), 10, "clamped to the maximum");
    for _ in 0..5 {
        adjust_int(&registry, &mut store, "cover", false);
    }
    assert_eq!(store.get_int("cover", -1), 0, "clamped to the minimum");
    // not an integer setting: left alone
    adjust_int(&registry, &mut store, "skin_path", true);
    assert_eq!(store.get_string("skin_path", ""), "a");
}

#[test]
fn cycle_enum_wraps_around() {
    let registry = SettingsRegistry::builtin();
    let mut store = SettingsStore::from_registry(&registry, None);
    let id = "judge_level";
    let def = registry.get(id).unwrap();
    let n = def.options.len();
    assert!(n > 1);
    let start = store.value(id).unwrap().clone();
    for _ in 0..n {
        cycle_enum(&registry, &mut store, id);
    }
    assert!(values_equal(store.value(id).unwrap(), &start), "n steps come back to the start");
    cycle_enum(&registry, &mut store, "no_such_setting");
    assert!(!store.contains("no_such_setting"));
}

#[test]
fn cycle_enum_steps_through_gauges() {
    let registry = SettingsRegistry::builtin();
    let mut store = SettingsStore::from_registry(&registry, None);
    assert_eq!(store.get_int("gauge_type", -1), 2);
    cycle_enum(&registry, &mut store, "gauge_type");
    assert_eq!(store.get_int("gauge_type", -1), 3);
    store.set("gauge_type", SettingValue::Int(8));
    cycle_enum(&registry, &mut store, "gauge_type");
    assert_eq!(store.get_int("gauge_type", -1), 0, "wraps after the last");
    store.set("gauge_type", SettingValue::Int(42));
    cycle_enum(&registry, &mut store, "gauge_type");
    assert_eq!(store.get_int("gauge_type", -1), 1, "an unknown value counts as the first option");
}

#[test]
fn rebind_takes_key_from_other_settings() {
    let registry = SettingsRegistry::builtin();
    let mut store = SettingsStore::from_registry(&registry, None);
    store.set("key7_2", SettingValue::KeyCode(String::from("KeyZ")));
    store.set("key5_3", SettingValue::KeyCode(String::from("KeyZ")));
    rebind_key(&registry, &mut store, "key7_1", "KeyZ");
    assert_eq!(store.get_keycode("key7_1", "?"), "KeyZ");
    // the settings that held the key are back on their defaults
    assert_eq!(store.get_keycode("key7_2", "?"), "KeyD");
    assert_eq!(store.get_keycode("key5_3", "?"), "KeyF");
    // others are untouched
    assert_eq!(store.get_keycode("key7_3", "?"), "KeyF");
    assert_eq!(store.get_int("gauge_type", 9), 2);
}

#[test]
fn rebind_same_key_keeps_setting() {
    let registry = SettingsRegistry::builtin();
    let mut store = SettingsStore::from_registry(&registry, None);
    rebind_key(&registry, &mut store, "key7_4", "Space");
    assert_eq!(store.get_keycode("key7_4", "?"), "Space");
    assert_eq!(store.get_keycode("key7_scratch", "?"), "KeyA");
}

#[test]
fn float_settings_compare_as_numbers() {
    let f = |x: f64| SettingValue::Float(x.to_bits());
    assert!(values_equal(&f(1.5), &f(1.5)));
    assert!(!values_equal(&f(1.5), &f(2.0)));
    assert!(values_equal(&f(0.0), &f(-0.0)));
    assert!(!values_equal(&f(f64::NAN), &f(f64::NAN)));
    assert!(!values_equal(&f(f64::NAN), &f(1.0)));
    assert!(values_equal(&f(f64::INFINITY), &f(f64::INFINITY)));
}
