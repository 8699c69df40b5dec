//! Unified settings: a registry of setting definitions and a value store.
//!
//! - [`SettingsRegistry`]: the table of built-in settings (id, name,
//!   category, kind, default, enum options);
//! - [`SettingsStore`]: the current values, built from the registry defaults
//!   overlaid with saved values of known ids.
//!
//! Floating-point settings are carried as the IEEE-754 bit pattern of their
//! `f64` value; the store never computes with them. Key bindings carry the
//! key's name (`"KeyA"`, `"Space"`, …).

use vstd::prelude::*;

use crate::keybind::{default_layout, mode_label, target_label, target_setting_id, BindTarget, KeyBindings, PlayMode};
use crate::text::str_eq;

verus! {

/// A setting value.
#[derive(Debug)]
pub enum SettingValue {
    Bool(bool),
    Int(i64),
    /// Bit pattern of an `f64` value.
    Float(u64),
    String(String),
    /// Name of a keyboard key.
    KeyCode(String),
}

impl Clone for SettingValue {
    fn clone(&self) -> (r: Self)
        ensures
            r == *self,
    {
        match self {
            SettingValue::Bool(b) => SettingValue::Bool(*b),
            SettingValue::Int(n) => SettingValue::Int(*n),
            SettingValue::Float(f) => SettingValue::Float(*f),
            SettingValue::String(s) => SettingValue::String(s.clone()),
            SettingValue::KeyCode(k) => SettingValue::KeyCode(k.clone()),
        }
    }
}

/// Settings categories (groups of the settings screen).
#[derive(Debug, Clone, Copy, PartialEq, Eq, Structural)]
pub enum SettingCategory {
    Gameplay,
    Display,
    Audio,
    Keys,
    Skin,
}

/// Display name of a category.
pub open spec fn category_label(c: SettingCategory) -> Seq<char> {
    match c {
        SettingCategory::Gameplay => "玩法"@,
        SettingCategory::Display => "显示"@,
        SettingCategory::Audio => "音频"@,
        SettingCategory::Keys => "键位"@,
        SettingCategory::Skin => "皮肤"@,
    }
}

impl SettingCategory {
    /// Display name.
    pub fn label(self) -> (s: &'static str)
        ensures
            s@ == category_label(self),
    {
        match self {
            SettingCategory::Gameplay => "玩法",
            SettingCategory::Display => "显示",
            SettingCategory::Audio => "音频",
            SettingCategory::Keys => "键位",
            SettingCategory::Skin => "皮肤",
        }
    }
}

/// Kind of control of a setting.
#[derive(Debug, Clone, Copy, PartialEq, Eq, Structural)]
pub enum SettingKind {
    /// On/off.
    Bool,
    /// Integer with bounds and step.
    Int { min: i64, max: i64, step: i64 },
    /// Number with bounds and step (bit patterns of `f64` values).
    Float { min: u64, max: u64, step: u64 },
    /// One of the listed options (cycled).
    Enum,
    /// Free text.
    Text,
    /// A keyboard key (rebound by pressing it).
    KeyCode,
}

/// A setting definition.
#[derive(Debug, Clone)]
pub struct SettingDef {
    /// Unique id (`"volume"`, `"key7_1"`, …).
    pub id: String,
    /// Display name.
    pub name: String,
    pub category: SettingCategory,
    pub kind: SettingKind,
    pub default: SettingValue,
    /// Enum options: (display name, value).
    pub options: Vec<(String, SettingValue)>,
}

impl SettingDef {
    /// A boolean setting.
    pub fn bool_(id: &str, name: &str, category: SettingCategory, default: bool) -> (d: Self)
        ensures
            d.id@ == id@,
            d.name@ == name@,
            d.category == category,
            d.kind == SettingKind::Bool,
            d.default == SettingValue::Bool(default),
            d.options@.len() == 0,
    {
        SettingDef {
            id: String::from_str(id),
            name: String::from_str(name),
            category,
            kind: SettingKind::Bool,
            default: SettingValue::Bool(default),
            options: Vec::new(),
        }
    }

    /// An integer setting.
    pub fn int_(id: &str, name: &str, category: SettingCategory, min: i64, max: i64, step: i64, default: i64) -> (d: Self)
        ensures
            d.id@ == id@,
            d.name@ == name@,
            d.category == category,
            d.kind == (SettingKind::Int { min, max, step }),
            d.default == SettingValue::Int(default),
            d.options@.len() == 0,
    {
        SettingDef {
            id: String::from_str(id),
            name: String::from_str(name),
            category,
            kind: SettingKind::Int { min, max, step },
            default: SettingValue::Int(default),
            options: Vec::new(),
        }
    }

    /// A floating-point setting (bounds, step and default as `f64` bit patterns).
    pub fn float_(id: &str, name: &str, category: SettingCategory, min: u64, max: u64, step: u64, default: u64) -> (d: Self)
        ensures
            d.id@ == id@,
            d.name@ == name@,
            d.category == category,
            d.kind == (SettingKind::Float { min, max, step }),
            d.default == SettingValue::Float(default),
            d.options@.len() == 0,
    {
        SettingDef {
            id: String::from_str(id),
            name: String::from_str(name),
            category,
            kind: SettingKind::Float { min, max, step },
            default: SettingValue::Float(default),
            options: Vec::new(),
        }
    }

    /// An enum setting.
    pub fn enum_(id: &str, name: &str, category: SettingCategory, options: Vec<(String, SettingValue)>, default: SettingValue) -> (d: Self)
        ensures
            d.id@ == id@,
            d.name@ == name@,
            d.category == category,
            d.kind == SettingKind::Enum,
            d.default == default,
            d.options == options,
    {
        SettingDef {
            id: String::from_str(id),
            name: String::from_str(name),
            category,
            kind: SettingKind::Enum,
            default,
            options,
        }
    }

    /// A text setting.
    pub fn text_(id: &str, name: &str, category: SettingCategory, default: &str) -> (d: Self)
        ensures
            d.id@ == id@,
            d.name@ == name@,
            d.category == category,
            d.kind == SettingKind::Text,
            d.default matches SettingValue::String(s) && s@ == default@,
            d.options@.len() == 0,
    {
        SettingDef {
            id: String::from_str(id),
            name: String::from_str(name),
            category,
            kind: SettingKind::Text,
            default: SettingValue::String(String::from_str(default)),
            options: Vec::new(),
        }
    }

    /// A key-binding setting (category `Keys`).
    pub fn keycode_(id: String, name: String, default: String) -> (d: Self)
        ensures
            d.id == id,
            d.name == name,
            d.category == SettingCategory::Keys,
            d.kind == SettingKind::KeyCode,
            d.default == SettingValue::KeyCode(default),
            d.options@.len() == 0,
    {
        SettingDef { id, name, category: SettingCategory::Keys, kind: SettingKind::KeyCode, default: SettingValue::KeyCode(default), options: Vec::new() }
    }
}

/// Index of the first element whose id is `id`, if any.
pub open spec fn first_def_index(defs: Seq<SettingDef>, id: Seq<char>) -> Option<int>
    decreases defs.len(),
{
    if defs.len() == 0 {
        None
    } else if defs[0].id@ == id {
        Some(0)
    } else {
        match first_def_index(defs.drop_first(), id) {
            Some(i) => Some(i + 1),
            None => None,
        }
    }
}

/// The registry of setting definitions.
pub struct SettingsRegistry {
    pub defs: Vec<SettingDef>,
}

impl SettingsRegistry {
    /// The definition with id `id` (the first one, if listed twice).
    pub fn get(&self, id: &str) -> (r: Option<&SettingDef>)
        ensures
            match first_def_index(self.defs@, id@) {
                Some(i) => r == Some(&self.defs@[i]),
                None => r is None,
            },
    {
        let mut i: usize = 0;
        proof {
            assert(self.defs@.skip(0) =~= self.defs@);
        }
        while i < self.defs.len()
            invariant
                0 <= i <= self.defs.len(),
                first_def_index(self.defs@, id@) == (match first_def_index(self.defs@.skip(i as int), id@) {
                    Some(j) => Some(j + i),
                    None => None::<int>,
                }),
            decreases self.defs.len() - i,
        {
            proof {
                assert(self.defs@.skip(i as int).drop_first() =~= self.defs@.skip(i + 1));
            }
            if str_eq(self.defs[i].id.as_str(), id) {
                return Some(&self.defs[i]);
            }
            i = i + 1;
        }
        None
    }
}

/// `d` is the key-binding setting of lane `t` in mode `m` with default key `key`.
pub open spec fn is_key_def(d: SettingDef, m: PlayMode, t: BindTarget, key: Seq<char>) -> bool {
    &&& d.id@ == target_setting_id(t, m)
    &&& d.name@ == mode_label(m) + " "@ + target_label(t)
    &&& d.category == SettingCategory::Keys
    &&& d.kind == SettingKind::KeyCode
    &&& d.default matches SettingValue::KeyCode(k) && k@ == key
}

/// Bit pattern of the `f64` value 1.0.
pub const F64_ONE: u64 = 0x3FF0_0000_0000_0000;
/// Bit pattern of the `f64` value 0.5.
pub const F64_HALF: u64 = 0x3FE0_0000_0000_0000;
/// Bit pattern of the `f64` value 3.0.
pub const F64_THREE: u64 = 0x4008_0000_0000_0000;
/// Bit pattern of the `f64` value 0.1.
pub const F64_TENTH: u64 = 0x3FB9_9999_9999_999A;
/// Bit pattern of the `f64` value 0.05.
pub const F64_TWENTIETH: u64 = 0x3FA9_9999_9999_999A;

impl SettingsRegistry {
    /// The built-in settings: judgement level, gauge type, fast/slow display,
    /// scroll speed, vsync, volume, skin path, then one key binding per lane
    /// of each mode (5K: scratch + keys 1-5; 7K: scratch + keys 1-7).
    pub fn builtin() -> (r: Self)
        ensures
            r.defs@.len() == 21,
            r.defs@[0].id@ == "judge_level"@ && r.defs@[0].kind == SettingKind::Enum
                && (r.defs@[0].default matches SettingValue::String(x) && x@ == "Normal"@)
                && r.defs@[0].options@.len() == 4,
            r.defs@[1].id@ == "gauge_type"@ && r.defs@[1].kind == SettingKind::Enum
                && (r.defs@[1].default matches SettingValue::Int(2))
                && r.defs@[1].options@.len() == 9
                && forall|j: int| 0 <= j < 9 ==> ((#[trigger] r.defs@[1].options@[j]).1 matches SettingValue::Int(n) && n == j),
            r.defs@[2].id@ == "show_fast_slow"@ && (r.defs@[2].default matches SettingValue::Bool(false)),
            r.defs@[3].id@ == "scroll_speed"@ && (r.defs@[3].default matches SettingValue::Float(F64_ONE))
                && r.defs@[3].kind == (SettingKind::Float { min: F64_HALF, max: F64_THREE, step: F64_TENTH }),
            r.defs@[4].id@ == "vsync"@ && (r.defs@[4].default matches SettingValue::Bool(true)),
            r.defs@[5].id@ == "volume"@ && (r.defs@[5].default matches SettingValue::Float(F64_ONE))
                && r.defs@[5].kind == (SettingKind::Float { min: 0, max: F64_ONE, step: F64_TWENTIETH }),
            r.defs@[6].id@ == "skin_path"@ && (r.defs@[6].default matches SettingValue::String(x) && x@ == "test_skin/Play"@),
            forall|j: int| 0 <= j < 6 ==> is_key_def(#[trigger] r.defs@[7 + j], PlayMode::FiveKey, default_layout()[j].0, default_layout()[j].1),
            forall|j: int| 0 <= j < 8 ==> is_key_def(#[trigger] r.defs@[13 + j], PlayMode::SevenKey, default_layout()[j].0, default_layout()[j].1),
    {
        let mut judge_opts: Vec<(String, SettingValue)> = Vec::new();
        judge_opts.push((String::from_str("VeryHard"), SettingValue::String(String::from_str("VeryHard"))));
        judge_opts.push((String::from_str("Hard"), SettingValue::String(String::from_str("Hard"))));
        judge_opts.push((String::from_str("Normal"), SettingValue::String(String::from_str("Normal"))));
        judge_opts.push((String::from_str("Easy"), SettingValue::String(String::from_str("Easy"))));
        let mut gauge_opts: Vec<(String, SettingValue)> = Vec::new();
        gauge_opts.push((String::from_str("Assist Easy"), SettingValue::Int(0)));
        gauge_opts.push((String::from_str("Easy"), SettingValue::Int(1)));
        gauge_opts.push((String::from_str("Normal"), SettingValue::Int(2)));
        gauge_opts.push((String::from_str("Hard"), SettingValue::Int(3)));
        gauge_opts.push((String::from_str("ExHard"), SettingValue::Int(4)));
        gauge_opts.push((String::from_str("Hazard"), SettingValue::Int(5)));
        gauge_opts.push((String::from_str("Class"), SettingValue::Int(6)));
        gauge_opts.push((String::from_str("ExClass"), SettingValue::Int(7)));
        gauge_opts.push((String::from_str("ExHardClass"), SettingValue::Int(8)));
        let mut defs: Vec<SettingDef> = Vec::new();
        defs.push(SettingDef::enum_("judge_level", "判定难度", SettingCategory::Gameplay, judge_opts, SettingValue::String(String::from_str("Normal"))));
        defs.push(SettingDef::enum_("gauge_type", "血条类型", SettingCategory::Gameplay, gauge_opts, SettingValue::Int(2)));
        defs.push(SettingDef::bool_("show_fast_slow", "Fast/Slow 显示", SettingCategory::Display, false));
        defs.push(SettingDef::float_("scroll_speed", "下落速度", SettingCategory::Display, F64_HALF, F64_THREE, F64_TENTH, F64_ONE));
        defs.push(SettingDef::bool_("vsync", "垂直同步 (vsync)", SettingCategory::Display, true));
        defs.push(SettingDef::float_("volume", "全局音量", SettingCategory::Audio, 0, F64_ONE, F64_TWENTIETH, F64_ONE));
        defs.push(SettingDef::text_("skin_path", "皮肤路径", SettingCategory::Skin, "test_skin/Play"));
        let ghost head = defs@;
        proof {
            assert(head[0].id@ == "judge_level"@ && head[0].kind == SettingKind::Enum
                && (head[0].default matches SettingValue::String(x) && x@ == "Normal"@)
                && head[0].options@.len() == 4);
            assert(head[2].id@ == "show_fast_slow"@ && (head[2].default matches SettingValue::Bool(false)));
            assert(head[3].id@ == "scroll_speed"@ && (head[3].default matches SettingValue::Float(F64_ONE))
                && head[3].kind == (SettingKind::Float { min: F64_HALF, max: F64_THREE, step: F64_TENTH }));
            assert(head[4].id@ == "vsync"@ && (head[4].default matches SettingValue::Bool(true)));
            assert(head[5].id@ == "volume"@ && (head[5].default matches SettingValue::Float(F64_ONE))
                && head[5].kind == (SettingKind::Float { min: 0, max: F64_ONE, step: F64_TWENTIETH }));
            assert(head[6].id@ == "skin_path"@ && (head[6].default matches SettingValue::String(x) && x@ == "test_skin/Play"@));
            assert(head[1].options@[0].1 matches SettingValue::Int(n) && n == 0);
            assert(head[1].options@[1].1 matches SettingValue::Int(n) && n == 1);
            assert(head[1].options@[2].1 matches SettingValue::Int(n) && n == 2);
            assert(head[1].options@[3].1 matches SettingValue::Int(n) && n == 3);
            assert(head[1].options@[4].1 matches SettingValue::Int(n) && n == 4);
            assert(head[1].options@[5].1 matches SettingValue::Int(n) && n == 5);
            assert(head[1].options@[6].1 matches SettingValue::Int(n) && n == 6);
            assert(head[1].options@[7].1 matches SettingValue::Int(n) && n == 7);
            assert(head[1].options@[8].1 matches SettingValue::Int(n) && n == 8);
        }
        let layout = KeyBindings::default_map();
        proof {
            assert(crate::keybind::pairs_view(layout@).len() == layout@.len());
        }
        let mut m: usize = 0;
        while m < 2
            invariant
                0 <= m <= 2,
                defs@.len() == 7 + (if m >= 1 { 6int } else { 0 }) + (if m >= 2 { 8int } else { 0 }),
                defs@.subrange(0, 7) == head,
                crate::keybind::pairs_view(layout@) == default_layout(),
                layout@.len() == 8,
                m >= 1 ==> forall|j: int| 0 <= j < 6 ==> is_key_def(#[trigger] defs@[7 + j], PlayMode::FiveKey, default_layout()[j].0, default_layout()[j].1),
                m >= 2 ==> forall|j: int| 0 <= j < 8 ==> is_key_def(#[trigger] defs@[13 + j], PlayMode::SevenKey, default_layout()[j].0, default_layout()[j].1),
            decreases 2 - m,
        {
            let mode = if m == 0 {
                PlayMode::FiveKey
            } else {
                PlayMode::SevenKey
            };
            let max = mode.max_key();
            let base = defs.len();
            let ghost before = defs@;
            let mut j: usize = 0;
            while j < layout.len()
                invariant
                    0 <= j <= layout.len(),
                    layout@.len() == 8,
                    crate::keybind::pairs_view(layout@) == default_layout(),
                    max == crate::keybind::mode_max_key(mode),
                    base == before.len(),
                    defs@.len() == base + (if j <= max as int + 1 { j as int } else { max as int + 1 }),
                    defs@.subrange(0, base as int) == before,
                    forall|q: int| 0 <= q < defs@.len() - base ==> is_key_def(#[trigger] defs@[base + q], mode, default_layout()[q].0, default_layout()[q].1),
                decreases layout.len() - j,
            {
                let (target, default) = &layout[j];
                proof {
                    assert(crate::keybind::pairs_view(layout@)[j as int] == (layout@[j as int].0, layout@[j as int].1@));
                    reveal_strlit("KeyA");
                }
                let in_range = match target {
                    BindTarget::Scratch => true,
                    BindTarget::Key(n) => *n <= max,
                };
                if in_range {
                    let mut name = String::from_str(mode.label());
                    name.append(" ");
                    name.append(target.label());
                    let def = SettingDef::keycode_(target.setting_id(mode), name, default.clone());
                    let ghost pre = defs@;
                    defs.push(def);
                    proof {
                        assert(j as int == defs@.len() - 1 - base) by {
                            assert(default_layout()[j as int].0 == *target);
                        }
                        assert forall|q: int| 0 <= q < defs@.len() - base implies is_key_def(#[trigger] defs@[base + q], mode, default_layout()[q].0, default_layout()[q].1) by {
                            if q < pre.len() - base {
                                assert(defs@[base + q] == pre[base + q]);
                            }
                        }
                        assert(defs@.subrange(0, base as int) =~= before);
                    }
                }
                j = j + 1;
            }
            proof {
                assert(defs@.subrange(0, 7) =~= before.subrange(0, 7));
                assert forall|q: int| 0 <= q < before.len() implies defs@[q] == before[q] by {
                    assert(defs@.subrange(0, base as int)[q] == defs@[q]);
                }
                if m == 0 {
                    assert forall|j: int| 0 <= j < 6 implies is_key_def(#[trigger] defs@[7 + j], PlayMode::FiveKey, default_layout()[j].0, default_layout()[j].1) by {
                        assert(is_key_def(defs@[base + j], mode, default_layout()[j].0, default_layout()[j].1));
                    }
                } else {
                    assert forall|j: int| 0 <= j < 6 implies is_key_def(#[trigger] defs@[7 + j], PlayMode::FiveKey, default_layout()[j].0, default_layout()[j].1) by {
                        assert(defs@[7 + j] == before[7 + j]);
                    }
                    assert forall|j: int| 0 <= j < 8 implies is_key_def(#[trigger] defs@[13 + j], PlayMode::SevenKey, default_layout()[j].0, default_layout()[j].1) by {
                        assert(is_key_def(defs@[base + j], mode, default_layout()[j].0, default_layout()[j].1));
                    }
                }
            }
            m = m + 1;
        }
        proof {
            assert forall|q: int| 0 <= q < 7 implies defs@[q] == head[q] by {
                assert(defs@.subrange(0, 7)[q] == defs@[q]);
            }
            assert(defs@[0] == head[0]);
            assert(defs@[2] == head[2]);
            assert(defs@[3] == head[3]);
            assert(defs@[4] == head[4]);
            assert(defs@[5] == head[5]);
            assert(defs@[6] == head[6]);
            assert forall|j: int| 0 <= j < 9 implies ((#[trigger] defs@[1].options@[j]).1 matches SettingValue::Int(n) && n == j) by {
                assert(defs@[1] == head[1]);
            }
        }
        SettingsRegistry { defs }
    }
}

/// The value stored under key `id` by the last pair with that key, if any.
pub open spec fn last_value(pairs: Seq<(String, SettingValue)>, id: Seq<char>) -> Option<SettingValue>
    decreases pairs.len(),
{
    if pairs.len() == 0 {
        None
    } else if pairs.last().0@ == id {
        Some(pairs.last().1)
    } else {
        last_value(pairs.drop_last(), id)
    }
}

/// The default of the last definition with id `id`, if any.
pub open spec fn last_default(defs: Seq<SettingDef>, id: Seq<char>) -> Option<SettingValue>
    decreases defs.len(),
{
    if defs.len() == 0 {
        None
    } else if defs.last().id@ == id {
        Some(defs.last().default)
    } else {
        last_default(defs.drop_last(), id)
    }
}

/// The value a store built from `defs` and `saved` holds under `id`: a saved
/// value for a known id wins over the default; unknown ids hold nothing.
pub open spec fn initial_value(defs: Seq<SettingDef>, saved: Option<Seq<(String, SettingValue)>>, id: Seq<char>) -> Option<SettingValue> {
    match last_default(defs, id) {
        None => None,
        Some(d) => match saved {
            Some(s) => match last_value(s, id) {
                Some(v) => Some(v),
                None => Some(d),
            },
            None => Some(d),
        },
    }
}

/// Current setting values.
#[derive(Debug, Clone)]
pub struct SettingsStore {
    values: Vec<(String, SettingValue)>,
}

impl SettingsStore {
    /// The value stored under each key (keys by their text).
    pub closed spec fn value_of(&self, id: Seq<char>) -> Option<SettingValue> {
        last_value(self.values@, id)
    }

    /// An empty store.
    pub fn new() -> (s: Self)
        ensures
            forall|id: Seq<char>| s.value_of(id) is None,
    {
        SettingsStore { values: Vec::new() }
    }

    /// Builds a store from the registry's defaults, then overlays the saved
    /// values whose ids the registry knows (unknown saved ids are dropped).
    pub fn from_registry(registry: &SettingsRegistry, saved: Option<&Vec<(String, SettingValue)>>) -> (s: Self)
        ensures
            forall|id: Seq<char>| #[trigger] s.value_of(id) == initial_value(
                registry.defs@,
                match saved {
                    Some(v) => Some(v@),
                    None => None,
                },
                id,
            ),
    {
        let mut store = SettingsStore::new();
        let mut i: usize = 0;
        while i < registry.defs.len()
            invariant
                0 <= i <= registry.defs.len(),
                forall|id: Seq<char>| #[trigger] store.value_of(id) == last_default(registry.defs@.take(i as int), id),
            decreases registry.defs.len() - i,
        {
            proof {
                assert(registry.defs@.take(i + 1).drop_last() =~= registry.defs@.take(i as int));
            }
            let def = &registry.defs[i];
            store.set(def.id.as_str(), def.default.clone());
            proof {
                assert(registry.defs@.take(i + 1).last() == registry.defs@[i as int]);
            }
            i = i + 1;
        }
        proof {
            assert(registry.defs@.take(registry.defs@.len() as int) =~= registry.defs@);
        }
        let ghost defaults = store;
        match saved {
            Some(saved) => {
                let mut j: usize = 0;
                while j < saved.len()
                    invariant
                        0 <= j <= saved.len(),
                        forall|id: Seq<char>| #[trigger] store.value_of(id) == match defaults.value_of(id) {
                            None => None,
                            Some(d) => match last_value(saved@.take(j as int), id) {
                                Some(v) => Some(v),
                                None => Some(d),
                            },
                        },
                    decreases saved.len() - j,
                {
                    proof {
                        assert(saved@.take(j + 1).drop_last() =~= saved@.take(j as int));
                    }
                    let (k, v) = &saved[j];
                    if store.contains(k.as_str()) {
                        store.set(k.as_str(), v.clone());
                    }
                    j = j + 1;
                }
                proof {
                    assert(saved@.take(saved@.len() as int) =~= saved@);
                }
            },
            None => {},
        }
        store
    }

    /// Whether a value is stored under `id`.
    pub fn contains(&self, id: &str) -> (b: bool)
        ensures
            b == self.value_of(id@) is Some,
    {
        self.value(id).is_some()
    }

    /// The value stored under `id`.
    pub fn value(&self, id: &str) -> (r: Option<&SettingValue>)
        ensures
            match self.value_of(id@) {
                Some(v) => r == Some(&v),
                None => r is None,
            },
    {
        let mut i = self.values.len();
        proof {
            assert(self.values@.take(i as int) =~= self.values@);
        }
        while i > 0
            invariant
                0 <= i <= self.values.len(),
                last_value(self.values@, id@) == last_value(self.values@.take(i as int), id@),
            decreases i,
        {
            proof {
                assert(self.values@.take(i as int).drop_last() =~= self.values@.take(i - 1));
            }
            if str_eq(self.values[i - 1].0.as_str(), id) {
                return Some(&self.values[i - 1].1);
            }
            i = i - 1;
        }
        None
    }

    /// Stores `value` under `id`.
    pub fn set(&mut self, id: &str, value: SettingValue)
        ensures
            final(self).value_of(id@) == Some(value),
            forall|other: Seq<char>| other != id@ ==> #[trigger] final(self).value_of(other) == old(self).value_of(other),
    {
        // the last pair under `id` is the one that counts: replace it
        let mut i: usize = self.values.len();
        let mut found = false;
        while i > 0 && !found
            invariant
                0 <= i <= self.values@.len(),
                self.values@ == old(self).values@,
                !found ==> forall|a: int| i <= a < self.values@.len() ==> self.values@[a].0@ != id@,
                found ==> i < self.values@.len() && self.values@[i as int].0@ == id@ && forall|a: int|
                    i < a < self.values@.len() ==> self.values@[a].0@ != id@,
            decreases i,
        {
            if str_eq(self.values[i - 1].0.as_str(), id) {
                found = true;
            }
            i = i - 1;
        }
        let at: Option<usize> = if found { Some(i) } else { None };
        match at {
            Some(j) => {
                let ghost before = self.values@;
                let p = (String::from_str(id), value);
                proof {
                    lemma_replace_last(before, j as int, p, id@);
                }
                self.values.set(j, p);
            },
            None => {
                self.values.push((String::from_str(id), value));
                proof {
                    assert(self.values@.drop_last() =~= old(self).values@);
                }
            },
        }
    }

    /// The boolean under `id`, or `default` when it holds no boolean.
    pub fn get_bool(&self, id: &str, default: bool) -> (b: bool)
        ensures
            b == match self.value_of(id@) {
                Some(SettingValue::Bool(x)) => x,
                _ => default,
            },
    {
        match self.value(id) {
            Some(SettingValue::Bool(b)) => *b,
            _ => default,
        }
    }

    /// The integer under `id`, or `default` when it holds no integer.
    pub fn get_int(&self, id: &str, default: i64) -> (n: i64)
        ensures
            n == match self.value_of(id@) {
                Some(SettingValue::Int(x)) => x,
                _ => default,
            },
    {
        match self.value(id) {
            Some(SettingValue::Int(n)) => *n,
            _ => default,
        }
    }

    /// The `f64` bit pattern under `id`, or `default` when it holds no number.
    pub fn get_float_bits(&self, id: &str, default: u64) -> (f: u64)
        ensures
            f == match self.value_of(id@) {
                Some(SettingValue::Float(x)) => x,
                _ => default,
            },
    {
        match self.value(id) {
            Some(SettingValue::Float(f)) => *f,
            _ => default,
        }
    }

    /// The text under `id`, or `default` when it holds no text.
    pub fn get_string(&self, id: &str, default: &str) -> (s: String)
        ensures
            s@ == match self.value_of(id@) {
                Some(SettingValue::String(x)) => x@,
                _ => default@,
            },
    {
        match self.value(id) {
            Some(SettingValue::String(s)) => s.clone(),
            _ => String::from_str(default),
        }
    }

    /// The key name under `id`, or `default` when it holds no key.
    pub fn get_keycode(&self, id: &str, default: &str) -> (s: String)
        ensures
            s@ == match self.value_of(id@) {
                Some(SettingValue::KeyCode(x)) => x@,
                _ => default@,
            },
    {
        match self.value(id) {
            Some(SettingValue::KeyCode(k)) => k.clone(),
            _ => String::from_str(default),
        }
    }

    /// Every stored (id, value) pair, one per id, for saving.
    pub fn all(&self) -> (r: Vec<(String, SettingValue)>)
        ensures
            forall|id: Seq<char>| #[trigger] last_value(r@, id) == self.value_of(id),
            forall|a: int, b: int| 0 <= a < b < r@.len() ==> r@[a].0@ != r@[b].0@,
    {
        let mut out: Vec<(String, SettingValue)> = Vec::new();
        let mut i = self.values.len();
        while i > 0
            invariant
                0 <= i <= self.values.len(),
                forall|a: int, b: int| 0 <= a < b < out@.len() ==> out@[a].0@ != out@[b].0@,
                forall|id: Seq<char>| #[trigger] last_value(out@, id) == (if last_value(self.values@.skip(i as int), id) is Some {
                    last_value(self.values@, id)
                } else {
                    None
                }),
            decreases i,
        {
            let (k, v) = &self.values[i - 1];
            // keep only the latest pair of each key
            let mut seen = false;
            let mut j: usize = 0;
            while j < out.len()
                invariant
                    0 <= j <= out.len(),
                    seen <==> exists|a: int| 0 <= a < j && out@[a].0@ == k@,
                decreases out.len() - j,
            {
                if str_eq(out[j].0.as_str(), k.as_str()) {
                    seen = true;
                }
                j = j + 1;
            }
            proof {
                let vs = self.values@;
                assert(vs.skip(i - 1) =~= seq![vs[i - 1]] + vs.skip(i as int));
                assert(vs =~= vs.take(i - 1).push(vs[i - 1]) + vs.skip(i as int));
                assert forall|id: Seq<char>| #[trigger] last_value(vs.skip(i - 1), id) == (if last_value(vs.skip(i as int), id) is Some {
                    last_value(vs.skip(i as int), id)
                } else if vs[i - 1].0@ == id {
                    Some(vs[i - 1].1)
                } else {
                    None
                }) by {
                    let single = seq![vs[i - 1]];
                    lemma_last_value_append(single, vs.skip(i as int), id);
                    assert(single.drop_last() =~= Seq::<(String, SettingValue)>::empty());
                    assert(single.last() == vs[i - 1]);
                    assert(last_value(single.drop_last(), id) is None);
                }
                assert forall|id: Seq<char>| last_value(vs.skip(i as int), id) is None implies #[trigger] last_value(vs, id) == last_value(vs.take(i - 1).push(vs[i - 1]), id) by {
                    lemma_last_value_append(vs.take(i - 1).push(vs[i - 1]), vs.skip(i as int), id);
                }
                assert(vs.take(i - 1).push(vs[i - 1]).drop_last() =~= vs.take(i - 1));
                lemma_last_value_some(out@, k@);
            }
            let ghost out_before = out@;
            if !seen {
                out.push((k.clone(), v.clone()));
                proof {
                    assert(out@.drop_last() =~= out_before);
                    assert forall|a: int, b: int| 0 <= a < b < out@.len() implies out@[a].0@ != out@[b].0@ by {
                        if b == out@.len() - 1 {
                            assert(out@[a] == out_before[a]);
                        }
                    }
                }
            }
            proof {
                let vs = self.values@;
                assert forall|id: Seq<char>| #[trigger] last_value(out@, id) == (if last_value(vs.skip(i - 1), id) is Some {
                    last_value(vs, id)
                } else {
                    None
                }) by {
                    lemma_last_value_append(vs.take(i as int), vs.skip(i as int), id);
                    assert(vs =~= vs.take(i as int) + vs.skip(i as int));
                    assert(vs.take(i as int) =~= vs.take(i - 1).push(vs[i - 1]));
                    if id == k@ {
                        if seen {
                            assert(out@ == out_before);
                        } else {
                            assert(out@.drop_last() =~= out_before);
                            assert(last_value(vs.skip(i as int), id) is None);
                        }
                    } else {
                        if !seen {
                            assert(out@.drop_last() =~= out_before);
                        }
                    }
                }
            }
            i = i - 1;
        }
        proof {
            assert(self.values@.skip(0) =~= self.values@);
        }
        out
    }
}


/// Looking a key up in `a + b` finds it in `b` first.
proof fn lemma_last_value_append(a: Seq<(String, SettingValue)>, b: Seq<(String, SettingValue)>, id: Seq<char>)
    ensures
        last_value(a + b, id) == (if last_value(b, id) is Some {
            last_value(b, id)
        } else {
            last_value(a, id)
        }),
    decreases b.len(),
{
    if b.len() > 0 {
        assert((a + b).drop_last() =~= a + b.drop_last());
        lemma_last_value_append(a, b.drop_last(), id);
    } else {
        assert(a + b =~= a);
    }
}

/// Replacing the last pair under `id` by another pair under `id` gives `id`
/// the new value and leaves every other key alone.
proof fn lemma_replace_last(s: Seq<(String, SettingValue)>, j: int, p: (String, SettingValue), id: Seq<char>)
    requires
        0 <= j < s.len(),
        s[j].0@ == id,
        p.0@ == id,
        forall|a: int| j < a < s.len() ==> s[a].0@ != id,
    ensures
        last_value(s.update(j, p), id) == Some(p.1),
        forall|o: Seq<char>| o != id ==> #[trigger] last_value(s.update(j, p), o) == last_value(s, o),
    decreases s.len(),
{
    let u = s.update(j, p);
    if j < s.len() - 1 {
        assert(u.drop_last() =~= s.drop_last().update(j, p));
        lemma_replace_last(s.drop_last(), j, p, id);
        assert(u.last() == s.last());
        assert forall|o: Seq<char>| o != id implies #[trigger] last_value(u, o) == last_value(s, o) by {
            assert(last_value(u.drop_last(), o) == last_value(s.drop_last(), o));
        }
    } else {
        assert(u.drop_last() =~= s.drop_last());
        assert(u.last() == p);
        assert(s.last() == s[j]);
        assert forall|o: Seq<char>| o != id implies #[trigger] last_value(u, o) == last_value(s, o) by {
            assert(u.last().0@ != o);
            assert(s.last().0@ != o);
        }
    }
}

/// A key has a value exactly when some pair carries it.
proof fn lemma_last_value_some(s: Seq<(String, SettingValue)>, id: Seq<char>)
    ensures
        last_value(s, id) is Some <==> exists|a: int| 0 <= a < s.len() && s[a].0@ == id,
    decreases s.len(),
{
    if s.len() > 0 {
        lemma_last_value_some(s.drop_last(), id);
        if exists|a: int| 0 <= a < s.len() && s[a].0@ == id {
            let a = choose|a: int| 0 <= a < s.len() && s[a].0@ == id;
            if a < s.len() - 1 {
                assert(s.drop_last()[a] == s[a]);
            }
        }
        if exists|a: int| 0 <= a < s.drop_last().len() && s.drop_last()[a].0@ == id {
            let a = choose|a: int| 0 <= a < s.drop_last().len() && s.drop_last()[a].0@ == id;
            assert(s[a] == s.drop_last()[a]);
        }
    }
}

/// Whether the bit pattern `x` is an IEEE-754 double NaN (all exponent bits
/// set, a nonzero fraction).
pub open spec fn is_nan_bits(x: u64) -> bool {
    (x & 0x7ff0_0000_0000_0000) == 0x7ff0_0000_0000_0000 && (x & 0x000f_ffff_ffff_ffff) != 0
}

/// IEEE-754 equality of two doubles given by their bit patterns: no NaN
/// equals anything, +0 equals -0, other values are equal when their bits are.
pub open spec fn float_bits_equal(x: u64, y: u64) -> bool {
    !is_nan_bits(x) && !is_nan_bits(y) && (x == y || ((x & 0x7fff_ffff_ffff_ffff) == 0 && (y
        & 0x7fff_ffff_ffff_ffff) == 0))
}

fn float_bits_eq(x: u64, y: u64) -> (r: bool)
    ensures
        r == float_bits_equal(x, y),
{
    let nan_x = (x & 0x7ff0_0000_0000_0000) == 0x7ff0_0000_0000_0000 && (x & 0x000f_ffff_ffff_ffff) != 0;
    let nan_y = (y & 0x7ff0_0000_0000_0000) == 0x7ff0_0000_0000_0000 && (y & 0x000f_ffff_ffff_ffff) != 0;
    !nan_x && !nan_y && (x == y || ((x & 0x7fff_ffff_ffff_ffff) == 0 && (y & 0x7fff_ffff_ffff_ffff) == 0))
}

/// Two setting values are the same (numbers by IEEE equality, texts by
/// their characters).
pub open spec fn same_value(a: SettingValue, b: SettingValue) -> bool {
    match (a, b) {
        (SettingValue::Bool(x), SettingValue::Bool(y)) => x == y,
        (SettingValue::Int(x), SettingValue::Int(y)) => x == y,
        (SettingValue::Float(x), SettingValue::Float(y)) => float_bits_equal(x, y),
        (SettingValue::String(x), SettingValue::String(y)) => x@ == y@,
        (SettingValue::KeyCode(x), SettingValue::KeyCode(y)) => x@ == y@,
        _ => false,
    }
}

/// Whether two setting values are the same (see [`same_value`]).
pub fn values_equal(a: &SettingValue, b: &SettingValue) -> (r: bool)
    ensures
        r == same_value(*a, *b),
{
    match (a, b) {
        (SettingValue::Bool(x), SettingValue::Bool(y)) => *x == *y,
        (SettingValue::Int(x), SettingValue::Int(y)) => *x == *y,
        (SettingValue::Float(x), SettingValue::Float(y)) => float_bits_eq(*x, *y),
        (SettingValue::String(x), SettingValue::String(y)) => str_eq(x.as_str(), y.as_str()),
        (SettingValue::KeyCode(x), SettingValue::KeyCode(y)) => str_eq(x.as_str(), y.as_str()),
        _ => false,
    }
}

/// The integer `cur` moved one step up (`inc`) or down, kept in `min..=max`.
pub open spec fn stepped(cur: int, step: int, inc: bool, min: int, max: int) -> int {
    let n = if inc { cur + step } else { cur - step };
    if n < min {
        min
    } else if n > max {
        max
    } else {
        n
    }
}

/// The integer a store holds under `id` (0 when none).
pub open spec fn int_value(store: SettingsStore, id: Seq<char>) -> int {
    match store.value_of(id) {
        Some(SettingValue::Int(x)) => x as int,
        _ => 0,
    }
}

/// Steps the integer setting `id` up or down by its step, within its
/// bounds. Settings that are not integers (or unknown) are left alone.
pub fn adjust_int(registry: &SettingsRegistry, store: &mut SettingsStore, id: &str, inc: bool)
    requires
        match first_def_index(registry.defs@, id@) {
            Some(i) => match registry.defs@[i].kind {
                SettingKind::Int { min, max, step } => min <= max,
                _ => true,
            },
            None => true,
        },
    ensures
        match first_def_index(registry.defs@, id@) {
            Some(i) => match registry.defs@[i].kind {
                SettingKind::Int { min, max, step } => {
                    &&& final(store).value_of(id@) == Some(SettingValue::Int(stepped(int_value(*old(store), id@), step as int, inc, min as int, max as int) as i64))
                    &&& forall|o: Seq<char>| o != id@ ==> #[trigger] final(store).value_of(o) == old(store).value_of(o)
                },
                _ => *final(store) == *old(store),
            },
            None => *final(store) == *old(store),
        },
{
    match registry.get(id) {
        Some(def) => match def.kind {
            SettingKind::Int { min, max, step } => {
                let cur = store.get_int(id, 0);
                let n: i128 = if inc {
                    (cur as i128) + (step as i128)
                } else {
                    (cur as i128) - (step as i128)
                };
                let next: i64 = if n < (min as i128) {
                    min
                } else if n > (max as i128) {
                    max
                } else {
                    n as i64
                };
                store.set(id, SettingValue::Int(next));
            },
            _ => {},
        },
        None => {},
    }
}

/// Index of the first option of `opts` equal to `v`, if any.
pub open spec fn option_index(opts: Seq<(String, SettingValue)>, v: SettingValue) -> Option<int> {
    if exists|i: int| 0 <= i < opts.len() && same_value(#[trigger] opts[i].1, v) {
        Some(choose|i: int|
            0 <= i < opts.len() && same_value(#[trigger] opts[i].1, v) && forall|j: int|
                0 <= j < i ==> !same_value(#[trigger] opts[j].1, v))
    } else {
        None
    }
}

/// Moves the enum setting `id` to the option after its current one (the
/// first option when the current value is not among them; wrapping after
/// the last). Unknown settings and settings without options are left alone.
pub fn cycle_enum(registry: &SettingsRegistry, store: &mut SettingsStore, id: &str)
    ensures
        match first_def_index(registry.defs@, id@) {
            Some(i) => {
                let opts = registry.defs@[i].options@;
                if opts.len() == 0 {
                    *final(store) == *old(store)
                } else {
                    let cur = match old(store).value_of(id@) {
                        Some(v) => match option_index(opts, v) {
                            Some(k) => k,
                            None => 0,
                        },
                        None => 0,
                    };
                    &&& final(store).value_of(id@) == Some(opts[(cur + 1) % (opts.len() as int)].1)
                    &&& forall|o: Seq<char>| o != id@ ==> #[trigger] final(store).value_of(o) == old(store).value_of(o)
                }
            },
            None => *final(store) == *old(store),
        },
{
    let def = match registry.get(id) {
        Some(d) => d,
        None => return,
    };
    if def.options.len() == 0 {
        return;
    }
    let cur_idx: usize = match store.value(id) {
        Some(v) => {
            let mut k: usize = 0;
            while k < def.options.len() && !values_equal(&def.options[k].1, v)
                invariant
                    0 <= k <= def.options@.len(),
                    forall|j: int| 0 <= j < k ==> !same_value(#[trigger] def.options@[j].1, *v),
                decreases def.options.len() - k,
            {
                k = k + 1;
            }
            if k < def.options.len() {
                proof {
                    let c = choose|i: int|
                        0 <= i < def.options@.len() && same_value(#[trigger] def.options@[i].1, *v) && forall|j: int|
                            0 <= j < i ==> !same_value(#[trigger] def.options@[j].1, *v);
                    assert(same_value(def.options@[k as int].1, *v));
                    if c < k {
                        assert(!same_value(def.options@[c].1, *v));
                    } else if c > k {
                        assert(!same_value(def.options@[k as int].1, *v));
                    }
                }
                k
            } else {
                0
            }
        },
        None => 0,
    };
    let next = (cur_idx + 1) % def.options.len();
    let value = def.options[next].1.clone();
    store.set(id, value);
}


/// The key name of a stored value ("Space" when it holds no key).
pub open spec fn key_of(v: Option<SettingValue>) -> Seq<char> {
    match v {
        Some(SettingValue::KeyCode(k)) => k@,
        _ => "Space"@,
    }
}

/// The value of setting `o` after the key settings of `defs`, in order,
/// gave up the key `key` to setting `id`: a key setting other than `id`
/// that holds `key` goes back to its default. `v` is its value before.
pub open spec fn after_key_resets(defs: Seq<SettingDef>, o: Seq<char>, id: Seq<char>, key: Seq<char>, v: Option<SettingValue>) -> Option<SettingValue>
    decreases defs.len(),
{
    if defs.len() == 0 {
        v
    } else {
        let prev = after_key_resets(defs.drop_last(), o, id, key, v);
        let d = defs.last();
        if d.kind == SettingKind::KeyCode && d.id@ != id && d.id@ == o && key_of(prev) == key {
            Some(d.default)
        } else {
            prev
        }
    }
}

/// Binds key `key` to the key setting `id`: every other key setting that
/// holds the same key goes back to its default first (in registry order),
/// then `id` takes the key.
pub fn rebind_key(registry: &SettingsRegistry, store: &mut SettingsStore, id: &str, key: &str)
    ensures
        final(store).value_of(id@) matches Some(SettingValue::KeyCode(k)) && k@ == key@,
        forall|o: Seq<char>|
            o != id@ ==> #[trigger] final(store).value_of(o) == after_key_resets(registry.defs@, o, id@, key@, old(store).value_of(o)),
{
    let mut i: usize = 0;
    proof {
        assert forall|o: Seq<char>| o != id@ implies #[trigger] store.value_of(o) == after_key_resets(registry.defs@.take(0), o, id@, key@, old(store).value_of(o)) by {
            assert(registry.defs@.take(0).len() == 0);
        }
    }
    while i < registry.defs.len()
        invariant
            0 <= i <= registry.defs@.len(),
            forall|o: Seq<char>|
                o != id@ ==> #[trigger] store.value_of(o) == after_key_resets(registry.defs@.take(i as int), o, id@, key@, old(store).value_of(o)),
        decreases registry.defs.len() - i,
    {
        let def = &registry.defs[i];
        proof {
            assert(registry.defs@.take(i + 1).drop_last() =~= registry.defs@.take(i as int));
            assert(registry.defs@.take(i + 1).last() == registry.defs@[i as int]);
        }
        let is_key = match def.kind {
            SettingKind::KeyCode => true,
            _ => false,
        };
        if is_key && !str_eq(def.id.as_str(), id) {
            let cur = store.get_keycode(def.id.as_str(), "Space");
            proof {
                reveal_strlit("Space");
                assert(cur@ == key_of(store.value_of(def.id@)));
            }
            if str_eq(cur.as_str(), key) {
                store.set(def.id.as_str(), def.default.clone());
            }
        }
        i = i + 1;
    }
    proof {
        assert(registry.defs@.take(registry.defs@.len() as int) =~= registry.defs@);
    }
    store.set(id, SettingValue::KeyCode(String::from_str(key)));
}

} // verus!
