//! Key bindings: lane (scratch + keys 1-7) → keyboard key.
//!
//! Default layout: scratch = A, keys 1-7 = S D F Space J K L. Five-key charts
//! use scratch + keys 1-5. Keys are named as in the settings file (`"KeyA"`,
//! `"Space"`, …).

use vstd::prelude::*;

use crate::settings::{SettingValue, SettingsStore};
use crate::text::{decimal, push_decimal, str_eq};

verus! {

/// A bindable lane.
#[derive(Debug, Clone, Copy, PartialEq, Eq, Structural)]
pub enum BindTarget {
    /// The turntable.
    Scratch,
    /// Key 1-7.
    Key(u8),
}

/// Play mode (bindings are configured per mode).
#[derive(Debug, Clone, Copy, PartialEq, Eq, Structural)]
pub enum PlayMode {
    /// Five keys + scratch.
    FiveKey,
    /// Seven keys + scratch.
    SevenKey,
}

/// Highest key number of a mode.
pub open spec fn mode_max_key(m: PlayMode) -> u8 {
    match m {
        PlayMode::FiveKey => 5,
        PlayMode::SevenKey => 7,
    }
}

/// Setting-id prefix of a mode.
pub open spec fn mode_prefix(m: PlayMode) -> Seq<char> {
    match m {
        PlayMode::FiveKey => "key5"@,
        PlayMode::SevenKey => "key7"@,
    }
}

/// Display name of a mode.
pub open spec fn mode_label(m: PlayMode) -> Seq<char> {
    match m {
        PlayMode::FiveKey => "5K"@,
        PlayMode::SevenKey => "7K"@,
    }
}

impl PlayMode {
    /// Every supported mode.
    pub const ALL: [PlayMode; 2] = [PlayMode::FiveKey, PlayMode::SevenKey];

    /// Display name (settings screen group).
    pub fn label(self) -> (s: &'static str)
        ensures
            s@ == mode_label(self),
    {
        match self {
            PlayMode::FiveKey => "5K",
            PlayMode::SevenKey => "7K",
        }
    }

    /// Setting-id prefix.
    pub fn setting_prefix(self) -> (s: &'static str)
        ensures
            s@ == mode_prefix(self),
    {
        match self {
            PlayMode::FiveKey => "key5",
            PlayMode::SevenKey => "key7",
        }
    }

    /// Highest key number used by the mode.
    pub fn max_key(self) -> (n: u8)
        ensures
            n == mode_max_key(self),
    {
        match self {
            PlayMode::FiveKey => 5,
            PlayMode::SevenKey => 7,
        }
    }
}

/// Display name of a lane.
pub open spec fn target_label(t: BindTarget) -> Seq<char> {
    match t {
        BindTarget::Scratch => "盘"@,
        BindTarget::Key(1) => "键1"@,
        BindTarget::Key(2) => "键2"@,
        BindTarget::Key(3) => "键3"@,
        BindTarget::Key(4) => "键4"@,
        BindTarget::Key(5) => "键5"@,
        BindTarget::Key(6) => "键6"@,
        BindTarget::Key(7) => "键7"@,
        BindTarget::Key(_) => "?"@,
    }
}

/// Setting id of a lane's binding in a mode: `<prefix>_scratch` or `<prefix>_<n>`.
pub open spec fn target_setting_id(t: BindTarget, m: PlayMode) -> Seq<char> {
    mode_prefix(m) + "_"@ + match t {
        BindTarget::Scratch => "scratch"@,
        BindTarget::Key(n) => decimal(n as nat),
    }
}

/// Display order of lanes: scratch first, then keys ascending.
pub open spec fn target_rank(t: BindTarget) -> int {
    match t {
        BindTarget::Scratch => 0,
        BindTarget::Key(n) => 1 + n,
    }
}

impl BindTarget {
    /// Display name (settings screen).
    pub fn label(self) -> (s: &'static str)
        ensures
            s@ == target_label(self),
    {
        match self {
            BindTarget::Scratch => "盘",
            BindTarget::Key(n) => match n {
                1 => "键1",
                2 => "键2",
                3 => "键3",
                4 => "键4",
                5 => "键5",
                6 => "键6",
                7 => "键7",
                _ => "?",
            },
        }
    }

    /// Setting id of this lane's binding in a mode (e.g. `key7_1`).
    pub fn setting_id(self, mode: PlayMode) -> (s: String)
        ensures
            s@ == target_setting_id(self, mode),
    {
        let mut s = String::from_str(mode.setting_prefix());
        s.append("_");
        match self {
            BindTarget::Scratch => {
                s.append("scratch");
            },
            BindTarget::Key(n) => {
                push_decimal(&mut s, n);
            },
        }
        proof {
            reveal_strlit("_");
            reveal_strlit("scratch");
            assert(s@ =~= target_setting_id(self, mode));
        }
        s
    }
}

/// The default layout, in display order.
pub open spec fn default_layout() -> Seq<(BindTarget, Seq<char>)> {
    seq![
        (BindTarget::Scratch, "KeyA"@),
        (BindTarget::Key(1), "KeyS"@),
        (BindTarget::Key(2), "KeyD"@),
        (BindTarget::Key(3), "KeyF"@),
        (BindTarget::Key(4), "Space"@),
        (BindTarget::Key(5), "KeyJ"@),
        (BindTarget::Key(6), "KeyK"@),
        (BindTarget::Key(7), "KeyL"@),
    ]
}

/// The (lane, key name) pairs of a binding list.
pub open spec fn pairs_view(v: Seq<(BindTarget, String)>) -> Seq<(BindTarget, Seq<char>)> {
    v.map_values(|p: (BindTarget, String)| (p.0, p.1@))
}

/// Lanes appear at most once, in strictly increasing display order.
pub open spec fn bindings_sorted(v: Seq<(BindTarget, Seq<char>)>) -> bool {
    forall|a: int, b: int| 0 <= a < b < v.len() ==> target_rank(v[a].0) < target_rank(v[b].0)
}

/// The key bound to a lane in a binding list (its last entry for the lane).
pub open spec fn bound_key(v: Seq<(BindTarget, Seq<char>)>, t: BindTarget) -> Option<Seq<char>>
    decreases v.len(),
{
    if v.len() == 0 {
        None
    } else if v.last().0 == t {
        Some(v.last().1)
    } else {
        bound_key(v.drop_last(), t)
    }
}

/// Number of lane slots (scratch + every possible key number).
pub const SLOT_COUNT: usize = 257;

/// The lane of a slot index.
pub open spec fn target_of_slot(i: int) -> BindTarget {
    if i == 0 {
        BindTarget::Scratch
    } else {
        BindTarget::Key((i - 1) as u8)
    }
}

/// Whether a lane is used by a mode (scratch always; keys up to the mode's highest).
pub open spec fn in_mode(t: BindTarget, m: PlayMode) -> bool {
    match t {
        BindTarget::Scratch => true,
        BindTarget::Key(n) => n <= mode_max_key(m),
    }
}

/// The key a store holds for a lane's binding setting, or `default`.
pub open spec fn stored_key(store: SettingsStore, t: BindTarget, m: PlayMode, default: Seq<char>) -> Seq<char> {
    match store.value_of(target_setting_id(t, m)) {
        Some(SettingValue::KeyCode(x)) => x@,
        _ => default,
    }
}

/// The default key of a lane of the default layout.
pub open spec fn default_key(t: BindTarget) -> Option<Seq<char>> {
    match t {
        BindTarget::Scratch => Some("KeyA"@),
        BindTarget::Key(1) => Some("KeyS"@),
        BindTarget::Key(2) => Some("KeyD"@),
        BindTarget::Key(3) => Some("KeyF"@),
        BindTarget::Key(4) => Some("Space"@),
        BindTarget::Key(5) => Some("KeyJ"@),
        BindTarget::Key(6) => Some("KeyK"@),
        BindTarget::Key(7) => Some("KeyL"@),
        _ => None,
    }
}

/// Position of a lane in the default layout (scratch 0, key `n` at `n`).
pub open spec fn layout_pos(t: BindTarget) -> int {
    match t {
        BindTarget::Scratch => 0,
        BindTarget::Key(n) => n as int,
    }
}

/// Each entry of the default layout sits at its lane's position and holds
/// that lane's default key.
proof fn lemma_default_layout_entry(i: int)
    requires
        0 <= i < 8,
    ensures
        layout_pos(default_layout()[i].0) == i,
        default_key(default_layout()[i].0) == Some(default_layout()[i].1),
{
    reveal_strlit("KeyA");
    reveal_strlit("KeyS");
    reveal_strlit("KeyD");
    reveal_strlit("KeyF");
    reveal_strlit("Space");
    reveal_strlit("KeyJ");
    reveal_strlit("KeyK");
    reveal_strlit("KeyL");
}

/// A lane is found again from its slot index.
proof fn lemma_slot_roundtrip(t: BindTarget)
    ensures
        target_of_slot(target_rank(t)) == t,
        0 <= target_rank(t) < SLOT_COUNT,
{
}

/// Key bindings of one mode: lane → key name (each lane bound at most once).
#[derive(Debug)]
pub struct KeyBindings {
    /// Slot `target_rank(t)` holds the key bound to lane `t`.
    slots: Vec<Option<String>>,
}

/// The slot index of a lane.
fn slot_of(t: BindTarget) -> (i: usize)
    ensures
        i == target_rank(t),
        i < SLOT_COUNT,
{
    match t {
        BindTarget::Scratch => 0,
        BindTarget::Key(n) => 1 + n as usize,
    }
}

/// The lane of a slot index.
fn target_at(i: usize) -> (t: BindTarget)
    requires
        i < SLOT_COUNT,
    ensures
        t == target_of_slot(i as int),
        target_rank(t) == i,
{
    if i == 0 {
        BindTarget::Scratch
    } else {
        BindTarget::Key((i - 1) as u8)
    }
}

impl KeyBindings {
    /// The key bound to lane `t`.
    pub closed spec fn binding(&self, t: BindTarget) -> Option<Seq<char>> {
        match self.slots@[target_rank(t)] {
            Some(s) => Some(s@),
            None => None,
        }
    }

    /// The invariant: one slot per possible lane.
    pub closed spec fn wf(&self) -> bool {
        self.slots@.len() == SLOT_COUNT
    }

    /// No lane bound.
    pub fn empty() -> (b: Self)
        ensures
            b.wf(),
            forall|t: BindTarget| #[trigger] b.binding(t) is None,
    {
        let mut slots: Vec<Option<String>> = Vec::new();
        let mut i: usize = 0;
        while i < SLOT_COUNT
            invariant
                0 <= i <= SLOT_COUNT,
                slots@.len() == i,
                forall|j: int| 0 <= j < i ==> slots@[j] is None,
            decreases SLOT_COUNT - i,
        {
            slots.push(None);
            i = i + 1;
        }
        let b = KeyBindings { slots };
        proof {
            assert forall|t: BindTarget| #[trigger] b.binding(t) is None by {
                assert(0 <= target_rank(t) < SLOT_COUNT);
            }
        }
        b
    }

    /// The default layout (scratch = A, keys = S D F Space J K L), in
    /// display order.
    pub fn default_map() -> (v: Vec<(BindTarget, String)>)
        ensures
            pairs_view(v@) == default_layout(),
    {
        let mut v: Vec<(BindTarget, String)> = Vec::new();
        v.push((BindTarget::Scratch, String::from_str("KeyA")));
        v.push((BindTarget::Key(1), String::from_str("KeyS")));
        v.push((BindTarget::Key(2), String::from_str("KeyD")));
        v.push((BindTarget::Key(3), String::from_str("KeyF")));
        v.push((BindTarget::Key(4), String::from_str("Space")));
        v.push((BindTarget::Key(5), String::from_str("KeyJ")));
        v.push((BindTarget::Key(6), String::from_str("KeyK")));
        v.push((BindTarget::Key(7), String::from_str("KeyL")));
        proof {
            assert(pairs_view(v@) =~= default_layout());
        }
        v
    }

    /// The bindings of a mode: each lane of the mode gets the key stored
    /// under its setting id, or its default key.
    pub fn from_store(store: &SettingsStore, mode: PlayMode) -> (b: Self)
        ensures
            b.wf(),
            forall|t: BindTarget| #[trigger] b.binding(t) == (if in_mode(t, mode) && default_key(t) is Some {
                Some(stored_key(*store, t, mode, default_key(t).unwrap()))
            } else {
                None
            }),
    {
        let defaults = Self::default_map();
        proof {
            assert(pairs_view(defaults@).len() == defaults@.len());
        }
        let mut b = Self::empty();
        let max = mode.max_key();
        let mut i: usize = 0;
        while i < defaults.len()
            invariant
                0 <= i <= defaults.len(),
                pairs_view(defaults@) == default_layout(),
                defaults@.len() == 8,
                max == mode_max_key(mode),
                b.wf(),
                forall|t: BindTarget| #[trigger] b.binding(t) == (if in_mode(t, mode) && default_key(t) is Some && layout_pos(t) < i {
                    Some(stored_key(*store, t, mode, default_key(t).unwrap()))
                } else {
                    None
                }),
            decreases defaults.len() - i,
        {
            let (t, default) = &defaults[i];
            proof {
                assert(pairs_view(defaults@)[i as int] == (defaults@[i as int].0, defaults@[i as int].1@));
                lemma_default_layout_entry(i as int);
                assert(layout_pos(*t) == i);
                assert(default_key(*t) == Some(default@));
            }
            let wanted = match t {
                BindTarget::Scratch => true,
                BindTarget::Key(n) => *n <= max,
            };
            if wanted {
                let id = t.setting_id(mode);
                let code = store.get_keycode(id.as_str(), default.as_str());
                let ghost before = b;
                b.bind_slot(*t, code);
                proof {
                    assert forall|u: BindTarget| #[trigger] b.binding(u) == (if in_mode(u, mode) && default_key(u) is Some && layout_pos(u) < i + 1 {
                        Some(stored_key(*store, u, mode, default_key(u).unwrap()))
                    } else {
                        None
                    }) by {
                        if layout_pos(u) == i && default_key(u) is Some {
                            assert(u == *t);
                        }
                    }
                }
            } else {
                proof {
                    assert forall|u: BindTarget| #[trigger] b.binding(u) == (if in_mode(u, mode) && default_key(u) is Some && layout_pos(u) < i + 1 {
                        Some(stored_key(*store, u, mode, default_key(u).unwrap()))
                    } else {
                        None
                    }) by {
                        if layout_pos(u) == i && default_key(u) is Some {
                            assert(u == *t);
                        }
                    }
                }
            }
            i = i + 1;
        }
        proof {
            assert forall|t: BindTarget| default_key(t) is Some implies layout_pos(t) < 8 by {}
        }
        b
    }

    /// Sets the slot of lane `t` (no conflict handling).
    fn bind_slot(&mut self, t: BindTarget, code: String)
        requires
            old(self).wf(),
        ensures
            final(self).wf(),
            final(self).binding(t) == Some(code@),
            forall|u: BindTarget| u != t ==> #[trigger] final(self).binding(u) == old(self).binding(u),
    {
        let i = slot_of(t);
        self.slots.set(i, Some(code));
        proof {
            assert forall|u: BindTarget| u != t implies #[trigger] self.binding(u) == old(self).binding(u) by {
                assert(target_rank(u) != target_rank(t));
            }
        }
    }

    /// Every binding as (lane, key), scratch first then keys ascending.
    pub fn entries(&self) -> (v: Vec<(BindTarget, String)>)
        requires
            self.wf(),
        ensures
            bindings_sorted(pairs_view(v@)),
            forall|t: BindTarget| #[trigger] bound_key(pairs_view(v@), t) == self.binding(t),
    {
        let mut v: Vec<(BindTarget, String)> = Vec::new();
        let mut i: usize = 0;
        while i < SLOT_COUNT
            invariant
                0 <= i <= SLOT_COUNT,
                self.wf(),
                bindings_sorted(pairs_view(v@)),
                forall|a: int| 0 <= a < v@.len() ==> target_rank(#[trigger] v@[a].0) < i,
                forall|t: BindTarget| #[trigger] bound_key(pairs_view(v@), t) == (if target_rank(t) < i {
                    self.binding(t)
                } else {
                    None
                }),
            decreases SLOT_COUNT - i,
        {
            match &self.slots[i] {
                Some(code) => {
                    let t = target_at(i);
                    proof {
                        assert(self.slots@[i as int] == Some(*code));
                    }
                    let ghost before = v@;
                    v.push((t, code.clone()));
                    proof {
                        assert(pairs_view(v@) =~= pairs_view(before).push((t, code@)));
                        assert(pairs_view(v@).drop_last() =~= pairs_view(before));
                        assert forall|u: BindTarget| #[trigger] bound_key(pairs_view(v@), u) == (if target_rank(u) < i + 1 {
                            self.binding(u)
                        } else {
                            None
                        }) by {
                            lemma_slot_roundtrip(u);
                            assert(bound_key(pairs_view(before), u) == (if target_rank(u) < i {
                                self.binding(u)
                            } else {
                                None
                            }));
                            if u != t {
                                assert(bound_key(pairs_view(v@), u) == bound_key(pairs_view(before), u));
                                if target_rank(u) == i {
                                    assert(target_of_slot(i as int) == u);
                                }
                            } else {
                                assert(pairs_view(v@).last() == (t, code@));
                                assert(self.binding(t) == Some(code@));
                            }
                        }
                    }
                },
                None => {
                    proof {
                        assert forall|u: BindTarget| #[trigger] bound_key(pairs_view(v@), u) == (if target_rank(u) < i + 1 {
                            self.binding(u)
                        } else {
                            None
                        }) by {
                            if target_rank(u) == i {
                                assert(target_of_slot(i as int) == u);
                            }
                        }
                    }
                },
            }
            i = i + 1;
        }
        proof {
            assert forall|t: BindTarget| target_rank(t) < SLOT_COUNT by {}
        }
        v
    }

    /// The key bound to a lane.
    pub fn get(&self, target: BindTarget) -> (r: Option<String>)
        requires
            self.wf(),
        ensures
            match self.binding(target) {
                Some(k) => r matches Some(s) && s@ == k,
                None => r is None,
            },
    {
        match &self.slots[slot_of(target)] {
            Some(code) => Some(code.clone()),
            None => None,
        }
    }

    /// Binds `target` to `code`; any other lane bound to the same key loses
    /// its binding (no key drives two lanes).
    pub fn set(&mut self, target: BindTarget, code: &str)
        requires
            old(self).wf(),
        ensures
            final(self).wf(),
            final(self).binding(target) == Some(code@),
            forall|u: BindTarget| u != target ==> #[trigger] final(self).binding(u) == (if old(self).binding(u) == Some(code@) {
                None
            } else {
                old(self).binding(u)
            }),
    {
        let mut i: usize = 0;
        while i < SLOT_COUNT
            invariant
                0 <= i <= SLOT_COUNT,
                self.wf(),
                forall|u: BindTarget| #[trigger] self.binding(u) == (if target_rank(u) < i && old(self).binding(u) == Some(code@) {
                    None
                } else {
                    old(self).binding(u)
                }),
            decreases SLOT_COUNT - i,
        {
            let ghost before = *self;
            let clear = match &self.slots[i] {
                Some(c) => str_eq(c.as_str(), code),
                None => false,
            };
            if clear {
                self.slots.set(i, None);
            }
            proof {
                assert forall|u: BindTarget| #[trigger] self.binding(u) == (if target_rank(u) < i + 1 && old(self).binding(u) == Some(code@) {
                    None
                } else {
                    old(self).binding(u)
                }) by {
                    lemma_slot_roundtrip(u);
                    assert(before.binding(u) == (if target_rank(u) < i && old(self).binding(u) == Some(code@) {
                        None
                    } else {
                        old(self).binding(u)
                    }));
                    if target_rank(u) == i {
                        assert(target_of_slot(i as int) == u);
                        assert(before.binding(u) == old(self).binding(u));
                    } else {
                        assert(self.slots@[target_rank(u)] == before.slots@[target_rank(u)]);
                    }
                }
            }
            i = i + 1;
        }
        self.bind_slot(target, String::from_str(code));
        proof {
            assert forall|u: BindTarget| target_rank(u) < SLOT_COUNT by {}
        }
    }

    /// The lane bound to key `code` (scratch first, then keys ascending, if
    /// several are).
    pub fn target_for(&self, code: &str) -> (r: Option<BindTarget>)
        requires
            self.wf(),
        ensures
            r matches Some(t) ==> self.binding(t) == Some(code@)
                && forall|u: BindTarget| target_rank(u) < target_rank(t) ==> #[trigger] self.binding(u) != Some(code@),
            r is None ==> forall|u: BindTarget| #[trigger] self.binding(u) != Some(code@),
    {
        let mut i: usize = 0;
        while i < SLOT_COUNT
            invariant
                0 <= i <= SLOT_COUNT,
                self.wf(),
                forall|u: BindTarget| target_rank(u) < i ==> #[trigger] self.binding(u) != Some(code@),
            decreases SLOT_COUNT - i,
        {
            let hit = match &self.slots[i] {
                Some(c) => str_eq(c.as_str(), code),
                None => false,
            };
            if hit {
                return Some(target_at(i));
            }
            proof {
                assert forall|u: BindTarget| target_rank(u) < i + 1 implies #[trigger] self.binding(u) != Some(code@) by {
                    if target_rank(u) == i {
                        assert(target_of_slot(i as int) == u);
                    }
                }
            }
            i = i + 1;
        }
        proof {
            assert forall|u: BindTarget| #[trigger] self.binding(u) != Some(code@) by {
                assert(target_rank(u) < SLOT_COUNT);
            }
        }
        None
    }
}

/// Key bindings of every play mode.
#[derive(Debug)]
pub struct KeyBindingsByMode {
    five: KeyBindings,
    seven: KeyBindings,
}

impl KeyBindingsByMode {
    /// The bindings of a mode.
    pub closed spec fn bindings_of(&self, mode: PlayMode) -> KeyBindings {
        match mode {
            PlayMode::FiveKey => self.five,
            PlayMode::SevenKey => self.seven,
        }
    }

    /// Derives the bindings of every mode from the settings.
    pub fn from_store(store: &SettingsStore) -> (b: Self)
        ensures
            forall|m: PlayMode| #[trigger] b.bindings_of(m).wf(),
            forall|m: PlayMode, t: BindTarget| #[trigger] b.bindings_of(m).binding(t) == (if in_mode(t, m) && default_key(t) is Some {
                Some(stored_key(*store, t, m, default_key(t).unwrap()))
            } else {
                None
            }),
    {
        KeyBindingsByMode {
            five: KeyBindings::from_store(store, PlayMode::FiveKey),
            seven: KeyBindings::from_store(store, PlayMode::SevenKey),
        }
    }

    /// The bindings of a mode.
    pub fn for_mode(&self, mode: PlayMode) -> (b: &KeyBindings)
        ensures
            *b == self.bindings_of(mode),
    {
        match mode {
            PlayMode::FiveKey => &self.five,
            PlayMode::SevenKey => &self.seven,
        }
    }
}

/// After binding a lane to a key, that key selects exactly that lane.
pub proof fn lemma_set_then_target_for(b: KeyBindings, target: BindTarget, code: Seq<char>, u: BindTarget)
    requires
        b.binding(target) == Some(code),
        forall|v: BindTarget| v != target ==> #[trigger] b.binding(v) != Some(code),
    ensures
        b.binding(u) == Some(code) <==> u == target,
{
}

} // verus!
