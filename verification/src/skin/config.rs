//! Skin options: the custom options a skin header declares and the
//! option map that destination conditions read.

use vstd::prelude::*;

use crate::text::str_eq;

verus! {

/// One choice of a custom option (`header.property[].item[]`).
#[derive(Debug, Clone)]
pub struct OptionItem {
    pub name: String,
    /// Option number compared by the skin (e.g. 900/901).
    pub op: i64,
}

/// A custom option (`header.property[]`).
#[derive(Debug, Clone)]
pub struct CustomOption {
    pub name: String,
    /// Name of the default item.
    pub def: Option<String>,
    pub items: Vec<OptionItem>,
}

/// A custom file choice (`header.filepath[]`).
#[derive(Debug, Clone)]
pub struct CustomFile {
    pub name: String,
    /// Wildcard path, e.g. `Background/*.png`.
    pub path: String,
    /// Default file name.
    pub def: Option<String>,
}


/// The op of the item named `name` (the first such item), if any.
pub open spec fn item_op_named(items: Seq<OptionItem>, name: Seq<char>) -> Option<i64>
    decreases items.len(),
{
    if items.len() == 0 {
        None
    } else if items[0].name@ == name {
        Some(items[0].op)
    } else {
        item_op_named(items.drop_first(), name)
    }
}

/// The op an option starts with: its default item, else its first item, else 0.
pub open spec fn default_op(p: CustomOption) -> i64 {
    let first = if p.items@.len() > 0 {
        Some(p.items@[0].op)
    } else {
        None
    };
    let chosen = match p.def {
        Some(d) => match item_op_named(p.items@, d@) {
            Some(op) => Some(op),
            None => first,
        },
        None => first,
    };
    match chosen {
        Some(op) => op,
        None => 0,
    }
}

/// The op selected for the option named `name`: that of the first option so named.
pub open spec fn selected_op(props: Seq<CustomOption>, name: Seq<char>) -> Option<i64>
    decreases props.len(),
{
    if props.len() == 0 {
        None
    } else if props[0].name@ == name {
        Some(default_op(props[0]))
    } else {
        selected_op(props.drop_first(), name)
    }
}

/// Option-map entries of one option's items: each item's op and whether it
/// is the selected one.
pub open spec fn item_entries(items: Seq<OptionItem>, selected: Option<i64>) -> Seq<(i64, bool)> {
    items.map_values(|it: OptionItem| (it.op, Some(it.op) == selected))
}

/// Option-map entries of the first `n` options.
pub open spec fn prop_entries(props: Seq<CustomOption>, all: Seq<CustomOption>) -> Seq<(i64, bool)>
    decreases props.len(),
{
    if props.len() == 0 {
        Seq::empty()
    } else {
        prop_entries(props.drop_last(), all) + item_entries(props.last().items@, selected_op(all, props.last().name@))
    }
}

/// Global skin options and their values before play: 81 loaded (off),
/// 32 autoplay off (on), 1008 song table (off), 80 now loading (off),
/// 194 no back bitmap (on).
pub open spec fn global_entries() -> Seq<(i64, bool)> {
    seq![(81i64, false), (32i64, true), (1008i64, false), (80i64, false), (194i64, true)]
}

/// The value of the first entry for `id` (absent ids are not selected).
pub open spec fn first_flag(m: Seq<(i64, bool)>, id: i64) -> bool
    decreases m.len(),
{
    if m.len() == 0 {
        false
    } else if m[0].0 == id {
        m[0].1
    } else {
        first_flag(m.drop_first(), id)
    }
}

/// (name, chosen file) of every file choice that has a default.
pub open spec fn file_defaults(fs: Seq<CustomFile>) -> Seq<(Seq<char>, Seq<char>)>
    decreases fs.len(),
{
    if fs.len() == 0 {
        Seq::empty()
    } else {
        let rest = file_defaults(fs.drop_last());
        match fs.last().def {
            Some(d) => rest.push((fs.last().name@, d@)),
            None => rest,
        }
    }
}

/// The text pairs of a list of string pairs.
pub open spec fn file_pairs(v: Seq<(String, String)>) -> Seq<(Seq<char>, Seq<char>)> {
    v.map_values(|p: (String, String)| (p.0@, p.1@))
}

/// Option values handed to a skin and read by destination conditions.
#[derive(Debug, Clone)]
pub struct SkinConfigValues {
    /// Option name → selected op.
    pub option: Vec<(String, i64)>,
    /// File-choice name → chosen file name.
    pub file_path: Vec<(String, String)>,
    /// Every item op (and the global options) → whether it is selected.
    pub op_map: Vec<(i64, bool)>,
}

/// The op of a chosen default item (first item named `name`).
fn find_item_op(items: &Vec<OptionItem>, name: &str) -> (r: Option<i64>)
    ensures
        r == item_op_named(items@, name@),
{
    let mut i: usize = 0;
    proof {
        assert(items@.skip(0) =~= items@);
    }
    while i < items.len()
        invariant
            0 <= i <= items.len(),
            item_op_named(items@, name@) == item_op_named(items@.skip(i as int), name@),
        decreases items.len() - i,
    {
        proof {
            assert(items@.skip(i as int).drop_first() =~= items@.skip(i + 1));
        }
        if str_eq(items[i].name.as_str(), name) {
            return Some(items[i].op);
        }
        i = i + 1;
    }
    None
}

/// The starting op of an option.
fn option_default_op(p: &CustomOption) -> (op: i64)
    ensures
        op == default_op(*p),
{
    let first = if p.items.len() > 0 {
        Some(p.items[0].op)
    } else {
        None
    };
    let chosen = match &p.def {
        Some(d) => match find_item_op(&p.items, d.as_str()) {
            Some(op) => Some(op),
            None => first,
        },
        None => first,
    };
    match chosen {
        Some(op) => op,
        None => 0,
    }
}

impl SkinConfigValues {
    /// Builds the option values from a header's options and file choices:
    /// every option starts on its default item (else its first item, else
    /// op 0); file choices with a default take it; the option map lists every
    /// item op with whether it is selected, then the global options.
    pub fn from_options(property: &Vec<CustomOption>, filepath: &Vec<CustomFile>) -> (c: Self)
        ensures
            c.option@.len() == property@.len(),
            forall|i: int| 0 <= i < property@.len() ==> (#[trigger] c.option@[i]).0@ == property@[i].name@
                && c.option@[i].1 == default_op(property@[i]),
            c.op_map@ == prop_entries(property@, property@) + global_entries(),
            file_pairs(c.file_path@) == file_defaults(filepath@),
    {
        let mut option: Vec<(String, i64)> = Vec::new();
        let mut i: usize = 0;
        while i < property.len()
            invariant
                0 <= i <= property.len(),
                option@.len() == i,
                forall|k: int| 0 <= k < i ==> (#[trigger] option@[k]).0@ == property@[k].name@
                    && option@[k].1 == default_op(property@[k]),
            decreases property.len() - i,
        {
            let p = &property[i];
            option.push((p.name.clone(), option_default_op(p)));
            i = i + 1;
        }
        let mut file_path: Vec<(String, String)> = Vec::new();
        let mut j: usize = 0;
        while j < filepath.len()
            invariant
                0 <= j <= filepath.len(),
                file_pairs(file_path@) == file_defaults(filepath@.take(j as int)),
            decreases filepath.len() - j,
        {
            let f = &filepath[j];
            proof {
                assert(filepath@.take(j + 1).drop_last() =~= filepath@.take(j as int));
                assert(filepath@.take(j + 1).last() == *f);
            }
            match &f.def {
                Some(d) => {
                    let ghost before = file_path@;
                    file_path.push((f.name.clone(), d.clone()));
                    proof {
                        assert(file_pairs(file_path@) =~= file_pairs(before).push((f.name@, d@)));
                    }
                },
                None => {},
            }
            j = j + 1;
        }
        proof {
            assert(filepath@.take(filepath@.len() as int) =~= filepath@);
        }
        let mut op_map: Vec<(i64, bool)> = Vec::new();
        let mut k: usize = 0;
        while k < property.len()
            invariant
                0 <= k <= property.len(),
                option@.len() == property@.len(),
                forall|q: int| 0 <= q < property@.len() ==> (#[trigger] option@[q]).0@ == property@[q].name@
                    && option@[q].1 == default_op(property@[q]),
                op_map@ == prop_entries(property@.take(k as int), property@),
            decreases property.len() - k,
        {
            let p = &property[k];
            let selected = find_selected(&option, property, p.name.as_str());
            let ghost base = op_map@;
            let mut t: usize = 0;
            while t < p.items.len()
                invariant
                    0 <= t <= p.items.len(),
                    op_map@ == base + item_entries(p.items@.take(t as int), selected),
                decreases p.items.len() - t,
            {
                let op = p.items[t].op;
                let sel = match selected {
                    Some(s) => s == op,
                    None => false,
                };
                op_map.push((op, sel));
                proof {
                    assert(item_entries(p.items@.take(t + 1), selected) =~= item_entries(p.items@.take(t as int), selected).push((op, sel)));
                    assert(op_map@ =~= base + item_entries(p.items@.take(t + 1), selected));
                }
                t = t + 1;
            }
            proof {
                assert(p.items@.take(p.items@.len() as int) =~= p.items@);
                assert(property@.take(k + 1).drop_last() =~= property@.take(k as int));
                assert(property@.take(k + 1).last() == *p);
            }
            k = k + 1;
        }
        proof {
            assert(property@.take(property@.len() as int) =~= property@);
        }
        let ghost before_globals = op_map@;
        op_map.push((81, false));
        op_map.push((32, true));
        op_map.push((1008, false));
        op_map.push((80, false));
        op_map.push((194, true));
        proof {
            assert(op_map@ =~= before_globals + global_entries());
        }
        SkinConfigValues { option, file_path, op_map }
    }

    /// Whether option `id` is selected (the first entry for it decides;
    /// unknown ids are not selected).
    pub fn is_option_enabled(&self, id: i64) -> (b: bool)
        ensures
            b == first_flag(self.op_map@, id),
    {
        let mut i: usize = 0;
        proof {
            assert(self.op_map@.skip(0) =~= self.op_map@);
        }
        while i < self.op_map.len()
            invariant
                0 <= i <= self.op_map.len(),
                first_flag(self.op_map@, id) == first_flag(self.op_map@.skip(i as int), id),
            decreases self.op_map.len() - i,
        {
            proof {
                assert(self.op_map@.skip(i as int).drop_first() =~= self.op_map@.skip(i + 1));
            }
            if self.op_map[i].0 == id {
                return self.op_map[i].1;
            }
            i = i + 1;
        }
        false
    }

    /// Sets every entry of option `id` to `value` (global options that
    /// change during play: loaded, autoplay off, now loading).
    pub fn set_option(&mut self, id: i64, value: bool)
        ensures
            final(self).op_map@.len() == old(self).op_map@.len(),
            forall|i: int| 0 <= i < final(self).op_map@.len() ==> (#[trigger] final(self).op_map@[i]) == (if old(self).op_map@[i].0 == id {
                (id, value)
            } else {
                old(self).op_map@[i]
            }),
            final(self).option@ == old(self).option@,
            final(self).file_path@ == old(self).file_path@,
    {
        let mut i: usize = 0;
        while i < self.op_map.len()
            invariant
                0 <= i <= self.op_map.len(),
                self.op_map@.len() == old(self).op_map@.len(),
                forall|q: int| 0 <= q < self.op_map@.len() ==> (#[trigger] self.op_map@[q]) == (if q < i && old(self).op_map@[q].0 == id {
                    (id, value)
                } else {
                    old(self).op_map@[q]
                }),
                self.option@ == old(self).option@,
                self.file_path@ == old(self).file_path@,
            decreases self.op_map.len() - i,
        {
            if self.op_map[i].0 == id {
                self.op_map.set(i, (id, value));
            }
            i = i + 1;
        }
    }
}

/// The op selected for the option named `name`, read from the option list
/// built for `props`.
fn find_selected(option: &Vec<(String, i64)>, props: &Vec<CustomOption>, name: &str) -> (r: Option<i64>)
    requires
        option@.len() == props@.len(),
        forall|q: int| 0 <= q < props@.len() ==> (#[trigger] option@[q]).0@ == props@[q].name@
            && option@[q].1 == default_op(props@[q]),
    ensures
        r == selected_op(props@, name@),
{
    let mut i: usize = 0;
    proof {
        assert(props@.skip(0) =~= props@);
    }
    while i < option.len()
        invariant
            0 <= i <= option.len(),
            option@.len() == props@.len(),
            forall|q: int| 0 <= q < props@.len() ==> (#[trigger] option@[q]).0@ == props@[q].name@
                && option@[q].1 == default_op(props@[q]),
            selected_op(props@, name@) == selected_op(props@.skip(i as int), name@),
        decreases option.len() - i,
    {
        proof {
            assert(props@.skip(i as int).drop_first() =~= props@.skip(i + 1));
            assert(props@.skip(i as int)[0] == props@[i as int]);
        }
        if str_eq(option[i].0.as_str(), name) {
            return Some(option[i].1);
        }
        i = i + 1;
    }
    None
}

/// A selected option item is reported enabled and the other items of that
/// option are not (when no earlier entry shadows the op).
pub proof fn lemma_first_flag_of_entry(m: Seq<(i64, bool)>, i: int)
    requires
        0 <= i < m.len(),
        forall|j: int| 0 <= j < i ==> m[j].0 != m[i].0,
    ensures
        first_flag(m, m[i].0) == m[i].1,
    decreases i,
{
    if i > 0 {
        lemma_first_flag_of_entry(m.drop_first(), i - 1);
    }
}

/// The play-time global options: 81 loaded (play started), 32 autoplay off,
/// 80 now loading (not started yet).
pub open spec fn play_option(id: i64, started: bool, auto: bool) -> Option<bool> {
    if id == 81 {
        Some(started)
    } else if id == 32 {
        Some(!auto)
    } else if id == 80 {
        Some(!started)
    } else {
        None
    }
}

impl SkinConfigValues {
    /// Sets the play-time global options (see [`play_option`]): every entry
    /// of options 81, 32 and 80 takes its value; other entries are kept.
    pub fn set_play_options(&mut self, started: bool, auto: bool)
        ensures
            final(self).op_map@.len() == old(self).op_map@.len(),
            forall|i: int| 0 <= i < final(self).op_map@.len() ==> (#[trigger] final(self).op_map@[i]) == match play_option(old(self).op_map@[i].0, started, auto) {
                Some(v) => (old(self).op_map@[i].0, v),
                None => old(self).op_map@[i],
            },
            final(self).option@ == old(self).option@,
            final(self).file_path@ == old(self).file_path@,
    {
        self.set_option(81, started);
        self.set_option(32, !auto);
        self.set_option(80, !started);
    }
}

} // verus!
