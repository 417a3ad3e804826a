//! Resolution of key names in a configuration into key codes.
use vstd::prelude::*;

use crate::config::Config;
use crate::translator::MappingConfig;

verus! {

/// Why a configuration cannot be turned into a mapping.
#[derive(Debug, Clone, Copy, PartialEq, Eq, Structural)]
pub enum ConfigError {
    /// A key name, or a part of a button combo, names no known key.
    UnknownKey,
}

/// The code of the key named `name` in evdev's table of key names, if any.
pub uninterp spec fn key_code_of(name: Seq<char>) -> Option<u16>;

/// `s` without its leading and trailing whitespace.
pub uninterp spec fn trimmed(s: Seq<char>) -> Seq<char>;

/// Relies on evdev's `Key::from_str`: finds the key whose constant name is
/// exactly `name`.
#[verifier::external_body]
fn parse_key_name(name: &str) -> (r: Option<u16>)
    ensures
        r == key_code_of(name@),
{
    <evdev::Key as std::str::FromStr>::from_str(name).ok().map(|k| k.0)
}

/// Relies on `str::trim`: the slice without leading and trailing whitespace.
#[verifier::external_body]
fn trim_str<'a>(s: &'a str) -> (r: &'a str)
    ensures
        r@ == trimmed(s@),
{
    s.trim()
}

/// The parts of `s` between occurrences of `sep`; always at least one part.
pub open spec fn split_on(s: Seq<char>, sep: char) -> Seq<Seq<char>>
    decreases s.len(),
{
    if s.len() == 0 {
        seq![seq![]]
    } else {
        let parts = split_on(s.drop_last(), sep);
        if s.last() == sep {
            parts.push(seq![])
        } else {
            parts.update(parts.len() - 1, parts.last().push(s.last()))
        }
    }
}

/// The codes of the given names, each trimmed first; `None` if one is unknown.
pub open spec fn resolve_names(names: Seq<Seq<char>>) -> Option<Seq<u16>>
    decreases names.len(),
{
    if names.len() == 0 {
        Some(seq![])
    } else {
        match (resolve_names(names.drop_last()), key_code_of(trimmed(names.last()))) {
            (Some(codes), Some(k)) => Some(codes.push(k)),
            _ => None,
        }
    }
}

/// The key codes of a combo such as `"KEY_LEFTCTRL+KEY_Z"`.
pub open spec fn resolve_combo(s: Seq<char>) -> Option<Seq<u16>> {
    resolve_names(split_on(s, '+'))
}

/// The key codes of each combo, in order; `None` if one does not resolve.
pub open spec fn resolve_combos(combos: Seq<Seq<char>>) -> Option<Seq<Seq<u16>>>
    decreases combos.len(),
{
    if combos.len() == 0 {
        Some(seq![])
    } else {
        match (resolve_combos(combos.drop_last()), resolve_combo(combos.last())) {
            (Some(cs), Some(c)) => Some(cs.push(c)),
            _ => None,
        }
    }
}

pub open spec fn combo_names(cfg: Config) -> Seq<Seq<char>> {
    cfg.actions.tablet_buttons@.map_values(|s: String| s@)
}

/// Every key name of `cfg` is known.
pub open spec fn names_resolve(cfg: Config) -> bool {
    &&& key_code_of(cfg.actions.pen@) is Some
    &&& key_code_of(cfg.actions.stylus@) is Some
    &&& key_code_of(cfg.actions.pen_touch@) is Some
    &&& resolve_combos(combo_names(cfg)) is Some
}

/// What is wrong with `cfg`, if anything.
pub open spec fn mapping_error(cfg: Config) -> Option<ConfigError> {
    if !names_resolve(cfg) {
        Some(ConfigError::UnknownKey)
    } else {
        None
    }
}

/// `m` is the mapping that `cfg` describes.
pub open spec fn describes(m: MappingConfig, cfg: Config) -> bool {
    &&& m.pen_max_x == cfg.pen.max_x
    &&& m.pen_max_y == cfg.pen.max_y
    &&& m.pen_max_pressure == cfg.pen.max_pressure
    &&& m.resolution_x == cfg.pen.resolution_x
    &&& m.resolution_y == cfg.pen.resolution_y
    &&& Some(m.pen_click_key) == key_code_of(cfg.actions.pen@)
    &&& Some(m.stylus_key) == key_code_of(cfg.actions.stylus@)
    &&& Some(m.pen_touch_key) == key_code_of(cfg.actions.pen_touch@)
    &&& Some(m.combos()) == resolve_combos(combo_names(cfg))
    &&& m.swap_axis == cfg.settings.swap_axis
    &&& m.swap_direction_x == cfg.settings.swap_direction_x
    &&& m.swap_direction_y == cfg.settings.swap_direction_y
}

/// The parts of `s` between the `+` signs.
pub fn split_combo<'a>(s: &'a str) -> (r: Vec<&'a str>)
    ensures
        r@.map_values(|p: &str| p@) == split_on(s@, '+'),
{
    let n = s.unicode_len();
    let mut parts: Vec<&'a str> = Vec::new();
    let mut start: usize = 0;
    let mut i: usize = 0;
    assert(s@.take(0) =~= Seq::<char>::empty());
    assert(s@.subrange(0, 0) =~= Seq::<char>::empty());
    assert(parts@.map_values(|p: &str| p@) =~= Seq::<Seq<char>>::empty());
    while i < n
        invariant
            n == s@.len(),
            start <= i <= n,
            split_on(s@.take(i as int), '+') == parts@.map_values(|p: &str| p@).push(
                s@.subrange(start as int, i as int),
            ),
        decreases n - i,
    {
        let c = s.get_char(i);
        assert(s@.take(i + 1).drop_last() =~= s@.take(i as int));
        assert(s@.take(i + 1).last() == c);
        if c == '+' {
            let part = s.substring_char(start, i);
            let ghost before = parts@.map_values(|p: &str| p@);
            parts.push(part);
            assert(parts@.map_values(|p: &str| p@) =~= before.push(s@.subrange(start as int, i as int)));
            start = i + 1;
            assert(s@.subrange(start as int, i + 1) =~= seq![]);
        } else {
            assert(s@.subrange(start as int, i + 1) =~= s@.subrange(start as int, i as int).push(c));
        }
        i = i + 1;
    }
    let last = s.substring_char(start, n);
    let ghost before = parts@.map_values(|p: &str| p@);
    parts.push(last);
    assert(s@.take(n as int) =~= s@);
    assert(parts@.map_values(|p: &str| p@) =~= before.push(s@.subrange(start as int, n as int)));
    parts
}

/// The key codes of a combo such as `"KEY_LEFTCTRL+KEY_Z"`: each part
/// between `+` signs, trimmed, must name a key.
pub fn combo_codes(s: &str) -> (r: Option<Vec<u16>>)
    ensures
        match r {
            Some(v) => resolve_combo(s@) == Some(v@),
            None => resolve_combo(s@) is None,
        },
{
    let parts = split_combo(s);
    let ghost names = parts@.map_values(|p: &str| p@);
    let mut codes: Vec<u16> = Vec::new();
    let mut i: usize = 0;
    while i < parts.len()
        invariant
            names == parts@.map_values(|p: &str| p@),
            names == split_on(s@, '+'),
            i <= parts.len(),
            resolve_names(names.take(i as int)) == Some(codes@),
        decreases parts.len() - i,
    {
        assert(names.take(i + 1).drop_last() =~= names.take(i as int));
        let part = trim_str(parts[i]);
        match parse_key_name(part) {
            Some(k) => codes.push(k),
            None => {
                proof {
                    lemma_resolve_names_prefix(names, i as int + 1);
                }
                return None;
            },
        }
        i = i + 1;
    }
    assert(names.take(i as int) =~= names);
    Some(codes)
}

/// A name list whose prefix fails to resolve fails as a whole.
proof fn lemma_resolve_names_prefix(names: Seq<Seq<char>>, k: int)
    requires
        0 <= k <= names.len(),
        resolve_names(names.take(k)) is None,
    ensures
        resolve_names(names) is None,
    decreases names.len() - k,
{
    if k < names.len() {
        assert(names.take(k + 1).drop_last() =~= names.take(k));
        lemma_resolve_names_prefix(names, k + 1);
    } else {
        assert(names.take(k) =~= names);
    }
}

/// A combo list whose prefix fails to resolve fails as a whole.
proof fn lemma_resolve_combos_prefix(combos: Seq<Seq<char>>, k: int)
    requires
        0 <= k <= combos.len(),
        resolve_combos(combos.take(k)) is None,
    ensures
        resolve_combos(combos) is None,
    decreases combos.len() - k,
{
    if k < combos.len() {
        assert(combos.take(k + 1).drop_last() =~= combos.take(k));
        lemma_resolve_combos_prefix(combos, k + 1);
    } else {
        assert(combos.take(k) =~= combos);
    }
}

/// The key codes of every combo of `names`, in order.
pub fn combos_codes(names: &Vec<String>) -> (r: Option<Vec<Vec<u16>>>)
    ensures
        match r {
            Some(v) => resolve_combos(names@.map_values(|s: String| s@)) == Some(
                v@.map_values(|c: Vec<u16>| c@),
            ),
            None => resolve_combos(names@.map_values(|s: String| s@)) is None,
        },
{
    let ghost all = names@.map_values(|s: String| s@);
    let mut out: Vec<Vec<u16>> = Vec::new();
    let mut i: usize = 0;
    while i < names.len()
        invariant
            all == names@.map_values(|s: String| s@),
            i <= names.len(),
            resolve_combos(all.take(i as int)) == Some(out@.map_values(|c: Vec<u16>| c@)),
        decreases names.len() - i,
    {
        assert(all.take(i + 1).drop_last() =~= all.take(i as int));
        assert(all[i as int] == names[i as int]@);
        match combo_codes(names[i].as_str()) {
            Some(c) => {
                let ghost before = out@.map_values(|c: Vec<u16>| c@);
                let ghost cv = c@;
                out.push(c);
                assert(out@.map_values(|c: Vec<u16>| c@) =~= before.push(cv));
            },
            None => {
                proof {
                    lemma_resolve_combos_prefix(all, i as int + 1);
                }
                return None;
            },
        }
        i = i + 1;
    }
    assert(all.take(i as int) =~= all);
    Some(out)
}

impl MappingConfig {
    /// The mapping that `cfg` describes; fails on an unknown key name.
    pub fn from_config(cfg: &Config) -> (r: Result<MappingConfig, ConfigError>)
        ensures
            match r {
                Ok(m) => mapping_error(*cfg) is None && describes(m, *cfg),
                Err(e) => mapping_error(*cfg) == Some(e),
            },
    {
        let pen = parse_key_name(cfg.actions.pen.as_str());
        let stylus = parse_key_name(cfg.actions.stylus.as_str());
        let touch = parse_key_name(cfg.actions.pen_touch.as_str());
        let combos = combos_codes(&cfg.actions.tablet_buttons);
        match (pen, stylus, touch, combos) {
            (Some(pen_click_key), Some(stylus_key), Some(pen_touch_key), Some(tablet_button_combos)) => {
                Ok(MappingConfig {
                    pen_max_x: cfg.pen.max_x,
                    pen_max_y: cfg.pen.max_y,
                    pen_max_pressure: cfg.pen.max_pressure,
                    resolution_x: cfg.pen.resolution_x,
                    resolution_y: cfg.pen.resolution_y,
                    pen_click_key,
                    stylus_key,
                    pen_touch_key,
                    tablet_button_combos,
                    swap_axis: cfg.settings.swap_axis,
                    swap_direction_x: cfg.settings.swap_direction_x,
                    swap_direction_y: cfg.settings.swap_direction_y,
                })
            },
            _ => Err(ConfigError::UnknownKey),
        }
    }
}

} // verus!
