//! Packet translation: raw tablet reports to pen motion and button edges.
use vstd::prelude::*;

use crate::config::Config;
use crate::keys::{describes, mapping_error, ConfigError};

verus! {

/// Button slot of the stylus's first side button.
pub const STYLUS_PRIMARY_INDEX: usize = 5000;

/// Button slot of the stylus's second side button.
pub const STYLUS_SECONDARY_INDEX: usize = 5001;

/// Linux input code of `BTN_STYLUS`.
pub const BTN_STYLUS_CODE: u16 = 0x14b;

/// Linux input code of `BTN_STYLUS2`.
pub const BTN_STYLUS2_CODE: u16 = 0x14c;

/// A semantic event decoded from one packet.
#[derive(Debug, Clone, Copy, PartialEq, Eq, Structural)]
pub enum EmitCommand {
    /// Pen position, pressure and contact.
    Pen { x: i32, y: i32, pressure: i32, touch: bool },
    /// A press or release edge of one logical key, caused by button slot `index`.
    Btn { key: i32, pressed: bool, index: usize },
}

/// The mapping a translator applies: pen limits, resolved key codes and the
/// axis transform flags.
#[derive(Debug, Clone)]
pub struct MappingConfig {
    pub pen_max_x: u32,
    pub pen_max_y: u32,
    pub pen_max_pressure: u32,
    pub resolution_x: u32,
    pub resolution_y: u32,
    pub pen_click_key: u16,
    pub stylus_key: u16,
    pub pen_touch_key: u16,
    /// Key combo of each physical tablet button, by button slot.
    pub tablet_button_combos: Vec<Vec<u16>>,
    pub swap_axis: bool,
    pub swap_direction_x: bool,
    pub swap_direction_y: bool,
}

impl MappingConfig {
    pub open spec fn combos(&self) -> Seq<Seq<u16>> {
        self.tablet_button_combos@.map_values(|c: Vec<u16>| c@)
    }
}

/// The device's correlation table: `(byte[1], byte[3])` of a button report,
/// and the button slot that pair asserts.
pub open spec fn button_table() -> Seq<(u8, u8, usize)> {
    seq![
        (1u8, 28u8, STYLUS_PRIMARY_INDEX),
        (1u8, 29u8, STYLUS_SECONDARY_INDEX),
        (1u8, 86u8, 0usize),
        (1u8, 87u8, 1usize),
        (0u8, 47u8, 2usize),
        (0u8, 48u8, 3usize),
        (0u8, 43u8, 4usize),
        (0u8, 44u8, 5usize),
        (1u8, 0u8, 6usize),
        (4u8, 0u8, 7usize),
    ]
}

/// Slots of the entries of `t` that match `(b1, b3)`, in table order.
pub open spec fn matching_slots(t: Seq<(u8, u8, usize)>, b1: u8, b3: u8) -> Seq<usize>
    decreases t.len(),
{
    if t.len() == 0 {
        seq![]
    } else {
        let rest = matching_slots(t.drop_last(), b1, b3);
        if t.last().0 == b1 && t.last().1 == b3 {
            rest.push(t.last().2)
        } else {
            rest
        }
    }
}

/// Button slots asserted by a button report with the given bytes 1 and 3.
pub open spec fn asserted_slots(b1: u8, b3: u8) -> Seq<usize> {
    matching_slots(button_table(), b1, b3)
}

/// The elements of `a` that `b` does not hold, in the order of `a`.
pub open spec fn missing_from(a: Seq<usize>, b: Seq<usize>) -> Seq<usize>
    decreases a.len(),
{
    if a.len() == 0 {
        seq![]
    } else {
        let rest = missing_from(a.drop_last(), b);
        if b.contains(a.last()) {
            rest
        } else {
            rest.push(a.last())
        }
    }
}

/// The key codes bound to a button slot: a fixed key for each stylus slot,
/// the configured combo for a tablet button, nothing for an unmapped slot.
pub open spec fn slot_keys(m: MappingConfig, index: usize) -> Seq<u16> {
    if index == STYLUS_PRIMARY_INDEX {
        seq![BTN_STYLUS_CODE]
    } else if index == STYLUS_SECONDARY_INDEX {
        seq![BTN_STYLUS2_CODE]
    } else if index >= STYLUS_PRIMARY_INDEX {
        seq![]
    } else if index < m.combos().len() {
        m.combos()[index as int]
    } else {
        seq![]
    }
}

/// One edge per key of `keys`, all caused by slot `index`.
pub open spec fn key_edges(keys: Seq<u16>, pressed: bool, index: usize) -> Seq<EmitCommand> {
    keys.map_values(|k: u16| EmitCommand::Btn { key: k as i32, pressed, index })
}

/// The edges of every slot of `slots`, slot after slot.
pub open spec fn slot_edges(m: MappingConfig, slots: Seq<usize>, pressed: bool) -> Seq<EmitCommand>
    decreases slots.len(),
{
    if slots.len() == 0 {
        seq![]
    } else {
        slot_edges(m, slots.drop_last(), pressed) + key_edges(
            slot_keys(m, slots.last()),
            pressed,
            slots.last(),
        )
    }
}

/// A 16-bit reading as the device encodes it: high byte times 255 plus low byte.
pub open spec fn reading(lo: u8, hi: u8) -> int {
    hi as int * 255 + lo as int
}

/// Reflection of a coordinate within `[0, max]`.
pub open spec fn mirror(max: u32, v: int) -> int {
    max as int - v
}

/// Pen position after the transforms, in order: axis swap, X mirror, Y mirror.
pub open spec fn transform(
    raw_x: int,
    raw_y: int,
    max_x: u32,
    max_y: u32,
    swap_axis: bool,
    swap_direction_x: bool,
    swap_direction_y: bool,
) -> (int, int) {
    let x = if swap_axis { raw_y } else { raw_x };
    let y = if swap_axis { raw_x } else { raw_y };
    let x = if swap_direction_x { mirror(max_x, x) } else { x };
    let y = if swap_direction_y { mirror(max_y, y) } else { y };
    (x, y)
}

pub open spec fn pen_position(m: MappingConfig, p: Seq<u8>) -> (int, int) {
    transform(
        reading(p[4], p[5]),
        reading(p[2], p[3]),
        m.pen_max_x,
        m.pen_max_y,
        m.swap_axis,
        m.swap_direction_x,
        m.swap_direction_y,
    )
}

pub open spec fn is_pen_report(p: Seq<u8>) -> bool {
    p.len() >= 8 && (p[1] == 192 || p[1] == 193)
}

pub open spec fn is_button_report(p: Seq<u8>) -> bool {
    p.len() >= 8 && p[0] == 2
}

/// A coordinate as pen events carry it: saturated to the `i32` range (only
/// a mirror against a limit above `i32::MAX` can leave it).
pub open spec fn coordinate(v: int) -> i32 {
    if v > i32::MAX {
        i32::MAX
    } else if v < i32::MIN {
        i32::MIN
    } else {
        v as i32
    }
}

/// The single event of a pen report.
pub open spec fn pen_event(m: MappingConfig, p: Seq<u8>) -> EmitCommand {
    EmitCommand::Pen {
        x: coordinate(pen_position(m, p).0),
        y: coordinate(pen_position(m, p).1),
        pressure: reading(p[6], p[7]) as i32,
        touch: p[1] != 192,
    }
}

/// Events of one packet under mapping `m` with slots `pressed` held down, and
/// the slots held down afterwards.
pub open spec fn translate_packet(m: MappingConfig, pressed: Seq<usize>, p: Seq<u8>) -> (
    Seq<EmitCommand>,
    Seq<usize>,
) {
    if is_pen_report(p) {
        (seq![pen_event(m, p)], pressed)
    } else if is_button_report(p) {
        let current = asserted_slots(p[1], p[3]);
        (
            slot_edges(m, missing_from(current, pressed), true) + slot_edges(
                m,
                missing_from(pressed, current),
                false,
            ),
            current,
        )
    } else {
        (seq![], pressed)
    }
}

fn button_mapping() -> (r: Vec<(u8, u8, usize)>)
    ensures
        r@ == button_table(),
{
    let r = vec![
        (1u8, 28u8, STYLUS_PRIMARY_INDEX),
        (1u8, 29u8, STYLUS_SECONDARY_INDEX),
        (1u8, 86u8, 0usize),
        (1u8, 87u8, 1usize),
        (0u8, 47u8, 2usize),
        (0u8, 48u8, 3usize),
        (0u8, 43u8, 4usize),
        (0u8, 44u8, 5usize),
        (1u8, 0u8, 6usize),
        (4u8, 0u8, 7usize),
    ];
    assert(r@ =~= button_table());
    r
}

/// Button slots asserted by a button report with bytes 1 and 3 equal to `b1`, `b3`.
pub fn asserted_indices(b1: u8, b3: u8) -> (r: Vec<usize>)
    ensures
        r@ == asserted_slots(b1, b3),
{
    let table = button_mapping();
    let mut r: Vec<usize> = Vec::new();
    let mut i: usize = 0;
    while i < table.len()
        invariant
            table@ == button_table(),
            i <= table.len(),
            r@ == matching_slots(table@.take(i as int), b1, b3),
        decreases table.len() - i,
    {
        assert(table@.take(i + 1).drop_last() =~= table@.take(i as int));
        let (t1, t3, slot) = table[i];
        if t1 == b1 && t3 == b3 {
            r.push(slot);
        }
        i = i + 1;
    }
    assert(table@.take(i as int) =~= table@);
    r
}

fn contains_index(v: &Vec<usize>, x: usize) -> (r: bool)
    ensures
        r == v@.contains(x),
{
    let mut i: usize = 0;
    while i < v.len()
        invariant
            i <= v.len(),
            forall|j: int| 0 <= j < i ==> v@[j] != x,
        decreases v.len() - i,
    {
        if v[i] == x {
            return true;
        }
        i = i + 1;
    }
    false
}

/// The elements of `a` that `b` does not hold, in the order of `a`.
pub fn missing_indices(a: &Vec<usize>, b: &Vec<usize>) -> (r: Vec<usize>)
    ensures
        r@ == missing_from(a@, b@),
{
    let mut r: Vec<usize> = Vec::new();
    let mut i: usize = 0;
    while i < a.len()
        invariant
            i <= a.len(),
            r@ == missing_from(a@.take(i as int), b@),
        decreases a.len() - i,
    {
        assert(a@.take(i + 1).drop_last() =~= a@.take(i as int));
        if !contains_index(b, a[i]) {
            r.push(a[i]);
        }
        i = i + 1;
    }
    assert(a@.take(i as int) =~= a@);
    r
}

/// Turns raw packets into semantic events; implemented by each device model.
pub trait Translator: Sized {
    /// What `conv` promises: `r` is what `self` gives for packet `buf`, and
    /// `after` is the translator afterwards.
    spec fn conv_post(&self, buf: Seq<u8>, r: Seq<EmitCommand>, after: Self) -> bool;

    /// What `update_from_config` promises: `after` is `self` reconfigured
    /// from `cfg`, with outcome `r`.
    spec fn update_post(&self, cfg: Config, r: Result<(), ConfigError>, after: Self) -> bool;

    /// Events of one packet.
    fn conv(&mut self, buf: &Vec<u8>) -> (r: Vec<EmitCommand>)
        ensures
            old(self).conv_post(buf@, r@, *final(self)),
    ;

    /// Replaces the translation settings from a configuration document.
    fn update_from_config(&mut self, cfg: &Config) -> (r: Result<(), ConfigError>)
        ensures
            old(self).update_post(*cfg, r, *final(self)),
    ;
}

fn saturate_i32(v: i64) -> (r: i32)
    ensures
        r == coordinate(v as int),
{
    if v > i32::MAX as i64 {
        i32::MAX
    } else if v < i32::MIN as i64 {
        i32::MIN
    } else {
        v as i32
    }
}

/// At most one entry of the device's table matches a given byte pair.
proof fn lemma_asserted_distinct(b1: u8, b3: u8)
    ensures
        asserted_slots(b1, b3).len() <= 1,
        asserted_slots(b1, b3).no_duplicates(),
{
    reveal_with_fuel(matching_slots, 11);
}

/// Translator for the M100 tablet's wire format.
pub struct TabletM100Translator {
    mapping: MappingConfig,
    /// Button slots held down after the last button report.
    pressed_keys: Vec<usize>,
}

impl TabletM100Translator {
    #[verifier::type_invariant]
    spec fn inv(&self) -> bool {
        self.pressed_keys@.no_duplicates()
    }

    /// The mapping in force.
    pub closed spec fn mapping(&self) -> MappingConfig {
        self.mapping
    }

    /// The button slots held down.
    pub closed spec fn pressed(&self) -> Seq<usize> {
        self.pressed_keys@
    }

    /// A translator with mapping `m` and no button held down.
    pub fn from_mapping(m: MappingConfig) -> (r: Self)
        ensures
            r.mapping() == m,
            r.pressed() == Seq::<usize>::empty(),
    {
        TabletM100Translator { mapping: m, pressed_keys: Vec::new() }
    }

    /// Replaces the whole mapping in one step; the button state is kept.
    pub fn reconfigure(&mut self, m: MappingConfig)
        ensures
            final(self).mapping() == m,
            final(self).pressed() == old(self).pressed(),
    {
        proof {
            use_type_invariant(&*self);
        }
        self.mapping = m;
    }

    /// The mapping in force.
    pub fn mapping_config(&self) -> (r: &MappingConfig)
        ensures
            *r == self.mapping(),
    {
        &self.mapping
    }

    /// The key combo of each tablet button in the mapping in force.
    pub fn action_tablet_buttons(&self) -> (r: &Vec<Vec<u16>>)
        ensures
            r@.map_values(|c: Vec<u16>| c@) == self.mapping().combos(),
    {
        &self.mapping.tablet_button_combos
    }

    /// The button slots held down.
    pub fn pressed_slots(&self) -> (r: &Vec<usize>)
        ensures
            r@ == self.pressed(),
            r@.no_duplicates(),
    {
        proof {
            use_type_invariant(self);
        }
        &self.pressed_keys
    }

    fn pen_command(&self, buf: &Vec<u8>) -> (r: EmitCommand)
        requires
            is_pen_report(buf@),
        ensures
            r == pen_event(self.mapping(), buf@),
    {
        let raw_x: i32 = buf[5] as i32 * 255 + buf[4] as i32;
        let raw_y: i32 = buf[3] as i32 * 255 + buf[2] as i32;
        let pressure: i32 = buf[7] as i32 * 255 + buf[6] as i32;
        let mut x: i64 = raw_x as i64;
        let mut y: i64 = raw_y as i64;
        if self.mapping.swap_axis {
            let t = x;
            x = y;
            y = t;
        }
        if self.mapping.swap_direction_x {
            x = self.mapping.pen_max_x as i64 - x;
        }
        if self.mapping.swap_direction_y {
            y = self.mapping.pen_max_y as i64 - y;
        }
        let x = saturate_i32(x);
        let y = saturate_i32(y);
        EmitCommand::Pen { x, y, pressure, touch: buf[1] != 192 }
    }

    fn push_slot_edges(&self, out: &mut Vec<EmitCommand>, slots: &Vec<usize>, pressed: bool)
        ensures
            final(out)@ == old(out)@ + slot_edges(self.mapping(), slots@, pressed),
    {
        let ghost m = self.mapping();
        let ghost start = old(out)@;
        let mut i: usize = 0;
        while i < slots.len()
            invariant
                m == self.mapping(),
                i <= slots.len(),
                out@ == start + slot_edges(m, slots@.take(i as int), pressed),
            decreases slots.len() - i,
        {
            let index = slots[i];
            assert(slots@.take(i + 1).drop_last() =~= slots@.take(i as int));
            let ghost before = out@;
            if index == STYLUS_PRIMARY_INDEX {
                out.push(EmitCommand::Btn { key: BTN_STYLUS_CODE as i32, pressed, index });
                assert(out@ =~= before + key_edges(slot_keys(m, index), pressed, index));
            } else if index == STYLUS_SECONDARY_INDEX {
                out.push(EmitCommand::Btn { key: BTN_STYLUS2_CODE as i32, pressed, index });
                assert(out@ =~= before + key_edges(slot_keys(m, index), pressed, index));
            } else if index < STYLUS_PRIMARY_INDEX && index < self.mapping.tablet_button_combos.len() {
                let keys = &self.mapping.tablet_button_combos[index];
                assert(keys@ == slot_keys(m, index));
                let mut j: usize = 0;
                while j < keys.len()
                    invariant
                        j <= keys.len(),
                        out@ == before + key_edges(keys@.take(j as int), pressed, index),
                    decreases keys.len() - j,
                {
                    out.push(EmitCommand::Btn { key: keys[j] as i32, pressed, index });
                    assert(key_edges(keys@.take(j + 1), pressed, index) =~= key_edges(
                        keys@.take(j as int),
                        pressed,
                        index,
                    ).push(EmitCommand::Btn { key: keys@[j as int] as i32, pressed, index }));
                    j = j + 1;
                }
                assert(keys@.take(j as int) =~= keys@);
            } else {
                assert(out@ =~= before + key_edges(slot_keys(m, index), pressed, index));
            }
            i = i + 1;
        }
        assert(slots@.take(i as int) =~= slots@);
    }

    /// Events of one packet. A pen report gives exactly one pen event; a
    /// button report gives a press edge for each key of each newly asserted
    /// slot, then a release edge for each key of each slot no longer
    /// asserted, and the asserted slots become the held-down set; any other
    /// packet gives nothing.
    pub fn translate(&mut self, buf: &Vec<u8>) -> (r: Vec<EmitCommand>)
        ensures
            (r@, final(self).pressed()) == translate_packet(old(self).mapping(), old(self).pressed(), buf@),
            final(self).mapping() == old(self).mapping(),
            is_pen_report(buf@) ==> r@.len() == 1 && r@[0] is Pen && r@[0]->Pen_touch == (buf@[1] != 192),
    {
        proof {
            use_type_invariant(&*self);
        }
        let mut out: Vec<EmitCommand> = Vec::new();
        if buf.len() >= 8 && (buf[1] == 192 || buf[1] == 193) {
            let e = self.pen_command(buf);
            out.push(e);
            assert(out@ =~= seq![pen_event(self.mapping(), buf@)]);
        } else if buf.len() >= 8 && buf[0] == 2 {
            let current = asserted_indices(buf[1], buf[3]);
            let pressed_now = missing_indices(&current, &self.pressed_keys);
            let released_now = missing_indices(&self.pressed_keys, &current);
            self.push_slot_edges(&mut out, &pressed_now, true);
            self.push_slot_edges(&mut out, &released_now, false);
            assert(out@ =~= slot_edges(self.mapping(), pressed_now@, true) + slot_edges(
                self.mapping(),
                released_now@,
                false,
            ));
            proof {
                lemma_asserted_distinct(buf@[1], buf@[3]);
            }
            self.pressed_keys = current;
        }
        out
    }
}

impl TabletM100Translator {
    /// A translator for the mapping that `cfg` describes, with no button held down.
    pub fn new(cfg: &Config) -> (r: Result<Self, ConfigError>)
        ensures
            match r {
                Ok(t) => mapping_error(*cfg) is None && describes(t.mapping(), *cfg) && t.pressed()
                    == Seq::<usize>::empty(),
                Err(e) => mapping_error(*cfg) == Some(e),
            },
    {
        match MappingConfig::from_config(cfg) {
            Ok(m) => Ok(Self::from_mapping(m)),
            Err(e) => Err(e),
        }
    }

    /// Replaces the mapping with the one `cfg` describes, in one step; on
    /// error nothing changes. The button state is kept.
    pub fn update_from_config(&mut self, cfg: &Config) -> (r: Result<(), ConfigError>)
        ensures
            final(self).pressed() == old(self).pressed(),
            match r {
                Ok(()) => mapping_error(*cfg) is None && describes(final(self).mapping(), *cfg),
                Err(e) => mapping_error(*cfg) == Some(e) && final(self).mapping() == old(self).mapping(),
            },
    {
        match MappingConfig::from_config(cfg) {
            Ok(m) => {
                self.reconfigure(m);
                Ok(())
            },
            Err(e) => Err(e),
        }
    }
}

impl Translator for TabletM100Translator {
    open spec fn conv_post(&self, buf: Seq<u8>, r: Seq<EmitCommand>, after: Self) -> bool {
        &&& (r, after.pressed()) == translate_packet(self.mapping(), self.pressed(), buf)
        &&& after.mapping() == self.mapping()
    }

    open spec fn update_post(&self, cfg: Config, r: Result<(), ConfigError>, after: Self) -> bool {
        &&& after.pressed() == self.pressed()
        &&& match r {
            Ok(()) => mapping_error(cfg) is None && describes(after.mapping(), cfg),
            Err(e) => mapping_error(cfg) == Some(e) && after.mapping() == self.mapping(),
        }
    }

    fn conv(&mut self, buf: &Vec<u8>) -> (r: Vec<EmitCommand>) {
        self.translate(buf)
    }

    fn update_from_config(&mut self, cfg: &Config) -> (r: Result<(), ConfigError>) {
        TabletM100Translator::update_from_config(self, cfg)
    }
}

} // verus!
