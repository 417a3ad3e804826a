//! Laws of the translator: pen transforms and button edges over runs of
//! packets.
use vstd::prelude::*;

use crate::config::Config;
use crate::keys::describes;
use crate::translator::{
    asserted_slots, is_button_report, is_pen_report, key_edges, missing_from, mirror, pen_event,
    reading, slot_edges, slot_keys, translate_packet, EmitCommand, MappingConfig,
};

verus! {

/// Mirroring a coordinate within `[0, max]` stays within `[0, max]`, and
/// mirroring twice gives the coordinate back.
pub proof fn lemma_mirror_involution(max: u32, v: int)
    requires
        0 <= v <= max,
    ensures
        0 <= mirror(max, v) <= max,
        v + mirror(max, v) == max,
        mirror(max, mirror(max, v)) == v,
{
}

/// Two mappings that agree on every field but the combos' containers.
pub open spec fn same_mapping(m1: MappingConfig, m2: MappingConfig) -> bool {
    &&& m1.pen_max_x == m2.pen_max_x
    &&& m1.pen_max_y == m2.pen_max_y
    &&& m1.combos() == m2.combos()
    &&& m1.swap_axis == m2.swap_axis
    &&& m1.swap_direction_x == m2.swap_direction_x
    &&& m1.swap_direction_y == m2.swap_direction_y
}

proof fn lemma_same_slot_edges(m1: MappingConfig, m2: MappingConfig, slots: Seq<usize>, pressed: bool)
    requires
        same_mapping(m1, m2),
    ensures
        slot_edges(m1, slots, pressed) == slot_edges(m2, slots, pressed),
    decreases slots.len(),
{
    if slots.len() > 0 {
        lemma_same_slot_edges(m1, m2, slots.drop_last(), pressed);
    }
}

/// Translation depends on the mapping's limits, combos and flags alone.
pub proof fn lemma_same_mapping_same_translation(
    m1: MappingConfig,
    m2: MappingConfig,
    pressed: Seq<usize>,
    p: Seq<u8>,
)
    requires
        same_mapping(m1, m2),
    ensures
        translate_packet(m1, pressed, p) == translate_packet(m2, pressed, p),
{
    if !is_pen_report(p) && is_button_report(p) {
        let current = asserted_slots(p[1], p[3]);
        lemma_same_slot_edges(m1, m2, missing_from(current, pressed), true);
        lemma_same_slot_edges(m1, m2, missing_from(pressed, current), false);
    }
}

/// Reconfiguring from a config, then from the same config with a flag
/// flipped, then from the config again, gives back the first translation:
/// every mapping that `update_from_config` can install for one config
/// translates every packet alike, whatever was installed in between.
pub proof fn lemma_reconfigure_round_trip(
    cfg: Config,
    first: MappingConfig,
    restored: MappingConfig,
    pressed: Seq<usize>,
    p: Seq<u8>,
)
    requires
        describes(first, cfg),
        describes(restored, cfg),
    ensures
        translate_packet(restored, pressed, p) == translate_packet(first, pressed, p),
{
    lemma_same_mapping_same_translation(restored, first, pressed, p);
}

/// Flipping the X mirror, with all else equal, turns a pen report's X into
/// `max_x` minus it (both within `[0, max_x]`) and keeps Y, pressure and
/// contact, provided the coordinate before mirroring is within `[0, max_x]`
/// and `max_x` fits a pen event.
pub proof fn lemma_mirror_x_flip(m1: MappingConfig, m2: MappingConfig, p: Seq<u8>)
    requires
        is_pen_report(p),
        m1.pen_max_x == m2.pen_max_x,
        m1.pen_max_y == m2.pen_max_y,
        m1.swap_axis == m2.swap_axis,
        m1.swap_direction_x == !m2.swap_direction_x,
        m1.swap_direction_y == m2.swap_direction_y,
        m1.pen_max_x <= i32::MAX,
        ({
            let x0 = if m1.swap_axis { reading(p[2], p[3]) } else { reading(p[4], p[5]) };
            0 <= x0 <= m1.pen_max_x
        }),
    ensures
        pen_event(m1, p)->Pen_x + pen_event(m2, p)->Pen_x == m1.pen_max_x,
        0 <= pen_event(m1, p)->Pen_x <= m1.pen_max_x,
        0 <= pen_event(m2, p)->Pen_x <= m1.pen_max_x,
        pen_event(m1, p)->Pen_y == pen_event(m2, p)->Pen_y,
        pen_event(m1, p)->Pen_pressure == pen_event(m2, p)->Pen_pressure,
        pen_event(m1, p)->Pen_touch == pen_event(m2, p)->Pen_touch,
{
}

proof fn lemma_push_contains<T>(s: Seq<T>, x: T, y: T)
    ensures
        s.push(x).contains(y) <==> (s.contains(y) || x == y),
{
    if s.push(x).contains(y) && x != y {
        let k = choose|k: int| 0 <= k < s.len() + 1 && s.push(x)[k] == y;
        assert(s[k] == y);
    }
    if s.contains(y) {
        let k = choose|k: int| 0 <= k < s.len() && s[k] == y;
        assert(s.push(x)[k] == y);
    }
    assert(s.push(x)[s.len() as int] == x);
}

/// `missing_from(a, b)` holds exactly the elements of `a` that `b` lacks.
pub proof fn lemma_missing_from_contains(a: Seq<usize>, b: Seq<usize>, i: usize)
    ensures
        missing_from(a, b).contains(i) <==> (a.contains(i) && !b.contains(i)),
    decreases a.len(),
{
    if a.len() > 0 {
        let a0 = a.drop_last();
        let l = a.last();
        lemma_missing_from_contains(a0, b, i);
        assert(a0.push(l) =~= a);
        lemma_push_contains(a0, l, i);
        lemma_push_contains(missing_from(a0, b), l, i);
    }
}

proof fn lemma_key_edges_contains(keys: Seq<u16>, pressed: bool, index: usize, e: EmitCommand)
    ensures
        key_edges(keys, pressed, index).contains(e) <==> exists|k: u16|
            keys.contains(k) && e == (EmitCommand::Btn { key: k as i32, pressed, index }),
{
    let edges = key_edges(keys, pressed, index);
    if edges.contains(e) {
        let j = choose|j: int| 0 <= j < edges.len() && edges[j] == e;
        assert(keys.contains(keys[j]));
    }
    if exists|k: u16| keys.contains(k) && e == (EmitCommand::Btn { key: k as i32, pressed, index }) {
        let k = choose|k: u16|
            keys.contains(k) && e == (EmitCommand::Btn { key: k as i32, pressed, index });
        let j = choose|j: int| 0 <= j < keys.len() && keys[j] == k;
        assert(edges[j] == e);
    }
}

/// The edges of a slot list carry the given direction, and hold an edge of
/// key `k` for slot `i` exactly when the list holds `i` and `k` is bound to it.
pub proof fn lemma_slot_edges_contains(
    m: MappingConfig,
    slots: Seq<usize>,
    pressed: bool,
    e: EmitCommand,
)
    ensures
        slot_edges(m, slots, pressed).contains(e) <==> exists|k: u16, i: usize|
            slots.contains(i) && slot_keys(m, i).contains(k) && e == (EmitCommand::Btn {
                key: k as i32,
                pressed,
                index: i,
            }),
    decreases slots.len(),
{
    if slots.len() > 0 {
        let init = slots.drop_last();
        let last = slots.last();
        lemma_slot_edges_contains(m, init, pressed, e);
        lemma_key_edges_contains(slot_keys(m, last), pressed, last, e);
        let a = slot_edges(m, init, pressed);
        let b = key_edges(slot_keys(m, last), pressed, last);
        let all = a + b;
        if all.contains(e) {
            let j = choose|j: int| 0 <= j < all.len() && all[j] == e;
            if j < a.len() {
                assert(a[j] == e);
                let (k, i) = choose|k: u16, i: usize|
                    init.contains(i) && slot_keys(m, i).contains(k) && e == (EmitCommand::Btn {
                        key: k as i32,
                        pressed,
                        index: i,
                    });
                let q = choose|q: int| 0 <= q < init.len() && init[q] == i;
                assert(slots[q] == i);
            } else {
                assert(b[j - a.len()] == e);
                assert(slots[slots.len() - 1] == last);
            }
        }
        if exists|k: u16, i: usize|
            slots.contains(i) && slot_keys(m, i).contains(k) && e == (EmitCommand::Btn {
                key: k as i32,
                pressed,
                index: i,
            }) {
            let (k, i) = choose|k: u16, i: usize|
                slots.contains(i) && slot_keys(m, i).contains(k) && e == (EmitCommand::Btn {
                    key: k as i32,
                    pressed,
                    index: i,
                });
            let q = choose|q: int| 0 <= q < slots.len() && slots[q] == i;
            if q < slots.len() - 1 {
                assert(init[q] == i);
                assert(a.contains(e));
                let j = choose|j: int| 0 <= j < a.len() && a[j] == e;
                assert(all[j] == e);
            } else {
                assert(b.contains(e));
                let j = choose|j: int| 0 <= j < b.len() && b[j] == e;
                assert(all[a.len() + j] == e);
            }
        }
    }
}

/// The slots held down before the `k`-th packet of a run that starts with
/// `pressed` held down.
pub open spec fn held_before(m: MappingConfig, pressed: Seq<usize>, packets: Seq<Seq<u8>>, k: int) -> Seq<
    usize,
>
    decreases k,
{
    if k <= 0 {
        pressed
    } else {
        translate_packet(m, held_before(m, pressed, packets, k - 1), packets[k - 1]).1
    }
}

/// The events of the `k`-th packet of a run.
pub open spec fn events_at(m: MappingConfig, pressed: Seq<usize>, packets: Seq<Seq<u8>>, k: int) -> Seq<
    EmitCommand,
> {
    translate_packet(m, held_before(m, pressed, packets, k), packets[k]).0
}

pub open spec fn button_edge(key: u16, pressed: bool, index: usize) -> EmitCommand {
    EmitCommand::Btn { key: key as i32, pressed, index }
}

proof fn lemma_edge_of_unique_slot(m: MappingConfig, slots: Seq<usize>, pressed: bool, key: u16, i: usize)
    ensures
        slot_edges(m, slots, pressed).contains(button_edge(key, pressed, i)) <==> (slots.contains(i)
            && slot_keys(m, i).contains(key)),
        !slot_edges(m, slots, pressed).contains(button_edge(key, !pressed, i)),
{
    lemma_slot_edges_contains(m, slots, pressed, button_edge(key, pressed, i));
    lemma_slot_edges_contains(m, slots, pressed, button_edge(key, !pressed, i));
    if slots.contains(i) && slot_keys(m, i).contains(key) {
        assert(button_edge(key, pressed, i) == (EmitCommand::Btn { key: key as i32, pressed, index: i }));
    }
}

/// On one button report: key `key` of slot `i` gets a press edge exactly
/// when the report asserts `i` and `i` was not held, and a release edge
/// exactly when `i` was held and the report no longer asserts it.
pub proof fn lemma_button_report_edges(
    m: MappingConfig,
    pressed: Seq<usize>,
    p: Seq<u8>,
    key: u16,
    i: usize,
)
    requires
        is_button_report(p),
        !is_pen_report(p),
    ensures
        ({
            let (events, after) = translate_packet(m, pressed, p);
            let current = asserted_slots(p[1], p[3]);
            &&& after == current
            &&& events.contains(button_edge(key, true, i)) <==> (current.contains(i)
                && !pressed.contains(i) && slot_keys(m, i).contains(key))
            &&& events.contains(button_edge(key, false, i)) <==> (pressed.contains(i)
                && !current.contains(i) && slot_keys(m, i).contains(key))
        }),
{
    let current = asserted_slots(p[1], p[3]);
    let downs = missing_from(current, pressed);
    let ups = missing_from(pressed, current);
    let a = slot_edges(m, downs, true);
    let b = slot_edges(m, ups, false);
    lemma_missing_from_contains(current, pressed, i);
    lemma_missing_from_contains(pressed, current, i);
    lemma_edge_of_unique_slot(m, downs, true, key, i);
    lemma_edge_of_unique_slot(m, ups, false, key, i);
    lemma_seq_concat_contains(a, b, button_edge(key, true, i));
    lemma_seq_concat_contains(a, b, button_edge(key, false, i));
}

proof fn lemma_seq_concat_contains<T>(a: Seq<T>, b: Seq<T>, x: T)
    ensures
        (a + b).contains(x) <==> (a.contains(x) || b.contains(x)),
{
    if (a + b).contains(x) {
        let j = choose|j: int| 0 <= j < (a + b).len() && (a + b)[j] == x;
        if j < a.len() {
            assert(a[j] == x);
        } else {
            assert(b[j - a.len()] == x);
        }
    }
    if a.contains(x) {
        let j = choose|j: int| 0 <= j < a.len() && a[j] == x;
        assert((a + b)[j] == x);
    }
    if b.contains(x) {
        let j = choose|j: int| 0 <= j < b.len() && b[j] == x;
        assert((a + b)[a.len() + j] == x);
    }
}

/// In a run of button reports, once slot `i` is held after packet `j` and
/// not held after packet `n`, some packet in between releases it.
proof fn lemma_exit_between(
    m: MappingConfig,
    pressed: Seq<usize>,
    packets: Seq<Seq<u8>>,
    key: u16,
    i: usize,
    j: int,
    n: int,
)
    requires
        forall|q: int| 0 <= q < packets.len() ==> is_button_report(#[trigger] packets[q]) && !is_pen_report(packets[q]),
        0 <= j < n < packets.len(),
        slot_keys(m, i).contains(key),
        held_before(m, pressed, packets, j + 1).contains(i),
        !held_before(m, pressed, packets, n + 1).contains(i),
    ensures
        exists|k: int| j < k <= n && #[trigger] events_at(m, pressed, packets, k).contains(button_edge(key, false, i)),
    decreases n - j,
{
    let k = j + 1;
    assert(is_button_report(packets[k]));
    lemma_button_report_edges(m, held_before(m, pressed, packets, k), packets[k], key, i);
    if !held_before(m, pressed, packets, k + 1).contains(i) {
        assert(events_at(m, pressed, packets, k).contains(button_edge(key, false, i)));
    } else {
        lemma_exit_between(m, pressed, packets, key, i, k, n);
    }
}

/// Button edges over a run of button reports: at each packet, key `key` of
/// slot `i` is pressed exactly when `i` enters the asserted set and released
/// exactly when it leaves it; and two presses of it are always separated by
/// a release, so no press comes while it is already held.
pub proof fn lemma_button_edges_alternate(
    m: MappingConfig,
    pressed: Seq<usize>,
    packets: Seq<Seq<u8>>,
    key: u16,
    i: usize,
    k1: int,
    k2: int,
)
    requires
        forall|q: int| 0 <= q < packets.len() ==> is_button_report(#[trigger] packets[q]) && !is_pen_report(packets[q]),
        0 <= k1 < k2 < packets.len(),
    ensures
        ({
            let held = held_before(m, pressed, packets, k1);
            let current = asserted_slots(packets[k1][1], packets[k1][3]);
            &&& held_before(m, pressed, packets, k1 + 1) == current
            &&& events_at(m, pressed, packets, k1).contains(button_edge(key, true, i)) <==> (
            current.contains(i) && !held.contains(i) && slot_keys(m, i).contains(key))
            &&& events_at(m, pressed, packets, k1).contains(button_edge(key, false, i)) <==> (
            held.contains(i) && !current.contains(i) && slot_keys(m, i).contains(key))
        }),
        events_at(m, pressed, packets, k1).contains(button_edge(key, true, i)) && events_at(
            m,
            pressed,
            packets,
            k2,
        ).contains(button_edge(key, true, i)) ==> exists|k: int|
            k1 < k < k2 && #[trigger] events_at(m, pressed, packets, k).contains(button_edge(key, false, i)),
{
    assert(is_button_report(packets[k1]));
    assert(is_button_report(packets[k2]));
    lemma_button_report_edges(m, held_before(m, pressed, packets, k1), packets[k1], key, i);
    lemma_button_report_edges(m, held_before(m, pressed, packets, k2), packets[k2], key, i);
    if events_at(m, pressed, packets, k1).contains(button_edge(key, true, i)) && events_at(
        m,
        pressed,
        packets,
        k2,
    ).contains(button_edge(key, true, i)) {
        assert(held_before(m, pressed, packets, k1 + 1).contains(i));
        assert(!held_before(m, pressed, packets, k2).contains(i));
        lemma_exit_between(m, pressed, packets, key, i, k1, k2 - 1);
    }
}

} // verus!
