//! What the winding layout guarantees, over every valid machine.

use vstd::prelude::*;

use crate::config::{MotorConfig, belt_count, spec_is_valid, spec_q, spec_slots_per_pole};
use crate::winding::packing::{SlotPacking, spec_packing};
use crate::winding_scheme::winding_function_at;
use crate::winding::{
    Conductor,
    Direction,
    SlotAssignment,
    belt_assignment,
    belt_direction,
    belt_phase,
    belt_position,
    conductor_side,
    conductors_upto,
    lemma_belt_slot,
    slot_conductors,
    spec_coil_pitch,
    spec_conductors,
    spec_starts_coil,
    spec_winding,
};

verus! {

/// Shifting a belt position by `m` keeps the phase and flips the direction.
proof fn lemma_belt_shift(m: int, ke: int)
    requires
        m > 0,
        0 <= ke < 2 * m,
    ensures
        belt_phase(m, (ke + m) % (2 * m)) == belt_phase(m, ke),
        belt_direction(m, (ke + m) % (2 * m)) == belt_direction(m, ke).flipped(),
        0 <= belt_phase(m, ke) < m,
{
    let ks = (ke + m) % (2 * m);
    if ke < m {
        vstd::arithmetic::div_mod::lemma_small_mod((ke + m) as nat, (2 * m) as nat);
        assert(ks == ke + m);
    } else {
        vstd::arithmetic::div_mod::lemma_mod_sub_multiples_vanish(ke + m, 2 * m);
        vstd::arithmetic::div_mod::lemma_small_mod((ke - m) as nat, (2 * m) as nat);
        assert(ks == ke - m);
    }
    if m % 2 == 1 {
        if ke % 2 == 0 {
            if ke < m {
                assert(ks % 2 == 1);
                assert((ks - m) / 2 == ke / 2);
                vstd::arithmetic::div_mod::lemma_small_mod((ke / 2) as nat, m as nat);
            } else {
                assert(ks % 2 == 1);
                assert((ks - m) / 2 == ke / 2 - m);
                vstd::arithmetic::div_mod::lemma_mod_add_multiples_vanish(ke / 2 - m, m);
                vstd::arithmetic::div_mod::lemma_small_mod((ke / 2) as nat, m as nat);
            }
        } else {
            let h = (ke - m) / 2;
            assert((ke - m) % 2 == 0);
            if ke < m {
                assert(ks % 2 == 0);
                assert(ks / 2 == h + m);
                vstd::arithmetic::div_mod::lemma_mod_add_multiples_vanish(h, m);
                vstd::arithmetic::div_mod::lemma_small_mod((h + m) as nat, m as nat);
            } else {
                assert(ks % 2 == 0);
                assert(ks / 2 == h);
                vstd::arithmetic::div_mod::lemma_small_mod(h as nat, m as nat);
            }
        }
    }
}

/// Arithmetic of a valid machine: `n = 2·p·m·q` and a pole spans `m·q` slots.
proof fn lemma_valid_shape(config: MotorConfig)
    requires
        spec_is_valid(config),
    ensures
        spec_q(config) >= 1,
        config.groove_count == belt_count(config) * spec_q(config),
        spec_slots_per_pole(config) == config.phases * spec_q(config),
        spec_slots_per_pole(config) < config.groove_count,
        spec_slots_per_pole(config) >= 1,
        config.groove_count == 2 * config.pole_pairs * spec_slots_per_pole(config),
{
    let n = config.groove_count as int;
    let m = config.phases as int;
    let p = config.pole_pairs as int;
    let b = belt_count(config);
    let q = spec_q(config);
    assert(b > 0) by (nonlinear_arith)
        requires
            m > 0,
            p > 0,
            b == 2 * p * m,
    ;
    vstd::arithmetic::div_mod::lemma_fundamental_div_mod(n, b);
    assert(n == b * q);
    assert(b == (2 * p) * m) by (nonlinear_arith)
        requires
            b == 2 * p * m,
    ;
    assert(n == (2 * p) * (m * q)) by (nonlinear_arith)
        requires
            n == b * q,
            b == (2 * p) * m,
    ;
    assert(2 * p > 0);
    vstd::arithmetic::div_mod::lemma_div_multiples_vanish(m * q, 2 * p);
    assert(spec_slots_per_pole(config) == m * q);
    assert(q >= 1) by (nonlinear_arith)
        requires
            n == b * q,
            n >= b,
            b > 0,
    ;
    assert(m * q >= 1) by (nonlinear_arith)
        requires
            m >= 1,
            q >= 1,
    ;
    assert(m * q < n) by (nonlinear_arith)
        requires
            n == (2 * p) * (m * q),
            p >= 1,
            m * q >= 1,
    ;
}

/// Consecutive poles carry the same phases with reversed polarity: the slot
/// one pole pitch (`S/(2p)` slots) further on has the same phase and the
/// opposite current direction.
pub proof fn lemma_winding_alternates_by_pole(config: MotorConfig, slot: int)
    requires
        spec_is_valid(config),
        0 <= slot < config.groove_count,
    ensures
        ({
            let n = config.groove_count as int;
            let w = spec_winding(config);
            let shifted = (slot + spec_slots_per_pole(config)) % n;
            &&& w[slot] is Some
            &&& w[shifted] is Some
            &&& w[shifted]->Some_0.phase == w[slot]->Some_0.phase
            &&& w[shifted]->Some_0.direction == w[slot]->Some_0.direction.flipped()
            &&& w[slot]->Some_0.phase < config.phases
        }),
{
    lemma_valid_shape(config);
    let n = config.groove_count as int;
    let m = config.phases as int;
    let p = config.pole_pairs as int;
    let q = spec_q(config);
    let spp = spec_slots_per_pole(config);
    let k = slot / q;
    let r = slot % q;
    vstd::arithmetic::div_mod::lemma_fundamental_div_mod(slot, q);
    let shifted = (slot + spp) % n;
    // (slot + m·q) / q == k + m
    assert(slot + spp == (k + m) * q + r) by (nonlinear_arith)
        requires
            slot == q * k + r,
            spp == m * q,
    ;
    vstd::arithmetic::div_mod::lemma_mod_bound(slot, q);
    let ke = k % (2 * m);
    vstd::arithmetic::div_mod::lemma_mod_bound(k, 2 * m);
    if slot + spp < n {
        vstd::arithmetic::div_mod::lemma_small_mod((slot + spp) as nat, n as nat);
        vstd::arithmetic::div_mod::lemma_fundamental_div_mod_converse(slot + spp, q, k + m, r);
        assert(shifted / q == k + m);
        vstd::arithmetic::div_mod::lemma_add_mod_noop(k, m, 2 * m);
        vstd::arithmetic::div_mod::lemma_small_mod(m as nat, (2 * m) as nat);
        assert((k + m) % (2 * m) == (ke + m) % (2 * m));
    } else {
        assert(slot + spp < 2 * n) by (nonlinear_arith)
            requires
                slot < n,
                spp < n,
        ;
        vstd::arithmetic::div_mod::lemma_mod_sub_multiples_vanish(slot + spp, n);
        vstd::arithmetic::div_mod::lemma_small_mod((slot + spp - n) as nat, n as nat);
        assert(shifted == slot + spp - n);
        let k2 = k + m - 2 * p * m;
        assert(slot + spp - n == k2 * q + r) by (nonlinear_arith)
            requires
                slot + spp == (k + m) * q + r,
                n == 2 * p * m * q,
                k2 == k + m - 2 * p * m,
        ;
        assert(k2 >= 0) by (nonlinear_arith)
            requires
                slot + spp - n == k2 * q + r,
                slot + spp - n >= 0,
                r < q,
                q >= 1,
        ;
        vstd::arithmetic::div_mod::lemma_fundamental_div_mod_converse(slot + spp - n, q, k2, r);
        assert(shifted / q == k2);
        assert(k2 == (k + m) + (2 * m) * (-p)) by (nonlinear_arith)
            requires
                k2 == k + m - 2 * p * m,
        ;
        vstd::arithmetic::div_mod::lemma_mod_multiples_vanish(-p, k + m, 2 * m);
        vstd::arithmetic::div_mod::lemma_add_mod_noop(k, m, 2 * m);
        vstd::arithmetic::div_mod::lemma_small_mod(m as nat, (2 * m) as nat);
        assert(k2 % (2 * m) == (ke + m) % (2 * m));
    }
    assert(belt_position(config, shifted) == (ke + m) % (2 * m));
    assert(belt_position(config, slot) == ke);
    lemma_belt_shift(m, ke);
}

/// Stepping forward by `d` and back again (or back and forward) around `n`
/// slots returns to the start.
proof fn lemma_mod_round_trip(s: int, d: int, n: int)
    requires
        0 <= s < n,
        0 <= d < n,
    ensures
        (((s + d) % n) + n - d) % n == s,
        (((s + n - d) % n) + d) % n == s,
        0 <= (s + d) % n < n,
        0 <= (s + n - d) % n < n,
{
    if s + d < n {
        vstd::arithmetic::div_mod::lemma_small_mod((s + d) as nat, n as nat);
        vstd::arithmetic::div_mod::lemma_mod_add_multiples_vanish(s, n);
        vstd::arithmetic::div_mod::lemma_small_mod(s as nat, n as nat);
    } else {
        vstd::arithmetic::div_mod::lemma_mod_sub_multiples_vanish(s + d, n);
        vstd::arithmetic::div_mod::lemma_small_mod((s + d - n) as nat, n as nat);
        vstd::arithmetic::div_mod::lemma_small_mod(s as nat, n as nat);
    }
    if s >= d {
        vstd::arithmetic::div_mod::lemma_mod_add_multiples_vanish(s - d, n);
        vstd::arithmetic::div_mod::lemma_small_mod((s - d) as nat, n as nat);
        vstd::arithmetic::div_mod::lemma_small_mod(s as nat, n as nat);
    } else {
        vstd::arithmetic::div_mod::lemma_small_mod((s + n - d) as nat, n as nat);
        vstd::arithmetic::div_mod::lemma_mod_add_multiples_vanish(s, n);
        vstd::arithmetic::div_mod::lemma_small_mod(s as nat, n as nat);
    }
}

/// The conductor the packing puts at `index` of a fully assigned `slot`.
pub open spec fn expected_conductor(
    assignments: Seq<Option<SlotAssignment>>,
    n: int,
    pitch: int,
    packing: crate::winding::SlotPacking,
    slot: int,
    index: int,
) -> Conductor {
    let layer = packing.spec_layer_of(index);
    let a = conductor_side(assignments, n, pitch, slot, layer as int)->Some_0;
    Conductor {
        slot: slot as usize,
        index: index as usize,
        layer,
        phase: a.phase,
        direction: a.direction,
    }
}

/// With every slot assigned, a slot contributes one conductor per packing
/// position, in order.
proof fn lemma_slot_conductors_full(
    assignments: Seq<Option<SlotAssignment>>,
    n: int,
    pitch: int,
    packing: crate::winding::SlotPacking,
    slot: int,
    upto: nat,
)
    requires
        0 <= pitch < n,
        0 <= slot < n,
        n <= usize::MAX,
        upto <= packing.count,
        assignments.len() == n,
        forall|s: int| 0 <= s < n ==> (#[trigger] assignments[s]) is Some,
    ensures
        slot_conductors(assignments, n, pitch, packing, slot, upto).len() == upto,
        forall|i: int|
            0 <= i < upto ==> #[trigger] slot_conductors(
                assignments,
                n,
                pitch,
                packing,
                slot,
                upto,
            )[i] == expected_conductor(assignments, n, pitch, packing, slot, i),
    decreases upto,
{
    if upto > 0 {
        lemma_slot_conductors_full(assignments, n, pitch, packing, slot, (upto - 1) as nat);
        lemma_mod_round_trip(slot, pitch, n);
        let layer = packing.spec_layer_of(upto - 1);
        assert(conductor_side(assignments, n, pitch, slot, layer as int) is Some);
    }
}

/// With every slot assigned, the conductors of the first `slots` slots are
/// `count` per slot, and position `s·count + i` holds the conductor at
/// packing index `i` of slot `s`.
proof fn lemma_conductors_upto_full(
    assignments: Seq<Option<SlotAssignment>>,
    n: int,
    pitch: int,
    packing: crate::winding::SlotPacking,
    slots: nat,
)
    requires
        0 <= pitch < n,
        slots <= n,
        n <= usize::MAX,
        packing.count >= 1,
        assignments.len() == n,
        forall|s: int| 0 <= s < n ==> (#[trigger] assignments[s]) is Some,
    ensures
        conductors_upto(assignments, n, pitch, packing, slots).len() == slots * packing.count,
        forall|s: int, i: int|
            0 <= s < slots && 0 <= i < packing.count ==> #[trigger] conductors_upto(
                assignments,
                n,
                pitch,
                packing,
                slots,
            )[s * packing.count + i] == expected_conductor(
                assignments,
                n,
                pitch,
                packing,
                s,
                i,
            ),
    decreases slots,
{
    let c = packing.count as int;
    if slots > 0 {
        let prev_slots = (slots - 1) as nat;
        lemma_conductors_upto_full(assignments, n, pitch, packing, prev_slots);
        lemma_slot_conductors_full(assignments, n, pitch, packing, slots - 1, packing.count as nat);
        let prev = conductors_upto(assignments, n, pitch, packing, prev_slots);
        let last = slot_conductors(assignments, n, pitch, packing, slots - 1, packing.count as nat);
        let all = conductors_upto(assignments, n, pitch, packing, slots);
        assert(all == prev + last);
        assert(prev.len() == (slots - 1) * c);
        assert((slots - 1) * c + c == slots * c) by (nonlinear_arith);
        assert forall|s: int, i: int| 0 <= s < slots && 0 <= i < c implies #[trigger] all[s
            * c + i] == expected_conductor(assignments, n, pitch, packing, s, i) by {
            if s < slots - 1 {
                assert(s * c + i < (slots - 1) * c) by (nonlinear_arith)
                    requires
                        s < slots - 1,
                        i < c,
                        0 <= i,
                        0 <= s,
                ;
                assert(0 <= s * c) by (nonlinear_arith)
                    requires
                        0 <= s,
                        0 <= c,
                ;
                assert(all[s * c + i] == prev[s * c + i]);
            } else {
                assert(s * c + i == (slots - 1) * c + i);
                assert(all[s * c + i] == last[i]);
            }
        }
    }
}

/// Every conductor of a valid machine, read back by slot and packing index.
pub proof fn lemma_conductors_of_valid_machine(config: MotorConfig)
    requires
        spec_is_valid(config),
    ensures
        ({
            let n = config.groove_count as int;
            let w = spec_winding(config);
            let packing = spec_packing(config.layers);
            let pitch = spec_coil_pitch(config) % n;
            let r = spec_conductors(config, w);
            &&& r.len() == n * packing.count
            &&& forall|s: int, i: int|
                0 <= s < n && 0 <= i < packing.count ==> #[trigger] r[s * packing.count + i]
                    == expected_conductor(w, n, pitch, packing, s, i)
        }),
{
    lemma_valid_shape(config);
    let n = config.groove_count as int;
    let w = spec_winding(config);
    let packing = spec_packing(config.layers);
    let pitch = spec_coil_pitch(config) % n;
    vstd::arithmetic::div_mod::lemma_mod_bound(spec_coil_pitch(config), n);
    assert forall|s: int| 0 <= s < n implies (#[trigger] w[s]) is Some by {}
    lemma_conductors_upto_full(w, n, pitch, packing, n as nat);
}

/// Locate conductor `j` of a valid machine by slot and packing index.
proof fn lemma_conductor_at(config: MotorConfig, j: int)
    requires
        spec_is_valid(config),
        0 <= j < spec_conductors(config, spec_winding(config)).len(),
    ensures
        ({
            let n = config.groove_count as int;
            let w = spec_winding(config);
            let packing = spec_packing(config.layers);
            let pitch = spec_coil_pitch(config) % n;
            let c = packing.count as int;
            let r = spec_conductors(config, w);
            &&& 0 <= j / c < n
            &&& 0 <= j % c < c
            &&& j == (j / c) * c + j % c
            &&& r[j] == expected_conductor(w, n, pitch, packing, j / c, j % c)
        }),
{
    lemma_conductors_of_valid_machine(config);
    let n = config.groove_count as int;
    let packing = spec_packing(config.layers);
    let c = packing.count as int;
    vstd::arithmetic::div_mod::lemma_fundamental_div_mod(j, c);
    vstd::arithmetic::div_mod::lemma_mod_bound(j, c);
    vstd::arithmetic::div_mod::lemma_div_pos_is_pos(j, c);
    assert(j / c < n) by {
        vstd::arithmetic::div_mod::lemma_div_is_ordered(j, n * c - 1, c);
        assert(n * c - 1 == (n - 1) * c + (c - 1)) by (nonlinear_arith);
        vstd::arithmetic::div_mod::lemma_fundamental_div_mod_converse(n * c - 1, c, n - 1, c - 1);
    }
    assert(j == (j / c) * c + j % c) by (nonlinear_arith)
        requires
            j == c * (j / c) + j % c,
    ;
}

/// At full pitch both coil sides of a slot land on the same phase, so every
/// conductor carries its slot's belt phase and direction, exactly like the
/// single-layer model.
pub proof fn lemma_full_pitch_keeps_a_slot_on_one_phase(config: MotorConfig)
    requires
        spec_is_valid(config),
        !(config.short_pitched && config.layers > 1),
    ensures
        ({
            let w = spec_winding(config);
            let r = spec_conductors(config, w);
            forall|j: int|
                #![trigger r[j]]
                0 <= j < r.len() ==> {
                    &&& r[j].phase == w[r[j].slot as int]->Some_0.phase
                    &&& r[j].direction == w[r[j].slot as int]->Some_0.direction
                }
        }),
{
    lemma_valid_shape(config);
    let n = config.groove_count as int;
    let w = spec_winding(config);
    let r = spec_conductors(config, w);
    let spp = spec_slots_per_pole(config);
    vstd::arithmetic::div_mod::lemma_small_mod(spp as nat, n as nat);
    assert forall|j: int| #![trigger r[j]] 0 <= j < r.len() implies {
        &&& r[j].phase == w[r[j].slot as int]->Some_0.phase
        &&& r[j].direction == w[r[j].slot as int]->Some_0.direction
    } by {
        lemma_conductor_at(config, j);
        let packing = spec_packing(config.layers);
        let c = packing.count as int;
        let s = j / c;
        let layer = packing.spec_layer_of(j % c);
        if layer != 0 {
            let back = (s + n - spp) % n;
            lemma_mod_round_trip(s, spp, n);
            lemma_winding_alternates_by_pole(config, back);
        }
    }
}

/// What an endwinding leaving conductor `j` lands on.
pub open spec fn endwinding_lands_home(config: MotorConfig, j: int) -> bool {
    let n = config.groove_count as int;
    let r = spec_conductors(config, spec_winding(config));
    let packing = spec_packing(config.layers);
    let c = packing.count as int;
    let t = (r[j].slot + spec_coil_pitch(config)) % n;
    let partner = packing.spec_coil_partner(r[j].index as int);
    let k = t * c + partner;
    &&& 0 <= k < r.len()
    &&& r[k].slot == t
    &&& r[k].index == partner
    &&& r[k].phase == r[j].phase
    &&& r[k].direction == r[j].direction.flipped()
}

/// One endwinding of a valid machine closes its loop.
proof fn lemma_endwinding_at(config: MotorConfig, j: int)
    requires
        spec_is_valid(config),
        0 <= j < spec_conductors(config, spec_winding(config)).len(),
        spec_starts_coil(spec_conductors(config, spec_winding(config))[j], config.layers),
    ensures
        endwinding_lands_home(config, j),
{
    lemma_valid_shape(config);
    lemma_conductors_of_valid_machine(config);
    lemma_conductor_at(config, j);
    let n = config.groove_count as int;
    let packing = spec_packing(config.layers);
    let c = packing.count as int;
    let pitch = spec_coil_pitch(config);
    let big_p = pitch % n;
    vstd::arithmetic::div_mod::lemma_mod_bound(pitch, n);
    let s = j / c;
    let i = j % c;
    let t = (s + pitch) % n;
    vstd::arithmetic::div_mod::lemma_add_mod_noop(s, pitch, n);
    vstd::arithmetic::div_mod::lemma_small_mod(s as nat, n as nat);
    assert(t == (s + big_p) % n);
    lemma_mod_round_trip(s, big_p, n);
    let partner = packing.spec_coil_partner(i);
    if c >= 2 {
        let deep = packing.spec_deep_count();
        let shallow = c - deep;
        vstd::arithmetic::div_mod::lemma_mod_bound(i, shallow);
        assert(deep <= partner < c);
    } else {
        assert(partner == 0);
    }
    assert(0 <= t * c + partner < n * c) by (nonlinear_arith)
        requires
            0 <= t < n,
            0 <= partner < c,
    ;
    if c < 2 {
        // One conductor per slot: the coil spans a full pole pitch and
        // returns into the next pole's belt of the same phase.
        assert(pitch == spec_slots_per_pole(config));
        vstd::arithmetic::div_mod::lemma_small_mod(pitch as nat, n as nat);
        lemma_winding_alternates_by_pole(config, s);
    }
}

/// A coil is a loop of one phase: every endwinding leaving a conductor lands,
/// `coil_pitch` slots further on, on the conductor its packing partners it
/// with, and that conductor carries the same phase with the opposite
/// direction. Holds at full and at short pitch, for any number of layers.
pub proof fn lemma_every_endwinding_returns_into_its_own_phase(config: MotorConfig)
    requires
        spec_is_valid(config),
    ensures
        ({
            let r = spec_conductors(config, spec_winding(config));
            forall|j: int|
                0 <= j < r.len() && spec_starts_coil(#[trigger] r[j], config.layers)
                    ==> endwinding_lands_home(config, j)
        }),
{
    let r = spec_conductors(config, spec_winding(config));
    assert forall|j: int|
        0 <= j < r.len() && spec_starts_coil(#[trigger] r[j], config.layers) implies endwinding_lands_home(
        config,
        j,
    ) by {
        lemma_endwinding_at(config, j);
    }
}

/// Chording is impossible with a single layer: asking for it changes neither
/// the coil pitch, the belt layout nor any conductor.
pub proof fn lemma_a_single_layer_winding_cannot_be_short_pitched(
    full: MotorConfig,
    chorded: MotorConfig,
)
    requires
        full.layers <= 1,
        chorded == (MotorConfig { short_pitched: true, ..full }),
    ensures
        spec_coil_pitch(chorded) == spec_coil_pitch(full),
        spec_winding(chorded) == spec_winding(full),
        spec_conductors(chorded, spec_winding(chorded)) == spec_conductors(
            full,
            spec_winding(full),
        ),
{
    assert(spec_winding(chorded) =~= spec_winding(full));
}

/// In a double-layer winding every slot starts one coil per deep conductor,
/// whatever the pitch: a conductor starts a coil exactly when it sits in the
/// deep half of its slot.
pub proof fn lemma_every_slot_starts_a_coil_in_a_double_layer_winding(config: MotorConfig)
    requires
        spec_is_valid(config),
        config.layers > 1,
    ensures
        ({
            let n = config.groove_count as int;
            let r = spec_conductors(config, spec_winding(config));
            let packing = spec_packing(config.layers);
            let c = packing.count as int;
            forall|s: int, i: int|
                0 <= s < n && 0 <= i < c ==> (spec_starts_coil(
                    #[trigger] r[s * c + i],
                    config.layers,
                ) <==> i < packing.spec_deep_count())
        }),
{
    lemma_conductors_of_valid_machine(config);
}

/// With one conductor per slot the conductors are exactly the belt layout:
/// one per slot, in the deep layer, with the slot's phase and direction.
pub proof fn lemma_single_conductor_matches_the_belt_assignment(config: MotorConfig)
    requires
        spec_is_valid(config),
        config.layers <= 1,
    ensures
        ({
            let n = config.groove_count as int;
            let w = spec_winding(config);
            let r = spec_conductors(config, w);
            &&& r.len() == n
            &&& forall|s: int|
                0 <= s < n ==> #[trigger] r[s] == (Conductor {
                    slot: s as usize,
                    index: 0,
                    layer: 0,
                    phase: w[s]->Some_0.phase,
                    direction: w[s]->Some_0.direction,
                })
        }),
{
    lemma_conductors_of_valid_machine(config);
    let n = config.groove_count as int;
    let w = spec_winding(config);
    let r = spec_conductors(config, w);
    let packing = spec_packing(config.layers);
    let c = packing.count as int;
    assert(c == 1);
    assert(r.len() == n * c);
    assert(n * c == n) by (nonlinear_arith)
        requires
            c == 1,
    ;
    assert forall|s: int| 0 <= s < n implies #[trigger] r[s] == (Conductor {
        slot: s as usize,
        index: 0,
        layer: 0,
        phase: w[s]->Some_0.phase,
        direction: w[s]->Some_0.direction,
    }) by {
        assert(s * c + 0 == s);
        assert(r[s * c + 0] == expected_conductor(
            w,
            n,
            spec_coil_pitch(config) % n,
            packing,
            s,
            0,
        ));
    }
}

/// With two or more layers chording does shorten the coils, whenever a pole
/// spans at least two slots.
pub proof fn lemma_two_layers_can_still_be_short_pitched(full: MotorConfig, chorded: MotorConfig)
    requires
        full.layers > 1,
        !full.short_pitched,
        chorded == (MotorConfig { short_pitched: true, ..full }),
        spec_slots_per_pole(full) >= 2,
    ensures
        spec_coil_pitch(chorded) == spec_coil_pitch(full) - 1,
{
}

/// Slots among `[lo, lo + len)` carrying current into the page.
pub open spec fn count_in(w: Seq<Option<SlotAssignment>>, lo: int, len: nat) -> nat
    decreases len,
{
    if len == 0 {
        0
    } else {
        count_in(w, lo, (len - 1) as nat) + if w[lo + len - 1] is Some && w[lo + len
            - 1]->Some_0.direction == Direction::In {
            1nat
        } else {
            0nat
        }
    }
}

/// Conductors among the first `len` that start a coil.
pub open spec fn count_starting(r: Seq<Conductor>, layers: usize, len: nat) -> nat
    decreases len,
{
    if len == 0 {
        0
    } else {
        count_starting(r, layers, (len - 1) as nat) + if spec_starts_coil(r[len - 1], layers) {
            1nat
        } else {
            0nat
        }
    }
}

/// Counting over two adjacent ranges adds up.
proof fn lemma_count_in_split(w: Seq<Option<SlotAssignment>>, lo: int, a: nat, b: nat)
    ensures
        count_in(w, lo, a + b) == count_in(w, lo, a) + count_in(w, lo + a, b),
    decreases b,
{
    if b > 0 {
        lemma_count_in_split(w, lo, a, (b - 1) as nat);
        assert(lo + (a + b) - 1 == (lo + a) + b - 1);
    }
}

/// One pole further on, every slot flips: the next pole's range counts the
/// complement.
proof fn lemma_count_in_next_pole(config: MotorConfig, lo: int, len: nat)
    requires
        spec_is_valid(config),
        0 <= lo,
        lo + spec_slots_per_pole(config) + len <= config.groove_count,
    ensures
        count_in(spec_winding(config), lo + spec_slots_per_pole(config), len) + count_in(
            spec_winding(config),
            lo,
            len,
        ) == len,
    decreases len,
{
    if len > 0 {
        lemma_valid_shape(config);
        let n = config.groove_count as int;
        let spp = spec_slots_per_pole(config);
        lemma_count_in_next_pole(config, lo, (len - 1) as nat);
        let s = lo + len - 1;
        lemma_winding_alternates_by_pole(config, s);
        vstd::arithmetic::div_mod::lemma_small_mod((s + spp) as nat, n as nat);
        assert(lo + spp + len - 1 == s + spp);
    }
}

/// Pole pair by pole pair, half the slots carry current in.
proof fn lemma_count_in_pole_pairs(config: MotorConfig, t: nat)
    requires
        spec_is_valid(config),
        t <= config.pole_pairs,
    ensures
        count_in(spec_winding(config), 0, (2 * t * spec_slots_per_pole(config)) as nat) == t
            * spec_slots_per_pole(config),
    decreases t,
{
    lemma_valid_shape(config);
    let spp = spec_slots_per_pole(config);
    let w = spec_winding(config);
    if t == 0 {
        assert(2 * t * spp == 0);
        assert(t * spp == 0);
    } else {
        let t1 = (t - 1) as nat;
        lemma_count_in_pole_pairs(config, t1);
        let base = 2 * t1 * spp;
        assert(base >= 0) by (nonlinear_arith)
            requires
                spp >= 1,
                base == 2 * t1 * spp,
                t1 >= 0,
        ;
        assert(2 * t * spp == base + spp + spp) by (nonlinear_arith)
            requires
                base == 2 * t1 * spp,
                t1 == t - 1,
        ;
        assert(base + spp + spp <= config.groove_count) by (nonlinear_arith)
            requires
                base + spp + spp == 2 * t * spp,
                t <= config.pole_pairs,
                config.groove_count == 2 * config.pole_pairs * spp,
                spp >= 1,
        ;
        lemma_count_in_split(w, 0, base as nat, (spp + spp) as nat);
        assert(count_in(w, 0, (2 * t * spp) as nat) == count_in(w, 0, base as nat) + count_in(w, base, (spp + spp) as nat));
        lemma_count_in_split(w, base, spp as nat, spp as nat);
        assert(count_in(w, base, (spp + spp) as nat) == count_in(w, base, spp as nat) + count_in(w, base + spp, spp as nat));
        lemma_count_in_next_pole(config, base, spp as nat);
        assert(count_in(w, base, (spp + spp) as nat) == spp);
        assert(t * spp == t1 * spp + spp) by (nonlinear_arith)
            requires
                t1 == t - 1,
        ;
    }
}

/// Starting conductors of a single-layer winding are its slots going in.
proof fn lemma_count_starting_single_layer(config: MotorConfig, k: nat)
    requires
        spec_is_valid(config),
        config.layers <= 1,
        k <= config.groove_count,
    ensures
        count_starting(spec_conductors(config, spec_winding(config)), config.layers, k)
            == count_in(spec_winding(config), 0, k),
    decreases k,
{
    if k > 0 {
        lemma_single_conductor_matches_the_belt_assignment(config);
        lemma_count_starting_single_layer(config, (k - 1) as nat);
        let r = spec_conductors(config, spec_winding(config));
        assert(r[k - 1] == r[(k - 1) as int]);
    }
}

/// A single-layer winding has half as many coils as slots: only the outgoing
/// sides start one, and exactly half the slots carry current in.
pub proof fn lemma_single_layer_starts_half_as_many_coils(config: MotorConfig)
    requires
        spec_is_valid(config),
        config.layers <= 1,
    ensures
        ({
            let r = spec_conductors(config, spec_winding(config));
            &&& config.groove_count % 2 == 0
            &&& count_starting(r, config.layers, r.len()) == config.groove_count / 2
            &&& count_in(spec_winding(config), 0, config.groove_count as nat)
                == config.groove_count / 2
        }),
{
    lemma_valid_shape(config);
    lemma_single_conductor_matches_the_belt_assignment(config);
    let p = config.pole_pairs as nat;
    let spp = spec_slots_per_pole(config);
    lemma_count_in_pole_pairs(config, p);
    assert(2 * p * spp == config.groove_count);
    assert(config.groove_count == 2 * (p * spp)) by (nonlinear_arith)
        requires
            config.groove_count == 2 * p * spp,
    ;
    lemma_count_starting_single_layer(config, config.groove_count as nat);
}

/// A slot with nothing assigned anywhere yields no conductor.
proof fn lemma_empty_slot_yields_nothing(
    assignments: Seq<Option<SlotAssignment>>,
    n: int,
    pitch: int,
    packing: SlotPacking,
    slot: int,
    upto: nat,
)
    requires
        n > 0,
        assignments.len() == n,
        forall|i: int| 0 <= i < n ==> (#[trigger] assignments[i]) is None,
        0 <= slot < n,
    ensures
        slot_conductors(assignments, n, pitch, packing, slot, upto) == Seq::<Conductor>::empty(),
    decreases upto,
{
    if upto > 0 {
        lemma_empty_slot_yields_nothing(assignments, n, pitch, packing, slot, (upto - 1) as nat);
        let k = (slot + n - pitch) % n;
        assert(0 <= k < n);
        assert(assignments[k] is None);
        assert(assignments[slot] is None);
    }
}

/// With nothing assigned anywhere, no range of slots yields a conductor.
proof fn lemma_empty_slots_yield_nothing(
    assignments: Seq<Option<SlotAssignment>>,
    n: int,
    pitch: int,
    packing: SlotPacking,
    slots: nat,
)
    requires
        n > 0,
        assignments.len() == n,
        forall|i: int| 0 <= i < n ==> (#[trigger] assignments[i]) is None,
        slots <= n,
    ensures
        conductors_upto(assignments, n, pitch, packing, slots) == Seq::<Conductor>::empty(),
    decreases slots,
{
    if slots > 0 {
        lemma_empty_slots_yield_nothing(assignments, n, pitch, packing, (slots - 1) as nat);
        lemma_empty_slot_yields_nothing(
            assignments,
            n,
            pitch,
            packing,
            slots - 1,
            packing.count as nat,
        );
        assert(Seq::<Conductor>::empty() + Seq::<Conductor>::empty() =~= Seq::<Conductor>::empty());
    }
}

/// A machine whose slots do not split into `2·p·m` belts carries no
/// conductors at all, so every phase's winding function is flat zero.
pub proof fn lemma_an_invalid_machine_has_no_conductors(config: MotorConfig)
    requires
        !spec_is_valid(config),
    ensures
        spec_conductors(config, spec_winding(config)) == Seq::<Conductor>::empty(),
        forall|samples: int, phase: int, i: int|
            winding_function_at(
                #[trigger] spec_conductors(config, spec_winding(config)),
                config.groove_count as int,
                samples,
                phase,
                i,
            ) == 0,
{
    let n = config.groove_count as int;
    let w = spec_winding(config);
    if n > 0 {
        assert forall|i: int| 0 <= i < n implies (#[trigger] w[i]) is None by {}
        lemma_empty_slots_yield_nothing(
            w,
            n,
            spec_coil_pitch(config) % n,
            spec_packing(config.layers),
            n as nat,
        );
    }
}

/// The one electrical position within a pole pair whose belt carries `phase`
/// in `direction`.
pub open spec fn belt_of(m: int, phase: int, direction: Direction) -> int {
    if m % 2 == 1 {
        match direction {
            Direction::In => 2 * phase,
            Direction::Out => if 2 * phase + m < 2 * m {
                2 * phase + m
            } else {
                2 * phase - m
            },
        }
    } else {
        match direction {
            Direction::In => phase,
            Direction::Out => phase + m,
        }
    }
}

/// Within a pole pair every phase and direction has exactly one belt: the
/// belt at `ke` carries `phase` in `direction` exactly when `ke` is
/// `belt_of(m, phase, direction)`.
proof fn lemma_belt_of(m: int, phase: int, direction: Direction, ke: int)
    requires
        m > 0,
        0 <= phase < m,
        0 <= ke < 2 * m,
    ensures
        0 <= belt_of(m, phase, direction) < 2 * m,
        (belt_phase(m, ke) == phase && belt_direction(m, ke) == direction) <==> ke == belt_of(
            m,
            phase,
            direction,
        ),
{
    if m % 2 == 1 && ke % 2 == 1 {
        let h = (ke - m) / 2;
        assert((ke - m) % 2 == 0);
        assert(ke - m == 2 * h);
        if h >= 0 {
            vstd::arithmetic::div_mod::lemma_small_mod(h as nat, m as nat);
        } else {
            vstd::arithmetic::div_mod::lemma_mod_add_multiples_vanish(h, m);
            vstd::arithmetic::div_mod::lemma_small_mod((h + m) as nat, m as nat);
        }
    }
}

/// Slots among `[lo, lo + len)` carrying `phase` in `direction`.
pub open spec fn count_carrying(
    w: Seq<Option<SlotAssignment>>,
    lo: int,
    len: nat,
    phase: usize,
    direction: Direction,
) -> nat
    decreases len,
{
    if len == 0 {
        0
    } else {
        count_carrying(w, lo, (len - 1) as nat, phase, direction) + if w[lo + len - 1] == Some(
            SlotAssignment { phase, direction },
        ) {
            1nat
        } else {
            0nat
        }
    }
}

/// Counting over two adjacent ranges adds up.
proof fn lemma_count_carrying_split(
    w: Seq<Option<SlotAssignment>>,
    lo: int,
    a: nat,
    b: nat,
    phase: usize,
    direction: Direction,
)
    ensures
        count_carrying(w, lo, a + b, phase, direction) == count_carrying(w, lo, a, phase, direction)
            + count_carrying(w, lo + a, b, phase, direction),
    decreases b,
{
    if b > 0 {
        lemma_count_carrying_split(w, lo, a, (b - 1) as nat, phase, direction);
        assert(lo + (a + b) - 1 == (lo + a) + b - 1);
    }
}

/// The first `j` slots of belt `k` all carry that belt's phase and
/// direction, so they count fully or not at all.
proof fn lemma_count_in_belt(
    config: MotorConfig,
    k: int,
    j: nat,
    phase: usize,
    direction: Direction,
)
    requires
        spec_is_valid(config),
        0 <= k < belt_count(config),
        j <= spec_q(config),
        phase < config.phases,
    ensures
        count_carrying(spec_winding(config), k * spec_q(config), j, phase, direction) == if k % (2
            * config.phases) == belt_of(config.phases as int, phase as int, direction) {
            j
        } else {
            0
        },
    decreases j,
{
    if j > 0 {
        lemma_valid_shape(config);
        lemma_count_in_belt(config, k, (j - 1) as nat, phase, direction);
        let q = spec_q(config);
        let m = config.phases as int;
        let s = k * q + (j - 1);
        lemma_belt_slot(k, q, j - 1, belt_count(config));
        let ke = k % (2 * m);
        vstd::arithmetic::div_mod::lemma_mod_bound(k, 2 * m);
        assert(belt_position(config, s) == ke);
        lemma_belt_shift(m, ke);
        lemma_belt_of(m, phase as int, direction, ke);
        let a = belt_assignment(config, s);
        assert(spec_winding(config)[s] == Some(a));
        assert((a == SlotAssignment { phase, direction }) <==> (belt_phase(m, ke) == phase
            && belt_direction(m, ke) == direction));
    }
}

/// The first `e` belts of pole pair `t` hold one full belt of `phase` in
/// `direction` once `e` passes its electrical position, and none before.
proof fn lemma_count_in_pole_pair(
    config: MotorConfig,
    t: int,
    e: nat,
    phase: usize,
    direction: Direction,
)
    requires
        spec_is_valid(config),
        0 <= t < config.pole_pairs,
        e <= 2 * config.phases,
        phase < config.phases,
    ensures
        count_carrying(
            spec_winding(config),
            t * (2 * config.phases) * spec_q(config),
            (e * spec_q(config)) as nat,
            phase,
            direction,
        ) == if belt_of(config.phases as int, phase as int, direction) < e {
            spec_q(config)
        } else {
            0
        },
    decreases e,
{
    lemma_valid_shape(config);
    let q = spec_q(config);
    let m = config.phases as int;
    let p = config.pole_pairs as int;
    let base = t * (2 * m) * q;
    let w = spec_winding(config);
    lemma_belt_of(m, phase as int, direction, 0);
    if e == 0 {
        assert(e * q == 0) by (nonlinear_arith)
            requires
                e == 0,
        ;
    } else {
        let e1 = (e - 1) as nat;
        lemma_count_in_pole_pair(config, t, e1, phase, direction);
        assert(e1 * q >= 0) by (nonlinear_arith)
            requires
                q >= 1,
        ;
        assert(e * q == e1 * q + q) by (nonlinear_arith)
            requires
                e1 == e - 1,
        ;
        lemma_count_carrying_split(w, base, (e1 * q) as nat, q as nat, phase, direction);
        let k = t * (2 * m) + e1;
        assert(k * q == base + e1 * q) by (nonlinear_arith)
            requires
                k == t * (2 * m) + e1,
                base == t * (2 * m) * q,
        ;
        assert(0 <= k < belt_count(config)) by (nonlinear_arith)
            requires
                k == t * (2 * m) + e1,
                0 <= t < p,
                e1 < 2 * m,
                belt_count(config) == 2 * p * m,
        ;
        lemma_count_in_belt(config, k, q as nat, phase, direction);
        vstd::arithmetic::div_mod::lemma_mod_multiples_vanish(t, e1 as int, 2 * m);
        assert(k == (2 * m) * t + e1) by (nonlinear_arith)
            requires
                k == t * (2 * m) + e1,
        ;
        vstd::arithmetic::div_mod::lemma_small_mod(e1, (2 * m) as nat);
        assert(k % (2 * m) == e1);
    }
}

/// The first `t` pole pairs hold `t·q` slots of `phase` in `direction`.
proof fn lemma_count_over_pole_pairs(
    config: MotorConfig,
    t: nat,
    phase: usize,
    direction: Direction,
)
    requires
        spec_is_valid(config),
        t <= config.pole_pairs,
        phase < config.phases,
    ensures
        count_carrying(
            spec_winding(config),
            0,
            (t * ((2 * config.phases) * spec_q(config))) as nat,
            phase,
            direction,
        ) == t * spec_q(config),
    decreases t,
{
    lemma_valid_shape(config);
    let q = spec_q(config);
    let m = config.phases as int;
    let span = (2 * m) * q;
    let w = spec_winding(config);
    if t == 0 {
        assert(t * span == 0 && t * q == 0) by (nonlinear_arith)
            requires
                t == 0,
        ;
    } else {
        let t1 = (t - 1) as nat;
        lemma_count_over_pole_pairs(config, t1, phase, direction);
        assert(span >= 1 && t1 * span >= 0) by (nonlinear_arith)
            requires
                span == (2 * m) * q,
                m >= 1,
                q >= 1,
        ;
        assert(t * span == t1 * span + span) by (nonlinear_arith)
            requires
                t1 == t - 1,
        ;
        lemma_count_carrying_split(w, 0, (t1 * span) as nat, span as nat, phase, direction);
        lemma_count_in_pole_pair(config, t1 as int, (2 * m) as nat, phase, direction);
        lemma_belt_of(m, phase as int, direction, 0);
        assert(t1 * (2 * m) * q == t1 * span) by (nonlinear_arith)
            requires
                span == (2 * m) * q,
        ;
        assert(t * q == t1 * q + q) by (nonlinear_arith)
            requires
                t1 == t - 1,
        ;
    }
}

/// A valid machine is balanced: every phase carries current into exactly
/// `p·q` slots and out of exactly `p·q` slots, so each of the `m` phases
/// holds the same share `S/m` of the slots.
pub proof fn lemma_every_phase_holds_an_equal_share_of_slots(
    config: MotorConfig,
    phase: usize,
    direction: Direction,
)
    requires
        spec_is_valid(config),
        phase < config.phases,
    ensures
        count_carrying(spec_winding(config), 0, config.groove_count as nat, phase, direction)
            == config.pole_pairs * spec_q(config),
{
    lemma_valid_shape(config);
    let q = spec_q(config);
    let m = config.phases as int;
    let p = config.pole_pairs as int;
    lemma_count_over_pole_pairs(config, config.pole_pairs as nat, phase, direction);
    assert(p * ((2 * m) * q) == config.groove_count) by (nonlinear_arith)
        requires
            config.groove_count == belt_count(config) * q,
            belt_count(config) == 2 * p * m,
    ;
}

} // verus!
