//! Which phase goes in which slot, and how each slot's conductors are wound
//! into coils.

use vstd::prelude::*;

use crate::config::{MotorConfig, belt_count, spec_is_valid, spec_q, spec_slots_per_pole};
use crate::winding::packing::spec_packing;

pub mod laws;
pub mod packing;

pub use packing::SlotPacking;

verus! {

/// Direction of current flow in a slot conductor.
#[derive(Clone, Copy, Debug, PartialEq, Eq, Structural)]
pub enum Direction {
    In,
    Out,
}

impl Direction {
    /// The other direction.
    pub open spec fn flipped(self) -> Direction {
        match self {
            Direction::In => Direction::Out,
            Direction::Out => Direction::In,
        }
    }

    /// The return side of the same coil carries the opposite direction.
    pub fn reversed(self) -> (r: Self)
        ensures
            r == self.flipped(),
    {
        match self {
            Direction::In => Direction::Out,
            Direction::Out => Direction::In,
        }
    }
}

/// Assignment of a conductor to a slot.
#[derive(Clone, Copy, Debug, PartialEq, Eq, Structural)]
pub struct SlotAssignment {
    pub phase: usize,
    pub direction: Direction,
}

/// Phase of the belt at electrical position `ke` (`0 <= ke < 2m`).
///
/// An odd phase count interleaves the phases: even positions carry phase
/// `ke/2` going in, odd positions the return side of phase `(ke - m)/2`
/// (mod `m`). An even phase count lays the phases out in order going in, then
/// again in order coming back.
pub open spec fn belt_phase(m: int, ke: int) -> int {
    if m % 2 == 1 {
        if ke % 2 == 0 {
            ke / 2
        } else {
            ((ke - m) / 2) % m
        }
    } else {
        if ke < m {
            ke
        } else {
            ke - m
        }
    }
}

/// Current direction of the belt at electrical position `ke`.
pub open spec fn belt_direction(m: int, ke: int) -> Direction {
    if m % 2 == 1 {
        if ke % 2 == 0 {
            Direction::In
        } else {
            Direction::Out
        }
    } else {
        if ke < m {
            Direction::In
        } else {
            Direction::Out
        }
    }
}

/// Electrical belt position of `slot`: belts are `q` slots wide and repeat
/// every `2·m` belts (one pole pair).
pub open spec fn belt_position(config: MotorConfig, slot: int) -> int {
    (slot / spec_q(config)) % (2 * config.phases)
}

/// What the belt layout puts in `slot` of a valid machine.
pub open spec fn belt_assignment(config: MotorConfig, slot: int) -> SlotAssignment {
    let ke = belt_position(config, slot);
    SlotAssignment {
        phase: belt_phase(config.phases as int, ke) as usize,
        direction: belt_direction(config.phases as int, ke),
    }
}

/// The winding distribution: every slot of a valid machine carries its belt's
/// phase and direction; an invalid machine has nothing in any slot.
pub open spec fn spec_winding(config: MotorConfig) -> Seq<Option<SlotAssignment>> {
    Seq::new(
        config.groove_count as nat,
        |slot: int|
            if spec_is_valid(config) {
                Some(belt_assignment(config, slot))
            } else {
                None
            },
    )
}

/// `n` empty slots.
fn empty_slots(n: usize) -> (r: Vec<Option<SlotAssignment>>)
    ensures
        r@.len() == n,
        forall|i: int| 0 <= i < n ==> r@[i] is None,
{
    let mut r: Vec<Option<SlotAssignment>> = Vec::new();
    let mut i: usize = 0;
    while i < n
        invariant
            i <= n,
            r@.len() == i,
            forall|j: int| 0 <= j < i ==> r@[j] is None,
        decreases n - i,
    {
        r.push(None);
        i = i + 1;
    }
    r
}

/// `(k·q + j) / q == k` and the slot stays below `belts·q`.
proof fn lemma_belt_slot(k: int, q: int, j: int, belts: int)
    requires
        0 <= k < belts,
        0 <= j < q,
    ensures
        (k * q + j) / q == k,
        (k * q + j) % q == j,
        0 <= k * q + j < belts * q,
{
    assert(0 <= k * q) by (nonlinear_arith)
        requires
            0 <= k,
            0 <= q,
    ;
    assert(k * q + j < belts * q) by (nonlinear_arith)
        requires
            k < belts,
            j < q,
            0 <= j,
            0 <= k,
    ;
    vstd::arithmetic::div_mod::lemma_fundamental_div_mod_converse(k * q + j, q, k, j);
}

/// The phase and direction the exec code computes for belt `ke` equal the
/// belt spec.
proof fn lemma_belt_formula(m: int, ke: int)
    requires
        m > 0,
        0 <= ke < 2 * m,
        m % 2 == 1,
        ke % 2 == 1,
    ensures
        (if ke >= m { (ke - m) / 2 } else { (ke + m) / 2 }) == belt_phase(m, ke),
{
    assert((ke - m) % 2 == 0);
    let h = (ke - m) / 2;
    if ke >= m {
        vstd::arithmetic::div_mod::lemma_small_mod(h as nat, m as nat);
    } else {
        assert((ke + m) / 2 == h + m);
        vstd::arithmetic::div_mod::lemma_mod_add_multiples_vanish(h, m);
        vstd::arithmetic::div_mod::lemma_small_mod((h + m) as nat, m as nat);
    }
}

/// Computes the winding distribution: which phase goes in which slot.
///
/// The slot count must split evenly into `2·p·m` phase belts; otherwise every
/// slot is left empty.
pub fn compute_winding(config: &MotorConfig) -> (r: Vec<Option<SlotAssignment>>)
    requires
        belt_count(*config) <= usize::MAX,
    ensures
        r@ == spec_winding(*config),
{
    let n = config.groove_count;
    let m = config.phases;
    let p = config.pole_pairs;

    if m == 0 || p == 0 {
        let r = empty_slots(n);
        assert(r@ =~= spec_winding(*config));
        return r;
    }
    assert(2 * p * m <= usize::MAX);
    assert(2 * m <= 2 * p * m && 2 * p <= 2 * p * m) by (nonlinear_arith)
        requires
            p >= 1,
            m >= 1,
    ;
    let belts = 2 * p * m;
    if n < belts || n % belts != 0 {
        let r = empty_slots(n);
        assert(r@ =~= spec_winding(*config));
        return r;
    }

    let q = n / belts;
    assert(q * belts == n) by {
        vstd::arithmetic::div_mod::lemma_fundamental_div_mod(n as int, belts as int);
    }
    assert(q >= 1) by (nonlinear_arith)
        requires
            q * belts == n,
            n >= belts,
            belts > 0,
            q >= 0,
    ;
    let two_m = 2 * m;
    let mut assignments = empty_slots(n);

    let mut k: usize = 0;
    while k < belts
        invariant
            config.groove_count == n,
            config.phases == m,
            config.pole_pairs == p,
            m > 0,
            p > 0,
            belts == 2 * p * m,
            two_m == 2 * m,
            q == spec_q(*config),
            q >= 1,
            q * belts == n,
            k <= belts,
            assignments@.len() == n,
            forall|s: int|
                0 <= s < k * q ==> assignments@[s] == Some(belt_assignment(*config, s)),
            forall|s: int| k * q <= s < n ==> assignments@[s] is None,
        decreases belts - k,
    {
        let k_elec = k % two_m;
        let phase: usize;
        let direction: Direction;
        if m % 2 == 1 {
            if k_elec % 2 == 0 {
                phase = k_elec / 2;
                direction = Direction::In;
            } else {
                if k_elec >= m {
                    phase = (k_elec - m) / 2;
                } else {
                    phase = (k_elec + m) / 2;
                }
                direction = Direction::Out;
                proof {
                    lemma_belt_formula(m as int, k_elec as int);
                }
            }
        } else {
            if k_elec < m {
                phase = k_elec;
                direction = Direction::In;
            } else {
                phase = k_elec - m;
                direction = Direction::Out;
            }
        }
        assert(phase as int == belt_phase(m as int, k_elec as int));
        assert(direction == belt_direction(m as int, k_elec as int));

        proof {
            assert(k * q + q == (k + 1) * q) by (nonlinear_arith);
            assert((k + 1) * q <= belts * q) by (nonlinear_arith)
                requires
                    k + 1 <= belts,
                    q >= 1,
            ;
        }
        let mut j: usize = 0;
        while j < q
            invariant
                config.groove_count == n,
                config.phases == m,
                config.pole_pairs == p,
                m > 0,
                p > 0,
                belts == 2 * p * m,
                two_m == 2 * m,
                q == spec_q(*config),
                q >= 1,
                q * belts == n,
                k < belts,
                k * q + q <= n,
                k_elec == k % two_m,
                phase as int == belt_phase(m as int, k_elec as int),
                direction == belt_direction(m as int, k_elec as int),
                j <= q,
                assignments@.len() == n,
                forall|s: int|
                    0 <= s < k * q + j ==> assignments@[s] == Some(
                        belt_assignment(*config, s),
                    ),
                forall|s: int| k * q + j <= s < n ==> assignments@[s] is None,
            decreases q - j,
        {
            proof {
                lemma_belt_slot(k as int, q as int, j as int, belts as int);
            }
            let slot = (k * q + j) % n;
            assert(slot == k * q + j) by {
                vstd::arithmetic::div_mod::lemma_small_mod((k * q + j) as nat, n as nat);
            }
            assert(belt_position(*config, slot as int) == k_elec);
            assignments.set(slot, Some(SlotAssignment { phase, direction }));
            j = j + 1;
        }
        k = k + 1;
    }
    assert(k * q == n) by (nonlinear_arith)
        requires
            k == belts,
            q * belts == n,
    ;
    assert(assignments@ =~= spec_winding(*config));
    assignments
}

/// One physical conductor sitting inside a slot.
///
/// The deep half of a slot (towards the slot bottom) carries the outgoing
/// side of the coil starting at this slot, and the shallow half (towards the
/// bore) the return side of the coil that started `pitch` slots earlier.
#[derive(Clone, Copy, Debug, PartialEq, Eq, Structural)]
pub struct Conductor {
    pub slot: usize,
    /// Packing index within the slot; 0 is deepest, at the slot bottom.
    pub index: usize,
    /// 0 = deep electrical layer, 1 = shallow electrical layer.
    pub layer: usize,
    pub phase: usize,
    pub direction: Direction,
}

/// Coil pitch in slots: a full pole pitch `S/(2p)`, one slot shorter when the
/// coils are chorded, never below one.
///
/// Chording needs two electrical layers; a single-layer winding ignores the
/// request.
pub open spec fn spec_coil_pitch(config: MotorConfig) -> int {
    let slots_per_pole = spec_slots_per_pole(config);
    if config.short_pitched && config.layers > 1 {
        if slots_per_pole >= 2 {
            slots_per_pole - 1
        } else {
            1
        }
    } else {
        slots_per_pole
    }
}

/// Coil pitch in number of slots.
///
/// Chording needs a slot to hold two coil sides that can belong to different
/// phases, so it is only possible with two electrical layers. A single-layer
/// winding has one coil side per slot and the phase-belt allocation already
/// fixes the phase and polarity of every slot, so its pitch factor is always
/// 1 and the request is ignored.
pub fn coil_pitch(config: &MotorConfig) -> (r: usize)
    requires
        config.pole_pairs > 0,
        2 * config.pole_pairs <= usize::MAX,
    ensures
        r == spec_coil_pitch(*config),
{
    let slots_per_pole = config.groove_count / (2 * config.pole_pairs);
    if config.short_pitched && config.layers > 1 {
        let shorter = slots_per_pole.saturating_sub(1);
        if shorter < 1 {
            1
        } else {
            shorter
        }
    } else {
        slots_per_pole
    }
}

/// Whether chording actually does anything for this machine.
pub fn can_short_pitch(config: &MotorConfig) -> (r: bool)
    ensures
        r == (config.layers > 1),
{
    config.layers > 1
}

/// Whether an endwinding arc leaves this conductor: every deep conductor of a
/// double-layer winding, only the outgoing sides of a single-layer one.
pub open spec fn spec_starts_coil(conductor: Conductor, layers: usize) -> bool {
    conductor.layer == 0 && (layers > 1 || conductor.direction == Direction::In)
}

/// Whether an endwinding arc leaves this conductor.
///
/// A double-layer winding has one coil per slot: every deep conductor starts
/// one, whichever way its current runs. A single-layer winding has half as
/// many coils, each spanning two slots, so only the outgoing sides start one.
pub fn starts_coil(conductor: &Conductor, layers: usize) -> (r: bool)
    ensures
        r == spec_starts_coil(*conductor, layers),
{
    conductor.layer == 0 && (layers > 1 || conductor.direction == Direction::In)
}

/// What electrical layer `layer` of `slot` carries: the deep layer the slot's
/// own belt, the shallow layer the reversed belt of the slot `pitch` back.
pub open spec fn conductor_side(
    assignments: Seq<Option<SlotAssignment>>,
    n: int,
    pitch: int,
    slot: int,
    layer: int,
) -> Option<SlotAssignment> {
    if layer == 0 {
        assignments[slot]
    } else {
        match assignments[(slot + n - pitch) % n] {
            Some(a) => Some(SlotAssignment { phase: a.phase, direction: a.direction.flipped() }),
            None => None,
        }
    }
}

/// The conductors of `slot` among its first `upto` packing positions, in
/// packing order, skipping positions that carry nothing.
pub open spec fn slot_conductors(
    assignments: Seq<Option<SlotAssignment>>,
    n: int,
    pitch: int,
    packing: SlotPacking,
    slot: int,
    upto: nat,
) -> Seq<Conductor>
    decreases upto,
{
    if upto == 0 {
        Seq::empty()
    } else {
        let prev = slot_conductors(assignments, n, pitch, packing, slot, (upto - 1) as nat);
        let index = upto - 1;
        let layer = packing.spec_layer_of(index);
        match conductor_side(assignments, n, pitch, slot, layer as int) {
            Some(a) => prev.push(
                Conductor {
                    slot: slot as usize,
                    index: index as usize,
                    layer,
                    phase: a.phase,
                    direction: a.direction,
                },
            ),
            None => prev,
        }
    }
}

/// The conductors of the first `slots` slots, slot by slot.
pub open spec fn conductors_upto(
    assignments: Seq<Option<SlotAssignment>>,
    n: int,
    pitch: int,
    packing: SlotPacking,
    slots: nat,
) -> Seq<Conductor>
    decreases slots,
{
    if slots == 0 {
        Seq::empty()
    } else {
        conductors_upto(assignments, n, pitch, packing, (slots - 1) as nat) + slot_conductors(
            assignments,
            n,
            pitch,
            packing,
            slots - 1,
            packing.count as nat,
        )
    }
}

/// Every conductor of the machine, slot by slot and in packing order within a
/// slot; nothing when the slot count is zero or does not match `assignments`.
pub open spec fn spec_conductors(
    config: MotorConfig,
    assignments: Seq<Option<SlotAssignment>>,
) -> Seq<Conductor> {
    let n = config.groove_count as int;
    if n == 0 || assignments.len() != n {
        Seq::empty()
    } else {
        conductors_upto(
            assignments,
            n,
            spec_coil_pitch(config) % n,
            spec_packing(config.layers),
            n as nat,
        )
    }
}

/// Expands the per-slot belt assignment into individual conductors.
///
/// The deep half of a slot takes the belt assignment directly. The shallow
/// half takes the *return* side of the coil that started `pitch` slots
/// earlier: same phase, reversed direction. At full pitch that resolves to
/// the same phase as the deep half; short pitching makes the halves disagree,
/// which is what chording physically is.
pub fn compute_conductors(
    config: &MotorConfig,
    assignments: &[Option<SlotAssignment>],
) -> (r: Vec<Conductor>)
    requires
        config.groove_count != 0 && assignments@.len() == config.groove_count ==> (
        config.pole_pairs > 0 && 2 * config.pole_pairs <= usize::MAX),
    ensures
        r@ == spec_conductors(*config, assignments@),
{
    let n = config.groove_count;
    if n == 0 || assignments.len() != n {
        return Vec::new();
    }

    let packing = SlotPacking::new(config.layers);
    let count = packing.count;
    let pitch = coil_pitch(config) % n;
    let ghost asg = assignments@;

    let mut conductors: Vec<Conductor> = Vec::new();
    let mut slot: usize = 0;
    while slot < n
        invariant
            n == config.groove_count,
            n > 0,
            asg == assignments@,
            asg.len() == n,
            packing == spec_packing(config.layers),
            count == packing.count,
            pitch == spec_coil_pitch(*config) % (n as int),
            pitch < n,
            slot <= n,
            conductors@ == conductors_upto(asg, n as int, pitch as int, packing, slot as nat),
        decreases n - slot,
    {
        let back = if slot >= pitch {
            slot - pitch
        } else {
            slot + (n - pitch)
        };
        proof {
            if slot >= pitch {
                vstd::arithmetic::div_mod::lemma_mod_add_multiples_vanish(
                    (slot - pitch) as int,
                    n as int,
                );
                vstd::arithmetic::div_mod::lemma_small_mod((slot - pitch) as nat, n as nat);
            } else {
                vstd::arithmetic::div_mod::lemma_small_mod((slot + n - pitch) as nat, n as nat);
            }
            assert(back as int == (slot + n - pitch) % (n as int));
        }
        let ghost before = conductors@;
        let mut index: usize = 0;
        while index < count
            invariant
                n == config.groove_count,
                n > 0,
                asg == assignments@,
                asg.len() == n,
                packing == spec_packing(config.layers),
                count == packing.count,
                pitch < n,
                slot < n,
                back as int == (slot + n - pitch) % (n as int),
                back < n,
                index <= count,
                before == conductors_upto(asg, n as int, pitch as int, packing, slot as nat),
                conductors@ == before + slot_conductors(
                    asg,
                    n as int,
                    pitch as int,
                    packing,
                    slot as int,
                    index as nat,
                ),
            decreases count - index,
        {
            let layer = packing.layer_of(index);
            let assignment: Option<SlotAssignment> = if layer == 0 {
                assignments[slot]
            } else {
                match assignments[back] {
                    Some(a) => Some(SlotAssignment { phase: a.phase, direction: a.direction.reversed() }),
                    None => None,
                }
            };
            assert(assignment == conductor_side(asg, n as int, pitch as int, slot as int, layer as int));
            match assignment {
                Some(a) => {
                    conductors.push(
                        Conductor { slot, index, layer, phase: a.phase, direction: a.direction },
                    );
                },
                None => {},
            }
            proof {
                assert(before + slot_conductors(asg, n as int, pitch as int, packing, slot as int, (index + 1) as nat)
                    =~= conductors@);
            }
            index = index + 1;
        }
        slot = slot + 1;
    }
    conductors
}

} // verus!
