//! The machine parameters that decide the shape of the stator winding.

use vstd::prelude::*;

verus! {

/// Upper bound on the number of phases the simulator supports.
///
/// Each phase gets a hand-picked colour from a fixed palette, and that
/// palette is what fixes the value.
pub const MAX_PHASES: usize = 6;

/// What the machine *is*: the parameters that decide its shape.
#[derive(Clone, Copy, Debug, PartialEq, Eq, Structural)]
pub struct MotorConfig {
    pub groove_count: usize,
    pub phases: usize,
    pub short_pitched: bool,
    /// Conductors packed into each slot. Split into two electrical layers:
    /// the deep half starts a coil, the shallow half receives the return side
    /// of the coil that started `coil_pitch` slots earlier.
    pub layers: usize,
    pub pole_pairs: usize,
}

/// Smallest slot count the panel offers.
pub const MIN_GROOVE_COUNT: usize = 6;
/// Largest slot count the panel offers.
pub const MAX_GROOVE_COUNT: usize = 144;
/// Fewest phases the panel offers.
pub const MIN_PHASES: usize = 2;
/// Fewest conductors per slot the panel offers.
pub const MIN_LAYERS: usize = 1;
/// Most conductors per slot the panel offers.
pub const MAX_LAYERS: usize = 6;
/// Fewest pole pairs the panel offers.
pub const MIN_POLE_PAIRS: usize = 1;
/// Most pole pairs the panel offers.
pub const MAX_POLE_PAIRS: usize = 6;

impl MotorConfig {
    /// Smallest value the panel offers for every parameter.
    pub fn minimum() -> (r: MotorConfig)
        ensures
            r.groove_count == MIN_GROOVE_COUNT,
            r.phases == MIN_PHASES,
            !r.short_pitched,
            r.layers == MIN_LAYERS,
            r.pole_pairs == MIN_POLE_PAIRS,
    {
        MotorConfig {
            groove_count: MIN_GROOVE_COUNT,
            phases: MIN_PHASES,
            short_pitched: false,
            layers: MIN_LAYERS,
            pole_pairs: MIN_POLE_PAIRS,
        }
    }

    /// Largest value the panel offers for every parameter.
    pub fn maximum() -> (r: MotorConfig)
        ensures
            r.groove_count == MAX_GROOVE_COUNT,
            r.phases == MAX_PHASES,
            r.short_pitched,
            r.layers == MAX_LAYERS,
            r.pole_pairs == MAX_POLE_PAIRS,
    {
        MotorConfig {
            groove_count: MAX_GROOVE_COUNT,
            phases: MAX_PHASES,
            short_pitched: true,
            layers: MAX_LAYERS,
            pole_pairs: MAX_POLE_PAIRS,
        }
    }
}

impl Default for MotorConfig {
    /// Twenty-four slots, three phases, one pole pair, one conductor per slot.
    fn default() -> (r: Self)
        ensures
            r.groove_count == 24,
            r.phases == 3,
            !r.short_pitched,
            r.layers == 1,
            r.pole_pairs == 1,
    {
        MotorConfig { groove_count: 24, phases: 3, short_pitched: false, layers: 1, pole_pairs: 1 }
    }
}

/// `2·p·m`: the number of phase belts around the bore, which the slot count
/// has to be a multiple of.
pub open spec fn belt_count(config: MotorConfig) -> int {
    2 * config.pole_pairs * config.phases
}

/// Whether the slots split evenly into `2·p·m` phase belts.
pub open spec fn spec_is_valid(config: MotorConfig) -> bool {
    &&& config.phases > 0
    &&& config.pole_pairs > 0
    &&& config.groove_count >= belt_count(config)
    &&& (config.groove_count as int) % belt_count(config) == 0
}

/// Slots per pole per phase, `q = S / (2·p·m)`.
pub open spec fn spec_q(config: MotorConfig) -> int {
    config.groove_count as int / belt_count(config)
}

/// Slots per pole, `S / (2·p)`.
pub open spec fn spec_slots_per_pole(config: MotorConfig) -> int {
    config.groove_count as int / (2 * config.pole_pairs)
}

/// Whether `phase` is selected in a per-phase visibility list.
///
/// Indices beyond [`MAX_PHASES`] report as hidden instead of panicking, so a
/// stale phase index from a previous configuration can never crash a render
/// system.
pub fn shows_phase(phases_to_show: &[bool; MAX_PHASES], phase: usize) -> (r: bool)
    ensures
        r == (phase < MAX_PHASES && phases_to_show@[phase as int]),
{
    if phase < MAX_PHASES {
        phases_to_show[phase]
    } else {
        false
    }
}

} // verus!
