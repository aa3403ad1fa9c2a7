//! What the configuration panel decides: keeping the slot count valid while
//! the sliders move, and the figures it reports for a valid machine.

use vstd::prelude::*;

use crate::config::{
    MAX_GROOVE_COUNT,
    MIN_GROOVE_COUNT,
    MotorConfig,
    belt_count,
    spec_is_valid,
    spec_q,
    spec_slots_per_pole,
};

verus! {

/// Smallest multiple of `d` at or above the smallest slot count.
pub open spec fn lowest_multiple(d: int) -> int {
    d * ((MIN_GROOVE_COUNT + d - 1) / d)
}

/// Largest multiple of `d` at or below the largest slot count.
pub open spec fn highest_multiple(d: int) -> int {
    (MAX_GROOVE_COUNT as int / d) * d
}

/// A divisor of at least the smallest slot count is its own lowest multiple;
/// a smaller one has a lowest multiple of at most ten.
proof fn lemma_lowest_multiple(d: int)
    requires
        d >= 1,
    ensures
        d >= MIN_GROOVE_COUNT ==> lowest_multiple(d) == d,
        d < MIN_GROOVE_COUNT ==> lowest_multiple(d) <= 10,
        lowest_multiple(d) >= MIN_GROOVE_COUNT,
{
    if d >= MIN_GROOVE_COUNT {
        assert(MIN_GROOVE_COUNT + d - 1 == d * 1 + (MIN_GROOVE_COUNT - 1));
        vstd::arithmetic::div_mod::lemma_fundamental_div_mod_converse(
            MIN_GROOVE_COUNT + d - 1,
            d,
            1,
            MIN_GROOVE_COUNT - 1,
        );
    } else if d == 1 {
        assert(lowest_multiple(d) == 6);
    } else if d == 2 {
        assert(lowest_multiple(d) == 6);
    } else if d == 3 {
        assert(lowest_multiple(d) == 6);
    } else if d == 4 {
        assert(lowest_multiple(d) == 8);
    } else {
        assert(d == 5);
        assert(lowest_multiple(d) == 10);
    }
}

/// The slot count `clamp_config` settles on: the nearest multiple of
/// `2·p·m` (halves rounding up), pulled back into the multiples that fit the
/// slider range. Left alone when `2·p·m` is zero or no multiple fits.
pub open spec fn spec_clamped_groove_count(config: MotorConfig) -> usize {
    let d = belt_count(config);
    if d == 0 || lowest_multiple(d) > highest_multiple(d) {
        config.groove_count
    } else {
        let snapped = ((config.groove_count + d / 2) / d) * d;
        if snapped < lowest_multiple(d) {
            lowest_multiple(d) as usize
        } else if snapped > highest_multiple(d) {
            highest_multiple(d) as usize
        } else {
            snapped as usize
        }
    }
}

/// Ensure `groove_count` stays divisible by `2 · pole_pairs · phases`.
///
/// Snapping happens *inside* the allowed range: the value is rounded to the
/// nearest multiple of the divisor and then pulled back to the nearest
/// multiple that still fits `[6, 144]`. Clamping the raw rounded value instead
/// would land on the bound itself, which is generally not a multiple.
pub fn clamp_config(config: &mut MotorConfig)
    requires
        belt_count(*old(config)) <= usize::MAX,
        old(config).groove_count + belt_count(*old(config)) / 2 <= usize::MAX,
    ensures
        *final(config) == (MotorConfig {
            groove_count: spec_clamped_groove_count(*old(config)),
            ..*old(config)
        }),
{
    if config.pole_pairs == 0 || config.phases == 0 {
        proof {
            assert(belt_count(*config) == 0) by (nonlinear_arith)
                requires
                    config.pole_pairs == 0 || config.phases == 0,
            ;
        }
        return;
    }
    proof {
        assert(2 * config.pole_pairs <= 2 * config.pole_pairs * config.phases) by (nonlinear_arith)
            requires
                config.phases >= 1,
        ;
    }
    let divisor = 2 * config.pole_pairs * config.phases;

    let min = MIN_GROOVE_COUNT;
    let max = MAX_GROOVE_COUNT;

    // Smallest and largest multiples of `divisor` inside the allowed range.
    proof {
        lemma_lowest_multiple(divisor as int);
        vstd::arithmetic::div_mod::lemma_fundamental_div_mod(max as int, divisor as int);
        vstd::arithmetic::mul::lemma_mul_is_commutative((max / divisor) as int, divisor as int);
    }
    let lowest = if divisor >= min {
        divisor
    } else {
        divisor * ((min + divisor - 1) / divisor)
    };
    let highest = (max / divisor) * divisor;

    if lowest > highest {
        // No slot count in range satisfies the divisibility rule; leave the
        // value alone so the panel reports the configuration as invalid.
        return;
    }

    proof {
        vstd::arithmetic::div_mod::lemma_fundamental_div_mod(
            (config.groove_count + divisor / 2) as int,
            divisor as int,
        );
        vstd::arithmetic::mul::lemma_mul_is_commutative(
            ((config.groove_count + divisor / 2) as int) / (divisor as int),
            divisor as int,
        );
    }
    let snapped = ((config.groove_count + divisor / 2) / divisor) * divisor;
    config.groove_count = if snapped < lowest {
        lowest
    } else if snapped > highest {
        highest
    } else {
        snapped
    };
}

/// After `clamp_config`, any machine whose slot range holds a multiple of
/// `2·p·m` has a slot count that is such a multiple and lies within the
/// slider range.
pub proof fn lemma_clamp_config_yields_a_valid_configuration(config: MotorConfig)
    requires
        belt_count(config) > 0,
        lowest_multiple(belt_count(config)) <= highest_multiple(belt_count(config)),
    ensures
        ({
            let s = spec_clamped_groove_count(config);
            &&& s as int % belt_count(config) == 0
            &&& MIN_GROOVE_COUNT <= s <= MAX_GROOVE_COUNT
        }),
{
    let d = belt_count(config);
    let lo = lowest_multiple(d);
    let hi = highest_multiple(d);
    let up = (MIN_GROOVE_COUNT + d - 1) / d;
    vstd::arithmetic::div_mod::lemma_fundamental_div_mod(MIN_GROOVE_COUNT + d - 1, d);
    vstd::arithmetic::div_mod::lemma_fundamental_div_mod(MAX_GROOVE_COUNT as int, d);
    assert(lo >= MIN_GROOVE_COUNT) by (nonlinear_arith)
        requires
            lo == d * up,
            MIN_GROOVE_COUNT + d - 1 == d * up + (MIN_GROOVE_COUNT + d - 1) % d,
            (MIN_GROOVE_COUNT + d - 1) % d < d,
    ;
    vstd::arithmetic::div_mod::lemma_mod_multiples_basic(up, d);
    vstd::arithmetic::div_mod::lemma_mod_multiples_basic(MAX_GROOVE_COUNT as int / d, d);
    let snapped = ((config.groove_count + d / 2) / d) * d;
    vstd::arithmetic::div_mod::lemma_mod_multiples_basic((config.groove_count + d / 2) / d, d);
    assert(lo == up * d) by (nonlinear_arith)
        requires
            lo == d * up,
    ;
}

/// Clamping is idempotent: a configuration `clamp_config` produced is left
/// exactly as it is by a second pass.
pub proof fn lemma_clamp_config_is_idempotent(config: MotorConfig)
    requires
        belt_count(config) <= usize::MAX,
    ensures
        ({
            let once = MotorConfig { groove_count: spec_clamped_groove_count(config), ..config };
            spec_clamped_groove_count(once) == once.groove_count
        }),
{
    let d = belt_count(config);
    if d > 0 && lowest_multiple(d) <= highest_multiple(d) {
        lemma_clamp_config_yields_a_valid_configuration(config);
        let once = MotorConfig { groove_count: spec_clamped_groove_count(config), ..config };
        assert(belt_count(once) == d);
        let s = once.groove_count as int;
        let k = s / d;
        vstd::arithmetic::div_mod::lemma_fundamental_div_mod(s, d);
        assert(s == d * k);
        assert(s + d / 2 == k * d + d / 2) by (nonlinear_arith)
            requires
                s == d * k,
        ;
        vstd::arithmetic::div_mod::lemma_fundamental_div_mod_converse(s + d / 2, d, k, d / 2);
        assert(((s + d / 2) / d) * d == s) by (nonlinear_arith)
            requires
                (s + d / 2) / d == k,
                s == d * k,
        ;
        assert(lowest_multiple(d) <= s <= highest_multiple(d)) by {
            lemma_lowest_multiple(d);
            let lo = lowest_multiple(d);
            let hi = highest_multiple(d);
            assert(hi <= MAX_GROOVE_COUNT) by {
                vstd::arithmetic::div_mod::lemma_fundamental_div_mod(MAX_GROOVE_COUNT as int, d);
                vstd::arithmetic::mul::lemma_mul_is_commutative(MAX_GROOVE_COUNT as int / d, d);
            }
            let snapped = ((config.groove_count + d / 2) / d) * d;
            assert(snapped >= 0) by (nonlinear_arith)
                requires
                    snapped == ((config.groove_count + d / 2) / d) * d,
                    d > 0,
            ;
            if snapped < lo {
                assert(s == lo);
            } else if snapped > hi {
                assert(s == hi);
            } else {
                assert(s == snapped);
            }
        }
    } else {
        let once = MotorConfig { groove_count: spec_clamped_groove_count(config), ..config };
        assert(belt_count(once) == d);
    }
}

/// Distance between two slot counts.
pub open spec fn distance(a: int, b: int) -> int {
    if a >= b {
        a - b
    } else {
        b - a
    }
}

/// `clamp_config` snaps to the nearest valid slot count: no multiple of
/// `2·p·m` inside the slider range lies closer to the slot count the machine
/// had than the one it settles on.
pub proof fn lemma_clamp_config_snaps_to_the_nearest_valid_count(config: MotorConfig, k: int)
    requires
        belt_count(config) > 0,
        MIN_GROOVE_COUNT <= k * belt_count(config) <= MAX_GROOVE_COUNT,
    ensures
        distance(spec_clamped_groove_count(config) as int, config.groove_count as int)
            <= distance(k * belt_count(config), config.groove_count as int),
{
    let d = belt_count(config);
    let g = config.groove_count as int;
    let c = k * d;
    let up = (MIN_GROOVE_COUNT + d - 1) / d;
    let top = MAX_GROOVE_COUNT as int / d;
    let lo = lowest_multiple(d);
    let hi = highest_multiple(d);
    vstd::arithmetic::div_mod::lemma_fundamental_div_mod(MIN_GROOVE_COUNT + d - 1, d);
    vstd::arithmetic::div_mod::lemma_fundamental_div_mod(MAX_GROOVE_COUNT as int, d);
    // `c` is a multiple inside the range, so it lies between the lowest and
    // the highest multiple.
    assert(up <= k) by (nonlinear_arith)
        requires
            MIN_GROOVE_COUNT + d - 1 == d * up + (MIN_GROOVE_COUNT + d - 1) % d,
            0 <= (MIN_GROOVE_COUNT + d - 1) % d < d,
            MIN_GROOVE_COUNT <= k * d,
            d > 0,
    ;
    assert(k <= top) by (nonlinear_arith)
        requires
            MAX_GROOVE_COUNT == d * top + MAX_GROOVE_COUNT as int % d,
            0 <= MAX_GROOVE_COUNT as int % d < d,
            k * d <= MAX_GROOVE_COUNT,
            d > 0,
    ;
    assert(lo <= c <= hi) by (nonlinear_arith)
        requires
            lo == d * up,
            hi == top * d,
            c == k * d,
            up <= k <= top,
            d > 0,
    ;
    let q = (g + d / 2) / d;
    let r = (g + d / 2) % d;
    vstd::arithmetic::div_mod::lemma_fundamental_div_mod(g + d / 2, d);
    let snapped = q * d;
    assert(g + d / 2 == snapped + r) by (nonlinear_arith)
        requires
            g + d / 2 == d * q + r,
            snapped == q * d,
    ;
    let s = spec_clamped_groove_count(config) as int;
    if snapped < lo {
        // Rounding fell short of the range: `g` itself sits below the lowest
        // multiple, and every candidate lies at or above it.
        assert(q < up) by (nonlinear_arith)
            requires
                snapped == q * d,
                lo == d * up,
                snapped < lo,
                d > 0,
        ;
        assert(snapped + d <= lo) by (nonlinear_arith)
            requires
                snapped == q * d,
                lo == d * up,
                q < up,
                d > 0,
        ;
        assert(s == lo);
    } else if snapped > hi {
        assert(q > top) by (nonlinear_arith)
            requires
                snapped == q * d,
                hi == top * d,
                snapped > hi,
                d > 0,
        ;
        assert(snapped >= hi + d) by (nonlinear_arith)
            requires
                snapped == q * d,
                hi == top * d,
                q > top,
                d > 0,
        ;
        assert(s == hi);
    } else {
        assert(s == snapped);
        // `g` is within half a multiple of `snapped`, and any other multiple
        // is a whole multiple away from it.
        if k > q {
            assert(c - snapped >= d) by (nonlinear_arith)
                requires
                    c == k * d,
                    snapped == q * d,
                    k > q,
                    d > 0,
            ;
        } else if k < q {
            assert(snapped - c >= d) by (nonlinear_arith)
                requires
                    c == k * d,
                    snapped == q * d,
                    k < q,
                    d > 0,
            ;
        }
    }
}

/// The figures the panel reports for a valid machine.
#[derive(Clone, Copy, Debug, PartialEq, Eq, Structural)]
pub struct WindingReadout {
    /// Distribution index `q = S / (2·p·m)`: slots per pole per phase.
    pub q: usize,
    /// Slots per pole, `S / (2·p)`.
    pub slots_per_pole: usize,
    /// Total number of poles, `2·p`.
    pub total_poles: usize,
    /// Whether the phases are spread over half an electrical turn
    /// (`α_m = 180°/m`, an even phase count) rather than a full one
    /// (`α_m = 360°/m`).
    pub half_turn_phase_spread: bool,
}

/// Everything the panel reports rather than controls, or `None` when the
/// slots do not split into `2·p·m` belts and the panel warns instead.
pub fn winding_readout(config: &MotorConfig) -> (r: Option<WindingReadout>)
    requires
        belt_count(*config) <= usize::MAX,
    ensures
        r is Some <==> spec_is_valid(*config),
        r is Some ==> r->Some_0 == (WindingReadout {
            q: spec_q(*config) as usize,
            slots_per_pole: spec_slots_per_pole(*config) as usize,
            total_poles: (2 * config.pole_pairs) as usize,
            half_turn_phase_spread: config.phases % 2 == 0,
        }),
{
    let n = config.groove_count;
    let m = config.phases;
    let p = config.pole_pairs;
    if m == 0 || p == 0 {
        return None;
    }
    proof {
        assert(2 * p <= 2 * p * m) by (nonlinear_arith)
            requires
                m >= 1,
        ;
    }
    let belts = 2 * p * m;
    if n < belts || n % belts != 0 {
        return None;
    }
    Some(
        WindingReadout {
            q: n / belts,
            slots_per_pole: n / (2 * p),
            total_poles: 2 * p,
            half_turn_phase_spread: m % 2 == 0,
        },
    )
}

} // verus!
