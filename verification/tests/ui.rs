use emf_mmf::config::{MotorConfig, MAX_PHASES};
use emf_mmf::ui::{clamp_config, winding_readout, WindingReadout};

/// Every value reachable through the sliders must come out of
/// `clamp_config` satisfying the divisibility rule and staying in range.
#[test]
fn clamp_config_always_yields_a_valid_configuration() {
    let min = MotorConfig::minimum().groove_count;
    let max = MotorConfig::maximum().groove_count;

    for pole_pairs in MotorConfig::minimum().pole_pairs..=MotorConfig::maximum().pole_pairs {
        for phases in MotorConfig::minimum().phases..=MotorConfig::maximum().phases {
            for groove_count in min..=max {
                let mut config = MotorConfig {
                    groove_count,
                    phases,
                    pole_pairs,
                    ..Default::default()
                };
                clamp_config(&mut config);

                let divisor = 2 * pole_pairs * phases;
                assert!(
                    config.groove_count % divisor == 0,
                    "S={} not divisible by 2*p*m={} (p={}, m={}, from S={})",
                    config.groove_count,
                    divisor,
                    pole_pairs,
                    phases,
                    groove_count,
                );
                assert!(
                    (min..=max).contains(&config.groove_count),
                    "S={} out of range (p={}, m={}, from S={})",
                    config.groove_count,
                    pole_pairs,
                    phases,
                    groove_count,
                );
            }
        }
    }
}

/// Regression: rounding up used to overshoot the largest slot count, and the
/// clamp then landed on 144 — not a multiple of 96.
#[test]
fn clamp_config_snaps_down_instead_of_clamping_to_the_bound() {
    let mut config = MotorConfig {
        groove_count: 144,
        phases: 8,
        pole_pairs: 6,
        ..Default::default()
    };
    clamp_config(&mut config);
    assert_eq!(config.groove_count, 96);
}

#[test]
fn clamp_config_rounds_to_the_nearest_multiple() {
    let mut config = MotorConfig { groove_count: 25, phases: 3, pole_pairs: 1, ..Default::default() };
    clamp_config(&mut config);
    assert_eq!(config.groove_count, 24);
    config.groove_count = 27;
    clamp_config(&mut config);
    assert_eq!(config.groove_count, 30);
    // Below the range it snaps up to the lowest multiple that fits.
    config.groove_count = 1;
    clamp_config(&mut config);
    assert_eq!(config.groove_count, 6);
    // Other fields are untouched.
    assert_eq!((config.phases, config.pole_pairs, config.layers), (3, 1, 1));
}

#[test]
fn clamp_config_leaves_hopeless_or_degenerate_machines_alone() {
    // 2·p·m = 156 has no multiple in 6..=144.
    let mut config = MotorConfig { groove_count: 100, phases: 13, pole_pairs: 6, ..Default::default() };
    clamp_config(&mut config);
    assert_eq!(config.groove_count, 100);
    let mut zero = MotorConfig { groove_count: 7, phases: 0, pole_pairs: 2, ..Default::default() };
    clamp_config(&mut zero);
    assert_eq!(zero.groove_count, 7);
}

#[test]
fn clamping_twice_changes_nothing() {
    for groove_count in 0..200 {
        let mut config = MotorConfig { groove_count, phases: 3, pole_pairs: 2, ..Default::default() };
        clamp_config(&mut config);
        let once = config.clone();
        clamp_config(&mut config);
        assert_eq!(config, once);
    }
}

/// The phase sliders must never be able to address past the supported count.
#[test]
fn every_selectable_phase_is_addressable_in_the_mmf_field() {
    assert_eq!(MotorConfig::maximum().phases, MAX_PHASES);
    let shown = [true; MAX_PHASES];
    for phase in 0..MotorConfig::maximum().phases {
        assert!(emf_mmf::config::shows_phase(&shown, phase), "phase {phase} not addressable");
    }
    // Stale indices report hidden rather than panicking.
    assert!(!emf_mmf::config::shows_phase(&shown, MAX_PHASES));
}

#[test]
fn readout_of_a_valid_and_an_invalid_machine() {
    let cfg = MotorConfig { groove_count: 24, phases: 3, pole_pairs: 2, ..Default::default() };
    assert_eq!(
        winding_readout(&cfg),
        Some(WindingReadout { q: 2, slots_per_pole: 6, total_poles: 4, half_turn_phase_spread: false })
    );
    let even = MotorConfig { groove_count: 24, phases: 2, pole_pairs: 1, ..Default::default() };
    assert_eq!(winding_readout(&even).map(|r| r.half_turn_phase_spread), Some(true));
    let invalid = MotorConfig { groove_count: 24, phases: 3, pole_pairs: 3, ..Default::default() };
    assert_eq!(winding_readout(&invalid), None);
}

#[test]
fn default_and_bounds() {
    let d = MotorConfig::default();
    assert_eq!((d.groove_count, d.phases, d.short_pitched, d.layers, d.pole_pairs), (24, 3, false, 1, 1));
    let lo = MotorConfig::minimum();
    assert_eq!((lo.groove_count, lo.phases, lo.layers, lo.pole_pairs), (6, 2, 1, 1));
    let hi = MotorConfig::maximum();
    assert_eq!((hi.groove_count, hi.phases, hi.layers, hi.pole_pairs), (144, 6, 6, 6));
}

/// Over every slider position, no valid slot count in range lies closer to
/// the starting value than the one `clamp_config` picks.
#[test]
fn clamp_config_snaps_to_the_nearest_valid_count() {
    let min = MotorConfig::minimum().groove_count;
    let max = MotorConfig::maximum().groove_count;
    for pole_pairs in 1..=6usize {
        for phases in 2..=MAX_PHASES {
            let divisor = 2 * pole_pairs * phases;
            for groove_count in min..=max {
                let mut config = MotorConfig { groove_count, phases, pole_pairs, ..Default::default() };
                clamp_config(&mut config);
                let chosen = config.groove_count.abs_diff(groove_count);
                for candidate in (min..=max).filter(|c| c % divisor == 0) {
                    assert!(
                        chosen <= candidate.abs_diff(groove_count),
                        "S={groove_count} p={pole_pairs} m={phases}: {} is closer than {}",
                        candidate,
                        config.groove_count
                    );
                }
            }
        }
    }
}
