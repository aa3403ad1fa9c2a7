use bevy::color::{Color, Oklaba};
use emf_mmf::config::MAX_PHASES;
use emf_mmf::phase::colors::{phase_color, Rgb8};
use emf_mmf::phase::letter::phase_letter;

fn as_bevy(c: Rgb8) -> Color {
    Color::srgb_u8(c.r, c.g, c.b)
}

/// Perceived distance between two colours, in OKLab.
fn perceptual_distance(a: Color, b: Color) -> f32 {
    let (a, b): (Oklaba, Oklaba) = (a.into(), b.into());
    ((a.lightness - b.lightness).powi(2) + (a.a - b.a).powi(2) + (a.b - b.b).powi(2)).sqrt()
}

/// How close a phase colour may come to a polarity colour, as an OKLab
/// distance.
const POLARITY_GUARD: f32 = 0.05;

/// The guarantee the palette was chosen for: no phase may be mistaken for
/// the colours the field overlay paints polarity with.
#[test]
fn no_phase_colour_lands_near_a_polarity_colour() {
    let reserved = [
        ("north", Color::srgb(0.78, 0.02, 0.03)),
        ("south", Color::srgb(0.02, 0.09, 0.82)),
    ];

    for total in 1..=MAX_PHASES {
        for phase in 0..total {
            let color = as_bevy(phase_color(phase, total));
            for (pole, polarity) in reserved {
                let distance = perceptual_distance(color, polarity);
                assert!(
                    distance >= POLARITY_GUARD,
                    "m={total} phase {phase} sits {distance:.4} from the {pole} rim \
                     — guard is {POLARITY_GUARD}"
                );
            }
        }
    }
}

/// Two phases of the same machine must never share a colour.
#[test]
fn every_phase_of_a_machine_gets_its_own_colour() {
    for total in 1..=MAX_PHASES {
        let colors: Vec<_> = (0..total).map(|p| phase_color(p, total)).collect();
        for (i, a) in colors.iter().enumerate() {
            for b in &colors[i + 1..] {
                assert_ne!(a, b, "m={total}: two phases share a colour");
            }
        }
    }
}

/// Phase `k` keeps its colour whatever the machine's phase count.
#[test]
fn a_phase_keeps_its_colour_across_phase_counts() {
    for phase in 0..3 {
        let reference = phase_color(phase, 3);
        for total in (phase + 1)..=MAX_PHASES {
            assert_eq!(
                phase_color(phase, total),
                reference,
                "phase {phase} changed colour at m={total}"
            );
        }
    }
}

/// An index past the phase count wraps rather than running off the palette.
#[test]
fn the_phase_index_wraps() {
    assert_eq!(phase_color(0, 3), phase_color(3, 3));
    assert_eq!(phase_color(1, 3), phase_color(4, 3));
}

/// A phase count outside the supported range must not index past the end.
#[test]
fn an_out_of_range_phase_count_is_clamped() {
    for total in [0_usize, MAX_PHASES + 1, 100] {
        for phase in 0..12 {
            let _ = phase_color(phase, total);
        }
    }
}

#[test]
fn the_palette_in_slot_order() {
    assert_eq!(phase_color(0, 6), Rgb8 { r: 16, g: 80, b: 50 });
    assert_eq!(phase_color(5, 6), Rgb8 { r: 194, g: 65, b: 12 });
    // A single-phase count puts everything on slot 0; 100 phases clamp to 6.
    assert_eq!(phase_color(4, 0), phase_color(0, 1));
    assert_eq!(phase_color(7, 100), phase_color(1, 6));
}

#[test]
fn phase_letters_run_a_to_z_and_wrap() {
    assert_eq!(phase_letter(0), 'A');
    assert_eq!(phase_letter(2), 'C');
    assert_eq!(phase_letter(25), 'Z');
    assert_eq!(phase_letter(26), 'A');
    let letters: Vec<char> = (0..26).map(phase_letter).collect();
    for (i, a) in letters.iter().enumerate() {
        assert!(!letters[i + 1..].contains(a));
    }
}
