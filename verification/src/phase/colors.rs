//! The fixed phase palette.

use vstd::prelude::*;

use crate::config::MAX_PHASES;

verus! {

/// An sRGB colour with 8 bits per channel.
#[derive(Clone, Copy, Debug, PartialEq, Eq, Structural)]
pub struct Rgb8 {
    pub r: u8,
    pub g: u8,
    pub b: u8,
}

/// The phase palette, in fixed slot order.
///
/// These are chosen, not generated: red and blue belong to magnetic
/// polarity, so an evenly spread hue wheel would land on both. The order is
/// part of the design — it keeps neighbouring slots apart under colour-vision
/// deficiency — so slots are assigned in sequence and never reordered.
pub open spec fn palette(slot: int) -> Rgb8 {
    if slot == 0 {
        Rgb8 { r: 16, g: 80, b: 50 }  // Dark Forest Green

    } else if slot == 1 {
        Rgb8 { r: 217, g: 119, b: 6 }  // Deep Amber

    } else if slot == 2 {
        Rgb8 { r: 107, g: 33, b: 168 }  // Royal Amethyst

    } else if slot == 3 {
        Rgb8 { r: 14, g: 116, b: 144 }  // Deep Ocean Teal

    } else if slot == 4 {
        Rgb8 { r: 136, g: 19, b: 55 }  // Crimson Wine

    } else {
        Rgb8 { r: 194, g: 65, b: 12 }  // Burnt Terracotta

    }
}

/// Entry `slot` of the palette.
fn palette_entry(slot: usize) -> (c: Rgb8)
    ensures
        c == palette(slot as int),
{
    if slot == 0 {
        Rgb8 { r: 16, g: 80, b: 50 }
    } else if slot == 1 {
        Rgb8 { r: 217, g: 119, b: 6 }
    } else if slot == 2 {
        Rgb8 { r: 107, g: 33, b: 168 }
    } else if slot == 3 {
        Rgb8 { r: 14, g: 116, b: 144 }
    } else if slot == 4 {
        Rgb8 { r: 136, g: 19, b: 55 }
    } else {
        Rgb8 { r: 194, g: 65, b: 12 }
    }
}

/// The phase count the palette is indexed with: clamped into
/// `1..=MAX_PHASES`.
pub open spec fn palette_span(total_phases: int) -> int {
    if total_phases < 1 {
        1
    } else if total_phases > MAX_PHASES {
        MAX_PHASES as int
    } else {
        total_phases
    }
}

/// Colour of `phase` in a machine of `total_phases`, wrapping if the index
/// runs past the phase count.
pub open spec fn spec_phase_color(phase: int, total_phases: int) -> Rgb8 {
    palette(phase % palette_span(total_phases))
}

/// Colour of `phase`, wrapping if the index runs past the phase count.
pub fn phase_color(phase: usize, total_phases: usize) -> (c: Rgb8)
    ensures
        c == spec_phase_color(phase as int, total_phases as int),
        phase < total_phases <= MAX_PHASES ==> c == palette_order()[phase as int],
{
    let total = if total_phases < 1 {
        1
    } else if total_phases > MAX_PHASES {
        MAX_PHASES
    } else {
        total_phases
    };
    proof {
        if phase < total_phases && total_phases <= MAX_PHASES {
            vstd::arithmetic::div_mod::lemma_small_mod(phase as nat, total as nat);
        }
    }
    palette_entry(phase % total)
}

/// The palette in slot order: forest green, amber, amethyst, ocean teal,
/// crimson wine, burnt terracotta.
pub open spec fn palette_order() -> Seq<Rgb8> {
    seq![
        Rgb8 { r: 16, g: 80, b: 50 },
        Rgb8 { r: 217, g: 119, b: 6 },
        Rgb8 { r: 107, g: 33, b: 168 },
        Rgb8 { r: 14, g: 116, b: 144 },
        Rgb8 { r: 136, g: 19, b: 55 },
        Rgb8 { r: 194, g: 65, b: 12 },
    ]
}

/// Phase `k` of any machine that has it gets entry `k` of the fixed palette
/// order: A forest green, B amber, C amethyst, D ocean teal, E crimson wine,
/// F burnt terracotta.
pub proof fn lemma_phases_take_the_palette_in_order(phase: int, total: int)
    requires
        0 <= phase < total <= MAX_PHASES,
    ensures
        spec_phase_color(phase, total) == palette_order()[phase],
{
    vstd::arithmetic::div_mod::lemma_small_mod(phase as nat, total as nat);
}

/// Every phase of a machine gets its own colour.
pub proof fn lemma_every_phase_of_a_machine_gets_its_own_colour(a: int, b: int, total: int)
    requires
        1 <= total <= MAX_PHASES,
        0 <= a < b < total,
    ensures
        spec_phase_color(a, total) != spec_phase_color(b, total),
{
    vstd::arithmetic::div_mod::lemma_small_mod(a as nat, total as nat);
    vstd::arithmetic::div_mod::lemma_small_mod(b as nat, total as nat);
}

/// The palette is indexed by slot, so a phase keeps its colour whatever the
/// machine's phase count: identity does not depend on the total.
pub proof fn lemma_a_phase_keeps_its_colour_across_phase_counts(
    phase: int,
    total_a: int,
    total_b: int,
)
    requires
        0 <= phase < total_a <= MAX_PHASES,
        phase < total_b <= MAX_PHASES,
    ensures
        spec_phase_color(phase, total_a) == spec_phase_color(phase, total_b),
{
    vstd::arithmetic::div_mod::lemma_small_mod(phase as nat, total_a as nat);
    vstd::arithmetic::div_mod::lemma_small_mod(phase as nat, total_b as nat);
}

/// An index past the phase count wraps round to the same colour, whatever the
/// phase count — including counts outside the supported range, which are
/// clamped rather than indexing past the palette.
pub proof fn lemma_the_phase_index_wraps(phase: int, total: int)
    requires
        0 <= phase,
    ensures
        spec_phase_color(phase + palette_span(total), total) == spec_phase_color(phase, total),
{
    vstd::arithmetic::div_mod::lemma_mod_add_multiples_vanish(phase, palette_span(total));
}

} // verus!
