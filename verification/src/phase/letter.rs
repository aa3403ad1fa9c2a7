//! Single-letter phase labels.

use vstd::prelude::*;

verus! {

/// Code point of the letter labelling `phase`: `A`, `B`, `C`, … wrapping
/// after `Z`.
pub open spec fn spec_phase_letter(phase: int) -> int {
    65 + phase % 26
}

/// Single-letter label for a phase: A, B, C, …
///
/// Wraps at 26 rather than at the phase count, so no two phases of a legal
/// configuration ever share a letter.
pub fn phase_letter(phase: usize) -> (r: char)
    ensures
        r as int == spec_phase_letter(phase as int),
        r as int == 65 + phase as int % 26,
{
    let code: u8 = 65 + (phase % 26) as u8;
    code as char
}

/// Phase letters are distinct within any 26 consecutive phases, and repeat
/// every 26.
pub proof fn lemma_phase_letters_are_distinct(a: int, b: int)
    requires
        0 <= a,
        0 <= b,
    ensures
        (a < b < a + 26) ==> spec_phase_letter(a) != spec_phase_letter(b),
        spec_phase_letter(a + 26) == spec_phase_letter(a),
{
    vstd::arithmetic::div_mod::lemma_fundamental_div_mod(a, 26);
    vstd::arithmetic::div_mod::lemma_fundamental_div_mod(b, 26);
    vstd::arithmetic::div_mod::lemma_mod_add_multiples_vanish(a, 26);
}

/// Letters run in alphabetical order: phase 0 is `A`, and each next phase
/// takes the next letter until `Z`, after which the labels start again at
/// `A`.
pub proof fn lemma_phase_letters_run_in_alphabetical_order(k: int)
    requires
        0 <= k,
    ensures
        spec_phase_letter(0) == 'A' as int,
        k % 26 < 25 ==> spec_phase_letter(k + 1) == spec_phase_letter(k) + 1,
        k % 26 == 25 ==> spec_phase_letter(k + 1) == 'A' as int,
        'A' as int <= spec_phase_letter(k) <= 'Z' as int,
{
    vstd::arithmetic::div_mod::lemma_fundamental_div_mod(k, 26);
    vstd::arithmetic::div_mod::lemma_fundamental_div_mod(k + 1, 26);
    vstd::arithmetic::div_mod::lemma_mod_bound(k, 26);
    if k % 26 < 25 {
        vstd::arithmetic::div_mod::lemma_fundamental_div_mod_converse(k + 1, 26, k / 26, k % 26 + 1);
    } else {
        vstd::arithmetic::div_mod::lemma_fundamental_div_mod_converse(k + 1, 26, k / 26 + 1, 0);
    }
}

} // verus!
