//! The languages the panel offers.

use vstd::prelude::*;

verus! {

/// A language a catalog can be written in.
#[derive(Clone, Copy, Debug, PartialEq, Eq, Structural)]
pub enum Languages {
    PtBr,
    Pt,
    En,
    EnUs,
}

/// The language the panel starts in.
pub const DEFAULT_LANGUAGE: Languages = Languages::PtBr;

/// The languages offered in the selector, in display order.
///
/// Only these two have catalogs; offering one without would blank the UI.
pub fn offered() -> (r: [Languages; 2])
    ensures
        r@ == seq![Languages::PtBr, Languages::En],
{
    let r = [Languages::PtBr, Languages::En];
    assert(r@ =~= seq![Languages::PtBr, Languages::En]);
    r
}

/// Whether `lang` is written in Portuguese (any variant).
pub open spec fn is_portuguese(lang: Languages) -> bool {
    lang == Languages::PtBr || lang == Languages::Pt
}

/// Two-letter tag for the selector button: `"PT"` for either Portuguese,
/// `"EN"` for either English.
pub fn short_tag(lang: Languages) -> (r: &'static str)
    ensures
        is_portuguese(lang) ==> r@ == "PT"@,
        !is_portuguese(lang) ==> r@ == "EN"@,
{
    match lang {
        Languages::PtBr | Languages::Pt => "PT",
        Languages::En | Languages::EnUs => "EN",
    }
}

/// Position of `lang` among the offered languages, for the selector's
/// highlighted button; `None` for a language that is not offered.
pub fn offered_index(lang: Languages) -> (r: Option<usize>)
    ensures
        r == (match lang {
            Languages::PtBr => Some(0usize),
            Languages::En => Some(1usize),
            _ => None,
        }),
{
    let offered = offered();
    let mut i: usize = 0;
    while i < 2
        invariant
            offered@ == seq![Languages::PtBr, Languages::En],
            i <= 2,
            forall|j: int| 0 <= j < i ==> offered@[j] != lang,
        decreases 2 - i,
    {
        if offered[i] == lang {
            return Some(i);
        }
        i = i + 1;
    }
    None
}

} // verus!
