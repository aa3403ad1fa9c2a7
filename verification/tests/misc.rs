use emf_mmf::cli::{gen_i18n_dir, strip_icon_font_paths};
use emf_mmf::font::strip_gpos_gsub;
use emf_mmf::i18n::{offered, offered_index, short_tag, Languages, DEFAULT_LANGUAGE};
use emf_mmf::vectors::mmf::resultant_poles;
use emf_mmf::winding::{Conductor, Direction};
use emf_mmf::winding_scheme::winding_function_samples;

/// One arrow per pole pair, and always the north of the pair.
#[test]
fn one_resultant_arrow_per_pole_pair() {
    for pole_pairs in 1..=6_usize {
        let poles: Vec<_> = resultant_poles(pole_pairs);
        assert_eq!(poles.len(), pole_pairs, "p={pole_pairs}");
        assert!(
            poles.iter().all(|pole| pole % 2 == 0),
            "p={pole_pairs}: a south pole slipped in: {poles:?}"
        );
    }
    assert_eq!(resultant_poles(3), vec![0, 2, 4]);
    assert!(resultant_poles(0).is_empty());
}

fn font(tags: &[&[u8; 4]], declared: u16) -> Vec<u8> {
    let mut ttf = vec![0_u8; 12];
    ttf[4..6].copy_from_slice(&declared.to_be_bytes());
    for tag in tags {
        ttf.extend_from_slice(*tag);
        ttf.extend_from_slice(&[7; 12]);
    }
    ttf
}

#[test]
fn gpos_and_gsub_tags_are_renamed_and_nothing_else() {
    let ttf = font(&[b"cmap", b"GPOS", b"glyf", b"GSUB"], 4);
    let out = strip_gpos_gsub(&ttf);
    assert_eq!(out.len(), ttf.len());
    assert_eq!(&out[12..16], b"cmap");
    assert_eq!(&out[28..32], b"XPOS");
    assert_eq!(&out[44..48], b"glyf");
    assert_eq!(&out[60..64], b"XSUB");
    for (k, (a, b)) in ttf.iter().zip(out.iter()).enumerate() {
        if k != 28 && k != 60 {
            assert_eq!(a, b, "byte {k} changed");
        }
    }
    // Stripping again changes nothing.
    assert_eq!(strip_gpos_gsub(&out), out);
}

#[test]
fn only_announced_records_that_fit_are_touched() {
    // The header announces one table, so the GSUB record is not a record.
    let ttf = font(&[b"GPOS", b"GSUB"], 1);
    let out = strip_gpos_gsub(&ttf);
    assert_eq!(&out[12..16], b"XPOS");
    assert_eq!(&out[28..32], b"GSUB");
    // A record cut short by the end of the file is left alone.
    let mut cut = font(&[b"GPOS"], 2);
    cut.extend_from_slice(b"GS");
    let out = strip_gpos_gsub(&cut);
    assert_eq!(&out[28..30], b"GS");
    // Too short for an offset table: returned as is.
    assert_eq!(strip_gpos_gsub(b"GPOS"), b"GPOS".to_vec());
}

fn args(list: &[&str]) -> Vec<String> {
    list.iter().map(|s| s.to_string()).collect()
}

#[test]
fn gen_i18n_takes_the_argument_after_the_first_flag() {
    assert_eq!(gen_i18n_dir(&args(&["--gen-i18n", "out"])), Some("out".to_string()));
    assert_eq!(
        gen_i18n_dir(&args(&["x", "--gen-i18n", "a", "--gen-i18n", "b"])),
        Some("a".to_string())
    );
    assert_eq!(gen_i18n_dir(&args(&["x", "--gen-i18n"])), None);
    assert_eq!(gen_i18n_dir(&args(&["out"])), None);
    assert_eq!(gen_i18n_dir(&args(&[])), None);
}

#[test]
fn strip_icon_font_needs_both_paths() {
    assert_eq!(
        strip_icon_font_paths(&args(&["--strip-icon-font", "in.ttf", "out.ttf", "x"])),
        Some(("in.ttf".to_string(), "out.ttf".to_string()))
    );
    assert_eq!(strip_icon_font_paths(&args(&["--strip-icon-font", "in.ttf"])), None);
    assert_eq!(strip_icon_font_paths(&args(&["--gen-i18n", "d"])), None);
}

#[test]
fn languages_and_tags() {
    assert_eq!(DEFAULT_LANGUAGE, Languages::PtBr);
    assert_eq!(offered(), [Languages::PtBr, Languages::En]);
    assert_eq!(short_tag(Languages::PtBr), "PT");
    assert_eq!(short_tag(Languages::Pt), "PT");
    assert_eq!(short_tag(Languages::En), "EN");
    assert_eq!(short_tag(Languages::EnUs), "EN");
}

#[test]
fn the_selector_highlights_only_offered_languages() {
    assert_eq!(offered_index(Languages::PtBr), Some(0));
    assert_eq!(offered_index(Languages::En), Some(1));
    assert_eq!(offered_index(Languages::Pt), None);
    assert_eq!(offered_index(Languages::EnUs), None);
}

fn wire(slot: usize, phase: usize, direction: Direction) -> Conductor {
    Conductor { slot, index: 0, layer: 0, phase, direction }
}

#[test]
fn winding_function_is_a_running_sum_of_unit_steps() {
    // Four slots, eight samples: slot s steps at sample 2s.
    let conductors = [
        wire(0, 0, Direction::In),
        wire(1, 1, Direction::Out),
        wire(2, 0, Direction::Out),
        wire(3, 0, Direction::Out),
    ];
    let wf = winding_function_samples(4, 2, &conductors, 8);
    assert_eq!(wf.len(), 2);
    assert_eq!(wf[0], vec![-1, -1, -1, -1, 0, 0, 1, 1]);
    assert_eq!(wf[1], vec![0, 0, 1, 1, 1, 1, 1, 1]);
}

#[test]
fn winding_function_rounds_the_step_up_and_drops_the_overflow() {
    // Three slots over four samples: slot 1 steps at ⌈4/3⌉ = 2, slot 2 at ⌈8/3⌉ = 3.
    let conductors = [wire(1, 0, Direction::Out), wire(2, 0, Direction::Out)];
    let wf = winding_function_samples(3, 0, &conductors, 4);
    assert_eq!(wf, vec![vec![0, 0, 1, 2]]);
    // One sample per slot: slot s steps at s.
    let wf = winding_function_samples(3, 1, &conductors, 3);
    assert_eq!(wf, vec![vec![0, 1, 2]]);
    // With no conductors every staircase is flat.
    assert_eq!(winding_function_samples(0, 2, &[], 2), vec![vec![0, 0], vec![0, 0]]);
}
