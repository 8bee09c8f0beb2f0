use tune::layout::Genchain;
use tune::layout::IsomorphicLayout;
use tune::layout::Layer;

fn layouts(patent_val: &[u16], b_val: Option<&[u16]>) -> Vec<IsomorphicLayout> {
    IsomorphicLayout::find_by_vals(patent_val, b_val)
}

#[test]
fn layout_note_names_31_edo() {
    let positive_sharpness = layouts(&[31, 49, 72], None).into_iter().next().unwrap();

    assert_eq!(positive_sharpness.genchain(), Genchain::Meantone7);
    assert_eq!(positive_sharpness.get_note_name(0), "D");
    assert_eq!(positive_sharpness.get_note_name(1), "Ebb");
    assert_eq!(positive_sharpness.get_note_name(18), "A");
    assert_eq!(positive_sharpness.get_note_name(25), "B#");
    assert_eq!(positive_sharpness.get_scale_name(), "diatonic");
    assert_eq!(positive_sharpness.wart(), "");
    assert!(!positive_sharpness.b_val());
}

#[test]
fn layout_note_names_16_edo() {
    let all = layouts(&[16, 25, 37], Some(&[16, 26, 37]));
    let negative_sharpness = all.into_iter().nth(1).unwrap();

    assert_eq!(negative_sharpness.get_note_name(0), "D");
    assert_eq!(negative_sharpness.get_note_name(1), "D+/E-");
    assert_eq!(negative_sharpness.get_note_name(9), "A");
    assert_eq!(negative_sharpness.get_note_name(12), "B+");
    assert!(negative_sharpness.mos().sharpness() < 0);
}

#[test]
fn layout_colors_17_edo() {
    let (n, s, f) = (Layer::Natural, Layer::Sharp, Layer::Flat);
    let layout = &layouts(&[17, 27, 39], None)[0];
    assert_eq!(
        layout.get_layers(),
        &[
            n,
            f(0),
            s(0),
            n,
            n,
            f(0),
            s(0),
            n,
            f(0),
            s(0),
            n,
            f(0),
            s(0),
            n,
            n,
            f(0),
            s(0),
        ]
    );
}

#[test]
fn layout_colors_24_edo() {
    let (n, s, f, e) = (Layer::Natural, Layer::Sharp, Layer::Flat, Layer::Enharmonic);
    let layout = &layouts(&[24, 38, 56], None)[0];
    assert_eq!(
        layout.get_layers(),
        &[
            n,
            s(0),
            e(1),
            f(0),
            n,
            s(0),
            n,
            s(0),
            e(1),
            f(0),
            n,
            s(0),
            e(1),
            f(0),
            n,
            s(0),
            e(1),
            f(0),
            n,
            s(0),
            n,
            s(0),
            e(1),
            f(0),
        ]
    );
}

#[test]
fn layout_mos_layers_19_edo() {
    let layout = &layouts(&[19, 30, 44], None)[0];
    assert_eq!(
        layout.mos().get_layers(),
        &[0, 0, 0, 0, 0, 0, 0, 1, 1, 1, 1, 1, 2, 2, 3, 3, 3, 3, 3]
    );
    assert_eq!(layouts(&[24, 38, 56], None)[0].mos().get_layers(), &[0, 0, 0, 0, 0, 0, 0, 1, 1, 1, 1, 1]);
    assert_eq!(layouts(&[7, 11, 16], None)[0].mos().get_layers(), &[0, 0, 0, 0, 0, 0, 0]);
}

#[test]
fn layout_12_edo_genchains_and_steps() {
    let all = layouts(&[12, 19, 28], None);
    let genchains: Vec<Genchain> = all.iter().map(|layout| layout.genchain()).collect();
    assert_eq!(genchains, vec![Genchain::Meantone7, Genchain::Meantone5]);

    let meantone = &all[0];
    assert_eq!(meantone.mos().primary_step(), 2);
    assert_eq!(meantone.mos().secondary_step(), 1);
    assert_eq!(meantone.pergen().period(), 12);
    assert_eq!(meantone.pergen().generator(), 7);
    assert_eq!(meantone.get_scale_name(), "diatonic");
    let names: Vec<String> = (0..12).map(|index| meantone.get_note_name(index)).collect();
    assert_eq!(names.join(", "), "D, D#/Eb, E, F, F#/Gb, G, G#/Ab, A, A#/Bb, B, C, C#/Db");
    let accidentals = meantone.get_accidentals(1);
    assert_eq!(accidentals.sharp_count, 1);
    assert_eq!(accidentals.flat_count, 1);
}

#[test]
fn layout_b_val_fallback_and_wart() {
    // Without an alternative val, the genchains that need it are missing.
    let patent_only = layouts(&[16, 25, 37], None);
    let with_b_val = layouts(&[16, 25, 37], Some(&[16, 26, 37]));
    assert!(with_b_val.len() >= patent_only.len());
    assert!(with_b_val.iter().any(|layout| layout.b_val() && layout.wart() == "b"));
    assert!(patent_only.iter().all(|layout| !layout.b_val() && layout.wart().is_empty()));
}

#[test]
fn layout_multi_cycle_note_names() {
    // 24-EDO: the fifth of 14 steps yields two cycles of 12 steps
    let layout = &layouts(&[24, 38, 56], None)[0];
    assert_eq!(layout.pergen().num_cycles(), 2);
    assert_eq!(layout.get_note_name(0), "D");
    assert_eq!(layout.get_note_name(1), "D*");
    assert_eq!(layout.get_note_name(2), "(D#/Eb)");
}

#[test]
fn genchain_display_names() {
    assert_eq!(Genchain::Mavila9.display_name(), "Mavila[9]");
    assert_eq!(Genchain::Meantone7.display_name(), "Meantone[7]");
    assert_eq!(Genchain::Meantone5.display_name(), "Meantone[5]");
    assert_eq!(Genchain::Porcupine8.display_name(), "Porcupine[8]");
    assert_eq!(Genchain::Tetracot7.display_name(), "Tetracot[7]");
    assert_eq!(Genchain::Hanson7.display_name(), "Hanson[7]");
}
