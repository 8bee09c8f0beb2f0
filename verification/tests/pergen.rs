use tune::pergen::AccidentalsFormat;
use tune::pergen::AccidentalsOrder;
use tune::pergen::Mos;
use tune::pergen::NoteFormatter;
use tune::pergen::PerGen;

#[test]
fn small_edo_notation_with_different_genchain_origins() {
    assert_eq!(hexatonic_names(1, 1, 2), "G");
    assert_eq!(heptatonic_names(1, 1, 2), "G");
    assert_eq!(hexatonic_names(1, 1, 3), "D");
    assert_eq!(heptatonic_names(1, 1, 3), "D");
    assert_eq!(hexatonic_names(1, 1, 4), "A");
    assert_eq!(heptatonic_names(1, 1, 4), "A");

    assert_eq!(hexatonic_names(2, 1, 2), "G, D/C");
    assert_eq!(heptatonic_names(2, 1, 2), "G, D/C");
    assert_eq!(hexatonic_names(2, 1, 3), "D, A/G");
    assert_eq!(heptatonic_names(2, 1, 3), "D, A/G");
    assert_eq!(hexatonic_names(2, 1, 4), "A, E/D");
    assert_eq!(heptatonic_names(2, 1, 4), "A, E/D");

    assert_eq!(hexatonic_names(3, 2, 2), "G, A/C, D/F");
    assert_eq!(heptatonic_names(3, 2, 2), "G, A/C, D/F");
    assert_eq!(hexatonic_names(3, 2, 3), "D, E/G, A/C");
    assert_eq!(heptatonic_names(3, 2, 3), "D, E/G, A/C");
    assert_eq!(hexatonic_names(3, 2, 4), "A, D, E/G");
    assert_eq!(heptatonic_names(3, 2, 4), "A, B/D, E/G");

    assert_eq!(hexatonic_names(4, 3, 2), "G, E/C, A/F, D");
    assert_eq!(heptatonic_names(4, 3, 2), "G, E/C, A/F, D");
    assert_eq!(hexatonic_names(4, 3, 3), "D, G, E/C, A/F");
    assert_eq!(heptatonic_names(4, 3, 3), "D, B/G, E/C, A/F");
    assert_eq!(hexatonic_names(4, 3, 4), "A, D, G, E/C");
    assert_eq!(heptatonic_names(4, 3, 4), "A, D, B/G, E/C");

    assert_eq!(hexatonic_names(5, 3, 2), "G, A, C, D, E/F");
    assert_eq!(heptatonic_names(5, 3, 2), "G, A, B/C, D, E/F");
    assert_eq!(hexatonic_names(5, 3, 3), "D, E/F, G, A, C");
    assert_eq!(heptatonic_names(5, 3, 3), "D, E/F, G, A, B/C");
    assert_eq!(hexatonic_names(5, 3, 4), "A, C, D, E/F, G");
    assert_eq!(heptatonic_names(5, 3, 4), "A, B/C, D, E/F, G");
}

#[test]
fn heptatonic_12edo_notation() {
    assert_eq!(
        heptatonic_names(12, 7, 1),
        "C, C#/Db, D, D#/Eb, E, F, F#/Gb, G, G#/Ab, A, A#/Bb, B"
    );
    assert_eq!(
        heptatonic_names(12, 7, 3),
        "D, D#/Eb, E, F, F#/Gb, G, G#/Ab, A, A#/Bb, B, C, C#/Db"
    );
}

#[test]
fn octatonic_13edo_notation() {
    assert_eq!(
        octatonic_names(13, 8, 4),
        "A, Ab/B#, B, C, Cb/D#, D, Db/E#, E, F, Fb/G#, G, H, Hb/A#"
    );
    assert_eq!(
        octatonic_names(13, 8, 3),
        "D, Db/E#, E, F, Fb/G#, G, H, Hb/A#, A, Ab/B#, B, C, Cb/D#"
    );
}

fn hexatonic_names(period: u16, generator: u16, genchain_origin: u16) -> String {
    note_name(
        period,
        generator,
        &['F', 'C', 'G', 'D', 'A', 'E'],
        genchain_origin,
        AccidentalsOrder::SharpFlat,
    )
}

fn heptatonic_names(period: u16, generator: u16, genchain_origin: u16) -> String {
    note_name(
        period,
        generator,
        &['F', 'C', 'G', 'D', 'A', 'E', 'B'],
        genchain_origin,
        AccidentalsOrder::SharpFlat,
    )
}

fn octatonic_names(period: u16, generator: u16, offset: u16) -> String {
    note_name(
        period,
        generator,
        &['E', 'B', 'G', 'D', 'A', 'F', 'C', 'H'],
        offset,
        AccidentalsOrder::FlatSharp,
    )
}

fn note_name(
    period: u16,
    generator: u16,
    note_names: &'static [char],
    genchain_origin: u16,
    order: AccidentalsOrder,
) -> String {
    let pergen = PerGen::new(period, generator);
    let acc_format = AccidentalsFormat {
        num_symbols: u16::try_from(note_names.len()).unwrap(),
        genchain_origin,
    };
    let formatter = NoteFormatter {
        note_names: note_names.to_vec(),
        sharp_sign: '#',
        flat_sign: 'b',
        cycle_sign: '*',
        order,
    };

    (0..period)
        .map(|index| formatter.format(&pergen.get_accidentals(&acc_format, index)))
        .collect::<Vec<_>>()
        .join(", ")
}

#[test]
fn mos_new_genesis_and_child() {
    let mos = Mos::new_genesis(12, 7);
    assert_eq!(mos.size(), 12);
    assert_eq!(mos.num_steps(), 2);
    assert_eq!(mos.num_primary_steps(), 1);
    assert_eq!(mos.num_secondary_steps(), 1);
    assert_eq!(mos.primary_step(), 7);
    assert_eq!(mos.secondary_step(), 5);

    let tritave = Mos::new_genesis(12, 19);
    assert_eq!(tritave.primary_step(), 7);
    assert_eq!(tritave.secondary_step(), 5);

    let child = mos.child().unwrap();
    assert_eq!(child.size(), 12);
    assert_eq!(child.num_steps(), 3);
    assert_eq!(child.num_primary_steps(), 1);
    assert_eq!(child.num_secondary_steps(), 2);
    assert_eq!(child.primary_step(), 2);
    assert_eq!(child.secondary_step(), 5);

    let critical = *mos.children().last().unwrap();
    assert_eq!(critical.primary_step(), 1);
    assert_eq!(critical.secondary_step(), 1);
    assert!(critical.child().is_none());

    // Walking back from a child reaches its parent again.
    let parent = child.parent().unwrap();
    assert_eq!(parent.num_primary_steps(), 1);
    assert_eq!(parent.num_secondary_steps(), 1);
    assert_eq!(parent.primary_step(), 7);
    assert_eq!(parent.secondary_step(), 5);
}

#[test]
fn mos_collapsed_and_genesis() {
    let mos = Mos::new_collapsed(5, 2);
    assert_eq!(mos.size(), 5);
    assert_eq!(mos.num_steps(), 7);
    assert_eq!(mos.primary_step(), 1);
    assert_eq!(mos.secondary_step(), 0);

    let genesis = mos.genesis();
    assert_eq!(genesis.num_primary_steps(), 1);
    assert_eq!(genesis.num_secondary_steps(), 1);
    assert_eq!(genesis.primary_step(), 3);
    assert_eq!(genesis.secondary_step(), 2);
    assert_eq!(genesis.size(), 5);

    let mirror_genesis = Mos::new_collapsed(2, 5).genesis();
    assert_eq!(mirror_genesis.num_primary_steps(), 1);
    assert_eq!(mirror_genesis.num_secondary_steps(), 1);
    assert_eq!(mirror_genesis.primary_step(), 1);
    assert_eq!(mirror_genesis.secondary_step(), 1);
    assert_eq!(mirror_genesis.size(), 2);
}

#[test]
fn mos_new_dual_mirror() {
    let diatonic = Mos::new(5, 2, 2, 1).unwrap();
    assert_eq!(diatonic.size(), 12);
    assert_eq!(diatonic.num_steps(), 7);
    assert!(Mos::new(200, 200, 200, 200).is_none());

    let mos = Mos::new(5, 2, 5, 3).unwrap();
    let dual = mos.dual();
    assert_eq!(dual.num_primary_steps(), 5);
    assert_eq!(dual.num_secondary_steps(), 3);
    assert_eq!(dual.primary_step(), 5);
    assert_eq!(dual.secondary_step(), 2);

    let dark = diatonic.mirror();
    assert_eq!(dark.num_primary_steps(), 2);
    assert_eq!(dark.num_secondary_steps(), 5);
    assert_eq!(dark.primary_step(), 1);
    assert_eq!(dark.secondary_step(), 2);
    assert_eq!(diatonic.sharpness(), 1);
    assert_eq!(dark.sharpness(), -1);
}

#[test]
fn mos_coprime() {
    let already = Mos::new(5, 2, 3, 2).unwrap().coprime();
    assert_eq!(already.primary_step(), 3);
    assert_eq!(already.secondary_step(), 2);
    assert_eq!(already.size(), 19);

    let positive = Mos::new(5, 2, 4, 2).unwrap().coprime();
    assert_eq!(positive.primary_step(), 4);
    assert_eq!(positive.secondary_step(), 3);
    assert_eq!(positive.size(), 26);

    let negative = Mos::new(2, 5, 2, 4).unwrap().coprime();
    assert_eq!(negative.primary_step(), 2);
    assert_eq!(negative.secondary_step(), 3);
    assert_eq!(negative.size(), 19);

    let zero = Mos::new(2, 5, 2, 2).unwrap().coprime();
    assert_eq!(zero.primary_step(), 2);
    assert_eq!(zero.secondary_step(), 1);
    assert_eq!(zero.size(), 9);

    let large = Mos::new(2, 5, 6, 2).unwrap().coprime();
    assert_eq!(large.primary_step(), 6);
    assert_eq!(large.secondary_step(), 5);
    assert_eq!(large.size(), 37);
    assert_eq!(large.num_cycles(), 1);
}

#[test]
fn mos_get_key() {
    let mos = Mos::new(5, 2, 5, 3).unwrap();
    assert_eq!(mos.get_key(-2, -2), -16);
    assert_eq!(mos.get_key(-2, -1), -13);
    assert_eq!(mos.get_key(-2, 0), -10);
    assert_eq!(mos.get_key(-1, 0), -5);
    assert_eq!(mos.get_key(0, 0), 0);
    assert_eq!(mos.get_key(0, 1), 3);
    assert_eq!(mos.get_key(0, 2), 6);
    assert_eq!(mos.get_key(1, 2), 11);
    assert_eq!(mos.get_key(2, 2), 16);
}

#[test]
fn mos_layers() {
    // 31-EDO meantone: 7 naturals, 7 sharps, 5 double sharps, 5 double flats, 7 flats
    let mos = Mos::new(5, 2, 5, 3).unwrap();
    assert_eq!(
        mos.get_layers(),
        [0, 0, 0, 0, 0, 0, 0, 1, 1, 1, 1, 1, 1, 1, 2, 2, 2, 2, 2, 3, 3, 3, 3, 3, 4, 4, 4, 4, 4, 4, 4]
    );
    // 19-EDO
    let mos = Mos::new(5, 2, 3, 2).unwrap();
    assert_eq!(
        mos.get_layers(),
        [0, 0, 0, 0, 0, 0, 0, 1, 1, 1, 1, 1, 2, 2, 3, 3, 3, 3, 3]
    );
    // 7-EDO
    let mos = Mos::new(5, 2, 1, 1).unwrap();
    assert_eq!(mos.get_layers(), [0, 0, 0, 0, 0, 0, 0]);
    // 24-EDO: the steps share the factor 2
    let mos = Mos::new(5, 2, 4, 2).unwrap();
    assert_eq!(mos.get_layers(), [0, 0, 0, 0, 0, 0, 0, 1, 1, 1, 1, 1]);
}

#[test]
fn pergen_generation_and_moses() {
    let pergen = PerGen::new(12, 7);
    assert_eq!(pergen.num_cycles(), 1);
    assert_eq!(pergen.reduced_period(), 12);
    // 7 * 7 = 49 = 1 (mod 12): two semitones are two fifths away
    assert_eq!(pergen.get_generation(2).degree, 2);
    assert_eq!(pergen.get_generation(1).degree, 7);
    assert_eq!(pergen.get_generation(1).cycle, None);

    let multi = PerGen::new(24, 14);
    assert_eq!(multi.num_cycles(), 2);
    assert_eq!(multi.get_generation(3).cycle, Some(1));

    let moses = PerGen::new(12, 7).get_moses();
    assert_eq!(moses[0].primary_step(), 7);
    assert_eq!(moses[0].secondary_step(), 5);
    assert_eq!(moses.last().unwrap().primary_step(), 1);
    assert_eq!(moses.last().unwrap().secondary_step(), 1);
    assert_eq!(AccidentalsOrder::from_sharpness(-1), AccidentalsOrder::FlatSharp);
    assert_eq!(AccidentalsOrder::from_sharpness(0), AccidentalsOrder::SharpFlat);
}

#[test]
fn mos_size_along_children_and_parents() {
    let mos = Mos::new_genesis(12, 7);
    let children = mos.children();
    let critical = *children.last().unwrap();
    for child in &children {
        assert_eq!(child.size(), 12);
    }
    let parents = critical.parents();
    assert_eq!(parents.len(), children.len());
    for parent in &parents {
        assert_eq!(parent.size(), 12);
        assert_eq!(parent.dual().size(), 12);
        assert_eq!(parent.mirror().size(), 12);
    }
}
