use tune::generators::NoteFormatter;
use tune::generators::PerGen;

const HEPTATONIC: NoteFormatter = NoteFormatter {
    note_names: &["F", "C", "G", "D", "A", "E", "B"],
    genchain_origin: 3,
    next_cycle_sign: '#',
    prev_cycle_sign: 'b',
    sharpness: 1,
};

#[test]
fn generators_pergen_of_12_edo() {
    let pergen = PerGen::new(12, 7);
    assert_eq!(pergen.period(), 12);
    assert_eq!(pergen.num_cycles(), 1);
    assert_eq!(pergen.num_steps_per_cycle(), 12);
    assert_eq!(pergen.get_generation(0), 0);
    assert_eq!(pergen.get_generation(1), 7);
    assert_eq!(pergen.get_generation(2), 2);
    assert_eq!(pergen.get_generation(-1), 5);
    assert_eq!(pergen.get_cycle(5), 0);
}

#[test]
fn generators_pergen_with_cycles() {
    let pergen = PerGen::new(24, 14);
    assert_eq!(pergen.num_cycles(), 2);
    assert_eq!(pergen.num_steps_per_cycle(), 12);
    assert_eq!(pergen.get_cycle(1), 1);
    assert_eq!(pergen.get_cycle(-1), 1);
    assert_eq!(pergen.get_generation(2), 7);
}

#[test]
fn generators_note_names_of_12_edo() {
    let pergen = PerGen::new(12, 7);
    let names: Vec<String> = (0..12).map(|index| HEPTATONIC.get_name_by_step(&pergen, index)).collect();
    assert_eq!(
        names.join(", "),
        "D, D# / Eb, E, F, F# / Gb, G, G# / Ab, A, A# / Bb, B, C, C# / Db"
    );
}

#[test]
fn generators_note_names_with_negative_sharpness_and_cycles() {
    let flat_first = NoteFormatter { sharpness: -1, ..HEPTATONIC };
    assert_eq!(flat_first.get_name_by_step(&PerGen::new(12, 7), 1), "Eb / D#");

    let pergen = PerGen::new(24, 14);
    assert_eq!(HEPTATONIC.get_name_by_step(&pergen, 0), "D");
    assert_eq!(HEPTATONIC.get_name_by_step(&pergen, 1), "\u{25b2}D");
    assert_eq!(HEPTATONIC.get_name_by_step(&pergen, 2), "D# / Eb");
}
