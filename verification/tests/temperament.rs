use tune::comma::Comma;
use tune::temperament::EqualTemperament;
use tune::temperament::TemperamentPreference;
use tune::temperament::TemperamentType;
use tune::temperament::Val;

#[test]
fn temperament_meantone_12_edo() {
    let temperament = EqualTemperament::find().from_starting_point(12, 7);
    assert_eq!(temperament.temperament_type(), TemperamentType::Meantone);
    assert_eq!(temperament.primary_step(), 2);
    assert_eq!(temperament.secondary_step(), 1);
    assert_eq!(temperament.sharpness(), 1);
    assert_eq!(temperament.num_steps_per_octave(), 12);
    assert_eq!(temperament.num_steps_per_fifth(), 7);
    assert_eq!(temperament.num_cycles(), 1);
    let names: Vec<String> = (0..12).map(|index| temperament.get_heptatonic_name(index)).collect();
    assert_eq!(names.join(", "), "D, D#/Eb, E, F, F#/Gb, G, G#/Ab, A, A#/Bb, B, C, C#/Db");
}

#[test]
fn temperament_porcupine_fallback() {
    // 8-EDO: the meantone secondary step would be negative
    let temperament = EqualTemperament::find().from_starting_point(8, 5);
    assert_eq!(temperament.temperament_type(), TemperamentType::Porcupine);
    assert_eq!(temperament.primary_step(), 1);
    assert_eq!(temperament.secondary_step(), 2);
    assert_eq!(temperament.num_steps_per_fifth(), 5);

    let meantone_only = EqualTemperament::find()
        .with_preference(TemperamentPreference::Meantone)
        .with_second_best_fifth_allowed(false)
        .from_starting_point(8, 5);
    assert_eq!(meantone_only.temperament_type(), TemperamentType::Meantone);
    assert_eq!(meantone_only.secondary_step(), -1);
}

#[test]
fn temperament_negative_sharpness_keeps_meantone() {
    // 16-EDO: acceptable meantone with negative sharpness, fourth of 7 steps is not divisible by 3
    let temperament = EqualTemperament::find().from_starting_point(16, 9);
    assert_eq!(temperament.temperament_type(), TemperamentType::Meantone);
    assert_eq!(temperament.primary_step(), 2);
    assert_eq!(temperament.secondary_step(), 3);
    assert_eq!(temperament.sharpness(), -1);
    assert_eq!(temperament.get_heptatonic_name(0), "D");
    assert_eq!(temperament.get_heptatonic_name(1), "D+/E-");
}

#[test]
fn temperament_porcupine_reading() {
    let meantone = EqualTemperament::meantone(22, 13);
    let porcupine = meantone.as_porcupine().unwrap();
    assert_eq!(porcupine.temperament_type(), TemperamentType::Porcupine);
    assert_eq!(porcupine.primary_step(), 3);
    assert_eq!(porcupine.secondary_step(), 4);
    assert!(EqualTemperament::meantone(12, 7).as_porcupine().is_none());
    assert_eq!(TemperamentType::Porcupine.display_name(), "Porcupine");
    assert_eq!(TemperamentType::Meantone.display_name(), "Meantone");
}

#[test]
fn val_creation_and_prime_limit() {
    let still_okay = vec![1; 54];
    assert!(Val::create(1.0, still_okay).is_some());

    let too_long = vec![1; 55];
    assert!(Val::create(1.0, too_long).is_none());

    let some_numbers = vec![5, 6, 7];
    let val = Val::create(100.0, some_numbers.clone()).unwrap();
    assert_eq!(val.values(), some_numbers);
    assert_eq!(val.step_size(), 100.0);

    let custom_val = Val::create(100.0, vec![12, 19, 28, 34, 42]).unwrap();
    assert_eq!(custom_val.prime_limit(), 11);
    assert_eq!(Val::create(100.0, vec![]).unwrap().prime_limit(), 1);
}

#[test]
fn val_maps_commas() {
    let fifth = Comma::from_monzo("fifth", &[-1, 1]);
    let seventh = Comma::from_monzo("seventh", &[-2, 0, 0, 1]);
    let diesis = Comma::from_monzo("diesis", &[7, 0, -3]);

    let val_of_12edo = Val::create(100.0, vec![12, 19, 28]).unwrap();
    let val_of_31edo = Val::create(1200.0 / 31.0, vec![31, 49, 72]).unwrap();

    assert_eq!(val_of_12edo.map(&fifth), Some(7));
    assert_eq!(val_of_31edo.map(&fifth), Some(18));
    assert_eq!(val_of_12edo.map(&seventh), None);

    assert!(val_of_12edo.tempers_out(&diesis));
    assert!(!val_of_31edo.tempers_out(&diesis));
    assert!(!val_of_12edo.tempers_out(&seventh));
}
