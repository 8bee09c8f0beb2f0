use tune::key::PianoKey;
use tune::scala::options::{parse_item, Item, KbmOptions, KbmRootOptions};
use tune::scala::{
    Kbm, KbmBuildError, KbmImportError, KbmParseErrorKind, KbmRoot, KbmStructuralError,
};

fn hz(text: &str) -> Option<f64> {
    text.parse().ok()
}

fn import(text: &str) -> Result<Kbm<f64>, KbmImportError> {
    Kbm::import(text, hz)
}

fn root_at(midi_number: i32) -> KbmRoot<f64> {
    KbmRoot {
        ref_key: PianoKey::from_midi_number(midi_number),
        ref_pitch: 440.0,
        root_offset: 0,
    }
}

fn degree(kbm: &Kbm<f64>, midi_number: i32) -> Option<i32> {
    kbm.scale_degree_of(PianoKey::from_midi_number(midi_number))
}

#[test]
fn kbm_parse_error() {
    assert!(matches!(
        import("Bad map size\n10\n99\n62\n69\n432\n17"),
        Err(KbmImportError::ParseError {
            line_number: 1,
            kind: KbmParseErrorKind::IntValue
        })
    ));
    assert!(matches!(
        import("6\nBad first MIDI note\n99\n62\n69\n432\n17"),
        Err(KbmImportError::ParseError {
            line_number: 2,
            kind: KbmParseErrorKind::IntValue
        })
    ));
    assert!(matches!(
        import("6\n10\nBad last MIDI note\n62\n69\n432\n17"),
        Err(KbmImportError::ParseError {
            line_number: 3,
            kind: KbmParseErrorKind::IntValue
        })
    ));
    assert!(matches!(
        import("6\n10\n99\nBad origin\n69\n432\n17"),
        Err(KbmImportError::ParseError {
            line_number: 4,
            kind: KbmParseErrorKind::IntValue
        })
    ));
    assert!(matches!(
        import("6\n10\n99\n62\nBad reference note\n432\n17"),
        Err(KbmImportError::ParseError {
            line_number: 5,
            kind: KbmParseErrorKind::IntValue
        })
    ));

    assert!(matches!(
        import("6\n10\n99\n62\n69\nBad reference pitch\n17"),
        Err(KbmImportError::ParseError {
            line_number: 6,
            kind: KbmParseErrorKind::FloatValue
        })
    ));

    assert!(matches!(
        import("6\n10\n99\n62\n69\n432\nBad formal octave"),
        Err(KbmImportError::ParseError {
            line_number: 7,
            kind: KbmParseErrorKind::IntValue
        })
    ));
    assert!(matches!(
        import("6\n10\n99\n62\n69\n432\n17\nBad mapping entry"),
        Err(KbmImportError::ParseError {
            line_number: 8,
            kind: KbmParseErrorKind::KeyboardMapping
        })
    ));
}

#[test]
fn kbm_structural_error() {
    assert!(matches!(
        import(""),
        Err(KbmImportError::StructuralError(
            KbmStructuralError::ExpectingMapSize
        ))
    ));
    assert!(matches!(
        import("6"),
        Err(KbmImportError::StructuralError(
            KbmStructuralError::ExpectingFirstMidiNote
        ))
    ));
    assert!(matches!(
        import("6\n10"),
        Err(KbmImportError::StructuralError(
            KbmStructuralError::ExpectingLastMidiNote
        ))
    ));
    assert!(matches!(
        import("6\n10\n99"),
        Err(KbmImportError::StructuralError(
            KbmStructuralError::ExpectingOrigin
        ))
    ));
    assert!(matches!(
        import("6\n10\n99\n62"),
        Err(KbmImportError::StructuralError(
            KbmStructuralError::ExpectingReferenceNote
        ))
    ));
    assert!(matches!(
        import("6\n10\n99\n62\n69"),
        Err(KbmImportError::StructuralError(
            KbmStructuralError::ExpectingReferencePitch
        ))
    ));
    assert!(matches!(
        import("6\n10\n99\n62\n69\n432"),
        Err(KbmImportError::StructuralError(
            KbmStructuralError::ExpectingFormalOctave
        ))
    ));
    assert!(matches!(
        import("6\n10\n99\n62\n69\n432\n17\n1\n2\n3\n4\n5\n6\n7"),
        Err(KbmImportError::StructuralError(
            KbmStructuralError::InconsistentNumberOfItems
        ))
    ));
    assert!(import("6\n10\n99\n62\n69\n432\n17\n1\n2\n3\n4\n5\n6").is_ok());
}

#[test]
fn kbm_import_with_comments_and_padding() {
    let input = [
        "!A comment",
        "  !An indented comment",
        "6 <- Official map size. Can be larger than the number of provided mapping entries!",
        "10",
        "99 (Rust's Range type is right exclusive. The upper bound becomes 100.)",
        "62",
        "  69  ",
        "432.0 = healing frequency",
        "17",
        "! Start of the mapping table",
        "0",
        "4",
        "x means unmapped",
        "4",
        "X - uppercase is supported",
        "! End of the mapping table. 'x'es are added to match the official map size.",
    ];

    let kbm = import(&input.join("\n")).unwrap();

    assert_eq!(kbm.kbm_root().ref_key.midi_number(), 69);
    assert!((kbm.kbm_root().ref_pitch - 432.0).abs() < 1e-9);
    assert_eq!(kbm.kbm_root().root_offset, -7);
    assert_eq!(kbm.range().start.midi_number(), 10);
    assert_eq!(kbm.range().end.midi_number(), 100);
    assert_eq!(kbm.formal_octave(), 17);
    assert_eq!(kbm.num_items(), 6);
    assert_eq!(degree(&kbm, 69), Some(0));
    assert_eq!(degree(&kbm, 70), Some(4));
    assert_eq!(degree(&kbm, 71), None);
    assert_eq!(degree(&kbm, 72), Some(4));
    assert_eq!(degree(&kbm, 73), None);
    assert_eq!(degree(&kbm, 74), None);
    assert_eq!(degree(&kbm, 75), Some(17));
}

#[test]
fn kbm_import_windows_line_endings_and_signs() {
    let kbm = import("2\r\n+0\r\n127\r\n-5\r\n60\r\n261.6\r\n12\r\n-3\r\n+7\r\n").unwrap();
    assert_eq!(kbm.kbm_root().root_offset, -65);
    assert_eq!(kbm.num_items(), 2);
    assert_eq!(degree(&kbm, 60), Some(-3));
    assert_eq!(degree(&kbm, 61), Some(7));
    assert_eq!(degree(&kbm, 59), Some(-5));
}

#[test]
fn kbm_import_rejects_out_of_range_integers() {
    assert!(matches!(
        import("65536\n10\n99\n62\n69\n432\n17"),
        Err(KbmImportError::ParseError {
            line_number: 1,
            kind: KbmParseErrorKind::IntValue
        })
    ));
    assert!(matches!(
        import("-1\n10\n99\n62\n69\n432\n17"),
        Err(KbmImportError::ParseError {
            line_number: 1,
            kind: KbmParseErrorKind::IntValue
        })
    ));
    assert!(matches!(
        import("6\n10\n99\n32768\n69\n432\n17"),
        Err(KbmImportError::ParseError {
            line_number: 4,
            kind: KbmParseErrorKind::IntValue
        })
    ));
    assert!(matches!(
        import("1\n10\n99\n62\n69\n432\n17\n+"),
        Err(KbmImportError::ParseError {
            line_number: 8,
            kind: KbmParseErrorKind::KeyboardMapping
        })
    ));
}

#[test]
fn kbm_scale_degree_of() {
    let kbm = Kbm::builder(root_at(62))
        .range(PianoKey::from_midi_number(10)..PianoKey::from_midi_number(100))
        .push_mapped_key(0)
        .push_mapped_key(4)
        .push_unmapped_key()
        .push_mapped_key(4)
        .formal_octave(17)
        .build()
        .unwrap();

    assert_eq!(degree(&kbm, 10), Some(-221));
    assert_eq!(degree(&kbm, 60), None);
    assert_eq!(degree(&kbm, 61), Some(-13));
    assert_eq!(degree(&kbm, 62), Some(0));
    assert_eq!(degree(&kbm, 63), Some(4));
    assert_eq!(degree(&kbm, 64), None);
    assert_eq!(degree(&kbm, 65), Some(4));
    assert_eq!(degree(&kbm, 66), Some(17));
    assert_eq!(degree(&kbm, 67), Some(21));
    assert_eq!(degree(&kbm, 68), None);
    assert_eq!(degree(&kbm, 99), Some(157));

    for midi_number in (0..10).chain(100..128) {
        assert_eq!(degree(&kbm, midi_number), None);
    }

    let empty_kbm = Kbm::builder(root_at(62)).formal_octave(42).build().unwrap();

    assert_eq!(degree(&empty_kbm, 61), Some(-1));
    assert_eq!(degree(&empty_kbm, 62), Some(0));
    assert_eq!(degree(&empty_kbm, 63), Some(1));
}

#[test]
fn kbm_root_to_kbm() {
    let kbm_root = root_at(62);
    let kbm = kbm_root.to_kbm();

    assert_eq!(kbm.kbm_root(), kbm_root);
    assert_eq!(kbm.range(), PianoKey::from_midi_number(0)..PianoKey::from_midi_number(128));
    assert_eq!(kbm.formal_octave(), 1);
    assert_eq!(kbm.num_items(), 1);
    assert_eq!(degree(&kbm, 61), Some(-1));
    assert_eq!(degree(&kbm, 62), Some(0));
    assert_eq!(degree(&kbm, 63), Some(1));
}

#[test]
fn kbm_build_errors() {
    let optional = Kbm::builder(root_at(0));
    assert!(optional.build().is_ok());

    let mandatory = Kbm::builder(root_at(0)).push_mapped_key(0);
    assert_eq!(mandatory.build().unwrap_err(), KbmBuildError::FormalOctaveMissing);

    let mut below = Kbm::builder(root_at(62)).formal_octave(0);
    for _ in 0..65535 {
        below = below.push_mapped_key(0);
    }
    assert!(below.build().is_ok());

    let mut above = Kbm::builder(root_at(62)).formal_octave(0);
    for _ in 0..65536 {
        above = above.push_mapped_key(0);
    }
    assert_eq!(above.build().unwrap_err(), KbmBuildError::MappingTooLarge);
}

#[test]
fn kbm_range_iter_and_root_update() {
    let mut kbm = Kbm::builder(root_at(62))
        .range(PianoKey::from_midi_number(60)..PianoKey::from_midi_number(63))
        .build()
        .unwrap();
    let keys: Vec<i32> = kbm.range_iter().iter().map(|key| key.midi_number()).collect();
    assert_eq!(keys, [60, 61, 62]);

    kbm.set_kbm_root(root_at(60));
    assert_eq!(degree(&kbm, 62), Some(2));
    let cloned = kbm.clone();
    assert_eq!(cloned.kbm_root(), root_at(60));
    assert_eq!(cloned.num_items(), 0);
}

fn white_keys_of_22_edo() -> Kbm<f64> {
    let kbm_root = KbmRoot {
        ref_key: PianoKey::from_midi_number(69),
        ref_pitch: 432.0,
        root_offset: -9,
    };
    Kbm::builder(kbm_root)
        .range(PianoKey::from_midi_number(10)..PianoKey::from_midi_number(100))
        .push_mapped_key(0)
        .push_unmapped_key()
        .push_mapped_key(4)
        .push_unmapped_key()
        .push_mapped_key(8)
        .push_mapped_key(9)
        .formal_octave(22)
        .build()
        .unwrap()
}

#[test]
fn kbm_export() {
    let kbm = white_keys_of_22_edo();
    let exported = kbm.export(|hz: &f64| format!("{hz:.3}"));
    assert_eq!(
        exported.lines().collect::<Vec<_>>(),
        ["6", "10", "99", "60", "69", "432.000", "22", "0", "x", "4", "x", "8", "9"]
    );
}

#[test]
fn kbm_export_then_import() {
    let kbm = white_keys_of_22_edo();
    let exported = kbm.export(|hz: &f64| format!("{hz:.3}"));
    let imported = import(&exported).unwrap();

    assert_eq!(imported.kbm_root(), kbm.kbm_root());
    assert_eq!(imported.range(), kbm.range());
    assert_eq!(imported.num_items(), kbm.num_items());
    assert_eq!(imported.formal_octave(), kbm.formal_octave());
    for midi_number in 0..128 {
        assert_eq!(degree(&imported, midi_number), degree(&kbm, midi_number));
    }
    assert_eq!(imported.export(|hz: &f64| format!("{hz:.3}")), exported);
}

#[test]
fn kbm_options_build_the_mapping() {
    let items = "0,x,1,x,2,3,x,4,x,5,x,6"
        .split(',')
        .map(|item| parse_item(item).unwrap())
        .collect::<Vec<_>>();
    assert_eq!(items[1], Item::Unmapped);
    assert_eq!(items[2], Item::Mapped(1));
    assert!(parse_item("y").is_err());
    assert!(parse_item("32768").is_err());
    assert_eq!(parse_item("X"), Ok(Item::Unmapped));
    assert_eq!(parse_item("-7"), Ok(Item::Mapped(-7)));

    let options = KbmOptions {
        kbm_root: KbmRootOptions {
            ref_note: root_at(62),
            root_note: Some(60),
        },
        lower_key_bound: 10,
        upper_key_bound: 100,
        items: Some(items),
        formal_octave: Some(7),
    };
    let kbm = options.to_kbm().unwrap();
    assert_eq!(
        kbm.export(|hz: &f64| format!("{hz:.3}")).lines().collect::<Vec<_>>(),
        ["12", "10", "99", "60", "62", "440.000", "7", "0", "x", "1", "x", "2", "3", "x", "4", "x", "5", "x", "6"]
    );

    let missing_octave = KbmOptions {
        formal_octave: None,
        ..options
    };
    assert!(matches!(missing_octave.to_kbm(), Err(KbmBuildError::FormalOctaveMissing)));

    let linear = KbmOptions {
        kbm_root: KbmRootOptions {
            ref_note: root_at(62),
            root_note: None,
        },
        lower_key_bound: 21,
        upper_key_bound: 109,
        items: None,
        formal_octave: None,
    };
    assert_eq!(
        linear.to_kbm().unwrap().export(|hz: &f64| format!("{hz:.3}")).lines().collect::<Vec<_>>(),
        ["0", "21", "108", "62", "62", "440.000", "0"]
    );
}
