use tune::scala::scl::import_scl as import;
use tune::scala::PitchValue;
use tune::scala::Scl;
use tune::scala::create_harmonics_scale;
use tune::scala::SegmentType;
use tune::scala::SclBuildError;
use tune::scala::SclImportError;
use tune::scala::SclParseErrorKind;
use tune::scala::SclStructuralError;

/// The pitch of an item in cents.
fn cents_of(value: &PitchValue<f64>) -> f64 {
    match value {
        PitchValue::Cents(cents) => *cents,
        PitchValue::Fraction(numer, denom) => {
            1200.0 * (f64::from(*numer) / f64::from(denom.unwrap_or(1))).log2()
        }
    }
}

/// The checks of the items against the period that a scale's build makes.
fn check(items: &[PitchValue<f64>]) -> Option<SclBuildError> {
    let period = items.last().map(cents_of).unwrap_or(0.0);
    let mut sorted: Vec<f64> = items.iter().map(cents_of).collect();
    sorted.sort_by(f64::total_cmp);
    if sorted.len() >= 2 && (sorted[0] < 0.0 || sorted[sorted.len() - 1] > period) {
        return Some(SclBuildError::ItemOutOfRange);
    }
    if period == 0.0 {
        Some(SclBuildError::ScaleIsTrivial)
    } else {
        None
    }
}

fn parse_cents(text: &str) -> Option<f64> {
    text.parse().ok()
}

fn import_str(input: &str) -> Result<Scl<f64>, SclImportError> {
    import(input, parse_cents, check)
}

fn parse_error(line_number: usize, kind: SclParseErrorKind) -> SclImportError {
    SclImportError::ParseError { line_number, kind }
}

#[test]
fn scl_parse_error() {
    assert_eq!(
        import_str("Bad number of notes\n3x\n100.0\n5/4\n2").err(),
        Some(parse_error(2, SclParseErrorKind::IntValue))
    );
    assert_eq!(
        import_str("Bad cents value\n3\n100.0x\n5/4\n2").err(),
        Some(parse_error(3, SclParseErrorKind::CentsValue))
    );
    assert_eq!(
        import_str("Bad numer\n3\n100.0\n5x/4\n2").err(),
        Some(parse_error(4, SclParseErrorKind::Numer))
    );
    assert_eq!(
        import_str("Bad denom\n3\n100.0\n5/4x\n2").err(),
        Some(parse_error(4, SclParseErrorKind::Denom))
    );
    assert_eq!(
        import_str("Two slashes\n3\n100.0\n5/4/3\n2").err(),
        Some(parse_error(4, SclParseErrorKind::Denom))
    );
    assert_eq!(
        import_str("Denom is empty\n3\n100.0\n5/\n2").err(),
        Some(parse_error(4, SclParseErrorKind::Denom))
    );
    assert_eq!(
        import_str("Bad integer\n3\n100.0\n5/4\n2x").err(),
        Some(parse_error(5, SclParseErrorKind::IntValue))
    );
}

#[test]
fn scl_structural_error() {
    assert_eq!(
        import_str("").err(),
        Some(SclImportError::StructuralError(SclStructuralError::ExpectingDescription))
    );
    assert_eq!(
        import_str("Number of notes missing").err(),
        Some(SclImportError::StructuralError(SclStructuralError::ExpectingNumberOfNotes))
    );
    assert_eq!(
        import_str("Bad number of notes\n7\n100.0\n5/4\n2").err(),
        Some(SclImportError::StructuralError(SclStructuralError::InconsistentNumberOfNotes))
    );
    assert_eq!(
        import_str("Empty line\n3\n100.0\n\n2").err(),
        Some(SclImportError::StructuralError(SclStructuralError::InconsistentNumberOfNotes))
    );
    assert!(import_str("Empty line\n3\n100.0\n200.0\n2").is_ok());
}

#[test]
fn import_scl() {
    let input = "!A comment
            ! A second comment
            Test scale
            7
            100.
            150.0 ignore any text
            !175.0 ignore comment
            200.0 .ignore dots
            6/5
            5/4 (ignore parentheses)
            3/2 /ignore additional slashes
            2";

    let scl = import_str(input).unwrap();
    assert_eq!(scl.description(), "Test scale");
    assert_eq!(scl.num_items(), 7);
    let cents: Vec<f64> = scl.pitch_values().iter().map(cents_of).collect();
    assert!((cents[0] - 100.0).abs() < 1e-9);
    assert!((cents[1] - 150.0).abs() < 1e-9);
    assert!((cents[2] - 200.0).abs() < 1e-9);
    assert!(matches!(scl.pitch_values()[3], PitchValue::Fraction(6, Some(5))));
    assert!(matches!(scl.pitch_values()[4], PitchValue::Fraction(5, Some(4))));
    assert!(matches!(scl.pitch_values()[5], PitchValue::Fraction(3, Some(2))));
    assert!(matches!(scl.pitch_values()[6], PitchValue::Fraction(2, None)));
}

#[test]
fn scl_build_errors() {
    let trivial = Scl::<f64>::builder().build_with_description(String::from("empty"), check);
    assert_eq!(trivial.err(), Some(SclBuildError::ScaleIsTrivial));
    let zero = Scl::builder()
        .push_cents(0.0)
        .push_cents(0.0)
        .build_with_description(String::from("zero"), check);
    assert_eq!(zero.err(), Some(SclBuildError::ScaleIsTrivial));
    let out_of_range = Scl::builder()
        .push_cents(50.0)
        .push_cents(100.0)
        .push_cents(200.0)
        .push_cents(150.0)
        .build_with_description(String::from("out of range"), check);
    assert_eq!(out_of_range.err(), Some(SclBuildError::ItemOutOfRange));
    assert_eq!(
        import_str("Out of range\n2\n3/2\n5/4").err(),
        Some(SclImportError::BuildError(SclBuildError::ItemOutOfRange))
    );
}

#[test]
fn scl_export_then_import() {
    let scl = Scl::builder()
        .push_fraction(9, 8)
        .push_cents(386.0)
        .push_int(2)
        .build_with_description(String::from("Just intonation"), check)
        .unwrap();
    let text = scl.export(|cents: &f64| format!("{cents:.3}"));
    assert_eq!(text, "Just intonation\n3\n9/8\n386.000\n2\n");
    let again = import_str(&text).unwrap();
    assert_eq!(again.description(), "Just intonation");
    assert_eq!(again.num_items(), 3);
    assert!(matches!(again.pitch_values()[0], PitchValue::Fraction(9, Some(8))));
    assert!(matches!(again.pitch_values()[2], PitchValue::Fraction(2, None)));
}

fn exported_lines(scl: &Scl<f64>) -> Vec<String> {
    scl.export(|cents: &f64| format!("{cents:.3}")).lines().map(String::from).collect()
}

#[test]
fn harmonics_scale_otonal_and_utonal() {
    let harmonics = create_harmonics_scale(None, SegmentType::Otonal, 9, 7, check).unwrap();
    assert_eq!(
        exported_lines(&harmonics),
        [
            "JI scale 9:10:11:12:13:14:15:16",
            "7", "10/9", "11/9", "12/9", "13/9", "14/9", "15/9", "16/9"
        ]
    );

    let subharmonics = create_harmonics_scale(None, SegmentType::Utonal, 9, 7, check).unwrap();
    assert_eq!(
        exported_lines(&subharmonics),
        [
            "JI scale 16/(16:15:14:13:12:11:10:9)",
            "7", "16/15", "16/14", "16/13", "16/12", "16/11", "16/10", "16/9"
        ]
    );
}

#[test]
fn harmonics_scale_with_description_and_errors() {
    let scl = create_harmonics_scale(
        Some(String::from("Octave of harmonics")),
        SegmentType::Otonal,
        8,
        8,
        check,
    )
    .unwrap();
    assert_eq!(scl.description(), "Octave of harmonics");
    assert_eq!(scl.num_items(), 8);
    assert!(matches!(scl.pitch_values()[7], PitchValue::Fraction(16, Some(8))));

    let empty = create_harmonics_scale(None, SegmentType::Otonal, 8, 0, check);
    assert!(matches!(empty, Err(SclBuildError::ScaleIsTrivial)));
}
