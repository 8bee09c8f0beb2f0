use tune::comma::Comma;

#[test]
fn comma_fractions() {
    let pythagorean = Comma::from_monzo("Pythagorean comma", &[-19, 12]);
    assert_eq!(pythagorean.as_fraction(), (531441, 524288));
    assert_eq!(pythagorean.description(), "Pythagorean comma");
    assert_eq!(pythagorean.monzo(), &[-19, 12]);

    let syntonic = Comma::from_monzo("syntonic / Didymos / meantone comma", &[-4, 4, -1]);
    assert_eq!(syntonic.as_fraction(), (81, 80));

    let septimal = Comma::from_monzo("septimal / Archytas' comma, Leipziger Komma", &[6, -2, 0, -1]);
    assert_eq!(septimal.as_fraction(), (64, 63));

    let unison = Comma::from_monzo("unison", &[]);
    assert_eq!(unison.as_fraction(), (1, 1));
}
