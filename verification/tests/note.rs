use tune::key::PianoKey;
use tune::note::HelmholtzOctave;
use tune::note::Note;
use tune::note::NoteLetter;
use tune::note::Octave;
use tune::note::SignStyle;

#[test]
fn note_from_letter_and_octave() {
    let a4 = Note::from_midi_number(69);
    assert_eq!(Note::from_letter_and_octave(NoteLetter::A, Octave::from_octave_number(4)), a4);
    assert_eq!(Note::from_letter_and_octave(NoteLetter::A, 4.into()), a4);
    assert_eq!(Note::from_letter_and_octave(NoteLetter::A, HelmholtzOctave::OneLined.into()), a4);
    assert_eq!(NoteLetter::C.in_octave(Octave::from_octave_number(4)), Note::from_midi_number(60));
    assert_eq!(
        NoteLetter::C.in_octave(Octave::from_octave_number(4)),
        Note::from_letter_and_octave(NoteLetter::C, Octave::from_octave_number(4))
    );
}

#[test]
fn note_letter_and_octave() {
    let a4 = Note::from_midi_number(69);
    assert_eq!(a4.letter_and_octave(), (NoteLetter::A, Octave::from_octave_number(4)));

    let midi_root = Note::from_midi_number(0);
    assert_eq!(midi_root.letter_and_octave(), (NoteLetter::C, Octave::from_octave_number(-1)));

    let below_root = Note::from_midi_number(-1);
    assert_eq!(below_root.letter_and_octave(), (NoteLetter::B, Octave::from_octave_number(-2)));
    assert_eq!(Note::from_midi_number(70).letter_and_octave().0, NoteLetter::Ash);
}

#[test]
fn note_piano_keys_and_distances() {
    let key = PianoKey::from_midi_number(62);
    assert_eq!(Note::from_piano_key(key).midi_number(), 62);
    assert_eq!(Note::from_midi_number(62).as_piano_key(), key);
    assert_eq!(Note::from_midi_number(60).num_semitones_before(Note::from_midi_number(67)), 7);
    assert_eq!(Note::from_midi_number(67).num_semitones_before(Note::from_midi_number(60)), -7);
    assert_eq!(NoteLetter::Gsh.semitone(), 8);
    assert_eq!(Octave::from(HelmholtzOctave::SubContra).octave_number(), 0);
    assert_eq!(Octave::from(HelmholtzOctave::SixLined).octave_number(), 9);
}

#[test]
fn note_names_in_all_styles() {
    assert_eq!(Note::from_midi_number(0).to_string(), "C -1");
    assert_eq!(Note::from_midi_number(69).to_string(), "A 4");
    assert_eq!(Note::from_midi_number(70).to_string(), "A#/Bb 4");
    assert_eq!(Note::from_midi_number(71).to_string(), "B 4");
    assert_eq!(Note::from_midi_number(72).to_string(), "C 5");
    assert_eq!(Note::from_midi_number(127).to_string(), "G 9");
    assert_eq!(Note::from_midi_number(-13).to_string(), "B -3");

    assert_eq!(Note::from_midi_number(70).name(SignStyle::Sharp), "A# 4");
    assert_eq!(Note::from_midi_number(70).name(SignStyle::Flat), "Bb 4");
    assert_eq!(Note::from_midi_number(61).name(SignStyle::Flat), "Db 4");
    assert_eq!(Note::from_midi_number(60).name(SignStyle::Flat), "C 4");
}

#[test]
fn note_letter_names() {
    assert_eq!(NoteLetter::Fsh.to_string(), "F#/Gb");
    assert_eq!(NoteLetter::Gsh.name(SignStyle::Sharp), "G#");
    assert_eq!(NoteLetter::Dsh.name(SignStyle::Flat), "Eb");
    assert_eq!(NoteLetter::E.name(SignStyle::Flat), "E");
}
