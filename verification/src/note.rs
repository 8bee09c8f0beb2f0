//! Musical notes in 12-EDO: letters, octaves and MIDI numbers.
use vstd::prelude::*;
use vstd::arithmetic::div_mod::*;
use vstd::string::StringExecFns;
use crate::key::PianoKey;
use crate::math;
use crate::text;

verus! {

/// A musical note encapsulating a clearly defined pitch, identified by its MIDI number.
#[derive(Copy, Clone, Debug, Ord, Eq, PartialEq, PartialOrd, Structural)]
pub struct Note {
    midi_number: i32,
}

/// The speaking name of a note within its octave.
#[derive(Copy, Clone, Debug, Eq, PartialEq, Structural)]
pub enum NoteLetter {
    C,
    Csh,
    D,
    Dsh,
    E,
    F,
    Fsh,
    G,
    Gsh,
    A,
    Ash,
    B,
}

/// Typed representation of the octave of a note.
#[derive(Copy, Clone, Debug, Eq, Ord, PartialEq, PartialOrd, Structural)]
pub struct Octave {
    octave_number: i32,
}

/// The speaking name of the octave of a note.
#[derive(Copy, Clone, Debug, Eq, Ord, PartialEq, PartialOrd, Structural)]
pub enum HelmholtzOctave {
    SubContra,
    Contra,
    Great,
    Small,
    OneLined,
    TwoLined,
    ThreeLined,
    FourLined,
    FiveLined,
    SixLined,
}

/// The number of semitones of a letter above C.
pub open spec fn semitone_of(letter: NoteLetter) -> int {
    match letter {
        NoteLetter::C => 0,
        NoteLetter::Csh => 1,
        NoteLetter::D => 2,
        NoteLetter::Dsh => 3,
        NoteLetter::E => 4,
        NoteLetter::F => 5,
        NoteLetter::Fsh => 6,
        NoteLetter::G => 7,
        NoteLetter::Gsh => 8,
        NoteLetter::A => 9,
        NoteLetter::Ash => 10,
        NoteLetter::B => 11,
    }
}

/// The letter that lies the given number of semitones (0 to 11) above C.
pub open spec fn letter_of(semitone: int) -> NoteLetter {
    if semitone == 0 {
        NoteLetter::C
    } else if semitone == 1 {
        NoteLetter::Csh
    } else if semitone == 2 {
        NoteLetter::D
    } else if semitone == 3 {
        NoteLetter::Dsh
    } else if semitone == 4 {
        NoteLetter::E
    } else if semitone == 5 {
        NoteLetter::F
    } else if semitone == 6 {
        NoteLetter::Fsh
    } else if semitone == 7 {
        NoteLetter::G
    } else if semitone == 8 {
        NoteLetter::Gsh
    } else if semitone == 9 {
        NoteLetter::A
    } else if semitone == 10 {
        NoteLetter::Ash
    } else {
        NoteLetter::B
    }
}

/// The octave number of a Helmholtz octave.
pub open spec fn helmholtz_number(octave: HelmholtzOctave) -> int {
    match octave {
        HelmholtzOctave::SubContra => 0,
        HelmholtzOctave::Contra => 1,
        HelmholtzOctave::Great => 2,
        HelmholtzOctave::Small => 3,
        HelmholtzOctave::OneLined => 4,
        HelmholtzOctave::TwoLined => 5,
        HelmholtzOctave::ThreeLined => 6,
        HelmholtzOctave::FourLined => 7,
        HelmholtzOctave::FiveLined => 8,
        HelmholtzOctave::SixLined => 9,
    }
}

/// The MIDI number of a letter in an octave: octave -1 starts at MIDI number 0.
pub open spec fn midi_of(letter: NoteLetter, octave_number: int) -> int {
    (octave_number + 1) * 12 + semitone_of(letter)
}

impl Octave {
    /// The number of this octave (4 for the octave of A 440 Hz).
    pub closed spec fn number(self) -> int {
        self.octave_number as int
    }

    pub fn from_octave_number(octave_number: i32) -> (r: Self)
        ensures
            r.number() == octave_number,
    {
        Self { octave_number }
    }

    /// Returns the number of this octave.
    pub fn octave_number(self) -> (r: i32)
        ensures
            r == self.number(),
    {
        self.octave_number
    }
}

impl From<i32> for Octave {
    fn from(octave_number: i32) -> (r: Self) {
        Octave::from_octave_number(octave_number)
    }
}

impl vstd::std_specs::convert::FromSpecImpl<i32> for Octave {
    open spec fn obeys_from_spec() -> bool {
        true
    }

    closed spec fn from_spec(v: i32) -> Self {
        Octave { octave_number: v }
    }
}

impl From<HelmholtzOctave> for Octave {
    fn from(helmholtz_octave: HelmholtzOctave) -> (r: Self) {
        let octave_number: i32 = match helmholtz_octave {
            HelmholtzOctave::SubContra => 0,
            HelmholtzOctave::Contra => 1,
            HelmholtzOctave::Great => 2,
            HelmholtzOctave::Small => 3,
            HelmholtzOctave::OneLined => 4,
            HelmholtzOctave::TwoLined => 5,
            HelmholtzOctave::ThreeLined => 6,
            HelmholtzOctave::FourLined => 7,
            HelmholtzOctave::FiveLined => 8,
            HelmholtzOctave::SixLined => 9,
        };
        Self::from_octave_number(octave_number)
    }
}

impl vstd::std_specs::convert::FromSpecImpl<HelmholtzOctave> for Octave {
    open spec fn obeys_from_spec() -> bool {
        true
    }

    closed spec fn from_spec(v: HelmholtzOctave) -> Self {
        Octave { octave_number: helmholtz_number(v) as i32 }
    }
}

impl Note {
    /// The MIDI number of this note.
    pub closed spec fn midi(self) -> int {
        self.midi_number as int
    }

    /// The MIDI number of a note fits in an `i32`.
    pub proof fn lemma_midi_bounds(self)
        ensures
            i32::MIN <= self.midi() <= i32::MAX,
    {
    }

    /// The note with the given MIDI number.
    pub closed spec fn with_midi(midi_number: i32) -> Self {
        Note { midi_number }
    }

    /// The note with a MIDI number has that MIDI number, and every note is the note of its MIDI
    /// number.
    pub proof fn lemma_with_midi(midi_number: i32, note: Note)
        ensures
            Note::with_midi(midi_number).midi() == midi_number,
            Note::with_midi(note.midi() as i32) == note,
    {
    }

    /// Creates a [`Note`] instance from the given MIDI number.
    pub fn from_midi_number(midi_number: i32) -> (r: Self)
        ensures
            r.midi() == midi_number,
            r == Note::with_midi(midi_number),
    {
        Self { midi_number }
    }

    /// Creates a [`Note`] instance given a [`NoteLetter`] and an octave.
    pub fn from_letter_and_octave(note_letter: NoteLetter, octave: Octave) -> (r: Self)
        requires
            i32::MIN <= midi_of(note_letter, octave.number()) <= i32::MAX,
        ensures
            r.midi() == midi_of(note_letter, octave.number()),
    {
        let semitone: i32 = match note_letter {
            NoteLetter::C => 0,
            NoteLetter::Csh => 1,
            NoteLetter::D => 2,
            NoteLetter::Dsh => 3,
            NoteLetter::E => 4,
            NoteLetter::F => 5,
            NoteLetter::Fsh => 6,
            NoteLetter::G => 7,
            NoteLetter::Gsh => 8,
            NoteLetter::A => 9,
            NoteLetter::Ash => 10,
            NoteLetter::B => 11,
        };
        let octave_number = octave.octave_number();
        let midi = (octave_number as i64 + 1) * 12 + semitone as i64;
        Self::from_midi_number(midi as i32)
    }

    /// Creates a [`Note`] instance from a [`PianoKey`] assuming standard 12-EDO tuning.
    pub fn from_piano_key(piano_key: PianoKey) -> (r: Self)
        ensures
            r.midi() == piano_key.midi(),
    {
        Self::from_midi_number(piano_key.midi_number())
    }

    pub fn midi_number(self) -> (r: i32)
        ensures
            r == self.midi(),
    {
        self.midi_number
    }

    /// Splits the current note into a [`NoteLetter`] and an [`Octave`].
    pub fn letter_and_octave(self) -> (r: (NoteLetter, Octave))
        ensures
            r.0 == letter_of(self.midi() % 12),
            r.1.number() == self.midi() / 12 - 1,
            midi_of(r.0, r.1.number()) == self.midi(),
    {
        let (midi_octave, semitone) = math::i32_dr_u(self.midi_number, 12u32);
        let note_letter = if semitone == 0 {
            NoteLetter::C
        } else if semitone == 1 {
            NoteLetter::Csh
        } else if semitone == 2 {
            NoteLetter::D
        } else if semitone == 3 {
            NoteLetter::Dsh
        } else if semitone == 4 {
            NoteLetter::E
        } else if semitone == 5 {
            NoteLetter::F
        } else if semitone == 6 {
            NoteLetter::Fsh
        } else if semitone == 7 {
            NoteLetter::G
        } else if semitone == 8 {
            NoteLetter::Gsh
        } else if semitone == 9 {
            NoteLetter::A
        } else if semitone == 10 {
            NoteLetter::Ash
        } else {
            NoteLetter::B
        };
        proof {
            lemma_div_bound_12(self.midi_number as int);
        }
        (note_letter, Octave::from_octave_number(midi_octave - 1))
    }

    /// Returns the MIDI number of this [`Note`] if it is in the valid MIDI range [0..128).
    pub fn checked_midi_number(self) -> (r: Option<u8>)
        ensures
            r == (if 0 <= self.midi() < 128 {
                Some(self.midi() as u8)
            } else {
                None
            }),
    {
        if 0 <= self.midi_number && self.midi_number < 128 {
            Some(self.midi_number as u8)
        } else {
            None
        }
    }

    /// Retrieves the associated [`PianoKey`] assuming standard 12-EDO tuning.
    pub fn as_piano_key(self) -> (r: PianoKey)
        ensures
            r.midi() == self.midi(),
    {
        PianoKey::from_midi_number(self.midi_number)
    }

    /// Counts the number of semitones [left inclusive, right exclusive) between `self` and `other`.
    pub fn num_semitones_before(self, other: Note) -> (r: i32)
        requires
            i32::MIN <= other.midi() - self.midi() <= i32::MAX,
        ensures
            r == other.midi() - self.midi(),
    {
        other.midi_number - self.midi_number
    }
}

/// Dividing an `i32` by 12 leaves room for subtracting 1.
proof fn lemma_div_bound_12(n: int)
    requires
        i32::MIN <= n <= i32::MAX,
    ensures
        i32::MIN < n / 12 <= i32::MAX,
{
    lemma_fundamental_div_mod(n, 12);
}

impl NoteLetter {
    /// Shortcut for [`Note::from_letter_and_octave`].
    pub fn in_octave(self, octave: Octave) -> (r: Note)
        requires
            i32::MIN <= midi_of(self, octave.number()) <= i32::MAX,
        ensures
            r.midi() == midi_of(self, octave.number()),
    {
        Note::from_letter_and_octave(self, octave)
    }

    /// The number of semitones above C.
    pub fn semitone(self) -> (r: u8)
        ensures
            r == semitone_of(self),
    {
        match self {
            NoteLetter::C => 0,
            NoteLetter::Csh => 1,
            NoteLetter::D => 2,
            NoteLetter::Dsh => 3,
            NoteLetter::E => 4,
            NoteLetter::F => 5,
            NoteLetter::Fsh => 6,
            NoteLetter::G => 7,
            NoteLetter::Gsh => 8,
            NoteLetter::A => 9,
            NoteLetter::Ash => 10,
            NoteLetter::B => 11,
        }
    }
}

/// Splitting a note into letter and octave and putting them together again gives back the note;
/// putting a letter and an octave together and splitting the note gives them back.
pub proof fn lemma_letter_and_octave_roundtrip(letter: NoteLetter, octave_number: int)
    ensures
        letter_of(midi_of(letter, octave_number) % 12) == letter,
        midi_of(letter, octave_number) / 12 - 1 == octave_number,
{
    let m = midi_of(letter, octave_number);
    let s = semitone_of(letter);
    lemma_fundamental_div_mod(m, 12);
    lemma_mod_bound(m, 12);
    assert(m == 12 * (octave_number + 1) + s);
    lemma_div_mod_unique(m, 12, octave_number + 1, s);
}

/// Euclidean division determines quotient and remainder uniquely.
proof fn lemma_div_mod_unique(n: int, d: int, q: int, r: int)
    requires
        d > 0,
        0 <= r < d,
        n == d * q + r,
    ensures
        n / d == q,
        n % d == r,
{
    lemma_fundamental_div_mod(n, d);
    lemma_mod_bound(n, d);
    let q0 = n / d;
    let r0 = n % d;
    assert(q0 == q) by (nonlinear_arith)
        requires
            n == d * q0 + r0,
            n == d * q + r,
            0 <= r < d,
            0 <= r0 < d,
            d > 0,
    {
        if q0 < q {
            assert(d * q0 + d <= d * q);
        }
        if q0 > q {
            assert(d * q + d <= d * q0);
        }
    }
}

/// Which accidental the name of a black key shows.
#[derive(Copy, Clone, Debug, Eq, PartialEq, Structural)]
pub enum SignStyle {
    /// Both spellings, sharp first: `C#/Db`.
    Both,
    /// The sharp spelling: `C#`.
    Sharp,
    /// The flat spelling: `Db`.
    Flat,
}

/// The name of a letter in the given style.
pub open spec fn letter_name(letter: NoteLetter, style: SignStyle) -> Seq<char> {
    match (letter, style) {
        (NoteLetter::C, _) => "C"@,
        (NoteLetter::Csh, SignStyle::Both) => "C#/Db"@,
        (NoteLetter::Csh, SignStyle::Sharp) => "C#"@,
        (NoteLetter::Csh, SignStyle::Flat) => "Db"@,
        (NoteLetter::D, _) => "D"@,
        (NoteLetter::Dsh, SignStyle::Both) => "D#/Eb"@,
        (NoteLetter::Dsh, SignStyle::Sharp) => "D#"@,
        (NoteLetter::Dsh, SignStyle::Flat) => "Eb"@,
        (NoteLetter::E, _) => "E"@,
        (NoteLetter::F, _) => "F"@,
        (NoteLetter::Fsh, SignStyle::Both) => "F#/Gb"@,
        (NoteLetter::Fsh, SignStyle::Sharp) => "F#"@,
        (NoteLetter::Fsh, SignStyle::Flat) => "Gb"@,
        (NoteLetter::G, _) => "G"@,
        (NoteLetter::Gsh, SignStyle::Both) => "G#/Ab"@,
        (NoteLetter::Gsh, SignStyle::Sharp) => "G#"@,
        (NoteLetter::Gsh, SignStyle::Flat) => "Ab"@,
        (NoteLetter::A, _) => "A"@,
        (NoteLetter::Ash, SignStyle::Both) => "A#/Bb"@,
        (NoteLetter::Ash, SignStyle::Sharp) => "A#"@,
        (NoteLetter::Ash, SignStyle::Flat) => "Bb"@,
        (NoteLetter::B, _) => "B"@,
    }
}

/// Whether the key a number of semitones (0 to 11) above C is a black key.
pub open spec fn is_black_key(semitone: int) -> bool {
    semitone == 1 || semitone == 3 || semitone == 6 || semitone == 8 || semitone == 10
}

/// A black key is spelled from its white neighbours: sharp as the white key a semitone below
/// followed by `#`, flat as the white key a semitone above followed by `b`, and with both
/// spellings as the sharp one, a slash and the flat one. A white key has the same one-letter name
/// in every style.
pub proof fn lemma_letter_names(letter: NoteLetter)
    ensures
        is_black_key(semitone_of(letter)) ==> {
            let below = letter_of(semitone_of(letter) - 1);
            let above = letter_of(semitone_of(letter) + 1);
            &&& !is_black_key(semitone_of(below)) && semitone_of(below) == semitone_of(letter) - 1
            &&& !is_black_key(semitone_of(above)) && semitone_of(above) == semitone_of(letter) + 1
            &&& letter_name(letter, SignStyle::Sharp) == letter_name(below, SignStyle::Sharp) + seq!['#']
            &&& letter_name(letter, SignStyle::Flat) == letter_name(above, SignStyle::Flat) + seq!['b']
            &&& letter_name(letter, SignStyle::Both) == letter_name(letter, SignStyle::Sharp) + seq![
                '/',
            ] + letter_name(letter, SignStyle::Flat)
        },
        0 <= semitone_of(letter) < 12 && letter_of(semitone_of(letter)) == letter,
        letter_name(NoteLetter::C, SignStyle::Sharp) == seq!['C'],
        !is_black_key(semitone_of(letter)) ==> {
            let next_white = if is_black_key((semitone_of(letter) + 1) % 12) {
                (semitone_of(letter) + 2) % 12
            } else {
                (semitone_of(letter) + 1) % 12
            };
            &&& !is_black_key(next_white)
            &&& letter_name(letter_of(next_white), SignStyle::Sharp) == seq![
                crate::temperament::letter_after(letter_name(letter, SignStyle::Sharp)[0], 1, 7),
            ]
        },
        !is_black_key(semitone_of(letter)) ==> {
            &&& letter_name(letter, SignStyle::Sharp).len() == 1
            &&& letter_name(letter, SignStyle::Flat) == letter_name(letter, SignStyle::Sharp)
            &&& letter_name(letter, SignStyle::Both) == letter_name(letter, SignStyle::Sharp)
        },
{
    reveal_strlit("C");
    reveal_strlit("C#/Db");
    reveal_strlit("C#");
    reveal_strlit("Db");
    reveal_strlit("D");
    reveal_strlit("D#/Eb");
    reveal_strlit("D#");
    reveal_strlit("Eb");
    reveal_strlit("E");
    reveal_strlit("F");
    reveal_strlit("F#/Gb");
    reveal_strlit("F#");
    reveal_strlit("Gb");
    reveal_strlit("G");
    reveal_strlit("G#/Ab");
    reveal_strlit("G#");
    reveal_strlit("Ab");
    reveal_strlit("A");
    reveal_strlit("A#/Bb");
    reveal_strlit("A#");
    reveal_strlit("Bb");
    reveal_strlit("B");
    assert(letter_name(letter, SignStyle::Both) =~= letter_name(letter, SignStyle::Sharp) + seq![
        '/',
    ] + letter_name(letter, SignStyle::Flat) || !is_black_key(semitone_of(letter)));
    if !is_black_key(semitone_of(letter)) {
        let next_white = if is_black_key((semitone_of(letter) + 1) % 12) {
            (semitone_of(letter) + 2) % 12
        } else {
            (semitone_of(letter) + 1) % 12
        };
        assert(letter_name(letter_of(next_white), SignStyle::Sharp) =~= seq![
            crate::temperament::letter_after(letter_name(letter, SignStyle::Sharp)[0], 1, 7),
        ]);
    }
    assert(letter_name(NoteLetter::C, SignStyle::Sharp) =~= seq!['C']);
    if is_black_key(semitone_of(letter)) {
        let below = letter_of(semitone_of(letter) - 1);
        let above = letter_of(semitone_of(letter) + 1);
        assert(letter_name(letter, SignStyle::Sharp) =~= letter_name(below, SignStyle::Sharp) + seq!['#']);
        assert(letter_name(letter, SignStyle::Flat) =~= letter_name(above, SignStyle::Flat) + seq!['b']);
    }
}

/// The name of a note: the name of its letter, a space and its octave number.
pub open spec fn note_name(midi: int, style: SignStyle) -> Seq<char> {
    letter_name(letter_of(midi % 12), style) + seq![' '] + text::decimal(midi / 12 - 1)
}

impl NoteLetter {
    /// The name of the letter, showing the accidental of a black key as `style` says.
    pub fn name(self, style: SignStyle) -> (r: &'static str)
        ensures
            r@ == letter_name(self, style),
    {
        match (self, style) {
            (NoteLetter::C, _) => "C",
            (NoteLetter::Csh, SignStyle::Both) => "C#/Db",
            (NoteLetter::Csh, SignStyle::Sharp) => "C#",
            (NoteLetter::Csh, SignStyle::Flat) => "Db",
            (NoteLetter::D, _) => "D",
            (NoteLetter::Dsh, SignStyle::Both) => "D#/Eb",
            (NoteLetter::Dsh, SignStyle::Sharp) => "D#",
            (NoteLetter::Dsh, SignStyle::Flat) => "Eb",
            (NoteLetter::E, _) => "E",
            (NoteLetter::F, _) => "F",
            (NoteLetter::Fsh, SignStyle::Both) => "F#/Gb",
            (NoteLetter::Fsh, SignStyle::Sharp) => "F#",
            (NoteLetter::Fsh, SignStyle::Flat) => "Gb",
            (NoteLetter::G, _) => "G",
            (NoteLetter::Gsh, SignStyle::Both) => "G#/Ab",
            (NoteLetter::Gsh, SignStyle::Sharp) => "G#",
            (NoteLetter::Gsh, SignStyle::Flat) => "Ab",
            (NoteLetter::A, _) => "A",
            (NoteLetter::Ash, SignStyle::Both) => "A#/Bb",
            (NoteLetter::Ash, SignStyle::Sharp) => "A#",
            (NoteLetter::Ash, SignStyle::Flat) => "Bb",
            (NoteLetter::B, _) => "B",
        }
    }

    /// The name of the letter with both spellings of a black key, e.g. `C#/Db`.
    pub fn to_string(&self) -> (r: String)
        ensures
            r@ == letter_name(*self, SignStyle::Both),
    {
        String::from_str(self.name(SignStyle::Both))
    }
}

impl Note {
    /// The name of the note, e.g. `A#/Bb 4`, showing the accidental of a black key as `style`
    /// says.
    pub fn name(&self, style: SignStyle) -> (r: String)
        ensures
            r@ == note_name(self.midi(), style),
    {
        let (letter, octave) = self.letter_and_octave();
        let mut name = String::from_str(letter.name(style));
        text::push_char(&mut name, ' ');
        text::push_decimal(&mut name, octave.octave_number() as i64);
        name
    }

    /// The name of the note with both spellings of a black key, e.g. `A#/Bb 4`.
    pub fn to_string(&self) -> (r: String)
        ensures
            r@ == note_name(self.midi(), SignStyle::Both),
    {
        self.name(SignStyle::Both)
    }
}

} // verus!
