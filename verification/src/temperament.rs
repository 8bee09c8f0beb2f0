//! Explore equal temperaments through the meantone and porcupine genchains.
use vstd::prelude::*;
use vstd::arithmetic::div_mod::lemma_small_mod;
use crate::comma::{self, Comma};
use crate::pergen::{
    genchain_spelling, Accidentals, AccidentalsFormat, AccidentalsOrder, NoteFormatter, PerGen,
};

verus! {

/// The genchain that names the notes of an equal temperament.
#[derive(Clone, Copy, Debug, Eq, Hash, PartialEq, Structural)]
pub enum TemperamentType {
    /// Octave-reduced temperament treating 4 fifths to be equal to one major third; the notes are
    /// derived from the genchain of fifths [ &hellip; Bb F C G D A E B F# &hellip; ].
    Meantone,
    /// Octave-reduced temperament treating 3 major thirds to be equal to 5 fifths; the notes are
    /// derived from the genchain of primary steps [ &hellip; G# A B C D E F G Ab &hellip; ].
    Porcupine,
}

impl TemperamentType {
    /// The name under which the temperament type is displayed.
    pub fn display_name(&self) -> (r: &'static str)
        ensures
            r@ == (match *self {
                TemperamentType::Meantone => "Meantone",
                TemperamentType::Porcupine => "Porcupine",
            })@,
    {
        match self {
            TemperamentType::Meantone => "Meantone",
            TemperamentType::Porcupine => "Porcupine",
        }
    }
}

/// Which temperament to prefer when searching an equal temperament.
#[derive(Clone, Copy, Debug, Eq, PartialEq, Structural)]
pub enum TemperamentPreference {
    /// Always choose meantone even if it will have bad qualities e.g. `secondary_step < 0`.
    Meantone,
    /// Try to fall back to porcupine when meantone would have bad qualities.
    PorcupineWhenMeantoneIsBad,
    /// Use porcupine whenever possible.
    Porcupine,
}

/// An equal temperament with the steps of its genchain and its note names.
#[derive(Clone, Debug)]
pub struct EqualTemperament {
    temperament_type: TemperamentType,
    primary_step: i16,
    secondary_step: i16,
    num_steps_per_fifth: u16,
    pergen: PerGen,
    acc_format: AccidentalsFormat,
    formatter: NoteFormatter,
}

/// The mathematical content of an [`EqualTemperament`].
pub struct TemperamentView {
    pub temperament_type: TemperamentType,
    pub num_steps_per_octave: int,
    pub num_steps_per_fifth: int,
    pub primary_step: int,
    pub secondary_step: int,
}

/// The meantone temperament with the given octave and fifth.
pub open spec fn meantone_view(num_steps_per_octave: int, num_steps_per_fifth: int) -> TemperamentView {
    TemperamentView {
        temperament_type: TemperamentType::Meantone,
        num_steps_per_octave,
        num_steps_per_fifth,
        primary_step: 2 * num_steps_per_fifth - num_steps_per_octave,
        secondary_step: 3 * num_steps_per_octave - 5 * num_steps_per_fifth,
    }
}

/// The porcupine temperament with the given octave and primary step.
pub open spec fn porcupine_view(num_steps_per_octave: int, primary_step: int) -> TemperamentView {
    TemperamentView {
        temperament_type: TemperamentType::Porcupine,
        num_steps_per_octave,
        num_steps_per_fifth: num_steps_per_octave - 3 * primary_step,
        primary_step,
        secondary_step: num_steps_per_octave - 6 * primary_step,
    }
}

/// Whether the steps and the sharpness fit in an `i16` and the octave is not empty.
pub open spec fn temperament_fits(view: TemperamentView) -> bool {
    &&& 0 < view.num_steps_per_octave <= u16::MAX
    &&& 0 <= view.num_steps_per_fifth <= u16::MAX
    &&& i16::MIN <= view.primary_step <= i16::MAX
    &&& i16::MIN <= view.secondary_step <= i16::MAX
    &&& i16::MIN <= view.primary_step - view.secondary_step <= i16::MAX
}

/// The porcupine reading of a temperament: three primary steps make up its fourth.
pub open spec fn as_porcupine_view(view: TemperamentView) -> Option<TemperamentView> {
    let fourth = view.num_steps_per_octave - view.num_steps_per_fifth;
    if fourth % 3 == 0 {
        Some(porcupine_view(view.num_steps_per_octave, fourth / 3))
    } else {
        None
    }
}

impl EqualTemperament {
    pub closed spec fn view(self) -> TemperamentView {
        TemperamentView {
            temperament_type: self.temperament_type,
            num_steps_per_octave: self.pergen.period_value() as int,
            num_steps_per_fifth: self.num_steps_per_fifth as int,
            primary_step: self.primary_step as int,
            secondary_step: self.secondary_step as int,
        }
    }

    /// The period and generator of the temperament.
    pub closed spec fn pergen_value(self) -> PerGen {
        self.pergen
    }

    /// The internal consistency of a temperament: the genchain, the names and the signs belong to
    /// its type and sharpness.
    pub closed spec fn wf(self) -> bool {
        let sharpness = self.primary_step - self.secondary_step;
        &&& self.pergen.wf()
        &&& temperament_fits(self.view())
        &&& self.pergen.generator_value() == match self.temperament_type {
            TemperamentType::Meantone => self.num_steps_per_fifth as int,
            TemperamentType::Porcupine => self.primary_step as int,
        }
        &&& self.acc_format.num_symbols == 7
        &&& self.acc_format.genchain_origin == 3
        &&& self.formatter.note_names@ == note_names(self.temperament_type)
        &&& self.formatter.cycle_sign == '*'
        &&& self.formatter.sharp_sign == if sharpness >= 0 {
            '#'
        } else {
            '-'
        }
        &&& self.formatter.flat_sign == if sharpness >= 0 {
            'b'
        } else {
            '+'
        }
        &&& self.formatter.order == if sharpness >= 0 {
            AccidentalsOrder::SharpFlat
        } else {
            AccidentalsOrder::FlatSharp
        }
    }

    /// Creates the meantone temperament with the given octave and fifth.
    pub fn meantone(num_steps_per_octave: u16, num_steps_per_fifth: u16) -> (r: Self)
        requires
            temperament_fits(meantone_view(num_steps_per_octave as int, num_steps_per_fifth as int)),
        ensures
            r.wf(),
            r.view() == meantone_view(num_steps_per_octave as int, num_steps_per_fifth as int),
    {
        let primary_step = (2 * num_steps_per_fifth as i32 - num_steps_per_octave as i32) as i16;
        let secondary_step = (3 * num_steps_per_octave as i32 - 5 * num_steps_per_fifth as i32) as i16;
        let sharpness = primary_step - secondary_step;
        Self {
            temperament_type: TemperamentType::Meantone,
            primary_step,
            secondary_step,
            num_steps_per_fifth,
            pergen: PerGen::new(num_steps_per_octave, num_steps_per_fifth),
            acc_format: AccidentalsFormat { num_symbols: 7, genchain_origin: 3 },
            formatter: heptatonic_formatter(TemperamentType::Meantone, sharpness),
        }
    }

    /// Creates the porcupine temperament with the given octave and primary step.
    pub fn porcupine(num_steps_per_octave: u16, primary_step: u16) -> (r: Self)
        requires
            temperament_fits(porcupine_view(num_steps_per_octave as int, primary_step as int)),
        ensures
            r.wf(),
            r.view() == porcupine_view(num_steps_per_octave as int, primary_step as int),
    {
        let primary = primary_step as i16;
        let secondary_step = (num_steps_per_octave as i32 - 6 * primary_step as i32) as i16;
        let sharpness = primary - secondary_step;
        Self {
            temperament_type: TemperamentType::Porcupine,
            primary_step: primary,
            secondary_step,
            num_steps_per_fifth: (num_steps_per_octave as i32 - 3 * primary_step as i32) as u16,
            pergen: PerGen::new(num_steps_per_octave, primary_step),
            acc_format: AccidentalsFormat { num_symbols: 7, genchain_origin: 3 },
            formatter: heptatonic_formatter(TemperamentType::Porcupine, sharpness),
        }
    }

    /// Starts a search for an equal temperament with the default settings.
    pub fn find() -> (r: TemperamentFinder)
        ensures
            r.second_best_fifth_allowed,
            r.preference == TemperamentPreference::PorcupineWhenMeantoneIsBad,
    {
        TemperamentFinder {
            second_best_fifth_allowed: true,
            preference: TemperamentPreference::PorcupineWhenMeantoneIsBad,
        }
    }

    /// The porcupine temperament whose primary step is a third of this temperament's fourth, if
    /// the fourth can be divided into three.
    pub fn as_porcupine(&self) -> (r: Option<EqualTemperament>)
        requires
            self.wf(),
            self.view().num_steps_per_fifth <= self.view().num_steps_per_octave,
            as_porcupine_view(self.view()) matches Some(v) ==> temperament_fits(v),
        ensures
            match r {
                Some(temperament) => temperament.wf() && as_porcupine_view(self.view()) == Some(
                    temperament.view(),
                ),
                None => as_porcupine_view(self.view()) is None,
            },
    {
        let num_steps_of_fourth = self.num_steps_per_octave() - self.num_steps_per_fifth();
        if num_steps_of_fourth % 3 == 0 {
            Some(Self::porcupine(self.num_steps_per_octave(), num_steps_of_fourth / 3))
        } else {
            None
        }
    }

    pub fn temperament_type(&self) -> (r: TemperamentType)
        ensures
            r == self.view().temperament_type,
    {
        self.temperament_type
    }

    pub fn primary_step(&self) -> (r: i16)
        ensures
            r == self.view().primary_step,
    {
        self.primary_step
    }

    pub fn secondary_step(&self) -> (r: i16)
        ensures
            r == self.view().secondary_step,
    {
        self.secondary_step
    }

    pub fn sharpness(&self) -> (r: i16)
        requires
            self.wf(),
        ensures
            r == self.view().primary_step - self.view().secondary_step,
    {
        self.primary_step - self.secondary_step
    }

    pub fn num_steps_per_octave(&self) -> (r: u16)
        ensures
            r == self.view().num_steps_per_octave,
    {
        self.pergen.period()
    }

    pub fn num_steps_per_fifth(&self) -> (r: u16)
        ensures
            r == self.view().num_steps_per_fifth,
    {
        self.num_steps_per_fifth
    }

    pub fn num_cycles(&self) -> (r: u16)
        ensures
            r == self.pergen_value().num_cycles_value(),
    {
        self.pergen.num_cycles()
    }

    /// Whether the heptatonic name of the key at `index` can be computed within the bounds.
    pub open spec fn name_fits(self, index: u16) -> bool {
        self.pergen_value().accidentals_fit(AccidentalsFormat { num_symbols: 7, genchain_origin: 3 }, index)
    }

    /// The heptatonic note name of the key at `index`.
    pub fn get_heptatonic_name(&self, index: u16) -> (r: String)
        requires
            self.wf(),
            self.name_fits(index),
        ensures
            r@ == heptatonic_name(self.view(), self.pergen_value(), index),
    {
        self.formatter.format(&self.pergen.get_accidentals(&self.acc_format, index))
    }
}

/// The natural note names of a temperament type, in genchain order.
pub open spec fn note_names(temperament_type: TemperamentType) -> Seq<char> {
    match temperament_type {
        TemperamentType::Meantone => seq!['F', 'C', 'G', 'D', 'A', 'E', 'B'],
        TemperamentType::Porcupine => seq!['A', 'B', 'C', 'D', 'E', 'F', 'G'],
    }
}

/// The heptatonic name of the key at `index`: the spelling of its genchain degree, rendered with
/// the names and signs that belong to the temperament.
pub open spec fn heptatonic_name(view: TemperamentView, pergen: PerGen, index: u16) -> Seq<char> {
    let sharpness = view.primary_step - view.secondary_step;
    let spelling = genchain_spelling(7, 3, pergen.reduced_period_value(), pergen.degree_of(index));
    let accidentals = Accidentals {
        cycle: if pergen.num_cycles_value() > 1 {
            Some((index % pergen.num_cycles_value()) as u16)
        } else {
            None
        },
        sharp_index: spelling.0 as u16,
        sharp_count: spelling.1 as u16,
        flat_index: spelling.2 as u16,
        flat_count: spelling.3 as u16,
    };
    let (sharp_sign, flat_sign, order) = if sharpness >= 0 {
        ('#', 'b', AccidentalsOrder::SharpFlat)
    } else {
        ('-', '+', AccidentalsOrder::FlatSharp)
    };
    formatted_with(note_names(view.temperament_type), sharp_sign, flat_sign, order, accidentals)
}

/// The letter `steps` places after `letter` in an alphabet of `size` letters starting at `A`,
/// wrapping around.
pub open spec fn letter_after(letter: char, steps: int, size: int) -> char {
    ((((letter as int - 'A' as int) + steps) % size) + 'A' as int) as char
}

/// The seven naturals of a temperament along its genchain are D at the origin (position 3) and,
/// from one to the next, a generator apart: a fifth (four letters on) in meantone, a second (the
/// next letter) in porcupine.
pub proof fn lemma_natural_names(temperament_type: TemperamentType)
    ensures
        note_names(temperament_type).len() == 7,
        note_names(temperament_type)[3] == 'D',
        forall|i: int|
            0 <= i < 6 ==> note_names(temperament_type)[i + 1] == letter_after(
                #[trigger] note_names(temperament_type)[i],
                match temperament_type {
                    TemperamentType::Meantone => 4,
                    TemperamentType::Porcupine => 1,
                },
                7,
            ),
{
    let names = note_names(temperament_type);
    assert forall|i: int| 0 <= i < 6 implies names[i + 1] == letter_after(
        #[trigger] names[i],
        match temperament_type {
            TemperamentType::Meantone => 4,
            TemperamentType::Porcupine => 1,
        },
        7,
    ) by {
        assert(0 <= i < 6);
        if i == 0 {
        } else if i == 1 {
        } else if i == 2 {
        } else if i == 3 {
        } else if i == 4 {
        } else {
        }
    }
}

/// The origin of the genchain is the note D, and the key one generator above it is named by the
/// natural that the generator reaches from D: in porcupine the generator is the primary step, a
/// second, so that key is E; in meantone the generator is the fifth, so that key is A. This holds
/// wherever the genchain spans at least the seven naturals.
#[verifier::spinoff_prover]
pub proof fn lemma_names_around_d(t: EqualTemperament)
    requires
        t.wf(),
        t.pergen_value().reduced_period_value() >= 7,
    ensures
        heptatonic_name(t.view(), t.pergen_value(), 0) == seq!['D'],
        t.view().temperament_type == TemperamentType::Porcupine ==> {
            &&& t.view().primary_step == t.pergen_value().generator_value()
            &&& heptatonic_name(t.view(), t.pergen_value(), t.pergen_value().generator_value())
                == seq!['E']
        },
        t.view().temperament_type == TemperamentType::Meantone ==> {
            &&& t.view().num_steps_per_fifth == t.pergen_value().generator_value()
            &&& heptatonic_name(t.view(), t.pergen_value(), t.pergen_value().generator_value())
                == seq!['A']
        },
{
    let pergen = t.pergen_value();
    pergen.lemma_generator_is_one_degree();
    let reduced = pergen.reduced_period_value();
    lemma_small_mod(3, reduced as nat);
    lemma_small_mod(4, reduced as nat);
    lemma_small_mod(2, reduced as nat);
    assert(Seq::new(0, |_i: int| '*') =~= Seq::<char>::empty());
    assert(seq!['D'] + Seq::<char>::empty() =~= seq!['D']);
    assert(seq!['E'] + Seq::<char>::empty() =~= seq!['E']);
    assert(seq!['A'] + Seq::<char>::empty() =~= seq!['A']);
    assert(heptatonic_name(t.view(), pergen, 0) =~= seq!['D']);
    assert(heptatonic_name(t.view(), pergen, pergen.generator_value()) =~= seq![
        note_names(t.view().temperament_type)[4],
    ]);
}

/// The text of [`NoteFormatter::format`] for the given names and signs, with `*` as cycle sign.
pub open spec fn formatted_with(
    names: Seq<char>,
    sharp_sign: char,
    flat_sign: char,
    order: AccidentalsOrder,
    accidentals: Accidentals,
) -> Seq<char> {
    let a = accidentals;
    let note = |index: u16, count: u16, accidental: char|
        seq![
            if index < names.len() {
                names[index as int]
            } else {
                '?'
            },
        ] + Seq::new(count as nat, |_i: int| accidental);
    let cycle_text = Seq::new(
        match a.cycle {
            Some(c) => c as nat,
            None => 0,
        },
        |_i: int| '*',
    );
    if a.sharp_count == 0 && a.flat_count == 0 && a.sharp_index == a.flat_index {
        note(a.sharp_index, 0, '\0') + cycle_text
    } else if a.sharp_count > a.flat_count {
        note(a.flat_index, a.flat_count, flat_sign) + cycle_text
    } else if a.sharp_count < a.flat_count {
        note(a.sharp_index, a.sharp_count, sharp_sign) + cycle_text
    } else {
        let sharp = note(a.sharp_index, a.sharp_count, sharp_sign);
        let flat = note(a.flat_index, a.sharp_count, flat_sign);
        let (first, second) = match order {
            AccidentalsOrder::SharpFlat => (sharp, flat),
            AccidentalsOrder::FlatSharp => (flat, sharp),
        };
        let body = first + seq!['/'] + second;
        if a.cycle is Some {
            seq!['('] + body + seq![')'] + cycle_text
        } else {
            body + cycle_text
        }
    }
}

/// The formatter of heptatonic note names for a temperament type and sharpness.
fn heptatonic_formatter(temperament_type: TemperamentType, sharpness: i16) -> (r: NoteFormatter)
    ensures
        r.note_names@ == note_names(temperament_type),
        r.cycle_sign == '*',
        r.sharp_sign == if sharpness >= 0 {
            '#'
        } else {
            '-'
        },
        r.flat_sign == if sharpness >= 0 {
            'b'
        } else {
            '+'
        },
        r.order == if sharpness >= 0 {
            AccidentalsOrder::SharpFlat
        } else {
            AccidentalsOrder::FlatSharp
        },
{
    let note_names = match temperament_type {
        TemperamentType::Meantone => vec!['F', 'C', 'G', 'D', 'A', 'E', 'B'],
        TemperamentType::Porcupine => vec!['A', 'B', 'C', 'D', 'E', 'F', 'G'],
    };
    NoteFormatter {
        note_names,
        sharp_sign: sharp_sign_from_sharpness(sharpness),
        flat_sign: flat_sign_from_sharpness(sharpness),
        cycle_sign: '*',
        order: AccidentalsOrder::from_sharpness(sharpness),
    }
}

/// The sign that raises a note: `#` for a non-negative sharpness, `-` otherwise.
fn sharp_sign_from_sharpness(sharpness: i16) -> (r: char)
    ensures
        r == if sharpness >= 0 {
            '#'
        } else {
            '-'
        },
{
    if sharpness >= 0 {
        '#'
    } else {
        '-'
    }
}

/// The sign that lowers a note: `b` for a non-negative sharpness, `+` otherwise.
fn flat_sign_from_sharpness(sharpness: i16) -> (r: char)
    ensures
        r == if sharpness >= 0 {
            'b'
        } else {
            '+'
        },
{
    if sharpness >= 0 {
        'b'
    } else {
        '+'
    }
}

/// Searches an equal temperament: meantone with the best fifth, or with the second best fifth, or
/// porcupine, as the settings allow.
#[derive(Clone, Copy, Debug)]
pub struct TemperamentFinder {
    pub second_best_fifth_allowed: bool,
    pub preference: TemperamentPreference,
}

/// Whether a temperament has acceptable qualities: a positive primary step and a non-negative
/// secondary step.
pub open spec fn acceptable(view: TemperamentView) -> bool {
    view.primary_step > 0 && view.secondary_step >= 0
}

impl TemperamentFinder {
    pub fn with_second_best_fifth_allowed(self, flat_fifth_allowed: bool) -> (r: Self)
        ensures
            r == (TemperamentFinder { second_best_fifth_allowed: flat_fifth_allowed, ..self }),
    {
        TemperamentFinder { second_best_fifth_allowed: flat_fifth_allowed, ..self }
    }

    pub fn with_preference(self, preference: TemperamentPreference) -> (r: Self)
        ensures
            r == (TemperamentFinder { preference, ..self }),
    {
        TemperamentFinder { preference, ..self }
    }

    /// Whether the meantone temperament with the given fifth is to be read as porcupine.
    pub open spec fn tries_porcupine(self, meantone: TemperamentView) -> bool {
        match self.preference {
            TemperamentPreference::Meantone => false,
            TemperamentPreference::PorcupineWhenMeantoneIsBad => !acceptable(meantone)
                || meantone.primary_step - meantone.secondary_step < 0,
            TemperamentPreference::Porcupine => true,
        }
    }

    /// The temperament chosen for the given fifth, and whether it has acceptable qualities.
    pub open spec fn rated(self, num_steps_per_octave: int, num_steps_per_fifth: int) -> (
        TemperamentView,
        bool,
    ) {
        let meantone = meantone_view(num_steps_per_octave, num_steps_per_fifth);
        if self.tries_porcupine(meantone) && (as_porcupine_view(meantone) matches Some(porcupine)
            && porcupine.secondary_step >= 0) {
            (as_porcupine_view(meantone)->0, true)
        } else {
            (meantone, acceptable(meantone))
        }
    }

    /// Whether rating the given fifth stays within the bounds.
    pub open spec fn rating_fits(self, num_steps_per_octave: int, num_steps_per_fifth: int) -> bool {
        let meantone = meantone_view(num_steps_per_octave, num_steps_per_fifth);
        &&& temperament_fits(meantone)
        &&& self.tries_porcupine(meantone) ==> num_steps_per_fifth <= num_steps_per_octave
        &&& self.tries_porcupine(meantone) ==> (as_porcupine_view(meantone) matches Some(v)
            ==> temperament_fits(v))
    }

    /// The temperament found from the given octave and best fifth: the best fifth if it is
    /// acceptable, otherwise the second best fifth if allowed and acceptable, otherwise the best
    /// fifth anyway.
    pub open spec fn found(self, num_steps_per_octave: int, best_fifth: int) -> TemperamentView {
        let (best, best_ok) = self.rated(num_steps_per_octave, best_fifth);
        if best_ok {
            best
        } else if self.second_best_fifth_allowed && best_fifth > 0 && self.rated(
            num_steps_per_octave,
            best_fifth - 1,
        ).1 {
            self.rated(num_steps_per_octave, best_fifth - 1).0
        } else {
            best
        }
    }

    /// What rating a fifth yields: the meantone temperament of that fifth or, where the finder
    /// tries porcupine, its porcupine reading, which keeps the fifth; a temperament rated as
    /// acceptable has a non-negative secondary step, and a positive primary step when it is
    /// meantone.
    pub proof fn lemma_rated(self, num_steps_per_octave: int, num_steps_per_fifth: int)
        ensures
            ({
                let (r, ok) = self.rated(num_steps_per_octave, num_steps_per_fifth);
                &&& r.num_steps_per_octave == num_steps_per_octave
                &&& r.num_steps_per_fifth == num_steps_per_fifth
                &&& r.temperament_type == TemperamentType::Meantone ==> r == meantone_view(
                    num_steps_per_octave,
                    num_steps_per_fifth,
                )
                &&& r.temperament_type == TemperamentType::Porcupine ==> {
                    &&& self.preference != TemperamentPreference::Meantone
                    &&& (num_steps_per_octave - num_steps_per_fifth) % 3 == 0
                    &&& r == porcupine_view(
                        num_steps_per_octave,
                        (num_steps_per_octave - num_steps_per_fifth) / 3,
                    )
                }
                &&& ok ==> r.secondary_step >= 0
                &&& ok && r.temperament_type == TemperamentType::Meantone ==> r.primary_step > 0
                &&& !ok <==> (r.temperament_type == TemperamentType::Meantone && !(r.primary_step
                    > 0 && r.secondary_step >= 0))
            }),
    {
        let fourth = num_steps_per_octave - num_steps_per_fifth;
        if fourth % 3 == 0 {
            assert(num_steps_per_octave - 3 * (fourth / 3) == num_steps_per_fifth);
        }
    }

    /// The search keeps the best fifth when it rates as acceptable, and otherwise falls back to the
    /// second best fifth (one step flatter) exactly when that is allowed and rates as acceptable;
    /// failing both, it keeps the best fifth with its bad qualities. The result is a temperament of
    /// the given octave whose fifth is the one chosen.
    pub proof fn lemma_found(self, num_steps_per_octave: int, best_fifth: int)
        ensures
            ({
                let r = self.found(num_steps_per_octave, best_fifth);
                let best = self.rated(num_steps_per_octave, best_fifth);
                let second = self.rated(num_steps_per_octave, best_fifth - 1);
                let falls_back = !best.1 && self.second_best_fifth_allowed && best_fifth > 0
                    && second.1;
                &&& r.num_steps_per_octave == num_steps_per_octave
                &&& r.num_steps_per_fifth == if falls_back {
                    best_fifth - 1
                } else {
                    best_fifth
                }
                &&& r == (if falls_back {
                    second.0
                } else {
                    best.0
                })
                &&& falls_back ==> r.secondary_step >= 0 && (r.temperament_type
                    == TemperamentType::Meantone ==> r.primary_step > 0)
            }),
    {
        self.lemma_rated(num_steps_per_octave, best_fifth);
        self.lemma_rated(num_steps_per_octave, best_fifth - 1);
    }

    /// Whether the search from the given octave and best fifth stays within the bounds.
    pub open spec fn search_fits(self, num_steps_per_octave: int, best_fifth: int) -> bool {
        &&& self.rating_fits(num_steps_per_octave, best_fifth)
        &&& !self.rated(num_steps_per_octave, best_fifth).1 && self.second_best_fifth_allowed
            && best_fifth > 0 ==> self.rating_fits(num_steps_per_octave, best_fifth - 1)
    }

    /// Finds the temperament from the number of steps of the octave and of the best fifth.
    pub fn from_starting_point(&self, num_steps_per_octave: u16, best_fifth: u16) -> (r: EqualTemperament)
        requires
            self.search_fits(num_steps_per_octave as int, best_fifth as int),
        ensures
            r.wf(),
            r.view() == self.found(num_steps_per_octave as int, best_fifth as int),
    {
        let (best_fifth_temperament, has_acceptable_qualities) = self.create_and_rate_temperament(
            num_steps_per_octave,
            best_fifth,
        );
        if has_acceptable_qualities {
            return best_fifth_temperament;
        }
        if self.second_best_fifth_allowed && best_fifth > 0 {
            let (flat_fifth_temperament, has_acceptable_qualities) = self.create_and_rate_temperament(
                num_steps_per_octave,
                best_fifth - 1,
            );
            if has_acceptable_qualities {
                return flat_fifth_temperament;
            }
        }
        best_fifth_temperament
    }

    fn create_and_rate_temperament(&self, num_steps_per_octave: u16, num_steps_per_fifth: u16) -> (r: (
        EqualTemperament,
        bool,
    ))
        requires
            self.rating_fits(num_steps_per_octave as int, num_steps_per_fifth as int),
        ensures
            r.0.wf(),
            (r.0.view(), r.1) == self.rated(num_steps_per_octave as int, num_steps_per_fifth as int),
    {
        let temperament = EqualTemperament::meantone(num_steps_per_octave, num_steps_per_fifth);
        let has_acceptable_qualities = temperament.primary_step() > 0
            && temperament.secondary_step() >= 0;
        let try_porcupine = match self.preference {
            TemperamentPreference::Meantone => false,
            TemperamentPreference::PorcupineWhenMeantoneIsBad => !has_acceptable_qualities
                || temperament.sharpness() < 0,
            TemperamentPreference::Porcupine => true,
        };
        if try_porcupine {
            if let Some(porcupine) = temperament.as_porcupine() {
                if porcupine.secondary_step() >= 0 {
                    return (porcupine, true);
                }
            }
        }
        (temperament, has_acceptable_qualities)
    }
}

/// The sum of `values[i] * monzo[i]` over the first `n` primes.
pub open spec fn partial_map(values: Seq<u16>, monzo: Seq<i16>, n: nat) -> int
    decreases n,
{
    if n == 0 {
        0
    } else {
        partial_map(values, monzo, (n - 1) as nat) + values[n - 1] as int * monzo[n - 1] as int
    }
}

/// The number of primes that both the values and the exponents cover.
pub open spec fn common_len(values: Seq<u16>, monzo: Seq<i16>) -> nat {
    if values.len() < monzo.len() {
        values.len()
    } else {
        monzo.len()
    }
}

/// The number of steps that `values` map the interval with the prime exponents `monzo` to.
pub open spec fn mapped_steps(values: Seq<u16>, monzo: Seq<i16>) -> int {
    partial_map(values, monzo, common_len(values, monzo))
}

/// Whether every partial sum of the mapping fits in an `i32`.
pub open spec fn map_fits(values: Seq<u16>, monzo: Seq<i16>) -> bool {
    forall|n: nat|
        n <= common_len(values, monzo) ==> i32::MIN <= #[trigger] partial_map(values, monzo, n)
            <= i32::MAX
}

/// A val: the number of steps that approximates each prime of a prime limit, together with the
/// size of the step.
pub struct Val<S> {
    step_size: S,
    values: Vec<u16>,
}

impl<S> Val<S> {
    /// A val covers at most the primes below 256.
    #[verifier::type_invariant]
    spec fn short_enough(self) -> bool {
        self.values@.len() <= 54
    }

    /// The number of steps of each prime.
    pub closed spec fn values_view(self) -> Seq<u16> {
        self.values@
    }

    /// The size of the step.
    pub closed spec fn step_size_view(self) -> S {
        self.step_size
    }

    /// Creates a [`Val`] from the given values.
    ///
    /// [`None`] is returned if the provided list is longer than the number of primes below 256.
    pub fn create(step_size: S, values: Vec<u16>) -> (r: Option<Self>)
        ensures
            r is Some <==> values@.len() <= 54,
            r matches Some(val) ==> val.values_view() == values@ && val.step_size_view()
                == step_size,
    {
        if values.len() > 54 {
            None
        } else {
            Some(Self { step_size, values })
        }
    }

    /// Returns the values stored in this [`Val`].
    pub fn values(&self) -> (r: &[u16])
        ensures
            r@ == self.values_view(),
            r@.len() <= 54,
    {
        proof {
            use_type_invariant(self);
        }
        self.values.as_slice()
    }

    /// Returns the prime limit of this [`Val`]: its largest prime, 1 if it has no values.
    pub fn prime_limit(&self) -> (r: u8)
        ensures
            r == comma::prime_limit_of(self.values_view().len()),
    {
        proof {
            use_type_invariant(self);
        }
        comma::prime_limit_of_len(self.values.len())
    }

    /// Maps the given [`Comma`] to the number of steps of this val, provided that the val's prime
    /// limit covers the comma's prime limit.
    pub fn map(&self, comma: &Comma) -> (r: Option<i32>)
        requires
            comma.monzo_value().len() <= 54,
            map_fits(self.values_view(), comma.monzo_value()),
        ensures
            r == if comma::prime_limit_of(self.values_view().len()) >= comma::prime_limit_of(
                comma.monzo_value().len(),
            ) {
                Some(mapped_steps(self.values_view(), comma.monzo_value()) as i32)
            } else {
                None::<i32>
            },
    {
        if self.prime_limit() < comma.prime_limit() {
            return None;
        }
        let monzo = comma.monzo();
        let ghost values = self.values@;
        let n: usize = if self.values.len() < monzo.len() {
            self.values.len()
        } else {
            monzo.len()
        };
        let mut sum: i32 = 0;
        let mut i: usize = 0;
        while i < n
            invariant
                values == self.values@,
                monzo@ == comma.monzo_value(),
                n == common_len(values, monzo@),
                map_fits(values, monzo@),
                i <= n,
                sum == partial_map(values, monzo@, i as nat),
            decreases n - i,
        {
            assert(partial_map(values, monzo@, (i + 1) as nat) == sum + values[i as int] as int
                * monzo@[i as int] as int);
            assert(i32::MIN <= partial_map(values, monzo@, (i + 1) as nat) <= i32::MAX);
            assert(-2147450880 <= self.values@[i as int] as int * monzo@[i as int] as int <= 2147450880) by (nonlinear_arith)
                requires
                    0 <= self.values@[i as int] <= 65535,
                    -32768 <= monzo@[i as int] <= 32767,
            ;
            sum = sum + self.values[i] as i32 * monzo[i] as i32;
            i = i + 1;
        }
        Some(sum)
    }

    /// Checks whether this [`Val`] defines a rank-1 temperament which tempers out the given
    /// [`Comma`]: the comma maps to zero steps.
    pub fn tempers_out(&self, comma: &Comma) -> (r: bool)
        requires
            comma.monzo_value().len() <= 54,
            map_fits(self.values_view(), comma.monzo_value()),
        ensures
            r == (comma::prime_limit_of(self.values_view().len()) >= comma::prime_limit_of(
                comma.monzo_value().len(),
            ) && mapped_steps(self.values_view(), comma.monzo_value()) == 0),
    {
        match self.map(comma) {
            Some(steps) => steps == 0,
            None => false,
        }
    }
}

impl<S: Copy> Val<S> {
    /// Returns the step size stored in this [`Val`].
    pub fn step_size(&self) -> (r: S)
        ensures
            r == self.step_size_view(),
    {
        self.step_size
    }
}

} // verus!
