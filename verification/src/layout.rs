//! Find generator chains and keyboard layouts.
use vstd::prelude::*;
use vstd::arithmetic::div_mod::*;
use vstd::arithmetic::mul::*;
use crate::math;
use crate::temperament::letter_after;
use crate::pergen::{
    children_views, count_nonzero, expand_layers, genchain_spelling, seq_sum, Accidentals,
    AccidentalsFormat, AccidentalsOrder, Mos, MosView, NoteFormatter, PerGen,
};

verus! {

/// A descriptor for a consecutive genchain segment after decomposing a MOS into its color layers.
#[derive(Clone, Copy, Debug, PartialEq, Eq, Structural)]
pub enum Layer {
    /// Layer containing the natural notes.
    Natural,
    /// Layer at the given level containing sharp notes.
    Sharp(u16),
    /// Layer at the given level containing flat notes.
    Flat(u16),
    /// Layer at the given level containing notes with ambiguous accidental.
    Enharmonic(u16),
}

/// Genchain used to derive note names, colors and step sizes for a given tuning.
///
/// The name is to be understood as a representative for an entire family of temperaments that
/// share the same genchain.
#[derive(Clone, Copy, Debug, Eq, Hash, PartialEq, Structural)]
pub enum Genchain {
    /// Similar to [`Genchain::Meantone7`] but with 9 natural notes instead of 7.
    ///
    /// The generated notes are [ &hellip; Fb, B, G, C, H, D, Z, E, A, F, B#, &hellip; ].
    Mavila9,
    /// Octave-reduced genchain treating four fifths (3/2) to be equal to one major third.
    ///
    /// The notes are generated via the genchain of fifths [ &hellip; Bb F C G D A E B F# &hellip; ].
    Meantone7,
    /// Similar to [`Genchain::Meantone7`] but with 5 natural notes instead of 7.
    ///
    /// The generated notes are [ &hellip; Eb C G D A E C# &hellip; ].
    Meantone5,
    /// Octave-reduced genchain treating three seconds to be equal to one major fourth (4/3).
    ///
    /// The generated notes are [ &hellip; Hb A B C D E F G H A# &hellip; ].
    Porcupine8,
    /// Similar to [`Genchain::Porcupine8`] but with 7 natural notes instead of 8 and with four
    /// seconds treated as being equal to one major fifth (3/2).
    ///
    /// The generated notes are [ &hellip; Gb A B C D E F G A# &hellip; ].
    Tetracot7,
    /// Octave-reduced genchain treating six minor thirds to be equal to one major twelfth (3/1).
    ///
    /// The sixth is used to generate the notes [ &hellip; Eb C A F D B G E C# &hellip; ].
    Hanson7,
}

/// The natural note symbols of a genchain, in genchain order.
pub open spec fn genchain_names(genchain: Genchain) -> Seq<char> {
    match genchain {
        Genchain::Mavila9 => seq!['B', 'G', 'C', 'H', 'D', 'Z', 'E', 'A', 'F'],
        Genchain::Meantone7 => seq!['F', 'C', 'G', 'D', 'A', 'E', 'B'],
        Genchain::Meantone5 => seq!['C', 'G', 'D', 'A', 'E'],
        Genchain::Porcupine8 => seq!['A', 'B', 'C', 'D', 'E', 'F', 'G', 'H'],
        Genchain::Tetracot7 => seq!['A', 'B', 'C', 'D', 'E', 'F', 'G'],
        Genchain::Hanson7 => seq!['C', 'A', 'F', 'D', 'B', 'G', 'E'],
    }
}

/// The position of the note D (or its counterpart) within the genchain.
pub open spec fn genchain_origin(genchain: Genchain) -> u16 {
    match genchain {
        Genchain::Mavila9 => 4,
        Genchain::Meantone5 => 2,
        _ => 3,
    }
}

/// The generator, in steps, that a genchain derives from the steps of the octave and the tritave
/// (3/1), or `None` when the val has no such generator.
pub open spec fn genchain_generator(genchain: Genchain, octave: int, tritave: int) -> Option<int> {
    match genchain {
        Genchain::Mavila9 | Genchain::Meantone7 | Genchain::Meantone5 => if tritave >= octave {
            Some(tritave - octave)
        } else {
            None
        },
        Genchain::Porcupine8 => if 2 * octave <= u16::MAX && 2 * octave >= tritave && (2 * octave
            - tritave) % 3 == 0 {
            Some((2 * octave - tritave) / 3)
        } else {
            None
        },
        Genchain::Tetracot7 => if tritave >= octave && (tritave - octave) % 4 == 0 {
            Some((tritave - octave) / 4)
        } else {
            None
        },
        Genchain::Hanson7 => if tritave % 6 == 0 && octave >= tritave / 6 {
            Some(octave - tritave / 6)
        } else {
            None
        },
    }
}

impl Genchain {
    /// The name under which the genchain is displayed, e.g. `Meantone[7]`.
    pub fn display_name(&self) -> (r: &'static str)
        ensures
            r@ == genchain_display_name(*self)@,
    {
        match self {
            Genchain::Mavila9 => "Mavila[9]",
            Genchain::Meantone7 => "Meantone[7]",
            Genchain::Meantone5 => "Meantone[5]",
            Genchain::Porcupine8 => "Porcupine[8]",
            Genchain::Tetracot7 => "Tetracot[7]",
            Genchain::Hanson7 => "Hanson[7]",
        }
    }

    fn names(self) -> (r: Vec<char>)
        ensures
            r@ == genchain_names(self),
    {
        match self {
            Genchain::Mavila9 => vec!['B', 'G', 'C', 'H', 'D', 'Z', 'E', 'A', 'F'],
            Genchain::Meantone7 => vec!['F', 'C', 'G', 'D', 'A', 'E', 'B'],
            Genchain::Meantone5 => vec!['C', 'G', 'D', 'A', 'E'],
            Genchain::Porcupine8 => vec!['A', 'B', 'C', 'D', 'E', 'F', 'G', 'H'],
            Genchain::Tetracot7 => vec!['A', 'B', 'C', 'D', 'E', 'F', 'G'],
            Genchain::Hanson7 => vec!['C', 'A', 'F', 'D', 'B', 'G', 'E'],
        }
    }

    fn origin(self) -> (r: u16)
        ensures
            r == genchain_origin(self),
    {
        match self {
            Genchain::Mavila9 => 4,
            Genchain::Meantone5 => 2,
            _ => 3,
        }
    }

    /// Derives the period and generator of the genchain from the octave and tritave steps.
    fn get_pergen(self, octave: u16, tritave: u16) -> (r: Option<PerGen>)
        requires
            octave > 0,
        ensures
            match r {
                Some(pergen) => {
                    &&& pergen.wf()
                    &&& pergen.period_value() == octave
                    &&& genchain_generator(self, octave as int, tritave as int) == Some(
                        pergen.generator_value() as int,
                    )
                },
                None => genchain_generator(self, octave as int, tritave as int) is None,
            },
    {
        match self {
            Genchain::Mavila9 | Genchain::Meantone7 | Genchain::Meantone5 => {
                let fifth = tritave.checked_sub(octave)?;
                Some(PerGen::new(octave, fifth))
            },
            Genchain::Porcupine8 => {
                let double_octave = octave.checked_mul(2)?;
                let fourths = double_octave.checked_sub(tritave)?;
                let third_fourth = exact_div(fourths, 3)?;
                Some(PerGen::new(octave, third_fourth))
            },
            Genchain::Tetracot7 => {
                let fifth = tritave.checked_sub(octave)?;
                let quarter_fifth = exact_div(fifth, 4)?;
                Some(PerGen::new(octave, quarter_fifth))
            },
            Genchain::Hanson7 => {
                let sixth_twelfth = exact_div(tritave, 6)?;
                let bright_generator = octave.checked_sub(sixth_twelfth)?;
                Some(PerGen::new(octave, bright_generator))
            },
        }
    }
}

/// The display name of a genchain.
pub open spec fn genchain_display_name(genchain: Genchain) -> &'static str {
    match genchain {
        Genchain::Mavila9 => "Mavila[9]",
        Genchain::Meantone7 => "Meantone[7]",
        Genchain::Meantone5 => "Meantone[5]",
        Genchain::Porcupine8 => "Porcupine[8]",
        Genchain::Tetracot7 => "Tetracot[7]",
        Genchain::Hanson7 => "Hanson[7]",
    }
}

/// `numer / denom` if `denom` divides `numer`.
fn exact_div(numer: u16, denom: u16) -> (r: Option<u16>)
    requires
        denom > 0,
    ensures
        r == (if numer % denom == 0 {
            Some((numer / denom) as u16)
        } else {
            None
        }),
{
    if numer % denom == 0 {
        Some(numer / denom)
    } else {
        None
    }
}


/// Find note names and step sizes for a given division of the octave using different genchains.
#[derive(Clone, Debug)]
pub struct IsomorphicLayout {
    genchain: Genchain,
    b_val: bool,
    pergen: PerGen,
    mos: Mos,
    acc_format: AccidentalsFormat,
    formatter: NoteFormatter,
}

/// The mathematical content of an [`IsomorphicLayout`]: everything else is determined by it.
pub struct LayoutView {
    pub genchain: Genchain,
    pub b_val: bool,
    pub period: nat,
    pub generator: nat,
    pub mos: MosView,
}

/// The genesis MOS of a period and a generator (see [`Mos::new_genesis`]).
pub open spec fn genesis_view(period: nat, generator: nat) -> MosView {
    MosView {
        num_primary_steps: 1,
        num_secondary_steps: 1,
        primary_step: generator % period,
        secondary_step: (period - generator % period) as nat,
        size: period,
    }
}

/// The first MOS of the sequence with exactly `num_steps` steps.
pub open spec fn first_with_num_steps(moses: Seq<MosView>, num_steps: nat) -> Option<MosView>
    decreases moses.len(),
{
    if moses.len() == 0 {
        None
    } else if moses[0].num_primary_steps + moses[0].num_secondary_steps == num_steps {
        Some(moses[0])
    } else {
        first_with_num_steps(moses.drop_first(), num_steps)
    }
}

/// The layout that a genchain derives from the val `values` (at least the steps of the octave
/// and the tritave): the generator of the genchain and the first of its MOSes with as many steps as
/// the genchain has natural notes.
pub open spec fn layout_for(genchain: Genchain, values: Seq<u16>, b_val: bool) -> Option<LayoutView> {
    let octave = values[0] as int;
    match genchain_generator(genchain, octave, values[1] as int) {
        Some(generator) => match first_with_num_steps(
            children_views(genesis_view(octave as nat, generator as nat)),
            genchain_names(genchain).len(),
        ) {
            Some(mos) => Some(
                LayoutView { genchain, b_val, period: octave as nat, generator: generator as nat, mos },
            ),
            None => None,
        },
        None => None,
    }
}

/// The generator of a layout is the interval that its genchain stacks, read from the val (the
/// steps of the octave and of the tritave 3/1): in Mavila and Meantone the fifth, a tritave minus
/// an octave; in Porcupine the third of a fourth, three of which make two octaves minus a tritave;
/// in Tetracot the quarter of a fifth; in Hanson the bright generator, an octave minus a minor
/// third, six of which make a tritave. The period is the octave.
pub proof fn lemma_layout_generator(genchain: Genchain, values: Seq<u16>, b_val: bool)
    requires
        values.len() >= 2,
    ensures
        layout_for(genchain, values, b_val) matches Some(layout) ==> {
            let octave = values[0] as int;
            let tritave = values[1] as int;
            let g = layout.generator as int;
            &&& layout.period == octave
            &&& layout.genchain == genchain
            &&& layout.b_val == b_val
            &&& match genchain {
                Genchain::Mavila9 | Genchain::Meantone7 | Genchain::Meantone5 => g + octave
                    == tritave,
                Genchain::Porcupine8 => 3 * g + tritave == 2 * octave,
                Genchain::Tetracot7 => 4 * g + octave == tritave,
                Genchain::Hanson7 => 6 * (octave - g) == tritave && 0 <= g <= octave,
            }
        },
{
    if genchain == Genchain::Hanson7 && (values[1] as int) % 6 == 0 {
        assert(6 * ((values[1] as int) / 6) == values[1] as int);
    }
    if genchain == Genchain::Porcupine8 {
        let x = 2 * (values[0] as int) - values[1] as int;
        if x >= 0 && x % 3 == 0 {
            assert(3 * (x / 3) == x);
        }
    }
    if genchain == Genchain::Tetracot7 {
        let x = values[1] as int - values[0] as int;
        if x >= 0 && x % 4 == 0 {
            assert(4 * (x / 4) == x);
        }
    }
}

/// Every layout picked for a list of genchains belongs to one of them and is the layout that its
/// genchain derives from the patent val or, where it is marked as such, from the alternative val;
/// its period is that val's octave and its generator the interval of
/// [`lemma_layout_generator`].
pub proof fn lemma_picked_layouts(genchains: Seq<Genchain>, patent_val: Seq<u16>, b_val: Option<Seq<u16>>)
    requires
        patent_val.len() >= 2,
        b_val matches Some(values) ==> values.len() >= 2,
    ensures
        forall|i: int|
            0 <= i < picked_layouts(genchains, patent_val, b_val).len() ==> {
                let layout = #[trigger] picked_layouts(genchains, patent_val, b_val)[i];
                let values = if layout.b_val {
                    b_val->0
                } else {
                    patent_val
                };
                &&& genchains.contains(layout.genchain)
                &&& layout.b_val ==> b_val is Some
                &&& layout_for(layout.genchain, values, layout.b_val) == Some(layout)
                &&& layout.period == values[0]
                &&& match layout.genchain {
                    Genchain::Mavila9 | Genchain::Meantone7 | Genchain::Meantone5 => layout.generator
                        + values[0] == values[1],
                    Genchain::Porcupine8 => 3 * layout.generator + values[1] == 2 * values[0],
                    Genchain::Tetracot7 => 4 * layout.generator + values[0] == values[1],
                    Genchain::Hanson7 => 6 * (values[0] - layout.generator) == values[1]
                        && layout.generator <= values[0],
                }
            },
    decreases genchains.len(),
{
    if genchains.len() > 0 {
        let rest = genchains.drop_last();
        let last = genchains.last();
        lemma_picked_layouts(rest, patent_val, b_val);
        let before = picked_layouts(rest, patent_val, b_val);
        let all = picked_layouts(genchains, patent_val, b_val);
        lemma_layout_generator(last, patent_val, false);
        if let Some(values) = b_val {
            lemma_layout_generator(last, values, true);
        }
        assert forall|i: int| 0 <= i < all.len() implies {
            let layout = #[trigger] all[i];
            let values = if layout.b_val {
                b_val->0
            } else {
                patent_val
            };
            &&& genchains.contains(layout.genchain)
            &&& layout.b_val ==> b_val is Some
            &&& layout_for(layout.genchain, values, layout.b_val) == Some(layout)
            &&& layout.period == values[0]
            &&& match layout.genchain {
                Genchain::Mavila9 | Genchain::Meantone7 | Genchain::Meantone5 => layout.generator
                    + values[0] == values[1],
                Genchain::Porcupine8 => 3 * layout.generator + values[1] == 2 * values[0],
                Genchain::Tetracot7 => 4 * layout.generator + values[0] == values[1],
                Genchain::Hanson7 => 6 * (values[0] - layout.generator) == values[1]
                    && layout.generator <= values[0],
            }
        } by {
            if i < before.len() {
                assert(all[i] == before[i]);
                let g = all[i].genchain;
                assert(rest.contains(g));
                let k = choose|k: int| 0 <= k < rest.len() && rest[k] == g;
                assert(genchains[k] == g);
            } else {
                assert(genchains[genchains.len() - 1] == last);
            }
        }
    }
}

/// The naturals of a genchain are D at its origin and, from one to the next, a generator apart:
/// four letters on (a fifth) in Meantone, the next letter (a second, of eight letters A to H in
/// Porcupine[8]) in Porcupine and Tetracot, five letters on (a third down) in Hanson. Mavila[9]
/// spells with nine letters of its own, of which D sits at its origin.
pub proof fn lemma_genchain_names(genchain: Genchain)
    ensures
        genchain_origin(genchain) < genchain_names(genchain).len(),
        genchain_names(genchain)[genchain_origin(genchain) as int] == 'D',
        genchain != Genchain::Mavila9 ==> forall|i: int|
            0 <= i < genchain_names(genchain).len() - 1 ==> genchain_names(genchain)[i + 1]
                == letter_after(
                #[trigger] genchain_names(genchain)[i],
                match genchain {
                    Genchain::Meantone7 | Genchain::Meantone5 => 4,
                    Genchain::Hanson7 => 5,
                    _ => 1,
                },
                if genchain == Genchain::Porcupine8 {
                    8
                } else {
                    7
                },
            ),
{
    let names = genchain_names(genchain);
    if genchain != Genchain::Mavila9 {
        assert forall|i: int| 0 <= i < names.len() - 1 implies names[i + 1] == letter_after(
            #[trigger] names[i],
            match genchain {
                Genchain::Meantone7 | Genchain::Meantone5 => 4,
                Genchain::Hanson7 => 5,
                _ => 1,
            },
            if genchain == Genchain::Porcupine8 {
                8
            } else {
                7
            },
        ) by {
            if i == 0 {
            } else if i == 1 {
            } else if i == 2 {
            } else if i == 3 {
            } else if i == 4 {
            } else if i == 5 {
            } else {
            }
        }
    }
}

/// The layout from the patent val or, failing that, from the alternative val.
pub open spec fn pick_layout(genchain: Genchain, patent_val: Seq<u16>, b_val: Option<Seq<u16>>) -> Option<
    LayoutView,
> {
    match layout_for(genchain, patent_val, false) {
        Some(layout) => Some(layout),
        None => match b_val {
            Some(values) => layout_for(genchain, values, true),
            None => None,
        },
    }
}

/// The genchains in the order in which layouts are offered: from highest to lowest sharpness
/// within a group.
pub open spec fn genchain_order() -> Seq<Genchain> {
    seq![
        Genchain::Mavila9,
        Genchain::Meantone7,
        Genchain::Meantone5,
        Genchain::Porcupine8,
        Genchain::Tetracot7,
        Genchain::Hanson7,
    ]
}

/// The layouts picked for the given genchains, in order, skipping genchains without a layout.
pub open spec fn picked_layouts(
    genchains: Seq<Genchain>,
    patent_val: Seq<u16>,
    b_val: Option<Seq<u16>>,
) -> Seq<LayoutView>
    decreases genchains.len(),
{
    if genchains.len() == 0 {
        Seq::empty()
    } else {
        picked_layouts(genchains.drop_last(), patent_val, b_val) + match pick_layout(
            genchains.last(),
            patent_val,
            b_val,
        ) {
            Some(layout) => seq![layout],
            None => Seq::empty(),
        }
    }
}

impl View for IsomorphicLayout {
    type V = LayoutView;

    closed spec fn view(&self) -> LayoutView {
        LayoutView {
            genchain: self.genchain,
            b_val: self.b_val,
            period: self.pergen.period_value() as nat,
            generator: self.pergen.generator_value() as nat,
            mos: self.mos@,
        }
    }
}

impl IsomorphicLayout {
    /// The period and generator of the layout.
    pub closed spec fn pergen_value(self) -> PerGen {
        self.pergen
    }

    /// How the genchain is spelled.
    pub closed spec fn acc_format_value(self) -> AccidentalsFormat {
        self.acc_format
    }

    /// How note names are rendered.
    pub closed spec fn formatter_value(self) -> NoteFormatter {
        self.formatter
    }

    /// The internal consistency of a layout: the MOS belongs to the period and generator and has one
    /// step per natural note; names, origin and signs are those of the genchain and the MOS.
    pub open spec fn wf(self) -> bool {
        let v = self@;
        let names = genchain_names(v.genchain);
        &&& self.pergen_value().wf()
        &&& v.mos.consistent()
        &&& v.mos.in_range()
        &&& v.mos.size == v.period
        &&& math::gcd_u16_spec(v.mos.primary_step, v.mos.secondary_step)
            == self.pergen_value().num_cycles_value()
        &&& v.mos.num_primary_steps + v.mos.num_secondary_steps == names.len()
        &&& self.acc_format_value().num_symbols == names.len()
        &&& self.acc_format_value().genchain_origin == genchain_origin(v.genchain)
        &&& self.formatter_value().note_names@ == names
        &&& self.formatter_value().cycle_sign == '*'
        &&& if v.mos.primary_step >= v.mos.secondary_step {
            &&& self.formatter_value().sharp_sign == '#'
            &&& self.formatter_value().flat_sign == 'b'
            &&& self.formatter_value().order == AccidentalsOrder::SharpFlat
        } else {
            &&& self.formatter_value().sharp_sign == '-'
            &&& self.formatter_value().flat_sign == '+'
            &&& self.formatter_value().order == AccidentalsOrder::FlatSharp
        }
    }
}


/// Finds the first MOS with `num_steps` steps.
fn find_mos(moses: &Vec<Mos>, num_steps: usize) -> (r: Option<Mos>)
    ensures
        match r {
            Some(mos) => first_with_num_steps(moses@.map_values(|m: Mos| m@), num_steps as nat)
                == Some(mos@),
            None => first_with_num_steps(moses@.map_values(|m: Mos| m@), num_steps as nat) is None,
        },
{
    let ghost views = moses@.map_values(|m: Mos| m@);
    let mut i: usize = 0;
    proof {
        assert(views.subrange(0, views.len() as int) =~= views);
    }
    while i < moses.len()
        invariant
            i <= moses@.len(),
            views == moses@.map_values(|m: Mos| m@),
            first_with_num_steps(views, num_steps as nat) == first_with_num_steps(
                views.subrange(i as int, views.len() as int),
                num_steps as nat,
            ),
        decreases moses@.len() - i,
    {
        let mos = moses[i];
        let ghost rest = views.subrange(i as int, views.len() as int);
        assert(rest[0] == mos@);
        if mos.num_primary_steps() as usize + mos.num_secondary_steps() as usize == num_steps {
            return Some(mos);
        }
        assert(rest.drop_first() =~= views.subrange(i + 1, views.len() as int));
        i = i + 1;
    }
    assert(views.subrange(i as int, views.len() as int) =~= Seq::<MosView>::empty());
    None
}

impl Genchain {
    /// Builds the layout of this genchain for the val `values` (octave and tritave steps first).
    fn create_layout(self, values: &[u16], b_val: bool) -> (r: Option<IsomorphicLayout>)
        requires
            values@.len() >= 2,
            values@[0] > 0,
        ensures
            match r {
                Some(layout) => {
                    &&& layout.wf()
                    &&& layout_for(self, values@, b_val) == Some(layout@)
                },
                None => layout_for(self, values@, b_val) is None,
            },
    {
        let octave = values[0];
        let tritave = values[1];
        let pergen = match self.get_pergen(octave, tritave) {
            Some(pergen) => pergen,
            None => return None,
        };
        let moses = pergen.get_moses();
        let names = self.names();
        let ghost genesis = genesis_view(octave as nat, pergen.generator_value() as nat);
        let ghost views = moses@.map_values(|m: Mos| m@);
        assert(moses@[0]@ == genesis);
        assert(views == children_views(genesis));
        let mos = match find_mos(&moses, names.len()) {
            Some(mos) => mos,
            None => return None,
        };
        proof {
            lemma_first_with_num_steps_member(views, names@.len());
            let k = choose|k: int|
                0 <= k < views.len() && views[k] == mos@ && mos@.num_primary_steps
                    + mos@.num_secondary_steps == names@.len();
            assert(views[k] == moses@[k]@);
        }
        Some(self.assemble(pergen, mos, b_val))
    }

    /// Puts a layout together from the period, generator and MOS of this genchain.
    fn assemble(self, pergen: PerGen, mos: Mos, b_val: bool) -> (r: IsomorphicLayout)
        requires
            pergen.wf(),
            mos@.consistent(),
            mos@.in_range(),
            mos@.size == pergen.period_value(),
            math::gcd_u16_spec(mos@.primary_step, mos@.secondary_step) == pergen.num_cycles_value(),
            mos@.num_primary_steps + mos@.num_secondary_steps == genchain_names(self).len(),
        ensures
            r.wf(),
            r@ == (LayoutView {
                genchain: self,
                b_val,
                period: pergen.period_value() as nat,
                generator: pergen.generator_value() as nat,
                mos: mos@,
            }),
    {
        let names = self.names();
        let (sharp_sign, flat_sign, order) = if mos.primary_step() >= mos.secondary_step() {
            ('#', 'b', AccidentalsOrder::SharpFlat)
        } else {
            ('-', '+', AccidentalsOrder::FlatSharp)
        };
        let num_symbols = names.len() as u16;
        IsomorphicLayout {
            genchain: self,
            b_val,
            pergen,
            mos,
            acc_format: AccidentalsFormat { num_symbols, genchain_origin: self.origin() },
            formatter: NoteFormatter { note_names: names, sharp_sign, flat_sign, cycle_sign: '*', order },
        }
    }
}

/// A MOS found by [`first_with_num_steps`] is a member of the sequence with that many steps.
proof fn lemma_first_with_num_steps_member(moses: Seq<MosView>, num_steps: nat)
    ensures
        match first_with_num_steps(moses, num_steps) {
            Some(mos) => exists|k: int|
                0 <= k < moses.len() && moses[k] == mos && mos.num_primary_steps
                    + mos.num_secondary_steps == num_steps,
            None => true,
        },
    decreases moses.len(),
{
    if moses.len() > 0 && moses[0].num_primary_steps + moses[0].num_secondary_steps != num_steps {
        lemma_first_with_num_steps_member(moses.drop_first(), num_steps);
        match first_with_num_steps(moses, num_steps) {
            Some(mos) => {
                let k = choose|k: int|
                    0 <= k < moses.drop_first().len() && moses.drop_first()[k] == mos
                        && mos.num_primary_steps + mos.num_secondary_steps == num_steps;
                assert(moses[k + 1] == mos);
            },
            None => {},
        }
    }
}


/// The values of an optional val.
pub open spec fn optional_values(val: Option<&[u16]>) -> Option<Seq<u16>> {
    match val {
        Some(values) => Some(values@),
        None => None,
    }
}

impl IsomorphicLayout {
    /// Finds the layouts of all genchains for the given patent val, falling back to the alternative
    /// val `b_val` for genchains that the patent val supports no layout for.
    ///
    /// The vals list the steps of the primes 2, 3, ...; at least the first two are needed.
    pub fn find_by_vals(patent_val: &[u16], b_val: Option<&[u16]>) -> (r: Vec<IsomorphicLayout>)
        requires
            patent_val@.len() >= 2,
            patent_val@[0] > 0,
            b_val matches Some(values) ==> values@.len() >= 2 && values@[0] > 0,
        ensures
            r@.map_values(|layout: IsomorphicLayout| layout@) == picked_layouts(
                genchain_order(),
                patent_val@,
                optional_values(b_val),
            ),
            forall|i: int| 0 <= i < r@.len() ==> (#[trigger] r@[i]).wf(),
    {
        let genchains = vec![
            Genchain::Mavila9,
            Genchain::Meantone7,
            Genchain::Meantone5,
            Genchain::Porcupine8,
            Genchain::Tetracot7,
            Genchain::Hanson7,
        ];
        let ghost b_values = optional_values(b_val);
        let mut layouts: Vec<IsomorphicLayout> = Vec::new();
        let mut i: usize = 0;
        assert(genchains@.take(0) =~= Seq::<Genchain>::empty());
        while i < genchains.len()
            invariant
                i <= genchains@.len(),
                genchains@ == genchain_order(),
                patent_val@.len() >= 2,
                patent_val@[0] > 0,
                b_val matches Some(values) ==> values@.len() >= 2 && values@[0] > 0,
                b_values == optional_values(b_val),
                layouts@.map_values(|layout: IsomorphicLayout| layout@) == picked_layouts(
                    genchains@.take(i as int),
                    patent_val@,
                    b_values,
                ),
                forall|j: int| 0 <= j < layouts@.len() ==> (#[trigger] layouts@[j]).wf(),
            decreases genchains@.len() - i,
        {
            let genchain = genchains[i];
            let picked = match genchain.create_layout(patent_val, false) {
                Some(layout) => Some(layout),
                None => match b_val {
                    Some(values) => genchain.create_layout(values, true),
                    None => None,
                },
            };
            let ghost before = layouts@;
            assert(genchains@.take(i + 1).drop_last() =~= genchains@.take(i as int));
            assert(genchains@.take(i + 1).last() == genchain);
            match picked {
                Some(layout) => {
                    layouts.push(layout);
                    assert(layouts@.map_values(|layout: IsomorphicLayout| layout@) =~= before.map_values(
                        |layout: IsomorphicLayout| layout@,
                    ) + seq![layouts@.last()@]);
                },
                None => {
                    assert(layouts@.map_values(|layout: IsomorphicLayout| layout@) =~= before.map_values(
                        |layout: IsomorphicLayout| layout@,
                    ) + Seq::<LayoutView>::empty());
                },
            }
            i = i + 1;
        }
        assert(genchains@.take(6) =~= genchains@);
        layouts
    }

    pub fn genchain(&self) -> (r: Genchain)
        ensures
            r == self@.genchain,
    {
        self.genchain
    }

    pub fn b_val(&self) -> (r: bool)
        ensures
            r == self@.b_val,
    {
        self.b_val
    }

    /// The wart of the val the layout was found for: `"b"` for the alternative val.
    pub fn wart(&self) -> (r: &'static str)
        ensures
            r@ == (if self@.b_val {
                "b"@
            } else {
                ""@
            }),
    {
        if self.b_val {
            "b"
        } else {
            ""
        }
    }

    pub fn pergen(&self) -> (r: &PerGen)
        ensures
            *r == self.pergen_value(),
    {
        &self.pergen
    }

    pub fn mos(&self) -> (r: Mos)
        ensures
            r@ == self@.mos,
    {
        self.mos
    }

    /// The name of the scale formed by the natural notes of the layout.
    pub fn get_scale_name(&self) -> (r: &'static str)
        ensures
            r@ == scale_name(self@.genchain, self@.mos.primary_step - self@.mos.secondary_step)@,
    {
        let sharpness = self.mos.sharpness();
        if sharpness == 0 {
            return "equalized";
        }
        let positive = sharpness > 0;
        match self.genchain {
            Genchain::Mavila9 => if positive {
                "armotonic"
            } else {
                "balzano"
            },
            Genchain::Meantone7 => if positive {
                "diatonic"
            } else {
                "antidiatonic"
            },
            Genchain::Meantone5 => if positive {
                "antipentic"
            } else {
                "pentic"
            },
            Genchain::Porcupine8 => if positive {
                "pine"
            } else {
                "antipine"
            },
            Genchain::Tetracot7 => if positive {
                "archeotonic"
            } else {
                "onyx"
            },
            Genchain::Hanson7 => if positive {
                "smitonic"
            } else {
                "mosh"
            },
        }
    }
}

/// The scale name of a genchain's natural notes for a given sharpness.
pub open spec fn scale_name(genchain: Genchain, sharpness: int) -> &'static str {
    if sharpness == 0 {
        "equalized"
    } else {
        let positive = sharpness > 0;
        match genchain {
            Genchain::Mavila9 => if positive {
                "armotonic"
            } else {
                "balzano"
            },
            Genchain::Meantone7 => if positive {
                "diatonic"
            } else {
                "antidiatonic"
            },
            Genchain::Meantone5 => if positive {
                "antipentic"
            } else {
                "pentic"
            },
            Genchain::Porcupine8 => if positive {
                "pine"
            } else {
                "antipine"
            },
            Genchain::Tetracot7 => if positive {
                "archeotonic"
            } else {
                "onyx"
            },
            Genchain::Hanson7 => if positive {
                "smitonic"
            } else {
                "mosh"
            },
        }
    }
}


/// The color layer of a genchain position that lies on layer number `layer` of `num_layers`.
pub open spec fn layer_of(layer: int, num_layers: int) -> Layer {
    if layer == 0 {
        Layer::Natural
    } else if layer < (num_layers + 1) / 2 {
        Layer::Sharp((layer - 1) as u16)
    } else if layer == (num_layers + 1) / 2 && num_layers % 2 == 0 {
        Layer::Enharmonic((layer - 1) as u16)
    } else {
        Layer::Flat((num_layers - layer - 1) as u16)
    }
}

impl IsomorphicLayout {
    /// The spelling of the key at `index`.
    pub open spec fn accidentals_of(self, index: u16) -> Accidentals {
        let pergen = self.pergen_value();
        let spelling = genchain_spelling(
            genchain_names(self@.genchain).len() as int,
            genchain_origin(self@.genchain) as int,
            pergen.reduced_period_value(),
            pergen.degree_of(index),
        );
        Accidentals {
            cycle: if pergen.num_cycles_value() > 1 {
                Some((index % pergen.num_cycles_value()) as u16)
            } else {
                None
            },
            sharp_index: spelling.0 as u16,
            sharp_count: spelling.1 as u16,
            flat_index: spelling.2 as u16,
            flat_count: spelling.3 as u16,
        }
    }

    /// The key at index 0 is named D, and the key one generator above it by the next natural of
    /// the genchain (B in Hanson[7], A in Meantone[7], E in Porcupine[8]), wherever the genchain
    /// spans all naturals.
    #[verifier::spinoff_prover]
    #[verifier::rlimit(30)]
    pub proof fn lemma_names_around_d(self)
        requires
            self.wf(),
            self.pergen_value().reduced_period_value() >= genchain_names(self@.genchain).len(),
        ensures
            self.formatter_value().formatted(self.accidentals_of(0)) == seq!['D'],
            self.formatter_value().formatted(self.accidentals_of(self.pergen_value().generator_value()))
                == seq![genchain_names(self@.genchain)[genchain_origin(self@.genchain) + 1]],
    {
        let pergen = self.pergen_value();
        let names = genchain_names(self@.genchain);
        let origin = genchain_origin(self@.genchain) as int;
        let n = names.len() as int;
        lemma_genchain_names(self@.genchain);
        pergen.lemma_generator_is_one_degree();
        let reduced = pergen.reduced_period_value();
        lemma_small_mod(origin as nat, reduced as nat);
        lemma_small_mod((origin + 1) as nat, reduced as nat);
        lemma_small_mod((n - 1 - origin) as nat, reduced as nat);
        lemma_small_mod((n - 2 - origin) as nat, reduced as nat);
        lemma_small_mod(origin as nat, n as nat);
        lemma_small_mod((origin + 1) as nat, n as nat);
        lemma_small_mod((n - 1 - origin) as nat, n as nat);
        lemma_small_mod((n - 2 - origin) as nat, n as nat);
        assert(Seq::new(0, |_i: int| '*') =~= Seq::<char>::empty());
        assert(Seq::new(0, |_i: int| '\0') =~= Seq::<char>::empty());
        lemma_small_mod(0, pergen.num_cycles_value() as nat);
        lemma_basic_div(origin, n);
        lemma_basic_div(n - 1 - origin, n);
        assert(pergen.degree_of(0) == 0);
        assert(self.formatter_value().formatted(self.accidentals_of(0)) =~= seq![names[origin]]);
        let g = pergen.generator_value();
        assert(pergen.degree_of(g) == 1);
        lemma_basic_div(origin + 1, n);
        lemma_basic_div(n - 2 - origin, n);
        let a = self.accidentals_of(g);
        assert(a.sharp_index == origin + 1 && a.sharp_count == 0);
        assert(a.flat_index == origin + 1 && a.flat_count == 0);
        assert(self.formatter_value().cycle_text(a.cycle) =~= Seq::<char>::empty());
        assert(self.formatter_value().formatted(a) =~= seq![names[origin + 1]]);
    }

    /// Whether the key at `index` can be spelled within the numeric bounds.
    pub open spec fn note_fits(self, index: u16) -> bool {
        self.pergen_value().accidentals_fit(self.acc_format_value(), index)
    }

    /// Tells whether the key at `index` can be spelled within the numeric bounds.
    pub fn note_fits_at(&self, index: u16) -> (r: bool)
        requires
            self.wf(),
        ensures
            r == self.note_fits(index),
    {
        self.pergen.accidentals_fit_at(&self.acc_format, index)
    }

    /// Spells the key at `index` of the current layout.
    pub fn get_accidentals(&self, index: u16) -> (r: Accidentals)
        requires
            self.wf(),
            self.note_fits(index),
        ensures
            r == self.accidentals_of(index),
    {
        self.pergen.get_accidentals(&self.acc_format, index)
    }

    /// Obtains the note name for the given degree of the current layout.
    pub fn get_note_name(&self, index: u16) -> (r: String)
        requires
            self.wf(),
            self.note_fits(index),
        ensures
            r@ == self.formatter_value().formatted(self.accidentals_of(index)),
    {
        self.formatter.format(&self.get_accidentals(index))
    }

    /// The color layer of the key at `index`: the MOS layer of its genchain position (counted from
    /// the origin of the genchain), split by cycle.
    pub open spec fn layer_at(self, index: u16) -> Layer {
        let pergen = self.pergen_value();
        let sizes = self@.mos.layer_sizes();
        let expanded = expand_layers(sizes);
        let num_cycles = pergen.num_cycles_value() as int;
        let position = (pergen.degree_of(index) + genchain_origin(self@.genchain)) % (
        expanded.len() as int);
        let cycle = if num_cycles > 1 {
            (index as int) % num_cycles
        } else {
            0
        };
        layer_of(expanded[position] * num_cycles + cycle, count_nonzero(sizes) * num_cycles)
    }

    /// Whether the color layers can be computed within the numeric bounds.
    pub open spec fn layers_fit(self) -> bool {
        &&& count_nonzero(self@.mos.layer_sizes()) * self.pergen_value().num_cycles_value() < u16::MAX
        &&& forall|index: u16|
            index < self@.period ==> #[trigger] self.pergen_value().generation_fits(index)
    }

    /// Generates an automatic color schema for the given layout, in stepwise order.
    ///
    /// The MOS layers (see [`Mos::get_layers`]) are taken in stepwise instead of genchain order,
    /// starting at the origin of the genchain, and each layer is split into one layer per cycle.
    pub fn get_layers(&self) -> (r: Vec<Layer>)
        requires
            self.wf(),
            self.layers_fit(),
        ensures
            r@.len() == self@.period,
            forall|index: int| 0 <= index < r@.len() ==> r@[index] == self.layer_at(index as u16),
    {
        let ghost sizes = self.mos@.layer_sizes();
        let ghost expanded = expand_layers(sizes);
        let ghost num_cycles_spec = self.pergen.num_cycles_value();
        proof {
            self.pergen.lemma_wf();
            lemma_nonzero_le_product(count_nonzero(sizes), num_cycles_spec as nat);
        }
        let layers = self.mos.get_layers();
        proof {
            lemma_layers_len(self.mos@, num_cycles_spec as nat);
            lemma_expand_layers_last(sizes);
            assert(layers@.map_values(|x: u16| x as nat)[layers@.len() - 1] == layers@[layers@.len()
                - 1]);
        }
        let len = layers.len();
        let num_cycles = self.pergen.num_cycles();
        let last = layers[len - 1];
        proof {
            lemma_mul_is_commutative(count_nonzero(sizes) as int, num_cycles as int);
        }
        let num_layers: u16 = (last + 1) * num_cycles;
        let has_enharmonic_layer = num_layers % 2 == 0;
        let offset = self.acc_format.genchain_origin as usize % len;
        let period = self.pergen.period();
        let mut result: Vec<Layer> = Vec::new();
        let mut index: u16 = 0;
        while index < period
            invariant
                index <= period,
                period == self@.period,
                self.wf(),
                self.layers_fit(),
                sizes == self@.mos.layer_sizes(),
                expanded == expand_layers(sizes),
                layers@.map_values(|x: u16| x as nat) == expanded,
                len == layers@.len(),
                len == self.pergen_value().reduced_period_value(),
                num_cycles == self.pergen_value().num_cycles_value(),
                num_cycles >= 1,
                num_layers == count_nonzero(sizes) * num_cycles,
                has_enharmonic_layer == (num_layers % 2 == 0),
                offset == genchain_origin(self@.genchain) as int % len as int,
                result@.len() == index,
                forall|i: int| 0 <= i < index ==> result@[i] == self.layer_at(i as u16),
            decreases period - index,
        {
            assert(self.pergen_value().generation_fits(index));
            let generation = self.pergen.get_generation(index);
            let position = (generation.degree as usize + offset) % len;
            proof {
                lemma_add_mod_noop(
                    generation.degree as int,
                    genchain_origin(self@.genchain) as int,
                    len as int,
                );
                lemma_small_mod(generation.degree as nat, len as nat);
                crate::pergen::lemma_expand_layers_bound(sizes, position as int);
                assert(layers@.map_values(|x: u16| x as nat)[position as int] == layers@[position as int]);
            }
            let cycle = match generation.cycle {
                Some(c) => c,
                None => 0,
            };
            proof {
                if num_cycles > 1 {
                    lemma_mod_bound(index as int, num_cycles as int);
                }
                lemma_layer_bound(layers@[position as int] as int, count_nonzero(sizes) as int, num_cycles as int, cycle as int);
            }
            let layer = layers[position] * num_cycles + cycle;
            let value = if layer == 0 {
                Layer::Natural
            } else if layer < (num_layers + 1) / 2 {
                Layer::Sharp(layer - 1)
            } else if layer == (num_layers + 1) / 2 && has_enharmonic_layer {
                Layer::Enharmonic(layer - 1)
            } else {
                Layer::Flat(num_layers - layer - 1)
            };
            result.push(value);
            index = index + 1;
        }
        result
    }
}

/// `c <= c * n` for a positive `n`.
proof fn lemma_nonzero_le_product(c: nat, n: nat)
    requires
        n >= 1,
    ensures
        c <= c * n,
{
    lemma_mul_inequality(1, n as int, c as int);
    lemma_mul_is_commutative(c as int, n as int);
}

/// A layer number below `count`, scaled by the number of cycles and shifted by a cycle, stays below
/// `count * num_cycles`.
proof fn lemma_layer_bound(value: int, count: int, num_cycles: int, cycle: int)
    requires
        0 <= value < count,
        0 <= cycle < num_cycles,
    ensures
        0 <= value * num_cycles + cycle < count * num_cycles,
{
    lemma_mul_inequality(value + 1, count, num_cycles);
    lemma_mul_is_distributive_add_other_way(num_cycles, value, 1);
    lemma_mul_nonnegative(value, num_cycles);
}

/// The layers of a MOS whose total size is its period cover the reduced period.
proof fn lemma_layers_len(v: MosView, num_cycles: nat)
    requires
        v.consistent(),
        v.size > 0,
        num_cycles == math::gcd_u16_spec(v.primary_step, v.secondary_step),
    ensures
        expand_layers(v.layer_sizes()).len() == v.size / num_cycles,
        v.size / num_cycles > 0,
{
    assert(v.primary_step > 0 || v.secondary_step > 0) by {
        if v.primary_step == 0 && v.secondary_step == 0 {
            assert(v.num_primary_steps * v.primary_step == 0) by (nonlinear_arith)
                requires
                    v.primary_step == 0,
            ;
            assert(v.num_secondary_steps * v.secondary_step == 0) by (nonlinear_arith)
                requires
                    v.secondary_step == 0,
            ;
        }
    }
    crate::pergen::lemma_layer_sizes_sum(v);
    crate::pergen::lemma_expand_layers_len(v.layer_sizes());
    math::lemma_gcd_zero(v.primary_step, v.secondary_step);
    math::lemma_gcd_divides(v.primary_step, v.secondary_step);
    let n = num_cycles as int;
    let a = v.primary_step as int / n;
    let b = v.secondary_step as int / n;
    lemma_fundamental_div_mod(v.primary_step as int, n);
    lemma_fundamental_div_mod(v.secondary_step as int, n);
    assert(v.size == n * (a * v.num_primary_steps + b * v.num_secondary_steps)) by (nonlinear_arith)
        requires
            v.size == v.num_primary_steps * v.primary_step + v.num_secondary_steps * v.secondary_step,
            v.primary_step == n * a,
            v.secondary_step == n * b,
    ;
    lemma_div_multiples_vanish(a * v.num_primary_steps + b * v.num_secondary_steps, n);
    assert(a * v.num_primary_steps == v.num_primary_steps * a) by (nonlinear_arith);
    assert(b * v.num_secondary_steps == v.num_secondary_steps * b) by (nonlinear_arith);
    assert(v.size / num_cycles == a * v.num_primary_steps + b * v.num_secondary_steps);
    assert(v.size / num_cycles > 0) by {
        if v.size / num_cycles == 0 {
            assert(v.size == n * 0);
        }
    }
}

/// The last expanded layer number is the number of non-empty layers minus one.
proof fn lemma_expand_layers_last(sizes: Seq<nat>)
    ensures
        expand_layers(sizes).len() > 0 ==> expand_layers(sizes).last() + 1 == count_nonzero(sizes),
    decreases sizes.len(),
{
    if sizes.len() > 0 {
        let previous = sizes.drop_last();
        lemma_expand_layers_last(previous);
        if sizes.last() == 0 {
            assert(expand_layers(sizes) =~= expand_layers(previous));
        }
    }
}

} // verus!
