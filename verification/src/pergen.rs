//! Find generalized notes and names for rank-2 temperaments.
use vstd::prelude::*;
use vstd::arithmetic::div_mod::*;
use vstd::arithmetic::mul::*;
use crate::math::{self, gcd};
use crate::text::{push_char, push_repeated};

verus! {

/// A period divided into equally sized steps, together with the generator that builds up the
/// genchain.
#[derive(Clone, Debug)]
pub struct PerGen {
    period: u16,
    generator: u16,
    num_cycles: u16,
    generator_inverse: u16,
}

/// The location of a key within the genchain: the cycle (only when there are several) and the degree.
#[derive(Copy, Clone, Debug)]
pub struct Generation {
    pub cycle: Option<u16>,
    pub degree: u16,
}

/// `inv` is the multiplicative inverse of the reduced generator modulo the reduced period.
pub open spec fn is_generator_inverse(period: nat, generator: nat, inv: nat) -> bool {
    let g = gcd(period, generator);
    &&& inv < period / g
    &&& ((generator / g) * inv) % (period / g) == 1nat % (period / g)
}

impl PerGen {
    /// The internal consistency of a [`PerGen`].
    pub closed spec fn wf(self) -> bool {
        &&& self.period > 0
        &&& self.num_cycles == gcd(self.period as nat, self.generator as nat)
        &&& is_generator_inverse(self.period as nat, self.generator as nat, self.generator_inverse as nat)
    }

    /// The period measured in steps.
    pub closed spec fn period_value(self) -> u16 {
        self.period
    }

    /// The generator measured in steps.
    pub closed spec fn generator_value(self) -> u16 {
        self.generator
    }

    /// The number of independent genchains, i.e. `gcd(period, generator)`.
    pub closed spec fn num_cycles_value(self) -> u16 {
        self.num_cycles
    }

    /// The inverse of the reduced generator modulo the reduced period.
    pub closed spec fn generator_inverse_value(self) -> u16 {
        self.generator_inverse
    }

    /// The period divided by the number of cycles.
    pub open spec fn reduced_period_value(self) -> int {
        self.period_value() as int / self.num_cycles_value() as int
    }

    /// Whether the generation of the given key index can be computed with 32-bit arithmetic.
    pub open spec fn generation_fits(self, index: u16) -> bool {
        self.generator_inverse_value() * (index / self.num_cycles_value()) <= i32::MAX
    }

    /// The genchain degree of the key at the given index.
    pub open spec fn degree_of(self, index: u16) -> int {
        (self.generator_inverse_value() * (index / self.num_cycles_value())) % self.reduced_period_value()
    }

    pub proof fn lemma_wf(self)
        requires
            self.wf(),
        ensures
            self.period_value() > 0,
            self.num_cycles_value() > 0,
            self.num_cycles_value() == gcd(self.period_value() as nat, self.generator_value() as nat),
            is_generator_inverse(
                self.period_value() as nat,
                self.generator_value() as nat,
                self.generator_inverse_value() as nat,
            ),
            1 <= self.reduced_period_value() <= self.period_value(),
            self.period_value() % self.num_cycles_value() == 0,
            self.generator_value() % self.num_cycles_value() == 0,
    {
        math::lemma_gcd_zero(self.period as nat, self.generator as nat);
        math::lemma_gcd_divides(self.period as nat, self.generator as nat);
        lemma_quotient_bounds(self.period as int, self.num_cycles as int);
    }

    /// Along the genchain, the origin key (index 0) sits at degree 0 and the key one generator
    /// above it at degree 1, on the origin's cycle.
    pub proof fn lemma_generator_is_one_degree(self)
        requires
            self.wf(),
            self.reduced_period_value() >= 2,
        ensures
            self.degree_of(0) == 0,
            self.degree_of(self.generator_value()) == 1,
            self.generator_value() % self.num_cycles_value() == 0,
    {
        self.lemma_wf();
        let c = self.num_cycles_value() as int;
        let p = self.period_value() as int;
        let g = self.generator_value() as int;
        let inv = self.generator_inverse_value() as int;
        assert(self.reduced_period_value() == p / c);
        assert((g as nat / c as nat) as int == g / c);
        assert((p as nat / c as nat) as int == p / c);
        lemma_mul_is_commutative(inv, g / c);
        lemma_small_mod(1, (p / c) as nat);
        assert(inv * (0int / c) == 0) by (nonlinear_arith)
            requires
                c > 0,
        ;
    }

    /// Creates a [`PerGen`] from a period and a generator, both measured in steps.
    pub fn new(period: u16, generator: u16) -> (r: Self)
        requires
            period > 0,
        ensures
            r.wf(),
            r.period_value() == period,
            r.generator_value() == generator,
    {
        let (num_cycles, bezout_s, bezout_t) = extended_gcd(period as i32, generator as i32);
        proof {
            math::lemma_gcd_zero(period as nat, generator as nat);
            math::lemma_gcd_divides(period as nat, generator as nat);
            lemma_quotient_bounds(period as int, num_cycles as int);
        }
        let num_cycles = num_cycles as u16;
        let reduced_period = period / num_cycles;
        let generator_inverse = math::i32_rem_u(bezout_t, reduced_period);
        proof {
            lemma_bezout_gives_inverse(
                period as int,
                generator as int,
                num_cycles as int,
                bezout_s as int,
                bezout_t as int,
            );
        }
        Self { period, generator, num_cycles, generator_inverse }
    }

    pub fn period(&self) -> (r: u16)
        ensures
            r == self.period_value(),
    {
        self.period
    }

    pub fn generator(&self) -> (r: u16)
        ensures
            r == self.generator_value(),
    {
        self.generator
    }

    pub fn num_cycles(&self) -> (r: u16)
        ensures
            r == self.num_cycles_value(),
    {
        self.num_cycles
    }

    pub fn reduced_period(&self) -> (r: u16)
        requires
            self.wf(),
        ensures
            r == self.reduced_period_value(),
            r >= 1,
    {
        proof {
            self.lemma_wf();
        }
        self.period / self.num_cycles
    }

    /// Determines on which cycle and at which genchain degree the key at `index` is located.
    pub fn get_generation(&self, index: u16) -> (r: Generation)
        requires
            self.wf(),
            self.generation_fits(index),
        ensures
            r.degree == self.degree_of(index),
            r.degree < self.reduced_period_value(),
            r.cycle == (if self.num_cycles_value() > 1 {
                Some((index % self.num_cycles_value()) as u16)
            } else {
                None
            }),
    {
        proof {
            self.lemma_wf();
        }
        let reduced_index = index / self.num_cycles;
        proof {
            lemma_mul_upper_bound(
                self.generator_inverse as int,
                self.generator_inverse as int,
                reduced_index as int,
                reduced_index as int,
            );
        }
        let degree = math::i32_rem_u(
            self.generator_inverse as i32 * reduced_index as i32,
            self.reduced_period(),
        );
        let cycle = if self.num_cycles > 1 {
            Some(index % self.num_cycles)
        } else {
            None
        };
        Generation { cycle, degree }
    }
}

/// Walking `degree_of(index)` generator steps from the origin reaches the reduced key index: the
/// genchain degree inverts the generator modulo the reduced period.
pub proof fn lemma_degree_inverts_generator(pergen: PerGen, index: u16)
    requires
        pergen.wf(),
    ensures
        ((pergen.generator_value() / pergen.num_cycles_value()) * pergen.degree_of(index))
            % pergen.reduced_period_value() == (index / pergen.num_cycles_value()) as int
            % pergen.reduced_period_value(),
{
    pergen.lemma_wf();
    let m = pergen.reduced_period_value();
    let g = (pergen.generator_value() / pergen.num_cycles_value()) as int;
    let inv = pergen.generator_inverse_value() as int;
    let k = (index / pergen.num_cycles_value()) as int;
    lemma_mul_mod_noop_right(g, inv * k, m);
    lemma_mul_is_associative(g, inv, k);
    lemma_mul_mod_noop_left(g * inv, k, m);
    lemma_mul_mod_noop_left(1, k, m);
    if m == 1 {
        lemma_mod_self_0(1);
        assert(1int % 1 == 0);
    }
}

proof fn lemma_quotient_bounds(n: int, d: int)
    requires
        n > 0,
        d > 0,
        n % d == 0,
    ensures
        1 <= n / d <= n,
        d <= n,
{
    lemma_fundamental_div_mod(n, d);
    lemma_div_pos_is_pos(n, d);
    lemma_div_is_ordered_by_denominator(n, 1, d);
    if n / d == 0 {
        assert(n == d * 0);
    }
    let q = n / d;
    assert(d <= n) by (nonlinear_arith)
        requires
            n == d * q,
            q >= 1,
            d > 0,
    ;
}

/// The reduced Bezout identity yields the inverse of the reduced generator.
pub(crate) proof fn lemma_bezout_gives_inverse(a: int, b: int, g: int, s: int, t: int)
    requires
        a > 0,
        b >= 0,
        g > 0,
        a % g == 0,
        b % g == 0,
        g == a * s + b * t,
    ensures
        ((b / g) * (t % (a / g))) % (a / g) == 1int % (a / g),
{
    lemma_fundamental_div_mod(a, g);
    lemma_fundamental_div_mod(b, g);
    let a1 = a / g;
    let b1 = b / g;
    assert(g * 1 == g * (a1 * s + b1 * t)) by (nonlinear_arith)
        requires
            a == g * a1,
            b == g * b1,
            g == a * s + b * t,
    ;
    lemma_mul_equality_converse(g, 1, a1 * s + b1 * t);
    assert(a1 > 0) by (nonlinear_arith)
        requires
            a == g * a1,
            a > 0,
            g > 0,
    ;
    lemma_mul_mod_noop_right(b1, t, a1);
    assert(b1 * t == 1 + (-s) * a1) by (nonlinear_arith)
        requires
            1 == a1 * s + b1 * t,
    ;
    lemma_mod_multiples_vanish(-s, 1, a1);
}


/// How a genchain is spelled: the number of natural note symbols and the position of degree 0.
#[derive(Clone, Debug)]
pub struct AccidentalsFormat {
    pub num_symbols: u16,
    pub genchain_origin: u16,
}

/// A key spelled both as a sharpened and as a flattened natural note.
#[derive(Clone, Debug)]
pub struct Accidentals {
    pub cycle: Option<u16>,
    pub sharp_index: u16,
    pub sharp_count: u16,
    pub flat_index: u16,
    pub flat_count: u16,
}

/// The spelling `(sharp_index, sharp_count, flat_index, flat_count)` of the note at genchain degree
/// `degree` for a genchain of `num_steps` notes spelled with `num_symbols` natural symbols.
///
/// When there are at least as many notes as symbols, the sharp coordinate counts genchain steps
/// upwards from the first symbol and the flat coordinate counts them downwards from the last symbol;
/// every full turn through the symbols adds one accidental. Otherwise no accidentals are needed and
/// the note is placed on the upper or lower part of the genchain.
pub open spec fn genchain_spelling(num_symbols: int, origin: int, num_steps: int, degree: int) -> (
    int,
    int,
    int,
    int,
) {
    let position = origin + degree;
    if num_steps >= num_symbols {
        let sharp_coord = position % num_steps;
        let flat_coord = (num_symbols - 1 - position) % num_steps;
        (
            sharp_coord % num_symbols,
            sharp_coord / num_symbols,
            num_symbols - 1 - flat_coord % num_symbols,
            flat_coord / num_symbols,
        )
    } else {
        let shift = if degree > 0 {
            num_steps
        } else {
            0
        };
        (
            if position >= num_symbols {
                position - shift
            } else {
                position
            },
            0,
            if position - shift < 0 {
                position
            } else {
                position - shift
            },
            0,
        )
    }
}

impl PerGen {
    /// Whether the spelling of the key at `index` can be computed without leaving the numeric range.
    pub open spec fn accidentals_fit(self, format: AccidentalsFormat, index: u16) -> bool {
        let degree = self.degree_of(index);
        let position = format.genchain_origin + degree;
        &&& format.num_symbols > 0
        &&& self.generation_fits(index)
        &&& self.reduced_period_value() < format.num_symbols && position >= format.num_symbols
            ==> position - (if degree > 0 {
            self.reduced_period_value()
        } else {
            0
        }) <= u16::MAX
    }

    /// Tells whether the key at `index` can be spelled with `format` within the numeric bounds.
    pub fn accidentals_fit_at(&self, format: &AccidentalsFormat, index: u16) -> (r: bool)
        requires
            self.wf(),
        ensures
            r == self.accidentals_fit(*format, index),
    {
        proof {
            self.lemma_wf();
        }
        if format.num_symbols == 0 {
            return false;
        }
        let reduced_index = index / self.num_cycles;
        proof {
            lemma_mul_upper_bound(
                self.generator_inverse as int,
                u16::MAX as int,
                reduced_index as int,
                u16::MAX as int,
            );
        }
        let product: u64 = self.generator_inverse as u64 * reduced_index as u64;
        if product > 0x7fff_ffff {
            return false;
        }
        let generation = self.get_generation(index);
        let reduced = self.reduced_period();
        let position: u32 = format.genchain_origin as u32 + generation.degree as u32;
        if reduced < format.num_symbols && position >= format.num_symbols as u32 {
            let shift: u32 = if generation.degree > 0 {
                reduced as u32
            } else {
                0
            };
            position - shift <= 0xffff
        } else {
            true
        }
    }

    /// Spells the key at `index` using the natural symbols described by `format`.
    pub fn get_accidentals(&self, format: &AccidentalsFormat, index: u16) -> (r: Accidentals)
        requires
            self.wf(),
            self.accidentals_fit(*format, index),
        ensures
            (r.sharp_index as int, r.sharp_count as int, r.flat_index as int, r.flat_count as int)
                == genchain_spelling(
                format.num_symbols as int,
                format.genchain_origin as int,
                self.reduced_period_value(),
                self.degree_of(index),
            ),
            r.cycle == (if self.num_cycles_value() > 1 {
                Some((index % self.num_cycles_value()) as u16)
            } else {
                None
            }),
    {
        let generation = self.get_generation(index);
        let num_steps = self.reduced_period();
        if num_steps >= format.num_symbols {
            let degree = format.genchain_origin as i32 + generation.degree as i32;
            let end_of_genchain = format.num_symbols - 1;
            let sharp_coord = math::i32_rem_u(degree, num_steps);
            let flat_coord = math::i32_rem_u(end_of_genchain as i32 - degree, num_steps);
            proof {
                lemma_mod_bound(flat_coord as int, format.num_symbols as int);
            }
            Accidentals {
                cycle: generation.cycle,
                sharp_index: sharp_coord % format.num_symbols,
                sharp_count: sharp_coord / format.num_symbols,
                flat_index: end_of_genchain - flat_coord % format.num_symbols,
                flat_count: flat_coord / format.num_symbols,
            }
        } else {
            let shift: i32 = if generation.degree > 0 {
                num_steps as i32
            } else {
                0
            };
            let mut sharp_degree: i32 = format.genchain_origin as i32 + generation.degree as i32;
            let mut flat_degree: i32 = sharp_degree - shift;
            if sharp_degree >= format.num_symbols as i32 {
                sharp_degree = sharp_degree - shift;
            }
            if flat_degree < 0 {
                flat_degree = flat_degree + shift;
            }
            Accidentals {
                cycle: generation.cycle,
                sharp_index: sharp_degree as u16,
                sharp_count: 0,
                flat_index: flat_degree as u16,
                flat_count: 0,
            }
        }
    }
}

/// The order in which the two spellings of an enharmonic note are written.
#[derive(Copy, Clone, Debug, Eq, PartialEq, Structural)]
pub enum AccidentalsOrder {
    SharpFlat,
    FlatSharp,
}

impl AccidentalsOrder {
    /// Sharp spellings come first for non-negative sharpness values.
    pub fn from_sharpness(sharpness: i16) -> (r: Self)
        ensures
            r == (if sharpness >= 0 {
                AccidentalsOrder::SharpFlat
            } else {
                AccidentalsOrder::FlatSharp
            }),
    {
        if sharpness >= 0 {
            AccidentalsOrder::SharpFlat
        } else {
            AccidentalsOrder::FlatSharp
        }
    }
}

/// Renders [`Accidentals`] as note names.
#[derive(Clone, Debug)]
pub struct NoteFormatter {
    pub note_names: Vec<char>,
    pub sharp_sign: char,
    pub flat_sign: char,
    pub cycle_sign: char,
    pub order: AccidentalsOrder,
}

/// `count` copies of `c`.
pub open spec fn repeated(c: char, count: nat) -> Seq<char> {
    Seq::new(count, |_i: int| c)
}

impl NoteFormatter {
    /// A natural note symbol followed by `num_accidentals` accidentals (`'?'` for unknown symbols).
    pub open spec fn note_text(self, index: u16, num_accidentals: u16, accidental: char) -> Seq<char> {
        seq![
            if index < self.note_names@.len() {
                self.note_names@[index as int]
            } else {
                '?'
            },
        ] + repeated(accidental, num_accidentals as nat)
    }

    /// One cycle sign per cycle.
    pub open spec fn cycle_text(self, cycle: Option<u16>) -> Seq<char> {
        repeated(
            self.cycle_sign,
            match cycle {
                Some(c) => c as nat,
                None => 0,
            },
        )
    }

    /// The text that [`NoteFormatter::format`] produces.
    pub open spec fn formatted(self, accidentals: Accidentals) -> Seq<char> {
        let a = accidentals;
        if a.sharp_count == 0 && a.flat_count == 0 && a.sharp_index == a.flat_index {
            self.note_text(a.sharp_index, 0, '\0') + self.cycle_text(a.cycle)
        } else if a.sharp_count > a.flat_count {
            self.note_text(a.flat_index, a.flat_count, self.flat_sign) + self.cycle_text(a.cycle)
        } else if a.sharp_count < a.flat_count {
            self.note_text(a.sharp_index, a.sharp_count, self.sharp_sign) + self.cycle_text(a.cycle)
        } else {
            let sharp = self.note_text(a.sharp_index, a.sharp_count, self.sharp_sign);
            let flat = self.note_text(a.flat_index, a.sharp_count, self.flat_sign);
            let (first, second) = match self.order {
                AccidentalsOrder::SharpFlat => (sharp, flat),
                AccidentalsOrder::FlatSharp => (flat, sharp),
            };
            let body = first + seq!['/'] + second;
            if a.cycle is Some {
                seq!['('] + body + seq![')'] + self.cycle_text(a.cycle)
            } else {
                body + self.cycle_text(a.cycle)
            }
        }
    }

    /// Renders the note name: the spelling with fewer accidentals, or both spellings when they need
    /// the same number of accidentals, followed by the cycle signs.
    pub fn format(&self, accidentals: &Accidentals) -> (r: String)
        ensures
            r@ == self.formatted(*accidentals),
    {
        if accidentals.sharp_count == 0 && accidentals.flat_count == 0 && accidentals.sharp_index
            == accidentals.flat_index {
            return self.render_note_with_cycle(accidentals.cycle, accidentals.sharp_index, 0, '\0');
        }
        if accidentals.sharp_count > accidentals.flat_count {
            self.render_note_with_cycle(
                accidentals.cycle,
                accidentals.flat_index,
                accidentals.flat_count,
                self.flat_sign,
            )
        } else if accidentals.sharp_count < accidentals.flat_count {
            self.render_note_with_cycle(
                accidentals.cycle,
                accidentals.sharp_index,
                accidentals.sharp_count,
                self.sharp_sign,
            )
        } else {
            self.render_enharmonic_note_with_cycle(
                accidentals.cycle,
                accidentals.sharp_index,
                accidentals.flat_index,
                accidentals.sharp_count,
            )
        }
    }

    fn render_note_with_cycle(
        &self,
        cycle: Option<u16>,
        index: u16,
        num_accidentals: u16,
        accidental: char,
    ) -> (r: String)
        ensures
            r@ == self.note_text(index, num_accidentals, accidental) + self.cycle_text(cycle),
    {
        let mut formatted = String::new();
        self.write_note(&mut formatted, index, num_accidentals, accidental);
        self.write_cycle(&mut formatted, cycle);
        formatted
    }

    fn render_enharmonic_note_with_cycle(
        &self,
        cycle: Option<u16>,
        sharp_index: u16,
        flat_index: u16,
        num_accidentals: u16,
    ) -> (r: String)
        ensures
            ({
                let sharp = self.note_text(sharp_index, num_accidentals, self.sharp_sign);
                let flat = self.note_text(flat_index, num_accidentals, self.flat_sign);
                let (first, second) = match self.order {
                    AccidentalsOrder::SharpFlat => (sharp, flat),
                    AccidentalsOrder::FlatSharp => (flat, sharp),
                };
                let body = first + seq!['/'] + second;
                r@ == if cycle is Some {
                    seq!['('] + body + seq![')'] + self.cycle_text(cycle)
                } else {
                    body + self.cycle_text(cycle)
                }
            }),
    {
        let mut formatted = String::new();
        if cycle.is_some() {
            push_char(&mut formatted, '(');
        }
        match self.order {
            AccidentalsOrder::SharpFlat => {
                self.write_note(&mut formatted, sharp_index, num_accidentals, self.sharp_sign);
                push_char(&mut formatted, '/');
                self.write_note(&mut formatted, flat_index, num_accidentals, self.flat_sign);
            },
            AccidentalsOrder::FlatSharp => {
                self.write_note(&mut formatted, flat_index, num_accidentals, self.flat_sign);
                push_char(&mut formatted, '/');
                self.write_note(&mut formatted, sharp_index, num_accidentals, self.sharp_sign);
            },
        }
        if cycle.is_some() {
            push_char(&mut formatted, ')');
        }
        self.write_cycle(&mut formatted, cycle);
        proof {
            let sharp = self.note_text(sharp_index, num_accidentals, self.sharp_sign);
            let flat = self.note_text(flat_index, num_accidentals, self.flat_sign);
            let (first, second) = match self.order {
                AccidentalsOrder::SharpFlat => (sharp, flat),
                AccidentalsOrder::FlatSharp => (flat, sharp),
            };
            let body = first + seq!['/'] + second;
            if cycle is Some {
                assert(formatted@ =~= seq!['('] + body + seq![')'] + self.cycle_text(cycle));
            } else {
                assert(formatted@ =~= body + self.cycle_text(cycle));
            }
        }
        formatted
    }

    fn write_note(&self, target: &mut String, index: u16, num_accidentals: u16, accidental: char)
        ensures
            final(target)@ == old(target)@ + self.note_text(index, num_accidentals, accidental),
    {
        let symbol = if (index as usize) < self.note_names.len() {
            self.note_names[index as usize]
        } else {
            '?'
        };
        push_char(target, symbol);
        push_repeated(target, accidental, num_accidentals);
        assert(final(target)@ =~= old(target)@ + self.note_text(index, num_accidentals, accidental));
    }

    fn write_cycle(&self, target: &mut String, cycle: Option<u16>)
        ensures
            final(target)@ == old(target)@ + self.cycle_text(cycle),
    {
        let count = match cycle {
            Some(c) => c,
            None => 0,
        };
        push_repeated(target, self.cycle_sign, count);
    }
}


/// *Moment-of-Symmetry* data structure for theoretical analysis and practical usage within an
/// isomorphic keyboard setup.
///
/// Instead of the traditional *x*L*y*s (number of large and small steps) representation, *x*p*y*s
/// (number of primary and secondary steps) is used, together with the sizes of the primary and
/// secondary steps.
#[derive(Clone, Copy, Debug)]
pub struct Mos {
    num_primary_steps: u16,
    num_secondary_steps: u16,
    primary_step: u16,
    secondary_step: u16,
    size: u16,
}

/// The mathematical content of a [`Mos`].
pub struct MosView {
    pub num_primary_steps: nat,
    pub num_secondary_steps: nat,
    pub primary_step: nat,
    pub secondary_step: nat,
    pub size: nat,
}

impl MosView {
    /// The size equals `num_primary_steps * primary_step + num_secondary_steps * secondary_step`.
    pub open spec fn consistent(self) -> bool {
        self.size == self.num_primary_steps * self.primary_step + self.num_secondary_steps
            * self.secondary_step
    }

    /// Every number fits in a `u16`, as for every [`Mos`].
    pub open spec fn in_range(self) -> bool {
        &&& self.num_primary_steps <= u16::MAX
        &&& self.num_secondary_steps <= u16::MAX
        &&& self.primary_step <= u16::MAX
        &&& self.secondary_step <= u16::MAX
        &&& self.size <= u16::MAX
    }

    /// The unique child MOS: the larger step is split into the smaller step and the difference.
    pub open spec fn child(self) -> Option<MosView> {
        if self.primary_step == 0 || self.secondary_step == 0 || self.num_primary_steps
            + self.num_secondary_steps > u16::MAX {
            None
        } else if self.primary_step > self.secondary_step {
            Some(
                MosView {
                    num_secondary_steps: self.num_primary_steps + self.num_secondary_steps,
                    primary_step: (self.primary_step - self.secondary_step) as nat,
                    ..self
                },
            )
        } else if self.primary_step < self.secondary_step {
            Some(
                MosView {
                    num_primary_steps: self.num_primary_steps + self.num_secondary_steps,
                    secondary_step: (self.secondary_step - self.primary_step) as nat,
                    ..self
                },
            )
        } else {
            None
        }
    }

    /// Step sizes and step counts swapped.
    pub open spec fn dual(self) -> MosView {
        MosView {
            num_primary_steps: self.primary_step,
            num_secondary_steps: self.secondary_step,
            primary_step: self.num_primary_steps,
            secondary_step: self.num_secondary_steps,
            size: self.size,
        }
    }

    /// Primary and secondary semantics swapped.
    pub open spec fn mirror(self) -> MosView {
        MosView {
            num_primary_steps: self.num_secondary_steps,
            num_secondary_steps: self.num_primary_steps,
            primary_step: self.secondary_step,
            secondary_step: self.primary_step,
            size: self.size,
        }
    }

    /// The inverse operation of [`MosView::child`].
    pub open spec fn parent(self) -> Option<MosView> {
        match self.dual().child() {
            Some(c) => Some(c.dual()),
            None => None,
        }
    }

    /// Follows the parents until no parent exists.
    pub open spec fn genesis(self) -> MosView
        decreases self.num_primary_steps + self.num_secondary_steps,
    {
        match self.parent() {
            Some(p) => if p.num_primary_steps + p.num_secondary_steps < self.num_primary_steps
                + self.num_secondary_steps {
                p.genesis()
            } else {
                self
            },
            None => self,
        }
    }
}

impl View for Mos {
    type V = MosView;

    closed spec fn view(&self) -> MosView {
        MosView {
            num_primary_steps: self.num_primary_steps as nat,
            num_secondary_steps: self.num_secondary_steps as nat,
            primary_step: self.primary_step as nat,
            secondary_step: self.secondary_step as nat,
            size: self.size as nat,
        }
    }
}

impl Mos {
    /// Every field of a [`Mos`] fits in a `u16`.
    pub proof fn lemma_bounds(self)
        ensures
            self@.in_range(),
    {
    }

    /// Creates a new 1p1s [`Mos`] with a total size of `period` and a step ratio of
    /// `generator` ÷ `period - generator` (the generator is reduced to the period).
    pub fn new_genesis(period: u16, generator: u16) -> (r: Self)
        requires
            period > 0,
        ensures
            r@.num_primary_steps == 1,
            r@.num_secondary_steps == 1,
            r@.primary_step == generator % period,
            r@.secondary_step == period - generator % period,
            r@.size == period,
            r@.consistent(),
    {
        let primary_step = generator % period;
        Self {
            num_primary_steps: 1,
            num_secondary_steps: 1,
            primary_step,
            secondary_step: period - primary_step,
            size: period,
        }
    }

    /// Creates a collapsed *x*L*y*s [`Mos`] with a step size ratio of 1 ÷ 0 and a sharpness of 1.
    pub fn new_collapsed(num_large_steps: u16, num_small_steps: u16) -> (r: Self)
        ensures
            r@.num_primary_steps == num_large_steps,
            r@.num_secondary_steps == num_small_steps,
            r@.primary_step == 1,
            r@.secondary_step == 0,
            r@.size == num_large_steps,
            r@.consistent(),
    {
        Self {
            num_primary_steps: num_large_steps,
            num_secondary_steps: num_small_steps,
            primary_step: 1,
            secondary_step: 0,
            size: num_large_steps,
        }
    }

    /// Creates a custom *x*L*y*s [`Mos`] with the provided parameters.
    ///
    /// Returns [`None`] if the total size of the MOS would exceed numeric bounds.
    pub fn new(
        num_primary_steps: u16,
        num_secondary_steps: u16,
        primary_step: u16,
        secondary_step: u16,
    ) -> (r: Option<Self>)
        ensures
            num_primary_steps * primary_step + num_secondary_steps * secondary_step <= u16::MAX
                <==> r is Some,
            r matches Some(m) ==> m@ == (MosView {
                num_primary_steps: num_primary_steps as nat,
                num_secondary_steps: num_secondary_steps as nat,
                primary_step: primary_step as nat,
                secondary_step: secondary_step as nat,
                size: (num_primary_steps * primary_step + num_secondary_steps
                    * secondary_step) as nat,
            }),
    {
        proof {
            lemma_mul_nonnegative(num_primary_steps as int, primary_step as int);
            lemma_mul_nonnegative(num_secondary_steps as int, secondary_step as int);
        }
        let primary_total = match num_primary_steps.checked_mul(primary_step) {
            Some(v) => v,
            None => return None,
        };
        let secondary_total = match num_secondary_steps.checked_mul(secondary_step) {
            Some(v) => v,
            None => return None,
        };
        let size = match primary_total.checked_add(secondary_total) {
            Some(v) => v,
            None => return None,
        };
        Some(Self { num_primary_steps, num_secondary_steps, primary_step, secondary_step, size })
    }

    /// Returns the current MOS' child MOS if possible.
    ///
    /// Returns [`None`] if the child MOS would be collapsed or if the step counts would exceed
    /// numeric bounds.
    pub fn child(self) -> (r: Option<Self>)
        ensures
            match self@.child() {
                Some(c) => r matches Some(m) && m@ == c,
                None => r is None,
            },
            self@.consistent() ==> (r matches Some(m) ==> m@.consistent()),
    {
        if self.primary_step == 0 || self.secondary_step == 0 {
            return None;
        }
        let num_steps = match self.num_secondary_steps.checked_add(self.num_primary_steps) {
            Some(v) => v,
            None => return None,
        };
        let mut next = self;
        if self.primary_step > self.secondary_step {
            next.num_secondary_steps = num_steps;
            next.primary_step = self.primary_step - self.secondary_step;
        } else if self.primary_step < self.secondary_step {
            next.num_primary_steps = num_steps;
            next.secondary_step = self.secondary_step - self.primary_step;
        } else {
            return None;
        }
        proof {
            let v = self@;
            if v.consistent() {
                assert(next@.consistent()) by (nonlinear_arith)
                    requires
                        v.consistent(),
                        v.primary_step > v.secondary_step ==> next@ == (MosView {
                            num_secondary_steps: v.num_primary_steps + v.num_secondary_steps,
                            primary_step: (v.primary_step - v.secondary_step) as nat,
                            ..v
                        }),
                        v.primary_step < v.secondary_step ==> next@ == (MosView {
                            num_primary_steps: v.num_primary_steps + v.num_secondary_steps,
                            secondary_step: (v.secondary_step - v.primary_step) as nat,
                            ..v
                        }),
                        v.primary_step != v.secondary_step,
                ;
            }
        }
        Some(next)
    }

    /// Retrieves the sequence of child MOSes, starting with the current MOS and stopping once a MOS
    /// is no longer properly representable.
    pub fn children(self) -> (r: Vec<Self>)
        ensures
            r@.len() >= 1,
            r@[0] == self,
            forall|i: int| 0 <= i < r@.len() - 1 ==> (#[trigger] r@[i])@.child() == Some(r@[i + 1]@),
            r@.last()@.child() is None,
    {
        let mut result: Vec<Self> = Vec::new();
        result.push(self);
        let mut current = self;
        loop
            invariant
                result@.len() >= 1,
                result@[0] == self,
                result@.last() == current,
                forall|i: int|
                    0 <= i < result@.len() - 1 ==> (#[trigger] result@[i])@.child() == Some(
                        result@[i + 1]@,
                    ),
        ensures
            result@.len() >= 1,
            result@[0] == self,
            forall|i: int|
                0 <= i < result@.len() - 1 ==> (#[trigger] result@[i])@.child() == Some(
                    result@[i + 1]@,
                ),
            result@.last()@.child() is None,
            decreases current@.primary_step + current@.secondary_step,
        {
            match current.child() {
                Some(next) => {
                    let ghost old_result = result@;
                    result.push(next);
                    assert forall|i: int| 0 <= i < result@.len() - 1 implies (#[trigger] result@[i])@.child()
                        == Some(result@[i + 1]@) by {
                        if i < old_result.len() - 1 {
                            assert(result@[i] == old_result[i]);
                            assert(result@[i + 1] == old_result[i + 1]);
                        }
                    }
                    current = next;
                },
                None => {
                    break;
                },
            }
        }
        result
    }

    /// The inverse operation of [`Mos::child`].
    pub fn parent(self) -> (r: Option<Self>)
        ensures
            match self@.parent() {
                Some(p) => r matches Some(m) && m@ == p,
                None => r is None,
            },
            self@.consistent() ==> (r matches Some(m) ==> m@.consistent()),
    {
        proof {
            lemma_dual_consistent(self@);
        }
        match self.dual().child() {
            Some(c) => {
                proof {
                    lemma_dual_consistent(c@);
                }
                Some(c.dual())
            },
            None => None,
        }
    }

    /// The inverse operation of [`Mos::children`].
    pub fn parents(self) -> (r: Vec<Self>)
        ensures
            r@.len() >= 1,
            r@[0] == self,
            forall|i: int| 0 <= i < r@.len() - 1 ==> (#[trigger] r@[i])@.parent() == Some(r@[i + 1]@),
            r@.last()@.parent() is None,
    {
        let mut result: Vec<Self> = Vec::new();
        result.push(self);
        let mut current = self;
        loop
            invariant
                result@.len() >= 1,
                result@[0] == self,
                result@.last() == current,
                forall|i: int|
                    0 <= i < result@.len() - 1 ==> (#[trigger] result@[i])@.parent() == Some(
                        result@[i + 1]@,
                    ),
        ensures
            result@.len() >= 1,
            result@[0] == self,
            forall|i: int|
                0 <= i < result@.len() - 1 ==> (#[trigger] result@[i])@.parent() == Some(
                    result@[i + 1]@,
                ),
            result@.last()@.parent() is None,
            decreases current@.num_primary_steps + current@.num_secondary_steps,
        {
            match current.parent() {
                Some(next) => {
                    let ghost old_result = result@;
                    result.push(next);
                    assert forall|i: int| 0 <= i < result@.len() - 1 implies (#[trigger] result@[i])@.parent()
                        == Some(result@[i + 1]@) by {
                        if i < old_result.len() - 1 {
                            assert(result@[i] == old_result[i]);
                            assert(result@[i + 1] == old_result[i + 1]);
                        }
                    }
                    current = next;
                },
                None => {
                    break;
                },
            }
        }
        result
    }

    /// Calculates the generating parent MOS with shape 1p1s, i.e. the last of the parents.
    pub fn genesis(self) -> (r: Self)
        ensures
            r@ == self@.genesis(),
            r@.parent() is None,
    {
        let parents = self.parents();
        proof {
            lemma_parent_chain_genesis(parents@, 0);
        }
        parents[parents.len() - 1]
    }

    /// Creates a MOS with step sizes and step counts swapped.
    pub fn dual(self) -> (r: Self)
        ensures
            r@ == self@.dual(),
    {
        Mos {
            num_primary_steps: self.primary_step,
            num_secondary_steps: self.secondary_step,
            primary_step: self.num_primary_steps,
            secondary_step: self.num_secondary_steps,
            size: self.size,
        }
    }

    /// Creates a MOS with primary and secondary semantics swapped.
    pub fn mirror(self) -> (r: Self)
        ensures
            r@ == self@.mirror(),
    {
        Self {
            num_primary_steps: self.num_secondary_steps,
            num_secondary_steps: self.num_primary_steps,
            primary_step: self.secondary_step,
            secondary_step: self.primary_step,
            size: self.size,
        }
    }

    /// Returns `num_primary_steps * primary_step + num_secondary_steps * secondary_step`.
    pub fn size(self) -> (r: u16)
        ensures
            r == self@.size,
    {
        self.size
    }

    /// Returns `num_primary_steps + num_secondary_steps`.
    pub fn num_steps(self) -> (r: u32)
        ensures
            r == self@.num_primary_steps + self@.num_secondary_steps,
    {
        self.num_primary_steps as u32 + self.num_secondary_steps as u32
    }

    pub fn num_primary_steps(self) -> (r: u16)
        ensures
            r == self@.num_primary_steps,
    {
        self.num_primary_steps
    }

    pub fn num_secondary_steps(self) -> (r: u16)
        ensures
            r == self@.num_secondary_steps,
    {
        self.num_secondary_steps
    }

    pub fn primary_step(self) -> (r: u16)
        ensures
            r == self@.primary_step,
    {
        self.primary_step
    }

    pub fn secondary_step(self) -> (r: u16)
        ensures
            r == self@.secondary_step,
    {
        self.secondary_step
    }

    /// Returns `primary_step - secondary_step`.
    pub fn sharpness(self) -> (r: i32)
        ensures
            r == self@.primary_step - self@.secondary_step,
    {
        self.primary_step as i32 - self.secondary_step as i32
    }

    /// Returns `gcd(primary_step, secondary_step)` (1 if both are 0).
    pub fn num_cycles(self) -> (r: u16)
        ensures
            r == math::gcd_u16_spec(self@.primary_step, self@.secondary_step),
            r >= 1,
    {
        math::gcd_u16(self.primary_step, self.secondary_step)
    }

    /// Returns `size / gcd(primary_step, secondary_step)`.
    pub fn reduced_size(self) -> (r: u16)
        ensures
            r == self@.size / math::gcd_u16_spec(self@.primary_step, self@.secondary_step),
    {
        self.size / self.num_cycles()
    }

    /// Get the scale degree of the key at location `(x, y)`.
    pub fn get_key(&self, num_primary_steps: i16, num_secondary_steps: i16) -> (r: i32)
        requires
            i32::MIN <= num_primary_steps * self@.primary_step + num_secondary_steps
                * self@.secondary_step <= i32::MAX,
        ensures
            r == num_primary_steps * self@.primary_step + num_secondary_steps * self@.secondary_step,
    {
        proof {
            lemma_i16_times_u16(num_primary_steps, self.primary_step);
            lemma_i16_times_u16(num_secondary_steps, self.secondary_step);
        }
        num_primary_steps as i32 * self.primary_step as i32 + num_secondary_steps as i32
            * self.secondary_step as i32
    }
}

proof fn lemma_i16_times_u16(x: i16, y: u16)
    ensures
        i32::MIN <= x * y <= i32::MAX,
{
    assert(-32768 * 65535 <= x * y <= 32767 * 65535) by (nonlinear_arith)
        requires
            -32768 <= x <= 32767,
            0 <= y <= 65535,
    ;
}

proof fn lemma_dual_consistent(v: MosView)
    ensures
        v.consistent() <==> v.dual().consistent(),
        v.consistent() <==> v.mirror().consistent(),
{
    lemma_mul_is_commutative(v.num_primary_steps as int, v.primary_step as int);
    lemma_mul_is_commutative(v.num_secondary_steps as int, v.secondary_step as int);
}

/// The last element of a parent chain is the genesis of every element in the chain.
proof fn lemma_parent_chain_genesis(chain: Seq<Mos>, i: int)
    requires
        0 <= i < chain.len(),
        forall|j: int| 0 <= j < chain.len() - 1 ==> (#[trigger] chain[j])@.parent() == Some(chain[j + 1]@),
        chain.last()@.parent() is None,
    ensures
        chain[i]@.genesis() == chain.last()@,
    decreases chain.len() - i,
{
    if i < chain.len() - 1 {
        lemma_parent_chain_genesis(chain, i + 1);
        lemma_parent_shrinks(chain[i]@);
    }
}

/// Taking the parent strictly reduces the number of steps.
proof fn lemma_parent_shrinks(v: MosView)
    requires
        v.parent() is Some,
    ensures
        v.parent()->0.num_primary_steps + v.parent()->0.num_secondary_steps < v.num_primary_steps
            + v.num_secondary_steps,
{
}

/// Walking to the child and back to the parent returns to the starting MOS, provided that both step
/// counts are non-zero.
pub proof fn lemma_parent_of_child(m: MosView)
    requires
        m.in_range(),
        m.num_primary_steps > 0,
        m.num_secondary_steps > 0,
        m.child() is Some,
    ensures
        m.child()->0.parent() == Some(m),
{
}

/// Walking to the parent and back to the child returns to the starting MOS, provided that both step
/// sizes are non-zero.
pub proof fn lemma_child_of_parent(m: MosView)
    requires
        m.in_range(),
        m.primary_step > 0,
        m.secondary_step > 0,
        m.parent() is Some,
    ensures
        m.parent()->0.child() == Some(m),
{
}

/// Duality and mirroring are involutions that keep the total size.
pub proof fn lemma_dual_mirror_involutions(m: MosView)
    ensures
        m.dual().dual() == m,
        m.mirror().mirror() == m,
        m.dual().size == m.size,
        m.mirror().size == m.size,
{
}

/// A child MOS is consistent and has the same total size as its parent, while the sum of its two
/// step sizes is smaller: the larger step is split into the smaller one and their difference.
pub proof fn lemma_child_keeps_size(m: MosView)
    requires
        m.consistent(),
        m.child() is Some,
    ensures
        m.child()->0.consistent(),
        m.child()->0.size == m.size,
        m.child()->0.primary_step + m.child()->0.secondary_step < m.primary_step + m.secondary_step,
{
    let c = m.child()->0;
    assert(c.consistent()) by (nonlinear_arith)
        requires
            m.consistent(),
            m.primary_step > m.secondary_step ==> c == (MosView {
                num_secondary_steps: m.num_primary_steps + m.num_secondary_steps,
                primary_step: (m.primary_step - m.secondary_step) as nat,
                ..m
            }),
            m.primary_step < m.secondary_step ==> c == (MosView {
                num_primary_steps: m.num_primary_steps + m.num_secondary_steps,
                secondary_step: (m.secondary_step - m.primary_step) as nat,
                ..m
            }),
            m.primary_step != m.secondary_step,
    ;
}

/// A parent MOS is consistent and has the same total size as its child, as do the dual and the
/// mirror of a MOS.
pub proof fn lemma_parent_keeps_size(m: MosView)
    requires
        m.consistent(),
    ensures
        m.dual().consistent() && m.dual().size == m.size,
        m.mirror().consistent() && m.mirror().size == m.size,
        m.parent() matches Some(p) ==> p.consistent() && p.size == m.size,
{
    lemma_dual_consistent(m);
    if m.parent() is Some {
        let d = m.dual();
        lemma_child_keeps_size(d);
        lemma_dual_consistent(d.child()->0);
    }
}

/// Along a chain of parents, as [`Mos::parents`] lists it, every MOS is consistent and has the
/// total size of the first one.
pub proof fn lemma_parents_keep_size(chain: Seq<MosView>, i: int)
    requires
        0 <= i < chain.len(),
        chain[0].consistent(),
        forall|j: int| 0 <= j < chain.len() - 1 ==> (#[trigger] chain[j]).parent() == Some(chain[j + 1]),
    ensures
        chain[i].consistent(),
        chain[i].size == chain[0].size,
    decreases i,
{
    if i > 0 {
        lemma_parents_keep_size(chain, i - 1);
        lemma_parent_keeps_size(chain[i - 1]);
    }
}

/// `count` copies of `value`.
pub open spec fn repeated_nat(value: nat, count: nat) -> Seq<nat> {
    Seq::new(count, |_i: int| value)
}

/// The number of non-zero entries.
pub open spec fn count_nonzero(sizes: Seq<nat>) -> nat
    decreases sizes.len(),
{
    if sizes.len() == 0 {
        0
    } else {
        count_nonzero(sizes.drop_last()) + if sizes.last() == 0 {
            0nat
        } else {
            1nat
        }
    }
}

/// Numbers the non-empty layers consecutively and repeats each layer number as often as the layer
/// is large.
pub open spec fn expand_layers(sizes: Seq<nat>) -> Seq<nat>
    decreases sizes.len(),
{
    if sizes.len() == 0 {
        Seq::empty()
    } else {
        let previous = sizes.drop_last();
        expand_layers(previous) + repeated_nat(count_nonzero(previous), sizes.last())
    }
}

impl MosView {
    /// The sizes of the color layers in genchain order: the natural layer, the intermediate layers,
    /// the enharmonic layer and the intermediate layers mirrored (some sizes may be 0).
    pub open spec fn layer_sizes(self) -> Seq<nat> {
        let num_cycles = math::gcd_u16_spec(self.primary_step, self.secondary_step);
        let natural_primary: nat = if self.primary_step > 0 {
            1
        } else {
            0
        };
        let natural_secondary: nat = if self.secondary_step > 0 {
            1
        } else {
            0
        };
        let non_natural_primary = (self.primary_step / num_cycles - natural_primary) as nat;
        let non_natural_secondary = (self.secondary_step / num_cycles - natural_secondary) as nat;
        let intermediate_primary = non_natural_primary / 2;
        let intermediate_secondary = non_natural_secondary / 2;
        let natural_size = natural_primary * self.num_primary_steps + natural_secondary
            * self.num_secondary_steps;
        let enharmonic_size = (non_natural_primary % 2) * self.num_primary_steps + (
        non_natural_secondary % 2) * self.num_secondary_steps;
        let intermediate = repeated_nat(
            self.num_primary_steps + self.num_secondary_steps,
            if intermediate_primary < intermediate_secondary {
                intermediate_primary
            } else {
                intermediate_secondary
            },
        ) + repeated_nat(
            self.num_primary_steps,
            if intermediate_primary > intermediate_secondary {
                (intermediate_primary - intermediate_secondary) as nat
            } else {
                0
            },
        ) + repeated_nat(
            self.num_secondary_steps,
            if intermediate_secondary > intermediate_primary {
                (intermediate_secondary - intermediate_primary) as nat
            } else {
                0
            },
        );
        seq![natural_size] + intermediate + seq![enharmonic_size] + intermediate.reverse()
    }
}

/// Pushes `count` copies of `value`.
fn push_sizes(target: &mut Vec<u16>, value: u16, count: u16)
    ensures
        final(target)@.map_values(|x: u16| x as nat) == old(target)@.map_values(|x: u16| x as nat)
            + repeated_nat(value as nat, count as nat),
{
    let ghost start = old(target)@.map_values(|x: u16| x as nat);
    let mut i: u16 = 0;
    while i < count
        invariant
            i <= count,
            target@.map_values(|x: u16| x as nat) == start + repeated_nat(value as nat, i as nat),
        decreases count - i,
    {
        let ghost prev = target@;
        target.push(value);
        i = i + 1;
        assert(target@.map_values(|x: u16| x as nat) =~= prev.map_values(|x: u16| x as nat).push(
            value as nat,
        ));
        assert(repeated_nat(value as nat, i as nat) =~= repeated_nat(value as nat, (i - 1) as nat).push(
            value as nat,
        ));
    }
}

proof fn lemma_count_nonzero_bound(sizes: Seq<nat>)
    ensures
        count_nonzero(sizes) <= sizes.len(),
    decreases sizes.len(),
{
    if sizes.len() > 0 {
        lemma_count_nonzero_bound(sizes.drop_last());
    }
}

proof fn lemma_count_nonzero_prefix(sizes: Seq<nat>, i: int)
    requires
        0 <= i <= sizes.len(),
    ensures
        count_nonzero(sizes.take(i)) <= count_nonzero(sizes),
    decreases sizes.len() - i,
{
    if i < sizes.len() {
        lemma_count_nonzero_prefix(sizes, i + 1);
        assert(sizes.take(i + 1).drop_last() =~= sizes.take(i));
    } else {
        assert(sizes.take(i) =~= sizes);
    }
}

impl Mos {
    /// Whether the color layers of this MOS can be computed within the numeric bounds.
    pub open spec fn layers_fit(self) -> bool {
        &&& self@.num_primary_steps + self@.num_secondary_steps <= u16::MAX
        &&& count_nonzero(self@.layer_sizes()) <= u16::MAX
    }

    /// Generates an automatic color schema for the given MOS.
    ///
    /// The MOS is decomposed into one central layer of natural notes, an equal number of
    /// intermediate layers arranged symmetrically around it and an optional enharmonic layer. The
    /// non-empty layers are numbered consecutively and each number is repeated as often as the layer
    /// has notes, in genchain order.
    pub fn get_layers(&self) -> (r: Vec<u16>)
        requires
            self.layers_fit(),
        ensures
            r@.map_values(|x: u16| x as nat) == expand_layers(self@.layer_sizes()),
    {
        let sizes = self.layer_sizes_vec();
        expand_layer_sizes(&sizes)
    }

    /// The sizes of the color layers (see [`MosView::layer_sizes`]).
    #[verifier::spinoff_prover]
    #[verifier::rlimit(50)]
    fn layer_sizes_vec(&self) -> (sizes: Vec<u16>)
        requires
            self.layers_fit(),
        ensures
            sizes@.map_values(|x: u16| x as nat) == self@.layer_sizes(),
    {
        let num_cycles = self.num_cycles();
        let ghost v = self@;
        proof {
            math::lemma_gcd_zero(v.primary_step, v.secondary_step);
            if v.primary_step > 0 || v.secondary_step > 0 {
                math::lemma_gcd_divides(v.primary_step, v.secondary_step);
            }
            if v.primary_step > 0 {
                lemma_divided_by_divisor(v.primary_step as int, num_cycles as int);
            }
            if v.secondary_step > 0 {
                lemma_divided_by_divisor(v.secondary_step as int, num_cycles as int);
            }
        }
        let natural_primary: u16 = if self.primary_step > 0 {
            1
        } else {
            0
        };
        let natural_secondary: u16 = if self.secondary_step > 0 {
            1
        } else {
            0
        };
        let non_natural_primary = self.primary_step / num_cycles - natural_primary;
        let non_natural_secondary = self.secondary_step / num_cycles - natural_secondary;
        let intermediate_primary = non_natural_primary / 2;
        let intermediate_secondary = non_natural_secondary / 2;
        let both = self.num_primary_steps + self.num_secondary_steps;
        let natural_size = natural_primary * self.num_primary_steps + natural_secondary
            * self.num_secondary_steps;
        proof {
            let ep = (non_natural_primary % 2) as int;
            let es = (non_natural_secondary % 2) as int;
            assert(ep * self.num_primary_steps <= self.num_primary_steps) by (nonlinear_arith)
                requires
                    0 <= ep <= 1,
                    self.num_primary_steps >= 0,
            ;
            assert(es * self.num_secondary_steps <= self.num_secondary_steps) by (nonlinear_arith)
                requires
                    0 <= es <= 1,
                    self.num_secondary_steps >= 0,
            ;
        }
        let enharmonic_size = (non_natural_primary % 2) * self.num_primary_steps + (
        non_natural_secondary % 2) * self.num_secondary_steps;
        let mut intermediate: Vec<u16> = Vec::new();
        let num_both = if intermediate_primary < intermediate_secondary {
            intermediate_primary
        } else {
            intermediate_secondary
        };
        push_sizes(&mut intermediate, both, num_both);
        let num_primary_only = if intermediate_primary > intermediate_secondary {
            intermediate_primary - intermediate_secondary
        } else {
            0
        };
        push_sizes(&mut intermediate, self.num_primary_steps, num_primary_only);
        let num_secondary_only = if intermediate_secondary > intermediate_primary {
            intermediate_secondary - intermediate_primary
        } else {
            0
        };
        push_sizes(&mut intermediate, self.num_secondary_steps, num_secondary_only);
        let mut sizes: Vec<u16> = Vec::new();
        sizes.push(natural_size);
        let mut k: usize = 0;
        while k < intermediate.len()
            invariant
                k <= intermediate@.len(),
                sizes@ == seq![natural_size] + intermediate@.take(k as int),
            decreases intermediate@.len() - k,
        {
            sizes.push(intermediate[k]);
            k = k + 1;
            assert(intermediate@.take(k as int) =~= intermediate@.take(k - 1).push(intermediate@[k - 1]));
        }
        sizes.push(enharmonic_size);
        let mut k: usize = intermediate.len();
        while k > 0
            invariant
                k <= intermediate@.len(),
                sizes@ == seq![natural_size] + intermediate@ + seq![enharmonic_size]
                    + intermediate@.skip(k as int).reverse(),
            decreases k,
        {
            k = k - 1;
            sizes.push(intermediate[k]);
            assert(intermediate@.skip(k as int).reverse() =~= intermediate@.skip(k + 1).reverse().push(
                intermediate@[k as int],
            ));
        }
        proof {
            assert(intermediate@.take(intermediate@.len() as int) =~= intermediate@);
            assert(intermediate@.skip(0) =~= intermediate@);
            let inter_nat = intermediate@.map_values(|x: u16| x as nat);
            assert(inter_nat.reverse() =~= intermediate@.reverse().map_values(|x: u16| x as nat));
            assert(sizes@.map_values(|x: u16| x as nat) =~= seq![natural_size as nat] + inter_nat
                + seq![enharmonic_size as nat] + inter_nat.reverse());
        }
        sizes
    }
}

/// Numbers the non-empty layers and repeats each number as often as its layer is large.
fn expand_layer_sizes(sizes: &Vec<u16>) -> (layers: Vec<u16>)
    requires
        count_nonzero(sizes@.map_values(|x: u16| x as nat)) <= u16::MAX,
    ensures
        layers@.map_values(|x: u16| x as nat) == expand_layers(sizes@.map_values(|x: u16| x as nat)),
{
    let ghost sizes_nat = sizes@.map_values(|x: u16| x as nat);
    let mut layers: Vec<u16> = Vec::new();
    let mut layer_index: u16 = 0;
    let mut i: usize = 0;
    while i < sizes.len()
        invariant
            i <= sizes@.len(),
            sizes_nat == sizes@.map_values(|x: u16| x as nat),
            count_nonzero(sizes_nat) <= u16::MAX,
            layer_index == count_nonzero(sizes_nat.take(i as int)),
            layers@.map_values(|x: u16| x as nat) == expand_layers(sizes_nat.take(i as int)),
        decreases sizes@.len() - i,
    {
        let size = sizes[i];
        proof {
            assert(sizes_nat.take(i + 1).drop_last() =~= sizes_nat.take(i as int));
            lemma_count_nonzero_prefix(sizes_nat, i + 1);
        }
        if size != 0 {
            push_sizes(&mut layers, layer_index, size);
            layer_index = layer_index + 1;
        } else {
            assert(repeated_nat(count_nonzero(sizes_nat.take(i as int)), 0) =~= Seq::empty());
            assert(layers@.map_values(|x: u16| x as nat) =~= expand_layers(sizes_nat.take(i + 1)));
        }
        i = i + 1;
    }
    proof {
        assert(sizes_nat.take(sizes@.len() as int) =~= sizes_nat);
    }
    layers
}

/// A positive multiple of `d`, divided by `d`, is at least 1.
proof fn lemma_divided_by_divisor(n: int, d: int)
    requires
        n > 0,
        d > 0,
        n % d == 0,
    ensures
        n / d >= 1,
{
    lemma_quotient_bounds(n, d);
}


/// The distance between two step sizes.
pub open spec fn step_distance(p: nat, s: nat) -> nat {
    if p >= s {
        (p - s) as nat
    } else {
        (s - p) as nat
    }
}

/// Moves the secondary step towards the primary step until both are coprime: in every round the
/// distance is divided by the current gcd of the step sizes.
pub open spec fn coprime_secondary(p: nat, s: nat) -> nat
    decreases step_distance(p, s),
{
    let num_cycles = math::gcd_u16_spec(p, s);
    let d = step_distance(p, s);
    if num_cycles == 1 || d == 0 {
        s
    } else {
        let delta = (d - d / num_cycles) as nat;
        proof {
            lemma_quotient_smaller(d as int, num_cycles as int);
        }
        if p > s {
            coprime_secondary(p, s + delta)
        } else {
            coprime_secondary(p, (s - delta) as nat)
        }
    }
}

/// Dividing a positive number by at least 2 makes it smaller.
pub proof fn lemma_quotient_smaller(d: int, n: int)
    requires
        d >= 1,
        n >= 2,
    ensures
        0 <= d / n < d,
{
    lemma_div_pos_is_pos(d, n);
    vstd::arithmetic::div_mod::lemma_div_decreases(d, n);
}

/// The secondary step that [`Mos::coprime`] starts from (equal step sizes are separated first).
pub open spec fn coprime_start(p: nat, s: nat) -> nat {
    if p == s {
        (p - 1) as nat
    } else {
        s
    }
}

impl Mos {
    /// Makes the step sizes of the MOS coprime s.t. all scale degrees are reachable.
    ///
    /// The secondary step is adjusted such that the step width along the sharp axis is divided into
    /// smaller segments. As a result, the total size of the MOS changes.
    pub fn coprime(self) -> (r: Self)
        requires
            self@.primary_step > 0 || self@.secondary_step > 0,
            self@.num_primary_steps * self@.primary_step + self@.num_secondary_steps
                * coprime_secondary(self@.primary_step, coprime_start(self@.primary_step, self@.secondary_step))
                <= u16::MAX,
        ensures
            r@.num_primary_steps == self@.num_primary_steps,
            r@.num_secondary_steps == self@.num_secondary_steps,
            r@.primary_step == self@.primary_step,
            r@.secondary_step == coprime_secondary(
                self@.primary_step,
                coprime_start(self@.primary_step, self@.secondary_step),
            ),
            r@.consistent(),
            math::gcd_u16_spec(r@.primary_step, r@.secondary_step) == 1,
            self@.primary_step >= self@.secondary_step ==> r@.primary_step > r@.secondary_step,
            self@.primary_step < self@.secondary_step ==> r@.primary_step < r@.secondary_step,
    {
        let mut next = self;
        if next.primary_step == next.secondary_step {
            next.secondary_step = next.primary_step - 1;
        }
        let ghost target = coprime_secondary(
            self@.primary_step,
            coprime_start(self@.primary_step, self@.secondary_step),
        );
        let ghost sharp = self@.primary_step >= self@.secondary_step;
        loop
            invariant
                next@.primary_step == self@.primary_step,
                next@.num_primary_steps == self@.num_primary_steps,
                next@.num_secondary_steps == self@.num_secondary_steps,
                next.primary_step != next.secondary_step,
                sharp ==> next.primary_step > next.secondary_step,
                !sharp ==> next.primary_step < next.secondary_step,
                coprime_secondary(next@.primary_step, next@.secondary_step) == target,
            ensures
                next@.primary_step == self@.primary_step,
                next@.num_primary_steps == self@.num_primary_steps,
                next@.num_secondary_steps == self@.num_secondary_steps,
                sharp ==> next.primary_step > next.secondary_step,
                !sharp ==> next.primary_step < next.secondary_step,
                next@.secondary_step == target,
                math::gcd_u16_spec(next@.primary_step, next@.secondary_step) == 1,
            decreases step_distance(next@.primary_step, next@.secondary_step),
        {
            let num_cycles = next.num_cycles();
            if num_cycles == 1 {
                break;
            }
            let p = next.primary_step;
            let s = next.secondary_step;
            let current_sharp_value = if p > s {
                p - s
            } else {
                s - p
            };
            proof {
                math::lemma_gcd_zero(p as nat, s as nat);
                math::lemma_gcd_divides(p as nat, s as nat);
                lemma_divisor_of_difference(p as int, s as int, num_cycles as int);
                lemma_divided_by_divisor(current_sharp_value as int, num_cycles as int);
                lemma_quotient_smaller(current_sharp_value as int, num_cycles as int);
            }
            let wanted_sharp_value = current_sharp_value / num_cycles;
            let sharp_delta = current_sharp_value - wanted_sharp_value;
            if p > s {
                next.secondary_step = s + sharp_delta;
            } else {
                next.secondary_step = s - sharp_delta;
            }
        }
        proof {
            lemma_mul_nonnegative(self.num_primary_steps as int, self.primary_step as int);
            lemma_mul_nonnegative(self.num_secondary_steps as int, next.secondary_step as int);
        }
        next.size = self.num_primary_steps * self.primary_step + self.num_secondary_steps
            * next.secondary_step;
        next
    }
}

/// A common divisor of two numbers divides their distance.
proof fn lemma_divisor_of_difference(p: int, s: int, d: int)
    requires
        p >= 0,
        s >= 0,
        d > 0,
        p % d == 0,
        s % d == 0,
    ensures
        (if p >= s {
            p - s
        } else {
            s - p
        }) % d == 0,
{
    lemma_fundamental_div_mod(p, d);
    lemma_fundamental_div_mod(s, d);
    let a = p / d;
    let b = s / d;
    if p >= s {
        assert(p - s == (a - b) * d) by (nonlinear_arith)
            requires
                p == d * a,
                s == d * b,
        ;
        lemma_mod_multiples_basic(a - b, d);
    } else {
        assert(s - p == (b - a) * d) by (nonlinear_arith)
            requires
                p == d * a,
                s == d * b,
        ;
        lemma_mod_multiples_basic(b - a, d);
    }
}


impl PerGen {
    /// The MOSes generated by this period and generator: the genesis MOS followed by its children.
    pub fn get_moses(&self) -> (r: Vec<Mos>)
        requires
            self.wf(),
        ensures
            r@.len() >= 1,
            r@[0]@ == (MosView {
                num_primary_steps: 1,
                num_secondary_steps: 1,
                primary_step: (self.generator_value() % self.period_value()) as nat,
                secondary_step: (self.period_value() - self.generator_value() % self.period_value()) as nat,
                size: self.period_value() as nat,
            }),
            forall|i: int| 0 <= i < r@.len() - 1 ==> (#[trigger] r@[i])@.child() == Some(r@[i + 1]@),
            r@.last()@.child() is None,
            r@.map_values(|m: Mos| m@) == children_views(r@[0]@),
            forall|i: int| 0 <= i < r@.len() ==> {
                &&& (#[trigger] r@[i])@.consistent()
                &&& r@[i]@.in_range()
                &&& r@[i]@.size == self.period_value()
                &&& math::gcd_u16_spec(r@[i]@.primary_step, r@[i]@.secondary_step)
                    == self.num_cycles_value()
            },
    {
        proof {
            self.lemma_wf();
        }
        let moses = Mos::new_genesis(self.period, self.generator).children();
        proof {
            let v = moses@[0]@;
            lemma_children_chain(moses@, 0);
            assert(moses@.subrange(0, moses@.len() as int) =~= moses@);
            let p = self.period as nat;
            let g = self.generator as nat;
            lemma_mod_bound(g as int, p as int);
            math::lemma_gcd_subtract(p, g % p);
            math::lemma_gcd_symmetric((p - g % p) as nat, g % p);
            math::lemma_gcd_mod(g, p);
            math::lemma_gcd_symmetric(g % p, p);
            assert(gcd(v.primary_step, v.secondary_step) == gcd(p, g));
            assert forall|i: int| 0 <= i < moses@.len() implies {
                &&& (#[trigger] moses@[i])@.consistent()
                &&& moses@[i]@.in_range()
                &&& moses@[i]@.size == self.period_value()
                &&& math::gcd_u16_spec(moses@[i]@.primary_step, moses@[i]@.secondary_step)
                    == self.num_cycles_value()
            } by {
                lemma_children_invariants(v, i);
                assert(moses@.map_values(|m: Mos| m@)[i] == moses@[i]@);
                moses@[i].lemma_bounds();
            }
        }
        moses
    }
}


/// The sum of a sequence of sizes.
pub open spec fn seq_sum(sizes: Seq<nat>) -> nat
    decreases sizes.len(),
{
    if sizes.len() == 0 {
        0
    } else {
        seq_sum(sizes.drop_last()) + sizes.last()
    }
}

proof fn lemma_seq_sum_append(a: Seq<nat>, b: Seq<nat>)
    ensures
        seq_sum(a + b) == seq_sum(a) + seq_sum(b),
    decreases b.len(),
{
    if b.len() == 0 {
        assert(a + b =~= a);
    } else {
        assert((a + b).drop_last() =~= a + b.drop_last());
        lemma_seq_sum_append(a, b.drop_last());
    }
}

proof fn lemma_seq_sum_repeated(v: nat, n: nat)
    ensures
        seq_sum(repeated_nat(v, n)) == v * n,
    decreases n,
{
    if n == 0 {
        assert(v * n == 0) by (nonlinear_arith)
            requires
                n == 0,
        ;
    } else {
        assert(repeated_nat(v, n).drop_last() =~= repeated_nat(v, (n - 1) as nat));
        assert(repeated_nat(v, n).last() == v);
        lemma_seq_sum_repeated(v, (n - 1) as nat);
        assert(v * n == v * (n - 1) + v) by (nonlinear_arith)
            requires
                n > 0,
        ;
    }
}

proof fn lemma_seq_sum_reverse(a: Seq<nat>)
    ensures
        seq_sum(a.reverse()) == seq_sum(a),
    decreases a.len(),
{
    if a.len() > 0 {
        assert(a.reverse() =~= seq![a.last()] + a.drop_last().reverse());
        lemma_seq_sum_single(a.last());
        lemma_seq_sum_append(seq![a.last()], a.drop_last().reverse());
        lemma_seq_sum_reverse(a.drop_last());
    }
}

proof fn lemma_seq_sum_single(x: nat)
    ensures
        seq_sum(seq![x]) == x,
{
    let single = seq![x];
    assert(single.drop_last() =~= Seq::<nat>::empty());
    assert(single.last() == x);
    assert(seq_sum(Seq::<nat>::empty()) == 0);
    assert(seq_sum(single) == seq_sum(single.drop_last()) + single.last());
}

/// The expanded layers contain as many entries as the layer sizes add up to.
pub proof fn lemma_expand_layers_len(sizes: Seq<nat>)
    ensures
        expand_layers(sizes).len() == seq_sum(sizes),
    decreases sizes.len(),
{
    if sizes.len() > 0 {
        lemma_expand_layers_len(sizes.drop_last());
    }
}

/// Every layer number is below the number of non-empty layers.
pub proof fn lemma_expand_layers_bound(sizes: Seq<nat>, i: int)
    requires
        0 <= i < expand_layers(sizes).len(),
    ensures
        expand_layers(sizes)[i] < count_nonzero(sizes),
    decreases sizes.len(),
{
    if sizes.len() > 0 {
        let prev = sizes.drop_last();
        lemma_expand_layers_len(prev);
        if i < expand_layers(prev).len() {
            lemma_expand_layers_bound(prev, i);
        }
    }
}

/// The layers cover every step of the reduced MOS exactly once:
/// `primary_step / n * num_primary_steps + secondary_step / n * num_secondary_steps` entries, where
/// `n` is the number of cycles.
pub proof fn lemma_layer_sizes_sum(v: MosView)
    requires
        v.primary_step > 0 || v.secondary_step > 0,
    ensures
        ({
            let n = math::gcd_u16_spec(v.primary_step, v.secondary_step);
            seq_sum(v.layer_sizes()) == (v.primary_step / n) * v.num_primary_steps + (
            v.secondary_step / n) * v.num_secondary_steps
        }),
{
    let n = math::gcd_u16_spec(v.primary_step, v.secondary_step);
    math::lemma_gcd_zero(v.primary_step, v.secondary_step);
    math::lemma_gcd_divides(v.primary_step, v.secondary_step);
    if v.primary_step > 0 {
        lemma_divided_by_divisor(v.primary_step as int, n as int);
    }
    if v.secondary_step > 0 {
        lemma_divided_by_divisor(v.secondary_step as int, n as int);
    }
    let np = v.num_primary_steps;
    let ns = v.num_secondary_steps;
    let natural_primary: nat = if v.primary_step > 0 {
        1
    } else {
        0
    };
    let natural_secondary: nat = if v.secondary_step > 0 {
        1
    } else {
        0
    };
    let non_p = (v.primary_step / n - natural_primary) as nat;
    let non_s = (v.secondary_step / n - natural_secondary) as nat;
    let ip = non_p / 2;
    let is = non_s / 2;
    let both = if ip < is {
        ip
    } else {
        is
    };
    let only_p = if ip > is {
        (ip - is) as nat
    } else {
        0
    };
    let only_s = if is > ip {
        (is - ip) as nat
    } else {
        0
    };
    let inter = repeated_nat(np + ns, both) + repeated_nat(np, only_p) + repeated_nat(ns, only_s);
    let nat_size = natural_primary * np + natural_secondary * ns;
    let enh_size = (non_p % 2) * np + (non_s % 2) * ns;
    assert(v.layer_sizes() == seq![nat_size] + inter + seq![enh_size] + inter.reverse());
    lemma_seq_sum_repeated(np + ns, both);
    lemma_seq_sum_repeated(np, only_p);
    lemma_seq_sum_repeated(ns, only_s);
    lemma_seq_sum_append(repeated_nat(np + ns, both), repeated_nat(np, only_p));
    lemma_seq_sum_append(repeated_nat(np + ns, both) + repeated_nat(np, only_p), repeated_nat(ns, only_s));
    lemma_seq_sum_reverse(inter);
    lemma_seq_sum_append(seq![nat_size], inter);
    lemma_seq_sum_append(seq![nat_size] + inter, seq![enh_size]);
    lemma_seq_sum_append(seq![nat_size] + inter + seq![enh_size], inter.reverse());
    lemma_seq_sum_single(nat_size);
    lemma_seq_sum_single(enh_size);
    assert(seq_sum(v.layer_sizes()) == nat_size + seq_sum(inter) + enh_size + seq_sum(inter));
    assert(seq_sum(inter) == ip * np + is * ns) by (nonlinear_arith)
        requires
            seq_sum(inter) == (np + ns) * both + np * only_p + ns * only_s,
            both == (if ip < is { ip } else { is }),
            only_p == (if ip > is { ip - is } else { 0 }),
            only_s == (if is > ip { is - ip } else { 0 }),
    ;
    lemma_fundamental_div_mod(non_p as int, 2);
    lemma_fundamental_div_mod(non_s as int, 2);
    assert(nat_size + 2 * (ip * np + is * ns) + enh_size == (v.primary_step / n) * np + (
    v.secondary_step / n) * ns) by (nonlinear_arith)
        requires
            nat_size == natural_primary * np + natural_secondary * ns,
            enh_size == (non_p % 2) * np + (non_s % 2) * ns,
            non_p == 2 * ip + non_p % 2,
            non_s == 2 * is + non_s % 2,
            non_p + natural_primary == v.primary_step / n,
            non_s + natural_secondary == v.secondary_step / n,
    ;
}

/// A child MOS keeps the gcd of the step sizes.
pub proof fn lemma_child_keeps_gcd(m: MosView)
    requires
        m.child() is Some,
    ensures
        gcd(m.child()->0.primary_step, m.child()->0.secondary_step) == gcd(
            m.primary_step,
            m.secondary_step,
        ),
{
    if m.primary_step > m.secondary_step {
        math::lemma_gcd_subtract(m.primary_step, m.secondary_step);
    } else {
        math::lemma_gcd_subtract(m.secondary_step, m.primary_step);
        math::lemma_gcd_symmetric(m.primary_step, m.secondary_step);
        math::lemma_gcd_symmetric(
            (m.secondary_step - m.primary_step) as nat,
            m.primary_step,
        );
    }
}


/// A MOS followed by all of its children.
pub open spec fn children_views(v: MosView) -> Seq<MosView>
    decreases v.primary_step + v.secondary_step,
{
    match v.child() {
        Some(c) => seq![v] + children_views(c),
        None => seq![v],
    }
}

/// A vector that starts with `v`, continues child by child and ends where no child exists lists
/// exactly `children_views(v)`.
pub proof fn lemma_children_chain(chain: Seq<Mos>, i: int)
    requires
        0 <= i < chain.len(),
        forall|j: int| 0 <= j < chain.len() - 1 ==> (#[trigger] chain[j])@.child() == Some(chain[j + 1]@),
        chain.last()@.child() is None,
    ensures
        chain.subrange(i, chain.len() as int).map_values(|m: Mos| m@) == children_views(chain[i]@),
    decreases chain.len() - i,
{
    let rest = chain.subrange(i, chain.len() as int).map_values(|m: Mos| m@);
    if i == chain.len() - 1 {
        assert(rest =~= seq![chain[i]@]);
    } else {
        lemma_children_chain(chain, i + 1);
        let tail = chain.subrange(i + 1, chain.len() as int).map_values(|m: Mos| m@);
        assert(rest =~= seq![chain[i]@] + tail);
    }
}

/// Along a chain of children the total size and the gcd of the step sizes stay the same.
pub proof fn lemma_children_invariants(v: MosView, k: int)
    requires
        v.consistent(),
        v.in_range(),
        0 <= k < children_views(v).len(),
    ensures
        children_views(v)[k].consistent(),
        children_views(v)[k].in_range(),
        children_views(v)[k].size == v.size,
        gcd(children_views(v)[k].primary_step, children_views(v)[k].secondary_step) == gcd(
            v.primary_step,
            v.secondary_step,
        ),
    decreases v.primary_step + v.secondary_step,
{
    match v.child() {
        Some(c) => {
            if k > 0 {
                lemma_child_keeps_size(v);
                lemma_child_keeps_gcd(v);
                lemma_children_invariants(c, k - 1);
                assert(children_views(v)[k] == children_views(c)[k - 1]);
            }
        },
        None => {
        },
    }
}

/// Extended Euclidean algorithm: returns `gcd(a, b)` together with Bezout coefficients.
pub(crate) fn extended_gcd(a: i32, b: i32) -> (r: (i32, i32, i32))
    requires
        0 < a <= u16::MAX,
        0 <= b <= u16::MAX,
    ensures
        r.0 == gcd(a as nat, b as nat),
        r.0 == a * r.1 + b * r.2,
{
    let mut gcd_pair = (a, b);
    let mut a_inv = (1i32, 0i32);
    let mut b_inv = (0i32, 1i32);
    assert(abs(1) == 1 && abs(0) == 0);
    assert(a * 1 + b * 0 == a && a * 0 + b * 1 == b) by (nonlinear_arith);
    while gcd_pair.1 != 0
        invariant
            0 < gcd_pair.0,
            0 <= gcd_pair.1,
            gcd(gcd_pair.0 as nat, gcd_pair.1 as nat) == gcd(a as nat, b as nat),
            gcd_pair.0 == a * a_inv.0 + b * b_inv.0,
            gcd_pair.1 == a * a_inv.1 + b * b_inv.1,
            abs(a_inv.0 as int) * gcd_pair.1 + abs(a_inv.1 as int) * gcd_pair.0 <= b,
            abs(b_inv.0 as int) * gcd_pair.1 + abs(b_inv.1 as int) * gcd_pair.0 <= a,
            0 < a <= u16::MAX,
            0 <= b <= u16::MAX,
        decreases gcd_pair.1,
    {
        let (r0, r1) = gcd_pair;
        let (s0, s1) = a_inv;
        let (t0, t1) = b_inv;
        let q = r0 / r1;
        proof {
            lemma_euclid_step(r0 as int, r1 as int, s0 as int, s1 as int, b as int);
            lemma_euclid_step(r0 as int, r1 as int, t0 as int, t1 as int, a as int);
            lemma_fundamental_div_mod(r0 as int, r1 as int);
            lemma_mod_bound(r0 as int, r1 as int);
            lemma_mul_is_commutative(q as int, r1 as int);
            assert(r0 - q * r1 == r0 % r1);
            assert(r0 - q * r1 == a * (s0 - q * s1) + b * (t0 - q * t1)) by (nonlinear_arith)
                requires
                    r0 == a * s0 + b * t0,
                    r1 == a * s1 + b * t1,
            ;
        }
        gcd_pair = (r1, r0 - q * r1);
        a_inv = (s1, s0 - q * s1);
        b_inv = (t1, t0 - q * t1);
    }
    (gcd_pair.0, a_inv.0, b_inv.0)
}

/// Absolute value of an integer.
pub open spec fn abs(x: int) -> int {
    if x < 0 {
        -x
    } else {
        x
    }
}

/// One step of the extended Euclidean algorithm keeps the coefficients small: with `q = r0 / r1`,
/// the product `q * s1` is bounded by `bound`, and the bound invariant carries over.
proof fn lemma_euclid_step(r0: int, r1: int, s0: int, s1: int, bound: int)
    requires
        r0 > 0,
        r1 > 0,
        abs(s0) * r1 + abs(s1) * r0 <= bound,
    ensures
        abs((r0 / r1) * s1) <= bound,
        abs(s0 - (r0 / r1) * s1) <= bound,
        abs(s1) * (r0 % r1) + abs(s0 - (r0 / r1) * s1) * r1 <= bound,
{
    lemma_fundamental_div_mod(r0, r1);
    lemma_mod_bound(r0, r1);
    let q = r0 / r1;
    let m = r0 % r1;
    assert(q >= 0) by {
        lemma_div_pos_is_pos(r0, r1);
    }
    assert(abs(q * s1) == q * abs(s1)) by (nonlinear_arith)
        requires
            q >= 0,
    ;
    assert(abs(s0 - q * s1) <= abs(s0) + q * abs(s1)) by (nonlinear_arith)
        requires
            q >= 0,
    ;
    assert(q * abs(s1) * r1 <= abs(s1) * r0) by (nonlinear_arith)
        requires
            r0 == r1 * q + m,
            m >= 0,
            q >= 0,
    ;
    assert(q * abs(s1) <= bound) by (nonlinear_arith)
        requires
            q * abs(s1) * r1 <= abs(s1) * r0,
            abs(s0) * r1 + abs(s1) * r0 <= bound,
            r1 >= 1,
            q >= 0,
    {
        assert(abs(s0) * r1 >= 0);
        assert(q * abs(s1) <= q * abs(s1) * r1);
    }
    assert(abs(s0) + q * abs(s1) <= bound) by (nonlinear_arith)
        requires
            q * abs(s1) * r1 <= abs(s1) * r0,
            abs(s0) * r1 + abs(s1) * r0 <= bound,
            r1 >= 1,
            q >= 0,
    {
        assert(abs(s0) <= abs(s0) * r1);
        assert(q * abs(s1) <= q * abs(s1) * r1);
    }
    assert(abs(s1) * m + abs(s0 - q * s1) * r1 <= bound) by (nonlinear_arith)
        requires
            abs(s0 - q * s1) <= abs(s0) + q * abs(s1),
            r0 == r1 * q + m,
            abs(s0) * r1 + abs(s1) * r0 <= bound,
            r1 >= 1,
            m >= 0,
            q >= 0,
    ;
}

} // verus!
