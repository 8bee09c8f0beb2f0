//! Note names along the chain of generators of a rank-2 temperament.
use vstd::prelude::*;
use vstd::arithmetic::div_mod::*;
use vstd::arithmetic::mul::*;
use vstd::string::StringExecFns;
use crate::math::{self, gcd_u16_spec};
use crate::pergen::{extended_gcd, lemma_bezout_gives_inverse};
use crate::text::{push_char, push_repeated};

verus! {

/// A period divided into equally sized steps, together with the generator.
#[derive(Clone, Debug)]
pub struct PerGen {
    period: u16,
    generator: u16,
    num_cycles: u16,
}

impl PerGen {
    /// The period measured in steps.
    pub closed spec fn period_value(self) -> u16 {
        self.period
    }

    /// The generator measured in steps.
    pub closed spec fn generator_value(self) -> u16 {
        self.generator
    }

    /// The number of independent genchains.
    pub open spec fn cycles(self) -> int {
        gcd_u16_spec(self.period_value() as nat, self.generator_value() as nat) as int
    }

    /// The number of steps within one cycle.
    pub open spec fn steps_per_cycle(self) -> int {
        self.period_value() as int / self.cycles()
    }

    /// The internal consistency of a [`PerGen`].
    pub closed spec fn wf(self) -> bool {
        self.num_cycles == gcd_u16_spec(self.period as nat, self.generator as nat)
    }

    pub fn new(period: u16, generator: u16) -> (r: Self)
        ensures
            r.wf(),
            r.period_value() == period,
            r.generator_value() == generator,
    {
        Self { period, generator, num_cycles: math::gcd_u16(period, generator) }
    }

    pub fn period(&self) -> (r: u16)
        ensures
            r == self.period_value(),
    {
        self.period
    }

    pub fn num_cycles(&self) -> (r: u16)
        requires
            self.wf(),
        ensures
            r == self.cycles(),
            r >= 1,
    {
        self.num_cycles
    }

    pub fn num_steps_per_cycle(&self) -> (r: u16)
        requires
            self.wf(),
        ensures
            r == self.steps_per_cycle(),
    {
        self.period / self.num_cycles
    }

    /// The genchain position of the key at `index`: walking this many generators along the cycle
    /// of `index` reaches it, modulo the steps of a cycle.
    pub fn get_generation(&self, index: i32) -> (r: u16)
        requires
            self.wf(),
            self.period_value() > 0,
        ensures
            r < self.steps_per_cycle(),
            ((self.generator_value() as int / self.cycles()) * r) % self.steps_per_cycle() == (index as int
                / self.cycles()) % self.steps_per_cycle(),
    {
        let num_cycles = self.num_cycles;
        proof {
            math::lemma_gcd_zero(self.period as nat, self.generator as nat);
            math::lemma_gcd_divides(self.period as nat, self.generator as nat);
            lemma_div_pos_is_pos(self.period as int, num_cycles as int);
            lemma_div_is_ordered_by_denominator(self.period as int, 1, num_cycles as int);
        }
        let reduced_period = self.period / num_cycles;
        assert(reduced_period >= 1) by {
            lemma_fundamental_div_mod(self.period as int, num_cycles as int);
            if reduced_period == 0 {
                assert(self.period as int == num_cycles * 0 + self.period as int % num_cycles as int);
            }
        }
        let reduced_index = math::i32_div_u(index, num_cycles);
        let (gcd, bezout_s, bezout_t) = extended_gcd(self.period as i32, self.generator as i32);
        proof {
            lemma_bezout_gives_inverse(
                self.period as int,
                self.generator as int,
                gcd as int,
                bezout_s as int,
                bezout_t as int,
            );
        }
        let inverse = math::i32_rem_u(bezout_t, reduced_period);
        assert(-0x8000_0000_0000 <= inverse as i64 * reduced_index as i64 <= 0x7fff_ffff_ffff) by (nonlinear_arith)
            requires
                0 <= inverse <= u16::MAX,
                i32::MIN <= reduced_index <= i32::MAX,
        ;
        let product: i64 = inverse as i64 * reduced_index as i64;
        let generation = match product.checked_rem_euclid(reduced_period as i64) {
            Some(value) => value as u16,
            None => 0,
        };
        proof {
            let p = reduced_period as int;
            let g = (self.generator / num_cycles) as int;
            let i = reduced_index as int;
            let inv = inverse as int;
            lemma_mod_bound(product as int, p);
            assert((g * inv) % p == 1int % p);
            lemma_mul_mod_noop_right(g, inv * i, p);
            lemma_mul_is_associative(g, inv, i);
            lemma_mul_mod_noop_left(g * inv, i, p);
            lemma_mul_mod_noop_left(1int, i, p);
        }
        generation
    }

    /// The cycle of the key at `index`.
    pub fn get_cycle(&self, index: i32) -> (r: u16)
        requires
            self.wf(),
        ensures
            r == index as int % self.cycles(),
    {
        proof {
            math::lemma_gcd_zero(self.period as nat, self.generator as nat);
        }
        math::i32_rem_u(index, self.num_cycles)
    }
}

/// Renders note names from the position of a key within the genchain.
#[derive(Clone, Debug)]
pub struct NoteFormatter {
    pub note_names: &'static [&'static str],
    pub genchain_origin: i16,
    pub next_cycle_sign: char,
    pub prev_cycle_sign: char,
    pub sharpness: i16,
}

/// The sign that marks one cycle.
pub open spec fn cycle_mark() -> char {
    '\u{25b2}'
}

/// `count` copies of `c`.
pub open spec fn repeated(c: char, count: nat) -> Seq<char> {
    Seq::new(count, |_i: int| c)
}

impl NoteFormatter {
    /// One note: a cycle mark per cycle, the name at the genchain position and the accidentals.
    pub open spec fn note_text(self, generation: int, cycle: nat, num_accidentals: nat, accidental: char) -> Seq<
        char,
    > {
        repeated(cycle_mark(), cycle) + self.note_names@[generation % (self.note_names@.len() as int)]@
            + repeated(accidental, num_accidentals)
    }

    /// The genchain position counted upwards from the origin and downwards from the next origin.
    pub open spec fn positions(self, per_gen: PerGen, index: i32) -> (int, int) {
        let up = self.genchain_origin + generation_of(per_gen, index);
        (up, up - per_gen.steps_per_cycle())
    }

    /// The name that [`NoteFormatter::get_name_by_step`] renders.
    pub open spec fn name_by_step(self, per_gen: PerGen, index: i32) -> Seq<char> {
        let (up, down) = self.positions(per_gen, index);
        let num_notes = self.note_names@.len() as int;
        let cycle = (index as int % per_gen.cycles()) as nat;
        let num_sharps = (up / num_notes) as nat;
        let num_flats = (-(down / num_notes)) as nat;
        let sharp = self.note_text(up, cycle, num_sharps, self.next_cycle_sign);
        let flat = self.note_text(down, cycle, num_flats, self.prev_cycle_sign);
        if up == self.genchain_origin {
            self.note_text(up, cycle, 0, '\0')
        } else if num_flats < num_sharps {
            flat
        } else if num_flats > num_sharps {
            sharp
        } else if self.sharpness > 0 {
            sharp + seq![' ', '/', ' '] + flat
        } else {
            flat + seq![' ', '/', ' '] + sharp
        }
    }

    /// Whether the name of the key at `index` can be rendered: the accidental counts fit in a
    /// `u16`.
    pub open spec fn name_fits(self, per_gen: PerGen, index: i32) -> bool {
        let (up, down) = self.positions(per_gen, index);
        let num_notes = self.note_names@.len() as int;
        &&& up != self.genchain_origin ==> 0 <= up / num_notes <= u16::MAX
        &&& up != self.genchain_origin ==> 0 <= -(down / num_notes) <= u16::MAX
    }

    /// Renders the name of the key at `index`: the spelling with fewer accidentals, or both
    /// spellings, sharp first for a positive sharpness.
    pub fn get_name_by_step(&self, per_gen: &PerGen, index: i32) -> (r: String)
        requires
            per_gen.wf(),
            per_gen.period_value() > 0,
            0 < self.note_names@.len() <= i32::MAX,
            self.name_fits(*per_gen, index),
        ensures
            r@ == self.name_by_step(*per_gen, index),
    {
        let num_notes = self.note_names.len() as i32;
        let generation = per_gen.get_generation(index);
        proof {
            lemma_generation_is_spec(*per_gen, index, generation);
        }
        let up_generation = generation as i32 + self.genchain_origin as i32;
        let down_generation = up_generation - per_gen.num_steps_per_cycle() as i32;
        let cycle = per_gen.get_cycle(index);
        if up_generation == self.genchain_origin as i32 {
            return self.format_note(up_generation, cycle, 0, '\0');
        }
        let num_sharps = math::i32_div_u(up_generation, num_notes as u32) as u16;
        let num_flats = (-math::i32_div_u(down_generation, num_notes as u32)) as u16;
        if num_flats < num_sharps {
            self.format_note(down_generation, cycle, num_flats, self.prev_cycle_sign)
        } else if num_flats > num_sharps {
            self.format_note(up_generation, cycle, num_sharps, self.next_cycle_sign)
        } else if self.sharpness > 0 {
            let mut name = self.format_note(up_generation, cycle, num_sharps, self.next_cycle_sign);
            name.append(" / ");
            let flat = self.format_note(down_generation, cycle, num_flats, self.prev_cycle_sign);
            name.append(flat.as_str());
            proof {
                reveal_strlit(" / ");
            }
            name
        } else {
            let mut name = self.format_note(down_generation, cycle, num_flats, self.prev_cycle_sign);
            name.append(" / ");
            let sharp = self.format_note(up_generation, cycle, num_sharps, self.next_cycle_sign);
            name.append(sharp.as_str());
            proof {
                reveal_strlit(" / ");
            }
            name
        }
    }

    fn format_note(&self, generation: i32, cycle: u16, num_accidentals: u16, accidental: char) -> (r: String)
        requires
            0 < self.note_names@.len() <= i32::MAX,
        ensures
            r@ == self.note_text(generation as int, cycle as nat, num_accidentals as nat, accidental),
    {
        let mut formatted = String::new();
        push_repeated(&mut formatted, '\u{25b2}', cycle);
        formatted.append(self.note_name(generation));
        push_repeated(&mut formatted, accidental, num_accidentals);
        formatted
    }

    fn note_name(&self, generation: i32) -> (r: &'static str)
        requires
            0 < self.note_names@.len() <= i32::MAX,
        ensures
            r == self.note_names@[generation as int % (self.note_names@.len() as int)],
    {
        let index = math::i32_rem_u(generation, self.note_names.len() as u32);
        self.note_names[index as usize]
    }
}

/// The genchain position of the key at `index` (see [`PerGen::get_generation`]): the multiple of
/// the reduced generator's inverse that reaches the reduced index.
pub open spec fn generation_of(per_gen: PerGen, index: i32) -> int {
    choose|generation: int| #[trigger] reaches(per_gen, index, generation)
}

/// `generation` generator steps, within one cycle, lead to the key at `index`.
pub open spec fn reaches(per_gen: PerGen, index: i32, generation: int) -> bool {
    &&& 0 <= generation < per_gen.steps_per_cycle()
    &&& ((per_gen.generator_value() as int / per_gen.cycles()) * generation) % per_gen.steps_per_cycle()
        == (index as int / per_gen.cycles()) % per_gen.steps_per_cycle()
}

/// The value of [`PerGen::get_generation`] is the unique genchain position.
proof fn lemma_generation_is_spec(per_gen: PerGen, index: i32, generation: u16)
    requires
        per_gen.period_value() > 0,
        generation < per_gen.steps_per_cycle(),
        ((per_gen.generator_value() as int / per_gen.cycles()) * generation) % per_gen.steps_per_cycle() == (
        index as int / per_gen.cycles()) % per_gen.steps_per_cycle(),
    ensures
        generation_of(per_gen, index) == generation,
{
    let p = per_gen.steps_per_cycle();
    let g = per_gen.generator_value() as int / per_gen.cycles();
    assert(reaches(per_gen, index, generation as int));
    let other = generation_of(per_gen, index);
    assert(0 <= other < p && (g * other) % p == (g * generation) % p);
    math::lemma_gcd_zero(per_gen.period_value() as nat, per_gen.generator_value() as nat);
    math::lemma_gcd_of_quotients(per_gen.period_value() as nat, per_gen.generator_value() as nat);
    math::lemma_gcd_symmetric(p as nat, g as nat);
    if other < generation {
        lemma_coprime_cancel(g, p, generation as int, other);
    } else {
        lemma_coprime_cancel(g, p, other, generation as int);
    }
}

/// Multiplication by a number that is coprime to the modulus is injective on residues.
proof fn lemma_coprime_cancel(g: int, p: int, x: int, y: int)
    requires
        p > 0,
        g >= 0,
        math::gcd(g as nat, p as nat) == 1,
        0 <= y <= x < p,
        (g * x) % p == (g * y) % p,
    ensures
        x == y,
{
    {
        let d = x - y;
        lemma_sub_mod_noop(g * x, g * y, p);
        lemma_mul_is_distributive_sub(g, x, y);
        assert(0int % p == 0) by {
            lemma_small_mod(0, p as nat);
        }
        assert((g * d) % p == 0);
        math::lemma_gcd_scale(g as nat, p as nat, d as nat);
        lemma_mul_is_commutative(d, g);
        lemma_mul_nonnegative(d, g);
        lemma_mul_nonnegative(d, p);
        if d > 0 {
            lemma_mod_multiples_basic(d, p);
            lemma_mul_is_commutative(d, p);
            math::lemma_common_divisor_divides_gcd((d * g) as nat, (d * p) as nat, p as nat);
            assert(d % p == 0);
            lemma_small_mod(d as nat, p as nat);
        }
    }
}

} // verus!
