//! Commas given by their prime factorization.
use vstd::prelude::*;

verus! {

/// The primes below 256, in increasing order.
const U8_PRIMES: [u8; 54] = [
    2, 3, 5, 7, 11, 13, 17, 19, 23, 29, 31, 37, 41, 43, 47, 53, 59, 61, 67, 71, 73, 79, 83, 89, 97,
    101, 103, 107, 109, 113, 127, 131, 137, 139, 149, 151, 157, 163, 167, 173, 179, 181, 191, 193,
    197, 199, 211, 223, 227, 229, 233, 239, 241, 251,
];

/// The primes below 256, in increasing order.
pub open spec fn u8_primes() -> Seq<u8> {
    seq![
        2u8, 3, 5, 7, 11, 13, 17, 19, 23, 29, 31, 37, 41, 43, 47, 53, 59, 61, 67, 71, 73, 79, 83, 89,
        97, 101, 103, 107, 109, 113, 127, 131, 137, 139, 149, 151, 157, 163, 167, 173, 179, 181, 191,
        193, 197, 199, 211, 223, 227, 229, 233, 239, 241, 251,
    ]
}

/// `base` raised to the power `exp`.
pub open spec fn power(base: nat, exp: nat) -> nat
    decreases exp,
{
    if exp == 0 {
        1
    } else {
        base * power(base, (exp - 1) as nat)
    }
}

/// The numerator and denominator of the ratio whose prime exponents are `monzo`: the i-th entry is
/// the exponent of the i-th prime; entries beyond the primes below 256 are ignored.
pub open spec fn monzo_fraction(monzo: Seq<i16>) -> (nat, nat)
    decreases monzo.len(),
{
    if monzo.len() == 0 {
        (1, 1)
    } else {
        let (numer, denom) = monzo_fraction(monzo.drop_last());
        let index = monzo.len() - 1;
        let exponent = monzo.last() as int;
        if index >= 54 {
            (numer, denom)
        } else if exponent >= 0 {
            (numer * power(u8_primes()[index] as nat, exponent as nat), denom)
        } else {
            (numer, denom * power(u8_primes()[index] as nat, (-exponent) as nat))
        }
    }
}

/// A comma: a small interval described by its prime factorization.
pub struct Comma {
    description: &'static str,
    monzo: &'static [i16],
}

impl Comma {
    /// The description of the comma.
    pub closed spec fn description_value(self) -> &'static str {
        self.description
    }

    /// The prime exponents of the comma.
    pub closed spec fn monzo_value(self) -> Seq<i16> {
        self.monzo@
    }

    /// Creates a comma from its description and prime exponents.
    pub fn from_monzo(description: &'static str, monzo: &'static [i16]) -> (r: Self)
        ensures
            r.description_value() == description,
            r.monzo_value() == monzo@,
    {
        Self { description, monzo }
    }

    pub fn description(&self) -> (r: &str)
        ensures
            r == self.description_value(),
    {
        self.description
    }

    /// Returns the prime factor representation of a [`Comma`].
    pub fn monzo(&self) -> (r: &'static [i16])
        ensures
            r@ == self.monzo_value(),
    {
        self.monzo
    }

    /// Returns the numerator and denominator of the [`Comma`].
    pub fn as_fraction(&self) -> (r: (u64, u64))
        requires
            monzo_fraction(self.monzo_value()).0 <= u64::MAX,
            monzo_fraction(self.monzo_value()).1 <= u64::MAX,
        ensures
            (r.0 as nat, r.1 as nat) == monzo_fraction(self.monzo_value()),
    {
        let monzo = self.monzo;
        let num_factors = if monzo.len() < 54 {
            monzo.len()
        } else {
            54
        };
        proof {
            lemma_fraction_ignores_tail(monzo@);
        }
        let ghost limited = monzo@.take(num_factors as int);
        let mut numer: u64 = 1;
        let mut denom: u64 = 1;
        let mut i: usize = 0;
        assert(limited.take(0) =~= Seq::<i16>::empty());
        while i < num_factors
            invariant
                num_factors <= 54,
                num_factors <= monzo@.len(),
                limited == monzo@.take(num_factors as int),
                monzo_fraction(limited) == monzo_fraction(monzo@),
                monzo_fraction(limited).0 <= u64::MAX,
                monzo_fraction(limited).1 <= u64::MAX,
                i <= num_factors,
                (numer as nat, denom as nat) == monzo_fraction(limited.take(i as int)),
            decreases num_factors - i,
        {
            let exponent = monzo[i];
            let prime = U8_PRIMES[i] as u64;
            let ghost before = limited.take(i as int);
            let ghost after = limited.take(i + 1);
            assert(after.drop_last() =~= before);
            assert(after.last() == exponent);
            proof {
                lemma_u8_primes_value(i as int);
                lemma_fraction_prefix(limited, i + 1);
                lemma_fraction_positive(before);
            }
            if exponent >= 0 {
                proof {
                    lemma_factor_bound(numer as nat, power(prime as nat, exponent as nat));
                }
                let factor = pow_u64(prime, exponent as u32);
                numer = numer * factor;
            } else {
                let magnitude = (-(exponent as i32)) as u32;
                proof {
                    lemma_factor_bound(denom as nat, power(prime as nat, magnitude as nat));
                }
                let factor = pow_u64(prime, magnitude);
                denom = denom * factor;
            }
            i = i + 1;
        }
        assert(limited.take(num_factors as int) =~= limited);
        (numer, denom)
    }
}

/// The exec table of primes agrees with [`u8_primes`].
proof fn lemma_u8_primes_value(i: int)
    requires
        0 <= i < 54,
    ensures
        U8_PRIMES@[i] == u8_primes()[i],
{
    assert(U8_PRIMES@ =~= u8_primes());
}

/// Raises `base` to the power `exp` by repeated multiplication.
fn pow_u64(base: u64, exp: u32) -> (r: u64)
    requires
        base >= 1,
        power(base as nat, exp as nat) <= u64::MAX,
    ensures
        r == power(base as nat, exp as nat),
{
    let mut result: u64 = 1;
    let mut i: u32 = 0;
    while i < exp
        invariant
            i <= exp,
            base >= 1,
            power(base as nat, exp as nat) <= u64::MAX,
            result == power(base as nat, i as nat),
        decreases exp - i,
    {
        proof {
            lemma_power_monotone(base as nat, (i + 1) as nat, exp as nat);
            assert(power(base as nat, (i + 1) as nat) == base * power(base as nat, i as nat));
            assert(result * base == base * result) by (nonlinear_arith);
        }
        result = result * base;
        i = i + 1;
    }
    result
}

/// Powers of a base of at least 1 grow with the exponent.
proof fn lemma_power_monotone(base: nat, i: nat, j: nat)
    requires
        base >= 1,
        i <= j,
    ensures
        1 <= power(base, i) <= power(base, j),
    decreases j,
{
    if j > 0 {
        if i < j {
            lemma_power_monotone(base, i, (j - 1) as nat);
        } else {
            lemma_power_monotone(base, (i - 1) as nat, (j - 1) as nat);
        }
        let p = power(base, (j - 1) as nat);
        assert(p <= base * p) by (nonlinear_arith)
            requires
                base >= 1,
                p >= 1,
        ;
    }
}

/// Multiplying by a factor of at least 1 keeps the factor and the product bounded by the product.
proof fn lemma_factor_bound(value: nat, factor: nat)
    requires
        value >= 1,
    ensures
        factor <= value * factor,
{
    assert(factor <= value * factor) by (nonlinear_arith)
        requires
            value >= 1,
    ;
}

/// Numerator and denominator are positive.
proof fn lemma_fraction_positive(monzo: Seq<i16>)
    ensures
        monzo_fraction(monzo).0 >= 1,
        monzo_fraction(monzo).1 >= 1,
    decreases monzo.len(),
{
    if monzo.len() > 0 {
        lemma_fraction_positive(monzo.drop_last());
        let index = monzo.len() - 1;
        if index < 54 {
            let exponent = monzo.last() as int;
            let prime = u8_primes()[index] as nat;
            assert(prime >= 2) by {
                reveal_with_fuel(u8_primes, 1);
            }
            let e = if exponent >= 0 {
                exponent as nat
            } else {
                (-exponent) as nat
            };
            lemma_power_monotone(prime, 0, e);
            let (numer, denom) = monzo_fraction(monzo.drop_last());
            lemma_factor_bound(power(prime, e), numer);
            lemma_factor_bound(power(prime, e), denom);
            assert(numer * power(prime, e) >= 1) by (nonlinear_arith)
                requires
                    numer >= 1,
                    power(prime, e) >= 1,
            ;
            assert(denom * power(prime, e) >= 1) by (nonlinear_arith)
                requires
                    denom >= 1,
                    power(prime, e) >= 1,
            ;
        }
    }
}

/// Numerator and denominator of a prefix do not exceed those of the whole monzo.
proof fn lemma_fraction_prefix(monzo: Seq<i16>, i: int)
    requires
        0 <= i <= monzo.len(),
    ensures
        monzo_fraction(monzo.take(i)).0 <= monzo_fraction(monzo).0,
        monzo_fraction(monzo.take(i)).1 <= monzo_fraction(monzo).1,
    decreases monzo.len() - i,
{
    if i < monzo.len() {
        lemma_fraction_prefix(monzo, i + 1);
        let longer = monzo.take(i + 1);
        assert(longer.drop_last() =~= monzo.take(i));
        lemma_fraction_positive(monzo.take(i));
        let index = i;
        if index < 54 {
            let exponent = longer.last() as int;
            let prime = u8_primes()[index] as nat;
            assert(prime >= 2) by {
                reveal_with_fuel(u8_primes, 1);
            }
            let e = if exponent >= 0 {
                exponent as nat
            } else {
                (-exponent) as nat
            };
            lemma_power_monotone(prime, 0, e);
            let (numer, denom) = monzo_fraction(monzo.take(i));
            lemma_factor_bound(power(prime, e), numer);
            lemma_factor_bound(power(prime, e), denom);
            assert(numer <= numer * power(prime, e)) by (nonlinear_arith)
                requires
                    power(prime, e) >= 1,
            ;
            assert(denom <= denom * power(prime, e)) by (nonlinear_arith)
                requires
                    power(prime, e) >= 1,
            ;
        }
    } else {
        assert(monzo.take(i) =~= monzo);
    }
}

/// Exponents beyond the primes below 256 do not contribute.
proof fn lemma_fraction_ignores_tail(monzo: Seq<i16>)
    ensures
        monzo_fraction(monzo.take(if monzo.len() < 54 { monzo.len() as int } else { 54 })) == monzo_fraction(monzo),
    decreases monzo.len(),
{
    if monzo.len() <= 54 {
        assert(monzo.take(monzo.len() as int) =~= monzo);
    } else {
        lemma_fraction_ignores_tail(monzo.drop_last());
        assert(monzo.drop_last().take(54) =~= monzo.take(54));
    }
}

/// The largest prime of a prime factorization with `len` entries over the primes below 256, 1 if
/// there are none.
pub open spec fn prime_limit_of(len: nat) -> int {
    if len == 0 {
        1
    } else {
        u8_primes()[len - 1] as int
    }
}

/// The largest prime of a prime factorization with `len` entries, 1 if there are none.
pub(crate) fn prime_limit_of_len(len: usize) -> (r: u8)
    requires
        len <= 54,
    ensures
        r == prime_limit_of(len as nat),
{
    if len == 0 {
        1
    } else {
        proof {
            lemma_u8_primes_value(len - 1);
        }
        U8_PRIMES[len - 1]
    }
}

impl Comma {
    /// The largest prime of the comma's prime factorization.
    pub(crate) fn prime_limit(&self) -> (r: u8)
        requires
            self.monzo_value().len() <= 54,
        ensures
            r == prime_limit_of(self.monzo_value().len()),
    {
        prime_limit_of_len(self.monzo.len())
    }
}

} // verus!
