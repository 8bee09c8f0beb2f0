//! Specialized integer operations missing from the standard library.
use vstd::prelude::*;
use vstd::arithmetic::div_mod::*;
use vstd::arithmetic::mul::*;

verus! {

/// Greatest common divisor following Euclid's algorithm (`gcd(a, 0) == a`).
pub open spec fn gcd(a: nat, b: nat) -> nat
    decreases b,
{
    if b == 0 {
        a
    } else {
        gcd(b, a % b)
    }
}

/// `d` divides `n`.
pub open spec fn divides(d: nat, n: nat) -> bool {
    exists|k: nat| #[trigger] (k * d) == n
}

/// The value of [`gcd_u16`]: the greatest common divisor, but never 0.
pub open spec fn gcd_u16_spec(x: nat, y: nat) -> nat {
    if gcd(x, y) == 0 {
        1
    } else {
        gcd(x, y)
    }
}

/// The number that remains after removing all powers of two (0 stays 0).
pub open spec fn odd_part(n: nat) -> nat
    decreases n,
{
    if n == 0 {
        0
    } else if n % 2 == 0 {
        odd_part(n / 2)
    } else {
        n
    }
}

/// `2^k`.
pub open spec fn pow2(k: nat) -> nat
    decreases k,
{
    if k == 0 {
        1
    } else {
        2 * pow2((k - 1) as nat)
    }
}

/// Marks unsigned integer types that can be safely used in 32-bit integer divisions.
pub trait U32Denom: Copy + Sized {
    /// The mathematical value of the denominator.
    spec fn denom_value(self) -> int;

    /// Widens the denominator to `i64`.
    fn into_i64(self) -> (r: i64)
        ensures
            r == self.denom_value(),
            0 <= r <= u32::MAX,
    ;

    /// Narrows a remainder, which is known to be smaller than `bound`, to the denominator type.
    fn from_remainder(value: i64, bound: Self) -> (r: Self)
        requires
            0 <= value < bound.denom_value(),
        ensures
            r.denom_value() == value,
    ;
}

impl U32Denom for u8 {
    open spec fn denom_value(self) -> int {
        self as int
    }

    fn into_i64(self) -> (r: i64) {
        self as i64
    }

    fn from_remainder(value: i64, bound: Self) -> (r: Self) {
        value as u8
    }
}

impl U32Denom for u16 {
    open spec fn denom_value(self) -> int {
        self as int
    }

    fn into_i64(self) -> (r: i64) {
        self as i64
    }

    fn from_remainder(value: i64, bound: Self) -> (r: Self) {
        value as u16
    }
}

impl U32Denom for u32 {
    open spec fn denom_value(self) -> int {
        self as int
    }

    fn into_i64(self) -> (r: i64) {
        self as i64
    }

    fn from_remainder(value: i64, bound: Self) -> (r: Self) {
        value as u32
    }
}

/// Returns the euclidean division of a signed `numer` and an unsigned `denom`.
///
/// The result lies between `-numer` and `numer`.
pub fn i32_div_u<D: U32Denom>(numer: i32, denom: D) -> (r: i32)
    requires
        denom.denom_value() != 0,
    ensures
        r == numer as int / denom.denom_value(),
{
    let d = denom.into_i64();
    let n = numer as i64;
    proof {
        lemma_div_bounds(numer as int, d as int);
    }
    match n.checked_div_euclid(d) {
        Some(q) => q as i32,
        None => 0,
    }
}

/// For a positive divisor, euclidean division stays between `-|n|` and `|n|`.
proof fn lemma_div_bounds(n: int, d: int)
    requires
        d > 0,
    ensures
        n >= 0 ==> 0 <= n / d <= n,
        n < 0 ==> n <= n / d < 0,
{
    if n >= 0 {
        lemma_div_pos_is_pos(n, d);
        lemma_div_is_ordered_by_denominator(n, 1, d);
    } else {
        lemma_fundamental_div_mod(n, d);
        lemma_mod_bound(n, d);
        let q = n / d;
        let r = n % d;
        assert(n <= q && q < 0) by (nonlinear_arith)
            requires
                n == d * q + r,
                0 <= r < d,
                n < 0,
        {
            if q >= 0 {
                assert(d * q >= 0);
            }
            assert(d * (q + 1) <= q + 1);
        }
    }
}

/// Returns the euclidean remainder of a signed `numer` and an unsigned `denom`.
///
/// The result lies between `0` and `denom - 1`.
pub fn i32_rem_u<D: U32Denom>(numer: i32, denom: D) -> (r: D)
    requires
        denom.denom_value() != 0,
    ensures
        r.denom_value() == numer as int % denom.denom_value(),
        0 <= r.denom_value() < denom.denom_value(),
{
    let d = denom.into_i64();
    let n = numer as i64;
    proof {
        lemma_mod_bound(numer as int, d as int);
    }
    match n.checked_rem_euclid(d) {
        Some(rem) => D::from_remainder(rem, denom),
        None => denom,
    }
}

/// Evaluates [`i32_div_u`] and [`i32_rem_u`] in one call.
pub fn i32_dr_u<D: U32Denom>(numer: i32, denom: D) -> (r: (i32, D))
    requires
        denom.denom_value() != 0,
    ensures
        r.0 == numer as int / denom.denom_value(),
        r.1.denom_value() == numer as int % denom.denom_value(),
        numer == r.0 * denom.denom_value() + r.1.denom_value(),
{
    proof {
        lemma_fundamental_div_mod(numer as int, denom.denom_value());
    }
    (i32_div_u(numer, denom), i32_rem_u(numer, denom))
}


/// `d` divides both `x` and `y`, hence every integer combination of them.
proof fn lemma_divides_combination(x: int, y: int, m: int, n: int, d: int)
    requires
        d > 0,
        x % d == 0,
        y % d == 0,
    ensures
        (m * x + n * y) % d == 0,
{
    lemma_fundamental_div_mod(x, d);
    lemma_fundamental_div_mod(y, d);
    let x1 = x / d;
    let y1 = y / d;
    assert(m * x + n * y == (m * x1 + n * y1) * d) by (nonlinear_arith)
        requires
            x == d * x1,
            y == d * y1,
    ;
    lemma_mod_multiples_basic(m * x1 + n * y1, d);
}

/// The gcd vanishes exactly when both arguments vanish.
pub proof fn lemma_gcd_zero(a: nat, b: nat)
    ensures
        gcd(a, b) == 0 <==> (a == 0 && b == 0),
    decreases b,
{
    if b != 0 {
        lemma_gcd_zero(b, a % b);
    }
}

/// The gcd divides both of its arguments.
pub proof fn lemma_gcd_divides(a: nat, b: nat)
    requires
        gcd(a, b) > 0,
    ensures
        a % gcd(a, b) == 0,
        b % gcd(a, b) == 0,
    decreases b,
{
    let g = gcd(a, b);
    if b == 0 {
        lemma_mod_self_0(a as int);
    } else {
        lemma_gcd_divides(b, a % b);
        lemma_fundamental_div_mod(a as int, b as int);
        lemma_divides_combination(b as int, (a % b) as int, a as int / b as int, 1, g as int);
        assert((a as int / b as int) * b as int + 1 * ((a % b) as int) == a as int) by (nonlinear_arith)
            requires
                a as int == b as int * (a as int / b as int) + (a % b) as int,
        ;
    }
}

/// Every common divisor of `a` and `b` divides their gcd.
pub proof fn lemma_common_divisor_divides_gcd(a: nat, b: nat, d: nat)
    requires
        d > 0,
        a % d == 0,
        b % d == 0,
    ensures
        gcd(a, b) % d == 0,
    decreases b,
{
    if b != 0 {
        lemma_fundamental_div_mod(a as int, b as int);
        let q = a as int / b as int;
        lemma_divides_combination(a as int, b as int, 1, -q, d as int);
        assert(1 * a as int + (-q) * b as int == (a % b) as int) by (nonlinear_arith)
            requires
                a as int == b as int * q + (a % b) as int,
        ;
        lemma_common_divisor_divides_gcd(b, a % b, d);
    }
}

/// Scaling both arguments scales the gcd.
pub proof fn lemma_gcd_scale(a: nat, b: nat, k: nat)
    ensures
        gcd(k * a, k * b) == k * gcd(a, b),
    decreases b,
{
    if b == 0 {
        assert(k * b == 0) by (nonlinear_arith)
            requires
                b == 0,
        ;
    } else if k == 0 {
        assert(k * a == 0 && k * b == 0 && k * gcd(a, b) == 0) by (nonlinear_arith)
            requires
                k == 0,
        ;
    } else {
        lemma_fundamental_div_mod(a as int, b as int);
        lemma_mod_bound(a as int, b as int);
        let q = a as int / b as int;
        let r = a as int % b as int;
        assert(k * a == q * (k * b) + k * r && 0 <= k * r < k * b && k * b > 0) by (nonlinear_arith)
            requires
                a == b * q + r,
                0 <= r < b,
                k > 0,
        ;
        lemma_fundamental_div_mod_converse((k * a) as int, (k * b) as int, q, k * r);
        assert((k * a) % (k * b) == k * (a % b));
        lemma_gcd_scale(b, a % b, k);
    }
}

/// Dividing both arguments by their gcd leaves coprime numbers.
pub proof fn lemma_gcd_of_quotients(a: nat, b: nat)
    requires
        gcd(a, b) > 0,
    ensures
        gcd(a / gcd(a, b), b / gcd(a, b)) == 1,
{
    let g = gcd(a, b);
    lemma_gcd_divides(a, b);
    lemma_fundamental_div_mod(a as int, g as int);
    lemma_fundamental_div_mod(b as int, g as int);
    let a1 = a / g;
    let b1 = b / g;
    assert(a == g * a1 && b == g * b1);
    lemma_gcd_scale(a1, b1, g);
    assert(g * gcd(a1, b1) == g * 1);
    lemma_mul_equality_converse(g as int, gcd(a1, b1) as int, 1);
}


/// Two positive numbers that divide each other are equal.
pub proof fn lemma_mutual_divisors_equal(x: nat, y: nat)
    requires
        x > 0,
        y > 0,
        y % x == 0,
        x % y == 0,
    ensures
        x == y,
{
    lemma_fundamental_div_mod(y as int, x as int);
    lemma_fundamental_div_mod(x as int, y as int);
    let k = y as int / x as int;
    let l = x as int / y as int;
    assert(x == y) by (nonlinear_arith)
        requires
            y == x * k,
            x == y * l,
            x > 0,
            y > 0,
    {
        if k <= 0 {
            assert(x * k <= 0);
        }
        if l <= 0 {
            assert(y * l <= 0);
        }
        assert(y >= x);
        assert(x >= y);
    }
}

/// Subtracting the smaller argument from the larger one keeps the gcd.
pub proof fn lemma_gcd_subtract(a: nat, b: nat)
    requires
        a >= b,
    ensures
        gcd(a, b) == gcd((a - b) as nat, b),
        gcd(a, b) == gcd(b, a),
{
    lemma_gcd_symmetric(a, b);
    let c = (a - b) as nat;
    lemma_gcd_zero(a, b);
    lemma_gcd_zero(c, b);
    if a == 0 && b == 0 {
    } else if c == 0 && b == 0 {
    } else {
        let g1 = gcd(a, b);
        let g2 = gcd(c, b);
        lemma_gcd_divides(a, b);
        lemma_gcd_divides(c, b);
        lemma_divides_combination(a as int, b as int, 1, -1, g1 as int);
        assert(1 * a as int + (-1) * b as int == c as int);
        lemma_common_divisor_divides_gcd(c, b, g1);
        lemma_divides_combination(c as int, b as int, 1, 1, g2 as int);
        assert(1 * c as int + 1 * b as int == a as int);
        lemma_common_divisor_divides_gcd(a, b, g2);
        lemma_mutual_divisors_equal(g1, g2);
    }
}

/// The gcd does not depend on the order of its arguments.
pub proof fn lemma_gcd_symmetric(a: nat, b: nat)
    ensures
        gcd(a, b) == gcd(b, a),
{
    lemma_gcd_zero(a, b);
    lemma_gcd_zero(b, a);
    if a == 0 && b == 0 {
    } else {
        let g1 = gcd(a, b);
        let g2 = gcd(b, a);
        lemma_gcd_divides(a, b);
        lemma_gcd_divides(b, a);
        lemma_common_divisor_divides_gcd(b, a, g1);
        lemma_common_divisor_divides_gcd(a, b, g2);
        lemma_mutual_divisors_equal(g1, g2);
    }
}

/// Reducing the first argument modulo the second keeps the gcd.
pub proof fn lemma_gcd_mod(a: nat, m: nat)
    requires
        m > 0,
    ensures
        gcd(a % m, m) == gcd(m, a),
{
    lemma_gcd_symmetric(a % m, m);
    lemma_gcd_symmetric(m, a);
    if a != 0 {
        assert(gcd(a, m) == gcd(m, a % m));
    } else {
        lemma_small_mod(0, m);
    }
}

/// Determines the greatest common divisor of two `u16`s (returns 1 when both are 0).
pub fn gcd_u16(x: u16, y: u16) -> (r: u16)
    ensures
        r == gcd_u16_spec(x as nat, y as nat),
        r >= 1,
{
    let mut x = x;
    let mut y = y;
    let ghost x0 = x as nat;
    let ghost y0 = y as nat;
    while y != 0
        invariant
            gcd(x as nat, y as nat) == gcd(x0, y0),
        decreases y,
    {
        let t = y;
        y = x % y;
        x = t;
    }
    if x == 0 {
        1
    } else {
        x
    }
}

/// Simplifies a fraction of `u16`s.
pub fn simplify_u16(numer: u16, denom: u16) -> (r: (u16, u16))
    ensures
        r.0 == numer as nat / gcd_u16_spec(numer as nat, denom as nat),
        r.1 == denom as nat / gcd_u16_spec(numer as nat, denom as nat),
{
    let gcd = gcd_u16(numer, denom);
    (numer / gcd, denom / gcd)
}

/// Simplification is idempotent: simplifying an already simplified fraction changes nothing.
pub proof fn lemma_simplify_idempotent(numer: u16, denom: u16)
    ensures
        ({
            let g = gcd_u16_spec(numer as nat, denom as nat);
            let (n1, d1) = (numer as nat / g, denom as nat / g);
            let g1 = gcd_u16_spec(n1, d1);
            n1 / g1 == n1 && d1 / g1 == d1
        }),
{
    let g0 = gcd(numer as nat, denom as nat);
    lemma_gcd_zero(numer as nat, denom as nat);
    if g0 == 0 {
        assert(gcd(0, 0) == 0);
        assert(gcd_u16_spec(0, 0) == 1);
    } else {
        lemma_gcd_of_quotients(numer as nat, denom as nat);
        let n1 = numer as nat / g0;
        let d1 = denom as nat / g0;
        assert(gcd_u16_spec(n1, d1) == 1);
        assert(n1 / 1 == n1 && d1 / 1 == d1);
    }
}

/// The simplified fraction has the same value as the original one and is in lowest terms.
pub proof fn lemma_simplify_is_lowest_terms(numer: u16, denom: u16)
    requires
        numer != 0 || denom != 0,
    ensures
        ({
            let g = gcd_u16_spec(numer as nat, denom as nat);
            let (n1, d1) = (numer as nat / g, denom as nat / g);
            &&& gcd(n1, d1) == 1
            &&& numer == n1 * g
            &&& denom == d1 * g
        }),
{
    lemma_gcd_zero(numer as nat, denom as nat);
    lemma_gcd_of_quotients(numer as nat, denom as nat);
    lemma_gcd_divides(numer as nat, denom as nat);
    let g = gcd(numer as nat, denom as nat);
    lemma_fundamental_div_mod(numer as int, g as int);
    lemma_fundamental_div_mod(denom as int, g as int);
}

/// Removes all powers of two from a `u16`.
pub fn odd_factors_u16(number: u16) -> (r: u16)
    ensures
        r == odd_part(number as nat),
{
    let ghost n0 = number as nat;
    let mut number = number;
    if number != 0 {
        while number % 2 == 0
            invariant
                number != 0,
                odd_part(number as nat) == odd_part(n0),
            decreases number,
        {
            number = number / 2;
        }
    }
    number
}

} // verus!
