//! Character-level string building.
use vstd::prelude::*;

verus! {

/// Appends one character to a `String`.
///
/// Trusted: calls `String::push`, which, as its documentation states, appends the given `char` to
/// the end of the string; the contract claims exactly this of the character view.
#[verifier::external_body]
pub(crate) fn push_char(target: &mut String, c: char)
    ensures
        final(target)@ == old(target)@.push(c),
{
    target.push(c);
}

/// Appends `count` copies of `c`.
pub(crate) fn push_repeated(target: &mut String, c: char, count: u16)
    ensures
        final(target)@ == old(target)@ + Seq::new(count as nat, |_i: int| c),
{
    let ghost start = target@;
    let mut i: u16 = 0;
    while i < count
        invariant
            i <= count,
            target@ == start + Seq::new(i as nat, |_j: int| c),
        decreases count - i,
    {
        push_char(target, c);
        i = i + 1;
        assert(target@ =~= start + Seq::new(i as nat, |_j: int| c));
    }
}

/// The decimal digit character of `d < 10`.
pub open spec fn digit_char(d: nat) -> char {
    ((d + 48) as u32) as char
}

/// The decimal digits of `n`, most significant first, without leading zeros (`"0"` for zero).
pub open spec fn digits_of(n: nat) -> Seq<char>
    decreases n,
{
    if n < 10 {
        seq![digit_char(n)]
    } else {
        digits_of(n / 10).push(digit_char(n % 10))
    }
}

/// The decimal representation of `v`, with a leading `-` for negative numbers.
pub open spec fn decimal(v: int) -> Seq<char> {
    if v < 0 {
        seq!['-'] + digits_of((-v) as nat)
    } else {
        digits_of(v as nat)
    }
}

/// The character of the decimal digit `d`.
fn digit(d: u64) -> (c: char)
    requires
        d < 10,
    ensures
        c == digit_char(d as nat),
{
    match d {
        0 => '0',
        1 => '1',
        2 => '2',
        3 => '3',
        4 => '4',
        5 => '5',
        6 => '6',
        7 => '7',
        8 => '8',
        _ => '9',
    }
}

/// Appends the decimal digits of `n`.
pub(crate) fn push_digits(target: &mut String, n: u64)
    ensures
        final(target)@ == old(target)@ + digits_of(n as nat),
    decreases n,
{
    if n >= 10 {
        push_digits(target, n / 10);
    }
    let c = digit(n % 10);
    push_char(target, c);
    proof {
        if n >= 10 {
            assert(old(target)@ + digits_of(n as nat) =~= old(target)@ + digits_of((n / 10) as nat) + seq![c]);
        } else {
            assert(old(target)@ + digits_of(n as nat) =~= old(target)@.push(c));
        }
    }
}

/// Appends the decimal representation of `v`.
pub(crate) fn push_decimal(target: &mut String, v: i64)
    ensures
        final(target)@ == old(target)@ + decimal(v as int),
{
    if v < 0 {
        push_char(target, '-');
        let magnitude = (-(v + 1)) as u64 + 1;
        push_digits(target, magnitude);
        assert(old(target)@ + decimal(v as int) =~= old(target)@.push('-') + digits_of(magnitude as nat));
    } else {
        push_digits(target, v as u64);
    }
}

} // verus!
