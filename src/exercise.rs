use vstd::arithmetic::power::{lemma_pow_increases, pow};
use vstd::prelude::*;

use crate::random::generate_random;

verus! {

/// The expected solution of an exercise, the exact quotient `num / den`.
#[derive(Clone, Copy, Debug, PartialEq, Eq, Structural)]
pub struct Fraction {
    pub num: i64,
    pub den: i32,
}

impl Fraction {
    pub open spec fn wf(&self) -> bool {
        self.den != 0
    }

    /// The whole number `n`.
    pub fn whole(n: i64) -> (r: Fraction)
        ensures
            r.num == n,
            r.den == 1,
    {
        Fraction { num: n, den: 1 }
    }
}

/// Two operands drawn from `[min, max)` and their sum.
pub fn create_addition_exercise(min: i32, max: i32) -> (r: (i32, i32, Fraction))
    requires
        min < max,
    ensures
        min <= r.0 < max,
        min <= r.1 < max,
        r.2.num == r.0 + r.1,
        r.2.den == 1,
{
    let a = generate_random(min, max);
    let b = generate_random(min, max);
    (a, b, Fraction::whole(a as i64 + b as i64))
}

/// Two operands drawn from `[min, max)` and their difference.
pub fn create_subtraction_exercise(min: i32, max: i32) -> (r: (i32, i32, Fraction))
    requires
        min < max,
    ensures
        min <= r.0 < max,
        min <= r.1 < max,
        r.2.num == r.0 - r.1,
        r.2.den == 1,
{
    let a = generate_random(min, max);
    let b = generate_random(min, max);
    (a, b, Fraction::whole(a as i64 - b as i64))
}

/// Two operands drawn from `[min, max)` and their product.
pub fn create_multiplication_exercise(min: i32, max: i32) -> (r: (i32, i32, Fraction))
    requires
        min < max,
    ensures
        min <= r.0 < max,
        min <= r.1 < max,
        r.2.num == r.0 * r.1,
        r.2.den == 1,
{
    let a = generate_random(min, max);
    let b = generate_random(min, max);
    assert(-0x8000_0000 * 0x8000_0000 <= a * b <= 0x8000_0000 * 0x8000_0000) by (nonlinear_arith)
        requires
            -0x8000_0000 <= a < 0x8000_0000,
            -0x8000_0000 <= b < 0x8000_0000,
    ;
    (a, b, Fraction::whole(a as i64 * b as i64))
}

/// Whether `[min, max)` holds a value other than zero.
pub open spec fn has_nonzero(min: int, max: int) -> bool {
    min < max && !(min == 0 && max == 1)
}

/// A dividend drawn from `[min, max)` and a divisor drawn from the nonzero
/// values of `[min, max)`, with their exact quotient.
///
/// Drawing the divisor among the nonzero values gives the same distribution
/// as drawing pairs until the divisor is nonzero, without the unbounded loop.
pub fn create_division_exercise(min: i32, max: i32) -> (r: (i32, i32, Fraction))
    requires
        has_nonzero(min as int, max as int),
    ensures
        min <= r.0 < max,
        min <= r.1 < max,
        r.1 != 0,
        r.2.num == r.0,
        r.2.den == r.1,
{
    let a = generate_random(min, max);
    let b = if min <= 0 && 0 < max {
        let v = generate_random(min, max - 1);
        if v >= 0 {
            v + 1
        } else {
            v
        }
    } else {
        generate_random(min, max)
    };
    (a, b, Fraction { num: a as i64, den: b })
}

proof fn lemma_small_pow(b: int, e: nat)
    requires
        0 <= b <= 10,
        e <= 9,
    ensures
        0 <= pow(b, e) <= pow(10, e) <= 1_000_000_000,
    decreases e,
{
    lemma_pow_increases(10, e, 9);
    reveal_with_fuel(pow, 10);
    assert(pow(10, 9) == 1_000_000_000);
    reveal(pow);
    if e > 0 {
        lemma_small_pow(b, (e - 1) as nat);
        let p = pow(b, (e - 1) as nat);
        let q = pow(10, (e - 1) as nat);
        assert(0 <= b * p <= 10 * q) by (nonlinear_arith)
            requires
                0 <= b <= 10,
                0 <= p <= q,
        ;
    }
}

/// `base` raised to `exponent`, for the small values that exercises use.
pub fn power(base: i32, exponent: i32) -> (r: i64)
    requires
        0 <= base <= 10,
        0 <= exponent <= 9,
    ensures
        r == pow(base as int, exponent as nat),
{
    let mut acc: i64 = 1;
    let mut i: i32 = 0;
    proof {
        reveal(pow);
    }
    while i < exponent
        invariant
            0 <= base <= 10,
            0 <= i <= exponent <= 9,
            acc == pow(base as int, i as nat),
        decreases exponent - i,
    {
        proof {
            lemma_small_pow(base as int, i as nat);
            lemma_small_pow(base as int, (i + 1) as nat);
        }
        assert(pow(base as int, (i + 1) as nat) == base * pow(base as int, i as nat)) by {
            reveal(pow);
        }
        assert(acc * base == pow(base as int, (i + 1) as nat));
        acc = acc * base as i64;
        i = i + 1;
    }
    acc
}

/// A base drawn from `[0, 11)`, an exponent that is the magnitude of a draw
/// from `[min, max)`, and the power.
pub fn create_exponentiation_exercise(min: i32, max: i32) -> (r: (i32, i32, Fraction))
    requires
        -9 <= min < max <= 10,
    ensures
        0 <= r.0 < 11,
        0 <= r.1,
        (min <= r.1 < max) || (min <= -r.1 < max),
        r.2.num == pow(r.0 as int, r.1 as nat),
        r.2.den == 1,
{
    let a = generate_random(0, 11);
    let d = generate_random(min, max);
    let e = if d < 0 {
        -d
    } else {
        d
    };
    (a, e, Fraction::whole(power(a, e)))
}

} // verus!
