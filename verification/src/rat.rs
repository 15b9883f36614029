//! Exact rational scores.
//!
//! Similarity scores and alignment-matrix entries are non-negative rationals.
//! They are kept in lowest terms with 32-bit numerator and denominator;
//! every operation reports `None` when a result cannot be represented, so
//! arithmetic is exact or refused, never rounded.

use vstd::arithmetic::div_mod::{
    lemma_fundamental_div_mod, lemma_mod_multiples_basic, lemma_mod_self_0, lemma_small_mod,
};
use vstd::arithmetic::mul::lemma_mul_upper_bound;
use vstd::prelude::*;

verus! {

/// A non-negative rational number `num / den`, kept in lowest terms,
/// with `den >= 1`.
#[derive(Clone, Copy, PartialEq, Eq, Structural, Debug)]
pub struct Rat {
    /// The numerator.
    pub num: u32,
    /// The denominator; always at least 1.
    pub den: u32,
}

impl Rat {
    /// A denominator of zero never arises.
    pub open spec fn wf(self) -> bool {
        self.den >= 1
    }

    /// The rational is exactly zero.
    pub open spec fn is_zero(self) -> bool {
        self.num == 0
    }

    /// The rational is exactly one.
    pub open spec fn is_one(self) -> bool {
        self.num == self.den
    }
}

/// The rational zero.
pub open spec fn rat_zero() -> Rat {
    Rat { num: 0, den: 1 }
}

/// The rational one.
pub open spec fn rat_one() -> Rat {
    Rat { num: 1, den: 1 }
}

/// The greatest common divisor, by Euclid's algorithm.
pub open spec fn spec_gcd(a: nat, b: nat) -> nat
    decreases b,
{
    if b == 0 {
        a
    } else {
        spec_gcd(b, a % b)
    }
}

/// The greatest common divisor of two numbers that are not both zero is
/// at least 1 and divides both.
pub proof fn lemma_gcd_props(a: nat, b: nat)
    requires
        a > 0 || b > 0,
    ensures
        spec_gcd(a, b) >= 1,
        a % spec_gcd(a, b) == 0,
        b % spec_gcd(a, b) == 0,
    decreases b,
{
    let g = spec_gcd(a, b);
    if b == 0 {
        assert(g == a);
        lemma_mod_self_0(a as int);
        lemma_small_mod(0, a);
    } else {
        let r = a % b;
        assert(r == a as int % b as int);
        lemma_gcd_props(b, r as nat);
        assert(g == spec_gcd(b, r as nat));
        // b and a % b are both multiples of g; so is a.
        lemma_fundamental_div_mod(b as int, g as int);
        lemma_fundamental_div_mod(r as int, g as int);
        lemma_fundamental_div_mod(a as int, b as int);
        let kb = b as int / g as int;
        let kr = r as int / g as int;
        let q = a as int / b as int;
        assert(a as int == g as int * (kb * q + kr)) by (nonlinear_arith)
            requires
                b as int == g as int * kb,
                r as int == g as int * kr,
                a as int == q * (b as int) + r as int,
        ;
        lemma_mod_multiples_basic(kb * q + kr, g as int);
    }
}

/// Dividing a positive number by a divisor of it leaves a positive multiple.
pub proof fn lemma_exact_div(x: nat, g: nat)
    requires
        g >= 1,
        x % g == 0,
    ensures
        x == g * (x / g),
        x >= 1 ==> x / g >= 1,
{
    lemma_fundamental_div_mod(x as int, g as int);
}

/// `num / den` in lowest terms, if both parts fit in 32 bits.
pub open spec fn spec_reduce(n: nat, d: nat) -> Option<Rat> {
    let g = spec_gcd(n, d);
    let rn = n / g;
    let rd = d / g;
    if rn <= u32::MAX && rd <= u32::MAX {
        Some(Rat { num: rn as u32, den: rd as u32 })
    } else {
        None
    }
}

/// What `spec_reduce` returns stands for the same rational: the reduced
/// numerator and denominator satisfy `rn * d == n * rd`, and the
/// denominator stays positive.
pub proof fn lemma_reduce_value(n: nat, d: nat)
    requires
        d >= 1,
    ensures
        spec_reduce(n, d) matches Some(r) ==> {
            &&& r.wf()
            &&& r.num * d == n * r.den
        },
{
    if spec_reduce(n, d) is Some {
        let g = spec_gcd(n, d);
        lemma_gcd_props(n, d);
        lemma_exact_div(n, g);
        lemma_exact_div(d, g);
        let rn = n / g;
        let rd = d / g;
        assert(rn * d == n * rd) by (nonlinear_arith)
            requires
                n == g * rn,
                d == g * rd,
        ;
    }
}

/// A bound on a rational stays a bound when the multiplier grows.
pub proof fn lemma_rat_bound_mono(r: Rat, p: nat, q: nat)
    requires
        r.num <= p * r.den,
        p <= q,
    ensures
        r.num <= q * r.den,
{
    assert(r.num <= q * r.den) by (nonlinear_arith)
        requires
            r.num <= p * r.den,
            p <= q,
    ;
}

/// The sum of two rationals bounded by `p` and `q` is bounded by `p + q`.
pub proof fn lemma_rat_add_bound(a: Rat, b: Rat, p: nat, q: nat)
    requires
        a.wf(),
        b.wf(),
        a.num <= p * a.den,
        b.num <= q * b.den,
    ensures
        spec_rat_add(a, b) matches Some(c) ==> c.wf() && c.num <= (p + q) * c.den,
{
    if spec_rat_add(a, b) is Some {
        let c = spec_rat_add(a, b)->Some_0;
        let n = (a.num * b.den + b.num * a.den) as nat;
        let d = (a.den * b.den) as nat;
        assert(d >= 1) by (nonlinear_arith)
            requires
                a.den >= 1,
                b.den >= 1,
                d == a.den * b.den,
        ;
        lemma_reduce_value(n, d);
        assert(n <= (p + q) * d) by (nonlinear_arith)
            requires
                a.num <= p * a.den,
                b.num <= q * b.den,
                a.den >= 1,
                b.den >= 1,
                n == a.num * b.den + b.num * a.den,
                d == a.den * b.den,
        ;
        assert(c.num <= (p + q) * c.den) by (nonlinear_arith)
            requires
                c.num * d == n * c.den,
                n <= (p + q) * d,
                d >= 1,
                c.den >= 0,
        ;
    }
}

/// Half credit plus half of a score in the unit interval stays in it.
pub proof fn lemma_rat_half_credit_bound(s: Rat)
    requires
        s.wf(),
        s.num <= s.den,
    ensures
        spec_rat_half_credit(s) matches Some(h) ==> h.wf() && h.num <= h.den,
{
    if spec_rat_half_credit(s) is Some {
        let h = spec_rat_half_credit(s)->Some_0;
        let n = (s.den + s.num) as nat;
        let d = (2 * s.den) as nat;
        lemma_reduce_value(n, d);
        assert(h.num <= h.den) by (nonlinear_arith)
            requires
                h.num * d == n * h.den,
                n <= d,
                d >= 1,
                h.den >= 0,
        ;
    }
}

/// A sum of at most `n` unit-interval scores divided by `n` lands in the
/// unit interval.
pub proof fn lemma_rat_div_bound(s: Rat, n: nat)
    requires
        s.wf(),
        n >= 1,
        s.num <= n * s.den,
    ensures
        spec_rat_div(s, n) matches Some(r) ==> r.wf() && r.num <= r.den,
{
    if spec_rat_div(s, n) is Some {
        let r = spec_rat_div(s, n)->Some_0;
        let d = (s.den * n) as nat;
        assert(d >= 1) by (nonlinear_arith)
            requires
                s.den >= 1,
                n >= 1,
                d == s.den * n,
        ;
        lemma_reduce_value(s.num as nat, d);
        assert(r.num <= r.den) by (nonlinear_arith)
            requires
                r.num * d == s.num * r.den,
                s.num <= n * s.den,
                d == s.den * n,
                d >= 1,
                r.den >= 0,
        ;
    }
}

/// The sum of two rationals, reduced, if it fits.
pub open spec fn spec_rat_add(a: Rat, b: Rat) -> Option<Rat> {
    spec_reduce((a.num * b.den + b.num * a.den) as nat, (a.den * b.den) as nat)
}

/// Half credit plus half of a score: `1/2 + s/2`, reduced, if it fits.
pub open spec fn spec_rat_half_credit(s: Rat) -> Option<Rat> {
    spec_reduce((s.den + s.num) as nat, (2 * s.den) as nat)
}

/// A score divided by a positive count, reduced, if it fits.
pub open spec fn spec_rat_div(s: Rat, n: nat) -> Option<Rat> {
    spec_reduce(s.num as nat, (s.den * n) as nat)
}

/// Comparison by cross-multiplication: `a <= b` as rationals.
pub open spec fn spec_rat_le(a: Rat, b: Rat) -> bool {
    a.num * b.den <= b.num * a.den
}

/// Comparison by cross-multiplication: `a < b` as rationals.
pub open spec fn spec_rat_lt(a: Rat, b: Rat) -> bool {
    a.num * b.den < b.num * a.den
}

/// The larger of two rationals; on a tie, the first.
pub open spec fn spec_rat_max(a: Rat, b: Rat) -> Rat {
    if spec_rat_lt(a, b) {
        b
    } else {
        a
    }
}

/// The greatest common divisor of two machine words.
fn gcd_u128(a0: u128, b0: u128) -> (g: u128)
    ensures
        g == spec_gcd(a0 as nat, b0 as nat),
{
    let mut a = a0;
    let mut b = b0;
    while b != 0
        invariant
            spec_gcd(a as nat, b as nat) == spec_gcd(a0 as nat, b0 as nat),
        decreases b,
    {
        let t = a % b;
        a = b;
        b = t;
    }
    a
}

/// `n / d` in lowest terms, if both parts fit in 32 bits.
fn reduce(n: u128, d: u128) -> (r: Option<Rat>)
    requires
        d >= 1,
    ensures
        r == spec_reduce(n as nat, d as nat),
        r matches Some(c) ==> c.wf(),
{
    proof {
        lemma_gcd_props(n as nat, d as nat);
        lemma_reduce_value(n as nat, d as nat);
    }
    let g = gcd_u128(n, d);
    let rn = n / g;
    let rd = d / g;
    if rn <= u32::MAX as u128 && rd <= u32::MAX as u128 {
        Some(Rat { num: rn as u32, den: rd as u32 })
    } else {
        None
    }
}

/// The sum of two rationals, or `None` when it cannot be represented.
pub fn rat_add(a: Rat, b: Rat) -> (r: Option<Rat>)
    requires
        a.wf(),
        b.wf(),
    ensures
        r == spec_rat_add(a, b),
        r matches Some(c) ==> c.wf(),
{
    proof {
        lemma_mul_upper_bound(a.num as int, u32::MAX as int, b.den as int, u32::MAX as int);
        lemma_mul_upper_bound(b.num as int, u32::MAX as int, a.den as int, u32::MAX as int);
        lemma_mul_upper_bound(a.den as int, u32::MAX as int, b.den as int, u32::MAX as int);
    }
    let n: u128 = (a.num as u128) * (b.den as u128) + (b.num as u128) * (a.den as u128);
    let d: u128 = (a.den as u128) * (b.den as u128);
    assert(d >= 1) by (nonlinear_arith)
        requires
            a.den >= 1,
            b.den >= 1,
            d == (a.den as u128) * (b.den as u128),
    ;
    reduce(n, d)
}

/// `1/2 + s/2`, or `None` when it cannot be represented.
pub fn rat_half_credit(s: Rat) -> (r: Option<Rat>)
    requires
        s.wf(),
    ensures
        r == spec_rat_half_credit(s),
        r matches Some(c) ==> c.wf(),
{
    reduce(s.den as u128 + s.num as u128, 2 * (s.den as u128))
}

/// `s / n`, or `None` when it cannot be represented.
pub fn rat_div(s: Rat, n: u128) -> (r: Option<Rat>)
    requires
        s.wf(),
        1 <= n <= u64::MAX as u128 + u64::MAX as u128,
    ensures
        r == spec_rat_div(s, n as nat),
        r matches Some(c) ==> c.wf(),
{
    proof {
        lemma_mul_upper_bound(
            s.den as int,
            u32::MAX as int,
            n as int,
            u64::MAX as int + u64::MAX as int,
        );
    }
    let d: u128 = (s.den as u128) * n;
    assert(d >= 1) by (nonlinear_arith)
        requires
            s.den >= 1,
            n >= 1,
            d == (s.den as u128) * (n as u128),
    ;
    reduce(s.num as u128, d)
}

/// Whether `a <= b` as rationals.
pub fn rat_le(a: Rat, b: Rat) -> (r: bool)
    ensures
        r == spec_rat_le(a, b),
{
    proof {
        lemma_mul_upper_bound(a.num as int, u32::MAX as int, b.den as int, u32::MAX as int);
        lemma_mul_upper_bound(b.num as int, u32::MAX as int, a.den as int, u32::MAX as int);
    }
    (a.num as u64) * (b.den as u64) <= (b.num as u64) * (a.den as u64)
}

/// Whether `a < b` as rationals.
pub fn rat_lt(a: Rat, b: Rat) -> (r: bool)
    ensures
        r == spec_rat_lt(a, b),
{
    proof {
        lemma_mul_upper_bound(a.num as int, u32::MAX as int, b.den as int, u32::MAX as int);
        lemma_mul_upper_bound(b.num as int, u32::MAX as int, a.den as int, u32::MAX as int);
    }
    (a.num as u64) * (b.den as u64) < (b.num as u64) * (a.den as u64)
}

/// The larger of two rationals; on a tie, the first.
pub fn rat_max(a: Rat, b: Rat) -> (r: Rat)
    ensures
        r == spec_rat_max(a, b),
{
    if rat_le(b, a) {
        a
    } else {
        b
    }
}

} // verus!
