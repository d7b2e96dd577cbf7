//! Exact rational arithmetic.
//!
//! `Rat` is the mathematical value (an integer numerator over a positive
//! integer denominator); `Ratio` is the executable representation, an `i64`
//! pair. Arithmetic on `Ratio` is exact and checked: an operation returns
//! `None` when the exact result does not fit the machine representation.
//! Fractions are not kept in lowest terms, so two `Ratio`s with different
//! fields can denote the same rational; `rat_eq` is the value equality.

use vstd::prelude::*;

verus! {

/// Mathematical value of a rational number: numerator `n` over denominator `d`.
/// Meaningful only when `d > 0` (see `rat_wf`).
pub struct Rat {
    pub n: int,
    pub d: int,
}

/// A well-formed rational value has a positive denominator.
pub open spec fn rat_wf(a: Rat) -> bool {
    a.d > 0
}

/// Value equality of two rationals, by cross-multiplication.
pub open spec fn rat_eq(a: Rat, b: Rat) -> bool {
    a.n * b.d == b.n * a.d
}

pub open spec fn rat_le(a: Rat, b: Rat) -> bool {
    a.n * b.d <= b.n * a.d
}

pub open spec fn rat_lt(a: Rat, b: Rat) -> bool {
    a.n * b.d < b.n * a.d
}

pub open spec fn rat_nonneg(a: Rat) -> bool {
    a.n >= 0
}

pub open spec fn rat_zero() -> Rat {
    Rat { n: 0, d: 1 }
}

pub open spec fn rat_one() -> Rat {
    Rat { n: 1, d: 1 }
}

pub open spec fn rat_add(a: Rat, b: Rat) -> Rat {
    Rat { n: a.n * b.d + b.n * a.d, d: a.d * b.d }
}

pub open spec fn rat_sub(a: Rat, b: Rat) -> Rat {
    Rat { n: a.n * b.d - b.n * a.d, d: a.d * b.d }
}

pub open spec fn rat_mul(a: Rat, b: Rat) -> Rat {
    Rat { n: a.n * b.n, d: a.d * b.d }
}

/// Exact quotient; the sign of the divisor's numerator moves into the
/// numerator of the result so that the denominator stays positive.
pub open spec fn rat_div(a: Rat, b: Rat) -> Rat {
    if b.n < 0 {
        Rat { n: -(a.n * b.d), d: -(a.d * b.n) }
    } else {
        Rat { n: a.n * b.d, d: a.d * b.n }
    }
}

/// The symmetric range of machine numerators and denominators.
/// `i64::MIN` is excluded so that every representable value has a
/// representable negation.
pub open spec fn fits_i64(x: int) -> bool {
    -0x7fff_ffff_ffff_ffff <= x <= 0x7fff_ffff_ffff_ffff
}

/// Whether a rational value fits the executable representation.
pub open spec fn rat_fits(a: Rat) -> bool {
    fits_i64(a.n) && fits_i64(a.d)
}

/// Executable rational number: an exact `i64` fraction.
#[derive(Clone, Copy, Debug)]
pub struct Ratio {
    num: i64,
    den: i64,
}

impl View for Ratio {
    type V = Rat;

    closed spec fn view(&self) -> Rat {
        Rat { n: self.num as int, d: self.den as int }
    }
}

impl Ratio {
    /// Representation invariant: positive denominator, numerator above
    /// `i64::MIN` so negation stays in range.
    pub closed spec fn wf(self) -> bool {
        self.den >= 1 && self.num > i64::MIN
    }

    pub broadcast proof fn lemma_wf_view(self)
        requires
            #[trigger] self.wf(),
        ensures
            rat_wf(self@),
            rat_fits(self@),
    {
    }

    pub fn new(num: i64, den: i64) -> (r: Ratio)
        requires
            den >= 1,
            num > i64::MIN,
        ensures
            r.wf(),
            r@ == (Rat { n: num as int, d: den as int }),
            r == spec_ratio(num as int, den as int),
    {
        Ratio { num, den }
    }

    pub fn zero() -> (r: Ratio)
        ensures
            r.wf(),
            r@ == rat_zero(),
            r == spec_ratio(0, 1),
    {
        Ratio { num: 0, den: 1 }
    }

    pub fn one() -> (r: Ratio)
        ensures
            r.wf(),
            r@ == rat_one(),
            r == spec_ratio(1, 1),
    {
        Ratio { num: 1, den: 1 }
    }

    pub fn numer(self) -> (n: i64)
        ensures
            n as int == self@.n,
    {
        self.num
    }

    pub fn denom(self) -> (d: i64)
        ensures
            d as int == self@.d,
    {
        self.den
    }

    pub fn lt(self, other: Ratio) -> (r: bool)
        requires
            self.wf(),
            other.wf(),
        ensures
            r == rat_lt(self@, other@),
    {
        proof {
            lemma_mul_i64_bound(self.num as int, other.den as int);
            lemma_mul_i64_bound(other.num as int, self.den as int);
        }
        (self.num as i128) * (other.den as i128) < (other.num as i128) * (self.den as i128)
    }

    pub fn le(self, other: Ratio) -> (r: bool)
        requires
            self.wf(),
            other.wf(),
        ensures
            r == rat_le(self@, other@),
    {
        proof {
            lemma_mul_i64_bound(self.num as int, other.den as int);
            lemma_mul_i64_bound(other.num as int, self.den as int);
        }
        (self.num as i128) * (other.den as i128) <= (other.num as i128) * (self.den as i128)
    }

    /// Value equality (the two fractions denote the same rational).
    pub fn equiv(self, other: Ratio) -> (r: bool)
        requires
            self.wf(),
            other.wf(),
        ensures
            r == rat_eq(self@, other@),
    {
        proof {
            lemma_mul_i64_bound(self.num as int, other.den as int);
            lemma_mul_i64_bound(other.num as int, self.den as int);
        }
        (self.num as i128) * (other.den as i128) == (other.num as i128) * (self.den as i128)
    }

    pub fn is_zero(self) -> (r: bool)
        requires
            self.wf(),
        ensures
            r == rat_eq(self@, rat_zero()),
    {
        self.num == 0
    }

    pub fn is_nonneg(self) -> (r: bool)
        requires
            self.wf(),
        ensures
            r == rat_nonneg(self@),
    {
        self.num >= 0
    }

    /// Exact checked addition: `None` exactly when the exact sum does not
    /// fit the representation.
    pub fn checked_add(self, other: Ratio) -> (r: Option<Ratio>)
        requires
            self.wf(),
            other.wf(),
        ensures
            r is Some <==> rat_fits(rat_add(self@, other@)),
            r matches Some(c) ==> c.wf() && c@ == rat_add(self@, other@),
            r == self.spec_add(other),
    {
        proof {
            lemma_mul_i64_bound(self.num as int, other.den as int);
            lemma_mul_i64_bound(other.num as int, self.den as int);
            lemma_mul_i64_bound(self.den as int, other.den as int);
        }
        let n: i128 = (self.num as i128) * (other.den as i128) + (other.num as i128) * (self.den as i128);
        let d: i128 = (self.den as i128) * (other.den as i128);
        proof {
            assert(d >= 1) by (nonlinear_arith)
                requires
                    self.den >= 1,
                    other.den >= 1,
                    d == (self.den as i128) * (other.den as i128);
        }
        if -0x7fff_ffff_ffff_ffffi128 <= n && n <= 0x7fff_ffff_ffff_ffffi128 && d <= 0x7fff_ffff_ffff_ffffi128 {
            Some(Ratio { num: n as i64, den: d as i64 })
        } else {
            None
        }
    }

    /// Exact checked subtraction.
    pub fn checked_sub(self, other: Ratio) -> (r: Option<Ratio>)
        requires
            self.wf(),
            other.wf(),
        ensures
            r is Some <==> rat_fits(rat_sub(self@, other@)),
            r matches Some(c) ==> c.wf() && c@ == rat_sub(self@, other@),
            r == self.spec_sub(other),
    {
        proof {
            lemma_mul_i64_bound(self.num as int, other.den as int);
            lemma_mul_i64_bound(other.num as int, self.den as int);
            lemma_mul_i64_bound(self.den as int, other.den as int);
        }
        let n: i128 = (self.num as i128) * (other.den as i128) - (other.num as i128) * (self.den as i128);
        let d: i128 = (self.den as i128) * (other.den as i128);
        proof {
            assert(d >= 1) by (nonlinear_arith)
                requires
                    self.den >= 1,
                    other.den >= 1,
                    d == (self.den as i128) * (other.den as i128);
        }
        if -0x7fff_ffff_ffff_ffffi128 <= n && n <= 0x7fff_ffff_ffff_ffffi128 && d <= 0x7fff_ffff_ffff_ffffi128 {
            Some(Ratio { num: n as i64, den: d as i64 })
        } else {
            None
        }
    }

    /// Exact checked multiplication.
    pub fn checked_mul(self, other: Ratio) -> (r: Option<Ratio>)
        requires
            self.wf(),
            other.wf(),
        ensures
            r is Some <==> rat_fits(rat_mul(self@, other@)),
            r matches Some(c) ==> c.wf() && c@ == rat_mul(self@, other@),
            r == self.spec_mul(other),
    {
        proof {
            lemma_mul_i64_bound(self.num as int, other.num as int);
            lemma_mul_i64_bound(self.den as int, other.den as int);
        }
        let n: i128 = (self.num as i128) * (other.num as i128);
        let d: i128 = (self.den as i128) * (other.den as i128);
        proof {
            assert(d >= 1) by (nonlinear_arith)
                requires
                    self.den >= 1,
                    other.den >= 1,
                    d == (self.den as i128) * (other.den as i128);
        }
        if -0x7fff_ffff_ffff_ffffi128 <= n && n <= 0x7fff_ffff_ffff_ffffi128 && d <= 0x7fff_ffff_ffff_ffffi128 {
            Some(Ratio { num: n as i64, den: d as i64 })
        } else {
            None
        }
    }

    /// Exact checked division by a nonzero rational.
    pub fn checked_div(self, other: Ratio) -> (r: Option<Ratio>)
        requires
            self.wf(),
            other.wf(),
            other@.n != 0,
        ensures
            r is Some <==> rat_fits(rat_div(self@, other@)),
            r matches Some(c) ==> c.wf() && c@ == rat_div(self@, other@),
            r == self.spec_div(other),
    {
        proof {
            lemma_mul_i64_bound(self.num as int, other.den as int);
            lemma_mul_i64_bound(self.den as int, other.num as int);
        }
        let n0: i128 = (self.num as i128) * (other.den as i128);
        let d0: i128 = (self.den as i128) * (other.num as i128);
        let (n, d): (i128, i128) = if other.num < 0 {
            (-n0, -d0)
        } else {
            (n0, d0)
        };
        proof {
            assert(d >= 1) by (nonlinear_arith)
                requires
                    self.den >= 1,
                    other.num != 0,
                    d0 == (self.den as i128) * (other.num as i128),
                    d == if other.num < 0 { -(d0 as int) } else { d0 as int };
        }
        if -0x7fff_ffff_ffff_ffffi128 <= n && n <= 0x7fff_ffff_ffff_ffffi128 && d <= 0x7fff_ffff_ffff_ffffi128 {
            Some(Ratio { num: n as i64, den: d as i64 })
        } else {
            None
        }
    }
    /// An equal rational in smaller terms: both components are divided by a
    /// common divisor found with Euclid's algorithm. The denoted value, its
    /// sign included, is unchanged.
    pub fn reduce(self) -> (r: Ratio)
        requires
            self.wf(),
        ensures
            r.wf(),
            rat_eq(r@, self@),
            rat_nonneg(r@) == rat_nonneg(self@),
            r@.d <= self@.d,
            self@.n == 0 ==> r@ == rat_zero(),
            r == self.spec_reduce(),
    {
        let neg: bool = self.num < 0;
        let m: u64 = if neg {
            (-self.num) as u64
        } else {
            self.num as u64
        };
        let g: u64 = gcd_u64(self.den as u64, m);
        proof {
            vstd::arithmetic::div_mod::lemma_fundamental_div_mod(self.den as int, g as int);
            vstd::arithmetic::div_mod::lemma_fundamental_div_mod(m as int, g as int);
            vstd::arithmetic::div_mod::lemma_div_non_zero(self.den as int, g as int);
            vstd::arithmetic::div_mod::lemma_div_nonincreasing(self.den as int, g as int);
            vstd::arithmetic::div_mod::lemma_div_nonincreasing(m as int, g as int);
        }
        let new_den: u64 = (self.den as u64) / g;
        let new_mag: u64 = m / g;
        let rn: i64 = if neg {
            -(new_mag as i64)
        } else {
            new_mag as i64
        };
        let r = Ratio { num: rn, den: new_den as i64 };
        proof {
            if self.num == 0 {
                vstd::arithmetic::div_mod::lemma_div_by_self(g as int);
                vstd::arithmetic::div_mod::lemma_div_of0(g as int);
            }
            if neg {
                lemma_divisor_le(m as int, g as int);
                vstd::arithmetic::div_mod::lemma_div_non_zero(m as int, g as int);
            }
            assert(rn as int * self.den as int == self.num as int * new_den as int)
                by (nonlinear_arith)
                requires
                    self.den as int == g as int * (new_den as int),
                    m as int == g as int * (new_mag as int),
                    g >= 1,
                    self.num as int == if neg { -(m as int) } else { m as int },
                    rn as int == if neg { -(new_mag as int) } else { new_mag as int };
        }
        r
    }
}

/// Specification-level image of `Ratio::new`: the fraction `n / d` as a
/// machine value. Meaningful when `n` and `d` are in the symmetric `i64`
/// range with `d >= 1` (see `lemma_spec_ratio`).
pub closed spec fn spec_ratio(n: int, d: int) -> Ratio {
    Ratio { num: n as i64, den: d as i64 }
}

pub broadcast proof fn lemma_spec_ratio(n: int, d: int)
    requires
        fits_i64(n),
        1 <= d <= 0x7fff_ffff_ffff_ffff,
    ensures
        (#[trigger] spec_ratio(n, d)).wf(),
        spec_ratio(n, d)@ == (Rat { n: n, d: d }),
{
}

impl Ratio {
    /// Specification-level image of `checked_add`.
    pub closed spec fn spec_add(self, other: Ratio) -> Option<Ratio> {
        if rat_fits(rat_add(self@, other@)) {
            Some(spec_ratio(rat_add(self@, other@).n, rat_add(self@, other@).d))
        } else {
            None
        }
    }

    /// Specification-level image of `checked_sub`.
    pub closed spec fn spec_sub(self, other: Ratio) -> Option<Ratio> {
        if rat_fits(rat_sub(self@, other@)) {
            Some(spec_ratio(rat_sub(self@, other@).n, rat_sub(self@, other@).d))
        } else {
            None
        }
    }

    /// Specification-level image of `checked_mul`.
    pub closed spec fn spec_mul(self, other: Ratio) -> Option<Ratio> {
        if rat_fits(rat_mul(self@, other@)) {
            Some(spec_ratio(rat_mul(self@, other@).n, rat_mul(self@, other@).d))
        } else {
            None
        }
    }

    /// Specification-level image of `checked_div`.
    pub closed spec fn spec_div(self, other: Ratio) -> Option<Ratio> {
        if other@.n != 0 && rat_fits(rat_div(self@, other@)) {
            Some(spec_ratio(rat_div(self@, other@).n, rat_div(self@, other@).d))
        } else {
            None
        }
    }
}

pub broadcast proof fn lemma_spec_add(a: Ratio, b: Ratio)
    requires
        a.wf(),
        b.wf(),
    ensures
        (#[trigger] a.spec_add(b)) is Some <==> rat_fits(rat_add(a@, b@)),
        a.spec_add(b) matches Some(c) ==> c.wf() && c@ == rat_add(a@, b@),
{
    assert(a@.d * b@.d >= 1) by (nonlinear_arith)
        requires
            a@.d >= 1,
            b@.d >= 1;
}

pub broadcast proof fn lemma_spec_sub(a: Ratio, b: Ratio)
    requires
        a.wf(),
        b.wf(),
    ensures
        (#[trigger] a.spec_sub(b)) is Some <==> rat_fits(rat_sub(a@, b@)),
        a.spec_sub(b) matches Some(c) ==> c.wf() && c@ == rat_sub(a@, b@),
{
    assert(a@.d * b@.d >= 1) by (nonlinear_arith)
        requires
            a@.d >= 1,
            b@.d >= 1;
}

pub broadcast proof fn lemma_spec_mul(a: Ratio, b: Ratio)
    requires
        a.wf(),
        b.wf(),
    ensures
        (#[trigger] a.spec_mul(b)) is Some <==> rat_fits(rat_mul(a@, b@)),
        a.spec_mul(b) matches Some(c) ==> c.wf() && c@ == rat_mul(a@, b@),
{
    assert(a@.d * b@.d >= 1) by (nonlinear_arith)
        requires
            a@.d >= 1,
            b@.d >= 1;
}

pub broadcast proof fn lemma_spec_div(a: Ratio, b: Ratio)
    requires
        a.wf(),
        b.wf(),
    ensures
        (#[trigger] a.spec_div(b)) is Some <==> b@.n != 0 && rat_fits(rat_div(a@, b@)),
        a.spec_div(b) matches Some(c) ==> c.wf() && c@ == rat_div(a@, b@),
{
    if b@.n != 0 {
        lemma_div_wf(a@, b@);
    }
}

/// The facts every caller of the rational layer needs: well-formedness
/// carries from representation to value, and the specification images of
/// the checked operations behave as the exact operations.
pub broadcast group group_ratio {
    Ratio::lemma_wf_view,
    lemma_spec_ratio,
    lemma_spec_add,
    lemma_spec_sub,
    lemma_spec_mul,
    lemma_spec_div,
}

/// Euclid's greatest-common-divisor recursion, the specification that the
/// executable helper and `reduce` are pinned to.
pub open spec fn gcd_nat(a: nat, b: nat) -> nat
    decreases b,
{
    if b == 0 {
        a
    } else {
        gcd_nat(b, a % b)
    }
}

impl Ratio {
    /// Specification-level image of `reduce`: both components divided by
    /// the greatest common divisor of the magnitude and the denominator.
    pub closed spec fn spec_reduce(self) -> Ratio {
        let m = if self@.n < 0 {
            (-self@.n) as nat
        } else {
            self@.n as nat
        };
        let g = gcd_nat(self@.d as nat, m);
        let num = if self@.n < 0 {
            -((m / g) as int)
        } else {
            (m / g) as int
        };
        spec_ratio(num, ((self@.d as nat) / g) as int)
    }
}

/// A positive common divisor of `a` and `b`, by Euclid's algorithm.
fn gcd_u64(a: u64, b: u64) -> (g: u64)
    requires
        a >= 1,
    ensures
        1 <= g <= a,
        a as int % g as int == 0,
        b as int % g as int == 0,
        b == 0 ==> g == a,
        g as nat == gcd_nat(a as nat, b as nat),
    decreases b,
{
    if b == 0 {
        proof {
            vstd::arithmetic::div_mod::lemma_mod_self_0(a as int);
            vstd::arithmetic::div_mod::lemma_small_mod(0, a as nat);
        }
        a
    } else {
        let g = gcd_u64(b, a % b);
        proof {
            lemma_divides_combine(a as int, b as int, g as int);
            lemma_divisor_le(a as int, g as int);
        }
        g
    }
}

/// A common divisor of `b` and of `a % b` also divides `a`.
proof fn lemma_divides_combine(a: int, b: int, g: int)
    requires
        a >= 0,
        b >= 1,
        g >= 1,
        b % g == 0,
        (a % b) % g == 0,
    ensures
        a % g == 0,
{
    let q = a / b;
    let r = a % b;
    vstd::arithmetic::div_mod::lemma_fundamental_div_mod(a, b);
    vstd::arithmetic::div_mod::lemma_fundamental_div_mod(b, g);
    vstd::arithmetic::div_mod::lemma_fundamental_div_mod(r, g);
    assert(a == ((b / g) * q + r / g) * g) by (nonlinear_arith)
        requires
            a == b * q + r,
            b == g * (b / g),
            r == g * (r / g);
    vstd::arithmetic::div_mod::lemma_mod_multiples_basic((b / g) * q + r / g, g);
}

/// A positive divisor of a positive number is no larger than it.
proof fn lemma_divisor_le(a: int, g: int)
    requires
        a >= 1,
        g >= 1,
        a % g == 0,
    ensures
        g <= a,
{
    if g > a {
        vstd::arithmetic::div_mod::lemma_small_mod(a as nat, g as nat);
    }
}

/// Left-to-right sum of a sequence of rational values.
pub open spec fn rat_seq_sum(s: Seq<Rat>) -> Rat
    decreases s.len(),
{
    if s.len() == 0 {
        rat_zero()
    } else {
        rat_add(rat_seq_sum(s.drop_last()), s.last())
    }
}

pub open spec fn rat_seq_wf(s: Seq<Rat>) -> bool {
    forall|i: int| 0 <= i < s.len() ==> rat_wf(#[trigger] s[i])
}

pub open spec fn rat_seq_nonneg(s: Seq<Rat>) -> bool {
    forall|i: int| 0 <= i < s.len() ==> rat_nonneg(#[trigger] s[i])
}

/// A quotient by a nonzero divisor is well-formed.
pub proof fn lemma_div_wf(a: Rat, t: Rat)
    requires
        rat_wf(a),
        rat_wf(t),
        t.n != 0,
    ensures
        rat_wf(rat_div(a, t)),
{
    assert(t.n < 0 ==> -(a.d * t.n) > 0) by (nonlinear_arith)
        requires
            a.d > 0;
    assert(t.n > 0 ==> a.d * t.n > 0) by (nonlinear_arith)
        requires
            a.d > 0;
}

/// Differences and products of well-formed values are well-formed.
pub proof fn lemma_sub_mul_wf(a: Rat, b: Rat)
    requires
        rat_wf(a),
        rat_wf(b),
    ensures
        rat_wf(rat_sub(a, b)),
        rat_wf(rat_add(a, b)),
        rat_wf(rat_mul(a, b)),
{
    assert(a.d * b.d > 0) by (nonlinear_arith)
        requires
            a.d > 0,
            b.d > 0;
}

/// Equality of rational values is transitive.
pub proof fn lemma_rat_eq_trans(a: Rat, b: Rat, c: Rat)
    requires
        rat_wf(a),
        rat_wf(b),
        rat_wf(c),
        rat_eq(a, b),
        rat_eq(b, c),
    ensures
        rat_eq(a, c),
{
    assert(a.n * c.d == c.n * a.d) by (nonlinear_arith)
        requires
            b.d > 0,
            a.n * b.d == b.n * a.d,
            b.n * c.d == c.n * b.d;
}

/// Sums respect value equality in the left operand.
proof fn lemma_add_congruence_left(a: Rat, a2: Rat, b: Rat)
    requires
        rat_wf(a),
        rat_wf(a2),
        rat_wf(b),
        rat_eq(a, a2),
    ensures
        rat_eq(rat_add(a, b), rat_add(a2, b)),
        rat_wf(rat_add(a, b)),
        rat_wf(rat_add(a2, b)),
{
    assert(a.d * b.d > 0 && a2.d * b.d > 0) by (nonlinear_arith)
        requires
            a.d > 0,
            a2.d > 0,
            b.d > 0;
    assert((a.n * b.d + b.n * a.d) * (a2.d * b.d) == (a.n * b.d) * (a2.d * b.d) + (b.n * a.d) * (
    a2.d * b.d)) by (nonlinear_arith);
    assert((a2.n * b.d + b.n * a2.d) * (a.d * b.d) == (a2.n * b.d) * (a.d * b.d) + (b.n * a2.d) * (
    a.d * b.d)) by (nonlinear_arith);
    assert((a.n * b.d) * (a2.d * b.d) == (a.n * a2.d) * (b.d * b.d)) by (nonlinear_arith);
    assert((a2.n * b.d) * (a.d * b.d) == (a2.n * a.d) * (b.d * b.d)) by (nonlinear_arith);
    assert((a.n * a2.d) * (b.d * b.d) == (a2.n * a.d) * (b.d * b.d)) by (nonlinear_arith)
        requires
            a.n * a2.d == a2.n * a.d;
    assert((b.n * a.d) * (a2.d * b.d) == (b.n * a2.d) * (a.d * b.d)) by (nonlinear_arith);
}

/// Addition of rational values is commutative up to value equality.
proof fn lemma_add_comm(a: Rat, b: Rat)
    requires
        rat_wf(a),
        rat_wf(b),
    ensures
        rat_eq(rat_add(a, b), rat_add(b, a)),
        rat_wf(rat_add(a, b)),
        rat_wf(rat_add(b, a)),
{
    assert((a.n * b.d + b.n * a.d) * (b.d * a.d) == (b.n * a.d + a.n * b.d) * (a.d * b.d)
        && a.d * b.d > 0 && b.d * a.d > 0) by (nonlinear_arith)
        requires
            a.d > 0,
            b.d > 0;
}

/// Sums respect value equality of the operands.
pub proof fn lemma_add_congruence(a: Rat, a2: Rat, b: Rat, b2: Rat)
    requires
        rat_wf(a),
        rat_wf(a2),
        rat_wf(b),
        rat_wf(b2),
        rat_eq(a, a2),
        rat_eq(b, b2),
    ensures
        rat_eq(rat_add(a, b), rat_add(a2, b2)),
        rat_wf(rat_add(a, b)),
        rat_wf(rat_add(a2, b2)),
{
    lemma_add_congruence_left(a, a2, b);
    lemma_add_comm(a2, b);
    lemma_add_congruence_left(b, b2, a2);
    lemma_add_comm(b2, a2);
    lemma_rat_eq_trans(rat_add(a, b), rat_add(a2, b), rat_add(b, a2));
    lemma_rat_eq_trans(rat_add(a, b), rat_add(b, a2), rat_add(b2, a2));
    lemma_rat_eq_trans(rat_add(a, b), rat_add(b2, a2), rat_add(a2, b2));
}

pub proof fn lemma_cmp_congruence(a: Rat, a2: Rat, b: Rat, b2: Rat)
    requires
        rat_wf(a),
        rat_wf(a2),
        rat_wf(b),
        rat_wf(b2),
        rat_eq(a, a2),
        rat_eq(b, b2),
    ensures
        rat_le(a, b) == rat_le(a2, b2),
        rat_lt(a, b) == rat_lt(a2, b2),
{
    assert((a.n * b.d <= b.n * a.d) == (a2.n * b2.d <= b2.n * a2.d)) by (nonlinear_arith)
        requires
            a.d > 0,
            a2.d > 0,
            b.d > 0,
            b2.d > 0,
            a.n * a2.d == a2.n * a.d,
            b.n * b2.d == b2.n * b.d;
    assert((a.n * b.d < b.n * a.d) == (a2.n * b2.d < b2.n * a2.d)) by (nonlinear_arith)
        requires
            a.d > 0,
            a2.d > 0,
            b.d > 0,
            b2.d > 0,
            a.n * a2.d == a2.n * a.d,
            b.n * b2.d == b2.n * b.d;
}

pub proof fn lemma_le_lt_trans(a: Rat, b: Rat, c: Rat)
    requires
        rat_wf(a),
        rat_wf(b),
        rat_wf(c),
        rat_le(a, b),
        rat_lt(b, c),
    ensures
        rat_lt(a, c),
{
    assert(a.n * c.d < c.n * a.d) by (nonlinear_arith)
        requires
            a.d > 0,
            b.d > 0,
            c.d > 0,
            a.n * b.d <= b.n * a.d,
            b.n * c.d < c.n * b.d;
}

pub proof fn lemma_lt_le_trans(a: Rat, b: Rat, c: Rat)
    requires
        rat_wf(a),
        rat_wf(b),
        rat_wf(c),
        rat_lt(a, b),
        rat_le(b, c),
    ensures
        rat_lt(a, c),
{
    assert(a.n * c.d < c.n * a.d) by (nonlinear_arith)
        requires
            a.d > 0,
            b.d > 0,
            c.d > 0,
            a.n * b.d < b.n * a.d,
            b.n * c.d <= c.n * b.d;
}

/// Adding a nonnegative value does not decrease a sum.
pub proof fn lemma_le_add_nonneg(a: Rat, b: Rat)
    requires
        rat_wf(a),
        rat_wf(b),
        rat_nonneg(b),
    ensures
        rat_le(a, rat_add(a, b)),
        rat_wf(rat_add(a, b)),
        rat_nonneg(a) ==> rat_nonneg(rat_add(a, b)),
{
    assert(a.n * (a.d * b.d) <= (a.n * b.d + b.n * a.d) * a.d && a.d * b.d > 0 && (rat_nonneg(a)
        ==> a.n * b.d + b.n * a.d >= 0)) by (nonlinear_arith)
        requires
            a.d > 0,
            b.d > 0,
            b.n >= 0;
}

/// A fraction scaled by a positive factor in both components keeps its value.
proof fn lemma_eq_scale(a: Rat, k: int)
    requires
        rat_wf(a),
        k > 0,
    ensures
        rat_eq(Rat { n: a.n * k, d: a.d * k }, a),
        rat_wf(Rat { n: a.n * k, d: a.d * k }),
{
    assert((a.n * k) * a.d == a.n * (a.d * k) && a.d * k > 0) by (nonlinear_arith)
        requires
            a.d > 0,
            k > 0;
}

/// Dividing through by a common positive divisor distributes over addition.
pub proof fn lemma_div_add(a: Rat, b: Rat, t: Rat)
    requires
        rat_wf(a),
        rat_wf(b),
        rat_wf(t),
        t.n > 0,
    ensures
        rat_eq(rat_add(rat_div(a, t), rat_div(b, t)), rat_div(rat_add(a, b), t)),
        rat_wf(rat_div(a, t)),
{
    lemma_div_wf(a, t);
    lemma_div_wf(b, t);
    assert(rat_wf(rat_add(a, b))) by (nonlinear_arith)
        requires
            a.d > 0,
            b.d > 0;
    lemma_div_wf(rat_add(a, b), t);
    let target = rat_div(rat_add(a, b), t);
    // Both components of the sum of quotients carry a common factor t.n.
    assert((a.n * t.d) * (b.d * t.n) == (((a.n * b.d) * t.d)) * t.n) by (nonlinear_arith);
    assert((b.n * t.d) * (a.d * t.n) == (((b.n * a.d) * t.d)) * t.n) by (nonlinear_arith);
    assert((a.d * t.n) * (b.d * t.n) == ((a.d * b.d) * t.n) * t.n) by (nonlinear_arith);
    assert(((a.n * b.d) * t.d) * t.n + ((b.n * a.d) * t.d) * t.n == ((a.n * b.d + b.n * a.d) * t.d)
        * t.n) by (nonlinear_arith);
    assert(rat_add(rat_div(a, t), rat_div(b, t)) == (Rat { n: target.n * t.n, d: target.d * t.n }));
    lemma_eq_scale(target, t.n);
}

/// Replacing the divisor by an equal value gives an equal quotient.
pub proof fn lemma_div_congruence_divisor(a: Rat, t: Rat, t2: Rat)
    requires
        rat_wf(a),
        rat_wf(t),
        rat_wf(t2),
        t.n > 0,
        rat_eq(t, t2),
    ensures
        rat_eq(rat_div(a, t), rat_div(a, t2)),
        t2.n > 0,
{
    assert(t2.n > 0 && (a.n * t.d) * (a.d * t2.n) == (a.n * t2.d) * (a.d * t.n))
        by (nonlinear_arith)
        requires
            t.d > 0,
            t2.d > 0,
            t.n > 0,
            t.n * t2.d == t2.n * t.d;
}

/// A nonzero value divided by itself is one.
pub proof fn lemma_div_self(t: Rat)
    requires
        rat_wf(t),
        t.n > 0,
    ensures
        rat_eq(rat_div(t, t), rat_one()),
        rat_wf(rat_div(t, t)),
{
    assert((t.n * t.d) * 1 == 1 * (t.d * t.n) && t.d * t.n > 0) by (nonlinear_arith)
        requires
            t.d > 0,
            t.n > 0;
}

/// A sum of well-formed nonnegative values is well-formed and nonnegative.
pub proof fn lemma_sum_wf_nonneg(s: Seq<Rat>)
    requires
        rat_seq_wf(s),
        rat_seq_nonneg(s),
    ensures
        rat_wf(rat_seq_sum(s)),
        rat_nonneg(rat_seq_sum(s)),
    decreases s.len(),
{
    if s.len() > 0 {
        lemma_sum_wf_nonneg(s.drop_last());
        lemma_le_add_nonneg(rat_seq_sum(s.drop_last()), s.last());
    }
}

/// Sums respect pointwise value equality.
pub proof fn lemma_sum_pointwise_eq(s: Seq<Rat>, s2: Seq<Rat>)
    requires
        s.len() == s2.len(),
        rat_seq_wf(s),
        rat_seq_wf(s2),
        forall|i: int| 0 <= i < s.len() ==> rat_eq(#[trigger] s[i], s2[i]),
    ensures
        rat_eq(rat_seq_sum(s), rat_seq_sum(s2)),
        rat_wf(rat_seq_sum(s)),
        rat_wf(rat_seq_sum(s2)),
    decreases s.len(),
{
    lemma_sum_wf(s);
    lemma_sum_wf(s2);
    if s.len() > 0 {
        lemma_sum_pointwise_eq(s.drop_last(), s2.drop_last());
        lemma_add_congruence(rat_seq_sum(s.drop_last()), rat_seq_sum(s2.drop_last()), s.last(), s2.last());
    }
}

/// A sum of well-formed values is well-formed.
pub proof fn lemma_sum_wf(s: Seq<Rat>)
    requires
        rat_seq_wf(s),
    ensures
        rat_wf(rat_seq_sum(s)),
    decreases s.len(),
{
    if s.len() > 0 {
        lemma_sum_wf(s.drop_last());
        let a = rat_seq_sum(s.drop_last());
        let b = s.last();
        assert(a.d * b.d > 0) by (nonlinear_arith)
            requires
                a.d > 0,
                b.d > 0;
    }
}

/// Summing the values of a sequence divided through by a positive total
/// equals the sum of the sequence divided by that total.
pub proof fn lemma_sum_div(s: Seq<Rat>, t: Rat)
    requires
        rat_seq_wf(s),
        rat_wf(t),
        t.n > 0,
    ensures
        rat_eq(rat_seq_sum(s.map_values(|x: Rat| rat_div(x, t))), rat_div(rat_seq_sum(s), t)),
        rat_seq_wf(s.map_values(|x: Rat| rat_div(x, t))),
    decreases s.len(),
{
    let mapped = s.map_values(|x: Rat| rat_div(x, t));
    lemma_sum_wf(s);
    assert forall|i: int| 0 <= i < mapped.len() implies rat_wf(#[trigger] mapped[i]) by {
        lemma_div_add(s[i], s[i], t);
    }
    if s.len() == 0 {
        assert(mapped.len() == 0);
        assert(rat_eq(rat_seq_sum(mapped), rat_div(rat_seq_sum(s), t))) by (nonlinear_arith)
            requires
                rat_seq_sum(mapped) == rat_zero(),
                rat_seq_sum(s) == rat_zero(),
                t.d > 0,
                t.n > 0,
                rat_div(rat_seq_sum(s), t) == (Rat { n: 0 * t.d, d: 1 * t.n });
    } else {
        lemma_sum_div(s.drop_last(), t);
        assert(mapped.drop_last() =~= s.drop_last().map_values(|x: Rat| rat_div(x, t)));
        let sd = rat_seq_sum(s.drop_last());
        let md = rat_seq_sum(mapped.drop_last());
        lemma_sum_wf(s.drop_last());
        lemma_sum_wf(mapped.drop_last());
        lemma_div_wf(sd, t);
        lemma_div_wf(s.last(), t);
        lemma_div_wf(rat_seq_sum(s), t);
        lemma_div_add(sd, s.last(), t);
        // sum(mapped) = md + div(last, t)  ≡  div(sd, t) + div(last, t)  ≡  div(sd + last, t)
        lemma_add_congruence(md, rat_div(sd, t), rat_div(s.last(), t), rat_div(s.last(), t));
        lemma_sum_wf(mapped);
        let lhs = rat_seq_sum(mapped);
        let mid = rat_add(rat_div(sd, t), rat_div(s.last(), t));
        let rhs = rat_div(rat_seq_sum(s), t);
        lemma_rat_eq_trans(lhs, mid, rhs);
    }
}

/// A sum of `n` copies of `1 / d` equals `n / d`.
pub proof fn lemma_sum_uniform(n: int, d: int)
    requires
        0 <= n,
        1 <= d,
    ensures
        rat_eq(rat_seq_sum(Seq::new(n as nat, |i: int| Rat { n: 1, d: d })), Rat { n: n, d: d }),
    decreases n,
{
    let s = Seq::new(n as nat, |i: int| Rat { n: 1, d: d });
    if n == 0 {
        assert(rat_eq(rat_zero(), Rat { n: 0, d: d })) by (nonlinear_arith)
            requires
                d >= 1;
    } else {
        let prev = Seq::new((n - 1) as nat, |i: int| Rat { n: 1, d: d });
        assert(s.drop_last() =~= prev);
        lemma_sum_uniform(n - 1, d);
        assert(rat_seq_wf(prev));
        lemma_sum_wf(prev);
        let sp = rat_seq_sum(prev);
        lemma_add_congruence(sp, Rat { n: n - 1, d: d }, s.last(), s.last());
        // (n-1)/d + 1/d == ((n-1)*d + d) / d^2 ≡ n/d
        let mid = rat_add(Rat { n: n - 1, d: d }, Rat { n: 1, d: d });
        assert(rat_eq(mid, Rat { n: n, d: d }) && rat_wf(mid) && rat_wf(rat_add(sp, s.last())))
            by (nonlinear_arith)
            requires
                d >= 1,
                sp.d > 0,
                mid == (Rat { n: (n - 1) * d + 1 * d, d: d * d }),
                rat_add(sp, s.last()) == (Rat { n: sp.n * d + 1 * sp.d, d: sp.d * d }),
        ;
        lemma_rat_eq_trans(rat_add(sp, s.last()), mid, Rat { n: n, d: d });
    }
}

/// A sum of nonnegative values is zero only when every value is zero, and
/// then so is every prefix sum.
pub proof fn lemma_sum_zero_parts(s: Seq<Rat>)
    requires
        rat_seq_wf(s),
        rat_seq_nonneg(s),
        rat_eq(rat_seq_sum(s), rat_zero()),
    ensures
        forall|j: int| 0 <= j < s.len() ==> (#[trigger] s[j]).n == 0,
        forall|j: int| 0 <= j <= s.len() ==> rat_eq(rat_seq_sum(#[trigger] s.take(j)), rat_zero()),
    decreases s.len(),
{
    if s.len() > 0 {
        let a = rat_seq_sum(s.drop_last());
        let b = s.last();
        lemma_sum_wf_nonneg(s.drop_last());
        assert(a.n == 0 && b.n == 0) by (nonlinear_arith)
            requires
                a.d > 0,
                b.d > 0,
                a.n >= 0,
                b.n >= 0,
                (a.n * b.d + b.n * a.d) * 1 == 0 * (a.d * b.d);
        assert(a.n * 1 == 0 * a.d) by (nonlinear_arith)
            requires
                a.n == 0;
        assert(rat_eq(a, rat_zero()));
        lemma_sum_zero_parts(s.drop_last());
        assert forall|j: int| 0 <= j <= s.len() implies rat_eq(
            rat_seq_sum(#[trigger] s.take(j)),
            rat_zero(),
        ) by {
            if j < s.len() {
                assert(s.take(j) =~= s.drop_last().take(j));
            } else {
                assert(s.take(j) =~= s);
            }
        }
        assert forall|j: int| 0 <= j < s.len() implies (#[trigger] s[j]).n == 0 by {
            if j < s.len() - 1 {
                assert(s.drop_last()[j] == s[j]);
            }
        }
    }
}

/// One step of a running sum over a prefix of a sequence.
pub proof fn lemma_sum_take_step(s: Seq<Rat>, j: int)
    requires
        0 <= j < s.len(),
    ensures
        rat_seq_sum(s.take(j + 1)) == rat_add(rat_seq_sum(s.take(j)), s[j]),
{
    assert(s.take(j + 1).drop_last() =~= s.take(j));
    assert(s.take(j + 1).last() == s[j]);
}

/// The sum of a full prefix is the sum of the sequence.
pub proof fn lemma_sum_take_all(s: Seq<Rat>)
    ensures
        rat_seq_sum(s.take(s.len() as int)) == rat_seq_sum(s),
{
    assert(s.take(s.len() as int) =~= s);
}


/// The product of two factors in the symmetric `i64` range stays well
/// inside the `i128` range, with room to add two such products.
pub proof fn lemma_mul_i64_bound(a: int, b: int)
    requires
        fits_i64(a),
        fits_i64(b),
    ensures
        -0x3fff_ffff_ffff_ffff_0000_0000_0000_0001 <= a * b <= 0x3fff_ffff_ffff_ffff_0000_0000_0000_0001,
{
    assert(-0x3fff_ffff_ffff_ffff_0000_0000_0000_0001 <= a * b <= 0x3fff_ffff_ffff_ffff_0000_0000_0000_0001)
        by (nonlinear_arith)
        requires
            -0x7fff_ffff_ffff_ffff <= a <= 0x7fff_ffff_ffff_ffff,
            -0x7fff_ffff_ffff_ffff <= b <= 0x7fff_ffff_ffff_ffff;
}

} // verus!
