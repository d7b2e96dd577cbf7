//! Probability-density utilities: the error taxonomy shared by all density
//! evaluations, and the triangular density on an interval `[min, max]` with
//! peak at `mode`.
//!
//! Evaluation is exact: the density of a rational point is itself a rational
//! number, specified by `tri_density`. The multivariate Gaussian density of
//! the application layer has no exact rational form and lives outside the
//! verified library.

use vstd::prelude::*;

use crate::rational::Rat;
use crate::rational::Ratio;
use crate::rational::rat_div;
use crate::rational::rat_eq;
use crate::rational::rat_fits;
use crate::rational::rat_le;
use crate::rational::rat_lt;
use crate::rational::rat_mul;
use crate::rational::rat_nonneg;
use crate::rational::rat_one;
use crate::rational::rat_sub;
use crate::rational::rat_wf;
use crate::rational::lemma_cmp_congruence;
use crate::rational::lemma_le_lt_trans;
use crate::rational::lemma_lt_le_trans;

verus! {

broadcast use crate::rational::Ratio::lemma_wf_view;

/// Why a density operation failed.
#[derive(Clone, Copy, Debug)]
pub enum PdfError {
    /// A linear-algebra operation (covariance solve or determinant) failed.
    LinAlgError,
    /// A density was asked about a value outside its support; carries the
    /// value tried and the bound it violated.
    OutOfBounds { tried_val: Ratio, bound: Ratio },
    /// A density has a degenerate or inverted support.
    InvalidBounds { min: Ratio, max: Ratio },
    /// The exact result does not fit the machine representation.
    Overflow,
}

pub type PdfResult<T> = Result<T, PdfError>;

/// Support narrower than this is considered degenerate.
pub open spec fn tri_eps() -> Rat {
    Rat { n: 1, d: 1000000 }
}

/// The support `[min, max]` is wide enough to carry a density.
pub open spec fn tri_bounds_ok(min: Rat, max: Rat) -> bool {
    rat_fits(rat_sub(max, min)) && !rat_lt(rat_sub(max, min), tri_eps())
}

pub open spec fn tri_in_support(min: Rat, max: Rat, x: Rat) -> bool {
    !rat_lt(x, min) && !rat_lt(max, x)
}

/// Peak value of the triangular density: `2 / (max - min)`, which makes the
/// area under the triangle one.
pub open spec fn tri_h(min: Rat, max: Rat) -> Rat {
    rat_div(Rat { n: 2, d: 1 }, rat_sub(max, min))
}

/// Whether `x` falls on the rising edge of the triangle. When the peak sits
/// on the upper bound the rising formula covers the whole support.
pub open spec fn tri_rising_case(max: Rat, mode: Rat, x: Rat) -> bool {
    rat_lt(x, mode) || !rat_lt(mode, max)
}

pub open spec fn tri_rising(min: Rat, max: Rat, mode: Rat, x: Rat) -> Rat {
    rat_mul(rat_div(tri_h(min, max), rat_sub(mode, min)), rat_sub(x, min))
}

pub open spec fn tri_falling(min: Rat, max: Rat, mode: Rat, x: Rat) -> Rat {
    rat_mul(rat_div(tri_h(min, max), rat_sub(max, mode)), rat_sub(max, x))
}

/// The triangular density value at a point of the support.
pub open spec fn tri_density(min: Rat, max: Rat, mode: Rat, x: Rat) -> Rat {
    if tri_rising_case(max, mode, x) {
        tri_rising(min, max, mode, x)
    } else {
        tri_falling(min, max, mode, x)
    }
}

/// All intermediate values of the evaluation fit the machine representation.
pub open spec fn tri_fits(min: Rat, max: Rat, mode: Rat, x: Rat) -> bool {
    let h = tri_h(min, max);
    rat_fits(h) && if tri_rising_case(max, mode, x) {
        let d1 = rat_sub(mode, min);
        let q = rat_div(h, d1);
        let p = rat_sub(x, min);
        rat_fits(d1) && rat_fits(q) && rat_fits(p) && rat_fits(rat_mul(q, p))
    } else {
        let d2 = rat_sub(max, mode);
        let q = rat_div(h, d2);
        let p = rat_sub(max, x);
        rat_fits(d2) && rat_fits(q) && rat_fits(p) && rat_fits(rat_mul(q, p))
    }
}

/// The full evaluation result of the triangular density, as a function of
/// the density's parameters and the point: which error comes on which
/// input, and the exact machine value returned inside the support.
pub open spec fn spec_tri_prob_density(t: Triangular, x: Ratio) -> PdfResult<Ratio> {
    match t.max.spec_sub(t.min) {
        None => Err(PdfError::Overflow),
        Some(dm) => if rat_lt(dm@, tri_eps()) {
            Err(PdfError::InvalidBounds { min: t.min, max: t.max })
        } else if rat_lt(x@, t.min@) {
            Err(PdfError::OutOfBounds { tried_val: x, bound: t.min })
        } else if rat_lt(t.max@, x@) {
            Err(PdfError::OutOfBounds { tried_val: x, bound: t.max })
        } else {
            match crate::rational::spec_ratio(2, 1).spec_div(dm) {
                None => Err(PdfError::Overflow),
                Some(h) => if rat_lt(x@, t.mode@) || !rat_lt(t.mode@, t.max@) {
                    match t.mode.spec_sub(t.min) {
                        None => Err(PdfError::Overflow),
                        Some(d1) => match h.spec_div(d1) {
                            None => Err(PdfError::Overflow),
                            Some(q) => match x.spec_sub(t.min) {
                                None => Err(PdfError::Overflow),
                                Some(p) => match q.spec_mul(p) {
                                    None => Err(PdfError::Overflow),
                                    Some(v) => Ok(v),
                                },
                            },
                        },
                    }
                } else {
                    match t.max.spec_sub(t.mode) {
                        None => Err(PdfError::Overflow),
                        Some(d2) => match h.spec_div(d2) {
                            None => Err(PdfError::Overflow),
                            Some(q) => match t.max.spec_sub(x) {
                                None => Err(PdfError::Overflow),
                                Some(p) => match q.spec_mul(p) {
                                    None => Err(PdfError::Overflow),
                                    Some(v) => Ok(v),
                                },
                            },
                        },
                    }
                },
            }
        },
    }
}

/// Triangular probability density with support `[min, max]` and peak at
/// `mode`. The fields are public like every other model parameter;
/// `prob_density` revalidates the support on each evaluation.
#[derive(Clone, Copy, Debug)]
pub struct Triangular {
    pub min: Ratio,
    pub max: Ratio,
    pub mode: Ratio,
}

impl Triangular {
    pub open spec fn wf(self) -> bool {
        self.min.wf() && self.max.wf() && self.mode.wf()
    }

    /// Construct a triangular density, surfacing a degenerate or inverted
    /// support (or a peak outside of it) as `InvalidBounds` at construction
    /// time.
    pub fn new(min: Ratio, max: Ratio, mode: Ratio) -> (r: PdfResult<Triangular>)
        requires
            min.wf(),
            max.wf(),
            mode.wf(),
        ensures
            !rat_fits(rat_sub(max@, min@)) ==> r == PdfResult::<Triangular>::Err(
                PdfError::Overflow,
            ),
            rat_fits(rat_sub(max@, min@)) && (rat_lt(rat_sub(max@, min@), tri_eps()) || !rat_le(
                min@,
                mode@,
            ) || !rat_le(mode@, max@)) ==> r == PdfResult::<Triangular>::Err(
                PdfError::InvalidBounds { min, max },
            ),
            tri_bounds_ok(min@, max@) && rat_le(min@, mode@) && rat_le(mode@, max@) ==> r
                == PdfResult::<Triangular>::Ok(Triangular { min, max, mode }),
            r matches Ok(t) ==> t.wf(),
    {
        let dm = match max.checked_sub(min) {
            Some(v) => v,
            None => {
                return Err(PdfError::Overflow);
            },
        };
        let eps = Ratio::new(1, 1000000);
        if dm.lt(eps) {
            return Err(PdfError::InvalidBounds { min, max });
        }
        if mode.lt(min) || max.lt(mode) {
            return Err(PdfError::InvalidBounds { min, max });
        }
        Ok(Triangular { min, max, mode })
    }

    /// Evaluate the density at `x`.
    ///
    /// The result is pinned for every input: `InvalidBounds` exactly on a
    /// degenerate support, `OutOfBounds` exactly outside the support (with
    /// the violated bound), the exact `tri_density` value inside it, and
    /// `Overflow` exactly when that exact value escapes the representation.
    pub fn prob_density(&self, x: &Ratio) -> (r: PdfResult<Ratio>)
        requires
            self.wf(),
            x.wf(),
        ensures
            !rat_fits(rat_sub(self.max@, self.min@)) ==> r == PdfResult::<Ratio>::Err(
                PdfError::Overflow,
            ),
            rat_fits(rat_sub(self.max@, self.min@)) && rat_lt(rat_sub(self.max@, self.min@), tri_eps())
                ==> r == PdfResult::<Ratio>::Err(
                PdfError::InvalidBounds { min: self.min, max: self.max },
            ),
            tri_bounds_ok(self.min@, self.max@) && rat_lt(x@, self.min@) ==> r == PdfResult::<
                Ratio,
            >::Err(PdfError::OutOfBounds { tried_val: *x, bound: self.min }),
            tri_bounds_ok(self.min@, self.max@) && !rat_lt(x@, self.min@) && rat_lt(self.max@, x@)
                ==> r == PdfResult::<Ratio>::Err(
                PdfError::OutOfBounds { tried_val: *x, bound: self.max },
            ),
            tri_bounds_ok(self.min@, self.max@) && tri_in_support(self.min@, self.max@, x@)
                && tri_fits(self.min@, self.max@, self.mode@, x@) ==> (r matches Ok(v) && v.wf()
                && v@ == tri_density(self.min@, self.max@, self.mode@, x@) && rat_nonneg(v@)),
            tri_bounds_ok(self.min@, self.max@) && tri_in_support(self.min@, self.max@, x@)
                && !tri_fits(self.min@, self.max@, self.mode@, x@) ==> r == PdfResult::<Ratio>::Err(
                PdfError::Overflow,
            ),
            r == spec_tri_prob_density(*self, *x),
    {
        let dm = match self.max.checked_sub(self.min) {
            Some(v) => v,
            None => {
                return Err(PdfError::Overflow);
            },
        };
        let eps = Ratio::new(1, 1000000);
        if dm.lt(eps) {
            return Err(PdfError::InvalidBounds { min: self.min, max: self.max });
        }
        if x.lt(self.min) {
            return Err(PdfError::OutOfBounds { tried_val: *x, bound: self.min });
        }
        if self.max.lt(*x) {
            return Err(PdfError::OutOfBounds { tried_val: *x, bound: self.max });
        }
        proof {
            assert(dm@.n > 0) by (nonlinear_arith)
                requires
                    dm@.d > 0,
                    dm@.n * 1000000 >= 1 * dm@.d;
        }
        let two = Ratio::new(2, 1);
        let h = match two.checked_div(dm) {
            Some(v) => v,
            None => {
                return Err(PdfError::Overflow);
            },
        };
        if x.lt(self.mode) || !self.mode.lt(self.max) {
            let d1 = match self.mode.checked_sub(self.min) {
                Some(v) => v,
                None => {
                    return Err(PdfError::Overflow);
                },
            };
            proof {
                if rat_lt(x@, self.mode@) {
                    lemma_le_lt_trans(self.min@, x@, self.mode@);
                } else {
                    lemma_lt_le_trans(self.min@, self.max@, self.mode@);
                }
                assert(d1@.n > 0);
            }
            let q = match h.checked_div(d1) {
                Some(v) => v,
                None => {
                    return Err(PdfError::Overflow);
                },
            };
            let p = match x.checked_sub(self.min) {
                Some(v) => v,
                None => {
                    return Err(PdfError::Overflow);
                },
            };
            let v = match q.checked_mul(p) {
                Some(v) => v,
                None => {
                    return Err(PdfError::Overflow);
                },
            };
            proof {
                assert(q@.n > 0) by (nonlinear_arith)
                    requires
                        h@.n > 0,
                        d1@.d > 0,
                        q@.n == h@.n * d1@.d;
                assert(v@.n >= 0) by (nonlinear_arith)
                    requires
                        q@.n > 0,
                        p@.n >= 0,
                        v@.n == q@.n * p@.n;
            }
            Ok(v)
        } else {
            let d2 = match self.max.checked_sub(self.mode) {
                Some(v) => v,
                None => {
                    return Err(PdfError::Overflow);
                },
            };
            let q = match h.checked_div(d2) {
                Some(v) => v,
                None => {
                    return Err(PdfError::Overflow);
                },
            };
            let p = match self.max.checked_sub(*x) {
                Some(v) => v,
                None => {
                    return Err(PdfError::Overflow);
                },
            };
            let v = match q.checked_mul(p) {
                Some(v) => v,
                None => {
                    return Err(PdfError::Overflow);
                },
            };
            proof {
                assert(q@.n > 0) by (nonlinear_arith)
                    requires
                        h@.n > 0,
                        d2@.d > 0,
                        q@.n == h@.n * d2@.d;
                assert(v@.n >= 0) by (nonlinear_arith)
                    requires
                        q@.n > 0,
                        p@.n >= 0,
                        v@.n == q@.n * p@.n;
            }
            Ok(v)
        }
    }
}

/// A nondegenerate support has positive width and a positive peak height.
pub proof fn lemma_tri_h_pos(min: Rat, max: Rat)
    requires
        rat_wf(min),
        rat_wf(max),
        tri_bounds_ok(min, max),
    ensures
        rat_sub(max, min).n > 0,
        rat_wf(rat_sub(max, min)),
        tri_h(min, max).n > 0,
        rat_wf(tri_h(min, max)),
        rat_lt(min, max),
{
    crate::rational::lemma_sub_mul_wf(max, min);
    let dm = rat_sub(max, min);
    assert(dm.n > 0) by (nonlinear_arith)
        requires
            dm.d > 0,
            dm.n * 1000000 >= 1 * dm.d;
    crate::rational::lemma_div_wf(Rat { n: 2, d: 1 }, dm);
}

/// Cancelling a division by a positive value against a multiplication by
/// the same value gives back the dividend.
proof fn lemma_div_mul_cancel(a: Rat, d: Rat)
    requires
        rat_wf(a),
        rat_wf(d),
        d.n > 0,
    ensures
        rat_eq(rat_mul(rat_div(a, d), d), a),
        rat_wf(rat_mul(rat_div(a, d), d)),
{
    assert(((a.n * d.d) * d.n) * a.d == a.n * ((a.d * d.n) * d.d) && (a.d * d.n) * d.d > 0)
        by (nonlinear_arith)
        requires
            a.d > 0,
            d.d > 0,
            d.n > 0;
}

/// A nonnegative fraction of a positive quantity is at most the whole:
/// `(h / w) * p <= h` when `0 <= p <= w`.
proof fn lemma_scaled_ratio_le(h: Rat, w: Rat, p: Rat)
    requires
        rat_wf(h),
        rat_wf(w),
        rat_wf(p),
        h.n > 0,
        w.n > 0,
        rat_nonneg(p),
        rat_le(p, w),
    ensures
        rat_le(rat_mul(rat_div(h, w), p), h),
{
    assert(((h.n * w.d) * p.n) * h.d == (p.n * w.d) * (h.n * h.d)) by (nonlinear_arith);
    assert(h.n * ((h.d * w.n) * p.d) == (w.n * p.d) * (h.n * h.d)) by (nonlinear_arith);
    assert((p.n * w.d) * (h.n * h.d) <= (w.n * p.d) * (h.n * h.d)) by (nonlinear_arith)
        requires
            p.n * w.d <= w.n * p.d,
            h.n > 0,
            h.d > 0;
}

/// Shifting both sides of an inequality by the same value keeps it:
/// `x <= y` implies `x - m <= y - m`, and also `b - y <= b - x`.
proof fn lemma_sub_monotone(x: Rat, y: Rat, m: Rat)
    requires
        rat_wf(x),
        rat_wf(y),
        rat_wf(m),
        rat_le(x, y),
    ensures
        rat_le(rat_sub(x, m), rat_sub(y, m)),
        rat_le(rat_sub(m, y), rat_sub(m, x)),
{
    assert((x.n * m.d - m.n * x.d) * (y.d * m.d) <= (y.n * m.d - m.n * y.d) * (x.d * m.d)
        && (m.n * y.d - y.n * m.d) * (m.d * x.d) <= (m.n * x.d - x.n * m.d) * (m.d * y.d))
        by (nonlinear_arith)
        requires
            x.d > 0,
            y.d > 0,
            m.d > 0,
            x.n * y.d <= y.n * x.d;
}

/// The triangular density is continuous at its peak: the rising and the
/// falling edge formulas agree at `x == mode`, where both equal the peak
/// height `tri_h`.
pub proof fn lemma_density_continuous_at_mode(min: Rat, max: Rat, mode: Rat)
    requires
        rat_wf(min),
        rat_wf(max),
        rat_wf(mode),
        tri_bounds_ok(min, max),
        rat_lt(min, mode),
        rat_lt(mode, max),
    ensures
        rat_eq(tri_rising(min, max, mode, mode), tri_h(min, max)),
        rat_eq(tri_falling(min, max, mode, mode), tri_h(min, max)),
        tri_density(min, max, mode, mode) == tri_falling(min, max, mode, mode),
{
    lemma_tri_h_pos(min, max);
    let h = tri_h(min, max);
    crate::rational::lemma_sub_mul_wf(mode, min);
    crate::rational::lemma_sub_mul_wf(max, mode);
    lemma_div_mul_cancel(h, rat_sub(mode, min));
    lemma_div_mul_cancel(h, rat_sub(max, mode));
}

/// The peak of the triangular density: no point of the support has a larger
/// density value than the mode. With the residual-scoring models this is
/// what makes an exact measurement match the best-weighted hypothesis.
pub proof fn lemma_density_peak_at_mode(min: Rat, max: Rat, mode: Rat, x: Rat)
    requires
        rat_wf(min),
        rat_wf(max),
        rat_wf(mode),
        rat_wf(x),
        tri_bounds_ok(min, max),
        rat_lt(min, mode),
        rat_lt(mode, max),
        tri_in_support(min, max, x),
    ensures
        rat_le(tri_density(min, max, mode, x), tri_density(min, max, mode, mode)),
{
    lemma_tri_h_pos(min, max);
    let h = tri_h(min, max);
    let d1 = rat_sub(mode, min);
    let d2 = rat_sub(max, mode);
    crate::rational::lemma_sub_mul_wf(mode, min);
    crate::rational::lemma_sub_mul_wf(max, mode);
    lemma_div_mul_cancel(h, d2);
    let peak = tri_density(min, max, mode, mode);
    assert(peak == rat_mul(rat_div(h, d2), d2));
    if tri_rising_case(max, mode, x) {
        let p = rat_sub(x, min);
        crate::rational::lemma_sub_mul_wf(x, min);
        lemma_sub_monotone(x, mode, min);
        lemma_scaled_ratio_le(h, d1, p);
        crate::rational::lemma_div_wf(h, d1);
        crate::rational::lemma_sub_mul_wf(rat_div(h, d1), p);
        lemma_cmp_congruence(
            tri_rising(min, max, mode, x),
            tri_rising(min, max, mode, x),
            h,
            peak,
        );
    } else {
        let p = rat_sub(max, x);
        crate::rational::lemma_sub_mul_wf(max, x);
        lemma_sub_monotone(mode, x, max);
        assert(rat_le(p, d2));
        lemma_scaled_ratio_le(h, d2, p);
        crate::rational::lemma_div_wf(h, d2);
        crate::rational::lemma_sub_mul_wf(rat_div(h, d2), p);
        lemma_cmp_congruence(
            tri_falling(min, max, mode, x),
            tri_falling(min, max, mode, x),
            h,
            peak,
        );
    }
}

/// The area under the triangular density is exactly one: half of the base
/// `max - min` times the peak height `2 / (max - min)`. This is the exact
/// form of the statement that the density integrates to one over its
/// support.
pub proof fn lemma_density_area(min: Rat, max: Rat)
    requires
        rat_wf(min),
        rat_wf(max),
        tri_bounds_ok(min, max),
    ensures
        rat_eq(
            rat_mul(Rat { n: 1, d: 2 }, rat_mul(rat_sub(max, min), tri_h(min, max))),
            rat_one(),
        ),
        rat_wf(rat_mul(Rat { n: 1, d: 2 }, rat_mul(rat_sub(max, min), tri_h(min, max)))),
{
    lemma_tri_h_pos(min, max);
    let dm = rat_sub(max, min);
    assert(1 * (dm.n * (2 * dm.d)) * 1 == 1 * (2 * (dm.d * (1 * dm.n))) && 2 * (dm.d * (1 * dm.n))
        > 0) by (nonlinear_arith)
        requires
            dm.d > 0,
            dm.n > 0;
}

} // verus!
