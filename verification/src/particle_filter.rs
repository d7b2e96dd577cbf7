//! The particle filter engine: owns a fixed-size collection of particles,
//! propagates them (`predict`), re-scores and renormalizes their weights
//! against a measurement and resamples (`update`).
//!
//! Weight bookkeeping is exact: after construction and after every
//! successful update the weights sum to exactly one, and systematic
//! resampling selects exactly the indices given by `sel_index`.

use vstd::prelude::*;

use crate::particles::Particle;
use crate::rational::Rat;
use crate::rational::Ratio;
use crate::rational::rat_eq;
use crate::rational::rat_le;
use crate::rational::rat_lt;
use crate::rational::rat_nonneg;
use crate::rational::rat_one;
use crate::rational::rat_seq_nonneg;
use crate::rational::rat_seq_sum;
use crate::rational::rat_seq_wf;
use crate::rational::rat_wf;
use crate::rational::rat_zero;
use crate::rational::rat_div;
use crate::rational::rat_add;
use crate::rational::lemma_sum_pointwise_eq;
use crate::rational::lemma_sum_uniform;
use crate::rational::lemma_rat_eq_trans;
use crate::rational::lemma_cmp_congruence;
use crate::rational::lemma_sum_wf;

verus! {

broadcast use crate::rational::group_ratio;

/// Why an update could not complete.
#[derive(Clone, Copy, Debug)]
pub enum FilterError {
    /// Every particle weight became zero: the filter has diverged and
    /// resampling is undefined.
    DegenerateWeights,
    /// An exact intermediate value escaped the machine representation.
    Overflow,
}

/// The weight a particle contributes to the total: its weight value, or
/// zero while the weight is still undefined.
pub open spec fn weight_rat<P: Particle>(p: P) -> Rat {
    match p.spec_weight() {
        Some(r) => r@,
        None => rat_zero(),
    }
}

pub open spec fn weights_of<P: Particle>(s: Seq<P>) -> Seq<Rat> {
    s.map_values(|p: P| weight_rat(p))
}

pub open spec fn all_valid<P: Particle>(s: Seq<P>) -> bool {
    forall|i: int| 0 <= i < s.len() ==> (#[trigger] s[i]).valid()
}

pub open spec fn weights_all_some<P: Particle>(s: Seq<P>) -> bool {
    forall|i: int| 0 <= i < s.len() ==> (#[trigger] s[i]).spec_weight() is Some
}

/// The collection carries a full weight distribution: every weight defined,
/// well-formed and nonnegative, and the weights sum to exactly one.
pub open spec fn normalized<P: Particle>(s: Seq<P>) -> bool {
    weights_all_some(s) && rat_seq_wf(weights_of(s)) && rat_seq_nonneg(weights_of(s)) && rat_eq(
        rat_seq_sum(weights_of(s)),
        rat_one(),
    )
}

/// Every particle re-scored against the measurement.
pub open spec fn updated_seq<P: Particle>(s: Seq<P>, m: <P as Particle>::Measurement) -> Seq<P> {
    s.map_values(|p: P| p.spec_after_update(m))
}

/// The particle filter: a non-empty, fixed-size collection of particles
/// mutated in place over the life of an estimation run.
#[derive(Debug, Clone)]
pub struct ParticleFilter<P: Particle> {
    particles: Vec<P>,
}

impl<P: Particle> ParticleFilter<P> {
    pub closed spec fn spec_particles(&self) -> Seq<P> {
        self.particles@
    }

    /// The collection is non-empty and every particle is well-formed.
    pub open spec fn wf(&self) -> bool {
        self.spec_particles().len() >= 1 && all_valid(self.spec_particles())
    }

    /// Take ownership of a state-initialized particle collection and give
    /// every particle the uniform weight `1 / n`.
    pub fn new(init_particles: Vec<P>) -> (r: ParticleFilter<P>)
        requires
            init_particles@.len() >= 1,
            init_particles@.len() <= 0x7fff_ffff_ffff_ffff,
            all_valid(init_particles@),
        ensures
            r.wf(),
            r.spec_particles().len() == init_particles@.len(),
            forall|i: int|
                0 <= i < init_particles@.len() ==> (#[trigger] r.spec_particles()[i])
                    == init_particles@[i].spec_with_weight(r.spec_particles()[i].spec_weight()),
            forall|i: int|
                0 <= i < init_particles@.len() ==> ((#[trigger] r.spec_particles()[i].spec_weight())
                    matches Some(c) && c.wf() && c@ == (Rat {
                    n: 1,
                    d: init_particles@.len() as int,
                })),
            normalized(r.spec_particles()),
    {
        let mut pf = ParticleFilter { particles: init_particles };
        pf.initialize_weights();
        pf
    }

    /// Reset every weight to the uniform `1 / n`.
    fn initialize_weights(&mut self)
        requires
            old(self).wf(),
            old(self).spec_particles().len() <= 0x7fff_ffff_ffff_ffff,
        ensures
            final(self).wf(),
            final(self).spec_particles().len() == old(self).spec_particles().len(),
            forall|i: int|
                0 <= i < old(self).spec_particles().len() ==> (#[trigger] final(self).spec_particles()[i]) == old(self).spec_particles()[i].spec_with_weight(
                    final(self).spec_particles()[i].spec_weight(),
                ),
            forall|i: int|
                0 <= i < old(self).spec_particles().len() ==> ((#[trigger] final(self).spec_particles()[i].spec_weight()) matches Some(c) && c.wf() && c@ == (Rat {
                    n: 1,
                    d: old(self).spec_particles().len() as int,
                })),
            normalized(final(self).spec_particles()),
    {
        let n = self.particles.len();
        let w = Ratio::new(1, n as i64);
        let mut out: Vec<P> = Vec::new();
        let mut i: usize = 0;
        while i < n
            invariant
                i <= n,
                n == self.particles.len(),
                self.particles@ == old(self).spec_particles(),
                all_valid(self.particles@),
                n <= 0x7fff_ffff_ffff_ffff,
                w.wf(),
                w@ == (Rat { n: 1, d: n as int }),
                out@.len() == i,
                forall|t: int|
                    0 <= t < i ==> (#[trigger] out@[t]) == self.particles@[t].spec_with_weight(
                        Some(w),
                    ) && out@[t].valid() && out@[t].spec_weight() == Some(w),
            decreases n - i,
        {
            let mut p = self.particles[i].duplicate();
            p.set_weight(Some(w));
            out.push(p);
            i += 1;
        }
        self.particles = out;
        proof {
            let ws = weights_of(self.particles@);
            let uniform = Seq::new(n as nat, |t: int| Rat { n: 1, d: n as int });
            assert(ws =~= uniform);
            lemma_sum_uniform(n as int, n as int);
            lemma_sum_pointwise_eq(ws, uniform);
            lemma_sum_wf(uniform);
            lemma_rat_eq_trans(rat_seq_sum(ws), Rat { n: n as int, d: n as int }, rat_one());
        }
    }

    /// Propagate every particle's state one step under `input`; weights are
    /// untouched.
    pub fn predict(&mut self, input: &<P as Particle>::Input)
        requires
            old(self).wf(),
            forall|i: int|
                0 <= i < old(self).spec_particles().len() ==> (#[trigger] old(self).spec_particles()[i]).input_ok(*input),
        ensures
            final(self).wf(),
            final(self).spec_particles().len() == old(self).spec_particles().len(),
            forall|i: int|
                0 <= i < old(self).spec_particles().len() ==> (#[trigger] final(self).spec_particles()[i]) == old(self).spec_particles()[i].spec_after_predict(*input),
            forall|i: int|
                0 <= i < old(self).spec_particles().len() ==> (#[trigger] final(self).spec_particles()[i].spec_weight()) == old(self).spec_particles()[i].spec_weight(),
    {
        let n = self.particles.len();
        let mut out: Vec<P> = Vec::new();
        let mut i: usize = 0;
        while i < n
            invariant
                i <= n,
                n == self.particles.len(),
                self.particles@ == old(self).spec_particles(),
                all_valid(self.particles@),
                forall|t: int|
                    0 <= t < n ==> (#[trigger] self.particles@[t]).input_ok(*input),
                out@.len() == i,
                forall|t: int|
                    0 <= t < i ==> (#[trigger] out@[t]) == self.particles@[t].spec_after_predict(
                        *input,
                    ) && out@[t].valid() && out@[t].spec_weight()
                        == self.particles@[t].spec_weight(),
            decreases n - i,
        {
            let mut p = self.particles[i].duplicate();
            p.predict(input);
            out.push(p);
            i += 1;
        }
        self.particles = out;
    }

    /// Read-only view of the particle collection.
    pub fn get_particles(&self) -> (r: &Vec<P>)
        ensures
            r@ == self.spec_particles(),
    {
        &self.particles
    }
}

/// The stored weight of a particle as a machine value; zero while the
/// weight is still undefined.
pub open spec fn stored_weight<P: Particle>(p: P) -> Ratio {
    match p.spec_weight() {
        Some(w) => w,
        None => crate::rational::spec_ratio(0, 1),
    }
}

/// Specification mirror of the running weight total over the first `i`
/// particles: exact checked addition with reduction after every step;
/// `None` as soon as an exact intermediate escapes the representation.
pub open spec fn spec_total_acc<P: Particle>(s: Seq<P>, i: int) -> Option<Ratio>
    decreases i,
{
    if i <= 0 {
        Some(crate::rational::spec_ratio(0, 1))
    } else {
        match spec_total_acc(s, i - 1) {
            Some(acc) => match acc.spec_add(stored_weight(s[i - 1])) {
                Some(sum) => Some(sum.spec_reduce()),
                None => None,
            },
            None => None,
        }
    }
}

/// The machine value of the collection's total weight, or `None` when the
/// exact accumulation does not fit the representation.
pub open spec fn spec_total<P: Particle>(s: Seq<P>) -> Option<Ratio> {
    spec_total_acc(s, s.len() as int)
}

/// The machine value a particle's weight normalizes to: the stored weight
/// divided by the total, reduced; `None` when the exact quotient does not
/// fit the representation.
pub open spec fn spec_norm_weight<P: Particle>(p: P, total: Ratio) -> Option<Ratio> {
    match stored_weight(p).spec_div(total) {
        Some(q) => Some(q.spec_reduce()),
        None => None,
    }
}

/// Every normalized weight of the collection fits the representation.
pub open spec fn norm_fits<P: Particle>(s: Seq<P>, total: Ratio) -> bool {
    forall|i: int| 0 <= i < s.len() ==> (#[trigger] spec_norm_weight(s[i], total)) is Some
}

/// The collection with every weight normalized against its own total.
/// Meaningful when the total fits, is nonzero, and every quotient fits.
pub open spec fn spec_normalize_seq<P: Particle>(s: Seq<P>) -> Seq<P> {
    s.map_values(
        |p: P|
            p.spec_with_weight(
                Some(spec_norm_weight(p, spec_total(s).unwrap()).unwrap()),
            ),
    )
}

/// Normalization fails with `Overflow` exactly when the exact running
/// total, or one normalized weight, escapes the machine representation
/// (with a nonzero total; an all-zero total is the degenerate condition).
pub open spec fn normalize_overflows<P: Particle>(s: Seq<P>) -> bool {
    spec_total(s) is None || (spec_total(s) matches Some(t) && t@.n != 0 && !norm_fits(s, t))
}

/// Normalization succeeds exactly when the total fits, is nonzero, and
/// every normalized weight fits.
pub open spec fn normalize_succeeds<P: Particle>(s: Seq<P>) -> bool {
    spec_total(s) matches Some(t) && t@.n != 0 && norm_fits(s, t)
}

/// A full update of a re-scored collection fails with `Overflow` exactly
/// when normalization does, or when the resampling pass cannot re-total
/// the normalized weights.
pub open spec fn update_overflows<P: Particle>(s: Seq<P>) -> bool {
    normalize_overflows(s) || (normalize_succeeds(s) && spec_total(spec_normalize_seq(s)) is None)
}

/// Once the exact accumulation has overflowed it stays overflowed.
proof fn lemma_total_none_absorbs<P: Particle>(s: Seq<P>, i: int, j: int)
    requires
        i <= j,
        spec_total_acc(s, i) is None,
    ensures
        spec_total_acc(s, j) is None,
    decreases j - i,
{
    if i < j {
        lemma_total_none_absorbs(s, i, j - 1);
    }
}

/// Relation between a weighted collection and its normalized image: each
/// particle keeps its state and models and its weight becomes the old
/// weight divided by the old total.
pub open spec fn normalize_rel<P: Particle>(s: Seq<P>, t: Seq<P>) -> bool {
    t.len() == s.len() && forall|i: int|
        0 <= i < s.len() ==> ((#[trigger] t[i]) == s[i].spec_with_weight(t[i].spec_weight()) && (
        t[i].spec_weight() matches Some(c) && c.wf() && rat_nonneg(c@) && rat_eq(
            c@,
            rat_div(weight_rat(s[i]), rat_seq_sum(weights_of(s))),
        )))
}

/// Relation between a normalized collection and its systematically
/// resampled image under offset `u0`: output slot `i` is a copy of the
/// particle at `sel_index`, reweighted to `1 / n`.
pub open spec fn resample_rel<P: Particle>(s: Seq<P>, t: Seq<P>, u0: Rat) -> bool {
    t.len() == s.len() && forall|i: int|
        0 <= i < t.len() ==> ((#[trigger] t[i]) == s[sel_index(
            weights_of(s),
            u0,
            i,
        )].spec_with_weight(t[i].spec_weight()) && (t[i].spec_weight() matches Some(c) && c.wf()
            && c@ == (Rat { n: 1, d: s.len() as int })))
}

/// Evenly spaced resampling pointer `(i + u0) / n`, as an exact rational.
pub open spec fn resample_pointer(u0: Rat, i: int, n: int) -> Rat {
    Rat { n: i * u0.d + u0.n, d: n * u0.d }
}

/// Cumulative weight: the sum of the first `j + 1` weights.
pub open spec fn cum_weight(ws: Seq<Rat>, j: int) -> Rat {
    rat_seq_sum(ws.take(j + 1))
}

/// The index the cumulative-sum walk stops at for pointer `p`, starting
/// from `j`: the first index whose cumulative weight reaches `p`, capped
/// at the last index.
pub open spec fn sel_from(ws: Seq<Rat>, p: Rat, j: int) -> int
    decreases ws.len() - j,
{
    if j >= ws.len() - 1 {
        ws.len() - 1
    } else if rat_le(p, cum_weight(ws, j)) {
        j
    } else {
        sel_from(ws, p, j + 1)
    }
}

/// The systematic-resampling selection for output slot `i`.
pub open spec fn sel_index(ws: Seq<Rat>, u0: Rat, i: int) -> int {
    sel_from(ws, resample_pointer(u0, i, ws.len() as int), 0)
}

/// The walk's stopping index is the selection index: reaching `j` with
/// every earlier cumulative weight strictly below the pointer pins
/// `sel_from` from anywhere at or before `j`.
proof fn lemma_sel_from_char(ws: Seq<Rat>, p: Rat, a: int, j: int)
    requires
        0 <= a <= j < ws.len(),
        j < ws.len() - 1 ==> rat_le(p, cum_weight(ws, j)),
        forall|k: int| a <= k < j ==> !rat_le(p, cum_weight(ws, #[trigger] (k + 0))),
    ensures
        sel_from(ws, p, a) == j,
    decreases j - a,
{
    if a < j {
        assert(!rat_le(p, cum_weight(ws, a + 0)));
        lemma_sel_from_char(ws, p, a + 1, j);
    }
}

/// Facts about the resampling pointers: they are well-formed, nonnegative,
/// strictly below one, and strictly increasing in the slot index.
proof fn lemma_pointer_facts(u0: Rat, i: int, n: int)
    requires
        rat_wf(u0),
        rat_nonneg(u0),
        rat_lt(u0, rat_one()),
        0 <= i < n,
    ensures
        rat_wf(resample_pointer(u0, i, n)),
        rat_nonneg(resample_pointer(u0, i, n)),
        rat_lt(resample_pointer(u0, i, n), rat_one()),
        i + 1 < n ==> rat_lt(resample_pointer(u0, i, n), resample_pointer(u0, i + 1, n)),
{
    let p = resample_pointer(u0, i, n);
    let q = resample_pointer(u0, i + 1, n);
    assert(p.d > 0 && p.n >= 0 && p.n * 1 < 1 * p.d) by (nonlinear_arith)
        requires
            u0.d > 0,
            u0.n >= 0,
            u0.n * 1 < 1 * u0.d,
            0 <= i < n,
            p.n == i * u0.d + u0.n,
            p.d == n * u0.d;
    if i + 1 < n {
        assert(p.n * q.d < q.n * p.d) by (nonlinear_arith)
            requires
                u0.d > 0,
                n > 0,
                p.n == i * u0.d + u0.n,
                q.n == (i + 1) * u0.d + u0.n,
                p.d == n * u0.d,
                q.d == n * u0.d;
    }
}

/// With all weights equal, systematic resampling distributes the
/// selections exactly evenly: output slot `i` selects index `i`, for any
/// offset strictly inside `(0, 1)`. (An offset of exactly zero lands the
/// pointers on the cumulative boundaries, which select the boundary's own
/// index instead.)
pub proof fn lemma_uniform_weights_select_evenly(ws: Seq<Rat>, u0: Rat, i: int)
    requires
        ws.len() >= 1,
        forall|t: int| 0 <= t < ws.len() ==> (#[trigger] ws[t]) == (Rat {
            n: 1,
            d: ws.len() as int,
        }),
        rat_wf(u0),
        rat_lt(rat_zero(), u0),
        rat_lt(u0, rat_one()),
        0 <= i < ws.len(),
    ensures
        sel_index(ws, u0, i) == i,
{
    let n = ws.len() as int;
    assert(u0.n > 0);
    lemma_pointer_facts(u0, i, n);
    let p = resample_pointer(u0, i, n);
    assert forall|j: int| 0 <= j < n implies rat_eq(
        #[trigger] cum_weight(ws, j),
        Rat { n: j + 1, d: n },
    ) && rat_wf(cum_weight(ws, j)) by {
        assert(ws.take(j + 1) =~= Seq::new((j + 1) as nat, |t: int| Rat { n: 1, d: n }));
        lemma_sum_uniform(j + 1, n);
        lemma_sum_wf(ws.take(j + 1));
    }
    assert(rat_le(p, Rat { n: i + 1, d: n })) by (nonlinear_arith)
        requires
            p.n == i * u0.d + u0.n,
            p.d == n * u0.d,
            u0.n * 1 < 1 * u0.d,
            u0.d > 0,
            1 <= n,
            0 <= i < n;
    lemma_cmp_congruence(p, p, Rat { n: i + 1, d: n }, cum_weight(ws, i));
    assert forall|k: int| 0 <= k < i implies !rat_le(p, cum_weight(ws, #[trigger] (k + 0))) by {
        assert(rat_lt(Rat { n: k + 1, d: n }, p)) by (nonlinear_arith)
            requires
                p.n == i * u0.d + u0.n,
                p.d == n * u0.d,
                u0.n > 0,
                u0.d > 0,
                1 <= n,
                0 <= k < i,
                i < n;
        lemma_cmp_congruence(Rat { n: k + 1, d: n }, cum_weight(ws, k), p, p);
    }
    lemma_sel_from_char(ws, p, 0, i);
}

/// Relies on rand's `random` to draw the single shared resampling offset;
/// nothing is assumed of the value drawn.
#[verifier::external_body]
fn draw_random_u32() -> u32 {
    rand::random::<u32>()
}

impl<P: Particle> ParticleFilter<P> {
    /// Divide every weight by the total so the weights sum to exactly one.
    /// An all-zero total is the degenerate-filter condition and fails the
    /// call with the collection unchanged.
    fn normalize_weights(&mut self) -> (r: Result<(), FilterError>)
        requires
            old(self).wf(),
            weights_all_some(old(self).spec_particles()),
            rat_seq_wf(weights_of(old(self).spec_particles())),
            rat_seq_nonneg(weights_of(old(self).spec_particles())),
        ensures
            final(self).wf(),
            final(self).spec_particles().len() == old(self).spec_particles().len(),
            r == Result::<(), FilterError>::Err(FilterError::DegenerateWeights) <==> rat_eq(
                rat_seq_sum(weights_of(old(self).spec_particles())),
                rat_zero(),
            ),
            r is Err ==> *final(self) == *old(self),
            r == Result::<(), FilterError>::Err(FilterError::Overflow) <==> normalize_overflows(
                old(self).spec_particles(),
            ),
            r matches Ok(_) <==> normalize_succeeds(old(self).spec_particles()),
            r matches Ok(_) ==> final(self).spec_particles() == spec_normalize_seq(
                old(self).spec_particles(),
            ),
            r matches Ok(_) ==> normalize_rel(
                old(self).spec_particles(),
                final(self).spec_particles(),
            ) && normalized(final(self).spec_particles()),
    {
        let ghost s0 = old(self).spec_particles();
        let ghost ws = weights_of(old(self).spec_particles());
        let n = self.particles.len();
        let mut total = Ratio::zero();
        let mut i: usize = 0;
        while i < n
            invariant
                i <= n,
                n == self.particles.len(),
                self.particles@ == old(self).spec_particles(),
                s0 == old(self).spec_particles(),
                all_valid(self.particles@),
                weights_all_some(self.particles@),
                rat_seq_wf(ws),
                rat_seq_nonneg(ws),
                ws == weights_of(self.particles@),
                total.wf(),
                rat_nonneg(total@),
                rat_eq(total@, rat_seq_sum(ws.take(i as int))),
                total@.n == 0 ==> total@ == rat_zero(),
                Some(total) == spec_total_acc(s0, i as int),
            decreases n - i,
        {
            proof {
                assert(ws[i as int] == weight_rat(self.particles@[i as int]));
                crate::rational::lemma_sum_wf_nonneg(ws.take(i as int));
            }
            let w = self.particles[i].get_weight().unwrap();
            proof {
                assert(w == stored_weight(s0[i as int]));
            }
            let sum = match total.checked_add(w) {
                Some(v) => v,
                None => {
                    proof {
                        assert(spec_total_acc(s0, i as int + 1) is None);
                        lemma_total_none_absorbs(s0, i as int + 1, s0.len() as int);
                        if rat_eq(rat_seq_sum(ws), rat_zero()) {
                            crate::rational::lemma_sum_zero_parts(ws);
                            lemma_sum_wf(ws.take(i as int));
                            lemma_rat_eq_trans(
                                total@,
                                rat_seq_sum(ws.take(i as int)),
                                rat_zero(),
                            );
                            assert(total@.n == 0) by (nonlinear_arith)
                                requires
                                    total@.n * 1 == 0 * total@.d;
                            assert(total@ == rat_zero());
                            assert(w@.n == 0);
                            assert(rat_add(total@, w@) == (Rat { n: 0 * w@.d + w@.n * 1, d: 1 * w@.d }));
                            assert(0 * w@.d + w@.n * 1 == 0) by (nonlinear_arith)
                                requires
                                    w@.n == 0;
                            assert(1 * w@.d == w@.d) by (nonlinear_arith);
                            assert(false);
                        }
                    }
                    return Err(FilterError::Overflow);
                },
            };
            let prev = total;
            total = sum.reduce();
            proof {
                crate::rational::lemma_sum_take_step(ws, i as int);
                lemma_sum_wf(ws.take(i as int));
                lemma_sum_wf(ws.take(i as int + 1));
                crate::rational::lemma_le_add_nonneg(prev@, w@);
                crate::rational::lemma_add_congruence(
                    prev@,
                    rat_seq_sum(ws.take(i as int)),
                    w@,
                    ws[i as int],
                );
                lemma_rat_eq_trans(total@, rat_add(prev@, w@), rat_seq_sum(ws.take(i as int + 1)));
                if total@.n == 0 {
                    assert(sum@.n == 0) by (nonlinear_arith)
                        requires
                            total@.n == 0,
                            total@.d > 0,
                            sum@.d > 0,
                            total@.n * sum@.d == sum@.n * total@.d;
                }
                assert(Some(total) == spec_total_acc(s0, i as int + 1));
            }
            i += 1;
        }
        proof {
            crate::rational::lemma_sum_take_all(ws);
            lemma_sum_wf(ws);
        }
        if total.is_zero() {
            proof {
                lemma_rat_eq_trans(rat_seq_sum(ws), total@, rat_zero());
                assert(total@.n == 0) by (nonlinear_arith)
                    requires
                        total@.n * 1 == 0 * total@.d;
            }
            return Err(FilterError::DegenerateWeights);
        }
        proof {
            assert(total@.n > 0);
            if rat_eq(rat_seq_sum(ws), rat_zero()) {
                lemma_rat_eq_trans(total@, rat_seq_sum(ws), rat_zero());
                assert(false);
            }
            crate::rational::lemma_div_congruence_divisor(rat_one(), total@, rat_seq_sum(ws));
        }
        let ghost stotal = rat_seq_sum(ws);
        let mut out: Vec<P> = Vec::new();
        let mut t: usize = 0;
        while t < n
            invariant
                t <= n,
                n == self.particles.len(),
                self.particles@ == old(self).spec_particles(),
                s0 == old(self).spec_particles(),
                all_valid(self.particles@),
                weights_all_some(self.particles@),
                rat_seq_wf(ws),
                rat_seq_nonneg(ws),
                ws == weights_of(self.particles@),
                total.wf(),
                total@.n > 0,
                stotal == rat_seq_sum(ws),
                rat_wf(stotal),
                stotal.n > 0,
                rat_eq(total@, stotal),
                Some(total) == spec_total(s0),
                out@.len() == t,
                forall|q: int|
                    0 <= q < t ==> ((#[trigger] spec_norm_weight(s0[q], total)) matches Some(c)
                        && out@[q].spec_weight() == Some(c)),
                forall|q: int|
                    0 <= q < t ==> ((#[trigger] out@[q]) == self.particles@[q].spec_with_weight(
                        out@[q].spec_weight(),
                    ) && (out@[q].spec_weight() matches Some(c) && c.wf() && rat_nonneg(c@)
                        && rat_eq(c@, rat_div(ws[q], stotal))) && out@[q].valid()),
            decreases n - t,
        {
            proof {
                assert(ws[t as int] == weight_rat(self.particles@[t as int]));
            }
            let w = self.particles[t].get_weight().unwrap();
            proof {
                assert(w == stored_weight(s0[t as int]));
            }
            let q0 = match w.checked_div(total) {
                Some(v) => v,
                None => {
                    proof {
                        assert(spec_norm_weight(s0[t as int], total) is None);
                        assert(!norm_fits(s0, total));
                    }
                    return Err(FilterError::Overflow);
                },
            };
            let nw = q0.reduce();
            proof {
                assert(rat_nonneg(q0@)) by (nonlinear_arith)
                    requires
                        q0@.n == w@.n * total@.d,
                        w@.n >= 0,
                        total@.d > 0,
                        total@.n > 0;
                crate::rational::lemma_div_congruence_divisor(w@, total@, stotal);
                crate::rational::lemma_div_wf(w@, stotal);
                lemma_rat_eq_trans(nw@, q0@, rat_div(w@, stotal));
            }
            let mut p = self.particles[t].duplicate();
            p.set_weight(Some(nw));
            out.push(p);
            t += 1;
        }
        self.particles = out;
        proof {
            assert(norm_fits(s0, total));
            assert forall|q: int| 0 <= q < n implies self.particles@[q] == spec_normalize_seq(
                s0,
            )[q] by {
                assert(spec_norm_weight(s0[q], total) matches Some(c) && self.particles@[q]
                    == s0[q].spec_with_weight(Some(c)));
            }
            assert(self.particles@ =~= spec_normalize_seq(s0));
            let nws = weights_of(self.particles@);
            let mapped = ws.map_values(|x: Rat| rat_div(x, stotal));
            crate::rational::lemma_sum_div(ws, stotal);
            assert(nws.len() == mapped.len());
            assert(forall|q: int|
                0 <= q < nws.len() ==> rat_eq(#[trigger] nws[q], mapped[q]) && rat_wf(nws[q]));
            lemma_sum_pointwise_eq(nws, mapped);
            crate::rational::lemma_div_self(stotal);
            crate::rational::lemma_div_wf(stotal, stotal);
            lemma_rat_eq_trans(rat_seq_sum(nws), rat_seq_sum(mapped), rat_div(stotal, stotal));
            lemma_rat_eq_trans(rat_seq_sum(nws), rat_div(stotal, stotal), rat_one());
        }
        Ok(())
    }
}

impl<P: Particle> ParticleFilter<P> {
    /// Systematic resampling with the shared offset `u0`: build the
    /// cumulative weight distribution, walk the evenly spaced pointers
    /// `(i + u0) / n` through it with one shared index, and replace the
    /// whole collection by the selected clones, each reweighted to `1 / n`.
    /// The collection changes only on success.
    fn resample(&mut self, u0: Ratio) -> (r: Result<(), FilterError>)
        requires
            old(self).wf(),
            normalized(old(self).spec_particles()),
            u0.wf(),
            rat_nonneg(u0@),
            rat_lt(u0@, rat_one()),
            (old(self).spec_particles().len() as int) * u0@.d <= 0x7fff_ffff_ffff_ffff,
            old(self).spec_particles().len() <= 0x7fff_ffff_ffff_ffff,
        ensures
            r is Err ==> *final(self) == *old(self) && r == Result::<(), FilterError>::Err(
                FilterError::Overflow,
            ),
            r is Err <==> spec_total(old(self).spec_particles()) is None,
            r matches Ok(_) ==> final(self).wf() && resample_rel(
                old(self).spec_particles(),
                final(self).spec_particles(),
                u0@,
            ) && normalized(final(self).spec_particles()),
    {
        let ghost s0 = old(self).spec_particles();
        let ghost ws = weights_of(old(self).spec_particles());
        let n = self.particles.len();
        let mut cumsum: Vec<Ratio> = Vec::new();
        let mut acc = Ratio::zero();
        let mut idx: usize = 0;
        while idx < n
            invariant
                idx <= n,
                n == self.particles.len(),
                self.particles@ == old(self).spec_particles(),
                s0 == old(self).spec_particles(),
                all_valid(self.particles@),
                weights_all_some(self.particles@),
                rat_seq_wf(ws),
                rat_seq_nonneg(ws),
                ws == weights_of(self.particles@),
                acc.wf(),
                rat_nonneg(acc@),
                rat_eq(acc@, rat_seq_sum(ws.take(idx as int))),
                Some(acc) == spec_total_acc(s0, idx as int),
                cumsum@.len() == idx,
                forall|j: int|
                    0 <= j < idx ==> (#[trigger] cumsum@[j]).wf() && rat_eq(
                        cumsum@[j]@,
                        cum_weight(ws, j),
                    ),
            decreases n - idx,
        {
            proof {
                assert(ws[idx as int] == weight_rat(self.particles@[idx as int]));
                crate::rational::lemma_sum_wf_nonneg(ws.take(idx as int));
            }
            let w = self.particles[idx].get_weight().unwrap();
            proof {
                assert(w == stored_weight(s0[idx as int]));
            }
            let sum = match acc.checked_add(w) {
                Some(v) => v,
                None => {
                    proof {
                        assert(spec_total_acc(s0, idx as int + 1) is None);
                        lemma_total_none_absorbs(s0, idx as int + 1, s0.len() as int);
                    }
                    return Err(FilterError::Overflow);
                },
            };
            let prev = acc;
            acc = sum.reduce();
            proof {
                crate::rational::lemma_sum_take_step(ws, idx as int);
                lemma_sum_wf(ws.take(idx as int));
                lemma_sum_wf(ws.take(idx as int + 1));
                crate::rational::lemma_le_add_nonneg(prev@, w@);
                crate::rational::lemma_add_congruence(
                    prev@,
                    rat_seq_sum(ws.take(idx as int)),
                    w@,
                    ws[idx as int],
                );
                lemma_rat_eq_trans(
                    acc@,
                    rat_add(prev@, w@),
                    rat_seq_sum(ws.take(idx as int + 1)),
                );
                assert(Some(acc) == spec_total_acc(s0, idx as int + 1));
            }
            cumsum.push(acc);
            idx += 1;
        }
        let u0num = u0.numer();
        let u0den = u0.denom();
        proof {
            crate::rational::lemma_mul_i64_bound(n as int, u0den as int);
        }
        let nd: i64 = (n as i64) * u0den;
        let mut indices: Vec<usize> = Vec::new();
        let mut j: usize = 0;
        let mut i: usize = 0;
        while i < n
            invariant
                i <= n,
                j < n,
                n >= 1,
                n == self.particles.len(),
                self.particles@ == old(self).spec_particles(),
                all_valid(self.particles@),
                weights_all_some(self.particles@),
                normalized(self.particles@),
                rat_seq_wf(ws),
                rat_seq_nonneg(ws),
                ws == weights_of(self.particles@),
                u0.wf(),
                rat_nonneg(u0@),
                rat_lt(u0@, rat_one()),
                (n as int) * u0@.d <= 0x7fff_ffff_ffff_ffff,
                n <= 0x7fff_ffff_ffff_ffff,
                u0num as int == u0@.n,
                u0den as int == u0@.d,
                nd as int == n as int * u0@.d,
                cumsum@.len() == n,
                forall|k: int|
                    0 <= k < n ==> (#[trigger] cumsum@[k]).wf() && rat_eq(
                        cumsum@[k]@,
                        cum_weight(ws, k),
                    ),
                indices@.len() == i,
                forall|t: int|
                    0 <= t < i ==> (#[trigger] indices@[t]) < n && indices@[t] as int == sel_index(
                        ws,
                        u0@,
                        t,
                    ),
                i < n ==> forall|k: int|
                    0 <= k < j ==> rat_lt(
                        #[trigger] cum_weight(ws, k),
                        resample_pointer(u0@, i as int, n as int),
                    ),
            decreases n - i,
        {
            proof {
                lemma_pointer_facts(u0@, i as int, n as int);
                assert(((i as int) * (u0den as int) + (u0num as int)) < (nd as int)) by (nonlinear_arith)
                    requires
                        u0den as int > 0,
                        u0num as int >= 0,
                        u0num as int * 1 < 1 * u0den as int,
                        0 <= i as int && (i as int) < n as int,
                        nd as int == n as int * u0den as int;
                assert((i as int) * (u0den as int) >= 0) by (nonlinear_arith)
                    requires
                        u0den as int > 0,
                        0 <= i as int;
            }
            let pnum: i64 = (i as i64) * u0den + u0num;
            let ui = Ratio::new(pnum, nd);
            proof {
                assert(ui@ == resample_pointer(u0@, i as int, n as int));
            }
            let ghost p = resample_pointer(u0@, i as int, n as int);
            while cumsum[j].lt(ui)
                invariant
                    j < n,
                    n >= 1,
                    i < n,
                    rat_seq_wf(ws),
                    rat_seq_nonneg(ws),
                    ws.len() == n,
                    cumsum@.len() == n,
                    forall|k: int|
                        0 <= k < n ==> (#[trigger] cumsum@[k]).wf() && rat_eq(
                            cumsum@[k]@,
                            cum_weight(ws, k),
                        ),
                    ui.wf(),
                    ui@ == p,
                    p == resample_pointer(u0@, i as int, n as int),
                    rat_wf(p),
                    rat_lt(p, rat_one()),
                    rat_eq(rat_seq_sum(ws), rat_one()),
                    forall|k: int| 0 <= k < j ==> rat_lt(#[trigger] cum_weight(ws, k), p),
                decreases n - j,
            {
                proof {
                    crate::rational::lemma_sum_take_all(ws);
                    lemma_sum_wf(ws);
                    lemma_sum_wf(ws.take(j as int + 1));
                    crate::rational::lemma_cmp_congruence(
                        cumsum@[j as int]@,
                        cum_weight(ws, j as int),
                        ui@,
                        ui@,
                    );
                    if j == n - 1 {
                        // the last cumulative weight is one, and every
                        // pointer is strictly below one
                        crate::rational::lemma_cmp_congruence(
                            p,
                            p,
                            cum_weight(ws, j as int),
                            rat_one(),
                        );
                        assert(rat_lt(cum_weight(ws, j as int), p));
                        assert(rat_lt(p, cum_weight(ws, j as int)));
                        assert(false);
                    }
                }
                j += 1;
            }
            proof {
                lemma_sum_wf(ws.take(j as int + 1));
                crate::rational::lemma_cmp_congruence(
                    ui@,
                    ui@,
                    cumsum@[j as int]@,
                    cum_weight(ws, j as int),
                );
                assert(rat_le(p, cum_weight(ws, j as int)));
                assert(forall|k: int|
                    0 <= k < j ==> !rat_le(p, cum_weight(ws, #[trigger] (k + 0))));
                lemma_sel_from_char(ws, p, 0, j as int);
                assert(j as int == sel_index(ws, u0@, i as int));
            }
            indices.push(j);
            let ghost oldj = j as int;
            i += 1;
            proof {
                if i < n {
                    lemma_pointer_facts(u0@, i as int - 1, n as int);
                    assert forall|k: int|
                        0 <= k < oldj implies rat_lt(
                        #[trigger] cum_weight(ws, k),
                        resample_pointer(u0@, i as int, n as int),
                    ) by {
                        lemma_sum_wf(ws.take(k + 1));
                        crate::rational::lemma_lt_le_trans(
                            cum_weight(ws, k),
                            resample_pointer(u0@, i as int - 1, n as int),
                            resample_pointer(u0@, i as int, n as int),
                        );
                    }
                }
            }
        }
        let inv_n = Ratio::new(1, n as i64);
        let mut newp: Vec<P> = Vec::new();
        let mut t: usize = 0;
        while t < n
            invariant
                t <= n,
                n == self.particles.len(),
                self.particles@ == old(self).spec_particles(),
                all_valid(self.particles@),
                ws == weights_of(self.particles@),
                inv_n.wf(),
                inv_n@ == (Rat { n: 1, d: n as int }),
                n <= 0x7fff_ffff_ffff_ffff,
                indices@.len() == n,
                forall|q: int|
                    0 <= q < n ==> (#[trigger] indices@[q]) < n && indices@[q] as int == sel_index(
                        ws,
                        u0@,
                        q,
                    ),
                newp@.len() == t,
                forall|q: int|
                    0 <= q < t ==> ((#[trigger] newp@[q]) == self.particles@[indices@[q] as int].spec_with_weight(
                        Some(inv_n),
                    ) && newp@[q].valid() && newp@[q].spec_weight() == Some(inv_n)),
            decreases n - t,
        {
            let mut p = self.particles[indices[t]].duplicate();
            p.set_weight(Some(inv_n));
            newp.push(p);
            t += 1;
        }
        let ghost survivors = self.particles@;
        self.particles = newp;
        proof {
            assert forall|q: int| 0 <= q < n implies ((#[trigger] self.particles@[q])
                == survivors[sel_index(ws, u0@, q)].spec_with_weight(
                self.particles@[q].spec_weight(),
            )) by {
                assert(self.particles@[q] == survivors[indices@[q] as int].spec_with_weight(
                    Some(inv_n),
                ));
            }
            let nws = weights_of(self.particles@);
            let uniform = Seq::new(n as nat, |q: int| Rat { n: 1, d: n as int });
            assert(nws =~= uniform);
            lemma_sum_uniform(n as int, n as int);
            lemma_sum_pointwise_eq(nws, uniform);
            lemma_sum_wf(uniform);
            lemma_rat_eq_trans(rat_seq_sum(nws), Rat { n: n as int, d: n as int }, rat_one());
        }
        Ok(())
    }

    /// One full measurement update with an explicit resampling offset
    /// `u0` in `[0, 1)`: re-score every particle against the measurement,
    /// normalize the weights, and resample systematically. An all-zero
    /// total weight is reported as `DegenerateWeights`, with the re-scored
    /// but unnormalized collection left in place.
    pub fn update_with(
        &mut self,
        measurement: &<P as Particle>::Measurement,
        u0: Ratio,
    ) -> (r: Result<(), FilterError>)
        requires
            old(self).wf(),
            forall|i: int|
                0 <= i < old(self).spec_particles().len() ==> (#[trigger] old(self).spec_particles()[i]).measurement_ok(*measurement),
            u0.wf(),
            rat_nonneg(u0@),
            rat_lt(u0@, rat_one()),
            (old(self).spec_particles().len() as int) * u0@.d <= 0x7fff_ffff_ffff_ffff,
        ensures
            final(self).wf(),
            final(self).spec_particles().len() == old(self).spec_particles().len(),
            r == Result::<(), FilterError>::Err(FilterError::DegenerateWeights) <==> rat_eq(
                rat_seq_sum(weights_of(updated_seq(old(self).spec_particles(), *measurement))),
                rat_zero(),
            ),
            r == Result::<(), FilterError>::Err(FilterError::DegenerateWeights) ==> final(self).spec_particles() == updated_seq(old(self).spec_particles(), *measurement),
            r == Result::<(), FilterError>::Err(FilterError::Overflow) <==> update_overflows(
                updated_seq(old(self).spec_particles(), *measurement),
            ),
            r == Result::<(), FilterError>::Err(FilterError::Overflow) && normalize_overflows(
                updated_seq(old(self).spec_particles(), *measurement),
            ) ==> final(self).spec_particles() == updated_seq(
                old(self).spec_particles(),
                *measurement,
            ),
            r == Result::<(), FilterError>::Err(FilterError::Overflow) && normalize_succeeds(
                updated_seq(old(self).spec_particles(), *measurement),
            ) ==> final(self).spec_particles() == spec_normalize_seq(
                updated_seq(old(self).spec_particles(), *measurement),
            ),
            r matches Ok(_) ==> normalize_rel(
                updated_seq(old(self).spec_particles(), *measurement),
                spec_normalize_seq(updated_seq(old(self).spec_particles(), *measurement)),
            ) && normalized(
                spec_normalize_seq(updated_seq(old(self).spec_particles(), *measurement)),
            ) && resample_rel(
                spec_normalize_seq(updated_seq(old(self).spec_particles(), *measurement)),
                final(self).spec_particles(),
                u0@,
            ) && normalized(final(self).spec_particles()),
    {
        let ghost orig = self.particles@;
        let n = self.particles.len();
        let mut scored: Vec<P> = Vec::new();
        let mut i: usize = 0;
        while i < n
            invariant
                i <= n,
                n == self.particles.len(),
                self.particles@ == orig,
                all_valid(orig),
                forall|t: int|
                    0 <= t < n ==> (#[trigger] orig[t]).measurement_ok(*measurement),
                scored@.len() == i,
                forall|t: int|
                    0 <= t < i ==> ((#[trigger] scored@[t]) == orig[t].spec_after_update(
                        *measurement,
                    ) && scored@[t].valid() && (scored@[t].spec_weight() matches Some(w) && w.wf()
                        && rat_nonneg(w@))),
            decreases n - i,
        {
            let mut p = self.particles[i].duplicate();
            p.update(measurement);
            scored.push(p);
            i += 1;
        }
        self.particles = scored;
        proof {
            assert(self.particles@ =~= updated_seq(orig, *measurement));
            let ws = weights_of(self.particles@);
            assert forall|t: int| 0 <= t < n implies rat_wf(#[trigger] ws[t]) && rat_nonneg(
                ws[t],
            ) by {
                assert(ws[t] == weight_rat(self.particles@[t]));
            }
        }
        match self.normalize_weights() {
            Ok(()) => (),
            Err(e) => {
                return Err(e);
            },
        }
        let ghost mid = self.particles@;
        proof {
            assert(n <= 0x7fff_ffff_ffff_ffff) by (nonlinear_arith)
                requires
                    (n as int) * u0@.d <= 0x7fff_ffff_ffff_ffff,
                    u0@.d >= 1,
                    n >= 0;
        }
        match self.resample(u0) {
            Ok(()) => {
                proof {
                    assert(normalize_rel(updated_seq(orig, *measurement), mid) && normalized(mid)
                        && resample_rel(mid, self.particles@, u0@) && normalized(
                        self.particles@,
                    ));
                }
                Ok(())
            },
            Err(e) => {
                return Err(e);
            },
        }
    }

    /// One full measurement update: draw the single shared uniform
    /// resampling offset, then update, normalize and resample with it.
    pub fn update(&mut self, measurement: &<P as Particle>::Measurement) -> (r: Result<
        (),
        FilterError,
    >)
        requires
            old(self).wf(),
            forall|i: int|
                0 <= i < old(self).spec_particles().len() ==> (#[trigger] old(self).spec_particles()[i]).measurement_ok(*measurement),
            old(self).spec_particles().len() < 0x8000_0000,
        ensures
            final(self).wf(),
            final(self).spec_particles().len() == old(self).spec_particles().len(),
            r == Result::<(), FilterError>::Err(FilterError::DegenerateWeights) <==> rat_eq(
                rat_seq_sum(weights_of(updated_seq(old(self).spec_particles(), *measurement))),
                rat_zero(),
            ),
            r == Result::<(), FilterError>::Err(FilterError::DegenerateWeights) ==> final(self).spec_particles() == updated_seq(old(self).spec_particles(), *measurement),
            r == Result::<(), FilterError>::Err(FilterError::Overflow) <==> update_overflows(
                updated_seq(old(self).spec_particles(), *measurement),
            ),
            r == Result::<(), FilterError>::Err(FilterError::Overflow) && normalize_overflows(
                updated_seq(old(self).spec_particles(), *measurement),
            ) ==> final(self).spec_particles() == updated_seq(
                old(self).spec_particles(),
                *measurement,
            ),
            r == Result::<(), FilterError>::Err(FilterError::Overflow) && normalize_succeeds(
                updated_seq(old(self).spec_particles(), *measurement),
            ) ==> final(self).spec_particles() == spec_normalize_seq(
                updated_seq(old(self).spec_particles(), *measurement),
            ),
            r matches Ok(_) ==> normalize_rel(
                updated_seq(old(self).spec_particles(), *measurement),
                spec_normalize_seq(updated_seq(old(self).spec_particles(), *measurement)),
            ) && normalized(
                spec_normalize_seq(updated_seq(old(self).spec_particles(), *measurement)),
            ) && normalized(final(self).spec_particles()),
            r matches Ok(_) ==> exists|u0: Rat|
                rat_wf(u0) && rat_nonneg(u0) && rat_lt(u0, rat_one()) && #[trigger] resample_rel(
                    spec_normalize_seq(updated_seq(old(self).spec_particles(), *measurement)),
                    final(self).spec_particles(),
                    u0,
                ),
    {
        let k = draw_random_u32();
        let u0 = Ratio::new(k as i64, 4294967296i64);
        let ghost nlen = old(self).spec_particles().len() as int;
        proof {
            assert(u0@.n * 1 < 1 * u0@.d) by (nonlinear_arith)
                requires
                    u0@.n < 4294967296,
                    u0@.d == 4294967296;
            assert(nlen * u0@.d <= 0x7fff_ffff_ffff_ffff) by (nonlinear_arith)
                requires
                    nlen < 0x8000_0000,
                    0 <= nlen,
                    u0@.d == 4294967296;
        }
        let r = self.update_with(measurement, u0);
        proof {
            if r matches Ok(_) {
                assert(rat_wf(u0@) && rat_nonneg(u0@) && rat_lt(u0@, rat_one()) && resample_rel(
                    spec_normalize_seq(updated_seq(old(self).spec_particles(), *measurement)),
                    self.particles@,
                    u0@,
                ));
            }
        }
        r
    }
}

} // verus!
