//! A concrete instantiation of the model contracts on exact rational
//! scalars: a first-order linear process (`dx = rate * x + u`, explicit
//! Euler step) observed directly, with triangular observation noise.
//!
//! This is the model the filter engine is exercised and tested against;
//! physical models whose dynamics need irrational functions live in the
//! application layer.

use vstd::prelude::*;

use crate::particles::MeasurementModel;
use crate::particles::Particle;
use crate::particles::ProcessModel;
use crate::pdfs::PdfError;
use crate::pdfs::PdfResult;
use crate::pdfs::Triangular;
use crate::pdfs::spec_tri_prob_density;
use crate::rational::Rat;
use crate::rational::Ratio;
use crate::rational::rat_eq;
use crate::rational::rat_zero;
use crate::rational::spec_ratio;

verus! {

broadcast use crate::rational::group_ratio;

/// First-order linear dynamics `dx = rate * x + input`, integrated by one
/// explicit Euler step of length `ts`. Overflow of the exact machine
/// representation falls back to a zero derivative, so the step then leaves
/// the state value unchanged.
#[derive(Clone, Copy, Debug)]
pub struct LinearProcessModel {
    pub rate: Ratio,
    pub ts: Ratio,
}

impl LinearProcessModel {
    pub fn new(rate: Ratio, ts: Ratio) -> (r: LinearProcessModel)
        ensures
            r == (LinearProcessModel { rate, ts }),
    {
        LinearProcessModel { rate, ts }
    }
}

impl ProcessModel for LinearProcessModel {
    type State = Ratio;

    type Input = Ratio;

    open spec fn valid(&self) -> bool {
        self.rate.wf() && self.ts.wf()
    }

    open spec fn state_ok(&self, state: Ratio) -> bool {
        state.wf()
    }

    open spec fn input_ok(&self, input: Ratio) -> bool {
        input.wf()
    }

    open spec fn spec_continuous(&self, state: Ratio, input: Ratio) -> Ratio {
        match self.rate.spec_mul(state) {
            Some(rs) => match rs.spec_add(input) {
                Some(c) => c,
                None => spec_ratio(0, 1),
            },
            None => spec_ratio(0, 1),
        }
    }

    open spec fn spec_discrete(&self, state: Ratio, input: Ratio) -> Ratio {
        let c = self.spec_continuous(state, input);
        match c.spec_mul(self.ts) {
            Some(step) => match state.spec_add(step) {
                Some(ns) => ns,
                None => state,
            },
            None => state,
        }
    }

    fn continuous(&self, state: &Ratio, input: &Ratio) -> (r: Ratio) {
        match self.rate.checked_mul(*state) {
            Some(rs) => match rs.checked_add(*input) {
                Some(c) => c,
                None => Ratio::zero(),
            },
            None => Ratio::zero(),
        }
    }

    fn discrete(&self, state: &Ratio, input: &Ratio) -> (r: Ratio) {
        let c = self.continuous(state, input);
        proof {
            assert(c.wf());
        }
        match c.checked_mul(self.ts) {
            Some(step) => match state.checked_add(step) {
                Some(ns) => ns,
                None => *state,
            },
            None => *state,
        }
    }
}

/// Direct observation of the scalar state, scored against triangular
/// observation noise.
#[derive(Clone, Copy, Debug)]
pub struct LinearMeasurementModel {
    pub noise_pdf: Triangular,
}

impl LinearMeasurementModel {
    pub fn new(noise_pdf: Triangular) -> (r: LinearMeasurementModel)
        ensures
            r == (LinearMeasurementModel { noise_pdf }),
    {
        LinearMeasurementModel { noise_pdf }
    }
}

impl MeasurementModel for LinearMeasurementModel {
    type State = Ratio;

    type Measurement = Ratio;

    type Noise = Ratio;

    open spec fn valid(&self) -> bool {
        self.noise_pdf.wf() && crate::rational::rat_le(self.noise_pdf.min@, self.noise_pdf.mode@)
            && crate::rational::rat_le(self.noise_pdf.mode@, self.noise_pdf.max@)
    }

    open spec fn state_ok(&self, state: Ratio) -> bool {
        state.wf()
    }

    open spec fn measurement_ok(&self, m: Ratio) -> bool {
        m.wf()
    }

    open spec fn noise_ok(&self, noise: Ratio) -> bool {
        noise.wf()
    }

    open spec fn noise_in_support(&self, noise: Ratio) -> bool {
        crate::pdfs::tri_in_support(self.noise_pdf.min@, self.noise_pdf.max@, noise@)
    }

    open spec fn spec_evaluate(&self, state: Ratio) -> Ratio {
        state
    }

    open spec fn spec_noise_density(&self, noise: Ratio) -> PdfResult<Ratio> {
        spec_tri_prob_density(self.noise_pdf, noise)
    }

    open spec fn spec_combine(&self, m: Ratio, noise: Ratio) -> Ratio {
        match m.spec_add(noise) {
            Some(c) => c,
            None => m,
        }
    }

    fn evaluate(&self, state: &Ratio) -> (r: Ratio) {
        *state
    }

    fn noise_density(&self, noise: Ratio) -> (r: PdfResult<Ratio>) {
        self.noise_pdf.prob_density(&noise)
    }

    /// The most likely noise value, the peak of the triangular density.
    /// Simulation noise of this model is deterministic by design; drawing
    /// from the density itself needs irrational arithmetic and lives in
    /// the application layer.
    fn sample(&self) -> (r: Ratio) {
        self.noise_pdf.mode
    }

    fn combine(&self, m: Ratio, noise: Ratio) -> (r: Ratio) {
        match m.checked_add(noise) {
            Some(c) => c,
            None => m,
        }
    }
}

/// A weighted scalar hypothesis carrying its two models.
#[derive(Clone, Copy, Debug)]
pub struct LinearParticle {
    pub weight: Option<Ratio>,
    pub state: Ratio,
    pub meas_model: LinearMeasurementModel,
    pub proc_model: LinearProcessModel,
}

impl LinearParticle {
    /// A particle with an initialized state and no weight yet; the filter
    /// defines the weight when it takes ownership.
    pub fn new(
        init_state: Ratio,
        meas_model: LinearMeasurementModel,
        proc_model: LinearProcessModel,
    ) -> (r: LinearParticle)
        ensures
            r == (LinearParticle { weight: None, state: init_state, meas_model, proc_model }),
    {
        LinearParticle { weight: None, state: init_state, meas_model, proc_model }
    }
}

impl Particle for LinearParticle {
    type State = Ratio;

    type Measurement = Ratio;

    type Input = Ratio;

    open spec fn valid(&self) -> bool {
        self.state.wf() && self.meas_model.valid() && self.proc_model.valid() && (
        self.weight matches Some(w) ==> w.wf())
    }

    open spec fn spec_weight(&self) -> Option<Ratio> {
        self.weight
    }

    open spec fn spec_state(&self) -> Ratio {
        self.state
    }

    open spec fn measurement_ok(&self, m: Ratio) -> bool {
        m.wf()
    }

    open spec fn input_ok(&self, input: Ratio) -> bool {
        input.wf()
    }

    open spec fn spec_after_predict(&self, input: Ratio) -> LinearParticle {
        LinearParticle { state: self.proc_model.spec_discrete(self.state, input), ..*self }
    }

    open spec fn spec_after_update(&self, m: Ratio) -> LinearParticle {
        let w = match m.spec_sub(self.meas_model.spec_evaluate(self.state)) {
            Some(residual) => match spec_tri_prob_density(self.meas_model.noise_pdf, residual) {
                Ok(v) => v,
                Err(_) => spec_ratio(0, 1),
            },
            None => spec_ratio(0, 1),
        };
        LinearParticle { weight: Some(w), ..*self }
    }

    open spec fn spec_with_weight(&self, w: Option<Ratio>) -> LinearParticle {
        LinearParticle { weight: w, ..*self }
    }

    fn predict(&mut self, input: &Ratio) {
        self.state = self.proc_model.discrete(&self.state, input);
    }

    fn update(&mut self, measurement: &Ratio) {
        let expected = self.meas_model.evaluate(&self.state);
        let w = match measurement.checked_sub(expected) {
            Some(residual) => match self.meas_model.noise_density(residual) {
                Ok(v) => v,
                Err(_) => Ratio::zero(),
            },
            None => Ratio::zero(),
        };
        self.weight = Some(w);
    }

    fn get_weight(&self) -> (w: Option<Ratio>) {
        self.weight
    }

    fn set_weight(&mut self, new_weight: Option<Ratio>) {
        self.weight = new_weight;
    }

    fn get_state(&self) -> (s: &Ratio) {
        &self.state
    }

    fn duplicate(&self) -> (r: LinearParticle) {
        *self
    }
}

/// With zero dynamics (`rate` equal to zero) and a zero input, one
/// integrator step keeps the state value unchanged; predicting any number
/// of times with zero input is the identity on the state value.
pub proof fn lemma_zero_dynamics_step_identity(m: LinearProcessModel, s: Ratio, u: Ratio)
    requires
        m.valid(),
        s.wf(),
        u.wf(),
        rat_eq(m.rate@, rat_zero()),
        rat_eq(u@, rat_zero()),
    ensures
        rat_eq(m.spec_discrete(s, u)@, s@),
{
    let c = m.spec_continuous(s, u);
    assert(m.rate@.n == 0 && u@.n == 0);
    assert(m.rate@.n * s@.n == 0) by (nonlinear_arith)
        requires
            m.rate@.n == 0,
    ;
    if m.rate.spec_mul(s) is Some {
        let rs = m.rate.spec_mul(s).unwrap();
        assert(rs@.n == 0);
        assert(rs@.n * u@.d + u@.n * rs@.d == 0) by (nonlinear_arith)
            requires
                rs@.n == 0,
                u@.n == 0,
        ;
        assert(c.wf() && c@.n == 0);
    } else {
        assert(c.wf() && c@.n == 0);
    }
    let tsn = m.ts@.n;
    assert(c@.n * tsn == 0) by (nonlinear_arith)
        requires
            c@.n == 0,
    ;
    if c.spec_mul(m.ts) is Some {
        let step = c.spec_mul(m.ts).unwrap();
        assert(step@.n == 0);
        if s.spec_add(step) is Some {
            let ns = s.spec_add(step).unwrap();
            assert(ns@ == (Rat {
                n: s@.n * step@.d + step@.n * s@.d,
                d: s@.d * step@.d,
            }));
            assert(rat_eq(ns@, s@)) by (nonlinear_arith)
                requires
                    step@.n == 0,
                    s@.d > 0,
                    step@.d > 0,
                    ns@.n == s@.n * step@.d + step@.n * s@.d,
                    ns@.d == s@.d * step@.d,
            ;
        }
    }
}

} // verus!
