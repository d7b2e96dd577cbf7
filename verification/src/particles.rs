//! The model contracts the filter engine is parameterized over: a process
//! model that propagates a state under a control input, a measurement model
//! that maps a state to an expected observation and scores observation
//! noise, and a particle that composes a state, a weight and both models.
//!
//! Every executable method is pinned to a specification function of the
//! implementing type, so the generic engine's contracts are exact for each
//! concrete model.

use vstd::prelude::*;

use crate::pdfs::PdfResult;
use crate::rational::Ratio;
use crate::rational::rat_nonneg;

verus! {

/// Deterministic state-transition model with a fixed timestep.
pub trait ProcessModel: Sized {
    type State;

    type Input;

    /// The model's parameters are well-formed.
    spec fn valid(&self) -> bool;

    /// States the model can propagate.
    spec fn state_ok(&self, state: Self::State) -> bool;

    /// Inputs the model accepts.
    spec fn input_ok(&self, input: Self::Input) -> bool;

    spec fn spec_continuous(&self, state: Self::State, input: Self::Input) -> Self::State;

    spec fn spec_discrete(&self, state: Self::State, input: Self::Input) -> Self::State;

    /// State derivative at `state` under `input`.
    fn continuous(&self, state: &Self::State, input: &Self::Input) -> (r: Self::State)
        requires
            self.valid(),
            self.state_ok(*state),
            self.input_ok(*input),
        ensures
            r == self.spec_continuous(*state, *input),
    ;

    /// One-step integrator: the state one fixed timestep later.
    fn discrete(&self, state: &Self::State, input: &Self::Input) -> (r: Self::State)
        requires
            self.valid(),
            self.state_ok(*state),
            self.input_ok(*input),
        ensures
            r == self.spec_discrete(*state, *input),
            self.state_ok(r),
    ;
}

/// Observation model: expected observation of a state, the density of the
/// observation noise, and a noise generator for simulation.
pub trait MeasurementModel: Sized {
    type State;

    type Measurement;

    type Noise;

    /// The model's parameters are well-formed.
    spec fn valid(&self) -> bool;

    /// States the model can observe.
    spec fn state_ok(&self, state: Self::State) -> bool;

    /// Measurements the model can work with.
    spec fn measurement_ok(&self, m: Self::Measurement) -> bool;

    /// Noise values the model can hand out or score.
    spec fn noise_ok(&self, noise: Self::Noise) -> bool;

    /// Noise values inside the support of the model's noise density.
    spec fn noise_in_support(&self, noise: Self::Noise) -> bool;

    spec fn spec_evaluate(&self, state: Self::State) -> Self::Measurement;

    spec fn spec_noise_density(&self, noise: Self::Noise) -> PdfResult<Ratio>;

    spec fn spec_combine(&self, m: Self::Measurement, noise: Self::Noise) -> Self::Measurement;

    /// Expected (noise-free) observation of a state.
    fn evaluate(&self, state: &Self::State) -> (r: Self::Measurement)
        requires
            self.valid(),
            self.state_ok(*state),
        ensures
            r == self.spec_evaluate(*state),
            self.measurement_ok(r),
    ;

    /// Density of the observation noise at `noise`; fails when the value
    /// lies outside the density's support.
    fn noise_density(&self, noise: Self::Noise) -> (r: PdfResult<Ratio>)
        requires
            self.valid(),
            self.noise_ok(noise),
        ensures
            r == self.spec_noise_density(noise),
            r matches Ok(v) ==> v.wf() && rat_nonneg(v@),
    ;

    /// Draw an observation-noise value, always from within the support of
    /// the noise density. Only the simulation harness calls this; the
    /// filter engine never does.
    fn sample(&self) -> (r: Self::Noise)
        requires
            self.valid(),
        ensures
            self.noise_ok(r),
            self.noise_in_support(r),
    ;

    /// An observation combined with a noise term (the noisy observation).
    fn combine(&self, m: Self::Measurement, noise: Self::Noise) -> (r: Self::Measurement)
        requires
            self.valid(),
            self.measurement_ok(m),
            self.noise_ok(noise),
        ensures
            r == self.spec_combine(m, noise),
            self.measurement_ok(r),
    ;
}

/// One weighted hypothesis of the filter: a state, an optional weight
/// (`None` until the filter initializes it), and the two models.
pub trait Particle: Sized {
    type State;

    type Measurement;

    type Input;

    /// Models, state and stored weight are well-formed.
    spec fn valid(&self) -> bool;

    spec fn spec_weight(&self) -> Option<Ratio>;

    spec fn spec_state(&self) -> Self::State;

    /// Measurements the particle can be scored against.
    spec fn measurement_ok(&self, m: Self::Measurement) -> bool;

    /// Inputs the process model accepts.
    spec fn input_ok(&self, input: Self::Input) -> bool;

    /// The particle after one process-model step.
    spec fn spec_after_predict(&self, input: Self::Input) -> Self;

    /// The particle after re-scoring against a measurement.
    spec fn spec_after_update(&self, m: Self::Measurement) -> Self;

    /// The particle with its weight replaced and all else unchanged.
    spec fn spec_with_weight(&self, w: Option<Ratio>) -> Self;

    /// Propagate the state by the process model; the weight is untouched.
    fn predict(&mut self, input: &Self::Input)
        requires
            old(self).valid(),
            old(self).input_ok(*input),
        ensures
            *final(self) == old(self).spec_after_predict(*input),
            final(self).valid(),
            final(self).spec_weight() == old(self).spec_weight(),
    ;

    /// Replace the weight with the measurement-noise density of the
    /// residual, zero when the residual is outside the noise support; the
    /// state is untouched and the weight is always defined and nonnegative
    /// afterwards.
    fn update(&mut self, measurement: &Self::Measurement)
        requires
            old(self).valid(),
            old(self).measurement_ok(*measurement),
        ensures
            *final(self) == old(self).spec_after_update(*measurement),
            final(self).valid(),
            final(self).spec_state() == old(self).spec_state(),
            final(self).spec_weight() matches Some(w) && w.wf() && rat_nonneg(w@),
    ;

    fn get_weight(&self) -> (w: Option<Ratio>)
        requires
            self.valid(),
        ensures
            w == self.spec_weight(),
            w matches Some(r) ==> r.wf(),
    ;

    fn set_weight(&mut self, new_weight: Option<Ratio>)
        requires
            old(self).valid(),
            new_weight matches Some(r) ==> r.wf(),
        ensures
            *final(self) == old(self).spec_with_weight(new_weight),
            final(self).valid(),
            final(self).spec_weight() == new_weight,
            final(self).spec_state() == old(self).spec_state(),
    ;

    fn get_state(&self) -> (s: &Self::State)
        ensures
            *s == self.spec_state(),
    ;

    /// A copy of the particle; systematic resampling clones the survivors.
    fn duplicate(&self) -> (r: Self)
        ensures
            r == *self,
    ;
}

} // verus!

pub mod linear;
