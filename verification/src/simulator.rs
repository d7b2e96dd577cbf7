//! Simulation harness: drives one "true" process model forward under a
//! controller and emits a matching noisy measurement for every ground-truth
//! state, for testing the filter engine end to end.

use vstd::prelude::*;

use crate::particles::MeasurementModel;
use crate::particles::ProcessModel;

verus! {

/// A ground-truth trajectory is generated by the process model: each state
/// after the first arises from its predecessor by one discrete step under
/// an acceptable input.
pub open spec fn trajectory_ok<P: ProcessModel>(
    p: P,
    gt: Seq<<P as ProcessModel>::State>,
    ins: Seq<<P as ProcessModel>::Input>,
) -> bool {
    ins.len() + 1 == gt.len() && forall|t: int|
        1 <= t < gt.len() ==> (p.input_ok(#[trigger] ins[t - 1]) && gt[t] == p.spec_discrete(
            gt[t - 1],
            ins[t - 1],
        ))
}

/// A paired process and measurement model over a common state type.
pub struct Simulator<P, M> where
    P: ProcessModel,
    M: MeasurementModel<State = <P as ProcessModel>::State>,
 {
    proc_model: P,
    meas_model: M,
}

impl<P, M> Simulator<P, M> where
    P: ProcessModel,
    M: MeasurementModel<State = <P as ProcessModel>::State>,
 {
    pub closed spec fn spec_proc(&self) -> P {
        self.proc_model
    }

    pub closed spec fn spec_meas(&self) -> M {
        self.meas_model
    }

    /// Both models are well-formed, and every state the process model can
    /// produce can also be observed.
    pub open spec fn wf(&self) -> bool {
        self.spec_proc().valid() && self.spec_meas().valid() && forall|
            s: <P as ProcessModel>::State,
        |
            #[trigger] self.spec_proc().state_ok(s) ==> self.spec_meas().state_ok(s)
    }

    pub fn new(proc_model: P, meas_model: M) -> (r: Simulator<P, M>)
        ensures
            r.spec_proc() == proc_model,
            r.spec_meas() == meas_model,
    {
        Simulator { proc_model, meas_model }
    }

    /// A noisy measurement of `state`: the expected observation combined
    /// with one drawn noise value.
    fn gen_measurement(&self, state: &<P as ProcessModel>::State) -> (r: <M as MeasurementModel>::Measurement)
        requires
            self.wf(),
            self.spec_proc().state_ok(*state),
        ensures
            exists|nz: <M as MeasurementModel>::Noise|
                #[trigger] self.spec_meas().noise_ok(nz) && self.spec_meas().noise_in_support(nz)
                    && r == self.spec_meas().spec_combine(
                    self.spec_meas().spec_evaluate(*state),
                    nz,
                ),
            self.spec_meas().measurement_ok(r),
    {
        let expected = self.meas_model.evaluate(state);
        let nz = self.meas_model.sample();
        let r = self.meas_model.combine(expected, nz);
        proof {
            assert(self.spec_meas().noise_ok(nz) && self.spec_meas().noise_in_support(nz) && r
                == self.spec_meas().spec_combine(self.spec_meas().spec_evaluate(*state), nz));
        }
        r
    }

    /// One process-model step.
    fn propagate(
        &self,
        state: &<P as ProcessModel>::State,
        input: &<P as ProcessModel>::Input,
    ) -> (r: <P as ProcessModel>::State)
        requires
            self.wf(),
            self.spec_proc().state_ok(*state),
            self.spec_proc().input_ok(*input),
        ensures
            r == self.spec_proc().spec_discrete(*state, *input),
            self.spec_proc().state_ok(r),
    {
        self.proc_model.discrete(state, input)
    }

    /// Consume the simulator and produce a trajectory: ground-truth states
    /// under the controller, and one noisy measurement of each state. The
    /// first pair comes from the initial state before any propagation.
    pub fn run(
        self,
        init_state: <P as ProcessModel>::State,
        controller: impl Fn(&<P as ProcessModel>::State) -> <P as ProcessModel>::Input,
        n: usize,
    ) -> (r: (Vec<<P as ProcessModel>::State>, Vec<<M as MeasurementModel>::Measurement>))
        requires
            self.wf(),
            self.spec_proc().state_ok(init_state),
            forall|s: &<P as ProcessModel>::State|
                self.spec_proc().state_ok(*s) ==> #[trigger] call_requires(controller, (s,)),
            forall|s: &<P as ProcessModel>::State, u: <P as ProcessModel>::Input|
                #[trigger] call_ensures(controller, (s,), u) ==> self.spec_proc().input_ok(u),
        ensures
            r.0.len() == if n == 0 {
                1int
            } else {
                n as int
            },
            r.1.len() == r.0.len(),
            r.0[0] == init_state,
            forall|i: int|
                0 <= i < r.0.len() ==> self.spec_proc().state_ok(#[trigger] r.0[i]),
            exists|ins: Seq<<P as ProcessModel>::Input>|
                #[trigger] trajectory_ok(self.spec_proc(), r.0@, ins) && (forall|t: int|
                    1 <= t < r.0.len() ==> #[trigger] call_ensures(
                        controller,
                        (&r.0[t - 1],),
                        ins[t - 1],
                    )),
            forall|i: int|
                #![trigger r.1[i]]
                0 <= i < r.1.len() ==> exists|nz: <M as MeasurementModel>::Noise|
                    #[trigger] self.spec_meas().noise_ok(nz) && self.spec_meas().noise_in_support(
                        nz,
                    ) && r.1[i] == self.spec_meas().spec_combine(
                        self.spec_meas().spec_evaluate(r.0[i]),
                        nz,
                    ),
    {
        let mut ground_truth: Vec<<P as ProcessModel>::State> = Vec::new();
        let mut measurements: Vec<<M as MeasurementModel>::Measurement> = Vec::new();
        measurements.push(self.gen_measurement(&init_state));
        ground_truth.push(init_state);
        let ghost mut inputs: Seq<<P as ProcessModel>::Input> = Seq::empty();
        let mut i: usize = 1;
        while i < n
            invariant
                1 <= i,
                n == 0 ==> i == 1,
                n >= 1 ==> i <= n,
                ground_truth.len() == i,
                measurements.len() == i,
                self.wf(),
                ground_truth[0] == init_state,
                forall|t: int|
                    0 <= t < i ==> self.spec_proc().state_ok(#[trigger] ground_truth@[t]),
                forall|s: &<P as ProcessModel>::State|
                    self.spec_proc().state_ok(*s) ==> #[trigger] call_requires(controller, (s,)),
                forall|s: &<P as ProcessModel>::State, u: <P as ProcessModel>::Input|
                    #[trigger] call_ensures(controller, (s,), u) ==> self.spec_proc().input_ok(u),
                inputs.len() + 1 == i,
                trajectory_ok(self.spec_proc(), ground_truth@, inputs),
                forall|t: int|
                    1 <= t < i ==> #[trigger] call_ensures(
                        controller,
                        (&ground_truth@[t - 1],),
                        inputs[t - 1],
                    ),
                forall|t: int|
                    #![trigger measurements@[t]]
                    0 <= t < i ==> exists|nz: <M as MeasurementModel>::Noise|
                        #[trigger] self.spec_meas().noise_ok(nz)
                            && self.spec_meas().noise_in_support(nz) && measurements@[t]
                            == self.spec_meas().spec_combine(
                            self.spec_meas().spec_evaluate(ground_truth@[t]),
                            nz,
                        ),
            decreases n - i,
        {
            let input = controller(&ground_truth[i - 1]);
            let next = self.propagate(&ground_truth[i - 1], &input);
            ground_truth.push(next);
            measurements.push(self.gen_measurement(&ground_truth[i]));
            proof {
                inputs = inputs.push(input);
                assert(self.spec_proc().input_ok(input) && ground_truth@[i as int]
                    == self.spec_proc().spec_discrete(ground_truth@[i as int - 1], input));
                assert(call_ensures(controller, (&ground_truth@[i as int - 1],), input));
            }
            i += 1;
        }
        proof {
            assert(trajectory_ok(self.spec_proc(), ground_truth@, inputs) && (forall|t: int|
                1 <= t < ground_truth@.len() ==> #[trigger] call_ensures(
                    controller,
                    (&ground_truth@[t - 1],),
                    inputs[t - 1],
                )));
        }
        (ground_truth, measurements)
    }
}

} // verus!
