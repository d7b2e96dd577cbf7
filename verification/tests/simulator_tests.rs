use pfrust::particles::linear::LinearMeasurementModel;
use pfrust::particles::linear::LinearProcessModel;
use pfrust::pdfs::Triangular;
use pfrust::rational::Ratio;
use pfrust::simulator::Simulator;

fn unit_noise_model() -> LinearMeasurementModel {
    LinearMeasurementModel {
        noise_pdf: Triangular {
            min: Ratio::new(-1, 1),
            max: Ratio::new(1, 1),
            mode: Ratio::new(0, 1),
        },
    }
}

#[test]
fn run_follows_the_euler_recurrence() {
    // dx = x, ts = 1/2: s' = s + s/2 = (3/2) s; deterministic noise is the
    // peak of the triangular density, which is 0, so measurements equal
    // the ground-truth states
    let proc = LinearProcessModel::new(Ratio::new(1, 1), Ratio::new(1, 2));
    let sim = Simulator::new(proc, unit_noise_model());
    let (gt, ms) = sim.run(Ratio::new(1, 1), |_s: &Ratio| Ratio::new(0, 1), 3);
    assert_eq!(gt.len(), 3);
    assert_eq!(ms.len(), 3);
    assert!(gt[0].equiv(Ratio::new(1, 1)));
    assert!(gt[1].equiv(Ratio::new(3, 2)));
    assert!(gt[2].equiv(Ratio::new(9, 4)));
    for (g, m) in gt.iter().zip(ms.iter()) {
        assert!(g.equiv(*m));
    }
}

#[test]
fn run_emits_the_first_pair_before_any_propagation() {
    let proc = LinearProcessModel::new(Ratio::new(1, 1), Ratio::new(1, 2));
    let sim = Simulator::new(proc, unit_noise_model());
    let (gt, ms) = sim.run(Ratio::new(2, 1), |_s: &Ratio| Ratio::new(0, 1), 1);
    assert_eq!(gt.len(), 1);
    assert_eq!(ms.len(), 1);
    assert!(gt[0].equiv(Ratio::new(2, 1)));
    assert!(ms[0].equiv(Ratio::new(2, 1)));
}

#[test]
fn controller_input_enters_the_step() {
    // dx = 0 * x + u with u = 1 and ts = 1/2: each step adds exactly 1/2
    let proc = LinearProcessModel::new(Ratio::new(0, 1), Ratio::new(1, 2));
    let sim = Simulator::new(proc, unit_noise_model());
    let (gt, _ms) = sim.run(Ratio::new(0, 1), |_s: &Ratio| Ratio::new(1, 1), 4);
    assert!(gt[1].equiv(Ratio::new(1, 2)));
    assert!(gt[2].equiv(Ratio::new(1, 1)));
    assert!(gt[3].equiv(Ratio::new(3, 2)));
}
