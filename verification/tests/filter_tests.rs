use pfrust::particle_filter::FilterError;
use pfrust::particle_filter::ParticleFilter;
use pfrust::particles::Particle;
use pfrust::particles::linear::LinearMeasurementModel;
use pfrust::particles::linear::LinearParticle;
use pfrust::particles::linear::LinearProcessModel;
use pfrust::pdfs::Triangular;
use pfrust::rational::Ratio;

fn unit_noise_model() -> LinearMeasurementModel {
    LinearMeasurementModel {
        noise_pdf: Triangular {
            min: Ratio::new(-1, 1),
            max: Ratio::new(1, 1),
            mode: Ratio::new(0, 1),
        },
    }
}

fn particle(state: Ratio) -> LinearParticle {
    LinearParticle::new(
        state,
        unit_noise_model(),
        LinearProcessModel::new(Ratio::new(0, 1), Ratio::new(1, 20)),
    )
}

fn states(pf: &ParticleFilter<LinearParticle>) -> Vec<Ratio> {
    pf.get_particles().iter().map(|p| *p.get_state()).collect()
}

fn weight_sum(pf: &ParticleFilter<LinearParticle>) -> Ratio {
    let mut total = Ratio::zero();
    for p in pf.get_particles() {
        total = total.checked_add(p.get_weight().unwrap()).unwrap();
    }
    total
}

#[test]
fn new_gives_uniform_weights_summing_to_one() {
    let init: Vec<LinearParticle> = (0..4i64).map(|k| particle(Ratio::new(k, 10))).collect();
    let pf = ParticleFilter::new(init);
    for p in pf.get_particles() {
        let w = p.get_weight().unwrap();
        assert_eq!(w.numer(), 1);
        assert_eq!(w.denom(), 4);
    }
    assert!(weight_sum(&pf).equiv(Ratio::new(1, 1)));
}

#[test]
fn predict_moves_states_and_keeps_weights() {
    // dx = 0 * x + u, ts = 1/20, input 2: each state moves by exactly 1/10
    let init = vec![particle(Ratio::new(1, 2)), particle(Ratio::new(-1, 4))];
    let mut pf = ParticleFilter::new(init);
    pf.predict(&Ratio::new(2, 1));
    let s = states(&pf);
    assert!(s[0].equiv(Ratio::new(3, 5)));
    assert!(s[1].equiv(Ratio::new(-3, 20)));
    for p in pf.get_particles() {
        assert_eq!(p.get_weight().unwrap().denom(), 2);
    }
}

#[test]
fn predict_twice_with_zero_input_keeps_state() {
    // zero dynamics and zero input: the integrator is the identity on the
    // state value, twice over
    let init = vec![particle(Ratio::new(7, 9)), particle(Ratio::new(-2, 3))];
    let mut pf = ParticleFilter::new(init);
    let zero = Ratio::new(0, 1);
    pf.predict(&zero);
    pf.predict(&zero);
    let s = states(&pf);
    assert!(s[0].equiv(Ratio::new(7, 9)));
    assert!(s[1].equiv(Ratio::new(-2, 3)));
}

#[test]
fn update_weights_sum_to_one() {
    let init = vec![
        particle(Ratio::new(9, 10)),
        particle(Ratio::new(6, 10)),
        particle(Ratio::new(5, 10)),
    ];
    let mut pf = ParticleFilter::new(init);
    pf.update(&Ratio::new(0, 1)).unwrap();
    assert_eq!(pf.get_particles().len(), 3);
    assert!(weight_sum(&pf).equiv(Ratio::new(1, 1)));
    for p in pf.get_particles() {
        let w = p.get_weight().unwrap();
        assert_eq!(w.numer(), 1);
        assert_eq!(w.denom(), 3);
    }
}

#[test]
fn systematic_resampling_offset_zero_selects_in_order() {
    // weights become [0.1, 0.4, 0.5]: cumulative [0.1, 0.5, 1.0]; with
    // u0 = 0 the pointers are [0, 1/3, 2/3] and the selected indices are
    // [0, 1, 2]
    let init = vec![
        particle(Ratio::new(9, 10)),
        particle(Ratio::new(6, 10)),
        particle(Ratio::new(5, 10)),
    ];
    let mut pf = ParticleFilter::new(init);
    pf.update_with(&Ratio::new(0, 1), Ratio::new(0, 1)).unwrap();
    let s = states(&pf);
    assert!(s[0].equiv(Ratio::new(9, 10)));
    assert!(s[1].equiv(Ratio::new(6, 10)));
    assert!(s[2].equiv(Ratio::new(5, 10)));
}

#[test]
fn systematic_resampling_pointers_walk_the_cumulative_sum() {
    // same weights [0.1, 0.4, 0.5]; with u0 = 3/5 the pointers are
    // [0.2, 0.5333, 0.8667]: 0.2 falls in (0.1, 0.5] -> index 1, and the
    // two later pointers fall in (0.5, 1.0] -> index 2
    let init = vec![
        particle(Ratio::new(9, 10)),
        particle(Ratio::new(6, 10)),
        particle(Ratio::new(5, 10)),
    ];
    let mut pf = ParticleFilter::new(init);
    pf.update_with(&Ratio::new(0, 1), Ratio::new(3, 5)).unwrap();
    let s = states(&pf);
    assert!(s[0].equiv(Ratio::new(6, 10)));
    assert!(s[1].equiv(Ratio::new(5, 10)));
    assert!(s[2].equiv(Ratio::new(5, 10)));
}

#[test]
fn equal_weights_resample_evenly() {
    // four equal densities; a small positive offset keeps every pointer
    // strictly inside its quarter, so each particle is selected once
    let init = vec![
        particle(Ratio::new(3, 10)),
        particle(Ratio::new(-3, 10)),
        particle(Ratio::new(3, 10)),
        particle(Ratio::new(-3, 10)),
    ];
    let mut pf = ParticleFilter::new(init);
    pf.update_with(&Ratio::new(0, 1), Ratio::new(1, 100)).unwrap();
    assert_eq!(pf.get_particles().len(), 4);
    let s = states(&pf);
    // selection [0, 1, 2, 3]: states come back in the same order
    assert!(s[0].equiv(Ratio::new(3, 10)));
    assert!(s[1].equiv(Ratio::new(-3, 10)));
    assert!(s[2].equiv(Ratio::new(3, 10)));
    assert!(s[3].equiv(Ratio::new(-3, 10)));
    for p in pf.get_particles() {
        let w = p.get_weight().unwrap();
        assert_eq!(w.numer(), 1);
        assert_eq!(w.denom(), 4);
    }
}

#[test]
fn all_infeasible_weights_report_divergence() {
    // measurement far outside every particle's noise support: every weight
    // becomes zero and the update reports the degenerate condition
    let init = vec![particle(Ratio::new(1, 2)), particle(Ratio::new(1, 4))];
    let mut pf = ParticleFilter::new(init);
    let r = pf.update(&Ratio::new(10, 1));
    assert!(matches!(r, Err(FilterError::DegenerateWeights)));
    // the re-scored weights are defined (zero), not missing
    for p in pf.get_particles() {
        let w = p.get_weight().unwrap();
        assert_eq!(w.numer(), 0);
    }
}

#[test]
fn out_of_support_residual_scores_zero_weight() {
    let mut p = particle(Ratio::new(0, 1));
    p.update(&Ratio::new(3, 2));
    let w = p.get_weight().unwrap();
    assert_eq!(w.numer(), 0);
    // the state is untouched by scoring
    assert!(p.get_state().equiv(Ratio::new(0, 1)));
}

#[test]
fn exact_measurement_match_scores_the_peak_weight() {
    // measurement equal to the expected observation: residual 0, the mode
    // of the noise density, so the weight is the maximal density value h
    let mut a = particle(Ratio::new(1, 2));
    a.update(&Ratio::new(1, 2));
    let peak = a.get_weight().unwrap();
    assert!(peak.equiv(Ratio::new(1, 1)));
    let mut b = particle(Ratio::new(1, 2));
    b.update(&Ratio::new(3, 4));
    assert!(b.get_weight().unwrap().lt(peak));
}

#[test]
fn offset_zero_pointer_on_boundary_selects_that_index() {
    // equal weights 1/4 give cumulative sums [1/4, 1/2, 3/4, 1]; with
    // u0 = 0 the pointers are [0, 1/4, 1/2, 3/4], and a pointer landing
    // exactly on a cumulative boundary selects that boundary's index, so
    // the selection is [0, 0, 1, 2]
    let init = vec![
        particle(Ratio::new(3, 10)),
        particle(Ratio::new(-3, 10)),
        particle(Ratio::new(3, 10)),
        particle(Ratio::new(-3, 10)),
    ];
    let mut pf = ParticleFilter::new(init);
    pf.update_with(&Ratio::new(0, 1), Ratio::new(0, 1)).unwrap();
    let s = states(&pf);
    assert!(s[0].equiv(Ratio::new(3, 10)));
    assert!(s[1].equiv(Ratio::new(3, 10)));
    assert!(s[2].equiv(Ratio::new(-3, 10)));
    assert!(s[3].equiv(Ratio::new(3, 10)));
}

#[test]
fn exact_total_overflow_is_reported() {
    // two weights (p1-1)/p1 and (p2-1)/p2 with coprime denominators just
    // below 2^32: their exact sum needs a denominator near 2^64, which no
    // i64 fraction holds, so the update reports the overflow and leaves
    // the re-scored, unnormalized weights in place
    let p1: i64 = 4294967291;
    let p2: i64 = 4294967279;
    let init = vec![particle(Ratio::new(1, p1)), particle(Ratio::new(1, p2))];
    let mut pf = ParticleFilter::new(init);
    let r = pf.update_with(&Ratio::new(0, 1), Ratio::new(0, 1));
    assert!(matches!(r, Err(FilterError::Overflow)));
    let ws: Vec<Ratio> = pf
        .get_particles()
        .iter()
        .map(|p| p.get_weight().unwrap())
        .collect();
    assert!(ws[0].equiv(Ratio::new(p1 - 1, p1)));
    assert!(ws[1].equiv(Ratio::new(p2 - 1, p2)));
}
