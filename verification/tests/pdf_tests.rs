use pfrust::pdfs::PdfError;
use pfrust::pdfs::Triangular;
use pfrust::rational::Ratio;

fn tri(min: (i64, i64), max: (i64, i64), mode: (i64, i64)) -> Triangular {
    Triangular {
        min: Ratio::new(min.0, min.1),
        max: Ratio::new(max.0, max.1),
        mode: Ratio::new(mode.0, mode.1),
    }
}

fn as_f64(r: Ratio) -> f64 {
    r.numer() as f64 / r.denom() as f64
}

#[test]
fn density_peak_value_is_h() {
    // support [-1, 1], mode 0: h = 2 / (max - min) = 1, and the density at
    // the mode is exactly h.
    let t = tri((-1, 1), (1, 1), (0, 1));
    let v = t.prob_density(&Ratio::new(0, 1)).unwrap();
    assert!(v.equiv(Ratio::new(1, 1)));
}

#[test]
fn density_exact_values_on_both_edges() {
    // support [-1, 1], mode 0: density(x) = 1 - |x| exactly.
    let t = tri((-1, 1), (1, 1), (0, 1));
    let rising = t.prob_density(&Ratio::new(-9, 10)).unwrap();
    assert!(rising.equiv(Ratio::new(1, 10)));
    let falling = t.prob_density(&Ratio::new(1, 2)).unwrap();
    assert!(falling.equiv(Ratio::new(1, 2)));
    let at_min = t.prob_density(&Ratio::new(-1, 1)).unwrap();
    assert!(at_min.equiv(Ratio::new(0, 1)));
    let at_max = t.prob_density(&Ratio::new(1, 1)).unwrap();
    assert!(at_max.equiv(Ratio::new(0, 1)));
}

#[test]
fn density_fails_out_of_bounds_below() {
    let t = tri((-1, 1), (1, 1), (0, 1));
    let r = t.prob_density(&Ratio::new(-2, 1));
    match r {
        Err(PdfError::OutOfBounds { tried_val, bound }) => {
            assert!(tried_val.equiv(Ratio::new(-2, 1)));
            assert!(bound.equiv(Ratio::new(-1, 1)));
        }
        _ => panic!("expected OutOfBounds at the lower bound"),
    }
}

#[test]
fn density_fails_out_of_bounds_above() {
    let t = tri((-1, 1), (1, 1), (0, 1));
    let r = t.prob_density(&Ratio::new(3, 2));
    match r {
        Err(PdfError::OutOfBounds { tried_val, bound }) => {
            assert!(tried_val.equiv(Ratio::new(3, 2)));
            assert!(bound.equiv(Ratio::new(1, 1)));
        }
        _ => panic!("expected OutOfBounds at the upper bound"),
    }
}

#[test]
fn density_fails_on_degenerate_support() {
    // width 1/2000000 is below the 1e-6 threshold
    let t = tri((0, 1), (1, 2000000), (0, 1));
    let r = t.prob_density(&Ratio::new(0, 1));
    assert!(matches!(r, Err(PdfError::InvalidBounds { .. })));
}

#[test]
fn constructor_rejects_bad_supports() {
    assert!(matches!(
        Triangular::new(Ratio::new(1, 1), Ratio::new(-1, 1), Ratio::new(0, 1)),
        Err(PdfError::InvalidBounds { .. })
    ));
    assert!(matches!(
        Triangular::new(Ratio::new(-1, 1), Ratio::new(1, 1), Ratio::new(5, 1)),
        Err(PdfError::InvalidBounds { .. })
    ));
    assert!(Triangular::new(Ratio::new(-1, 1), Ratio::new(1, 1), Ratio::new(0, 1)).is_ok());
}

#[test]
fn density_is_maximal_at_the_mode() {
    let t = tri((-1, 2), (3, 4), (1, 4));
    let peak = as_f64(t.prob_density(&Ratio::new(1, 4)).unwrap());
    for k in -10..=15 {
        let x = Ratio::new(k, 20);
        let v = as_f64(t.prob_density(&x).unwrap());
        assert!(v <= peak + 1e-12);
    }
}

#[test]
fn density_is_continuous_at_the_mode() {
    let t = tri((-1, 1), (1, 1), (1, 3));
    let peak = as_f64(t.prob_density(&Ratio::new(1, 3)).unwrap());
    // approach the mode from both sides on a fine rational grid
    let just_below = as_f64(t.prob_density(&Ratio::new(333332, 1000000)).unwrap());
    let just_above = as_f64(t.prob_density(&Ratio::new(333334, 1000000)).unwrap());
    assert!((peak - just_below).abs() < 1e-5);
    assert!((peak - just_above).abs() < 1e-5);
}

#[test]
fn density_integrates_to_one() {
    // midpoint quadrature over the support for several shapes
    for (min, max, mode) in [
        ((-1i64, 1i64), (1i64, 1i64), (0i64, 1i64)),
        ((0, 1), (4, 1), (1, 1)),
        ((-1, 4), (1, 4), (1, 8)),
    ] {
        let t = tri(min, max, mode);
        let a = min.0 as f64 / min.1 as f64;
        let b = max.0 as f64 / max.1 as f64;
        let k_steps = 20000i64;
        let mut integral = 0.0f64;
        for k in 0..k_steps {
            // midpoint of subinterval k, as an exact rational:
            // x = min + (2k + 1) * (max - min) / (2 * K)
            let num = min.0 * 2 * k_steps * max.1 + (2 * k + 1) * (max.0 * min.1 - min.0 * max.1);
            let den = 2 * k_steps * min.1 * max.1;
            let x = if den < 0 {
                Ratio::new(-num, -den)
            } else {
                Ratio::new(num, den)
            };
            let v = as_f64(t.prob_density(&x).unwrap());
            integral += v * (b - a) / k_steps as f64;
        }
        assert!(
            (integral - 1.0).abs() < 1e-6,
            "integral {integral} for {min:?} {max:?} {mode:?}"
        );
    }
}
