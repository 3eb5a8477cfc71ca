use aec3::audio_processing::agc2::limiter_db_gain_curve::{
    LimiterCurveFunctions, LimiterCurveParameters, LimiterDbGainCurve,
};

fn functions() -> LimiterCurveFunctions<impl Fn((f64, f64)) -> f64, impl Fn(f64) -> f64> {
    LimiterCurveFunctions {
        power: |(base, exponent): (f64, f64)| base.powf(exponent),
        log10: |v: f64| v.log10(),
    }
}

fn limiter_curve() -> LimiterDbGainCurve<f64> {
    LimiterDbGainCurve::new(
        LimiterCurveParameters {
            max_input_level_db: 1.0,
            knee_smoothness_db: 1.0,
            compression_ratio: 5.0,
            max_abs_sample: 32768.0,
            one: 1.0,
            two: 2.0,
            ten: 10.0,
            twenty: 20.0,
            silence_dbfs: f64::NEG_INFINITY,
            derivative_tolerance: 1e-7,
        },
        &functions(),
    )
}

#[test]
fn construct_destruct() {
    let _l = limiter_curve();
}

#[test]
fn gain_curve_should_be_monotone() {
    let l = limiter_curve();
    let mut level = -90.0;
    let mut last_output_level = 0.0;
    let mut has_last_output_level = false;
    while level <= l.max_input_level_db() {
        let current_output_level = l.get_output_level_dbfs(level);
        if !has_last_output_level {
            last_output_level = current_output_level;
            has_last_output_level = true;
        }
        assert!(last_output_level <= current_output_level);
        last_output_level = current_output_level;
        level += 0.5;
    }
}

#[test]
fn gain_curve_should_be_continuous() {
    let l = limiter_curve();
    let mut level = -90.0;
    let mut last_output_level = 0.0;
    let mut has_last_output_level = false;
    const MAX_DELTA: f64 = 0.5;
    while level <= l.max_input_level_db() {
        let current_output_level = l.get_output_level_dbfs(level);
        if !has_last_output_level {
            last_output_level = current_output_level;
            has_last_output_level = true;
        }
        assert!(current_output_level <= last_output_level + MAX_DELTA);
        last_output_level = current_output_level;
        level += 0.5;
    }
}

#[test]
fn output_gain_should_be_less_than_full_scale() {
    let l = limiter_curve();
    let mut level = -90.0;
    while level <= l.max_input_level_db() {
        let current_output_level = l.get_output_level_dbfs(level);
        assert!(current_output_level <= 0.0);
        level += 0.5;
    }
}

#[test]
fn curve_has_its_values_at_the_region_boundaries() {
    let l = limiter_curve();
    let f = functions();
    assert!((l.get_output_level_dbfs(1.0) - 0.0).abs() < 1e-12);
    assert_eq!(l.get_output_level_dbfs(-10.0), -10.0);
    assert_eq!(l.get_gain_linear(&f, 100.0), 1.0);
    assert!((l.max_input_level_linear() - 36766.300710566735).abs() < 1e-6);
    assert!((l.knee_start_linear() - 32768.0 * 10.0f64.powf(-0.75 / 20.0)).abs() < 1e-6);
    assert!((l.limiter_start_linear() - 32768.0 * 10.0f64.powf(0.25 / 20.0)).abs() < 1e-6);
    // The limiter takes the largest level to full scale.
    assert!((l.get_gain_linear(&f, l.max_input_level_linear()) * l.max_input_level_linear()
        - 32768.0)
        .abs()
        < 1e-6);
}

#[test]
fn derivative_and_integral_fit_the_gain() {
    let l = limiter_curve();
    let f = functions();
    let (x0, h) = (34000.0, 1e-2);
    let slope = (l.get_gain_linear(&f, x0 + h) - l.get_gain_linear(&f, x0 - h)) / (2.0 * h);
    assert!((l.get_gain_first_derivative_linear(&f, x0) - slope).abs() < 1e-9);
    let area = (l.get_gain_linear(&f, x0) + l.get_gain_linear(&f, x0 + 1.0)) / 2.0;
    assert!((l.get_gain_integral_linear(&f, x0, x0 + 1.0) - area).abs() < 1e-6);
}
