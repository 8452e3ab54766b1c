use mandelbrot::{escape_time, MAX_ITER};
use num::Complex;

fn count_at(re: f64, im: f64) -> u32 {
    let c = Complex::new(re, im);
    escape_time(Complex::new(0.0, 0.0), |z: Complex<f64>| z.norm() > 2.0, |z: Complex<f64>| z * z + c)
}

#[test]
fn origin_is_inside_the_set() {
    assert_eq!(count_at(0.0, 0.0), MAX_ITER);
}

#[test]
fn period_two_point_is_inside_the_set() {
    assert_eq!(count_at(-1.0, 0.0), MAX_ITER);
}

#[test]
fn far_point_escapes_after_one_step() {
    // z0 = 0 passes the test, z1 = c has |c| > 2.
    assert_eq!(count_at(2.0, 2.0), 1);
    assert_eq!(count_at(-3.0, 0.0), 1);
    assert_eq!(count_at(0.0, 2.5), 1);
}

#[test]
fn one_escapes_after_three_steps() {
    // orbit 0, 1, 2, 5: |2| is not above 2, |5| is.
    assert_eq!(count_at(1.0, 0.0), 3);
}

#[test]
fn counts_stay_within_budget() {
    let mut re = -2.5;
    while re <= 1.5 {
        let mut im = -1.5;
        while im <= 1.5 {
            assert!(count_at(re, im) <= MAX_ITER);
            im += 0.1;
        }
        re += 0.1;
    }
}

#[test]
fn same_input_same_count() {
    for &(re, im) in &[(-0.75, 0.1), (-1.77, 0.0), (-0.744, 0.1), (0.3, 0.5), (0.25, 0.0)] {
        assert_eq!(count_at(re, im), count_at(re, im));
    }
}

#[test]
fn integer_orbit_escapes_at_first_point_past_threshold() {
    assert_eq!(escape_time(0u32, |z: u32| z >= 6, |z: u32| z.saturating_add(2)), 3);
}

#[test]
fn already_escaped_start_gives_zero() {
    assert_eq!(escape_time(10u32, |z: u32| z >= 6, |z: u32| z.saturating_add(2)), 0);
}

#[test]
fn bounded_orbit_uses_whole_budget() {
    assert_eq!(escape_time(0u32, |z: u32| z >= 6, |z: u32| z), MAX_ITER);
    assert_eq!(escape_time(0u32, |z: u32| z > 200, |z: u32| z.saturating_add(2)), MAX_ITER);
}

#[test]
fn last_step_inside_budget_counts() {
    // the 99th point is the first to pass the test
    assert_eq!(escape_time(0u32, |z: u32| z >= 99, |z: u32| z + 1), 99);
}
