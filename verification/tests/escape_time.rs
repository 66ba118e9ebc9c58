use mandelbrot::escape::{clamp_limit, escape_time, EscapeResult, ESCAPE_LIMIT};
use num::Complex;
use std::cell::Cell;

fn mandelbrot_escape(c: Complex<f32>, limit: usize) -> EscapeResult {
    escape_time(
        Complex::<f32>::default(),
        limit,
        |z: Complex<f32>| z.norm_sqr() >= 4.0,
        |z: Complex<f32>| z * z + c,
    )
}

#[test]
fn escape_far_point_diverges_after_one_step() {
    assert_eq!(
        mandelbrot_escape(Complex::new(3.0, 0.0), 256),
        EscapeResult::Diverged(1)
    );
}

#[test]
fn escape_outside_radius_two_diverges_at_once() {
    let points: [(f32, f32); 8] = [
        (2.5, 0.0),
        (-2.5, 0.0),
        (0.0, 2.1),
        (0.0, -2.1),
        (1.5, 1.5),
        (-1.5, -1.5),
        (100.0, -100.0),
        (-2.0, 1.5),
    ];
    for &(re, im) in points.iter() {
        match mandelbrot_escape(Complex::new(re, im), 256) {
            EscapeResult::Diverged(i) => assert!(i <= 1),
            EscapeResult::Bounded => panic!("a point outside radius two is not bounded"),
        }
    }
}

#[test]
fn escape_origin_is_bounded() {
    assert_eq!(
        mandelbrot_escape(Complex::new(0.0, 0.0), 256),
        EscapeResult::Bounded
    );
}

#[test]
fn escape_minus_one_is_bounded() {
    assert_eq!(
        mandelbrot_escape(Complex::new(-1.0, 0.0), 256),
        EscapeResult::Bounded
    );
}

#[test]
fn escape_counts_tests_before_steps() {
    // c = 1: z runs 0, 1, 2, 5; the test at index 2 sees |z| = 2.
    assert_eq!(
        mandelbrot_escape(Complex::new(1.0, 0.0), 256),
        EscapeResult::Diverged(2)
    );
    // c = 2: z runs 0, 2; the test at index 1 sees |z| = 2.
    assert_eq!(
        mandelbrot_escape(Complex::new(2.0, 0.0), 256),
        EscapeResult::Diverged(1)
    );
}

#[test]
fn escape_limit_cuts_the_orbit_short() {
    let c = Complex::new(1.0, 0.0);
    assert_eq!(mandelbrot_escape(c, 0), EscapeResult::Bounded);
    assert_eq!(mandelbrot_escape(c, 1), EscapeResult::Bounded);
    assert_eq!(mandelbrot_escape(c, 2), EscapeResult::Bounded);
    assert_eq!(mandelbrot_escape(c, 3), EscapeResult::Diverged(2));
}

#[test]
fn escape_start_outside_is_index_zero() {
    let result = escape_time(9u32, 256, |z: u32| z >= 4, |z: u32| z + 1);
    assert_eq!(result, EscapeResult::Diverged(0));
    let none = escape_time(9u32, 0, |z: u32| z >= 4, |z: u32| z + 1);
    assert_eq!(none, EscapeResult::Bounded);
}

#[test]
fn escape_index_is_first_outside() {
    for start in 0u32..300 {
        let result = escape_time(start, ESCAPE_LIMIT, |z: u32| z >= 255, |z: u32| z + 1);
        if start < 255 {
            assert_eq!(result, EscapeResult::Diverged((255 - start) as u8));
        } else {
            assert_eq!(result, EscapeResult::Diverged(0));
        }
    }
}

#[test]
fn escape_last_index_and_bounded() {
    // The test at index 255 is the last one that a limit of 256 allows.
    let last = escape_time(0u32, 256, |z: u32| z >= 255, |z: u32| z + 1);
    assert_eq!(last, EscapeResult::Diverged(255));
    let late = escape_time(0u32, 256, |z: u32| z >= 256, |z: u32| z + 1);
    assert_eq!(late, EscapeResult::Bounded);
    let never = escape_time(0u32, 256, |_z: u32| false, |z: u32| z);
    assert_eq!(never, EscapeResult::Bounded);
}

#[test]
fn escape_steps_only_while_inside() {
    let tests = Cell::new(0u32);
    let steps = Cell::new(0u32);
    let result = escape_time(
        0u32,
        256,
        |z: u32| {
            tests.set(tests.get() + 1);
            z >= 3
        },
        |z: u32| {
            steps.set(steps.get() + 1);
            z + 1
        },
    );
    assert_eq!(result, EscapeResult::Diverged(3));
    assert_eq!(tests.get(), 4);
    assert_eq!(steps.get(), 3);
}

#[test]
fn clamp_limit_caps_at_the_channel_range() {
    assert_eq!(ESCAPE_LIMIT, 256);
    assert_eq!(clamp_limit(0), 0);
    assert_eq!(clamp_limit(10), 10);
    assert_eq!(clamp_limit(255), 255);
    assert_eq!(clamp_limit(256), 256);
    assert_eq!(clamp_limit(257), 256);
    assert_eq!(clamp_limit(usize::MAX), 256);
}
