use mandelbrot_wasm::{EscapeSearch, Verdict, MAX_ITERATIONS};

/// Iterates the orbit of `(x, y)` and lets the search decide when to stop.
fn escape_verdict(x: f64, y: f64) -> Verdict {
    let mut real = x;
    let mut imaginary = y;
    let mut search = EscapeSearch::new();
    loop {
        let temp_real = real * real - imaginary * imaginary + x;
        let temp_imaginary = 2.0 * real * imaginary + y;
        real = temp_real;
        imaginary = temp_imaginary;
        if let Some(verdict) = search.observe(real * imaginary > 5.0) {
            return verdict;
        }
    }
}

fn escape_score(x: f64, y: f64) -> f64 {
    escape_verdict(x, y).score_per_mille() as f64 / MAX_ITERATIONS as f64 * 100.0
}

#[test]
fn origin_stays_bounded() {
    assert_eq!(escape_verdict(0.0, 0.0), Verdict::Bounded);
    assert_eq!(escape_score(0.0, 0.0).to_bits(), 0.0f64.to_bits());
}

#[test]
fn three_three_escapes_at_once() {
    assert_eq!(escape_verdict(3.0, 3.0), Verdict::Escaped(0));
    assert_eq!(escape_score(3.0, 3.0).to_bits(), 0.0f64.to_bits());
}

#[test]
fn large_point_escapes_at_once() {
    assert_eq!(escape_verdict(100.0, 100.0), Verdict::Escaped(0));
    assert_eq!(escape_score(100.0, 100.0).to_bits(), 0.0f64.to_bits());
}

#[test]
fn quiet_points_run_out_the_bound() {
    assert_eq!(escape_verdict(-1.0, 0.0), Verdict::Bounded);
    assert_eq!(escape_score(-1.0, 0.0).to_bits(), 0.0f64.to_bits());
    assert_eq!(escape_verdict(0.25, 0.0), Verdict::Bounded);
    assert_eq!(escape_score(0.25, 0.0).to_bits(), 0.0f64.to_bits());
    assert_eq!(escape_verdict(0.3, 0.5), Verdict::Bounded);
    assert_eq!(escape_score(0.3, 0.5).to_bits(), 0.0f64.to_bits());
}

#[test]
fn real_axis_never_bails_out() {
    // With a zero imaginary part the product tested is always zero, however
    // far the real part runs off.
    assert_eq!(escape_verdict(-2.0, 0.0), Verdict::Bounded);
    assert_eq!(escape_verdict(0.26, 0.0), Verdict::Bounded);
}

#[test]
fn bailout_is_tested_on_the_updated_orbit() {
    // Before the first update the product is 9; after it, -3 * 15.
    assert_eq!(escape_verdict(-3.0, -3.0), Verdict::Escaped(1));
    assert_eq!(escape_score(-3.0, -3.0), 0.1);
    assert_eq!(escape_verdict(3.0, -3.0), Verdict::Escaped(1));
}

#[test]
fn one_one_escapes_at_third_iteration() {
    assert_eq!(escape_verdict(1.0, 1.0), Verdict::Escaped(3));
    assert_eq!(escape_score(1.0, 1.0), 3.0 / 1000.0 * 100.0);
    assert_eq!(escape_score(1.0, 1.0).to_bits(), 0x3fd3333333333333u64);
}

#[test]
fn half_half_escapes_at_fourth_iteration() {
    assert_eq!(escape_verdict(0.5, 0.5), Verdict::Escaped(4));
    assert_eq!(escape_score(0.5, 0.5), 0.4);
}

#[test]
fn slow_escapes_score_higher() {
    assert_eq!(escape_verdict(0.4, 0.4), Verdict::Escaped(9));
    assert_eq!(escape_score(0.4, 0.4), 0.8999999999999999);
    assert_eq!(escape_verdict(0.36, 0.36), Verdict::Escaped(25));
    assert_eq!(escape_score(0.36, 0.36), 2.5);
    assert_eq!(escape_verdict(-0.75, 0.1), Verdict::Escaped(32));
    assert_eq!(escape_score(-0.75, 0.1), 3.2);
    assert_eq!(escape_verdict(0.4, 0.2), Verdict::Escaped(33));
    assert_eq!(escape_score(0.4, 0.2), 3.3000000000000003);
}

#[test]
fn nan_runs_out_the_bound() {
    assert_eq!(escape_verdict(f64::NAN, 1.0), Verdict::Bounded);
    assert_eq!(escape_score(f64::NAN, 1.0).to_bits(), 0.0f64.to_bits());
    assert_eq!(escape_verdict(1.0, f64::NAN), Verdict::Bounded);
}

#[test]
fn infinity_escapes_at_once() {
    assert_eq!(escape_verdict(f64::INFINITY, 1.0), Verdict::Escaped(0));
    assert_eq!(escape_score(f64::INFINITY, 1.0).to_bits(), 0.0f64.to_bits());
}

#[test]
fn same_point_same_bits() {
    let points: Vec<(f64, f64)> = vec![
        (0.0, 0.0),
        (3.0, 3.0),
        (1.0, 1.0),
        (0.4, 0.4),
        (0.37, 0.3),
        (-0.1, 0.9),
    ];
    for (x, y) in points {
        assert_eq!(escape_score(x, y).to_bits(), escape_score(x, y).to_bits());
    }
}

#[test]
fn scores_on_a_grid_are_tenths_below_one_hundred() {
    let mut row: i32 = -20;
    while row <= 20 {
        let mut column: i32 = -20;
        while column <= 20 {
            let x = column as f64 / 10.0;
            let y = row as f64 / 10.0;
            let score = escape_score(x, y);
            let index: u32 = escape_verdict(x, y).score_per_mille();
            assert!(index <= 999);
            assert_eq!(score.to_bits(), (index as f64 / 1000.0 * 100.0).to_bits());
            assert!(score == 0.0 || (0.1 <= score && score <= 99.9));
            column += 1;
        }
        row += 1;
    }
}
