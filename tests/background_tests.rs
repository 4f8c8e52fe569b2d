use spshub::background::{simple_linear_regression, subtract_background, BackgroundError, LinearFit};
use spshub::histogram::Histogram;

fn slope(f: &LinearFit) -> f64 {
    f.slope_num as f64 / f.den as f64
}

fn intercept(f: &LinearFit) -> f64 {
    f.intercept_num as f64 / f.den as f64
}

#[test]
fn regression_recovers_exact_line() {
    let xs: Vec<i64> = vec![-3, 0, 2, 7, 11];
    let ys: Vec<i64> = xs.iter().map(|x| 3 * x + 5).collect();
    let f = simple_linear_regression(&xs, &ys).unwrap();
    assert!(f.den > 0);
    assert_eq!(f.slope_num, 3 * f.den);
    assert_eq!(f.intercept_num, 5 * f.den);
    assert!((slope(&f) - 3.0).abs() < 1e-9);
    assert!((intercept(&f) - 5.0).abs() < 1e-9);
}

#[test]
fn regression_recovers_fractional_line() {
    // y = (x + 1) / 2 on odd x
    let xs: Vec<i64> = vec![1, 3, 5, 9];
    let ys: Vec<i64> = xs.iter().map(|x| (x + 1) / 2).collect();
    let f = simple_linear_regression(&xs, &ys).unwrap();
    assert_eq!(2 * f.slope_num, f.den);
    assert_eq!(2 * f.intercept_num, f.den);
}

#[test]
fn regression_known_values() {
    // points (0,1), (1,3), (2,2): n=3, sx=3, sy=6, sxx=5, sxy=7
    let f = simple_linear_regression(&vec![0, 1, 2], &vec![1, 3, 2]).unwrap();
    assert_eq!((f.slope_num, f.intercept_num, f.den), (3, 9, 6));
}

#[test]
fn regression_needs_two_points() {
    assert_eq!(simple_linear_regression(&vec![], &vec![]), Err(BackgroundError::NoBackgroundData));
    assert_eq!(simple_linear_regression(&vec![4], &vec![1]), Err(BackgroundError::NoBackgroundData));
    assert_eq!(simple_linear_regression(&vec![4, 5], &vec![1]), Err(BackgroundError::NoBackgroundData));
}

#[test]
fn regression_singular_when_all_x_equal() {
    assert_eq!(simple_linear_regression(&vec![4, 4, 4], &vec![1, 2, 3]), Err(BackgroundError::SingularFit));
}

#[test]
fn estimate_rounds_half_up_and_clamps_at_zero() {
    let f = LinearFit { slope_num: 1, intercept_num: 0, den: 2 };
    assert_eq!(f.estimate_at(3), 2);
    assert_eq!(f.estimate_at(2), 1);
    assert_eq!(f.estimate_at(1), 1);
    assert_eq!(f.estimate_at(0), 0);
    assert_eq!(f.estimate_at(-5), 0);
    let g = LinearFit { slope_num: 0, intercept_num: 7, den: 3 };
    assert_eq!(g.estimate_at(100), 2);
}

#[test]
fn subtraction_saturates_at_zero() {
    let h = Histogram::with_counts((0, 3), 1, vec![5, 0, 100]).unwrap();
    let flat = LinearFit { slope_num: 0, intercept_num: 10, den: 1 };
    let r = subtract_background(&h, &flat);
    assert_eq!(r.bins, vec![0, 0, 90]);
    assert_eq!(r.range, (0, 3));
    assert_eq!(r.bin_width, 1);
}

#[test]
fn subtraction_of_negative_background_keeps_counts() {
    let h = Histogram::with_counts((0, 3), 1, vec![5, 0, 100]).unwrap();
    let negative = LinearFit { slope_num: 0, intercept_num: -10, den: 1 };
    assert_eq!(subtract_background(&h, &negative).bins, vec![5, 0, 100]);
}

#[test]
fn subtraction_follows_sloped_line_at_bin_centres() {
    // y = x / 2 in doubled units is y = x in axis units; centres 0.5, 1.5, 2.5, 3.5
    let h = Histogram::with_counts((0, 4), 1, vec![10, 10, 10, 10]).unwrap();
    let line = LinearFit { slope_num: 1, intercept_num: 0, den: 2 };
    assert_eq!(subtract_background(&h, &line).bins, vec![9, 8, 7, 6]);
}

#[test]
fn subtracted_counts_never_negative_on_grid() {
    let h = Histogram::with_counts((0, 6), 1, vec![0, 1, 2, 3, 4, 5]).unwrap();
    for s in -3..4i128 {
        for b in -10..10i128 {
            let f = LinearFit { slope_num: s, intercept_num: b, den: 1 };
            let r = subtract_background(&h, &f);
            for (i, &c) in r.bins.iter().enumerate() {
                assert!(c <= h.bins[i]);
            }
        }
    }
}
