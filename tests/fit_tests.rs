use spshub::background::LinearFit;
use spshub::fit::{fit_background, get_background_marker_data, FitError, FitHandler};
use spshub::histogram::Histogram;

/// Flat background of 10 counts per bin plus a Gaussian peak (mean 50,
/// sigma 3, amplitude 200) on `[0, 100)` with unit bins.
fn peak_on_flat_background() -> Histogram {
    let counts: Vec<u32> = (0..100)
        .map(|i| {
            let x = i as f64 + 0.5;
            let g = 200.0 * (-(x - 50.0).powi(2) / (2.0 * 9.0)).exp();
            (10.0 + g).round() as u32
        })
        .collect();
    Histogram::with_counts((0, 100), 1, counts).unwrap()
}

fn slope_per_unit(f: &LinearFit) -> f64 {
    // the line is over doubled centres
    2.0 * f.slope_num as f64 / f.den as f64
}

fn intercept(f: &LinearFit) -> f64 {
    f.intercept_num as f64 / f.den as f64
}

#[test]
fn end_to_end_peak_on_flat_background() {
    let mut s = FitHandler::new();
    s.set_histogram(peak_on_flat_background());
    s.markers.add_region_marker(30);
    s.markers.add_region_marker(70);
    s.markers.add_background_marker(32);
    s.markers.add_background_marker(68);
    let input = s.prepare_fit().unwrap();
    let bg = input.background;
    assert!(slope_per_unit(&bg).abs() <= 0.5);
    assert!((intercept(&bg) - 10.0).abs() <= 2.0);
    assert_eq!(s.background, Some(bg));
    // the region's bins 30..=70
    assert_eq!(input.x2.len(), 41);
    assert_eq!(input.x2[0], 61);
    assert_eq!(input.x2[40], 141);
    // background removed: far from the peak nothing is left
    assert_eq!(input.y[0], 0);
    assert_eq!(input.y[40], 0);
    // the largest count sits next to the true mean
    let (k, _) = input.y.iter().enumerate().max_by_key(|(_, &c)| c).unwrap();
    let centre = input.x2[k] as f64 / 2.0;
    assert!((centre - 50.0).abs() <= 1.0);
    assert!(input.y[k] >= 190);
    // no peak markers: one seed, the region's mean centre (50.5)
    assert_eq!(input.initial_means2, vec![101]);
}

#[test]
fn peak_markers_seed_the_fit_and_outside_ones_are_dropped() {
    let mut s = FitHandler::new();
    s.set_histogram(peak_on_flat_background());
    s.markers.add_region_marker(30);
    s.markers.add_region_marker(70);
    s.markers.add_peak_marker(49);
    s.markers.add_peak_marker(90);
    let input = s.prepare_fit().unwrap();
    assert_eq!(s.markers.peak_markers, vec![49]);
    assert_eq!(input.initial_means2, vec![98]);
    // no background markers: the region bounds were used
    assert_eq!(s.markers.background_markers, vec![30, 70]);
    s.apply_fitted_means(&vec![50]);
    assert_eq!(s.markers.peak_markers, vec![50]);
}

#[test]
fn prepare_fit_without_histogram() {
    let mut s = FitHandler::new();
    s.markers.add_region_marker(1);
    s.markers.add_region_marker(2);
    assert_eq!(s.prepare_fit().err(), Some(FitError::NoHistogram));
}

#[test]
fn prepare_fit_needs_two_region_markers() {
    let mut s = FitHandler::new();
    s.set_histogram(peak_on_flat_background());
    assert_eq!(s.prepare_fit().err(), Some(FitError::InsufficientMarkers));
    s.markers.add_region_marker(30);
    assert_eq!(s.prepare_fit().err(), Some(FitError::InsufficientMarkers));
}

#[test]
fn prepare_fit_failure_leaves_state_alone() {
    let mut s = FitHandler::new();
    s.set_histogram(peak_on_flat_background());
    s.markers.add_region_marker(30);
    s.markers.add_region_marker(70);
    s.markers.add_background_marker(40);
    s.markers.add_background_marker(40);
    s.markers.add_peak_marker(95);
    assert_eq!(s.prepare_fit().err(), Some(FitError::SingularFit));
    assert_eq!(s.markers.peak_markers, vec![95]);
    assert!(s.background.is_none());
}

#[test]
fn background_needs_two_markers_in_range() {
    let h = peak_on_flat_background();
    assert_eq!(fit_background(&h, &vec![10, 200]).err(), Some(FitError::NoBackgroundData));
    assert_eq!(fit_background(&h, &vec![10, 10]).err(), Some(FitError::SingularFit));
    assert!(fit_background(&h, &vec![10, 20]).is_ok());
}

#[test]
fn too_many_background_points() {
    let h = Histogram::with_counts((0, 10), 1, vec![1; 10]).unwrap();
    let ms: Vec<i32> = (0..3000).map(|i| i % 10).collect();
    assert_eq!(fit_background(&h, &ms).err(), Some(FitError::TooManyBackgroundPoints));
}

#[test]
fn background_marker_data_skips_out_of_range() {
    let h = Histogram::with_counts((0, 4), 2, vec![7, 9]).unwrap();
    let (xs, ys) = get_background_marker_data(&h, &vec![3, -1, 0, 4]);
    assert_eq!(xs, vec![6, 2]);
    assert_eq!(ys, vec![9, 7]);
}

#[test]
fn region_outside_histogram_uses_whole_range() {
    let mut s = FitHandler::new();
    s.set_histogram(Histogram::with_counts((0, 4), 1, vec![1, 5, 9, 13]).unwrap());
    s.markers.add_region_marker(-10);
    s.markers.add_region_marker(10);
    s.markers.add_background_marker(0);
    s.markers.add_background_marker(3);
    let input = s.prepare_fit().unwrap();
    assert_eq!(input.x2, vec![1, 3, 5, 7]);
    assert_eq!(input.y, vec![0, 0, 0, 0]);
    // y = 4x - 1 over axis units: in doubled centres 2 * slope_num == 4 * den
    assert_eq!(2 * input.background.slope_num, 4 * input.background.den);
}

#[test]
fn clear_and_delete_drop_the_fit() {
    let mut s = FitHandler::new();
    s.set_histogram(peak_on_flat_background());
    s.markers.add_region_marker(30);
    s.markers.add_region_marker(70);
    s.prepare_fit().unwrap();
    assert!(s.background.is_some());
    // the defaulted background marker at 70 is as near as the region marker
    // there, and background markers come first
    s.delete_closest_marker(69);
    assert!(s.background.is_none());
    assert_eq!(s.markers.background_markers, vec![30]);
    assert_eq!(s.markers.region_markers, vec![30, 70]);
    s.clear_fit();
    s.clear_all();
    assert!(s.markers.region_markers.is_empty() && s.markers.background_markers.is_empty());
}

#[test]
fn background_line_and_subtraction_in_session() {
    let mut s = FitHandler::new();
    assert_eq!(s.perform_linear_fit_for_background(), Err(FitError::NoHistogram));
    assert!(s.create_background_subtracted_histogram().is_none());
    s.set_histogram(Histogram::with_counts((0, 4), 1, vec![3, 3, 3, 3]).unwrap());
    s.markers.add_background_marker(0);
    assert_eq!(s.perform_linear_fit_for_background(), Err(FitError::NoBackgroundData));
    assert!(s.background.is_none());
    s.markers.add_background_marker(3);
    assert_eq!(s.perform_linear_fit_for_background(), Ok(()));
    let sub = s.create_background_subtracted_histogram().unwrap();
    assert_eq!(sub.bins, vec![0, 0, 0, 0]);
}
