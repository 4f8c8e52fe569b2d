use spshub::histogram::{Histogram, Histogram2D, HistogramTypes};

#[test]
fn new_histogram_has_ceiling_bin_count() {
    let h = Histogram::new((0, 10), 3).unwrap();
    assert_eq!(h.bins.len(), 4);
    assert!(h.bins.iter().all(|&c| c == 0));
    let h = Histogram::new((0, 100), 1).unwrap();
    assert_eq!(h.bins.len(), 100);
}

#[test]
fn new_histogram_rejects_empty_range_or_zero_width() {
    assert!(Histogram::new((5, 5), 1).is_none());
    assert!(Histogram::new((6, 5), 1).is_none());
    assert!(Histogram::new((0, 5), 0).is_none());
}

#[test]
fn get_bin_defined_exactly_on_half_open_range() {
    let h = Histogram::new((-10, 10), 4).unwrap();
    assert_eq!(h.get_bin(-11), None);
    assert_eq!(h.get_bin(-10), Some(0));
    assert_eq!(h.get_bin(-7), Some(0));
    assert_eq!(h.get_bin(-6), Some(1));
    assert_eq!(h.get_bin(9), Some(4));
    assert_eq!(h.get_bin(10), None);
    for x in -10..10 {
        let i = h.get_bin(x).unwrap();
        assert!(-10 + (i as i32) * 4 <= x && x < -10 + (i as i32 + 1) * 4);
    }
}

#[test]
fn get_bin_last_partial_bin() {
    let h = Histogram::new((0, 10), 3).unwrap();
    assert_eq!(h.get_bin(9), Some(3));
    assert_eq!(h.get_bin(i32::MAX), None);
    assert_eq!(h.get_bin(i32::MIN), None);
}

#[test]
fn fill_counts_values_in_range_only() {
    let mut h = Histogram::new((0, 10), 2).unwrap();
    h.fill(0);
    h.fill(1);
    h.fill(9);
    h.fill(10);
    h.fill(-1);
    assert_eq!(h.bins, vec![2, 0, 0, 0, 1]);
}

#[test]
fn fill_saturates_at_max() {
    let mut h = Histogram::with_counts((0, 2), 1, vec![u32::MAX, 0]).unwrap();
    h.fill(0);
    assert_eq!(h.bins, vec![u32::MAX, 0]);
}

#[test]
fn with_counts_checks_length() {
    assert!(Histogram::with_counts((0, 4), 2, vec![1, 2]).is_some());
    assert!(Histogram::with_counts((0, 4), 2, vec![1, 2, 3]).is_none());
}

#[test]
fn doubled_bin_centres() {
    let h = Histogram::new((-3, 7), 2).unwrap();
    assert_eq!(h.bin_center_doubled(0), -4);
    assert_eq!(h.bin_center_doubled(4), 12);
}

#[test]
fn histogram_2d_bins_and_fill() {
    let mut h = Histogram2D::new((0, 10), 5, (-4, 4), 3).unwrap();
    assert_eq!(h.bins.len(), 3);
    assert!(h.bins.iter().all(|r| r.len() == 2 && r.iter().all(|&c| c == 0)));
    assert_eq!(h.get_bin(0, -4), Some((0, 0)));
    assert_eq!(h.get_bin(9, 3), Some((1, 2)));
    assert_eq!(h.get_bin(10, 0), None);
    assert_eq!(h.get_bin(0, 4), None);
    h.fill(6, 0);
    h.fill(6, 1);
    h.fill(20, 0);
    assert_eq!(h.bins, vec![vec![0, 0], vec![0, 2], vec![0, 0]]);
    assert!(Histogram2D::new((0, 10), 0, (0, 1), 1).is_none());
    assert!(Histogram2D::new((0, 10), 1, (1, 1), 1).is_none());
}

#[test]
fn histogram_types_fill_by_kind() {
    let mut one = HistogramTypes::Hist1D(Histogram::new((0, 4), 1).unwrap());
    one.fill(2, 100);
    match one {
        HistogramTypes::Hist1D(h) => assert_eq!(h.bins, vec![0, 0, 1, 0]),
        HistogramTypes::Hist2D(_) => panic!("kind changed"),
    }
    let mut two = HistogramTypes::Hist2D(Histogram2D::new((0, 2), 1, (0, 2), 1).unwrap());
    two.fill(1, 0);
    match two {
        HistogramTypes::Hist2D(h) => assert_eq!(h.bins, vec![vec![0, 1], vec![0, 0]]),
        HistogramTypes::Hist1D(_) => panic!("kind changed"),
    }
}
