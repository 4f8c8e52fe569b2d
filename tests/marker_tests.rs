use spshub::markers::{insert_sorted, FitMarkers, MarkerEvent};

#[test]
fn adds_keep_groups_sorted() {
    let mut m = FitMarkers::new();
    for x in [5, -2, 9, 5, 0] {
        m.add_peak_marker(x);
        m.add_background_marker(-x);
    }
    assert_eq!(m.peak_markers, vec![-2, 0, 5, 5, 9]);
    assert_eq!(m.background_markers, vec![-9, -5, -5, 0, 2]);
    assert!(m.region_markers.is_empty());
}

#[test]
fn insert_sorted_places_value() {
    let mut v = vec![1, 3, 3, 7];
    insert_sorted(&mut v, 3);
    assert_eq!(v, vec![1, 3, 3, 3, 7]);
    insert_sorted(&mut v, 8);
    insert_sorted(&mut v, -1);
    assert_eq!(v, vec![-1, 1, 3, 3, 3, 7, 8]);
}

#[test]
fn region_markers_sorted_pair() {
    let mut m = FitMarkers::new();
    m.add_region_marker(70);
    m.add_region_marker(30);
    assert_eq!(m.region_markers, vec![30, 70]);
}

#[test]
fn third_region_marker_starts_new_region() {
    let mut m = FitMarkers::new();
    m.add_region_marker(30);
    m.add_region_marker(70);
    m.add_region_marker(55);
    assert_eq!(m.region_markers, vec![55]);
    m.add_region_marker(40);
    assert_eq!(m.region_markers, vec![40, 55]);
    m.add_region_marker(1);
    assert_eq!(m.region_markers, vec![1]);
}

#[test]
fn delete_closest_marker_removes_nearest_of_any_group() {
    let mut m = FitMarkers::new();
    m.add_peak_marker(10);
    m.add_peak_marker(50);
    m.add_background_marker(20);
    m.add_region_marker(0);
    m.add_region_marker(100);
    m.delete_closest_marker(22);
    assert_eq!(m.background_markers, Vec::<i32>::new());
    assert_eq!(m.peak_markers, vec![10, 50]);
    m.delete_closest_marker(95);
    assert_eq!(m.region_markers, vec![0]);
    m.delete_closest_marker(-1000);
    assert_eq!(m.region_markers, Vec::<i32>::new());
    assert_eq!(m.peak_markers, vec![10, 50]);
}

#[test]
fn delete_closest_marker_ties_go_to_peaks_first() {
    let mut m = FitMarkers::new();
    m.add_background_marker(4);
    m.add_peak_marker(6);
    m.delete_closest_marker(5);
    assert!(m.peak_markers.is_empty());
    assert_eq!(m.background_markers, vec![4]);
}

#[test]
fn delete_closest_marker_on_empty_set() {
    let mut m = FitMarkers::new();
    m.delete_closest_marker(3);
    assert!(m.peak_markers.is_empty() && m.background_markers.is_empty() && m.region_markers.is_empty());
}

#[test]
fn peaks_outside_region_are_dropped() {
    let mut m = FitMarkers::new();
    for x in [5, 30, 45, 70, 71] {
        m.add_peak_marker(x);
    }
    m.add_region_marker(30);
    m.add_region_marker(70);
    m.remove_peak_markers_outside_region();
    assert_eq!(m.peak_markers, vec![30, 45, 70]);
}

#[test]
fn replace_peaks_sorts_means() {
    let mut m = FitMarkers::new();
    m.add_peak_marker(1);
    m.replace_peak_markers(&vec![52, 48, 50]);
    assert_eq!(m.peak_markers, vec![48, 50, 52]);
}

#[test]
fn background_defaults_to_region() {
    let mut m = FitMarkers::new();
    m.add_region_marker(30);
    m.add_region_marker(70);
    m.default_background_to_region();
    assert_eq!(m.background_markers, vec![30, 70]);
    m.clear_background_markers();
    m.add_background_marker(32);
    m.default_background_to_region();
    assert_eq!(m.background_markers, vec![32]);
}

#[test]
fn clears_touch_one_group() {
    let mut m = FitMarkers::new();
    m.add_peak_marker(1);
    m.add_background_marker(2);
    m.add_region_marker(3);
    m.clear_peak_markers();
    assert!(m.peak_markers.is_empty());
    assert_eq!(m.background_markers, vec![2]);
    m.clear_region_markers();
    assert!(m.region_markers.is_empty());
    m.clear_background_markers();
    assert!(m.background_markers.is_empty());
}

#[test]
fn events_drive_the_markers() {
    let mut m = FitMarkers::new();
    for e in [
        MarkerEvent::AddRegion(70),
        MarkerEvent::AddRegion(30),
        MarkerEvent::AddPeak(52),
        MarkerEvent::AddPeak(48),
        MarkerEvent::AddBackground(32),
    ] {
        m.apply(e);
    }
    assert_eq!(m.region_markers, vec![30, 70]);
    assert_eq!(m.peak_markers, vec![48, 52]);
    assert_eq!(m.background_markers, vec![32]);
    m.apply(MarkerEvent::DeleteClosest(50));
    assert_eq!(m.peak_markers, vec![52]);
    m.apply(MarkerEvent::AddRegion(10));
    assert_eq!(m.region_markers, vec![10]);
    m.apply(MarkerEvent::ClearPeaks);
    assert!(m.peak_markers.is_empty());
    m.apply(MarkerEvent::ClearBackground);
    assert!(m.background_markers.is_empty());
    m.apply(MarkerEvent::ClearRegion);
    assert!(m.region_markers.is_empty());
    m.apply(MarkerEvent::AddPeak(1));
    m.apply(MarkerEvent::ClearAll);
    assert!(m.peak_markers.is_empty());
}
