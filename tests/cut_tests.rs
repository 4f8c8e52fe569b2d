use spshub::cut::{apply_cut, column_index, point_in_polygon, Cut, CutError, CutHandler};

fn square() -> Vec<(i32, i32)> {
    vec![(0, 0), (10, 0), (10, 10), (0, 10)]
}

fn cols(names: &[&str]) -> Vec<String> {
    names.iter().map(|s| s.to_string()).collect()
}

#[test]
fn rectangle_cut_keeps_open_interior() {
    let vs = square();
    for x in -2..13 {
        for y in -2..13 {
            let expected = 0 < x && x < 10 && 0 < y && y < 10;
            assert_eq!(point_in_polygon(&vs, (x, y)), expected, "({}, {})", x, y);
        }
    }
}

#[test]
fn rectangle_boundary_points_are_outside() {
    let vs = square();
    for p in [(0, 0), (10, 0), (10, 10), (0, 10), (5, 0), (10, 5), (5, 10), (0, 5)] {
        assert!(!point_in_polygon(&vs, p));
    }
}

#[test]
fn triangle_and_concave_polygon() {
    let tri = vec![(0, 0), (8, 0), (0, 8)];
    assert!(point_in_polygon(&tri, (2, 2)));
    assert!(!point_in_polygon(&tri, (4, 4)));
    assert!(!point_in_polygon(&tri, (5, 5)));
    let notch = vec![(0, 0), (10, 0), (10, 10), (5, 5), (0, 10)];
    assert!(point_in_polygon(&notch, (5, 2)));
    assert!(!point_in_polygon(&notch, (5, 8)));
    assert!(point_in_polygon(&notch, (2, 6)));
}

#[test]
fn cut_needs_three_vertices() {
    let c = Cut::new("a".to_string(), "x".to_string(), "y".to_string(), vec![(0, 0), (1, 1)]);
    assert!(c.is_none());
    let c = Cut::new("a".to_string(), "x".to_string(), "y".to_string(), square()).unwrap();
    assert!(c.contains(5, 5));
    assert!(!c.contains(10, 5));
}

#[test]
fn column_lookup_takes_first_match() {
    let c = cols(&["a", "b", "a"]);
    assert_eq!(column_index(&c, &"a".to_string()), Some(0));
    assert_eq!(column_index(&c, &"b".to_string()), Some(1));
    assert_eq!(column_index(&c, &"z".to_string()), None);
}

#[test]
fn resolve_reports_missing_column() {
    let c = Cut::new("a".to_string(), "x".to_string(), "w".to_string(), square()).unwrap();
    assert_eq!(c.resolve(&cols(&["x", "y"])).err(), Some(CutError::ColumnNotFound));
    let f = c.resolve(&cols(&["w", "x"])).unwrap();
    assert_eq!((f.x_index, f.y_index), (1, 0));
}

#[test]
fn apply_cut_keeps_rows_in_order() {
    let c = Cut::new("a".to_string(), "x".to_string(), "y".to_string(), square()).unwrap();
    let f = c.resolve(&cols(&["id", "x", "y"])).unwrap();
    let rows = vec![vec![1, 5, 5], vec![2, 0, 5], vec![3, 9, 1], vec![4, 11, 5], vec![5, 5]];
    assert_eq!(apply_cut(&rows, &f), vec![vec![1, 5, 5], vec![3, 9, 1]]);
}

#[test]
fn two_cuts_commute() {
    let a = Cut::new("a".to_string(), "x".to_string(), "y".to_string(), square()).unwrap();
    let b = Cut::new("b".to_string(), "y".to_string(), "z".to_string(), vec![(2, 2), (20, 2), (2, 20)]).unwrap();
    let columns = cols(&["x", "y", "z"]);
    let fa = a.resolve(&columns).unwrap();
    let fb = b.resolve(&columns).unwrap();
    let mut rows = Vec::new();
    for x in -1..12 {
        for y in -1..12 {
            rows.push(vec![x, y, (x * 7 + y * 3) % 13]);
        }
    }
    let ab = apply_cut(&apply_cut(&rows, &fa), &fb);
    let ba = apply_cut(&apply_cut(&rows, &fb), &fa);
    assert_eq!(ab, ba);
    assert!(!ab.is_empty());
}

#[test]
fn handler_filters_with_all_cuts() {
    let mut h = CutHandler::new();
    h.update_column_names(cols(&["x", "y"]));
    h.add_cut(Cut::new("a".to_string(), "x".to_string(), "y".to_string(), square()).unwrap());
    h.add_cut(Cut::new("b".to_string(), "x".to_string(), "y".to_string(), vec![(5, -5), (20, -5), (20, 20), (5, 20)]).unwrap());
    let rows = vec![vec![2, 2], vec![7, 7], vec![12, 7], vec![7, 12]];
    assert_eq!(h.filter_rows_with_all_cuts(&rows).unwrap(), vec![vec![7, 7]]);
}

#[test]
fn handler_reports_column_not_found() {
    let mut h = CutHandler::new();
    h.update_column_names(cols(&["x"]));
    h.add_cut(Cut::new("a".to_string(), "x".to_string(), "y".to_string(), square()).unwrap());
    assert_eq!(h.filter_rows_with_all_cuts(&vec![vec![1]]).err(), Some(CutError::ColumnNotFound));
}

#[test]
fn handler_with_no_cuts_keeps_all_rows() {
    let h = CutHandler::new();
    let rows = vec![vec![1, 2], vec![3]];
    assert_eq!(h.filter_rows_with_all_cuts(&rows).unwrap(), rows);
}

#[test]
fn handler_names_and_active_cut() {
    let mut h = CutHandler::new();
    assert!(h.active_cut().is_none());
    h.add_cut(Cut::new("a".to_string(), "x".to_string(), "y".to_string(), square()).unwrap());
    h.add_cut(Cut::new("b".to_string(), "x".to_string(), "y".to_string(), square()).unwrap());
    assert_eq!(h.active_cut().unwrap().name, "b");
    assert!(h.set_active_cut(&"a".to_string()));
    assert_eq!(h.active_cut().unwrap().name, "a");
    assert!(!h.set_active_cut(&"zz".to_string()));
    assert_eq!(h.active_cut_id.as_deref(), Some("a"));
    // same name replaces
    h.add_cut(Cut::new("a".to_string(), "u".to_string(), "v".to_string(), square()).unwrap());
    assert_eq!(h.cuts.len(), 2);
    assert_eq!(h.cuts[0].x_column, "u");
    assert_eq!(h.find_cut(&"b".to_string()), Some(1));
    assert!(h.remove_cut(&"a".to_string()));
    assert!(h.active_cut_id.is_none());
    assert!(!h.remove_cut(&"a".to_string()));
    assert_eq!(h.cuts.len(), 1);
}

#[test]
fn add_new_cut_names_by_count() {
    let mut h = CutHandler::new();
    assert!(!h.add_new_cut("x".to_string(), "y".to_string(), vec![(0, 0), (1, 1)]));
    assert!(h.cuts.is_empty());
    for _ in 0..10 {
        assert!(h.add_new_cut("x".to_string(), "y".to_string(), square()));
    }
    let names: Vec<&str> = h.cuts.iter().map(|c| c.name.as_str()).collect();
    assert_eq!(names[0], "cut_1");
    assert_eq!(names[9], "cut_10");
    assert_eq!(h.active_cut_id.as_deref(), Some("cut_10"));
}

#[test]
fn add_new_cut_after_removal_replaces_same_name() {
    let mut h = CutHandler::new();
    h.add_new_cut("x".to_string(), "y".to_string(), square());
    h.add_new_cut("x".to_string(), "y".to_string(), square());
    assert!(h.remove_cut(&"cut_1".to_string()));
    // one cut left, so the next is named cut_2 again and replaces it
    h.add_new_cut("a".to_string(), "b".to_string(), square());
    assert_eq!(h.cuts.len(), 1);
    assert_eq!(h.cuts[0].name, "cut_2");
    assert_eq!(h.cuts[0].x_column, "a");
}
