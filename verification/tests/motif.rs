use agent_motif::{Direction, Motif, MotifTransform};

#[test]
fn test_motif_creation() {
    let m = Motif::new(vec![60, 62, 64, 65], "test motif");
    assert_eq!(m.len(), 4);
    assert!(!m.is_empty());
    assert_eq!(m.name, "test motif");
}

#[test]
fn test_motif_with_id() {
    let m = Motif::with_id(vec![1, 2, 3], "abc", "m1");
    assert_eq!(m.id, Some("m1".to_string()));
}

#[test]
fn test_motif_intervals() {
    let m = Motif::new(vec![60, 62, 64, 65], "test");
    assert_eq!(m.intervals(), vec![2, 2, 1]);
}

#[test]
fn test_motif_span() {
    let m = Motif::new(vec![60, 62, 64, 65], "test");
    assert_eq!(m.span(), 5);
}

#[test]
fn test_motif_total_motion() {
    let m = Motif::new(vec![60, 62, 60, 64], "test");
    assert_eq!(m.total_motion(), 8); // |2|+|-2|+|4| = 8
}

#[test]
fn test_motif_symmetrical() {
    let sym = Motif::new(vec![60, 62, 65, 67], "sym");
    // intervals: [2, 3, 2], the same reversed
    assert!(sym.is_symmetrical());

    let asym = Motif::new(vec![60, 62, 65], "asym");
    assert!(!asym.is_symmetrical());
}

#[test]
fn test_motif_contour() {
    let m = Motif::new(vec![60, 62, 60, 64], "test");
    assert_eq!(
        m.contour(),
        vec![Direction::Up, Direction::Down, Direction::Up]
    );
}

#[test]
fn test_motif_compactness() {
    let m = Motif::new(vec![1, 1, 1], "repeated");
    let c = m.distinct_count() as f64 / m.len() as f64;
    assert!((c - 1.0 / 3.0).abs() < 0.01);

    let unique = Motif::new(vec![1, 2, 3], "unique");
    let c = unique.distinct_count() as f64 / unique.len() as f64;
    assert!((c - 1.0).abs() < 0.01);
}

#[test]
fn test_motif_contour_matches() {
    let a = Motif::new(vec![60, 62, 64], "a");
    let b = Motif::new(vec![0, 5, 10], "b");
    assert!(a.contour_matches(&b)); // both go up-up

    let c = Motif::new(vec![60, 58, 56], "c");
    assert!(!a.contour_matches(&c));
}

#[test]
fn test_motif_edit_distance() {
    let a = Motif::new(vec![1, 2, 3], "a");
    let b = Motif::new(vec![1, 2, 3], "b");
    assert_eq!(a.edit_distance(&b), 0);

    let c = Motif::new(vec![1, 2, 4], "c");
    assert_eq!(a.edit_distance(&c), 1);

    let d = Motif::new(vec![1, 2], "d");
    assert_eq!(a.edit_distance(&d), 1);
}

#[test]
fn test_motif_display() {
    let m = Motif::new(vec![60, 62, 64], "C major triad");
    assert!(m.to_string().contains("C major triad"));
}

#[test]
fn test_direction_display() {
    assert_eq!(Direction::Up.to_string(), "↑");
    assert_eq!(Direction::Down.to_string(), "↓");
    assert_eq!(Direction::Same.to_string(), "→");
}

#[test]
fn test_empty_motif() {
    let m = Motif::new(vec![], "empty");
    assert!(m.is_empty());
    assert_eq!(m.span(), 0);
    assert!(m.intervals().is_empty());
}

// ---------------------------------------------------------------------------
// Further cases
// ---------------------------------------------------------------------------

#[test]
fn motif_display_exact_form() {
    let m = Motif::new(vec![60, -62, 0], "triad");
    assert_eq!(m.to_string(), "triad: [60, -62, 0]");
    let e = Motif::new(vec![], "none");
    assert_eq!(e.to_string(), "none: []");
}

#[test]
fn motif_single_element_measures() {
    let m = Motif::new(vec![7], "one");
    assert!(m.intervals().is_empty());
    assert_eq!(m.span(), 0);
    assert_eq!(m.total_motion(), 0);
    assert!(m.is_symmetrical());
    assert!(m.contour().is_empty());
}

#[test]
fn motif_span_with_negative_values() {
    let m = Motif::new(vec![-5, 3, -9, 2], "wide");
    assert_eq!(m.span(), 12);
    assert_eq!(m.total_motion(), 8 + 12 + 11);
}

#[test]
fn motif_contour_with_repeats() {
    let m = Motif::new(vec![67, 67, 67, 63], "fate");
    assert_eq!(
        m.contour(),
        vec![Direction::Same, Direction::Same, Direction::Down]
    );
    assert_eq!(m.intervals(), vec![0, 0, -4]);
}

#[test]
fn motif_clone_keeps_everything() {
    let m = Motif::with_id(vec![1, 2], "n", "x");
    let c = m.clone();
    assert_eq!(c, m);
}

#[test]
fn motif_distinct_count_values() {
    assert_eq!(Motif::new(vec![], "e").distinct_count(), 0);
    assert_eq!(Motif::new(vec![4, 1, 4, 2, 1], "m").distinct_count(), 3);
}

#[test]
fn edit_distance_identity_and_symmetry() {
    let a = Motif::new(vec![1, 5, 2, 8], "a");
    let b = Motif::new(vec![5, 2, 9], "b");
    assert_eq!(a.edit_distance(&a), 0);
    assert_eq!(a.edit_distance(&b), b.edit_distance(&a));
    assert_eq!(a.edit_distance(&b), 2);
    let empty = Motif::new(vec![], "e");
    assert_eq!(a.edit_distance(&empty), 4);
    assert_eq!(empty.edit_distance(&b), 3);
}

#[test]
fn transposition_keeps_contour_and_span() {
    let m = Motif::new(vec![60, 64, 62, 67], "m");
    let t = MotifTransform::Transposition { interval: -12 }.apply(&m);
    assert_eq!(t.contour(), m.contour());
    assert_eq!(t.intervals(), m.intervals());
    assert_eq!(t.span(), m.span());
}

#[test]
fn total_motion_bounds_span() {
    let m = Motif::new(vec![3, 9, 1, 4], "m");
    assert_eq!(m.total_motion(), 6 + 8 + 3);
    assert_eq!(m.span(), 8);
    assert!(m.total_motion() >= m.span());
    let flat = Motif::new(vec![2, 2, 2], "flat");
    assert_eq!(flat.total_motion(), 0);
}

#[test]
fn edit_distance_triangle_and_length_bound() {
    let a = Motif::new(vec![1, 2, 3, 4], "a");
    let b = Motif::new(vec![2, 3, 5], "b");
    let c = Motif::new(vec![9, 2, 3], "c");
    let ab = a.edit_distance(&b);
    let bc = b.edit_distance(&c);
    let ac = a.edit_distance(&c);
    assert_eq!((ab, bc, ac), (2, 2, 2));
    assert!(ac <= ab + bc);
    assert!(a.len() - b.len() <= ab);
}
