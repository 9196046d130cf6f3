use agent_motif::{Motif, MotifTransform};

#[test]
fn test_transform_inversion() {
    let m = Motif::new(vec![60, 64, 67], "triad up");
    let inv = MotifTransform::Inversion.apply(&m);
    assert_eq!(inv.elements, vec![60, 56, 53]); // intervals flipped
}

#[test]
fn test_transform_retrograde() {
    let m = Motif::new(vec![1, 2, 3, 4], "forward");
    let retro = MotifTransform::Retrograde.apply(&m);
    assert_eq!(retro.elements, vec![4, 3, 2, 1]);
}

#[test]
fn test_transform_augmentation() {
    let m = Motif::new(vec![60, 62, 64], "small");
    let aug = MotifTransform::Augmentation { factor: 2 }.apply(&m);
    assert_eq!(aug.elements, vec![60, 64, 68]); // intervals doubled
}

#[test]
fn test_transform_diminution() {
    let m = Motif::new(vec![60, 64, 68], "large");
    let dim = MotifTransform::Diminution { divisor: 2 }.apply(&m);
    assert_eq!(dim.elements, vec![60, 62, 64]); // intervals halved
}

#[test]
fn test_transform_transposition() {
    let m = Motif::new(vec![60, 62, 64], "original");
    let trans = MotifTransform::Transposition { interval: 7 }.apply(&m);
    assert_eq!(trans.elements, vec![67, 69, 71]);
}

#[test]
fn test_transform_retrograde_inversion() {
    let m = Motif::new(vec![60, 64, 67], "test");
    let ri = MotifTransform::RetrogradeInversion.apply(&m);
    // Invert first: 60, 56, 53; then reverse: 53, 56, 60
    assert_eq!(ri.elements, vec![53, 56, 60]);
}

#[test]
fn test_transform_sequence() {
    let m = Motif::new(vec![60, 62], "pair");
    let seq = MotifTransform::Sequence { shift: 2 }.apply(&m);
    assert_eq!(seq.elements, vec![60, 62, 62, 64]);
}

#[test]
fn test_transform_elision() {
    let m = Motif::new(vec![1, 2, 3], "trio");
    let el = MotifTransform::Elision.apply(&m);
    assert_eq!(el.elements, vec![1, 2]);
}

#[test]
fn test_transform_extension() {
    let m = Motif::new(vec![1, 2], "duo");
    let ext = MotifTransform::Extension { value: 5 }.apply(&m);
    assert_eq!(ext.elements, vec![1, 2, 5]);
}

#[test]
fn test_transform_fragmentation() {
    let m = Motif::new(vec![1, 2, 3, 4, 5], "long");
    let frag = MotifTransform::Fragmentation { start: 1, len: 3 }.apply(&m);
    assert_eq!(frag.elements, vec![2, 3, 4]);
}

#[test]
fn test_transform_description() {
    assert!(MotifTransform::Inversion.description().contains("flip") || MotifTransform::Inversion.description().contains("Flip"));
}

#[test]
fn test_transform_display() {
    let aug = MotifTransform::Augmentation { factor: 3 };
    assert!(aug.to_string().contains("3"));
}

// ---------------------------------------------------------------------------
// Further cases
// ---------------------------------------------------------------------------

#[test]
fn transform_names_the_result() {
    let m = Motif::with_id(vec![1, 2], "seed", "id-1");
    let aug = MotifTransform::Augmentation { factor: 2 }.apply(&m);
    assert_eq!(aug.name, "seed (Augmentation)");
    assert_eq!(aug.id, None);
    let ri = MotifTransform::RetrogradeInversion.apply(&m);
    assert_eq!(ri.name, "seed (RetrogradeInversion)");
    let frag = MotifTransform::Fragmentation { start: 0, len: 1 }.apply(&m);
    assert_eq!(frag.name, "seed (Fragmentation)");
}

#[test]
fn diminution_truncates_toward_zero() {
    let m = Motif::new(vec![0, 5, -2, -2, 7], "odd");
    // intervals 5, -7, 0, 9 -> 2, -3, 0, 4
    let dim = MotifTransform::Diminution { divisor: 2 }.apply(&m);
    assert_eq!(dim.elements, vec![0, 2, -1, -1, 3]);
    let neg = MotifTransform::Diminution { divisor: -3 }.apply(&m);
    // 5 / -3 = -1, -7 / -3 = 2, 0, 9 / -3 = -3
    assert_eq!(neg.elements, vec![0, -1, 1, 1, -2]);
}

#[test]
fn augmentation_by_negative_factor() {
    let m = Motif::new(vec![10, 12, 9], "m");
    let aug = MotifTransform::Augmentation { factor: -3 }.apply(&m);
    assert_eq!(aug.elements, vec![10, 4, 13]);
}

#[test]
fn inversion_and_retrograde_undo_themselves() {
    let m = Motif::new(vec![3, 9, -4, 0], "m");
    let inv = MotifTransform::Inversion.apply(&m);
    assert_eq!(inv.elements, vec![3, -3, 10, 6]);
    let back = MotifTransform::Inversion.apply(&inv);
    assert_eq!(back.elements, m.elements);
    let retro = MotifTransform::Retrograde.apply(&MotifTransform::Retrograde.apply(&m));
    assert_eq!(retro.elements, m.elements);
}

#[test]
fn elision_and_retrograde_of_empty_motif() {
    let m = Motif::new(vec![], "empty");
    assert!(MotifTransform::Elision.apply(&m).elements.is_empty());
    assert!(MotifTransform::Retrograde.apply(&m).elements.is_empty());
    assert!(MotifTransform::Sequence { shift: 3 }.apply(&m).elements.is_empty());
    assert_eq!(MotifTransform::Extension { value: 9 }.apply(&m).elements, vec![9]);
}

#[test]
fn fragmentation_is_cut_at_the_end() {
    let m = Motif::new(vec![1, 2, 3], "m");
    let frag = MotifTransform::Fragmentation { start: 1, len: 10 }.apply(&m);
    assert_eq!(frag.elements, vec![2, 3]);
    let none = MotifTransform::Fragmentation { start: 3, len: 2 }.apply(&m);
    assert!(none.elements.is_empty());
}

#[test]
fn transform_display_forms() {
    assert_eq!(MotifTransform::Inversion.to_string(), "Inversion");
    assert_eq!(MotifTransform::Augmentation { factor: 3 }.to_string(), "Augmentation(×3)");
    assert_eq!(MotifTransform::Diminution { divisor: 2 }.to_string(), "Diminution(÷2)");
    assert_eq!(MotifTransform::Transposition { interval: -5 }.to_string(), "Transposition(+-5)");
    assert_eq!(MotifTransform::Sequence { shift: 12 }.to_string(), "Sequence(+12)");
    assert_eq!(MotifTransform::Extension { value: 0 }.to_string(), "Extension(+0)");
    assert_eq!(MotifTransform::Fragmentation { start: 2, len: 3 }.to_string(), "Fragmentation(2:5)");
    assert_eq!(MotifTransform::Elision.to_string(), "Elision");
}

#[test]
fn transform_descriptions() {
    assert_eq!(MotifTransform::Retrograde.description(), "Reverse the order of all elements");
    assert_eq!(
        MotifTransform::Fragmentation { start: 0, len: 0 }.description(),
        "Use only a portion of the original motif"
    );
    assert_eq!(MotifTransform::Sequence { shift: 1 }.variant_label(), "Sequence");
}

#[test]
fn augmentation_scales_intervals() {
    let m = Motif::new(vec![5, 9, 2, 2], "m");
    let aug = MotifTransform::Augmentation { factor: 3 }.apply(&m);
    assert_eq!(aug.intervals(), vec![12, -21, 0]);
    assert_eq!(aug.contour(), m.contour());
    let inv = MotifTransform::Inversion.apply(&m);
    assert_eq!(inv.intervals(), vec![-4, 7, 0]);
}

#[test]
fn can_apply_to_matches_the_inputs_apply_accepts() {
    let empty = Motif::new(vec![], "e");
    assert!(!MotifTransform::Inversion.can_apply_to(&empty));
    assert!(MotifTransform::Retrograde.can_apply_to(&empty));
    let big = Motif::new(vec![i32::MAX - 1, 0], "big");
    assert!(!MotifTransform::Transposition { interval: 2 }.can_apply_to(&big));
    assert!(MotifTransform::Transposition { interval: 1 }.can_apply_to(&big));
    assert!(!MotifTransform::Augmentation { factor: 2 }.can_apply_to(&big));
    assert!(!MotifTransform::Diminution { divisor: 0 }.can_apply_to(&big));
    assert!(MotifTransform::Diminution { divisor: 3 }.can_apply_to(&big));
    let m = Motif::new(vec![1, 2, 3], "m");
    assert!(!MotifTransform::Fragmentation { start: 4, len: 0 }.can_apply_to(&m));
    assert!(!MotifTransform::Fragmentation { start: 1, len: usize::MAX }.can_apply_to(&m));
    assert!(MotifTransform::Fragmentation { start: 3, len: 5 }.can_apply_to(&m));
    let wide = Motif::new(vec![i32::MIN, i32::MAX], "wide");
    assert!(!wide.span_fits());
    assert!(m.span_fits());
}

#[test]
fn diminution_by_zero_of_a_single_element() {
    let m = Motif::new(vec![5], "one");
    let t = MotifTransform::Diminution { divisor: 0 };
    assert!(t.can_apply_to(&m));
    let d = t.apply(&m);
    assert_eq!(d.elements, vec![5]);
    assert_eq!(d.name, "one (Diminution)");
    assert!(!t.can_apply_to(&Motif::new(vec![5, 6], "two")));
}
