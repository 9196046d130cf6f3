use agent_motif::{DetectedPattern, MotifDetector};

#[test]
fn test_detector_basic() {
    let detector = MotifDetector::new();
    // [1,2] appears twice
    let seq = vec![1, 2, 3, 1, 2, 4];
    let patterns = detector.detect(&seq);
    assert!(!patterns.is_empty());
    assert!(patterns.iter().any(|p| p.pattern == vec![1, 2] && p.occurrences >= 2));
}

#[test]
fn test_detector_most_frequent() {
    let detector = MotifDetector::new();
    let seq = vec![1, 1, 1, 1, 1];
    let best = detector.detect_most_frequent(&seq);
    assert!(best.is_some());
    assert!(best.unwrap().occurrences >= 2);
}

#[test]
fn test_detector_custom_params() {
    let detector = MotifDetector::with_params(3, 4, 2);
    let seq = vec![1, 2, 3, 4, 1, 2, 3, 4];
    let patterns = detector.detect(&seq);
    assert!(patterns.iter().any(|p| p.pattern.len() >= 3));
}

#[test]
fn test_detector_no_patterns() {
    let detector = MotifDetector::with_params(2, 4, 5); // very high threshold
    let seq = vec![1, 2, 3, 4, 5];
    let patterns = detector.detect(&seq);
    assert!(patterns.is_empty());
}

#[test]
fn test_detector_positions() {
    let detector = MotifDetector::with_params(2, 2, 2);
    let seq = vec![5, 5, 1, 5, 5];
    let patterns = detector.detect(&seq);
    let pair = patterns.iter().find(|p| p.pattern == vec![5, 5]);
    assert!(pair.is_some());
    let pair = pair.unwrap();
    assert!(pair.positions.contains(&0));
    assert!(pair.positions.contains(&3));
}

#[test]
fn test_detector_by_contour() {
    let detector = MotifDetector::new();
    // Up-down pattern appears twice
    let seq = vec![1, 3, 2, 5, 3, 10, 4];
    let patterns = detector.detect_by_contour(&seq);
    assert!(!patterns.is_empty());
}

#[test]
fn test_detected_pattern_display() {
    let p = DetectedPattern {
        pattern: vec![1, 2],
        occurrences: 3,
        positions: vec![0, 3, 6],
    };
    let s = p.to_string();
    assert!(s.contains("Pattern"));
    assert!(s.contains("3 occurrences"));
}

// ---------------------------------------------------------------------------
// Further cases
// ---------------------------------------------------------------------------

fn summary(ps: &[DetectedPattern]) -> Vec<(Vec<i32>, usize, Vec<usize>)> {
    ps.iter().map(|p| (p.pattern.clone(), p.occurrences, p.positions.clone())).collect()
}

#[test]
fn detect_exact_result_and_order() {
    let detector = MotifDetector::new();
    let seq = vec![1, 2, 1, 2, 3, 1, 2, 1, 2, 3, 4];
    let patterns = detector.detect(&seq);
    let s = summary(&patterns);
    // most frequent first; among equal counts shorter first, then by first appearance
    assert_eq!(s[0], (vec![1, 2], 4, vec![0, 2, 5, 7]));
    assert_eq!(s[1], (vec![2, 1], 2, vec![1, 6]));
    assert_eq!(s[2], (vec![2, 3], 2, vec![3, 8]));
    for w in patterns.windows(2) {
        assert!(w[0].occurrences >= w[1].occurrences);
    }
    for p in &patterns {
        assert_eq!(p.occurrences, p.positions.len());
        assert!(p.occurrences >= 2);
        assert!(p.pattern.len() >= 2 && p.pattern.len() <= 8);
    }
    for i in 0..patterns.len() {
        for j in i + 1..patterns.len() {
            assert_ne!(patterns[i].pattern, patterns[j].pattern);
        }
    }
    assert_eq!(patterns.len(), 9);
}

#[test]
fn detect_overlapping_occurrences() {
    let detector = MotifDetector::with_params(2, 3, 2);
    let patterns = detector.detect(&[7, 7, 7, 7]);
    assert_eq!(
        summary(&patterns),
        vec![(vec![7, 7], 3, vec![0, 1, 2]), (vec![7, 7, 7], 2, vec![0, 1])]
    );
}

#[test]
fn detect_degenerate_parameters() {
    let none = MotifDetector::with_params(5, 2, 1).detect(&[1, 2, 3, 4, 5, 6]);
    assert!(none.is_empty());
    let short = MotifDetector::new().detect(&[]);
    assert!(short.is_empty());
    let empty_windows = MotifDetector::with_params(0, 0, 1).detect(&[4, 4]);
    assert_eq!(summary(&empty_windows), vec![(vec![], 3, vec![0, 1, 2])]);
    let singles = MotifDetector::with_params(1, 1, 1).detect(&[3, 1, 3]);
    assert_eq!(
        summary(&singles),
        vec![(vec![3], 2, vec![0, 2]), (vec![1], 1, vec![1])]
    );
}

#[test]
fn detect_most_frequent_is_first() {
    let detector = MotifDetector::with_params(2, 2, 2);
    let best = detector.detect_most_frequent(&[1, 2, 9, 3, 4, 3, 4, 1, 2, 3, 4]).unwrap();
    assert_eq!(best.pattern, vec![3, 4]);
    assert_eq!(best.positions, vec![3, 5, 9]);
    assert!(detector.detect_most_frequent(&[1, 2, 3]).is_none());
}

#[test]
fn detect_by_contour_codes_steps() {
    let detector = MotifDetector::new();
    let seq = vec![1, 3, 2, 5, 3, 10, 4];
    let patterns = detector.detect_by_contour(&seq);
    // steps: up, down, up, down, up, down
    let direct = detector.detect(&[1, -1, 1, -1, 1, -1]);
    assert_eq!(patterns, direct);
    assert_eq!(patterns[0].pattern, vec![1, -1]);
    assert_eq!(patterns[0].positions, vec![0, 2, 4]);
    let flat = MotifDetector::with_params(1, 2, 2).detect_by_contour(&[4, 4, 4]);
    assert_eq!(summary(&flat), vec![(vec![0], 2, vec![0, 1])]);
}

#[test]
fn detected_pattern_display_exact_form() {
    let p = DetectedPattern {
        pattern: vec![1, -2],
        occurrences: 3,
        positions: vec![0, 3, 6],
    };
    assert_eq!(p.to_string(), "Pattern [1, -2] (3 occurrences at [0, 3, 6])");
}

#[test]
fn detector_defaults() {
    let d = MotifDetector::default();
    assert_eq!((d.min_length, d.max_length, d.min_occurrences), (2, 8, 2));
    let n = MotifDetector::new();
    assert_eq!((n.min_length, n.max_length, n.min_occurrences), (2, 8, 2));
}
