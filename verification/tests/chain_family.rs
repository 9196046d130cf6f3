use agent_motif::{
    standard_development_plan, trend_is_ascending, Direction, Motif, MotifChain, MotifFamily,
    MotifTransform,
};

#[test]
fn test_motif_chain_basic() {
    let seed = Motif::new(vec![60, 62, 64], "seed");
    let chain = MotifChain::from_seed(seed);
    assert_eq!(chain.depth(), 0);
    assert!(chain.is_identity());
}

#[test]
fn test_motif_chain_sequential() {
    let seed = Motif::new(vec![60, 62, 64], "seed");
    let chain = MotifChain::from_seed(seed)
        .then_apply(MotifTransform::Inversion)
        .then_apply(MotifTransform::Retrograde);
    assert_eq!(chain.depth(), 2);
    assert!(!chain.is_identity());
    assert_eq!(chain.intermediates.len(), 3);
}

#[test]
fn test_motif_chain_at_step() {
    let seed = Motif::new(vec![60, 62, 64], "seed");
    let chain = MotifChain::from_seed(seed).then_apply(MotifTransform::Retrograde);
    assert_eq!(chain.at_step(0).unwrap().elements, vec![60, 62, 64]);
    assert_eq!(chain.at_step(1).unwrap().elements, vec![64, 62, 60]);
}

#[test]
fn test_motif_chain_growth() {
    let seed = Motif::new(vec![60, 64], "seed");
    let chain = MotifChain::from_seed(seed).then_apply(MotifTransform::Augmentation { factor: 3 });
    let growth = chain.result.span() as f64 / chain.seed.span() as f64;
    assert!(growth > 1.0);
}

#[test]
fn test_motif_chain_complexity_growth() {
    let seed = Motif::new(vec![60, 62], "seed");
    let chain = MotifChain::from_seed(seed)
        .then_apply(MotifTransform::Sequence { shift: 5 });
    let growth = chain.result_len() as f64 / chain.seed.len() as f64;
    assert!(growth > 1.0);
}

#[test]
fn test_motif_chain_display() {
    let seed = Motif::new(vec![60, 62], "seed");
    let chain = MotifChain::from_seed(seed).then_apply(MotifTransform::Inversion);
    let s = chain.to_string();
    assert!(s.contains("Chain"));
    assert!(s.contains("Inversion"));
}

#[test]
fn test_chain_result_len() {
    let seed = Motif::new(vec![1, 2], "seed");
    let chain = MotifChain::from_seed(seed).then_apply(MotifTransform::Extension { value: 3 });
    assert_eq!(chain.result_len(), 3);
}

#[test]
fn test_standard_development() {
    let seed = Motif::new(vec![60, 62, 64, 65], "fate");
    let plan = standard_development_plan(&seed);
    // the presentation stage comes first
    assert!(plan.len() + 1 >= 5);
    let mut complexities = vec![10u32];
    complexities.extend(plan.iter().map(|p| p.complexity_percent));
    let trend: Vec<Direction> = complexities
        .windows(2)
        .map(|w| if w[1] > w[0] { Direction::Up } else if w[1] < w[0] { Direction::Down } else { Direction::Same })
        .collect();
    assert!(trend_is_ascending(&trend));
}

#[test]
fn test_motif_family_from_seed() {
    let seed = Motif::new(vec![60, 62, 64], "triad");
    let family = MotifFamily::from_seed(seed);
    assert_eq!(family.size(), 1);
}

#[test]
fn test_motif_family_generate_full() {
    let seed = Motif::new(vec![60, 62, 64], "triad");
    let family = MotifFamily::generate_full(seed);
    assert_eq!(family.size(), 8); // original + 7 transforms
}

#[test]
fn test_motif_family_contains() {
    let seed = Motif::new(vec![60, 62, 64], "triad");
    let family = MotifFamily::generate_full(seed);
    let retro = MotifTransform::Retrograde.apply(&Motif::new(vec![60, 62, 64], "triad"));
    assert!(family.contains(&retro));
}

#[test]
fn test_motif_family_by_contour() {
    let seed = Motif::new(vec![60, 62, 64], "up");
    let family = MotifFamily::generate_full(seed);
    let up_up = vec![Direction::Up, Direction::Up];
    let matches = family.by_contour(&up_up);
    assert!(!matches.is_empty());
}

#[test]
fn test_motif_family_most_similar() {
    let seed = Motif::new(vec![60, 62, 64], "triad");
    let family = MotifFamily::generate_full(seed);
    let query = Motif::new(vec![60, 62, 64], "query");
    let (idx, dist) = family.most_similar(&query);
    assert_eq!(dist, 0);
    assert_eq!(idx, 0);
}

#[test]
fn test_motif_family_average_length() {
    let seed = Motif::new(vec![60, 62, 64], "triad");
    let family = MotifFamily::generate_full(seed);
    let avg = family.total_length() as f64 / family.size() as f64;
    assert!(avg >= 3.0);
}

#[test]
fn test_motif_family_length_range() {
    let seed = Motif::new(vec![60, 62, 64], "triad");
    let family = MotifFamily::generate_full(seed);
    let (min, max) = family.length_range();
    assert!(min <= max);
    assert!(min >= 2);
}

#[test]
fn test_motif_family_display() {
    let seed = Motif::new(vec![60, 62], "pair");
    let family = MotifFamily::from_seed(seed);
    let s = family.to_string();
    assert!(s.contains("MotifFamily"));
}

#[test]
fn test_family_empty_seed() {
    let seed = Motif::new(vec![], "empty");
    let family = MotifFamily::from_seed(seed);
    assert_eq!(family.size(), 1);
}

// ---------------------------------------------------------------------------
// Further cases
// ---------------------------------------------------------------------------

#[test]
fn chain_display_exact_form() {
    let seed = Motif::new(vec![60, 62], "seed");
    let chain = MotifChain::from_seed(seed)
        .then_apply(MotifTransform::Inversion)
        .then_apply(MotifTransform::Augmentation { factor: 2 });
    assert_eq!(
        chain.to_string(),
        "Chain: seed → Inversion → Augmentation(×2) (depth: 2)"
    );
    let plain = MotifChain::from_seed(Motif::new(vec![1], "x"));
    assert_eq!(plain.to_string(), "Chain: x (depth: 0)");
}

#[test]
fn chain_keeps_every_step() {
    let seed = Motif::new(vec![60, 62, 64], "seed");
    let chain = MotifChain::from_seed(seed)
        .then_apply(MotifTransform::Transposition { interval: 2 })
        .then_apply(MotifTransform::Elision);
    assert_eq!(chain.at_step(0).unwrap().elements, vec![60, 62, 64]);
    assert_eq!(chain.at_step(1).unwrap().elements, vec![62, 64, 66]);
    assert_eq!(chain.at_step(2).unwrap().elements, vec![62, 64]);
    assert!(chain.at_step(3).is_none());
    assert_eq!(chain.result.elements, vec![62, 64]);
    assert_eq!(chain.result.name, "seed (Transposition) (Elision)");
    assert_eq!(chain.seed.name, "seed");
}

#[test]
fn family_members_and_labels() {
    let seed = Motif::new(vec![60, 64, 62], "s");
    let family = MotifFamily::generate_full(seed);
    let elements: Vec<Vec<i32>> = family.members.iter().map(|m| m.elements.clone()).collect();
    assert_eq!(
        elements,
        vec![
            vec![60, 64, 62],
            vec![60, 56, 58],
            vec![62, 64, 60],
            vec![58, 56, 60],
            vec![60, 68, 64],
            vec![60, 62, 61],
            vec![67, 71, 69],
            vec![55, 59, 57],
        ]
    );
    assert_eq!(
        family.derivations,
        vec![
            "Original",
            "Inversion",
            "Retrograde",
            "Retrograde Inversion",
            "Augmentation ×2",
            "Diminution ÷2",
            "Transposition +7",
            "Transposition -5",
        ]
    );
    assert_eq!(family.total_length(), 24);
    assert_eq!(family.length_range(), (3, 3));
}

#[test]
fn family_queries() {
    let seed = Motif::new(vec![60, 62, 64], "triad");
    let family = MotifFamily::generate_full(seed);
    let up_up = vec![Direction::Up, Direction::Up];
    let names: Vec<String> = family.by_contour(&up_up).iter().map(|m| m.name.clone()).collect();
    assert_eq!(
        names,
        vec![
            "triad",
            "triad (RetrogradeInversion)",
            "triad (Augmentation)",
            "triad (Diminution)",
            "triad (Transposition)",
            "triad (Transposition)",
        ]
    );
    assert!(!family.contains(&Motif::new(vec![1, 2, 3], "other")));
    let (idx, dist) = family.most_similar(&Motif::new(vec![64, 62], "q"));
    assert_eq!((idx, dist), (2, 1));
    let empty = MotifFamily {
        seed: Motif::new(vec![], "e"),
        members: vec![],
        derivations: vec![],
    };
    assert_eq!(empty.most_similar(&Motif::new(vec![1], "q")), (0, usize::MAX));
    assert_eq!(empty.length_range(), (0, 0));
}

#[test]
fn family_display_exact_form() {
    let seed = Motif::new(vec![60, 62], "pair");
    let family = MotifFamily::from_seed(seed);
    assert_eq!(family.to_string(), "MotifFamily: pair (1 members)\n  1. pair — Original\n");
}

#[test]
fn standard_plan_stages() {
    let seed = Motif::new(vec![60, 62, 64, 65], "fate");
    let plan = standard_development_plan(&seed);
    let names: Vec<&str> = plan.iter().map(|p| p.name.as_str()).collect();
    assert_eq!(
        names,
        vec!["Repetition", "Inversion", "Fragmentation", "Augmentation", "Combination", "Full Development"]
    );
    assert_eq!(plan[0].motif.elements, vec![60, 62, 64, 65, 62, 64, 66, 67]);
    assert_eq!(plan[2].motif.elements, vec![60, 62]);
    assert_eq!(plan[4].motif.elements, vec![65, 64, 62, 60, 70, 69, 67, 65]);
    // retrograde inversion: 55, 56, 58, 60; augmented: 55, 57, 61, 65; then sequenced by 7
    assert_eq!(plan[5].motif.elements, vec![55, 57, 61, 65, 62, 64, 68, 72]);
    let short = standard_development_plan(&Motif::new(vec![1, 2], "pair"));
    assert_eq!(short.len(), 5);
}

#[test]
fn trend_counts() {
    assert!(trend_is_ascending(&[]));
    assert!(trend_is_ascending(&[Direction::Up, Direction::Down]));
    assert!(!trend_is_ascending(&[Direction::Down, Direction::Same, Direction::Up, Direction::Down]));
}

#[test]
fn test_developmental_arc_ascending() {
    // stage complexities 0.1, 0.3, 0.6, 0.9 rise at every step
    let complexities = [0.1f64, 0.3, 0.6, 0.9];
    let trend: Vec<Direction> = complexities
        .windows(2)
        .map(|w| if w[1] > w[0] { Direction::Up } else if w[1] < w[0] { Direction::Down } else { Direction::Same })
        .collect();
    assert!(trend_is_ascending(&trend));
}

#[test]
fn family_members_keep_seed_length() {
    let seed = Motif::new(vec![4, 8, 1, 7], "s");
    let family = MotifFamily::generate_full(seed);
    assert!(family.members.iter().all(|m| m.len() == 4));
    assert_eq!(family.length_range(), (4, 4));
}

#[test]
fn then_apply_on_an_edited_chain() {
    let mut chain = MotifChain::from_seed(Motif::new(vec![1, 2], "s"));
    chain.result = Motif::new(vec![7, 9], "r");
    let chain = chain.then_apply(MotifTransform::Retrograde);
    assert_eq!(chain.result.elements, vec![9, 7]);
    assert_eq!(chain.intermediates.len(), 2);
    assert_eq!(chain.intermediates[1].elements, vec![9, 7]);
    assert_eq!(chain.intermediates[0].elements, vec![1, 2]);
}
