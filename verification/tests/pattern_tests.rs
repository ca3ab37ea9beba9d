use xalen::patterns::{detect_patterns, AspectGrid, AspectPattern, Relation};

fn angular_distance(a: f64, b: f64) -> f64 {
    let diff = (b - a).rem_euclid(360.0);
    if diff > 180.0 {
        360.0 - diff
    } else {
        diff
    }
}

/// The aspect facts of `positions` under a flat `orb`.
fn grid_for(positions: &[f64], orb: f64) -> AspectGrid {
    let n = positions.len();
    let mut g = AspectGrid::new(n);
    let targets = [
        (Relation::Sextile, 60.0),
        (Relation::Square, 90.0),
        (Relation::Trine, 120.0),
        (Relation::Quincunx, 150.0),
        (Relation::Opposition, 180.0),
    ];
    for i in 0..n {
        for j in 0..n {
            let d = angular_distance(positions[i], positions[j]);
            for (rel, target) in targets {
                g.set(rel, i, j, (d - target).abs() < orb);
            }
            g.set(Relation::StelliumArc, i, j, d < 30.0);
        }
    }
    g
}

fn patterns_of(positions: &[f64], orb: f64) -> Vec<(AspectPattern, Vec<usize>)> {
    detect_patterns(&grid_for(positions, orb))
}

#[test]
fn grand_trine_detected() {
    let patterns = patterns_of(&[10.0, 130.0, 250.0], 8.0);
    assert!(patterns.iter().any(|(p, _)| *p == AspectPattern::GrandTrine));
}

#[test]
fn t_square_detected() {
    let patterns = patterns_of(&[10.0, 190.0, 100.0], 8.0);
    assert!(patterns.iter().any(|(p, _)| *p == AspectPattern::TSquare));
}

#[test]
fn yod_detected() {
    let patterns = patterns_of(&[10.0, 70.0, 220.0], 5.0);
    assert!(
        patterns.iter().any(|(p, _)| *p == AspectPattern::Yod),
        "Yod should be detected: 10-70 (sextile 60°), 10-220 (quincunx ~150°), 70-220 (quincunx ~150°)"
    );
}

#[test]
fn stellium_detected() {
    let patterns = patterns_of(&[100.0, 105.0, 110.0, 115.0, 250.0], 8.0);
    assert!(patterns.iter().any(|(p, _)| *p == AspectPattern::Stellium));
}

#[test]
fn no_patterns_when_scattered() {
    let patterns = patterns_of(&[10.0, 80.0, 160.0, 230.0], 5.0);
    let major = patterns
        .iter()
        .filter(|(p, _)| *p != AspectPattern::Stellium)
        .count();
    assert_eq!(major, 0, "Scattered positions shouldn't form major patterns");
}

#[test]
fn grand_cross_detected() {
    let positions = [0.0, 90.0, 180.0, 270.0];
    let patterns = patterns_of(&positions, 6.0);
    let gc: Vec<_> = patterns
        .iter()
        .filter(|(p, _)| *p == AspectPattern::GrandCross)
        .collect();
    assert!(!gc.is_empty(), "Grand Cross must be detected, got {patterns:#?}");
    let mut members = gc[0].1.clone();
    members.sort();
    assert_eq!(members, vec![0, 1, 2, 3]);
    let m = &gc[0].1;
    assert!((angular_distance(positions[m[0]], positions[m[1]]) - 180.0).abs() < 6.0);
    assert!((angular_distance(positions[m[2]], positions[m[3]]) - 180.0).abs() < 6.0);
}

#[test]
fn grand_cross_with_orb() {
    let patterns = patterns_of(&[1.0, 92.0, 179.0, 271.0], 6.0);
    assert!(patterns.iter().any(|(p, _)| *p == AspectPattern::GrandCross));
}

#[test]
fn grand_cross_not_from_grand_trine() {
    let patterns = patterns_of(&[10.0, 130.0, 250.0], 8.0);
    assert!(!patterns.iter().any(|(p, _)| *p == AspectPattern::GrandCross));
}

#[test]
fn kite_detected() {
    let positions = [0.0, 120.0, 240.0, 180.0];
    let patterns = patterns_of(&positions, 6.0);
    let kites: Vec<_> = patterns
        .iter()
        .filter(|(p, _)| *p == AspectPattern::Kite)
        .collect();
    assert!(!kites.is_empty(), "Kite must be detected, got {patterns:#?}");
    let m = &kites[0].1;
    assert!(
        (angular_distance(positions[m[0]], positions[m[1]]) - 180.0).abs() < 6.0,
        "tail must oppose apex"
    );
    assert!((angular_distance(positions[m[0]], positions[m[2]]) - 60.0).abs() < 6.0);
    assert!((angular_distance(positions[m[0]], positions[m[3]]) - 60.0).abs() < 6.0);
}

#[test]
fn kite_requires_grand_trine() {
    let patterns = patterns_of(&[0.0, 30.0, 180.0, 210.0], 5.0);
    assert!(!patterns.iter().any(|(p, _)| *p == AspectPattern::Kite));
}

#[test]
fn mystic_rectangle_detected() {
    let positions = [0.0, 60.0, 180.0, 240.0];
    let patterns = patterns_of(&positions, 6.0);
    let mr: Vec<_> = patterns
        .iter()
        .filter(|(p, _)| *p == AspectPattern::MysticRectangle)
        .collect();
    assert!(!mr.is_empty(), "Mystic Rectangle must be detected, got {patterns:#?}");
    let m = &mr[0].1;
    assert!((angular_distance(positions[m[0]], positions[m[1]]) - 180.0).abs() < 6.0);
    assert!((angular_distance(positions[m[2]], positions[m[3]]) - 180.0).abs() < 6.0);
}

#[test]
fn mystic_rectangle_not_grand_cross() {
    let patterns = patterns_of(&[0.0, 60.0, 180.0, 240.0], 6.0);
    assert!(
        !patterns.iter().any(|(p, _)| *p == AspectPattern::GrandCross),
        "Mystic Rectangle should not be a Grand Cross"
    );
}

#[test]
fn grand_cross_not_mystic_rectangle() {
    let patterns = patterns_of(&[0.0, 90.0, 180.0, 270.0], 6.0);
    assert!(
        !patterns
            .iter()
            .any(|(p, _)| *p == AspectPattern::MysticRectangle),
        "Grand Cross should not be a Mystic Rectangle"
    );
}

#[test]
fn scattered_four_no_complex_patterns() {
    let patterns = patterns_of(&[5.0, 47.0, 158.0, 211.0], 5.0);
    assert!(!patterns.iter().any(|(p, _)| matches!(
        p,
        AspectPattern::GrandCross | AspectPattern::Kite | AspectPattern::MysticRectangle
    )));
}

// ---------------------------------------------------------------------------
// Further cases, with exact expected results
// ---------------------------------------------------------------------------

#[test]
fn grand_trine_exact_members() {
    let patterns = patterns_of(&[10.0, 130.0, 250.0], 8.0);
    assert_eq!(patterns, vec![(AspectPattern::GrandTrine, vec![0, 1, 2])]);
}

#[test]
fn t_square_exact_members() {
    let patterns = patterns_of(&[10.0, 190.0, 100.0], 8.0);
    assert_eq!(patterns, vec![(AspectPattern::TSquare, vec![0, 1, 2])]);
}

#[test]
fn stellium_reported_once_per_cluster() {
    let patterns = patterns_of(&[100.0, 105.0, 110.0, 115.0, 250.0], 8.0);
    let stelliums: Vec<_> = patterns
        .iter()
        .filter(|(p, _)| *p == AspectPattern::Stellium)
        .collect();
    assert_eq!(stelliums.len(), 1);
    assert_eq!(stelliums[0].1, vec![0, 1, 2, 3]);
}

#[test]
fn grand_cross_exact_axes() {
    let patterns = patterns_of(&[0.0, 90.0, 180.0, 270.0], 6.0);
    let gc: Vec<_> = patterns
        .iter()
        .filter(|(p, _)| *p == AspectPattern::GrandCross)
        .collect();
    assert_eq!(gc.len(), 1);
    assert_eq!(gc[0].1, vec![0, 2, 1, 3]);
}

#[test]
fn kite_exact_order() {
    let patterns = patterns_of(&[0.0, 120.0, 240.0, 180.0], 6.0);
    let kites: Vec<_> = patterns
        .iter()
        .filter(|(p, _)| *p == AspectPattern::Kite)
        .collect();
    assert_eq!(kites.len(), 1);
    assert_eq!(kites[0].1, vec![3, 0, 1, 2]);
}

#[test]
fn empty_grid_has_no_patterns() {
    assert!(detect_patterns(&AspectGrid::new(0)).is_empty());
    assert!(detect_patterns(&AspectGrid::new(5)).is_empty());
}

#[test]
fn grid_set_and_get() {
    let mut g = AspectGrid::new(3);
    assert_eq!(g.len(), 3);
    assert!(!g.get(Relation::Trine, 0, 1));
    g.set(Relation::Trine, 0, 1, true);
    assert!(g.get(Relation::Trine, 0, 1));
    assert!(!g.get(Relation::Trine, 1, 0));
    assert!(!g.get(Relation::Square, 0, 1));
}

fn trine_spine() -> AspectGrid {
    let mut g = AspectGrid::new(4);
    for (a, b) in [(0, 1), (1, 2), (0, 2)] {
        g.set(Relation::Trine, a, b, true);
        g.set(Relation::Trine, b, a, true);
    }
    g
}

#[test]
fn kite_tail_opposes_exactly_one_trine_member() {
    let mut g = trine_spine();
    g.set(Relation::Opposition, 3, 0, true);
    g.set(Relation::Sextile, 3, 1, true);
    g.set(Relation::Sextile, 3, 2, true);
    let kites: Vec<_> = detect_patterns(&g)
        .into_iter()
        .filter(|(p, _)| *p == AspectPattern::Kite)
        .collect();
    assert_eq!(kites, vec![(AspectPattern::Kite, vec![3, 0, 1, 2])]);
}

#[test]
fn no_kite_when_tail_opposes_two_trine_members() {
    let mut g = trine_spine();
    g.set(Relation::Opposition, 3, 0, true);
    g.set(Relation::Opposition, 3, 1, true);
    g.set(Relation::Sextile, 3, 1, true);
    g.set(Relation::Sextile, 3, 2, true);
    assert!(!detect_patterns(&g).iter().any(|(p, _)| *p == AspectPattern::Kite));
}
