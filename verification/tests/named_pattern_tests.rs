use xalen::aspects::AspectType;
use xalen::named_patterns::{
    detect_grand_cross_named, detect_grand_trine_named, detect_kite_named,
    detect_mystic_rectangle_named, detect_stellium_named, detect_t_square_named,
    detect_yod_named, find_named_patterns, sorted_bodies, AspectLink, AspectPatternMatch,
};
use xalen::patterns::AspectPatternType;

fn angle(t: AspectType) -> f64 {
    match t {
        AspectType::Conjunction => 0.0,
        AspectType::Opposition => 180.0,
        AspectType::Trine => 120.0,
        AspectType::Square => 90.0,
        AspectType::Sextile => 60.0,
        AspectType::SemiSextile => 30.0,
        AspectType::Quincunx => 150.0,
        AspectType::SemiSquare => 45.0,
        AspectType::Sesquiquadrate => 135.0,
        AspectType::Quintile => 72.0,
        AspectType::BiQuintile => 144.0,
        AspectType::Septile => 360.0 / 7.0,
        AspectType::Novile => 40.0,
        AspectType::Decile => 36.0,
    }
}

fn default_orb(t: AspectType) -> f64 {
    match t {
        AspectType::Conjunction | AspectType::Opposition => 8.0,
        AspectType::Trine | AspectType::Square => 7.0,
        AspectType::Sextile => 5.0,
        AspectType::SemiSextile | AspectType::Quincunx => 2.0,
        AspectType::SemiSquare | AspectType::Sesquiquadrate => 2.0,
        AspectType::Quintile | AspectType::BiQuintile => 1.5,
        AspectType::Septile | AspectType::Novile | AspectType::Decile => 1.0,
    }
}

fn angular_distance(a: f64, b: f64) -> f64 {
    let diff = (b - a).rem_euclid(360.0);
    if diff > 180.0 {
        360.0 - diff
    } else {
        diff
    }
}

/// Aspects among named bodies under all fourteen aspect types and their
/// default orbs (the closest type within orb for each pair, strongest first),
/// as links between bodies numbered in name order; with the names.
fn aspects_for(bodies: &[(&str, f64)]) -> (Vec<AspectLink>, Vec<String>) {
    let mut found: Vec<(AspectType, String, String, f64)> = Vec::new();
    for i in 0..bodies.len() {
        for j in (i + 1)..bodies.len() {
            let sep = angular_distance(bodies[i].1, bodies[j].1);
            let mut best: Option<(AspectType, f64, f64)> = None;
            for t in AspectType::all_14() {
                let orb = default_orb(t);
                let dev = (sep - angle(t)).abs();
                if dev <= orb && best.map_or(true, |(_, d, _)| dev < d) {
                    best = Some((t, dev, orb));
                }
            }
            if let Some((t, dev, orb)) = best {
                let strength = if dev >= orb { 0.0 } else { 100.0 * (1.0 - dev / orb) };
                found.push((t, bodies[i].0.to_string(), bodies[j].0.to_string(), strength));
            }
        }
    }
    found.sort_by(|a, b| {
        b.3.partial_cmp(&a.3)
            .unwrap_or(std::cmp::Ordering::Equal)
            .then_with(|| a.1.cmp(&b.1))
            .then_with(|| a.2.cmp(&b.2))
    });
    let mut names: Vec<String> = bodies.iter().map(|(n, _)| n.to_string()).collect();
    names.sort();
    names.dedup();
    let rank = |n: &str| names.iter().position(|m| m == n).unwrap() as u64;
    let links = found
        .iter()
        .map(|(t, a, b, _)| AspectLink { aspect_type: *t, body1: rank(a), body2: rank(b) })
        .collect();
    (links, names)
}

fn body_names(m: &AspectPatternMatch, names: &[String]) -> Vec<String> {
    m.bodies.iter().map(|b| names[*b as usize].clone()).collect()
}

fn types_of(m: &AspectPatternMatch, links: &[AspectLink]) -> Vec<AspectType> {
    m.aspects.iter().map(|i| links[*i].aspect_type).collect()
}

#[test]
fn named_t_square_positive() {
    let (aspects, names) = aspects_for(&[("A", 0.0), ("B", 180.0), ("C", 90.0)]);
    let patterns = detect_t_square_named(&aspects);
    assert_eq!(patterns.len(), 1);
    assert_eq!(patterns[0].pattern_type, AspectPatternType::TSquare);
    let mut bodies = body_names(&patterns[0], &names);
    bodies.sort();
    assert_eq!(bodies, vec!["A", "B", "C"]);
}

#[test]
fn named_t_square_negative_without_opposition() {
    let (aspects, _) = aspects_for(&[("A", 0.0), ("C", 90.0)]);
    assert!(detect_t_square_named(&aspects).is_empty());
}

#[test]
fn named_grand_trine_positive() {
    let (aspects, _) = aspects_for(&[("A", 0.0), ("B", 120.0), ("C", 240.0)]);
    let patterns = detect_grand_trine_named(&aspects);
    assert_eq!(patterns.len(), 1);
    assert!(types_of(&patterns[0], &aspects)
        .iter()
        .all(|t| *t == AspectType::Trine));
}

#[test]
fn named_grand_trine_negative_only_two_trines() {
    let (aspects, _) = aspects_for(&[("A", 0.0), ("B", 120.0), ("C", 250.0)]);
    assert!(detect_grand_trine_named(&aspects).is_empty());
}

#[test]
fn named_grand_cross_positive() {
    let (aspects, _) = aspects_for(&[("A", 0.0), ("B", 90.0), ("C", 180.0), ("D", 270.0)]);
    let patterns = detect_grand_cross_named(&aspects);
    assert_eq!(patterns.len(), 1);
    let types = types_of(&patterns[0], &aspects);
    let squares = types.iter().filter(|t| **t == AspectType::Square).count();
    let oppositions = types.iter().filter(|t| **t == AspectType::Opposition).count();
    assert_eq!((squares, oppositions), (4, 2));
}

#[test]
fn named_grand_cross_negative_missing_one_square() {
    let (aspects, _) = aspects_for(&[("A", 0.0), ("B", 90.0), ("C", 180.0), ("D", 250.0)]);
    assert!(detect_grand_cross_named(&aspects).is_empty());
}

#[test]
fn named_yod_positive() {
    let (aspects, _) = aspects_for(&[("A", 0.0), ("B", 60.0), ("C", 210.0)]);
    let patterns = detect_yod_named(&aspects);
    assert_eq!(patterns.len(), 1);
    let quincunxes = types_of(&patterns[0], &aspects)
        .iter()
        .filter(|t| **t == AspectType::Quincunx)
        .count();
    assert_eq!(quincunxes, 2);
}

#[test]
fn named_yod_near_miss() {
    let (aspects, _) = aspects_for(&[("A", 0.0), ("B", 60.0), ("C", 215.0)]);
    assert!(detect_yod_named(&aspects).is_empty());
}

#[test]
fn named_kite_positive() {
    let (aspects, _) = aspects_for(&[("A", 0.0), ("B", 120.0), ("C", 240.0), ("D", 180.0)]);
    let patterns = detect_kite_named(&aspects);
    assert_eq!(patterns.len(), 1);
    assert_eq!(patterns[0].bodies.len(), 4);
}

#[test]
fn named_kite_near_miss_no_opposition() {
    let (aspects, _) = aspects_for(&[("A", 0.0), ("B", 120.0), ("C", 240.0), ("D", 150.0)]);
    assert!(detect_kite_named(&aspects).is_empty());
}

#[test]
fn named_mystic_rectangle_positive() {
    let (aspects, _) = aspects_for(&[("A", 0.0), ("B", 60.0), ("C", 180.0), ("D", 240.0)]);
    let patterns = detect_mystic_rectangle_named(&aspects);
    assert_eq!(patterns.len(), 1);
    let types = types_of(&patterns[0], &aspects);
    let opps = types.iter().filter(|t| **t == AspectType::Opposition).count();
    let trines = types.iter().filter(|t| **t == AspectType::Trine).count();
    let sextiles = types.iter().filter(|t| **t == AspectType::Sextile).count();
    assert_eq!((opps, trines, sextiles), (2, 2, 2));
}

#[test]
fn named_mystic_rectangle_negative_missing_sextile() {
    let (aspects, _) = aspects_for(&[("A", 0.0), ("B", 60.0), ("C", 180.0), ("D", 220.0)]);
    assert!(detect_mystic_rectangle_named(&aspects).is_empty());
}

#[test]
fn named_stellium_positive_four_bodies() {
    let (aspects, _) = aspects_for(&[("A", 0.0), ("B", 5.0), ("C", 8.0), ("D", 3.0)]);
    let patterns = detect_stellium_named(&aspects);
    assert_eq!(patterns.len(), 1);
    assert_eq!(patterns[0].bodies.len(), 4);
}

#[test]
fn named_stellium_negative_only_two_bodies() {
    let (aspects, _) = aspects_for(&[("A", 0.0), ("B", 5.0)]);
    assert!(detect_stellium_named(&aspects).is_empty());
}

#[test]
fn named_stellium_minimum_three_bodies() {
    let (aspects, _) = aspects_for(&[("A", 0.0), ("B", 5.0), ("C", 8.0)]);
    let patterns = detect_stellium_named(&aspects);
    assert_eq!(patterns.len(), 1);
    assert_eq!(patterns[0].bodies.len(), 3);
}

#[test]
fn named_find_patterns_empty_for_no_pattern() {
    let (aspects, _) = aspects_for(&[("A", 0.0), ("B", 5.0)]);
    assert!(find_named_patterns(&aspects).is_empty());
}

#[test]
fn named_find_patterns_detects_grand_trine_in_isolation() {
    let (aspects, _) = aspects_for(&[("A", 0.0), ("B", 120.0), ("C", 240.0)]);
    let patterns = find_named_patterns(&aspects);
    assert!(patterns
        .iter()
        .any(|p| p.pattern_type == AspectPatternType::GrandTrine));
}

#[test]
fn named_grand_trine_across_0_360_boundary() {
    let (aspects, _) = aspects_for(&[("A", 350.0), ("B", 110.0), ("C", 230.0)]);
    let patterns = detect_grand_trine_named(&aspects);
    assert_eq!(
        patterns.len(),
        1,
        "Grand Trine must be detected even when a vertex is near 0/360"
    );
}

#[test]
fn named_no_duplicate_patterns_for_same_body_set() {
    let (aspects, _) = aspects_for(&[("A", 0.0), ("B", 120.0), ("C", 240.0)]);
    assert_eq!(detect_grand_trine_named(&aspects).len(), 1);
}

#[test]
fn named_j2000_real_data_does_not_panic() {
    let bodies: &[(&str, f64)] = &[
        ("Sun", 280.3689092),
        ("Moon", 223.323786),
        ("Mercury", 271.8892699),
        ("Venus", 241.5657794),
        ("Mars", 327.9632921),
        ("Jupiter", 25.2530685),
        ("Saturn", 40.3956366),
        ("Uranus", 314.809168),
        ("Neptune", 303.1930003),
        ("Pluto", 251.4547644),
    ];
    let (aspects, _) = aspects_for(bodies);
    let _patterns = find_named_patterns(&aspects);
}

// ---------------------------------------------------------------------------
// Further cases, on hand-written links
// ---------------------------------------------------------------------------

fn link(t: AspectType, a: u64, b: u64) -> AspectLink {
    AspectLink { aspect_type: t, body1: a, body2: b }
}

#[test]
fn t_square_reports_bodies_and_aspect_positions() {
    let links = vec![
        link(AspectType::Square, 0, 2),
        link(AspectType::Opposition, 0, 1),
        link(AspectType::Square, 2, 1),
    ];
    let patterns = detect_t_square_named(&links);
    assert_eq!(patterns.len(), 1);
    assert_eq!(patterns[0].bodies, vec![0, 1, 2]);
    assert_eq!(patterns[0].aspects, vec![1, 0, 2]);
}

#[test]
fn same_t_square_twice_is_reported_once() {
    // Two oppositions over the same pair give the same three bodies.
    let links = vec![
        link(AspectType::Opposition, 0, 1),
        link(AspectType::Opposition, 1, 0),
        link(AspectType::Square, 0, 2),
        link(AspectType::Square, 1, 2),
    ];
    let patterns = detect_t_square_named(&links);
    assert_eq!(patterns.len(), 1);
    assert_eq!(patterns[0].bodies, vec![0, 1, 2]);
}

#[test]
fn yod_needs_two_quincunxes() {
    let links = vec![link(AspectType::Sextile, 0, 1), link(AspectType::Quincunx, 0, 2)];
    assert!(detect_yod_named(&links).is_empty());
}

#[test]
fn grand_trine_uses_first_trine_between_each_pair() {
    let links = vec![
        link(AspectType::Trine, 0, 1),
        link(AspectType::Trine, 1, 2),
        link(AspectType::Trine, 2, 0),
        link(AspectType::Trine, 1, 0),
    ];
    let patterns = detect_grand_trine_named(&links);
    assert_eq!(patterns.len(), 1);
    assert_eq!(patterns[0].bodies, vec![0, 1, 2]);
    assert_eq!(patterns[0].aspects, vec![0, 1, 2]);
}

#[test]
fn kite_lists_trine_then_tail() {
    let links = vec![
        link(AspectType::Trine, 0, 1),
        link(AspectType::Trine, 1, 2),
        link(AspectType::Trine, 0, 2),
        link(AspectType::Opposition, 0, 3),
        link(AspectType::Sextile, 3, 1),
        link(AspectType::Sextile, 2, 3),
    ];
    let patterns = detect_kite_named(&links);
    assert_eq!(patterns.len(), 1);
    assert_eq!(patterns[0].bodies, vec![0, 1, 2, 3]);
    assert_eq!(patterns[0].aspects, vec![0, 1, 2, 3, 4, 5]);
}

#[test]
fn grand_cross_and_mystic_rectangle_exact() {
    let cross = vec![
        link(AspectType::Opposition, 0, 2),
        link(AspectType::Opposition, 1, 3),
        link(AspectType::Square, 0, 1),
        link(AspectType::Square, 0, 3),
        link(AspectType::Square, 2, 1),
        link(AspectType::Square, 2, 3),
    ];
    let gc = detect_grand_cross_named(&cross);
    assert_eq!(gc.len(), 1);
    assert_eq!(gc[0].bodies, vec![0, 2, 1, 3]);
    assert_eq!(gc[0].aspects, vec![0, 1, 2, 3, 4, 5]);
    assert!(detect_mystic_rectangle_named(&cross).is_empty());

    let rect = vec![
        link(AspectType::Opposition, 0, 2),
        link(AspectType::Opposition, 1, 3),
        link(AspectType::Sextile, 0, 1),
        link(AspectType::Trine, 0, 3),
        link(AspectType::Trine, 2, 1),
        link(AspectType::Sextile, 2, 3),
    ];
    let mr = detect_mystic_rectangle_named(&rect);
    assert_eq!(mr.len(), 1);
    assert_eq!(mr[0].bodies, vec![0, 2, 1, 3]);
    // crossed arrangement: trines 0-3 and 2-1, sextiles 0-1 and 2-3.
    assert_eq!(mr[0].aspects, vec![0, 1, 3, 4, 2, 5]);
    assert!(detect_grand_cross_named(&rect).is_empty());
}

#[test]
fn stellium_walks_breadth_first_from_least_body() {
    // Chain 5-3-9-1 plus the separate group 7-8-2.
    let links = vec![
        link(AspectType::Conjunction, 5, 3),
        link(AspectType::Conjunction, 9, 3),
        link(AspectType::Conjunction, 1, 9),
        link(AspectType::Conjunction, 7, 8),
        link(AspectType::Conjunction, 2, 8),
        link(AspectType::Trine, 4, 6),
    ];
    let patterns = detect_stellium_named(&links);
    assert_eq!(patterns.len(), 2);
    assert_eq!(patterns[0].bodies, vec![1, 9, 3, 5]);
    assert_eq!(patterns[0].aspects, vec![0, 1, 2]);
    assert_eq!(patterns[1].bodies, vec![2, 8, 7]);
    assert_eq!(patterns[1].aspects, vec![3, 4]);
}

#[test]
fn find_named_patterns_keeps_rarity_order() {
    let (aspects, _) = aspects_for(&[("A", 0.0), ("B", 120.0), ("C", 240.0), ("D", 180.0)]);
    let patterns = find_named_patterns(&aspects);
    let kinds: Vec<AspectPatternType> = patterns.iter().map(|p| p.pattern_type).collect();
    let kite = kinds.iter().position(|k| *k == AspectPatternType::Kite).unwrap();
    let trine = kinds.iter().position(|k| *k == AspectPatternType::GrandTrine).unwrap();
    assert!(kite < trine);
}

#[test]
fn sorted_bodies_ascending() {
    assert_eq!(sorted_bodies(&[3, 1, 2, 1]), vec![1, 1, 2, 3]);
    assert_eq!(sorted_bodies(&[]), Vec::<u64>::new());
}
