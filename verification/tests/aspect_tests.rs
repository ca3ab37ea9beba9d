use xalen::aspects::{
    aspect_type_from_name, aspect_type_name, expected_sign_separations, is_out_of_sign_by_signs,
    sign_separation, AspectDirection, AspectType,
};

#[test]
fn test_aspect_type_from_name_roundtrip() {
    for t in AspectType::all_14() {
        let name = aspect_type_name(t);
        let parsed = aspect_type_from_name(name).unwrap();
        assert_eq!(parsed, t);
    }
}

#[test]
fn test_aspect_type_from_name_rejects_unknown() {
    assert!(aspect_type_from_name("bogus").is_none());
}

#[test]
fn kepler_aspects_classified_correctly() {
    assert!(AspectType::Septile.is_kepler());
    assert!(AspectType::Novile.is_kepler());
    assert!(AspectType::Decile.is_kepler());
    assert!(!AspectType::Trine.is_kepler());
    assert_eq!(AspectType::kepler().len(), 3);
}

// ---------------------------------------------------------------------------
// Further cases
// ---------------------------------------------------------------------------

#[test]
fn names_parse_loosely() {
    assert_eq!(aspect_type_from_name("Semi-Sextile"), Some(AspectType::SemiSextile));
    assert_eq!(aspect_type_from_name("semi_square"), Some(AspectType::SemiSquare));
    assert_eq!(aspect_type_from_name("BIQUINTILE"), Some(AspectType::BiQuintile));
    assert_eq!(aspect_type_from_name("bi-quintile"), Some(AspectType::BiQuintile));
    assert_eq!(aspect_type_from_name(""), None);
    assert_eq!(aspect_type_name(AspectType::SemiSextile), "semi_sextile");
}

#[test]
fn aspect_catalogues() {
    assert_eq!(
        AspectType::major(),
        vec![
            AspectType::Conjunction,
            AspectType::Sextile,
            AspectType::Square,
            AspectType::Trine,
            AspectType::Opposition
        ]
    );
    assert_eq!(AspectType::all().len(), 11);
    let all14 = AspectType::all_14();
    assert_eq!(all14.len(), 14);
    assert_eq!(&all14[..11], &AspectType::all()[..]);
    assert_eq!(&all14[11..], &AspectType::kepler()[..]);
    assert!(AspectType::major().iter().all(|t| t.is_major()));
    assert_eq!(all14.iter().filter(|t| t.is_major()).count(), 5);
    let _ = AspectDirection::Exact;
}

#[test]
fn sign_separation_is_forward_and_wraps() {
    assert_eq!(sign_separation(0, 4), 4);
    assert_eq!(sign_separation(4, 0), 8);
    assert_eq!(sign_separation(11, 0), 1);
    assert_eq!(sign_separation(5, 5), 0);
    assert_eq!(sign_separation(13, 2), 1);
}

#[test]
fn out_of_sign_by_signs() {
    // Aries (15°) to Leo (135°): a trine between fire signs.
    assert!(!is_out_of_sign_by_signs(0, 4, AspectType::Trine));
    // Aries (28°) to Virgo (152°): trine by degree, not by sign.
    assert!(is_out_of_sign_by_signs(0, 5, AspectType::Trine));
    // Both in Capricorn (275°, 280°).
    assert!(!is_out_of_sign_by_signs(9, 9, AspectType::Conjunction));
    // Pisces (359°) to Aries (1°).
    assert!(is_out_of_sign_by_signs(11, 0, AspectType::Conjunction));
    // Read either way round.
    assert_eq!(
        is_out_of_sign_by_signs(3, 8, AspectType::Quincunx),
        is_out_of_sign_by_signs(8, 3, AspectType::Quincunx)
    );
}

#[test]
fn expected_separations_table() {
    assert_eq!(expected_sign_separations(AspectType::Conjunction), vec![0]);
    assert_eq!(expected_sign_separations(AspectType::Trine), vec![4, 8]);
    assert_eq!(expected_sign_separations(AspectType::Quincunx), vec![5, 7]);
    assert_eq!(expected_sign_separations(AspectType::Decile), vec![1, 2, 10, 11]);
}
