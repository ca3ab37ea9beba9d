use xalen::dosha::{
    combustion_orb_deg, detect_kaal_sarpa, detect_mangal_dosha, detect_pitra_dosha,
    resolve_ninth_lord_house, traditional_sign_lord, CombustionStatus, DoshaSeverity, Planet,
};

#[test]
fn mangal_dosha_from_7th() {
    // 4th positional arg is Mars' nakshatra index; 0 = Ashwini (no cancel).
    let d = detect_mangal_dosha(7, 3, 5, 0, false, false, false);
    assert!(d.present);
    assert_eq!(d.severity, DoshaSeverity::Moderate);
}

#[test]
fn no_mangal_dosha() {
    let d = detect_mangal_dosha(5, 5, 5, 0, false, false, false);
    assert!(!d.present);
}

#[test]
fn mangal_dosha_cancelled_by_own_sign() {
    let d = detect_mangal_dosha(7, 3, 5, 0, false, true, false);
    assert!(d.present);
    assert_eq!(d.severity, DoshaSeverity::Mild);
    assert!(!d.cancellations.is_empty());
}

#[test]
fn severe_mangal_dosha() {
    // Nakshatra index 3 = Rohini, not a cancelling nakshatra: stays Severe.
    let d = detect_mangal_dosha(7, 8, 12, 3, false, false, false);
    assert!(d.present);
    assert_eq!(d.severity, DoshaSeverity::Severe);
}

#[test]
fn mangal_cancellation_uses_exact_nakshatra_not_rashi() {
    const NAK_SPAN: f64 = 360.0 / 27.0;

    let krittika_idx = (35.0_f64 / NAK_SPAN) as usize;
    assert_eq!(krittika_idx, 2, "35° must resolve to Krittika (idx 2)");
    let d_no_cancel = detect_mangal_dosha(7, 3, 5, krittika_idx, false, false, false);
    assert!(d_no_cancel.present);
    assert!(
        d_no_cancel
            .cancellations
            .iter()
            .all(|c| !c.contains("nakshatra")),
        "Krittika must NOT trigger a nakshatra cancellation"
    );

    let mrigashira_idx = (65.0_f64 / NAK_SPAN) as usize;
    assert_eq!(mrigashira_idx, 4, "65° must resolve to Mrigashira (idx 4)");
    let d_cancel = detect_mangal_dosha(7, 3, 5, mrigashira_idx, false, false, false);
    assert!(d_cancel.present);
    assert_eq!(d_cancel.severity, DoshaSeverity::Mild);
    assert!(
        d_cancel
            .cancellations
            .iter()
            .any(|c| c.contains("Mrigashira")),
        "Mrigashira must trigger the nakshatra cancellation"
    );

    // A rashi index passed by mistake is read as a nakshatra index: rashi 4
    // collides with nakshatra 4 (Mrigashira).
    let d_rashi_misuse = detect_mangal_dosha(7, 3, 5, 4, false, false, false);
    assert!(
        d_rashi_misuse
            .cancellations
            .iter()
            .any(|c| c.contains("Mrigashira")),
        "rashi index 4 is (wrongly) read as Mrigashira — confirms the param is a NAKSHATRA index"
    );
}

#[test]
fn kaal_sarpa_present() {
    // Rahu in 1, Ketu in 7, all planets in houses 1-7
    let d = detect_kaal_sarpa(1, 7, &[2, 3, 4, 5, 6, 3, 4]);
    assert!(d.present);
    assert_eq!(d.name, "Kaal Sarpa Dosha");
}

#[test]
fn kaal_sarpa_absent() {
    // Rahu in 1, Ketu in 7, one planet in house 10 (outside the axis)
    let d = detect_kaal_sarpa(1, 7, &[2, 3, 10, 5, 6, 3, 4]);
    assert!(!d.present);
}

#[test]
fn pitra_dosha_rahu_in_9th() {
    let d = detect_pitra_dosha(1, 4, 9, 5, false);
    assert!(d.present);
}

#[test]
fn traditional_sign_lord_exhaustive_table() {
    let expected = [
        (0, Planet::Mars),
        (1, Planet::Venus),
        (2, Planet::Mercury),
        (3, Planet::Moon),
        (4, Planet::Sun),
        (5, Planet::Mercury),
        (6, Planet::Venus),
        (7, Planet::Mars),
        (8, Planet::Jupiter),
        (9, Planet::Saturn),
        (10, Planet::Saturn),
        (11, Planet::Jupiter),
    ];
    for (sign, planet) in expected {
        assert_eq!(
            traditional_sign_lord(sign),
            planet,
            "sign {sign} must be ruled by {planet:?}"
        );
    }
}

/// (Sun, Moon, Mars, Mercury, Jupiter, Venus, Saturn) sign indices.
fn planet_signs(signs: [usize; 7]) -> Vec<(Planet, usize)> {
    let planets = [
        Planet::Sun,
        Planet::Moon,
        Planet::Mars,
        Planet::Mercury,
        Planet::Jupiter,
        Planet::Venus,
        Planet::Saturn,
    ];
    planets.into_iter().zip(signs).collect()
}

#[test]
fn ninth_lord_house_resolves_correctly_for_aries_ascendant() {
    // Asc = Aries (0) -> 9th sign = Sagittarius (8) -> ruler Jupiter, in Cancer (3).
    let signs = planet_signs([0, 0, 0, 0, 3, 0, 0]);
    let house = resolve_ninth_lord_house(0, &signs).unwrap();
    assert_eq!(house, 4);
}

#[test]
fn ninth_lord_house_resolves_correctly_for_virgo_ascendant() {
    // Asc = Virgo (5) -> 9th sign = Taurus (1) -> ruler Venus, in Gemini (2).
    let signs = planet_signs([0, 0, 0, 0, 0, 2, 0]);
    let house = resolve_ninth_lord_house(5, &signs).unwrap();
    assert_eq!(house, 10);
}

#[test]
fn ninth_lord_house_differs_across_ascendants() {
    let signs = planet_signs([1, 4, 7, 2, 9, 6, 11]);
    let house_aries = resolve_ninth_lord_house(0, &signs).unwrap();
    let house_cancer = resolve_ninth_lord_house(3, &signs).unwrap();
    let house_libra = resolve_ninth_lord_house(6, &signs).unwrap();
    assert_ne!(house_aries, house_libra);
    assert_ne!(house_cancer, house_libra);
}

#[test]
fn regression_saturn_is_not_implicitly_the_ninth_lord() {
    // Asc = Cancer (3) -> 9th sign = Pisces (11) -> real ruler is Jupiter.
    let signs_saturn_dusthana = planet_signs([0, 0, 0, 0, 3, 0, 8]);
    let saturn_house = (8 + 12 - 3) % 12 + 1;
    assert_eq!(saturn_house, 6, "sanity: Saturn's own house is a dusthana");

    let real_ninth_lord_house = resolve_ninth_lord_house(3, &signs_saturn_dusthana).unwrap();
    assert_eq!(
        real_ninth_lord_house, 1,
        "real 9th lord (Jupiter) house must be 1, not Saturn's house (6)"
    );
    assert_ne!(
        real_ninth_lord_house, saturn_house,
        "the real 9th-lord house must differ from Saturn's own house in this chart"
    );

    let d_old_placeholder = detect_pitra_dosha(1, saturn_house, 2, saturn_house, false);
    assert!(
        d_old_placeholder.present,
        "old Saturn-substitution placeholder would wrongly flag Pitra Dosha here"
    );

    let d_real = detect_pitra_dosha(1, saturn_house, 2, real_ninth_lord_house, false);
    assert!(
        !d_real.present,
        "real 9th-lord resolution must NOT flag Pitra Dosha in this chart"
    );
}

#[test]
fn pitra_dosha_positive_ninth_lord_in_dusthana() {
    let d = detect_pitra_dosha(1, 2, 3, 8, false);
    assert!(d.present);
    assert!(
        d.cancellations.iter().any(|c| c.contains("dusthana")),
        "trigger reason must cite the dusthana placement"
    );
}

#[test]
fn pitra_dosha_negative_no_affliction() {
    let d = detect_pitra_dosha(2, 3, 4, 5, false);
    assert!(!d.present);
    assert_eq!(d.severity, DoshaSeverity::Absent);
}

#[test]
fn pitra_dosha_deterministic_repeatability() {
    let d1 = detect_pitra_dosha(1, 4, 9, 6, true);
    let d2 = detect_pitra_dosha(1, 4, 9, 6, true);
    assert_eq!(d1.present, d2.present);
    assert_eq!(d1.severity, d2.severity);
    assert_eq!(d1.cancellations, d2.cancellations);
}

#[test]
fn no_pitra_dosha() {
    let d = detect_pitra_dosha(1, 4, 3, 5, false);
    assert!(!d.present);
}

// ---------------------------------------------------------------------------
// Further cases
// ---------------------------------------------------------------------------

#[test]
fn mangal_severity_follows_reference_point_count() {
    assert_eq!(detect_mangal_dosha(1, 3, 3, 0, false, false, false).severity, DoshaSeverity::Moderate);
    assert_eq!(detect_mangal_dosha(1, 2, 3, 0, false, false, false).severity, DoshaSeverity::Moderate);
    assert_eq!(detect_mangal_dosha(1, 2, 4, 0, false, false, false).severity, DoshaSeverity::Severe);
    let none = detect_mangal_dosha(3, 5, 6, 0, true, true, true);
    assert!(!none.present);
    assert_eq!(none.severity, DoshaSeverity::Absent);
    assert!(none.cancellations.is_empty());
}

#[test]
fn mangal_every_cancellation_is_listed() {
    let d = detect_mangal_dosha(8, 3, 3, 22, true, true, true);
    assert!(d.present);
    assert_eq!(d.severity, DoshaSeverity::Mild);
    assert_eq!(d.cancellations.len(), 4);
}

#[test]
fn kaal_sarpa_planet_on_a_node_partly_breaks_it() {
    let d = detect_kaal_sarpa(1, 7, &[1, 3, 4, 5, 6, 3, 4]);
    assert!(d.present);
    assert_eq!(d.severity, DoshaSeverity::Moderate);
    assert_eq!(d.cancellations.len(), 1);
    assert_eq!(d.from_chart, "Anant");
}

#[test]
fn kaal_amrit_yoga_when_hemmed_the_other_way() {
    // Rahu in 7, Ketu in 1: everything in 1..7 runs from Ketu to Rahu.
    let d = detect_kaal_sarpa(7, 1, &[2, 3, 4, 5, 6, 3, 4]);
    assert!(d.present);
    assert_eq!(d.name, "Kaal Amrit Yoga");
    assert_eq!(d.from_chart, "Takshak");
    assert_eq!(d.severity, DoshaSeverity::Severe);
}

#[test]
fn kaal_sarpa_wraps_past_twelfth_house() {
    // Rahu in 10, Ketu in 4: the arc 10, 11, 12, 1, 2, 3, 4.
    let d = detect_kaal_sarpa(10, 4, &[11, 12, 2, 3, 11, 12, 2]);
    assert!(d.present);
}

#[test]
fn pitra_all_triggers_reported_in_order() {
    let d = detect_pitra_dosha(9, 9, 9, 6, true);
    assert!(d.present);
    assert_eq!(d.cancellations.len(), 5);
}

#[test]
fn ninth_lord_missing_gives_none() {
    // Asc = Aries: the 9th lord is Jupiter, absent from this list.
    let signs = vec![(Planet::Sun, 0usize), (Planet::Moon, 3usize)];
    assert_eq!(resolve_ninth_lord_house(0, &signs), None);
}

#[test]
fn sign_lord_wraps_modulo_twelve() {
    assert_eq!(traditional_sign_lord(12), Planet::Mars);
    assert_eq!(traditional_sign_lord(23), Planet::Jupiter);
}

#[test]
fn combustion_orbs_follow_the_table() {
    assert_eq!(combustion_orb_deg("Moon", false), Some(12));
    assert_eq!(combustion_orb_deg("Mars", true), Some(17));
    assert_eq!(combustion_orb_deg("Mercury", false), Some(14));
    assert_eq!(combustion_orb_deg("Mercury", true), Some(12));
    assert_eq!(combustion_orb_deg("Jupiter", false), Some(11));
    assert_eq!(combustion_orb_deg("Venus", false), Some(10));
    assert_eq!(combustion_orb_deg("Venus", true), Some(8));
    assert_eq!(combustion_orb_deg("Saturn", false), Some(15));
    assert_eq!(combustion_orb_deg("Sun", false), None);
    assert_eq!(combustion_orb_deg("Rahu", false), None);
    assert_eq!(combustion_orb_deg("Ketu", true), None);
    assert_eq!(combustion_orb_deg("moon", false), None);
    let _ = CombustionStatus::Free;
}
