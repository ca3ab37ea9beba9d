//! Vedic dosha checks: Mangal, Kaal Sarpa and Pitra Dosha, the traditional
//! sign lords and the house of the 9th lord, and the combustion orbs.

use vstd::prelude::*;

verus! {

/// The classical planets, the lunar nodes and the outer planets.
#[derive(Debug, Clone, Copy, PartialEq, Eq, Structural, Hash)]
pub enum Planet {
    Sun,
    Moon,
    Mars,
    Mercury,
    Jupiter,
    Venus,
    Saturn,
    Rahu,
    Ketu,
    Uranus,
    Neptune,
    Pluto,
}

/// The seven visible (classical) planets.
pub open spec fn is_classical(p: Planet) -> bool {
    match p {
        Planet::Sun | Planet::Moon | Planet::Mars | Planet::Mercury | Planet::Jupiter
        | Planet::Venus | Planet::Saturn => true,
        _ => false,
    }
}

/// Traditional ruler of a 0-based sign index already reduced modulo 12
/// (0 = Aries .. 11 = Pisces).
pub open spec fn sign_lord(sign: int) -> Planet {
    if sign == 0 || sign == 7 {
        Planet::Mars
    } else if sign == 1 || sign == 6 {
        Planet::Venus
    } else if sign == 2 || sign == 5 {
        Planet::Mercury
    } else if sign == 3 {
        Planet::Moon
    } else if sign == 4 {
        Planet::Sun
    } else if sign == 8 || sign == 11 {
        Planet::Jupiter
    } else {
        Planet::Saturn
    }
}

/// Traditional (classical, pre-Uranian) ruler of a sidereal rashi.
///
/// `sign` is a 0-based sign index (0 = Aries .. 11 = Pisces), taken modulo
/// 12. Dual-lordship signs (Scorpio, Aquarius) return only the classical
/// planetary ruler (Mars, Saturn); Rahu/Ketu are never returned.
pub fn traditional_sign_lord(sign: usize) -> (p: Planet)
    ensures
        p == sign_lord(sign as int % 12),
        is_classical(p),
{
    match sign % 12 {
        0 => Planet::Mars,
        1 => Planet::Venus,
        2 => Planet::Mercury,
        3 => Planet::Moon,
        4 => Planet::Sun,
        5 => Planet::Mercury,
        6 => Planet::Venus,
        7 => Planet::Mars,
        8 => Planet::Jupiter,
        9 => Planet::Saturn,
        10 => Planet::Saturn,
        _ => Planet::Jupiter,
    }
}

/// Whole-sign house (1..=12) of a planet in sign `planet_sign`, counted from
/// the Ascendant sign `asc_sign`.
pub open spec fn house_from_lagna(planet_sign: int, asc_sign: int) -> int {
    (planet_sign + 12 - asc_sign % 12) % 12 + 1
}

/// Index of the first entry of `ps` whose planet is `p`, if any.
pub open spec fn first_index_of(ps: Seq<(Planet, usize)>, p: Planet, i: int) -> bool {
    &&& 0 <= i < ps.len()
    &&& ps[i].0 == p
    &&& forall|j: int| 0 <= j < i ==> ps[j].0 != p
}

/// The traditional lord of the 9th whole-sign house from an Ascendant sign.
pub open spec fn ninth_lord(asc_sign: int) -> Planet {
    sign_lord((asc_sign + 8) % 12)
}

/// Resolve the real 9th-house (whole-sign) lord's house position from Lagna.
///
/// `asc_sign` is the Ascendant's 0-based sign index. `planet_signs` gives the
/// 0-based sign index of each planet. The 9th house sign is 8 signs forward
/// of the Ascendant; its traditional ruler's own whole-sign house from Lagna
/// (1..=12) is returned, read from the first entry for that ruler.
///
/// Returns `None` exactly when `planet_signs` holds no entry for the ruler.
pub fn resolve_ninth_lord_house(asc_sign: usize, planet_signs: &[(Planet, usize)]) -> (r: Option<
    usize,
>)
    ensures
        r is None <==> forall|j: int|
            0 <= j < planet_signs@.len() ==> planet_signs@[j].0 != ninth_lord(asc_sign as int),
        r matches Some(h) ==> exists|i: int|
            first_index_of(planet_signs@, ninth_lord(asc_sign as int), i) && h == house_from_lagna(
                planet_signs@[i].1 as int,
                asc_sign as int,
            ),
        r matches Some(h) ==> 1 <= h <= 12,
{
    let ninth_sign = asc_sign % 12;
    let ninth_sign = (ninth_sign + 8) % 12;
    let lord = traditional_sign_lord(ninth_sign);
    assert((asc_sign as int + 8) % 12 == ((asc_sign as int % 12) + 8) % 12) by (nonlinear_arith);
    let mut i: usize = 0;
    while i < planet_signs.len()
        invariant
            0 <= i <= planet_signs@.len(),
            lord == ninth_lord(asc_sign as int),
            forall|j: int| 0 <= j < i ==> planet_signs@[j].0 != lord,
        decreases planet_signs@.len() - i,
    {
        let (p, s) = planet_signs[i];
        if p == lord {
            let h = (s % 12 + 12 - asc_sign % 12) % 12 + 1;
            assert(h == house_from_lagna(s as int, asc_sign as int)) by (nonlinear_arith)
                requires
                    h == (s as int % 12 + 12 - asc_sign as int % 12) % 12 + 1,
            ;
            assert(first_index_of(planet_signs@, lord, i as int));
            return Some(h);
        }
        i = i + 1;
    }
    None
}

/// Result of a dosha (affliction) check.
///
/// For the Pitra check, `cancellations` lists the triggers that fired.
#[derive(Debug, Clone)]
pub struct Dosha {
    pub name: &'static str,
    pub present: bool,
    pub severity: DoshaSeverity,
    pub from_chart: &'static str,
    pub cancellations: Vec<&'static str>,
}

/// How strongly a dosha is present; `Absent` when it is not.
#[derive(Debug, Clone, Copy, PartialEq, Eq, Structural)]
pub enum DoshaSeverity {
    Absent,
    Mild,
    Moderate,
    Severe,
}

/// Mathematical value of a [`Dosha`]: its texts as character sequences.
pub struct DoshaView {
    pub name: Seq<char>,
    pub present: bool,
    pub severity: DoshaSeverity,
    pub from_chart: Seq<char>,
    pub cancellations: Seq<Seq<char>>,
}

/// Character sequences of a list of texts.
pub open spec fn texts(v: Seq<&'static str>) -> Seq<Seq<char>> {
    v.map_values(|s: &'static str| s@)
}

impl View for Dosha {
    type V = DoshaView;

    open spec fn view(&self) -> DoshaView {
        DoshaView {
            name: self.name@,
            present: self.present,
            severity: self.severity,
            from_chart: self.from_chart@,
            cancellations: texts(self.cancellations@),
        }
    }
}

/// `[text]` when `cond` holds, the empty list otherwise.
pub open spec fn text_if(cond: bool, text: Seq<char>) -> Seq<Seq<char>> {
    if cond {
        seq![text]
    } else {
        Seq::empty()
    }
}

proof fn lemma_texts_push(v: Seq<&'static str>, s: &'static str)
    ensures
        texts(v.push(s)) == texts(v).push(s@),
{
    assert(texts(v.push(s)) =~= texts(v).push(s@));
}

/// Houses 1, 2, 4, 7, 8 and 12, where Mars gives Mangal Dosha.
pub open spec fn is_mangal_house(h: int) -> bool {
    h == 1 || h == 2 || h == 4 || h == 7 || h == 8 || h == 12
}

/// The cancelling nakshatras (0-based): Mrigashira, Chitra and Dhanishta.
pub open spec fn is_cancelling_nakshatra(n: int) -> bool {
    n == 4 || n == 13 || n == 22
}

/// Number of `true` among three flags.
pub open spec fn count3(a: bool, b: bool, c: bool) -> int {
    (if a { 1int } else { 0 }) + (if b { 1int } else { 0 }) + (if c { 1int } else { 0 })
}

/// The classical Mangal Dosha cancellations that hold, in their fixed order.
pub open spec fn mangal_cancellations(
    nakshatra: int,
    jupiter_aspects_mars: bool,
    own_sign: bool,
    exaltation: bool,
) -> Seq<Seq<char>> {
    text_if(own_sign, "Mars in own sign (Aries/Scorpio)"@) + text_if(
        exaltation,
        "Mars in exaltation (Capricorn)"@,
    ) + text_if(jupiter_aspects_mars, "Jupiter aspects Mars"@) + text_if(
        is_cancelling_nakshatra(nakshatra),
        "Mars in Mrigashira/Chitra/Dhanishta nakshatra"@,
    )
}

/// Which reference points (Lagna, Moon, Venus) give the dosha.
pub open spec fn mangal_from_chart(lagna: bool, moon: bool, venus: bool) -> Seq<char> {
    if lagna && moon && venus {
        "Lagna + Moon + Venus"@
    } else if lagna && moon {
        "Lagna + Moon"@
    } else if lagna && venus {
        "Lagna + Venus"@
    } else if moon && venus {
        "Moon + Venus"@
    } else if lagna {
        "Lagna"@
    } else if moon {
        "Moon"@
    } else if venus {
        "Venus"@
    } else {
        "None"@
    }
}

/// What Mangal Dosha detection reports for the given chart facts.
pub open spec fn mangal_dosha(
    house_from_lagna: int,
    house_from_moon: int,
    house_from_venus: int,
    nakshatra: int,
    jupiter_aspects_mars: bool,
    own_sign: bool,
    exaltation: bool,
) -> DoshaView {
    let l = is_mangal_house(house_from_lagna);
    let m = is_mangal_house(house_from_moon);
    let v = is_mangal_house(house_from_venus);
    let count = count3(l, m, v);
    if count == 0 {
        DoshaView {
            name: "Mangal Dosha"@,
            present: false,
            severity: DoshaSeverity::Absent,
            from_chart: "None"@,
            cancellations: Seq::empty(),
        }
    } else {
        let c = mangal_cancellations(nakshatra, jupiter_aspects_mars, own_sign, exaltation);
        DoshaView {
            name: "Mangal Dosha"@,
            present: true,
            severity: if c.len() > 0 {
                DoshaSeverity::Mild
            } else if count == 3 {
                DoshaSeverity::Severe
            } else {
                DoshaSeverity::Moderate
            },
            from_chart: mangal_from_chart(l, m, v),
            cancellations: c,
        }
    }
}

fn mangal_house(h: usize) -> (b: bool)
    ensures
        b == is_mangal_house(h as int),
{
    h == 1 || h == 2 || h == 4 || h == 7 || h == 8 || h == 12
}

/// Detect Mangal (Manglik) Dosha and its classical cancellations.
///
/// The three `mars_house_from_*` arguments are 1-based house numbers (1..=12)
/// of Mars reckoned from the Lagna, the Moon and Venus respectively; Mars in
/// house 1, 2, 4, 7, 8 or 12 from a reference point gives the dosha.
/// `mars_nakshatra_index` is the 0-based nakshatra index (0..=26) of Mars,
/// NOT a rashi index: Mrigashira (4), Chitra (13) and Dhanishta (22) cancel.
/// Any cancellation reduces the severity to `Mild`; otherwise three
/// reference points give `Severe` and one or two give `Moderate`.
pub fn detect_mangal_dosha(
    mars_house_from_lagna: usize,
    mars_house_from_moon: usize,
    mars_house_from_venus: usize,
    mars_nakshatra_index: usize,
    jupiter_aspects_mars: bool,
    mars_in_own_sign: bool,
    mars_in_exaltation: bool,
) -> (d: Dosha)
    ensures
        d@ == mangal_dosha(
            mars_house_from_lagna as int,
            mars_house_from_moon as int,
            mars_house_from_venus as int,
            mars_nakshatra_index as int,
            jupiter_aspects_mars,
            mars_in_own_sign,
            mars_in_exaltation,
        ),
{
    let from_lagna = mangal_house(mars_house_from_lagna);
    let from_moon = mangal_house(mars_house_from_moon);
    let from_venus = mangal_house(mars_house_from_venus);

    let mut count: usize = 0;
    if from_lagna {
        count = count + 1;
    }
    if from_moon {
        count = count + 1;
    }
    if from_venus {
        count = count + 1;
    }

    if count == 0 {
        let d = Dosha {
            name: "Mangal Dosha",
            present: false,
            severity: DoshaSeverity::Absent,
            from_chart: "None",
            cancellations: Vec::new(),
        };
        assert(d@.cancellations =~= Seq::<Seq<char>>::empty());
        return d;
    }
    let mut cancellations: Vec<&'static str> = Vec::new();
    let ghost expected = mangal_cancellations(
        mars_nakshatra_index as int,
        jupiter_aspects_mars,
        mars_in_own_sign,
        mars_in_exaltation,
    );
    assert(texts(cancellations@) =~= Seq::<Seq<char>>::empty());

    if mars_in_own_sign {
        proof {
            lemma_texts_push(cancellations@, "Mars in own sign (Aries/Scorpio)");
        }
        cancellations.push("Mars in own sign (Aries/Scorpio)");
    }
    assert(texts(cancellations@) =~= text_if(mars_in_own_sign, "Mars in own sign (Aries/Scorpio)"@));
    let ghost c1 = texts(cancellations@);
    if mars_in_exaltation {
        proof {
            lemma_texts_push(cancellations@, "Mars in exaltation (Capricorn)");
        }
        cancellations.push("Mars in exaltation (Capricorn)");
    }
    assert(texts(cancellations@) =~= c1 + text_if(
        mars_in_exaltation,
        "Mars in exaltation (Capricorn)"@,
    ));
    let ghost c2 = texts(cancellations@);
    if jupiter_aspects_mars {
        proof {
            lemma_texts_push(cancellations@, "Jupiter aspects Mars");
        }
        cancellations.push("Jupiter aspects Mars");
    }
    assert(texts(cancellations@) =~= c2 + text_if(jupiter_aspects_mars, "Jupiter aspects Mars"@));
    let ghost c3 = texts(cancellations@);
    let nak = mars_nakshatra_index;
    if nak == 4 || nak == 13 || nak == 22 {
        proof {
            lemma_texts_push(cancellations@, "Mars in Mrigashira/Chitra/Dhanishta nakshatra");
        }
        cancellations.push("Mars in Mrigashira/Chitra/Dhanishta nakshatra");
    }
    assert(texts(cancellations@) =~= c3 + text_if(
        is_cancelling_nakshatra(nak as int),
        "Mars in Mrigashira/Chitra/Dhanishta nakshatra"@,
    ));
    assert(texts(cancellations@) =~= expected);

    let severity = if cancellations.len() > 0 {
        DoshaSeverity::Mild
    } else if count == 3 {
        DoshaSeverity::Severe
    } else {
        DoshaSeverity::Moderate
    };

    let from_chart = if from_lagna && from_moon && from_venus {
        "Lagna + Moon + Venus"
    } else if from_lagna && from_moon {
        "Lagna + Moon"
    } else if from_lagna && from_venus {
        "Lagna + Venus"
    } else if from_moon && from_venus {
        "Moon + Venus"
    } else if from_lagna {
        "Lagna"
    } else if from_moon {
        "Moon"
    } else if from_venus {
        "Venus"
    } else {
        "None"
    };

    Dosha { name: "Mangal Dosha", present: true, severity, from_chart, cancellations }
}

/// `h` lies on the arc of houses going forward from `from` to `to`
/// (both ends included), wrapping past house 12 when `to` < `from`.
pub open spec fn hemmed(h: int, from: int, to: int) -> bool {
    if from < to {
        from <= h && h <= to
    } else {
        h >= from || h <= to
    }
}

/// Every house in `houses` lies on the arc from `from` to `to`.
pub open spec fn all_hemmed(houses: Seq<usize>, from: int, to: int) -> bool {
    forall|i: int| 0 <= i < houses.len() ==> hemmed(houses[i] as int, from, to)
}

/// Some house in `houses` coincides with one of the nodes.
pub open spec fn any_on_nodes(houses: Seq<usize>, rahu: int, ketu: int) -> bool {
    exists|i: int| 0 <= i < houses.len() && (houses[i] == rahu || houses[i] == ketu)
}

/// The twelve Kaal Sarpa types, named by Rahu's house.
pub open spec fn kaal_sarpa_kind(rahu_house: int) -> Seq<char> {
    if rahu_house == 1 {
        "Anant"@
    } else if rahu_house == 2 {
        "Kulik"@
    } else if rahu_house == 3 {
        "Vasuki"@
    } else if rahu_house == 4 {
        "Shankhpal"@
    } else if rahu_house == 5 {
        "Padma"@
    } else if rahu_house == 6 {
        "Mahapadma"@
    } else if rahu_house == 7 {
        "Takshak"@
    } else if rahu_house == 8 {
        "Karkotak"@
    } else if rahu_house == 9 {
        "Shankhachud"@
    } else if rahu_house == 10 {
        "Ghatak"@
    } else if rahu_house == 11 {
        "Vishdhar"@
    } else if rahu_house == 12 {
        "Sheshnag"@
    } else {
        "Unknown"@
    }
}

/// What Kaal Sarpa detection reports for the node houses and planet houses.
pub open spec fn kaal_sarpa(rahu: int, ketu: int, houses: Seq<usize>) -> DoshaView {
    let sarpa = all_hemmed(houses, rahu, ketu);
    let amrit = all_hemmed(houses, ketu, rahu) && !sarpa;
    if sarpa || amrit {
        let partial = any_on_nodes(houses, rahu, ketu);
        DoshaView {
            name: if sarpa {
                "Kaal Sarpa Dosha"@
            } else {
                "Kaal Amrit Yoga"@
            },
            present: true,
            severity: if partial {
                DoshaSeverity::Moderate
            } else {
                DoshaSeverity::Severe
            },
            from_chart: kaal_sarpa_kind(rahu),
            cancellations: text_if(
                partial,
                "Planet conjunct Rahu/Ketu breaks the axis (partial KSD)"@,
            ),
        }
    } else {
        DoshaView {
            name: "Kaal Sarpa Dosha"@,
            present: false,
            severity: DoshaSeverity::Absent,
            from_chart: "None"@,
            cancellations: Seq::empty(),
        }
    }
}

fn all_hemmed_exec(houses: &[usize], from: usize, to: usize) -> (b: bool)
    ensures
        b == all_hemmed(houses@, from as int, to as int),
{
    let mut i: usize = 0;
    while i < houses.len()
        invariant
            0 <= i <= houses@.len(),
            forall|j: int| 0 <= j < i ==> hemmed(houses@[j] as int, from as int, to as int),
        decreases houses@.len() - i,
    {
        let h = houses[i];
        let inside = if from < to {
            h >= from && h <= to
        } else {
            h >= from || h <= to
        };
        if !inside {
            return false;
        }
        i = i + 1;
    }
    true
}

fn any_on_nodes_exec(houses: &[usize], rahu: usize, ketu: usize) -> (b: bool)
    ensures
        b == any_on_nodes(houses@, rahu as int, ketu as int),
{
    let mut i: usize = 0;
    while i < houses.len()
        invariant
            0 <= i <= houses@.len(),
            forall|j: int| 0 <= j < i ==> houses@[j] != rahu && houses@[j] != ketu,
        decreases houses@.len() - i,
    {
        if houses[i] == rahu || houses[i] == ketu {
            return true;
        }
        i = i + 1;
    }
    false
}

/// Detect Kaal Sarpa Dosha / Kaal Amrit Yoga.
///
/// `planet_houses` holds the houses of the seven visible planets (Sun, Moon,
/// Mars, Mercury, Jupiter, Venus, Saturn). When all of them lie on the arc
/// from Rahu forward to Ketu the result is Kaal Sarpa Dosha; otherwise, when
/// all lie on the arc from Ketu forward to Rahu, Kaal Amrit Yoga. One planet
/// outside the axis means no dosha. The type is named by Rahu's house, and a
/// planet sharing a house with a node makes it partial (`Moderate`).
pub fn detect_kaal_sarpa(rahu_house: usize, ketu_house: usize, planet_houses: &[usize]) -> (d:
    Dosha)
    ensures
        d@ == kaal_sarpa(rahu_house as int, ketu_house as int, planet_houses@),
{
    let rahu = rahu_house;
    let ketu = ketu_house;
    let all_between = all_hemmed_exec(planet_houses, rahu, ketu);
    let all_between_reverse = all_hemmed_exec(planet_houses, ketu, rahu);

    let is_kaal_sarpa = all_between;
    let is_kaal_amrit = all_between_reverse && !is_kaal_sarpa;

    if is_kaal_sarpa || is_kaal_amrit {
        let ksd_type = match rahu_house {
            1 => "Anant",
            2 => "Kulik",
            3 => "Vasuki",
            4 => "Shankhpal",
            5 => "Padma",
            6 => "Mahapadma",
            7 => "Takshak",
            8 => "Karkotak",
            9 => "Shankhachud",
            10 => "Ghatak",
            11 => "Vishdhar",
            12 => "Sheshnag",
            _ => "Unknown",
        };

        let any_conjunct_node = any_on_nodes_exec(planet_houses, rahu, ketu);
        let mut cancellations: Vec<&'static str> = Vec::new();
        if any_conjunct_node {
            cancellations.push("Planet conjunct Rahu/Ketu breaks the axis (partial KSD)");
        }
        let d = Dosha {
            name: if is_kaal_sarpa {
                "Kaal Sarpa Dosha"
            } else {
                "Kaal Amrit Yoga"
            },
            present: true,
            severity: if any_conjunct_node {
                DoshaSeverity::Moderate
            } else {
                DoshaSeverity::Severe
            },
            from_chart: ksd_type,
            cancellations,
        };
        assert(d@.cancellations =~= text_if(
            any_conjunct_node,
            "Planet conjunct Rahu/Ketu breaks the axis (partial KSD)"@,
        ));
        d
    } else {
        let d = Dosha {
            name: "Kaal Sarpa Dosha",
            present: false,
            severity: DoshaSeverity::Absent,
            from_chart: "None",
            cancellations: Vec::new(),
        };
        assert(d@.cancellations =~= Seq::<Seq<char>>::empty());
        d
    }
}

/// Dusthana houses (6, 8, 12), the classical houses of affliction.
pub open spec fn is_dusthana(h: int) -> bool {
    h == 6 || h == 8 || h == 12
}

/// The Pitra Dosha triggers that fire, in their fixed order.
pub open spec fn pitra_triggers(
    sun_house: int,
    saturn_house: int,
    rahu_house: int,
    ninth_lord_house: int,
    ninth_lord_debilitated: bool,
) -> Seq<Seq<char>> {
    text_if(sun_house == 9 && saturn_house == 9, "Sun-Saturn conjunction in 9th house"@) + text_if(
        rahu_house == 9,
        "Rahu in 9th house"@,
    ) + text_if(ninth_lord_debilitated, "9th lord debilitated"@) + text_if(
        is_dusthana(ninth_lord_house),
        "9th lord in a dusthana (6th/8th/12th house)"@,
    ) + text_if(saturn_house == 9, "Saturn in 9th house"@)
}

/// What Pitra Dosha detection reports: present when any trigger fires,
/// `Severe` from two triggers on, and the triggers listed.
pub open spec fn pitra_dosha(
    sun_house: int,
    saturn_house: int,
    rahu_house: int,
    ninth_lord_house: int,
    ninth_lord_debilitated: bool,
) -> DoshaView {
    let t = pitra_triggers(
        sun_house,
        saturn_house,
        rahu_house,
        ninth_lord_house,
        ninth_lord_debilitated,
    );
    DoshaView {
        name: "Pitra Dosha"@,
        present: t.len() > 0,
        severity: if t.len() >= 2 {
            DoshaSeverity::Severe
        } else if t.len() > 0 {
            DoshaSeverity::Moderate
        } else {
            DoshaSeverity::Absent
        },
        from_chart: if t.len() > 0 {
            "9th house affliction"@
        } else {
            "None"@
        },
        cancellations: t,
    }
}

/// Detect Pitra Dosha from 9th-house afflictions: Sun and Saturn together in
/// the 9th, Rahu in the 9th, a debilitated 9th lord, the 9th lord in a
/// dusthana (6th/8th/12th), or Saturn in the 9th. The fired triggers are
/// reported in `cancellations`.
pub fn detect_pitra_dosha(
    sun_house: usize,
    saturn_house: usize,
    rahu_house: usize,
    ninth_lord_house: usize,
    ninth_lord_debilitated: bool,
) -> (d: Dosha)
    ensures
        d@ == pitra_dosha(
            sun_house as int,
            saturn_house as int,
            rahu_house as int,
            ninth_lord_house as int,
            ninth_lord_debilitated,
        ),
{
    let mut triggers: Vec<&'static str> = Vec::new();
    assert(texts(triggers@) =~= Seq::<Seq<char>>::empty());

    if sun_house == 9 && saturn_house == 9 {
        proof {
            lemma_texts_push(triggers@, "Sun-Saturn conjunction in 9th house");
        }
        triggers.push("Sun-Saturn conjunction in 9th house");
    }
    assert(texts(triggers@) =~= text_if(
        sun_house == 9 && saturn_house == 9,
        "Sun-Saturn conjunction in 9th house"@,
    ));
    let ghost t1 = texts(triggers@);
    if rahu_house == 9 {
        proof {
            lemma_texts_push(triggers@, "Rahu in 9th house");
        }
        triggers.push("Rahu in 9th house");
    }
    assert(texts(triggers@) =~= t1 + text_if(rahu_house == 9, "Rahu in 9th house"@));
    let ghost t2 = texts(triggers@);
    if ninth_lord_debilitated {
        proof {
            lemma_texts_push(triggers@, "9th lord debilitated");
        }
        triggers.push("9th lord debilitated");
    }
    assert(texts(triggers@) =~= t2 + text_if(ninth_lord_debilitated, "9th lord debilitated"@));
    let ghost t3 = texts(triggers@);
    if ninth_lord_house == 6 || ninth_lord_house == 8 || ninth_lord_house == 12 {
        proof {
            lemma_texts_push(triggers@, "9th lord in a dusthana (6th/8th/12th house)");
        }
        triggers.push("9th lord in a dusthana (6th/8th/12th house)");
    }
    assert(texts(triggers@) =~= t3 + text_if(
        is_dusthana(ninth_lord_house as int),
        "9th lord in a dusthana (6th/8th/12th house)"@,
    ));
    let ghost t4 = texts(triggers@);
    if saturn_house == 9 {
        proof {
            lemma_texts_push(triggers@, "Saturn in 9th house");
        }
        triggers.push("Saturn in 9th house");
    }
    assert(texts(triggers@) =~= t4 + text_if(saturn_house == 9, "Saturn in 9th house"@));
    assert(texts(triggers@) =~= pitra_triggers(
        sun_house as int,
        saturn_house as int,
        rahu_house as int,
        ninth_lord_house as int,
        ninth_lord_debilitated,
    ));

    let n = triggers.len();
    Dosha {
        name: "Pitra Dosha",
        present: n > 0,
        severity: if n >= 2 {
            DoshaSeverity::Severe
        } else if n > 0 {
            DoshaSeverity::Moderate
        } else {
            DoshaSeverity::Absent
        },
        from_chart: if n > 0 {
            "9th house affliction"
        } else {
            "None"
        },
        cancellations: triggers,
    }
}

} // verus!

verus! {

/// Every dosha check reports a severity exactly when it reports the dosha as
/// present: `Absent` goes with "not present" and only with it.
pub proof fn lemma_present_iff_severity(
    h1: int,
    h2: int,
    h3: int,
    h4: int,
    nakshatra: int,
    f1: bool,
    f2: bool,
    f3: bool,
    houses: Seq<usize>,
)
    ensures
        ({
            let d = mangal_dosha(h1, h2, h3, nakshatra, f1, f2, f3);
            d.present <==> d.severity != DoshaSeverity::Absent
        }),
        ({
            let d = kaal_sarpa(h1, h2, houses);
            d.present <==> d.severity != DoshaSeverity::Absent
        }),
        ({
            let d = pitra_dosha(h1, h2, h3, h4, f1);
            d.present <==> d.severity != DoshaSeverity::Absent
        }),
{
}

/// How severity is graded. Mangal Dosha: when present, any cancellation
/// makes it `Mild`; without one it is `Severe` exactly when Mars afflicts
/// from all three reference points. Kaal Sarpa: reported exactly when every
/// planet lies on one arc between the nodes (either way round), and then
/// `Moderate` exactly when a planet shares a house with a node. Pitra Dosha:
/// `Severe` exactly from two triggers on.
pub proof fn lemma_dosha_severity_rules(
    h1: int,
    h2: int,
    h3: int,
    h4: int,
    nakshatra: int,
    f1: bool,
    f2: bool,
    f3: bool,
    houses: Seq<usize>,
)
    ensures
        ({
            let d = mangal_dosha(h1, h2, h3, nakshatra, f1, f2, f3);
            &&& d.present ==> (d.cancellations.len() > 0 <==> d.severity == DoshaSeverity::Mild)
            &&& d.present && d.cancellations.len() == 0 ==> (d.severity == DoshaSeverity::Severe
                <==> is_mangal_house(h1) && is_mangal_house(h2) && is_mangal_house(h3))
        }),
        ({
            let d = kaal_sarpa(h1, h2, houses);
            &&& d.present <==> all_hemmed(houses, h1, h2) || all_hemmed(houses, h2, h1)
            &&& d.present ==> (d.severity == DoshaSeverity::Moderate <==> any_on_nodes(
                houses,
                h1,
                h2,
            ))
        }),
        ({
            let d = pitra_dosha(h1, h2, h3, h4, f1);
            d.severity == DoshaSeverity::Severe <==> d.cancellations.len() >= 2
        }),
{
}

/// Mangal Dosha in terms of its inputs: Mars afflicts from a reference
/// point in houses 1, 2, 4, 7, 8 and 12; a present dosha lists one
/// cancellation for each of own sign, exaltation, Jupiter's aspect and a
/// Mars nakshatra of Mrigashira (4), Chitra (13) or Dhanishta (22), and is
/// `Mild` exactly when it lists one; otherwise `Severe` from all three
/// reference points and `Moderate` from one or two.
pub proof fn lemma_mangal_rules(
    lagna: int,
    moon: int,
    venus: int,
    nakshatra: int,
    jupiter_aspects_mars: bool,
    own_sign: bool,
    exaltation: bool,
)
    ensures
        ({
            let d = mangal_dosha(
                lagna,
                moon,
                venus,
                nakshatra,
                jupiter_aspects_mars,
                own_sign,
                exaltation,
            );
            let l = lagna == 1 || lagna == 2 || lagna == 4 || lagna == 7 || lagna == 8 || lagna == 12;
            let m = moon == 1 || moon == 2 || moon == 4 || moon == 7 || moon == 8 || moon == 12;
            let v = venus == 1 || venus == 2 || venus == 4 || venus == 7 || venus == 8 || venus == 12;
            let nak = nakshatra == 4 || nakshatra == 13 || nakshatra == 22;
            let count = (if own_sign { 1int } else { 0 }) + (if exaltation { 1int } else { 0 }) + (
            if jupiter_aspects_mars {
                1int
            } else {
                0
            }) + (if nak { 1int } else { 0 });
            &&& d.present <==> (l || m || v)
            &&& !d.present ==> d.severity == DoshaSeverity::Absent && d.cancellations.len() == 0
            &&& d.present ==> d.cancellations.len() == count
            &&& d.present ==> (d.severity == DoshaSeverity::Mild <==> count > 0)
            &&& d.present && count == 0 ==> (d.severity == DoshaSeverity::Severe <==> (l && m && v))
            &&& d.present && count == 0 && !(l && m && v) ==> d.severity == DoshaSeverity::Moderate
            &&& d.present && !own_sign && !exaltation && !jupiter_aspects_mars ==> (
            d.cancellations.len() == 1 <==> nak)
        }),
{
}

/// Kaal Sarpa in terms of its inputs: reported exactly when every planet
/// lies on the arc from Rahu forward to Ketu (Kaal Sarpa Dosha) or from Ketu
/// forward to Rahu (Kaal Amrit Yoga), each arc including its ends and
/// wrapping past house 12; then partial (`Moderate`, with one cancellation)
/// exactly when some planet is in Rahu's or Ketu's house, else `Severe`.
pub proof fn lemma_kaal_sarpa_rules(rahu: int, ketu: int, houses: Seq<usize>)
    ensures
        ({
            let d = kaal_sarpa(rahu, ketu, houses);
            let forward = forall|i: int|
                0 <= i < houses.len() ==> if rahu < ketu {
                    rahu <= #[trigger] houses[i] && houses[i] <= ketu
                } else {
                    houses[i] >= rahu || houses[i] <= ketu
                };
            let backward = forall|i: int|
                0 <= i < houses.len() ==> if ketu < rahu {
                    ketu <= #[trigger] houses[i] && houses[i] <= rahu
                } else {
                    houses[i] >= ketu || houses[i] <= rahu
                };
            let on_node = exists|i: int|
                0 <= i < houses.len() && (#[trigger] houses[i] == rahu || houses[i] == ketu);
            &&& d.present <==> (forward || backward)
            &&& d.present ==> (d.severity == DoshaSeverity::Moderate <==> on_node)
            &&& d.present ==> (d.severity == DoshaSeverity::Severe <==> !on_node)
            &&& d.present ==> (d.cancellations.len() == 1 <==> on_node)
            &&& d.present ==> (d.cancellations.len() == 0 <==> !on_node)
            &&& d.present && forward ==> d.name == "Kaal Sarpa Dosha"@
            &&& d.present && !forward ==> d.name == "Kaal Amrit Yoga"@
            &&& d.present ==> d.from_chart == kaal_sarpa_kind(rahu)
        }),
{
}

/// Each of the twelve houses Rahu can occupy names its own Kaal Sarpa type:
/// no two houses share a name, and none of them is the name given to a
/// house outside 1..=12.
pub proof fn lemma_kaal_sarpa_kinds_distinct(h1: int, h2: int)
    requires
        1 <= h1 <= 12,
        1 <= h2 <= 12,
    ensures
        h1 != h2 ==> kaal_sarpa_kind(h1) != kaal_sarpa_kind(h2),
        kaal_sarpa_kind(h1) != kaal_sarpa_kind(0),
{
    reveal_strlit("Anant");
    reveal_strlit("Kulik");
    reveal_strlit("Vasuki");
    reveal_strlit("Shankhpal");
    reveal_strlit("Padma");
    reveal_strlit("Mahapadma");
    reveal_strlit("Takshak");
    reveal_strlit("Karkotak");
    reveal_strlit("Shankhachud");
    reveal_strlit("Ghatak");
    reveal_strlit("Vishdhar");
    reveal_strlit("Sheshnag");
    reveal_strlit("Unknown");
    assert("Anant"@.len() == 5 && "Anant"@[0] == 'A' && "Anant"@[1] == 'n');
    assert("Kulik"@.len() == 5 && "Kulik"@[0] == 'K' && "Kulik"@[1] == 'u');
    assert("Vasuki"@.len() == 6 && "Vasuki"@[0] == 'V' && "Vasuki"@[1] == 'a');
    assert("Shankhpal"@.len() == 9 && "Shankhpal"@[0] == 'S' && "Shankhpal"@[1] == 'h');
    assert("Padma"@.len() == 5 && "Padma"@[0] == 'P' && "Padma"@[1] == 'a');
    assert("Mahapadma"@.len() == 9 && "Mahapadma"@[0] == 'M' && "Mahapadma"@[1] == 'a');
    assert("Takshak"@.len() == 7 && "Takshak"@[0] == 'T' && "Takshak"@[1] == 'a');
    assert("Karkotak"@.len() == 8 && "Karkotak"@[0] == 'K' && "Karkotak"@[1] == 'a');
    assert("Shankhachud"@.len() == 11 && "Shankhachud"@[0] == 'S' && "Shankhachud"@[1] == 'h');
    assert("Ghatak"@.len() == 6 && "Ghatak"@[0] == 'G' && "Ghatak"@[1] == 'h');
    assert("Vishdhar"@.len() == 8 && "Vishdhar"@[0] == 'V' && "Vishdhar"@[1] == 'i');
    assert("Sheshnag"@.len() == 8 && "Sheshnag"@[0] == 'S' && "Sheshnag"@[1] == 'h');
    assert("Unknown"@.len() == 7 && "Unknown"@[0] == 'U' && "Unknown"@[1] == 'n');
}

/// Pitra Dosha in terms of its inputs: the triggers are Sun and Saturn both
/// in the 9th, Rahu in the 9th, a debilitated 9th lord, the 9th lord in
/// house 6, 8 or 12, and Saturn in the 9th; one is listed for each that
/// fires, the dosha is present exactly when one fires, `Severe` from two on
/// and `Moderate` with one.
pub proof fn lemma_pitra_rules(
    sun_house: int,
    saturn_house: int,
    rahu_house: int,
    ninth_lord_house: int,
    ninth_lord_debilitated: bool,
)
    ensures
        ({
            let d = pitra_dosha(
                sun_house,
                saturn_house,
                rahu_house,
                ninth_lord_house,
                ninth_lord_debilitated,
            );
            let count = (if sun_house == 9 && saturn_house == 9 { 1int } else { 0 }) + (
            if rahu_house == 9 {
                1int
            } else {
                0
            }) + (if ninth_lord_debilitated { 1int } else { 0 }) + (if ninth_lord_house == 6
                || ninth_lord_house == 8 || ninth_lord_house == 12 {
                1int
            } else {
                0
            }) + (if saturn_house == 9 { 1int } else { 0 });
            &&& d.cancellations.len() == count
            &&& d.present <==> count > 0
            &&& d.severity == DoshaSeverity::Severe <==> count >= 2
            &&& d.severity == DoshaSeverity::Moderate <==> count == 1
            &&& d.severity == DoshaSeverity::Absent <==> count == 0
        }),
{
}

/// The 9th lord is always one of the seven classical planets, so its house
/// is found whenever all seven classical planets are supplied.
pub proof fn lemma_ninth_lord_found_with_classical_planets(
    asc_sign: int,
    planet_signs: Seq<(Planet, usize)>,
)
    requires
        forall|p: Planet|
            is_classical(p) ==> exists|i: int| 0 <= i < planet_signs.len() && planet_signs[i].0 == p,
    ensures
        exists|i: int|
            0 <= i < planet_signs.len() && planet_signs[i].0 == ninth_lord(asc_sign),
{
    assert(is_classical(ninth_lord(asc_sign)));
}

/// The traditional rulerships: the Sun rules Leo (4) alone and the Moon
/// Cancer (3) alone; every other classical planet rules a pair of signs
/// mirrored about the Cancer–Leo axis (sign `s` and sign `(19 - s) mod 12`):
/// Mars Aries and Scorpio, Venus Taurus and Libra, Mercury Gemini and Virgo,
/// Jupiter Sagittarius and Pisces, Saturn Capricorn and Aquarius.
pub proof fn lemma_sign_lords(sign: int)
    requires
        0 <= sign < 12,
    ensures
        is_classical(sign_lord(sign)),
        sign_lord(sign) == Planet::Sun <==> sign == 4,
        sign_lord(sign) == Planet::Moon <==> sign == 3,
        sign != 3 && sign != 4 ==> sign_lord(sign) == sign_lord((19 - sign) % 12),
        sign != 3 && sign != 4 ==> forall|other: int|
            0 <= other < 12 && sign_lord(other) == sign_lord(sign) ==> other == sign || other == (
            19 - sign) % 12,
        sign_lord(0) == Planet::Mars && sign_lord(1) == Planet::Venus && sign_lord(2)
            == Planet::Mercury && sign_lord(8) == Planet::Jupiter && sign_lord(9) == Planet::Saturn,
{
}

/// The 9th lord rules the sign that stands in the 9th whole-sign house from
/// the Ascendant: whichever sign a planet occupies, it is in house 9 from
/// Lagna exactly when that sign is the one the 9th lord rules by this count.
pub proof fn lemma_ninth_lord_rules_ninth_house(asc_sign: int, sign: int)
    requires
        asc_sign >= 0,
        0 <= sign < 12,
    ensures
        1 <= house_from_lagna(sign, asc_sign) <= 12,
        house_from_lagna(sign, asc_sign) == 9 ==> ninth_lord(asc_sign) == sign_lord(sign),
        house_from_lagna(asc_sign % 12, asc_sign) == 1,
        exists|s: int| 0 <= s < 12 && house_from_lagna(s, asc_sign) == 9,
{
    let r = asc_sign % 12;
    assert((asc_sign + 8) % 12 == (r + 8) % 12) by (nonlinear_arith)
        requires
            r == asc_sign % 12,
            asc_sign >= 0,
    ;
    let s9 = (r + 8) % 12;
    assert(house_from_lagna(s9, asc_sign) == 9);
}

} // verus!

verus! {

// ---------------------------------------------------------------------------
// Combustion
// ---------------------------------------------------------------------------

/// Detailed combustion status for a planet.
#[derive(Debug, Clone, Copy, PartialEq, Eq, Structural)]
pub enum CombustionStatus {
    /// Planet is not combust: free from the Sun's influence.
    Free,
    /// Planet is combust within the standard orb.
    Combust,
    /// Planet is deeply combust (within half the standard orb).
    DeeplyCombust,
}

/// The combustion orb in whole degrees (Surya Siddhanta / BPHS): Moon 12,
/// Mars 17, Mercury 14 (12 retrograde), Jupiter 11, Venus 10 (8 retrograde),
/// Saturn 15; the Sun, the nodes and any other name have none.
pub open spec fn combustion_orb(planet: Seq<char>, retrograde: bool) -> Option<u8> {
    if planet == "Moon"@ {
        Some(12)
    } else if planet == "Mars"@ {
        Some(17)
    } else if planet == "Mercury"@ {
        if retrograde {
            Some(12)
        } else {
            Some(14)
        }
    } else if planet == "Jupiter"@ {
        Some(11)
    } else if planet == "Venus"@ {
        if retrograde {
            Some(8)
        } else {
            Some(10)
        }
    } else if planet == "Saturn"@ {
        Some(15)
    } else {
        None
    }
}

/// The characters of `s`.
fn text_chars(s: &str) -> (r: Vec<char>)
    ensures
        r@ == s@,
{
    broadcast use vstd::string::group_string_axioms;

    let mut out: Vec<char> = Vec::new();
    for c in it: s.chars()
        invariant
            it.seq() == s@,
            out@ == s@.take(it.index() as int),
    {
        out.push(c);
        assert(out@ =~= s@.take(it.index() + 1));
    }
    assert(s@.take(s@.len() as int) =~= s@);
    out
}

/// The combustion orb of `planet` (in whole degrees), or `None` for a body
/// that is never combust (the Sun, Rahu, Ketu, any other name). Mercury and
/// Venus take their narrower orb when `is_retrograde`.
pub fn combustion_orb_deg(planet: &str, is_retrograde: bool) -> (r: Option<u8>)
    ensures
        r == combustion_orb(planet@, is_retrograde),
{
    let name = text_chars(planet);
    if crate::aspects::chars_equal(&name, "Moon") {
        Some(12)
    } else if crate::aspects::chars_equal(&name, "Mars") {
        Some(17)
    } else if crate::aspects::chars_equal(&name, "Mercury") {
        if is_retrograde {
            Some(12)
        } else {
            Some(14)
        }
    } else if crate::aspects::chars_equal(&name, "Jupiter") {
        Some(11)
    } else if crate::aspects::chars_equal(&name, "Venus") {
        if is_retrograde {
            Some(8)
        } else {
            Some(10)
        }
    } else if crate::aspects::chars_equal(&name, "Saturn") {
        Some(15)
    } else {
        None
    }
}

/// How the combustion orbs behave: a name has an orb whether or not the
/// planet is retrograde, or has none either way; retrograde motion narrows
/// the orb of Mercury (14 to 12 degrees) and Venus (10 to 8) alone, by two
/// degrees; every orb lies between 8 and 17 degrees, Mars having the widest;
/// the Sun and the lunar nodes are never combust.
pub proof fn lemma_combustion_orbs(planet: Seq<char>, retrograde: bool)
    ensures
        combustion_orb(planet, true) is Some <==> combustion_orb(planet, false) is Some,
        planet != "Mercury"@ && planet != "Venus"@ ==> combustion_orb(planet, true)
            == combustion_orb(planet, false),
        combustion_orb("Mercury"@, true) == Some(12u8) && combustion_orb("Mercury"@, false) == Some(
            14u8,
        ),
        combustion_orb("Venus"@, true) == Some(8u8) && combustion_orb("Venus"@, false) == Some(
            10u8,
        ),
        combustion_orb(planet, retrograde) matches Some(o) ==> 8 <= o <= 17,
        combustion_orb(planet, retrograde) == Some(17u8) <==> planet == "Mars"@,
        combustion_orb("Moon"@, retrograde) == Some(12u8),
        combustion_orb("Jupiter"@, retrograde) == Some(11u8),
        combustion_orb("Saturn"@, retrograde) == Some(15u8),
        combustion_orb("Sun"@, retrograde) is None,
        combustion_orb("Rahu"@, retrograde) is None,
        combustion_orb("Ketu"@, retrograde) is None,
{
    reveal_strlit("Sun");
    reveal_strlit("Rahu");
    reveal_strlit("Ketu");
    reveal_strlit("Moon");
    reveal_strlit("Mars");
    reveal_strlit("Mercury");
    reveal_strlit("Jupiter");
    reveal_strlit("Venus");
    reveal_strlit("Saturn");
    assert("Sun"@.len() == 3 && "Sun"@[0] == 'S' && "Sun"@[1] == 'u');
    assert("Rahu"@.len() == 4 && "Rahu"@[0] == 'R' && "Rahu"@[1] == 'a');
    assert("Ketu"@.len() == 4 && "Ketu"@[0] == 'K' && "Ketu"@[1] == 'e');
    assert("Moon"@.len() == 4 && "Moon"@[0] == 'M' && "Moon"@[1] == 'o');
    assert("Mars"@.len() == 4 && "Mars"@[0] == 'M' && "Mars"@[1] == 'a');
    assert("Mercury"@.len() == 7 && "Mercury"@[0] == 'M' && "Mercury"@[1] == 'e');
    assert("Jupiter"@.len() == 7 && "Jupiter"@[0] == 'J' && "Jupiter"@[1] == 'u');
    assert("Venus"@.len() == 5 && "Venus"@[0] == 'V' && "Venus"@[1] == 'e');
    assert("Saturn"@.len() == 6 && "Saturn"@[0] == 'S' && "Saturn"@[1] == 'a');
}

} // verus!
