//! Aspect types, their catalogues and names, and the sign-based part of
//! aspect classification (out-of-sign aspects).

use vstd::prelude::*;

verus! {

/// Type of angular relationship between two celestial bodies.
#[derive(Debug, Clone, Copy, PartialEq, Eq, Structural, Hash)]
pub enum AspectType {
    Conjunction,
    Opposition,
    Trine,
    Square,
    Sextile,
    SemiSextile,
    Quincunx,
    SemiSquare,
    Sesquiquadrate,
    Quintile,
    BiQuintile,
    /// Kepler aspect: 360°/7.
    Septile,
    /// Kepler aspect: 360°/9 = 40°.
    Novile,
    /// Kepler aspect: 360°/10 = 36°.
    Decile,
}

/// Whether an aspect is applying (tightening), separating, or exact.
#[derive(Debug, Clone, Copy, PartialEq, Eq, Structural)]
pub enum AspectDirection {
    Applying,
    Separating,
    Exact,
}

/// The phase of an aspect: the same concept as [`AspectDirection`].
pub type AspectPhase = AspectDirection;

/// The five Ptolemaic (major) aspects.
pub open spec fn spec_major(t: AspectType) -> bool {
    t is Conjunction || t is Opposition || t is Trine || t is Square || t is Sextile
}

/// The three Kepler (harmonic) aspects.
pub open spec fn spec_kepler(t: AspectType) -> bool {
    t is Septile || t is Novile || t is Decile
}

impl AspectType {
    /// Returns `true` for Ptolemaic (major) aspects.
    pub fn is_major(&self) -> (b: bool)
        ensures
            b == spec_major(*self),
    {
        match self {
            AspectType::Conjunction | AspectType::Opposition | AspectType::Trine
            | AspectType::Square | AspectType::Sextile => true,
            _ => false,
        }
    }

    /// Returns `true` for the three Kepler (harmonic) aspects.
    pub fn is_kepler(&self) -> (b: bool)
        ensures
            b == spec_kepler(*self),
    {
        match self {
            AspectType::Septile | AspectType::Novile | AspectType::Decile => true,
            _ => false,
        }
    }

    /// The five major (Ptolemaic) aspect types, in canonical order.
    pub fn major() -> (v: Vec<AspectType>)
        ensures
            v@ == major_types(),
    {
        let v = vec![
            AspectType::Conjunction,
            AspectType::Sextile,
            AspectType::Square,
            AspectType::Trine,
            AspectType::Opposition,
        ];
        assert(v@ =~= major_types());
        v
    }

    /// The three Kepler aspects: septile, novile, decile.
    pub fn kepler() -> (v: Vec<AspectType>)
        ensures
            v@ == kepler_types(),
    {
        let v = vec![AspectType::Septile, AspectType::Novile, AspectType::Decile];
        assert(v@ =~= kepler_types());
        v
    }

    /// The eleven classical aspect types (major and minor), in order of angle.
    pub fn all() -> (v: Vec<AspectType>)
        ensures
            v@ == all_11_types(),
    {
        let v = vec![
            AspectType::Conjunction,
            AspectType::SemiSextile,
            AspectType::SemiSquare,
            AspectType::Sextile,
            AspectType::Quintile,
            AspectType::Square,
            AspectType::Trine,
            AspectType::Sesquiquadrate,
            AspectType::BiQuintile,
            AspectType::Quincunx,
            AspectType::Opposition,
        ];
        assert(v@ =~= all_11_types());
        v
    }

    /// All fourteen aspect types: the eleven of [`AspectType::all`] followed
    /// by the three Kepler aspects.
    pub fn all_14() -> (v: Vec<AspectType>)
        ensures
            v@ == all_14_types(),
    {
        let mut v = AspectType::all();
        v.push(AspectType::Septile);
        v.push(AspectType::Novile);
        v.push(AspectType::Decile);
        assert(v@ =~= all_14_types());
        v
    }
}

pub open spec fn major_types() -> Seq<AspectType> {
    seq![
        AspectType::Conjunction,
        AspectType::Sextile,
        AspectType::Square,
        AspectType::Trine,
        AspectType::Opposition,
    ]
}

pub open spec fn kepler_types() -> Seq<AspectType> {
    seq![AspectType::Septile, AspectType::Novile, AspectType::Decile]
}

pub open spec fn all_11_types() -> Seq<AspectType> {
    seq![
        AspectType::Conjunction,
        AspectType::SemiSextile,
        AspectType::SemiSquare,
        AspectType::Sextile,
        AspectType::Quintile,
        AspectType::Square,
        AspectType::Trine,
        AspectType::Sesquiquadrate,
        AspectType::BiQuintile,
        AspectType::Quincunx,
        AspectType::Opposition,
    ]
}

pub open spec fn all_14_types() -> Seq<AspectType> {
    all_11_types() + kepler_types()
}

/// Sign separations (0..=11) traditionally expected for each aspect type.
pub open spec fn expected_separations(t: AspectType) -> Seq<u8> {
    match t {
        AspectType::Conjunction => seq![0u8],
        AspectType::Sextile => seq![2u8, 10],
        AspectType::Square => seq![3u8, 9],
        AspectType::Trine => seq![4u8, 8],
        AspectType::Opposition => seq![6u8],
        AspectType::SemiSextile => seq![1u8, 11],
        AspectType::SemiSquare => seq![1u8, 2, 10, 11],
        AspectType::Quintile => seq![2u8, 3, 9, 10],
        AspectType::Sesquiquadrate => seq![4u8, 5, 7, 8],
        AspectType::BiQuintile => seq![4u8, 5, 7, 8],
        AspectType::Quincunx => seq![5u8, 7],
        AspectType::Septile => seq![1u8, 2, 10, 11],
        AspectType::Novile => seq![1u8, 2, 10, 11],
        AspectType::Decile => seq![1u8, 2, 10, 11],
    }
}

/// Sign (zodiac-index) separations traditionally expected for each aspect
/// type.
pub fn expected_sign_separations(aspect_type: AspectType) -> (r: Vec<u8>)
    ensures
        r@ == expected_separations(aspect_type),
{
    let r = match aspect_type {
        AspectType::Conjunction => vec![0u8],
        AspectType::Sextile => vec![2u8, 10],
        AspectType::Square => vec![3u8, 9],
        AspectType::Trine => vec![4u8, 8],
        AspectType::Opposition => vec![6u8],
        AspectType::SemiSextile => vec![1u8, 11],
        AspectType::SemiSquare => vec![1u8, 2, 10, 11],
        AspectType::Quintile => vec![2u8, 3, 9, 10],
        AspectType::Sesquiquadrate => vec![4u8, 5, 7, 8],
        AspectType::BiQuintile => vec![4u8, 5, 7, 8],
        AspectType::Quincunx => vec![5u8, 7],
        AspectType::Septile => vec![1u8, 2, 10, 11],
        AspectType::Novile => vec![1u8, 2, 10, 11],
        AspectType::Decile => vec![1u8, 2, 10, 11],
    };
    assert(r@ =~= expected_separations(aspect_type));
    r
}

/// Forward separation, in signs, from sign `sign1` to sign `sign2`:
/// `(sign2 - sign1) mod 12`, always in `0..=11`.
pub open spec fn spec_sign_separation(sign1: int, sign2: int) -> int {
    (sign2 - sign1) % 12
}

/// Forward sign separation from `sign1` to `sign2` (0-11). Both arguments are
/// zodiac sign indices (0 = Aries .. 11 = Pisces) and are read modulo 12.
pub fn sign_separation(sign1: u8, sign2: u8) -> (r: u8)
    ensures
        r == spec_sign_separation(sign1 as int, sign2 as int),
        r < 12,
{
    let a = sign1 % 12;
    let b = sign2 % 12;
    let r = if b >= a {
        b - a
    } else {
        b + 12 - a
    };
    assert(r as int == (sign2 as int - sign1 as int) % 12) by (nonlinear_arith)
        requires
            a == sign1 % 12,
            b == sign2 % 12,
            r == if b >= a {
                b - a
            } else {
                b + 12 - a
            },
    ;
    r
}

/// The separation counts forward: moving `sign1` forward by it reaches
/// `sign2` (modulo 12); it is zero exactly for the same sign; and the
/// separations taken each way round add up to 0 or to 12.
pub proof fn lemma_sign_separation_forward(sign1: int, sign2: int)
    ensures
        0 <= spec_sign_separation(sign1, sign2) < 12,
        (sign1 + spec_sign_separation(sign1, sign2)) % 12 == sign2 % 12,
        spec_sign_separation(sign1, sign2) == 0 <==> sign1 % 12 == sign2 % 12,
        spec_sign_separation(sign1, sign2) + spec_sign_separation(sign2, sign1) == 0
            || spec_sign_separation(sign1, sign2) + spec_sign_separation(sign2, sign1) == 12,
{
    let s = spec_sign_separation(sign1, sign2);
    let r = spec_sign_separation(sign2, sign1);
    assert((sign1 + s) % 12 == sign2 % 12) by (nonlinear_arith)
        requires
            s == (sign2 - sign1) % 12,
    ;
    assert(s == 0 <==> sign1 % 12 == sign2 % 12) by (nonlinear_arith)
        requires
            s == (sign2 - sign1) % 12,
    ;
    assert(s + r == 0 || s + r == 12) by (nonlinear_arith)
        requires
            s == (sign2 - sign1) % 12,
            r == (sign1 - sign2) % 12,
    ;
}

/// Whether an aspect of type `t` between bodies in signs `sign1` and `sign2`
/// is out of sign (dissociate): their sign separation is not one that the
/// aspect type traditionally spans.
pub open spec fn out_of_sign(sign1: int, sign2: int, t: AspectType) -> bool {
    !expected_separations(t).contains(spec_sign_separation(sign1, sign2) as u8)
}

/// Out-of-sign (dissociate) test on the zodiac signs (0..=11, read modulo
/// 12) that two aspecting bodies occupy: `true` when the forward sign
/// separation from the first to the second body is not one that `t`
/// traditionally spans (e.g. a trine between Aries and Virgo).
pub fn is_out_of_sign_by_signs(sign1: u8, sign2: u8, aspect_type: AspectType) -> (b: bool)
    ensures
        b == out_of_sign(sign1 as int, sign2 as int, aspect_type),
{
    let sep = sign_separation(sign1, sign2);
    assert(spec_sign_separation(sign1 as int, sign2 as int) as u8 == sep);
    let expected = expected_sign_separations(aspect_type);
    let mut i: usize = 0;
    while i < expected.len()
        invariant
            0 <= i <= expected@.len(),
            expected@ == expected_separations(aspect_type),
            sep as int == spec_sign_separation(sign1 as int, sign2 as int),
            forall|j: int| 0 <= j < i ==> expected@[j] != sep,
        decreases expected@.len() - i,
    {
        if expected[i] == sep {
            assert(expected@[i as int] == sep);
            assert(expected_separations(aspect_type).contains(sep));
            return false;
        }
        i = i + 1;
    }
    true
}

/// Out-of-sign status does not depend on which of the two bodies comes
/// first: every aspect type's set of expected sign separations is closed
/// under reading the separation backwards (`s` and `12 - s`).
pub proof fn lemma_out_of_sign_symmetric(sign1: int, sign2: int, t: AspectType)
    ensures
        out_of_sign(sign1, sign2, t) == out_of_sign(sign2, sign1, t),
{
    let s = spec_sign_separation(sign1, sign2);
    let r = spec_sign_separation(sign2, sign1);
    assert(s == 0 ==> r == 0) by (nonlinear_arith)
        requires
            s == (sign2 - sign1) % 12,
            r == (sign1 - sign2) % 12,
    ;
    assert(s != 0 ==> r == 12 - s) by (nonlinear_arith)
        requires
            s == (sign2 - sign1) % 12,
            r == (sign1 - sign2) % 12,
    ;
    let e = expected_separations(t);
    assert(0 <= s < 12);
    assert(e.contains(s as u8) == e.contains(r as u8)) by {
        if e.contains(s as u8) {
            let k = choose|k: int| 0 <= k < e.len() && e[k] == s as u8;
            match t {
                AspectType::Conjunction => { assert(e[0] == r as u8); },
                AspectType::Opposition => { assert(e[0] == r as u8); },
                _ => { assert(e[e.len() - 1 - k] == r as u8); },
            }
        }
        if e.contains(r as u8) {
            let k = choose|k: int| 0 <= k < e.len() && e[k] == r as u8;
            match t {
                AspectType::Conjunction => { assert(e[0] == s as u8); },
                AspectType::Opposition => { assert(e[0] == s as u8); },
                _ => { assert(e[e.len() - 1 - k] == s as u8); },
            }
        }
    }
}

/// The exact angle of an aspect type in sevenths of a degree, so that the
/// septile (360/7 degrees) is whole: the conjunction 0, the opposition 180,
/// the trine 120, the square 90, the sextile 60, the semi-sextile 30, the
/// quincunx 150, the semi-square 45, the sesquiquadrate 135, the quintile 72,
/// the biquintile 144, the septile 360/7, the novile 40 and the decile 36
/// degrees.
pub open spec fn angle_sevenths(t: AspectType) -> int {
    match t {
        AspectType::Conjunction => 0,
        AspectType::Opposition => 1260,
        AspectType::Trine => 840,
        AspectType::Square => 630,
        AspectType::Sextile => 420,
        AspectType::SemiSextile => 210,
        AspectType::Quincunx => 1050,
        AspectType::SemiSquare => 315,
        AspectType::Sesquiquadrate => 945,
        AspectType::Quintile => 504,
        AspectType::BiQuintile => 1008,
        AspectType::Septile => 360,
        AspectType::Novile => 280,
        AspectType::Decile => 252,
    }
}

/// The sign separations expected of an aspect type are exactly those whose
/// span (30 degrees a sign, taken the shorter way round the zodiac) lies
/// less than one sign (30 degrees) from the aspect's exact angle.
pub proof fn lemma_expected_separations_near_angle(t: AspectType, sep: int)
    requires
        0 <= sep < 12,
    ensures
        expected_separations(t).contains(sep as u8) <==> {
            let span = 210 * (if sep <= 6 { sep } else { 12 - sep });
            let gap = if span >= angle_sevenths(t) {
                span - angle_sevenths(t)
            } else {
                angle_sevenths(t) - span
            };
            gap < 210
        },
{
    let e = expected_separations(t);
    let span = 210 * (if sep <= 6 { sep } else { 12 - sep });
    let gap = if span >= angle_sevenths(t) {
        span - angle_sevenths(t)
    } else {
        angle_sevenths(t) - span
    };
    if e.contains(sep as u8) {
        let k = choose|k: int| 0 <= k < e.len() && e[k] == sep as u8;
        assert(gap < 210);
    } else {
        if gap < 210 {
            assert(e[0] == sep as u8 || e[e.len() - 1] == sep as u8 || (e.len() == 4 && (e[1]
                == sep as u8 || e[2] == sep as u8)));
        }
    }
}

/// The catalogues: `major()` lists exactly the major (Ptolemaic) types,
/// `kepler()` exactly the Kepler types, `all()` exactly the types that are
/// not Kepler aspects, in strictly increasing order of angle, and `all_14()`
/// every type; no catalogue lists a type twice.
pub proof fn lemma_catalogues(t: AspectType)
    ensures
        major_types().contains(t) <==> spec_major(t),
        kepler_types().contains(t) <==> spec_kepler(t),
        all_11_types().contains(t) <==> !spec_kepler(t),
        all_14_types().contains(t),
        major_types().no_duplicates(),
        kepler_types().no_duplicates(),
        all_14_types().no_duplicates(),
        forall|i: int, j: int|
            0 <= i < j < all_11_types().len() ==> angle_sevenths(#[trigger] all_11_types()[i])
                < angle_sevenths(#[trigger] all_11_types()[j]),
{
    let m = major_types();
    let k = kepler_types();
    let a = all_11_types();
    let f = all_14_types();
    assert(f =~= seq![
        AspectType::Conjunction,
        AspectType::SemiSextile,
        AspectType::SemiSquare,
        AspectType::Sextile,
        AspectType::Quintile,
        AspectType::Square,
        AspectType::Trine,
        AspectType::Sesquiquadrate,
        AspectType::BiQuintile,
        AspectType::Quincunx,
        AspectType::Opposition,
        AspectType::Septile,
        AspectType::Novile,
        AspectType::Decile,
    ]);
    match t {
        AspectType::Conjunction => { assert(m[0] == t && a[0] == t && f[0] == t); },
        AspectType::Sextile => { assert(m[1] == t && a[3] == t && f[3] == t); },
        AspectType::Square => { assert(m[2] == t && a[5] == t && f[5] == t); },
        AspectType::Trine => { assert(m[3] == t && a[6] == t && f[6] == t); },
        AspectType::Opposition => { assert(m[4] == t && a[10] == t && f[10] == t); },
        AspectType::SemiSextile => { assert(a[1] == t && f[1] == t); },
        AspectType::SemiSquare => { assert(a[2] == t && f[2] == t); },
        AspectType::Quintile => { assert(a[4] == t && f[4] == t); },
        AspectType::Sesquiquadrate => { assert(a[7] == t && f[7] == t); },
        AspectType::BiQuintile => { assert(a[8] == t && f[8] == t); },
        AspectType::Quincunx => { assert(a[9] == t && f[9] == t); },
        AspectType::Septile => { assert(k[0] == t && f[11] == t); },
        AspectType::Novile => { assert(k[1] == t && f[12] == t); },
        AspectType::Decile => { assert(k[2] == t && f[13] == t); },
    }
    assert forall|i: int, j: int|
        0 <= i < j < a.len() implies angle_sevenths(#[trigger] a[i]) < angle_sevenths(
        #[trigger] a[j],
    ) by {
        assert(a.len() == 11);
    }
}

} // verus!

verus! {

/// ASCII lower-casing of one character.
pub open spec fn ascii_lower(c: char) -> char {
    if 'A' <= c && c <= 'Z' {
        ((c as u32) + 32) as char
    } else {
        c
    }
}

/// A name as the parsers compare it: ASCII letters lower-cased, and every
/// `-` and `_` dropped.
pub open spec fn normalize_name(s: Seq<char>) -> Seq<char>
    decreases s.len(),
{
    if s.len() == 0 {
        Seq::empty()
    } else {
        let prev = normalize_name(s.drop_last());
        let c = ascii_lower(s.last());
        if c != '-' && c != '_' {
            prev.push(c)
        } else {
            prev
        }
    }
}

proof fn lemma_normalize_concat(x: Seq<char>, y: Seq<char>)
    ensures
        normalize_name(x + y) == normalize_name(x) + normalize_name(y),
    decreases y.len(),
{
    if y.len() == 0 {
        assert(x + y =~= x);
        assert(normalize_name(x) + normalize_name(y) =~= normalize_name(x));
    } else {
        lemma_normalize_concat(x, y.drop_last());
        assert((x + y).drop_last() =~= x + y.drop_last());
        assert((x + y).last() == y.last());
        let c = ascii_lower(y.last());
        if c != '-' && c != '_' {
            assert((normalize_name(x) + normalize_name(y.drop_last())).push(c) =~= normalize_name(x)
                + normalize_name(y.drop_last()).push(c));
        }
    }
}

/// Names are compared character by character, ignoring ASCII case and
/// separators: the normalized form of two pieces joined is the two
/// normalized forms joined; a `-` or `_` inserted anywhere changes nothing;
/// and an upper-case ASCII letter counts as its lower-case form, so it
/// selects the same aspect type.
pub proof fn lemma_names_ignore_case_and_separators(a: Seq<char>, b: Seq<char>, c: char)
    ensures
        normalize_name(a + b) == normalize_name(a) + normalize_name(b),
        normalize_name(a + seq!['-'] + b) == normalize_name(a + b),
        normalize_name(a + seq!['_'] + b) == normalize_name(a + b),
        'A' <= c <= 'Z' ==> normalize_name(a + seq![c] + b) == normalize_name(
            a + seq![ascii_lower(c)] + b,
        ),
        'A' <= c <= 'Z' ==> 'a' <= ascii_lower(c) <= 'z',
{
    lemma_normalize_concat(a, b);
    lemma_normalize_concat(a + seq!['-'], b);
    lemma_normalize_concat(a, seq!['-']);
    lemma_normalize_concat(a + seq!['_'], b);
    lemma_normalize_concat(a, seq!['_']);
    lemma_normalize_concat(a + seq![c], b);
    lemma_normalize_concat(a, seq![c]);
    lemma_normalize_concat(a + seq![ascii_lower(c)], b);
    lemma_normalize_concat(a, seq![ascii_lower(c)]);
    assert(seq!['-'].drop_last() =~= Seq::<char>::empty());
    assert(seq!['_'].drop_last() =~= Seq::<char>::empty());
    assert(normalize_name(Seq::<char>::empty()) =~= Seq::<char>::empty());
    assert(seq!['-'].last() == '-' && seq!['_'].last() == '_');
    assert(ascii_lower('-') == '-' && ascii_lower('_') == '_');
    assert(normalize_name(seq!['-']) =~= Seq::<char>::empty());
    assert(normalize_name(seq!['_']) =~= Seq::<char>::empty());
    assert(normalize_name(a) + Seq::<char>::empty() =~= normalize_name(a));
    if 'A' <= c <= 'Z' {
        let l = ascii_lower(c);
        assert('a' <= l <= 'z');
        assert(ascii_lower(l) == l);
        assert(seq![c].drop_last() =~= Seq::<char>::empty());
        assert(seq![l].drop_last() =~= Seq::<char>::empty());
        assert(normalize_name(seq![c]) =~= seq![l]);
        assert(normalize_name(seq![l]) =~= seq![l]);
    }
}

fn lower_ascii(c: char) -> (r: char)
    ensures
        r == ascii_lower(c),
{
    if 'A' <= c && c <= 'Z' {
        let b = (c as u8) + 32;
        b as char
    } else {
        c
    }
}

/// The normalized characters of `s` (see [`normalize_name`]).
pub fn normalized_chars(s: &str) -> (r: Vec<char>)
    ensures
        r@ == normalize_name(s@),
{
    broadcast use vstd::string::group_string_axioms;

    let mut out: Vec<char> = Vec::new();
    let ghost mut done: Seq<char> = Seq::empty();
    for c in it: s.chars()
        invariant
            it.seq() == s@,
            done == s@.take(it.index() as int),
            out@ == normalize_name(done),
    {
        proof {
            done = s@.take(it.index() + 1);
        }
        assert(done.drop_last() =~= s@.take(it.index() as int));
        let l = lower_ascii(c);
        if l != '-' && l != '_' {
            out.push(l);
        }
    }
    assert(done =~= s@);
    out
}

/// Whether the characters in `v` spell exactly `s`.
pub fn chars_equal(v: &Vec<char>, s: &str) -> (b: bool)
    ensures
        b == (v@ == s@),
{
    broadcast use vstd::string::group_string_axioms;

    let mut i: usize = 0;
    let ghost mut done: Seq<char> = Seq::empty();
    for c in it: s.chars()
        invariant
            it.seq() == s@,
            done == s@.take(it.index() as int),
            i == it.index(),
            i <= s@.len(),
            i <= v@.len(),
            v@.take(i as int) == done,
    {
        proof {
            done = s@.take(it.index() + 1);
        }
        if i >= v.len() || v[i] != c {
            assert(v@ != s@) by {
                if v@ == s@ {
                    assert(v@[i as int] == s@[i as int]);
                }
            }
            return false;
        }
        assert(v@.take(i + 1) =~= done);
        i = i + 1;
    }
    assert(done =~= s@);
    if i == v.len() {
        assert(v@ =~= v@.take(i as int));
        true
    } else {
        false
    }
}

/// The canonical lower-case name of an aspect type (`snake_case` where the
/// name has two words).
pub open spec fn aspect_name(t: AspectType) -> Seq<char> {
    match t {
        AspectType::Conjunction => "conjunction"@,
        AspectType::Opposition => "opposition"@,
        AspectType::Trine => "trine"@,
        AspectType::Square => "square"@,
        AspectType::Sextile => "sextile"@,
        AspectType::SemiSextile => "semi_sextile"@,
        AspectType::Quincunx => "quincunx"@,
        AspectType::SemiSquare => "semi_square"@,
        AspectType::Sesquiquadrate => "sesquiquadrate"@,
        AspectType::Quintile => "quintile"@,
        AspectType::BiQuintile => "biquintile"@,
        AspectType::Septile => "septile"@,
        AspectType::Novile => "novile"@,
        AspectType::Decile => "decile"@,
    }
}

/// The normalized form (see [`normalize_name`]) under which a name selects
/// an aspect type.
pub open spec fn aspect_key(t: AspectType) -> Seq<char> {
    match t {
        AspectType::Conjunction => "conjunction"@,
        AspectType::Opposition => "opposition"@,
        AspectType::Trine => "trine"@,
        AspectType::Square => "square"@,
        AspectType::Sextile => "sextile"@,
        AspectType::SemiSextile => "semisextile"@,
        AspectType::Quincunx => "quincunx"@,
        AspectType::SemiSquare => "semisquare"@,
        AspectType::Sesquiquadrate => "sesquiquadrate"@,
        AspectType::Quintile => "quintile"@,
        AspectType::BiQuintile => "biquintile"@,
        AspectType::Septile => "septile"@,
        AspectType::Novile => "novile"@,
        AspectType::Decile => "decile"@,
    }
}

/// The canonical name of an aspect type.
pub fn aspect_type_name(t: AspectType) -> (s: &'static str)
    ensures
        s@ == aspect_name(t),
{
    match t {
        AspectType::Conjunction => "conjunction",
        AspectType::Opposition => "opposition",
        AspectType::Trine => "trine",
        AspectType::Square => "square",
        AspectType::Sextile => "sextile",
        AspectType::SemiSextile => "semi_sextile",
        AspectType::Quincunx => "quincunx",
        AspectType::SemiSquare => "semi_square",
        AspectType::Sesquiquadrate => "sesquiquadrate",
        AspectType::Quintile => "quintile",
        AspectType::BiQuintile => "biquintile",
        AspectType::Septile => "septile",
        AspectType::Novile => "novile",
        AspectType::Decile => "decile",
    }
}

fn aspect_type_key(t: AspectType) -> (s: &'static str)
    ensures
        s@ == aspect_key(t),
{
    match t {
        AspectType::Conjunction => "conjunction",
        AspectType::Opposition => "opposition",
        AspectType::Trine => "trine",
        AspectType::Square => "square",
        AspectType::Sextile => "sextile",
        AspectType::SemiSextile => "semisextile",
        AspectType::Quincunx => "quincunx",
        AspectType::SemiSquare => "semisquare",
        AspectType::Sesquiquadrate => "sesquiquadrate",
        AspectType::Quintile => "quintile",
        AspectType::BiQuintile => "biquintile",
        AspectType::Septile => "septile",
        AspectType::Novile => "novile",
        AspectType::Decile => "decile",
    }
}

/// Parse an aspect type from its name, case-insensitively and ignoring `-`
/// and `_` (so "semi_sextile", "Semi-Sextile" and "semisextile" all give
/// `SemiSextile`). `None` for a name that selects no aspect type.
pub fn aspect_type_from_name(name: &str) -> (r: Option<AspectType>)
    ensures
        r matches Some(t) ==> normalize_name(name@) == aspect_key(t),
        r is None ==> forall|t: AspectType| normalize_name(name@) != aspect_key(t),
{
    let key = normalized_chars(name);
    let types = AspectType::all_14();
    let mut i: usize = 0;
    while i < types.len()
        invariant
            0 <= i <= types@.len(),
            types@ == all_14_types(),
            key@ == normalize_name(name@),
            forall|j: int| 0 <= j < i ==> key@ != aspect_key(#[trigger] types@[j]),
        decreases types@.len() - i,
    {
        let t = types[i];
        if chars_equal(&key, aspect_type_key(t)) {
            return Some(t);
        }
        i = i + 1;
    }
    assert forall|t: AspectType| key@ != aspect_key(t) by {
        assert(all_14_types().contains(t)) by {
            let s = all_14_types();
            match t {
                AspectType::Conjunction => { assert(s[0] == t); },
                AspectType::SemiSextile => { assert(s[1] == t); },
                AspectType::SemiSquare => { assert(s[2] == t); },
                AspectType::Sextile => { assert(s[3] == t); },
                AspectType::Quintile => { assert(s[4] == t); },
                AspectType::Square => { assert(s[5] == t); },
                AspectType::Trine => { assert(s[6] == t); },
                AspectType::Sesquiquadrate => { assert(s[7] == t); },
                AspectType::BiQuintile => { assert(s[8] == t); },
                AspectType::Quincunx => { assert(s[9] == t); },
                AspectType::Opposition => { assert(s[10] == t); },
                AspectType::Septile => { assert(s[11] == t); },
                AspectType::Novile => { assert(s[12] == t); },
                AspectType::Decile => { assert(s[13] == t); },
            }
        }
    }
    None
}

} // verus!

verus! {

/// The canonical name of every aspect type selects that type when parsed:
/// it normalizes to the type's key, and no other type has that key. With the
/// contract of [`aspect_type_from_name`], parsing `aspect_type_name(t)`
/// gives `Some(t)`.
pub proof fn lemma_aspect_name_roundtrip(t: AspectType)
    ensures
        normalize_name(aspect_name(t)) == aspect_key(t),
        forall|u: AspectType| aspect_key(u) == aspect_key(t) ==> u == t,
{
    lemma_aspect_name_normalizes(t);
    assert forall|u: AspectType| aspect_key(u) == aspect_key(t) implies u == t by {
        if u != t {
            lemma_aspect_keys_distinct(u, t);
        }
    }
}

#[verifier::rlimit(100)]
#[verifier::spinoff_prover]
proof fn lemma_aspect_name_normalizes(t: AspectType)
    ensures
        normalize_name(aspect_name(t)) == aspect_key(t),
{
    match t {
        AspectType::Conjunction => {
            assert(normalize_name(aspect_name(t)) =~= aspect_key(t)) by {
                reveal_strlit("conjunction");
                reveal_strlit("conjunction");
                reveal_with_fuel(normalize_name, 15);
            }
        },
        AspectType::Opposition => {
            assert(normalize_name(aspect_name(t)) =~= aspect_key(t)) by {
                reveal_strlit("opposition");
                reveal_strlit("opposition");
                reveal_with_fuel(normalize_name, 15);
            }
        },
        AspectType::Trine => {
            assert(normalize_name(aspect_name(t)) =~= aspect_key(t)) by {
                reveal_strlit("trine");
                reveal_strlit("trine");
                reveal_with_fuel(normalize_name, 15);
            }
        },
        AspectType::Square => {
            assert(normalize_name(aspect_name(t)) =~= aspect_key(t)) by {
                reveal_strlit("square");
                reveal_strlit("square");
                reveal_with_fuel(normalize_name, 15);
            }
        },
        AspectType::Sextile => {
            assert(normalize_name(aspect_name(t)) =~= aspect_key(t)) by {
                reveal_strlit("sextile");
                reveal_strlit("sextile");
                reveal_with_fuel(normalize_name, 15);
            }
        },
        AspectType::SemiSextile => {
            assert(normalize_name(aspect_name(t)) =~= aspect_key(t)) by {
                reveal_strlit("semi_sextile");
                reveal_strlit("semisextile");
                reveal_with_fuel(normalize_name, 15);
            }
        },
        AspectType::Quincunx => {
            assert(normalize_name(aspect_name(t)) =~= aspect_key(t)) by {
                reveal_strlit("quincunx");
                reveal_strlit("quincunx");
                reveal_with_fuel(normalize_name, 15);
            }
        },
        AspectType::SemiSquare => {
            assert(normalize_name(aspect_name(t)) =~= aspect_key(t)) by {
                reveal_strlit("semi_square");
                reveal_strlit("semisquare");
                reveal_with_fuel(normalize_name, 15);
            }
        },
        AspectType::Sesquiquadrate => {
            assert(normalize_name(aspect_name(t)) =~= aspect_key(t)) by {
                reveal_strlit("sesquiquadrate");
                reveal_strlit("sesquiquadrate");
                reveal_with_fuel(normalize_name, 15);
            }
        },
        AspectType::Quintile => {
            assert(normalize_name(aspect_name(t)) =~= aspect_key(t)) by {
                reveal_strlit("quintile");
                reveal_strlit("quintile");
                reveal_with_fuel(normalize_name, 15);
            }
        },
        AspectType::BiQuintile => {
            assert(normalize_name(aspect_name(t)) =~= aspect_key(t)) by {
                reveal_strlit("biquintile");
                reveal_strlit("biquintile");
                reveal_with_fuel(normalize_name, 15);
            }
        },
        AspectType::Septile => {
            assert(normalize_name(aspect_name(t)) =~= aspect_key(t)) by {
                reveal_strlit("septile");
                reveal_strlit("septile");
                reveal_with_fuel(normalize_name, 15);
            }
        },
        AspectType::Novile => {
            assert(normalize_name(aspect_name(t)) =~= aspect_key(t)) by {
                reveal_strlit("novile");
                reveal_strlit("novile");
                reveal_with_fuel(normalize_name, 15);
            }
        },
        AspectType::Decile => {
            assert(normalize_name(aspect_name(t)) =~= aspect_key(t)) by {
                reveal_strlit("decile");
                reveal_strlit("decile");
                reveal_with_fuel(normalize_name, 15);
            }
        },
    }
}

proof fn lemma_aspect_keys_distinct(u: AspectType, t: AspectType)
    requires
        u != t,
    ensures
        aspect_key(u) != aspect_key(t),
{
    reveal_strlit("biquintile");
    reveal_strlit("conjunction");
    reveal_strlit("decile");
    reveal_strlit("novile");
    reveal_strlit("opposition");
    reveal_strlit("quincunx");
    reveal_strlit("quintile");
    reveal_strlit("semisextile");
    reveal_strlit("semisquare");
    reveal_strlit("septile");
    reveal_strlit("sesquiquadrate");
    reveal_strlit("sextile");
    reveal_strlit("square");
    reveal_strlit("trine");
    let a = aspect_key(u);
    let b = aspect_key(t);
    if a.len() == b.len() {
        assert(a[0] != b[0] || a[2] != b[2] || a[4] != b[4]);
    }
}

} // verus!
