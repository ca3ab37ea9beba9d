//! Aspect-pattern detection over a list of aspects between named bodies,
//! each pattern reported with its bodies and the aspects that make it up.

use vstd::prelude::*;
use vstd::relations::{sorted_by, total_ordering};
use crate::aspects::AspectType;
use crate::patterns::{
    concat_range, dedup, found, lemma_found, lemma_loop_round, lemma_concat_range_step,
    lemma_dedup_step, lemma_add_assoc, all_satisfy, lemma_concat_range_all, lemma_all_satisfy_add,
    lemma_found_all, lemma_dedup_contains, lemma_concat_range_contains, AspectPattern, AspectPatternType,
};

verus! {

/// The order of body numbers.
pub open spec fn body_le() -> spec_fn(u64, u64) -> bool {
    |a: u64, b: u64| a <= b
}

proof fn lemma_body_le_total()
    ensures
        total_ordering(body_le()),
{
}

proof fn lemma_multiset_insert_at(s: Seq<u64>, p: int, x: u64)
    requires
        0 <= p <= s.len(),
    ensures
        s.insert(p, x).to_multiset() == s.to_multiset().insert(x),
{
    broadcast use vstd::seq_lib::group_to_multiset_ensures;
    broadcast use vstd::multiset::group_multiset_axioms;

    let t = s.insert(p, x);
    assert(t.remove(p) =~= s);
    assert(t[p] == x);
    assert(t.to_multiset().count(x) > 0) by {
        assert(t.contains(x));
    }
    assert(t.to_multiset() =~= s.to_multiset().insert(x));
}

/// The bodies sorted into ascending order: the canonical key under which
/// two patterns over the same bodies are recognized as one.
pub fn sorted_bodies(bodies: &[u64]) -> (r: Vec<u64>)
    ensures
        r@ == bodies@.sort_by(body_le()),
{
    let mut r: Vec<u64> = Vec::new();
    let mut i: usize = 0;
    proof {
        broadcast use vstd::seq_lib::group_to_multiset_ensures;

        assert(bodies@.take(0) =~= Seq::<u64>::empty());
        assert(r@ =~= Seq::<u64>::empty());
    }
    while i < bodies.len()
        invariant
            0 <= i <= bodies@.len(),
            sorted_by(r@, body_le()),
            r@.to_multiset() == bodies@.take(i as int).to_multiset(),
        decreases bodies@.len() - i,
    {
        let x = bodies[i];
        let mut p: usize = 0;
        while p < r.len() && r[p] <= x
            invariant
                0 <= p <= r@.len(),
                forall|k: int| 0 <= k < p ==> r@[k] <= x,
            decreases r@.len() - p,
        {
            p = p + 1;
        }
        let ghost old_r = r@;
        r.insert(p, x);
        proof {
            lemma_multiset_insert_at(old_r, p as int, x);
            broadcast use vstd::seq_lib::group_to_multiset_ensures;

            assert(bodies@.take(i + 1) =~= bodies@.take(i as int).push(x));
            assert forall|a: int, b: int| 0 <= a < b < r@.len() implies #[trigger] (body_le())(
                r@[a],
                r@[b],
            ) by {
                if p < old_r.len() {
                    assert(old_r[p as int] > x);
                }
                if b < p {
                } else if b == p {
                    assert(r@[a] == old_r[a]);
                } else if a < p {
                    assert(r@[b] == old_r[b - 1]);
                    assert(p < old_r.len());
                    assert(body_le()(old_r[p as int], old_r[b - 1]));
                } else if a == p {
                    assert(r@[b] == old_r[b - 1]);
                    assert(body_le()(old_r[p as int], old_r[b - 1]));
                } else {
                    assert(body_le()(old_r[a - 1], old_r[b - 1]));
                }
            }
        }
        i = i + 1;
    }
    proof {
        assert(bodies@.take(i as int) =~= bodies@);
        lemma_body_le_total();
        bodies@.lemma_sort_by_ensures(body_le());
        vstd::seq_lib::lemma_sorted_unique(r@, bodies@.sort_by(body_le()), body_le());
    }
    r
}

// ---------------------------------------------------------------------------
// Aspects between named bodies
// ---------------------------------------------------------------------------

/// One aspect found between two bodies, as pattern detection reads it.
///
/// Bodies are numbered so that the numbers sort the way the body names do.
#[derive(Debug, Clone, Copy, PartialEq, Eq, Structural)]
pub struct AspectLink {
    pub aspect_type: AspectType,
    pub body1: u64,
    pub body2: u64,
}

/// A detected pattern: its bodies and the positions, in the input list, of
/// the aspects that make it up.
#[derive(Debug, Clone)]
pub struct AspectPatternMatch {
    pub pattern_type: AspectPatternType,
    pub bodies: Vec<u64>,
    pub aspects: Vec<usize>,
}

/// A pattern as contracts see it: kind, bodies, aspect positions.
pub type MatchView = (AspectPattern, Seq<u64>, Seq<usize>);

impl View for AspectPatternMatch {
    type V = MatchView;

    open spec fn view(&self) -> MatchView {
        (self.pattern_type, self.bodies@, self.aspects@)
    }
}

pub open spec fn match_views(v: Seq<AspectPatternMatch>) -> Seq<MatchView> {
    v.map_values(|m: AspectPatternMatch| m@)
}

/// The link has `b` at one of its ends.
pub open spec fn touches(l: AspectLink, b: u64) -> bool {
    l.body1 == b || l.body2 == b
}

/// The link is an aspect of type `t` between `a` and `b`, either way round.
pub open spec fn joins(l: AspectLink, t: AspectType, a: u64, b: u64) -> bool {
    l.aspect_type == t && ((l.body1 == a && l.body2 == b) || (l.body1 == b && l.body2 == a))
}

/// The end of the link that is not `known` (its second body when the first
/// is `known`, else its first).
pub open spec fn far_end(l: AspectLink, known: u64) -> u64 {
    if l.body1 == known {
        l.body2
    } else {
        l.body1
    }
}

pub open spec fn type_member_fn(links: Seq<AspectLink>, t: AspectType) -> spec_fn(int) -> Seq<
    usize,
> {
    |i: int| found(links[i].aspect_type == t, i as usize)
}

/// The positions of the links of type `t`, ascending.
pub open spec fn indices_of_type(links: Seq<AspectLink>, t: AspectType) -> Seq<usize> {
    concat_range(0, links.len() as int, type_member_fn(links, t))
}

pub open spec fn touching_fn(links: Seq<AspectLink>, idx: Seq<usize>, b: u64) -> spec_fn(
    int,
) -> Seq<usize> {
    |k: int| found(touches(links[idx[k] as int], b), idx[k])
}

/// The positions in `idx` whose links touch `b`, in the order of `idx`.
pub open spec fn touching(links: Seq<AspectLink>, idx: Seq<usize>, b: u64) -> Seq<usize> {
    concat_range(0, idx.len() as int, touching_fn(links, idx, b))
}

pub open spec fn first_between_from(
    links: Seq<AspectLink>,
    t: AspectType,
    a: u64,
    b: u64,
    lo: int,
) -> Option<usize>
    decreases links.len() - lo,
{
    if lo < 0 || lo >= links.len() {
        None
    } else if joins(links[lo], t, a, b) {
        Some(lo as usize)
    } else {
        first_between_from(links, t, a, b, lo + 1)
    }
}

/// The position of the first link of type `t` between `a` and `b`.
pub open spec fn first_between(links: Seq<AspectLink>, t: AspectType, a: u64, b: u64) -> Option<
    usize,
> {
    first_between_from(links, t, a, b, 0)
}

pub open spec fn all_below(idx: Seq<usize>, n: int) -> bool {
    forall|k: int| 0 <= k < idx.len() ==> idx[k] < n
}

/// The positions of the aspects of type `aspect_type`, in input order.
fn of_type(aspects: &[AspectLink], aspect_type: AspectType) -> (r: Vec<usize>)
    ensures
        r@ == indices_of_type(aspects@, aspect_type),
        all_below(r@, aspects@.len() as int),
        forall|k: int| 0 <= k < r@.len() ==> aspects@[r@[k] as int].aspect_type == aspect_type,
        forall|i: int|
            0 <= i < aspects@.len() && aspects@[i].aspect_type == aspect_type ==> r@.contains(
                i as usize,
            ),
        aspects@.len() <= usize::MAX,
{
    let mut r: Vec<usize> = Vec::new();
    let mut i: usize = 0;
    while i < aspects.len()
        invariant
            0 <= i <= aspects@.len(),
            r@ == concat_range(0, i as int, type_member_fn(aspects@, aspect_type)),
            all_below(r@, i as int),
            forall|j: int|
                0 <= j < i && aspects@[j].aspect_type == aspect_type ==> r@.contains(j as usize),
            forall|k: int|
                0 <= k < r@.len() ==> aspects@[r@[k] as int].aspect_type == aspect_type,
        decreases aspects@.len() - i,
    {
        let ghost before = r@;
        let hit = aspects[i].aspect_type == aspect_type;
        if hit {
            r.push(i);
            assert(r@[r@.len() - 1] == i);
        }
        proof {
            assert forall|j: int|
                0 <= j < i + 1 && aspects@[j].aspect_type == aspect_type implies r@.contains(
                j as usize,
            ) by {
                if j < i {
                    let w = choose|w: int| 0 <= w < before.len() && before[w] == j as usize;
                    assert(r@[w] == j as usize);
                }
            }
            lemma_found(before, hit, i as usize);
            lemma_loop_round(
                Seq::<usize>::empty(),
                before,
                r@,
                0,
                i as int,
                type_member_fn(aspects@, aspect_type),
            );
            assert(Seq::<usize>::empty() + concat_range(
                0,
                i + 1,
                type_member_fn(aspects@, aspect_type),
            ) =~= concat_range(0, i + 1, type_member_fn(aspects@, aspect_type)));
            assert(Seq::<usize>::empty() + before =~= before);
        }
        i = i + 1;
    }
    r
}

/// The positions in `idx` whose aspects have `body` at one end.
fn touching_exec(aspects: &[AspectLink], idx: &Vec<usize>, body: u64) -> (r: Vec<usize>)
    requires
        all_below(idx@, aspects@.len() as int),
    ensures
        r@ == touching(aspects@, idx@, body),
        all_below(r@, aspects@.len() as int),
{
    let mut r: Vec<usize> = Vec::new();
    let mut k: usize = 0;
    while k < idx.len()
        invariant
            all_below(idx@, aspects@.len() as int),
            0 <= k <= idx@.len(),
            r@ == concat_range(0, k as int, touching_fn(aspects@, idx@, body)),
            all_below(r@, aspects@.len() as int),
        decreases idx@.len() - k,
    {
        let ghost before = r@;
        let x = idx[k];
        let hit = aspects[x].body1 == body || aspects[x].body2 == body;
        if hit {
            r.push(x);
        }
        proof {
            lemma_found(before, hit, x);
            lemma_loop_round(
                Seq::<usize>::empty(),
                before,
                r@,
                0,
                k as int,
                touching_fn(aspects@, idx@, body),
            );
            assert(Seq::<usize>::empty() + concat_range(
                0,
                k + 1,
                touching_fn(aspects@, idx@, body),
            ) =~= concat_range(0, k + 1, touching_fn(aspects@, idx@, body)));
            assert(Seq::<usize>::empty() + before =~= before);
        }
        k = k + 1;
    }
    r
}

/// The position of the first aspect of type `aspect_type` between `body1`
/// and `body2` (in either order), if there is one.
fn find_between(aspects: &[AspectLink], aspect_type: AspectType, body1: u64, body2: u64) -> (r:
    Option<usize>)
    ensures
        r == first_between(aspects@, aspect_type, body1, body2),
        r matches Some(i) ==> i < aspects@.len() && joins(aspects@[i as int], aspect_type, body1, body2),
{
    let mut i: usize = 0;
    while i < aspects.len()
        invariant
            0 <= i <= aspects@.len(),
            first_between(aspects@, aspect_type, body1, body2) == first_between_from(
                aspects@,
                aspect_type,
                body1,
                body2,
                i as int,
            ),
        decreases aspects@.len() - i,
    {
        let a = aspects[i];
        if a.aspect_type == aspect_type && ((a.body1 == body1 && a.body2 == body2) || (a.body1
            == body2 && a.body2 == body1)) {
            return Some(i);
        }
        i = i + 1;
    }
    None
}

/// The end of `aspect` that is not `known`.
fn other_body(aspect: &AspectLink, known: u64) -> (r: u64)
    ensures
        r == far_end(*aspect, known),
{
    if aspect.body1 == known {
        aspect.body2
    } else {
        aspect.body1
    }
}

// ---------------------------------------------------------------------------
// One pattern per set of bodies
// ---------------------------------------------------------------------------

/// The key under which two patterns over the same bodies are one: the
/// bodies in ascending order.
pub open spec fn body_key(m: MatchView) -> Seq<u64> {
    m.1.sort_by(body_le())
}

pub open spec fn body_keys(s: Seq<MatchView>) -> Seq<Seq<u64>> {
    s.map_values(|m: MatchView| body_key(m))
}

/// `s` with every pattern dropped whose bodies an earlier kept pattern
/// already covers.
pub open spec fn dedup_by_bodies(s: Seq<MatchView>) -> Seq<MatchView>
    decreases s.len(),
{
    if s.len() == 0 {
        Seq::empty()
    } else {
        let prev = dedup_by_bodies(s.drop_last());
        if body_keys(prev).contains(body_key(s.last())) {
            prev
        } else {
            prev.push(s.last())
        }
    }
}

pub open spec fn key_views(v: Seq<Vec<u64>>) -> Seq<Seq<u64>> {
    v.map_values(|k: Vec<u64>| k@)
}

/// The output and the keys seen so far after offering `cands`.
pub open spec fn dedup_state(
    out: Seq<AspectPatternMatch>,
    seen: Seq<Vec<u64>>,
    cands: Seq<MatchView>,
) -> bool {
    &&& match_views(out) == dedup_by_bodies(cands)
    &&& key_views(seen) == body_keys(match_views(out))
}

fn same_bodies(a: &Vec<u64>, b: &Vec<u64>) -> (r: bool)
    ensures
        r == (a@ == b@),
{
    if a.len() != b.len() {
        return false;
    }
    let mut i: usize = 0;
    while i < a.len()
        invariant
            a@.len() == b@.len(),
            0 <= i <= a@.len(),
            forall|k: int| 0 <= k < i ==> a@[k] == b@[k],
        decreases a@.len() - i,
    {
        if a[i] != b[i] {
            return false;
        }
        i = i + 1;
    }
    assert(a@ =~= b@);
    true
}

fn contains_key(seen: &Vec<Vec<u64>>, key: &Vec<u64>) -> (r: bool)
    ensures
        r == key_views(seen@).contains(key@),
{
    let mut i: usize = 0;
    while i < seen.len()
        invariant
            0 <= i <= seen@.len(),
            forall|k: int| 0 <= k < i ==> seen@[k]@ != key@,
        decreases seen@.len() - i,
    {
        if same_bodies(&seen[i], key) {
            assert(key_views(seen@)[i as int] == key@);
            return true;
        }
        i = i + 1;
    }
    assert(!key_views(seen@).contains(key@)) by {
        if key_views(seen@).contains(key@) {
            let k = choose|k: int| 0 <= k < key_views(seen@).len() && key_views(seen@)[k] == key@;
            assert(seen@[k]@ == key@);
        }
    }
    false
}

/// Offer one candidate: keep it unless a kept pattern has the same bodies.
fn offer(
    out: &mut Vec<AspectPatternMatch>,
    seen: &mut Vec<Vec<u64>>,
    Ghost(cands): Ghost<Seq<MatchView>>,
    m: AspectPatternMatch,
)
    requires
        dedup_state(old(out)@, old(seen)@, cands),
    ensures
        dedup_state(final(out)@, final(seen)@, cands.push(m@)),
{
    let ghost mv = m@;
    let key = sorted_bodies(m.bodies.as_slice());
    assert(cands.push(mv).drop_last() =~= cands);
    if !contains_key(seen, &key) {
        let ghost old_out = match_views(out@);
        let ghost old_seen = key_views(seen@);
        seen.push(key);
        out.push(m);
        assert(match_views(out@) =~= old_out.push(mv));
        assert(key_views(seen@) =~= old_seen.push(body_key(mv)));
        assert(body_keys(old_out.push(mv)) =~= body_keys(old_out).push(body_key(mv)));
    }
}

// ---------------------------------------------------------------------------
// T-Square and Yod: a base aspect whose two ends share an apex
// ---------------------------------------------------------------------------

/// The candidate from base link `base` and arm links `arm1` (from the base's
/// first body) and `arm2` (from its second body): both arms must reach the
/// same apex, which is neither end of the base.
pub open spec fn focal_candidate(
    links: Seq<AspectLink>,
    pattern: AspectPattern,
    base: usize,
    arm1: usize,
    arm2: usize,
) -> Seq<MatchView> {
    let l = links[base as int];
    let apex1 = far_end(links[arm1 as int], l.body1);
    let apex2 = far_end(links[arm2 as int], l.body2);
    found(
        apex1 == apex2 && apex1 != l.body1 && apex1 != l.body2,
        (pattern, seq![l.body1, l.body2, apex1], seq![base, arm1, arm2]),
    )
}

pub open spec fn focal_arm2_fn(
    links: Seq<AspectLink>,
    pattern: AspectPattern,
    base: usize,
    arm1: usize,
    from2: Seq<usize>,
) -> spec_fn(int) -> Seq<MatchView> {
    |y: int| focal_candidate(links, pattern, base, arm1, from2[y])
}

pub open spec fn focal_arm1(
    links: Seq<AspectLink>,
    pattern: AspectPattern,
    base: usize,
    arm1: usize,
    from2: Seq<usize>,
) -> Seq<MatchView> {
    concat_range(0, from2.len() as int, focal_arm2_fn(links, pattern, base, arm1, from2))
}

pub open spec fn focal_arm1_fn(
    links: Seq<AspectLink>,
    pattern: AspectPattern,
    base: usize,
    from1: Seq<usize>,
    from2: Seq<usize>,
) -> spec_fn(int) -> Seq<MatchView> {
    |x: int| focal_arm1(links, pattern, base, from1[x], from2)
}

/// The candidates on one base link, arms tried in input order.
pub open spec fn focal_base(
    links: Seq<AspectLink>,
    pattern: AspectPattern,
    arm_type: AspectType,
    base: usize,
) -> Seq<MatchView> {
    let arms = indices_of_type(links, arm_type);
    let from1 = touching(links, arms, links[base as int].body1);
    let from2 = touching(links, arms, links[base as int].body2);
    concat_range(0, from1.len() as int, focal_arm1_fn(links, pattern, base, from1, from2))
}

pub open spec fn focal_base_fn(
    links: Seq<AspectLink>,
    pattern: AspectPattern,
    bases: Seq<usize>,
    arm_type: AspectType,
) -> spec_fn(int) -> Seq<MatchView> {
    |a: int| focal_base(links, pattern, arm_type, bases[a])
}

/// Every candidate, base links tried in input order.
pub open spec fn focal_candidates(
    links: Seq<AspectLink>,
    pattern: AspectPattern,
    base_type: AspectType,
    arm_type: AspectType,
) -> Seq<MatchView> {
    let bases = indices_of_type(links, base_type);
    concat_range(0, bases.len() as int, focal_base_fn(links, pattern, bases, arm_type))
}

/// T-Squares: an opposition whose two ends square a common apex; one per
/// set of three bodies.
pub open spec fn t_squares(links: Seq<AspectLink>) -> Seq<MatchView> {
    dedup_by_bodies(
        focal_candidates(links, AspectPattern::TSquare, AspectType::Opposition, AspectType::Square),
    )
}

/// Yods: a sextile whose two ends are quincunx to a common apex; one per set
/// of three bodies, and none unless there is a sextile and two quincunxes.
pub open spec fn yods(links: Seq<AspectLink>) -> Seq<MatchView> {
    if indices_of_type(links, AspectType::Sextile).len() == 0 || indices_of_type(
        links,
        AspectType::Quincunx,
    ).len() < 2 {
        Seq::empty()
    } else {
        dedup_by_bodies(
            focal_candidates(links, AspectPattern::Yod, AspectType::Sextile, AspectType::Quincunx),
        )
    }
}

fn focal_named(
    aspects: &[AspectLink],
    pattern: AspectPattern,
    base_type: AspectType,
    arm_type: AspectType,
) -> (r: Vec<AspectPatternMatch>)
    ensures
        match_views(r@) == dedup_by_bodies(focal_candidates(aspects@, pattern, base_type, arm_type)),
{
    let bases = of_type(aspects, base_type);
    let arms = of_type(aspects, arm_type);
    let mut out: Vec<AspectPatternMatch> = Vec::new();
    let mut seen: Vec<Vec<u64>> = Vec::new();
    let ghost mut cands: Seq<MatchView> = Seq::empty();
    assert(match_views(out@) =~= Seq::<MatchView>::empty());
    assert(key_views(seen@) =~= Seq::<Seq<u64>>::empty());
    assert(body_keys(Seq::<MatchView>::empty()) =~= Seq::<Seq<u64>>::empty());
    let mut a: usize = 0;
    while a < bases.len()
        invariant
            bases@ == indices_of_type(aspects@, base_type),
            all_below(bases@, aspects@.len() as int),
            arms@ == indices_of_type(aspects@, arm_type),
            all_below(arms@, aspects@.len() as int),
            0 <= a <= bases@.len(),
            cands == concat_range(0, a as int, focal_base_fn(aspects@, pattern, bases@, arm_type)),
            dedup_state(out@, seen@, cands),
        decreases bases@.len() - a,
    {
        let base = bases[a];
        let l = aspects[base];
        let from1 = touching_exec(aspects, &arms, l.body1);
        let from2 = touching_exec(aspects, &arms, l.body2);
        let ghost before_a = cands;
        let mut x: usize = 0;
        while x < from1.len()
            invariant
                all_below(from1@, aspects@.len() as int),
                all_below(from2@, aspects@.len() as int),
                base < aspects@.len(),
                l == aspects@[base as int],
                0 <= x <= from1@.len(),
                cands == before_a + concat_range(
                    0,
                    x as int,
                    focal_arm1_fn(aspects@, pattern, base, from1@, from2@),
                ),
                dedup_state(out@, seen@, cands),
            decreases from1@.len() - x,
        {
            let s1 = from1[x];
            let apex1 = other_body(&aspects[s1], l.body1);
            let ghost before_x = cands;
            let mut y: usize = 0;
            while y < from2.len()
                invariant
                    all_below(from2@, aspects@.len() as int),
                    base < aspects@.len(),
                    s1 < aspects@.len(),
                    l == aspects@[base as int],
                    apex1 == far_end(aspects@[s1 as int], l.body1),
                    0 <= y <= from2@.len(),
                    cands == before_x + concat_range(
                        0,
                        y as int,
                        focal_arm2_fn(aspects@, pattern, base, s1, from2@),
                    ),
                    dedup_state(out@, seen@, cands),
                decreases from2@.len() - y,
            {
                let s2 = from2[y];
                let apex2 = other_body(&aspects[s2], l.body2);
                let hit = apex1 == apex2 && apex1 != l.body1 && apex1 != l.body2;
                let ghost before_y = cands;
                let ghost mv: MatchView = (
                    pattern,
                    seq![l.body1, l.body2, apex1],
                    seq![base, s1, s2],
                );
                if hit {
                    let m = AspectPatternMatch {
                        pattern_type: pattern,
                        bodies: vec![l.body1, l.body2, apex1],
                        aspects: vec![base, s1, s2],
                    };
                    assert(m@ == mv) by {
                        assert(m.bodies@ =~= mv.1);
                        assert(m.aspects@ =~= mv.2);
                    }
                    offer(&mut out, &mut seen, Ghost(cands), m);
                }
                proof {
                    lemma_found(before_y, hit, mv);
                    cands = before_y + found(hit, mv);
                    lemma_loop_round(
                        before_x,
                        before_y,
                        cands,
                        0,
                        y as int,
                        focal_arm2_fn(aspects@, pattern, base, s1, from2@),
                    );
                }
                y = y + 1;
            }
            proof {
                lemma_loop_round(
                    before_a,
                    before_x,
                    cands,
                    0,
                    x as int,
                    focal_arm1_fn(aspects@, pattern, base, from1@, from2@),
                );
            }
            x = x + 1;
        }
        proof {
            lemma_concat_range_step(0, a as int, focal_base_fn(aspects@, pattern, bases@, arm_type));
        }
        a = a + 1;
    }
    out
}

/// Detect T-Squares: an opposition whose two ends both square a common apex.
///
/// Each result lists `[opposition body1, opposition body2, apex]` and the
/// positions of `[opposition, square from body1, square from body2]`;
/// oppositions and squares are tried in input order, and a set of three
/// bodies is reported once.
pub fn detect_t_square_named(aspects: &[AspectLink]) -> (r: Vec<AspectPatternMatch>)
    ensures
        match_views(r@) == t_squares(aspects@),
{
    focal_named(aspects, AspectPattern::TSquare, AspectType::Opposition, AspectType::Square)
}

/// Detect Yods ("Finger of God"): a sextile whose two ends are both
/// quincunx to a common apex.
///
/// Each result lists `[sextile body1, sextile body2, apex]` and the
/// positions of `[sextile, quincunx from body1, quincunx from body2]`; a set
/// of three bodies is reported once, and nothing is reported without a
/// sextile and at least two quincunxes.
pub fn detect_yod_named(aspects: &[AspectLink]) -> (r: Vec<AspectPatternMatch>)
    ensures
        match_views(r@) == yods(aspects@),
{
    let sextiles = of_type(aspects, AspectType::Sextile);
    let quincunxes = of_type(aspects, AspectType::Quincunx);
    if sextiles.len() == 0 || quincunxes.len() < 2 {
        return Vec::new();
    }
    focal_named(aspects, AspectPattern::Yod, AspectType::Sextile, AspectType::Quincunx)
}

// ---------------------------------------------------------------------------
// Grand Trine
// ---------------------------------------------------------------------------

pub open spec fn endpoints_fn(links: Seq<AspectLink>, idx: Seq<usize>) -> spec_fn(int) -> Seq<
    u64,
> {
    |x: int| seq![links[idx[x] as int].body1, links[idx[x] as int].body2]
}

/// The bodies that some trine touches, in order of first appearance.
pub open spec fn trine_bodies(links: Seq<AspectLink>) -> Seq<u64> {
    let trines = indices_of_type(links, AspectType::Trine);
    dedup(concat_range(0, trines.len() as int, endpoints_fn(links, trines)))
}

/// The Grand Trine on bodies `a`, `b`, `c`, when all three trines exist.
pub open spec fn grand_trine_on(links: Seq<AspectLink>, a: u64, b: u64, c: u64) -> Seq<MatchView> {
    let ab = first_between(links, AspectType::Trine, a, b);
    let bc = first_between(links, AspectType::Trine, b, c);
    let ac = first_between(links, AspectType::Trine, a, c);
    if ab is Some && bc is Some && ac is Some {
        seq![(AspectPattern::GrandTrine, seq![a, b, c], seq![ab->0, bc->0, ac->0])]
    } else {
        Seq::empty()
    }
}

pub open spec fn gt_k_fn(links: Seq<AspectLink>, bodies: Seq<u64>, i: int, j: int) -> spec_fn(
    int,
) -> Seq<MatchView> {
    |k: int| grand_trine_on(links, bodies[i], bodies[j], bodies[k])
}

pub open spec fn gt_ij(links: Seq<AspectLink>, bodies: Seq<u64>, i: int, j: int) -> Seq<MatchView> {
    concat_range(j + 1, bodies.len() as int, gt_k_fn(links, bodies, i, j))
}

pub open spec fn gt_j_fn(links: Seq<AspectLink>, bodies: Seq<u64>, i: int) -> spec_fn(int) -> Seq<
    MatchView,
> {
    |j: int| gt_ij(links, bodies, i, j)
}

pub open spec fn gt_i(links: Seq<AspectLink>, bodies: Seq<u64>, i: int) -> Seq<MatchView> {
    concat_range(i + 1, bodies.len() as int, gt_j_fn(links, bodies, i))
}

pub open spec fn gt_i_fn(links: Seq<AspectLink>, bodies: Seq<u64>) -> spec_fn(int) -> Seq<
    MatchView,
> {
    |i: int| gt_i(links, bodies, i)
}

/// Grand Trines: every three bodies touched by trines (taken in order of
/// first appearance) that are mutually trine; none with fewer than three
/// trines.
pub open spec fn grand_trines_named(links: Seq<AspectLink>) -> Seq<MatchView> {
    if indices_of_type(links, AspectType::Trine).len() < 3 {
        Seq::empty()
    } else {
        let bodies = trine_bodies(links);
        concat_range(0, bodies.len() as int, gt_i_fn(links, bodies))
    }
}

fn contains_body(v: &Vec<u64>, b: u64) -> (r: bool)
    ensures
        r == v@.contains(b),
{
    let mut i: usize = 0;
    while i < v.len()
        invariant
            0 <= i <= v@.len(),
            forall|k: int| 0 <= k < i ==> v@[k] != b,
        decreases v@.len() - i,
    {
        if v[i] == b {
            assert(v@[i as int] == b);
            return true;
        }
        i = i + 1;
    }
    false
}

fn push_new(v: &mut Vec<u64>, b: u64)
    ensures
        final(v)@ == if old(v)@.contains(b) {
            old(v)@
        } else {
            old(v)@.push(b)
        },
{
    if !contains_body(v, b) {
        v.push(b);
    }
}

/// The bodies touched by the aspects at positions `idx`, in order of first
/// appearance.
fn endpoint_bodies(aspects: &[AspectLink], idx: &Vec<usize>) -> (r: Vec<u64>)
    requires
        all_below(idx@, aspects@.len() as int),
    ensures
        r@ == dedup(concat_range(0, idx@.len() as int, endpoints_fn(aspects@, idx@))),
{
    let mut r: Vec<u64> = Vec::new();
    let mut x: usize = 0;
    assert(r@ =~= dedup(Seq::<u64>::empty()));
    while x < idx.len()
        invariant
            all_below(idx@, aspects@.len() as int),
            0 <= x <= idx@.len(),
            r@ == dedup(concat_range(0, x as int, endpoints_fn(aspects@, idx@))),
        decreases idx@.len() - x,
    {
        let l = aspects[idx[x]];
        let ghost before = concat_range(0, x as int, endpoints_fn(aspects@, idx@));
        push_new(&mut r, l.body1);
        push_new(&mut r, l.body2);
        proof {
            lemma_concat_range_step(0, x as int, endpoints_fn(aspects@, idx@));
            assert(before + seq![l.body1, l.body2] =~= before.push(l.body1).push(l.body2));
            lemma_dedup_step(before, l.body1);
            lemma_dedup_step(before.push(l.body1), l.body2);
        }
        x = x + 1;
    }
    r
}

/// The Grand Trine on three bodies, if all three trines exist.
fn grand_trine_on_exec(aspects: &[AspectLink], a: u64, b: u64, c: u64) -> (r: Option<
    AspectPatternMatch,
>)
    ensures
        found(r is Some, r->0@) == grand_trine_on(aspects@, a, b, c),
{
    let ab = find_between(aspects, AspectType::Trine, a, b);
    let bc = find_between(aspects, AspectType::Trine, b, c);
    let ac = find_between(aspects, AspectType::Trine, a, c);
    match (ab, bc, ac) {
        (Some(ab), Some(bc), Some(ac)) => {
            let m = AspectPatternMatch {
                pattern_type: AspectPattern::GrandTrine,
                bodies: vec![a, b, c],
                aspects: vec![ab, bc, ac],
            };
            assert(m.bodies@ =~= seq![a, b, c]);
            assert(m.aspects@ =~= seq![ab, bc, ac]);
            assert(found(true, m@) =~= grand_trine_on(aspects@, a, b, c));
            Some(m)
        },
        _ => None,
    }
}

/// Append a found pattern, if any, and record how the views grow.
fn push_found(out: &mut Vec<AspectPatternMatch>, m: Option<AspectPatternMatch>)
    ensures
        match_views(final(out)@) == match_views(old(out)@) + found(m is Some, m->0@),
{
    let ghost before = match_views(out@);
    match m {
        Some(m) => {
            let ghost mv = m@;
            out.push(m);
            assert(match_views(out@) =~= before + found(true, mv));
        },
        None => {
            assert(before + found(false, m->0@) =~= before);
        },
    }
}

/// Detect Grand Trines: three bodies mutually trine.
///
/// The candidate bodies are those touched by trines, in order of first
/// appearance; each three of them (in that order) that are mutually trine
/// give a result listing the bodies and the positions of the first trines
/// `a`–`b`, `b`–`c`, `a`–`c`. Nothing is reported with fewer than three
/// trines.
pub fn detect_grand_trine_named(aspects: &[AspectLink]) -> (r: Vec<AspectPatternMatch>)
    ensures
        match_views(r@) == grand_trines_named(aspects@),
{
    let mut out: Vec<AspectPatternMatch> = Vec::new();
    let trines = of_type(aspects, AspectType::Trine);
    if trines.len() < 3 {
        assert(match_views(out@) =~= Seq::<MatchView>::empty());
        return out;
    }
    let bodies = endpoint_bodies(aspects, &trines);
    let n = bodies.len();
    assert(match_views(out@) =~= Seq::<MatchView>::empty());
    let mut i: usize = 0;
    while i < n
        invariant
            n == bodies@.len(),
            0 <= i <= n,
            match_views(out@) == concat_range(0, i as int, gt_i_fn(aspects@, bodies@)),
        decreases n - i,
    {
        let ghost before_i = match_views(out@);
        let mut j: usize = i + 1;
        while j < n
            invariant
                n == bodies@.len(),
                i < n,
                i + 1 <= j <= n,
                match_views(out@) == before_i + concat_range(
                    i + 1,
                    j as int,
                    gt_j_fn(aspects@, bodies@, i as int),
                ),
            decreases n - j,
        {
            let ghost before_j = match_views(out@);
            let mut k: usize = j + 1;
            while k < n
                invariant
                    n == bodies@.len(),
                    i < j < n,
                    j + 1 <= k <= n,
                    match_views(out@) == before_j + concat_range(
                        j + 1,
                        k as int,
                        gt_k_fn(aspects@, bodies@, i as int, j as int),
                    ),
                decreases n - k,
            {
                let ghost before_k = match_views(out@);
                let m = grand_trine_on_exec(aspects, bodies[i], bodies[j], bodies[k]);
                push_found(&mut out, m);
                proof {
                    lemma_loop_round(
                        before_j,
                        before_k,
                        match_views(out@),
                        j + 1,
                        k as int,
                        gt_k_fn(aspects@, bodies@, i as int, j as int),
                    );
                }
                k = k + 1;
            }
            proof {
                lemma_loop_round(
                    before_i,
                    before_j,
                    match_views(out@),
                    i + 1,
                    j as int,
                    gt_j_fn(aspects@, bodies@, i as int),
                );
            }
            j = j + 1;
        }
        proof {
            lemma_concat_range_step(0, i as int, gt_i_fn(aspects@, bodies@));
        }
        i = i + 1;
    }
    out
}

// ---------------------------------------------------------------------------
// Grand Cross and Mystic Rectangle: two oppositions with no common body
// ---------------------------------------------------------------------------

pub open spec fn share_a_body(o1: AspectLink, o2: AspectLink) -> bool {
    o1.body1 == o2.body1 || o1.body1 == o2.body2 || o1.body2 == o2.body1 || o1.body2 == o2.body2
}

/// The four bodies of two oppositions, axis by axis.
pub open spec fn axes(o1: AspectLink, o2: AspectLink) -> Seq<u64> {
    seq![o1.body1, o1.body2, o2.body1, o2.body2]
}

/// The Grand Cross on oppositions `opps[i]` and `opps[j]`: every end of the
/// first squares every end of the second.
pub open spec fn grand_cross_at(links: Seq<AspectLink>, opps: Seq<usize>, i: int, j: int) -> Seq<
    MatchView,
> {
    let o1 = links[opps[i] as int];
    let o2 = links[opps[j] as int];
    let sq1 = first_between(links, AspectType::Square, o1.body1, o2.body1);
    let sq2 = first_between(links, AspectType::Square, o1.body1, o2.body2);
    let sq3 = first_between(links, AspectType::Square, o1.body2, o2.body1);
    let sq4 = first_between(links, AspectType::Square, o1.body2, o2.body2);
    found(
        !share_a_body(o1, o2) && sq1 is Some && sq2 is Some && sq3 is Some && sq4 is Some,
        (
            AspectPattern::GrandCross,
            axes(o1, o2),
            seq![opps[i], opps[j], sq1->0, sq2->0, sq3->0, sq4->0],
        ),
    )
}

pub open spec fn cross_j_fn(links: Seq<AspectLink>, opps: Seq<usize>, i: int) -> spec_fn(int) -> Seq<
    MatchView,
> {
    |j: int| grand_cross_at(links, opps, i, j)
}

pub open spec fn cross_i(links: Seq<AspectLink>, opps: Seq<usize>, i: int) -> Seq<MatchView> {
    concat_range(i + 1, opps.len() as int, cross_j_fn(links, opps, i))
}

pub open spec fn cross_i_fn(links: Seq<AspectLink>, opps: Seq<usize>) -> spec_fn(int) -> Seq<
    MatchView,
> {
    |i: int| cross_i(links, opps, i)
}

/// Grand Crosses: each pair of oppositions (in input order) with no common
/// body whose ends are all squared; none with fewer than four squares or
/// two oppositions.
pub open spec fn grand_crosses_named(links: Seq<AspectLink>) -> Seq<MatchView> {
    let opps = indices_of_type(links, AspectType::Opposition);
    if indices_of_type(links, AspectType::Square).len() < 4 || opps.len() < 2 {
        Seq::empty()
    } else {
        concat_range(0, opps.len() as int, cross_i_fn(links, opps))
    }
}

/// One way round of a Mystic Rectangle on oppositions `opps[i]`, `opps[j]`:
/// with `crossed` false, first-to-first and second-to-second are trines and
/// the other two sides sextiles; with `crossed` true, the other way round.
pub open spec fn rectangle_at(
    links: Seq<AspectLink>,
    opps: Seq<usize>,
    i: int,
    j: int,
    crossed: bool,
) -> Seq<MatchView> {
    let o1 = links[opps[i] as int];
    let o2 = links[opps[j] as int];
    let (tp, tq) = if crossed {
        (o2.body2, o2.body1)
    } else {
        (o2.body1, o2.body2)
    };
    let t1 = first_between(links, AspectType::Trine, o1.body1, tp);
    let t2 = first_between(links, AspectType::Trine, o1.body2, tq);
    let s1 = first_between(links, AspectType::Sextile, o1.body1, tq);
    let s2 = first_between(links, AspectType::Sextile, o1.body2, tp);
    found(
        !share_a_body(o1, o2) && t1 is Some && t2 is Some && s1 is Some && s2 is Some,
        (
            AspectPattern::MysticRectangle,
            axes(o1, o2),
            seq![opps[i], opps[j], t1->0, t2->0, s1->0, s2->0],
        ),
    )
}

pub open spec fn rect_j_fn(links: Seq<AspectLink>, opps: Seq<usize>, i: int) -> spec_fn(int) -> Seq<
    MatchView,
> {
    |j: int| rectangle_at(links, opps, i, j, false) + rectangle_at(links, opps, i, j, true)
}

pub open spec fn rect_i(links: Seq<AspectLink>, opps: Seq<usize>, i: int) -> Seq<MatchView> {
    concat_range(i + 1, opps.len() as int, rect_j_fn(links, opps, i))
}

pub open spec fn rect_i_fn(links: Seq<AspectLink>, opps: Seq<usize>) -> spec_fn(int) -> Seq<
    MatchView,
> {
    |i: int| rect_i(links, opps, i)
}

/// Mystic Rectangles: each pair of oppositions (in input order) with no
/// common body joined by two trines and two sextiles, the straight
/// arrangement tried before the crossed one; one per set of four bodies, and
/// none with fewer than two oppositions, two trines or two sextiles.
pub open spec fn mystic_rectangles_named(links: Seq<AspectLink>) -> Seq<MatchView> {
    let opps = indices_of_type(links, AspectType::Opposition);
    if opps.len() < 2 || indices_of_type(links, AspectType::Trine).len() < 2 || indices_of_type(
        links,
        AspectType::Sextile,
    ).len() < 2 {
        Seq::empty()
    } else {
        dedup_by_bodies(concat_range(0, opps.len() as int, rect_i_fn(links, opps)))
    }
}

fn shares_body(o1: &AspectLink, o2: &AspectLink) -> (r: bool)
    ensures
        r == share_a_body(*o1, *o2),
{
    o1.body1 == o2.body1 || o1.body1 == o2.body2 || o1.body2 == o2.body1 || o1.body2 == o2.body2
}

fn grand_cross_exec(aspects: &[AspectLink], opps: &Vec<usize>, i: usize, j: usize) -> (r: Option<
    AspectPatternMatch,
>)
    requires
        i < opps@.len(),
        j < opps@.len(),
        all_below(opps@, aspects@.len() as int),
    ensures
        found(r is Some, r->0@) == grand_cross_at(aspects@, opps@, i as int, j as int),
{
    let o1 = aspects[opps[i]];
    let o2 = aspects[opps[j]];
    if shares_body(&o1, &o2) {
        return None;
    }
    let sq1 = find_between(aspects, AspectType::Square, o1.body1, o2.body1);
    let sq2 = find_between(aspects, AspectType::Square, o1.body1, o2.body2);
    let sq3 = find_between(aspects, AspectType::Square, o1.body2, o2.body1);
    let sq4 = find_between(aspects, AspectType::Square, o1.body2, o2.body2);
    match (sq1, sq2, sq3, sq4) {
        (Some(sq1), Some(sq2), Some(sq3), Some(sq4)) => {
            let m = AspectPatternMatch {
                pattern_type: AspectPattern::GrandCross,
                bodies: vec![o1.body1, o1.body2, o2.body1, o2.body2],
                aspects: vec![opps[i], opps[j], sq1, sq2, sq3, sq4],
            };
            assert(m.bodies@ =~= axes(o1, o2));
            assert(m.aspects@ =~= seq![opps@[i as int], opps@[j as int], sq1, sq2, sq3, sq4]);
            Some(m)
        },
        _ => None,
    }
}

/// Detect Grand Crosses: two oppositions with no common body whose four
/// ends are all squared.
///
/// Each result lists the bodies axis by axis, `[o1.body1, o1.body2,
/// o2.body1, o2.body2]`, and the positions of the two oppositions and of the
/// first squares `o1.body1`–`o2.body1`, `o1.body1`–`o2.body2`,
/// `o1.body2`–`o2.body1`, `o1.body2`–`o2.body2`. Nothing is reported with
/// fewer than four squares or two oppositions.
pub fn detect_grand_cross_named(aspects: &[AspectLink]) -> (r: Vec<AspectPatternMatch>)
    ensures
        match_views(r@) == grand_crosses_named(aspects@),
{
    let mut out: Vec<AspectPatternMatch> = Vec::new();
    assert(match_views(out@) =~= Seq::<MatchView>::empty());
    let squares = of_type(aspects, AspectType::Square);
    let opps = of_type(aspects, AspectType::Opposition);
    if squares.len() < 4 || opps.len() < 2 {
        return out;
    }
    let n = opps.len();
    let mut i: usize = 0;
    while i < n
        invariant
            opps@ == indices_of_type(aspects@, AspectType::Opposition),
            all_below(opps@, aspects@.len() as int),
            n == opps@.len(),
            0 <= i <= n,
            match_views(out@) == concat_range(0, i as int, cross_i_fn(aspects@, opps@)),
        decreases n - i,
    {
        let ghost before_i = match_views(out@);
        let mut j: usize = i + 1;
        while j < n
            invariant
                all_below(opps@, aspects@.len() as int),
                n == opps@.len(),
                i < n,
                i + 1 <= j <= n,
                match_views(out@) == before_i + concat_range(
                    i + 1,
                    j as int,
                    cross_j_fn(aspects@, opps@, i as int),
                ),
            decreases n - j,
        {
            let ghost before_j = match_views(out@);
            let m = grand_cross_exec(aspects, &opps, i, j);
            push_found(&mut out, m);
            proof {
                lemma_loop_round(
                    before_i,
                    before_j,
                    match_views(out@),
                    i + 1,
                    j as int,
                    cross_j_fn(aspects@, opps@, i as int),
                );
            }
            j = j + 1;
        }
        proof {
            lemma_concat_range_step(0, i as int, cross_i_fn(aspects@, opps@));
        }
        i = i + 1;
    }
    out
}

fn rectangle_exec(aspects: &[AspectLink], opps: &Vec<usize>, i: usize, j: usize, crossed: bool) -> (r:
    Option<AspectPatternMatch>)
    requires
        i < opps@.len(),
        j < opps@.len(),
        all_below(opps@, aspects@.len() as int),
    ensures
        found(r is Some, r->0@) == rectangle_at(aspects@, opps@, i as int, j as int, crossed),
{
    let o1 = aspects[opps[i]];
    let o2 = aspects[opps[j]];
    if shares_body(&o1, &o2) {
        return None;
    }
    let (tp, tq) = if crossed {
        (o2.body2, o2.body1)
    } else {
        (o2.body1, o2.body2)
    };
    let t1 = find_between(aspects, AspectType::Trine, o1.body1, tp);
    let t2 = find_between(aspects, AspectType::Trine, o1.body2, tq);
    match (t1, t2) {
        (Some(t1), Some(t2)) => {
            let s1 = find_between(aspects, AspectType::Sextile, o1.body1, tq);
            let s2 = find_between(aspects, AspectType::Sextile, o1.body2, tp);
            match (s1, s2) {
                (Some(s1), Some(s2)) => {
                    let m = AspectPatternMatch {
                        pattern_type: AspectPattern::MysticRectangle,
                        bodies: vec![o1.body1, o1.body2, o2.body1, o2.body2],
                        aspects: vec![opps[i], opps[j], t1, t2, s1, s2],
                    };
                    assert(m.bodies@ =~= axes(o1, o2));
                    assert(m.aspects@ =~= seq![opps@[i as int], opps@[j as int], t1, t2, s1, s2]);
                    Some(m)
                },
                _ => None,
            }
        },
        _ => None,
    }
}

/// Offer a found pattern, if any, to the output kept one per set of bodies.
fn offer_found(
    out: &mut Vec<AspectPatternMatch>,
    seen: &mut Vec<Vec<u64>>,
    Ghost(cands): Ghost<Seq<MatchView>>,
    m: Option<AspectPatternMatch>,
)
    requires
        dedup_state(old(out)@, old(seen)@, cands),
    ensures
        dedup_state(final(out)@, final(seen)@, cands + found(m is Some, m->0@)),
{
    proof {
        lemma_found(cands, m is Some, m->0@);
    }
    match m {
        Some(m) => offer(out, seen, Ghost(cands), m),
        None => {},
    }
}

/// Detect Mystic Rectangles: two oppositions with no common body joined by
/// two trines and two sextiles.
///
/// For each pair of oppositions `o1`, `o2` (in input order), the straight
/// arrangement (trines `o1.body1`–`o2.body1` and `o1.body2`–`o2.body2`,
/// sextiles across) is tried before the crossed one (trines
/// `o1.body1`–`o2.body2` and `o1.body2`–`o2.body1`). Each result lists the
/// bodies axis by axis and the positions of the two oppositions, the two
/// trines and the two sextiles; a set of four bodies is reported once, and
/// nothing is reported with fewer than two oppositions, two trines or two
/// sextiles.
pub fn detect_mystic_rectangle_named(aspects: &[AspectLink]) -> (r: Vec<AspectPatternMatch>)
    ensures
        match_views(r@) == mystic_rectangles_named(aspects@),
{
    let mut out: Vec<AspectPatternMatch> = Vec::new();
    let mut seen: Vec<Vec<u64>> = Vec::new();
    assert(match_views(out@) =~= Seq::<MatchView>::empty());
    assert(key_views(seen@) =~= Seq::<Seq<u64>>::empty());
    assert(body_keys(Seq::<MatchView>::empty()) =~= Seq::<Seq<u64>>::empty());
    let opps = of_type(aspects, AspectType::Opposition);
    let trines = of_type(aspects, AspectType::Trine);
    let sextiles = of_type(aspects, AspectType::Sextile);
    if opps.len() < 2 || trines.len() < 2 || sextiles.len() < 2 {
        return out;
    }
    let n = opps.len();
    let ghost mut cands: Seq<MatchView> = Seq::empty();
    let mut i: usize = 0;
    while i < n
        invariant
            opps@ == indices_of_type(aspects@, AspectType::Opposition),
            all_below(opps@, aspects@.len() as int),
            n == opps@.len(),
            0 <= i <= n,
            cands == concat_range(0, i as int, rect_i_fn(aspects@, opps@)),
            dedup_state(out@, seen@, cands),
        decreases n - i,
    {
        let ghost before_i = cands;
        let mut j: usize = i + 1;
        while j < n
            invariant
                all_below(opps@, aspects@.len() as int),
                n == opps@.len(),
                i < n,
                i + 1 <= j <= n,
                cands == before_i + concat_range(i + 1, j as int, rect_j_fn(aspects@, opps@, i as int)),
                dedup_state(out@, seen@, cands),
            decreases n - j,
        {
            let ghost before_j = cands;
            let straight = rectangle_exec(aspects, &opps, i, j, false);
            offer_found(&mut out, &mut seen, Ghost(cands), straight);
            proof {
                cands = cands + rectangle_at(aspects@, opps@, i as int, j as int, false);
            }
            let crossed = rectangle_exec(aspects, &opps, i, j, true);
            offer_found(&mut out, &mut seen, Ghost(cands), crossed);
            proof {
                cands = cands + rectangle_at(aspects@, opps@, i as int, j as int, true);
                lemma_add_assoc(
                    before_j,
                    rectangle_at(aspects@, opps@, i as int, j as int, false),
                    rectangle_at(aspects@, opps@, i as int, j as int, true),
                );
                lemma_loop_round(
                    before_i,
                    before_j,
                    cands,
                    i + 1,
                    j as int,
                    rect_j_fn(aspects@, opps@, i as int),
                );
            }
            j = j + 1;
        }
        proof {
            lemma_concat_range_step(0, i as int, rect_i_fn(aspects@, opps@));
        }
        i = i + 1;
    }
    out
}

// ---------------------------------------------------------------------------
// Kite: a Grand Trine with a tail
// ---------------------------------------------------------------------------

pub open spec fn kite_tail_from(
    links: Seq<AspectLink>,
    opps: Seq<usize>,
    vertex: u64,
    trine: Seq<u64>,
    lo: int,
) -> Option<usize>
    decreases opps.len() - lo,
{
    if lo < 0 || lo >= opps.len() {
        None
    } else if touches(links[opps[lo] as int], vertex) && !trine.contains(
        far_end(links[opps[lo] as int], vertex),
    ) {
        Some(opps[lo])
    } else {
        kite_tail_from(links, opps, vertex, trine, lo + 1)
    }
}

/// The first opposition (in input order) from `vertex` to a body outside
/// the trine.
pub open spec fn kite_tail(links: Seq<AspectLink>, vertex: u64, trine: Seq<u64>) -> Option<usize> {
    kite_tail_from(links, indices_of_type(links, AspectType::Opposition), vertex, trine, 0)
}

pub open spec fn others_fn(bodies: Seq<u64>, vertex: u64) -> spec_fn(int) -> Seq<u64> {
    |x: int| found(bodies[x] != vertex, bodies[x])
}

/// The bodies other than `vertex`, in order.
pub open spec fn other_vertices(bodies: Seq<u64>, vertex: u64) -> Seq<u64> {
    concat_range(0, bodies.len() as int, others_fn(bodies, vertex))
}

/// The Kite on Grand Trine `gt` from its vertex `v`: the vertex's opposition
/// reaches a fourth body that sextiles both other vertices.
pub open spec fn kite_at(links: Seq<AspectLink>, gt: MatchView, v: int) -> Seq<MatchView> {
    let vertex = gt.1[v];
    let opp = kite_tail(links, vertex, gt.1);
    if opp is None {
        Seq::empty()
    } else {
        let fourth = far_end(links[opp->0 as int], vertex);
        let ov = other_vertices(gt.1, vertex);
        let s1 = first_between(links, AspectType::Sextile, fourth, ov[0]);
        let s2 = first_between(links, AspectType::Sextile, fourth, ov[1]);
        found(
            ov.len() == 2 && s1 is Some && s2 is Some,
            (AspectPattern::Kite, gt.1.push(fourth), gt.2 + seq![opp->0, s1->0, s2->0]),
        )
    }
}

pub open spec fn kite_v_fn(links: Seq<AspectLink>, gt: MatchView) -> spec_fn(int) -> Seq<MatchView> {
    |v: int| kite_at(links, gt, v)
}

pub open spec fn kite_g_fn(links: Seq<AspectLink>, gts: Seq<MatchView>) -> spec_fn(int) -> Seq<
    MatchView,
> {
    |g: int| concat_range(0, gts[g].1.len() as int, kite_v_fn(links, gts[g]))
}

/// Kites: for each Grand Trine and each of its vertices in order, the Kite
/// that vertex's first opposition leads to.
pub open spec fn kites_named(links: Seq<AspectLink>) -> Seq<MatchView> {
    let gts = grand_trines_named(links);
    concat_range(0, gts.len() as int, kite_g_fn(links, gts))
}

fn find_kite_tail(aspects: &[AspectLink], opps: &Vec<usize>, vertex: u64, trine: &Vec<u64>) -> (r:
    Option<usize>)
    requires
        all_below(opps@, aspects@.len() as int),
    ensures
        r == kite_tail_from(aspects@, opps@, vertex, trine@, 0),
        r matches Some(i) ==> i < aspects@.len(),
{
    let mut k: usize = 0;
    while k < opps.len()
        invariant
            all_below(opps@, aspects@.len() as int),
            0 <= k <= opps@.len(),
            kite_tail_from(aspects@, opps@, vertex, trine@, 0) == kite_tail_from(
                aspects@,
                opps@,
                vertex,
                trine@,
                k as int,
            ),
        decreases opps@.len() - k,
    {
        let o = aspects[opps[k]];
        if o.body1 == vertex || o.body2 == vertex {
            let far = other_body(&o, vertex);
            if !contains_body(trine, far) {
                return Some(opps[k]);
            }
        }
        k = k + 1;
    }
    None
}

fn others_exec(bodies: &Vec<u64>, vertex: u64) -> (r: Vec<u64>)
    ensures
        r@ == other_vertices(bodies@, vertex),
{
    let mut r: Vec<u64> = Vec::new();
    let mut x: usize = 0;
    while x < bodies.len()
        invariant
            0 <= x <= bodies@.len(),
            r@ == concat_range(0, x as int, others_fn(bodies@, vertex)),
        decreases bodies@.len() - x,
    {
        let ghost before = r@;
        let keep = bodies[x] != vertex;
        if keep {
            r.push(bodies[x]);
        }
        proof {
            lemma_found(before, keep, bodies@[x as int]);
            lemma_concat_range_step(0, x as int, others_fn(bodies@, vertex));
        }
        x = x + 1;
    }
    r
}

fn copy_vec<T: Copy>(v: &Vec<T>) -> (r: Vec<T>)
    ensures
        r@ == v@,
{
    let mut r: Vec<T> = Vec::new();
    let mut i: usize = 0;
    while i < v.len()
        invariant
            0 <= i <= v@.len(),
            r@ == v@.take(i as int),
        decreases v@.len() - i,
    {
        r.push(v[i]);
        i = i + 1;
        assert(r@ =~= v@.take(i as int));
    }
    assert(v@.take(i as int) =~= v@);
    r
}

fn kite_exec(aspects: &[AspectLink], opps: &Vec<usize>, gt: &AspectPatternMatch, v: usize) -> (r:
    Option<AspectPatternMatch>)
    requires
        opps@ == indices_of_type(aspects@, AspectType::Opposition),
        all_below(opps@, aspects@.len() as int),
        v < gt.bodies@.len(),
    ensures
        found(r is Some, r->0@) == kite_at(aspects@, gt@, v as int),
{
    let vertex = gt.bodies[v];
    let opp = find_kite_tail(aspects, opps, vertex, &gt.bodies);
    match opp {
        None => None,
        Some(o) => {
            let fourth = other_body(&aspects[o], vertex);
            let ov = others_exec(&gt.bodies, vertex);
            if ov.len() != 2 {
                return None;
            }
            let s1 = find_between(aspects, AspectType::Sextile, fourth, ov[0]);
            let s2 = find_between(aspects, AspectType::Sextile, fourth, ov[1]);
            match (s1, s2) {
                (Some(s1), Some(s2)) => {
                    let mut bodies = copy_vec(&gt.bodies);
                    bodies.push(fourth);
                    let mut positions = copy_vec(&gt.aspects);
                    let ghost gt_positions = positions@;
                    positions.push(o);
                    positions.push(s1);
                    positions.push(s2);
                    assert(positions@ =~= gt_positions + seq![o, s1, s2]);
                    let m = AspectPatternMatch {
                        pattern_type: AspectPattern::Kite,
                        bodies,
                        aspects: positions,
                    };
                    Some(m)
                },
                _ => None,
            }
        },
    }
}

/// Detect Kites: a Grand Trine plus a fourth body opposite one vertex and
/// sextile to the other two.
///
/// For each Grand Trine (as [`detect_grand_trine_named`] reports them) and
/// each of its vertices in order, the vertex's first opposition (in input
/// order) to a body outside the trine names the tail; when the tail sextiles
/// both other vertices, the result lists the trine's bodies and then the
/// tail, and the trine's aspects and then the opposition and the first
/// sextiles tail–first other vertex and tail–second other vertex.
pub fn detect_kite_named(aspects: &[AspectLink]) -> (r: Vec<AspectPatternMatch>)
    ensures
        match_views(r@) == kites_named(aspects@),
{
    let grand_trines = detect_grand_trine_named(aspects);
    let opps = of_type(aspects, AspectType::Opposition);
    let mut out: Vec<AspectPatternMatch> = Vec::new();
    assert(match_views(out@) =~= Seq::<MatchView>::empty());
    let ghost gts = match_views(grand_trines@);
    let mut g: usize = 0;
    while g < grand_trines.len()
        invariant
            gts == match_views(grand_trines@),
            gts == grand_trines_named(aspects@),
            opps@ == indices_of_type(aspects@, AspectType::Opposition),
            all_below(opps@, aspects@.len() as int),
            0 <= g <= grand_trines@.len(),
            match_views(out@) == concat_range(0, g as int, kite_g_fn(aspects@, gts)),
        decreases grand_trines@.len() - g,
    {
        let gt = &grand_trines[g];
        assert(gt@ == gts[g as int]);
        let ghost before_g = match_views(out@);
        let mut v: usize = 0;
        while v < gt.bodies.len()
            invariant
                opps@ == indices_of_type(aspects@, AspectType::Opposition),
                all_below(opps@, aspects@.len() as int),
                0 <= v <= gt.bodies@.len(),
                match_views(out@) == before_g + concat_range(0, v as int, kite_v_fn(aspects@, gt@)),
            decreases gt.bodies@.len() - v,
        {
            let ghost before_v = match_views(out@);
            let m = kite_exec(aspects, &opps, gt, v);
            push_found(&mut out, m);
            proof {
                lemma_loop_round(
                    before_g,
                    before_v,
                    match_views(out@),
                    0,
                    v as int,
                    kite_v_fn(aspects@, gt@),
                );
            }
            v = v + 1;
        }
        proof {
            lemma_concat_range_step(0, g as int, kite_g_fn(aspects@, gts));
        }
        g = g + 1;
    }
    out
}

// ---------------------------------------------------------------------------
// Stellium: bodies joined by chains of conjunctions
// ---------------------------------------------------------------------------

/// `a` and `b` are the two ends of some conjunction.
pub open spec fn conjunct(links: Seq<AspectLink>, a: u64, b: u64) -> bool {
    exists|i: int| 0 <= i < links.len() && joins(links[i], AspectType::Conjunction, a, b)
}

/// Each body of `p` is conjunct with the next.
pub open spec fn is_chain(links: Seq<AspectLink>, p: Seq<u64>) -> bool
    decreases p.len(),
{
    if p.len() <= 1 {
        true
    } else {
        conjunct(links, p[p.len() - 2], p.last()) && is_chain(links, p.drop_last())
    }
}

/// A chain of conjunctions leads from `a` to `b`.
pub open spec fn connected(links: Seq<AspectLink>, a: u64, b: u64) -> bool {
    exists|p: Seq<u64>| #[trigger] is_chain(links, p) && p.len() > 0 && p[0] == a && p.last() == b
}

/// Every conjunction from a body of `s` ends in `s`.
pub open spec fn closed_under(links: Seq<AspectLink>, s: Seq<u64>) -> bool {
    forall|a: u64, b: u64|
        #![trigger s.contains(a), conjunct(links, a, b)]
        s.contains(a) && conjunct(links, a, b) ==> s.contains(b)
}

/// `nodes` holds every body at an end of a conjunction.
pub open spec fn covers_endpoints(links: Seq<AspectLink>, nodes: Seq<u64>) -> bool {
    forall|a: u64, b: u64| #[trigger] conjunct(links, a, b) ==> nodes.contains(a)
}

pub open spec fn within(s: Seq<u64>, nodes: Seq<u64>) -> bool {
    forall|x: u64| s.contains(x) ==> nodes.contains(x)
}

proof fn lemma_conjunct_sym(links: Seq<AspectLink>, a: u64, b: u64)
    requires
        conjunct(links, a, b),
    ensures
        conjunct(links, b, a),
{
    let i = choose|i: int| 0 <= i < links.len() && joins(links[i], AspectType::Conjunction, a, b);
    assert(joins(links[i], AspectType::Conjunction, b, a));
}

proof fn lemma_connected_refl(links: Seq<AspectLink>, a: u64)
    ensures
        connected(links, a, a),
{
    assert(is_chain(links, seq![a]));
}

proof fn lemma_connected_step(links: Seq<AspectLink>, a: u64, b: u64, c: u64)
    requires
        connected(links, a, b),
        conjunct(links, b, c),
    ensures
        connected(links, a, c),
{
    let p = choose|p: Seq<u64>| #[trigger] is_chain(links, p) && p.len() > 0 && p[0] == a && p.last() == b;
    let q = p.push(c);
    assert(q.drop_last() =~= p);
    assert(q[q.len() - 2] == b);
    assert(is_chain(links, q));
}

proof fn lemma_chain_from(links: Seq<AspectLink>, a: u64, q: Seq<u64>)
    requires
        is_chain(links, q),
        q.len() > 0,
        connected(links, a, q[0]),
    ensures
        connected(links, a, q.last()),
    decreases q.len(),
{
    if q.len() > 1 {
        let r = q.drop_last();
        lemma_chain_from(links, a, r);
        lemma_connected_step(links, a, r.last(), q.last());
    }
}

proof fn lemma_connected_trans(links: Seq<AspectLink>, a: u64, b: u64, c: u64)
    requires
        connected(links, a, b),
        connected(links, b, c),
    ensures
        connected(links, a, c),
{
    let q = choose|q: Seq<u64>| #[trigger] is_chain(links, q) && q.len() > 0 && q[0] == b && q.last() == c;
    lemma_chain_from(links, a, q);
}

proof fn lemma_chain_back(links: Seq<AspectLink>, p: Seq<u64>)
    requires
        is_chain(links, p),
        p.len() > 0,
    ensures
        connected(links, p.last(), p[0]),
    decreases p.len(),
{
    if p.len() == 1 {
        lemma_connected_refl(links, p[0]);
    } else {
        let r = p.drop_last();
        lemma_chain_back(links, r);
        lemma_conjunct_sym(links, r.last(), p.last());
        lemma_connected_refl(links, p.last());
        lemma_connected_step(links, p.last(), p.last(), r.last());
        lemma_connected_trans(links, p.last(), r.last(), p[0]);
    }
}

proof fn lemma_connected_sym(links: Seq<AspectLink>, a: u64, b: u64)
    requires
        connected(links, a, b),
    ensures
        connected(links, b, a),
{
    let p = choose|p: Seq<u64>| #[trigger] is_chain(links, p) && p.len() > 0 && p[0] == a && p.last() == b;
    lemma_chain_back(links, p);
}

/// A chain that starts in a set closed under conjunction stays in it.
proof fn lemma_closed_chain(links: Seq<AspectLink>, s: Seq<u64>, p: Seq<u64>)
    requires
        closed_under(links, s),
        is_chain(links, p),
        p.len() > 0,
        s.contains(p[0]),
    ensures
        s.contains(p.last()),
    decreases p.len(),
{
    if p.len() > 1 {
        let r = p.drop_last();
        lemma_closed_chain(links, s, r);
        assert(conjunct(links, r.last(), p.last()));
    }
}

proof fn lemma_closed_connected(links: Seq<AspectLink>, s: Seq<u64>, a: u64, b: u64)
    requires
        closed_under(links, s),
        s.contains(a),
        connected(links, a, b),
    ensures
        s.contains(b),
{
    let p = choose|p: Seq<u64>| #[trigger] is_chain(links, p) && p.len() > 0 && p[0] == a && p.last() == b;
    lemma_closed_chain(links, s, p);
}

/// A body reached from another by a chain is at an end of a conjunction.
proof fn lemma_connected_endpoint(links: Seq<AspectLink>, a: u64, b: u64)
    requires
        connected(links, a, b),
        a != b,
    ensures
        exists|c: u64| conjunct(links, b, c),
{
    let p = choose|p: Seq<u64>| #[trigger] is_chain(links, p) && p.len() > 0 && p[0] == a && p.last() == b;
    assert(p.len() > 1);
    lemma_conjunct_sym(links, p[p.len() - 2], b);
}

/// A duplicate-free sequence inside another has no more elements.
proof fn lemma_within_len(s: Seq<u64>, t: Seq<u64>)
    requires
        s.no_duplicates(),
        within(s, t),
    ensures
        s.len() <= t.len(),
{
    broadcast use vstd::seq_lib::seq_to_set_is_finite;

    s.unique_seq_to_set();
    t.lemma_cardinality_of_set();
    assert(s.to_set().subset_of(t.to_set()));
    vstd::set_lib::lemma_len_subset(s.to_set(), t.to_set());
}

/// The positions in `conj` are exactly those of the conjunctions.
pub open spec fn conjunction_positions(links: Seq<AspectLink>, conj: Seq<usize>) -> bool {
    &&& links.len() <= usize::MAX
    &&& all_below(conj, links.len() as int)
    &&& forall|k: int|
        0 <= k < conj.len() ==> links[conj[k] as int].aspect_type == AspectType::Conjunction
    &&& forall|i: int|
        #![trigger links[i]]
        0 <= i < links.len() && links[i].aspect_type == AspectType::Conjunction ==> conj.contains(
            i as usize,
        )
}

/// What a conjunction at `conj[k]` contributes to `cur`'s neighbours: its
/// other end, once for each end that is `cur`.
pub open spec fn neighbor_fn(links: Seq<AspectLink>, conj: Seq<usize>, cur: u64) -> spec_fn(
    int,
) -> Seq<u64> {
    |k: int|
        {
            let l = links[conj[k] as int];
            found(l.body1 == cur, l.body2) + found(l.body2 == cur, l.body1)
        }
}

/// The neighbours of `cur` along the conjunctions at `conj`, ascending.
pub open spec fn neighbor_list(links: Seq<AspectLink>, conj: Seq<usize>, cur: u64) -> Seq<u64> {
    concat_range(0, conj.len() as int, neighbor_fn(links, conj, cur)).sort_by(body_le())
}

/// `queue` with each body of `nb` appended in turn, unless it is visited or
/// already queued.
pub open spec fn enqueue_new(queue: Seq<u64>, nb: Seq<u64>, visited: Seq<u64>) -> Seq<u64>
    decreases nb.len(),
{
    if nb.len() == 0 {
        queue
    } else {
        let q = enqueue_new(queue, nb.drop_last(), visited);
        let n = nb.last();
        if !visited.contains(n) && !q.contains(n) {
            q.push(n)
        } else {
            q
        }
    }
}

/// The visited bodies after a breadth-first walk (at most `fuel` steps):
/// each step visits the head of the queue and queues its unvisited
/// neighbours in ascending order.
pub open spec fn walk_from(
    links: Seq<AspectLink>,
    conj: Seq<usize>,
    visited: Seq<u64>,
    queue: Seq<u64>,
    fuel: nat,
) -> Seq<u64>
    decreases fuel,
{
    if fuel == 0 || queue.len() == 0 {
        visited
    } else {
        let cur = queue[0];
        let v2 = visited.push(cur);
        let q2 = enqueue_new(queue.drop_first(), neighbor_list(links, conj, cur), v2);
        walk_from(links, conj, v2, q2, (fuel - 1) as nat)
    }
}

/// The bodies at the ends of conjunctions, ascending.
pub open spec fn stellium_nodes(links: Seq<AspectLink>) -> Seq<u64> {
    let conj = indices_of_type(links, AspectType::Conjunction);
    dedup(concat_range(0, conj.len() as int, endpoints_fn(links, conj))).sort_by(body_le())
}

/// The bodies visited and the Stelliums found after walking from the first
/// `s` nodes in ascending order, each not yet visited.
pub open spec fn stellium_scan(links: Seq<AspectLink>, s: int) -> (Seq<u64>, Seq<MatchView>)
    decreases s,
{
    if s <= 0 {
        (Seq::empty(), Seq::empty())
    } else {
        let (v, o) = stellium_scan(links, s - 1);
        let nodes = stellium_nodes(links);
        let start = nodes[s - 1];
        if v.contains(start) {
            (v, o)
        } else {
            let v2 = walk_from(
                links,
                indices_of_type(links, AspectType::Conjunction),
                v,
                seq![start],
                (nodes.len() + 1) as nat,
            );
            let comp = v2.subrange(v.len() as int, v2.len() as int);
            (
                v2,
                if comp.len() >= 3 {
                    o.push((AspectPattern::Stellium, comp, conjunctions_within(links, comp)))
                } else {
                    o
                },
            )
        }
    }
}

/// Stelliums: the groups that breadth-first walks from the conjunctions'
/// bodies, least first, reach with three or more bodies; none with fewer
/// than two conjunctions.
pub open spec fn stelliums_named(links: Seq<AspectLink>) -> Seq<MatchView> {
    if indices_of_type(links, AspectType::Conjunction).len() < 2 {
        Seq::empty()
    } else {
        stellium_scan(links, stellium_nodes(links).len() as int).1
    }
}

/// The bodies conjunct with `cur`, ascending.
fn neighbors_exec(aspects: &[AspectLink], conj: &Vec<usize>, cur: u64) -> (r: Vec<u64>)
    requires
        conjunction_positions(aspects@, conj@),
    ensures
        r@ == neighbor_list(aspects@, conj@, cur),
        forall|b: u64| r@.contains(b) ==> conjunct(aspects@, cur, b),
        forall|b: u64| conjunct(aspects@, cur, b) ==> r@.contains(b),
{
    let mut raw: Vec<u64> = Vec::new();
    let mut k: usize = 0;
    while k < conj.len()
        invariant
            conjunction_positions(aspects@, conj@),
            0 <= k <= conj@.len(),
            raw@ == concat_range(0, k as int, neighbor_fn(aspects@, conj@, cur)),
            forall|b: u64| raw@.contains(b) ==> conjunct(aspects@, cur, b),
            forall|j: int|
                0 <= j < k ==> {
                    let l = #[trigger] aspects@[conj@[j] as int];
                    &&& l.body1 == cur ==> raw@.contains(l.body2)
                    &&& l.body2 == cur ==> raw@.contains(l.body1)
                },
        decreases conj@.len() - k,
    {
        let i = conj[k];
        let l = aspects[i];
        let ghost before = raw@;
        assert(aspects@[i as int].aspect_type == AspectType::Conjunction);
        if l.body1 == cur {
            raw.push(l.body2);
            assert(raw@[raw@.len() - 1] == l.body2);
        }
        let ghost mid = raw@;
        if l.body2 == cur {
            raw.push(l.body1);
            assert(raw@[raw@.len() - 1] == l.body1);
        }
        proof {
            lemma_found(before, l.body1 == cur, l.body2);
            lemma_found(mid, l.body2 == cur, l.body1);
            lemma_add_assoc(before, found(l.body1 == cur, l.body2), found(l.body2 == cur, l.body1));
            lemma_concat_range_step(0, k as int, neighbor_fn(aspects@, conj@, cur));
            assert forall|x: u64| before.contains(x) implies raw@.contains(x) by {
                let w = choose|w: int| 0 <= w < before.len() && before[w] == x;
                assert(mid[w] == x);
                assert(raw@[w] == x);
            }
            assert(l.body1 == cur ==> mid.contains(l.body2));
            assert(mid.contains(l.body2) ==> raw@.contains(l.body2)) by {
                if mid.contains(l.body2) {
                    let w = choose|w: int| 0 <= w < mid.len() && mid[w] == l.body2;
                    assert(raw@[w] == l.body2);
                }
            }
            assert forall|x: u64| mid.contains(x) implies conjunct(aspects@, cur, x) by {
                let w = choose|w: int| 0 <= w < mid.len() && mid[w] == x;
                if w < before.len() {
                    assert(before[w] == x);
                    assert(before.contains(x));
                    assert(conjunct(aspects@, cur, x));
                } else {
                    assert(x == l.body2 && l.body1 == cur);
                    assert(i < aspects@.len());
                    assert(joins(aspects@[i as int], AspectType::Conjunction, cur, x));
                    assert(conjunct(aspects@, cur, x));
                }
            }
            assert forall|x: u64| raw@.contains(x) implies conjunct(aspects@, cur, x) by {
                let w = choose|w: int| 0 <= w < raw@.len() && raw@[w] == x;
                if w < mid.len() {
                    assert(mid[w] == x);
                    assert(mid.contains(x));
                    assert(conjunct(aspects@, cur, x));
                } else {
                    assert(x == l.body1 && l.body2 == cur);
                    assert(i < aspects@.len());
                    assert(joins(aspects@[i as int], AspectType::Conjunction, cur, x));
                    assert(conjunct(aspects@, cur, x));
                }
            }
        }
        k = k + 1;
    }
    let r = sorted_bodies(raw.as_slice());
    proof {
        broadcast use vstd::seq_lib::group_to_multiset_ensures;

        lemma_body_le_total();
        raw@.lemma_sort_by_ensures(body_le());
        assert forall|b: u64| conjunct(aspects@, cur, b) implies r@.contains(b) by {
            let i = choose|i: int|
                0 <= i < aspects@.len() && joins(aspects@[i], AspectType::Conjunction, cur, b);
            assert(aspects@[i].aspect_type == AspectType::Conjunction);
            assert(conj@.contains(i as usize));
            let j = choose|j: int| 0 <= j < conj@.len() && conj@[j] == i as usize;
            assert(aspects@[conj@[j] as int] == aspects@[i]);
            assert(raw@.contains(b));
            assert(raw@.to_multiset().count(b) > 0);
        }
        assert forall|b: u64| r@.contains(b) implies conjunct(aspects@, cur, b) by {
            assert(r@.to_multiset().count(b) > 0);
            assert(raw@.contains(b));
        }
    }
    r
}

/// Walk breadth-first over conjunctions from `start`, neighbours in
/// ascending order, past the bodies already in `visited`: the bodies walked,
/// in the order reached, are appended to `visited` and returned.
fn walk_component(
    aspects: &[AspectLink],
    conj: &Vec<usize>,
    nodes: &Vec<u64>,
    visited: &mut Vec<u64>,
    start: u64,
) -> (comp: Vec<u64>)
    requires
        conjunction_positions(aspects@, conj@),
        covers_endpoints(aspects@, nodes@),
        nodes@.contains(start),
        !old(visited)@.contains(start),
        old(visited)@.no_duplicates(),
        within(old(visited)@, nodes@),
        closed_under(aspects@, old(visited)@),
    ensures
        final(visited)@ == old(visited)@ + comp@,
        final(visited)@.no_duplicates(),
        within(final(visited)@, nodes@),
        closed_under(aspects@, final(visited)@),
        comp@.len() > 0,
        comp@[0] == start,
        comp@.no_duplicates(),
        forall|b: u64| comp@.contains(b) <==> connected(aspects@, start, b),
        final(visited)@ == walk_from(
            aspects@,
            conj@,
            old(visited)@,
            seq![start],
            (nodes@.len() + 1) as nat,
        ),
{
    let ghost v0 = visited@;
    let ghost fuel0: nat = (nodes@.len() + 1) as nat;
    let mut comp: Vec<u64> = Vec::new();
    let mut queue: Vec<u64> = vec![start];
    proof {
        lemma_connected_refl(aspects@, start);
        assert(queue@ =~= seq![start]);
        assert(visited@ =~= v0 + comp@);
        lemma_within_len(visited@, nodes@);
    }
    while queue.len() > 0
        invariant
            conjunction_positions(aspects@, conj@),
            covers_endpoints(aspects@, nodes@),
            nodes@.contains(start),
            !v0.contains(start),
            v0.no_duplicates(),
            closed_under(aspects@, v0),
            visited@ == v0 + comp@,
            visited@.no_duplicates(),
            within(visited@, nodes@),
            visited@.len() <= nodes@.len(),
            queue@.no_duplicates(),
            forall|x: u64|
                queue@.contains(x) ==> !visited@.contains(x) && nodes@.contains(x) && connected(
                    aspects@,
                    start,
                    x,
                ),
            forall|x: u64| comp@.contains(x) ==> connected(aspects@, start, x),
            forall|a: u64, b: u64|
                #![trigger comp@.contains(a), conjunct(aspects@, a, b)]
                comp@.contains(a) && conjunct(aspects@, a, b) ==> visited@.contains(b)
                    || queue@.contains(b),
            comp@.len() == 0 ==> queue@ == seq![start],
            comp@.len() > 0 ==> comp@[0] == start,
            fuel0 == nodes@.len() + 1,
            walk_from(aspects@, conj@, v0, seq![start], fuel0) == walk_from(
                aspects@,
                conj@,
                visited@,
                queue@,
                (fuel0 - comp@.len()) as nat,
            ),
        decreases nodes@.len() - visited@.len(),
    {
        let ghost fuel: nat = (fuel0 - comp@.len()) as nat;
        let ghost old_queue = queue@;
        let ghost old_comp = comp@;
        let ghost old_visited = visited@;
        let cur = queue.remove(0);
        assert(old_queue.contains(cur));
        proof {
            assert forall|x: u64| queue@.contains(x) implies old_queue.contains(x) && x != cur by {
                let w = choose|w: int| 0 <= w < queue@.len() && queue@[w] == x;
                assert(old_queue[w + 1] == x);
            }
            assert forall|x: u64| old_queue.contains(x) && x != cur implies queue@.contains(x) by {
                let w = choose|w: int| 0 <= w < old_queue.len() && old_queue[w] == x;
                assert(w != 0);
                assert(queue@[w - 1] == x);
            }
        }
        visited.push(cur);
        comp.push(cur);
        proof {
            assert(visited@ =~= v0 + comp@);
            assert forall|x: u64| comp@.contains(x) implies old_comp.contains(x) || x == cur by {
                let w = choose|w: int| 0 <= w < comp@.len() && comp@[w] == x;
                if w < old_comp.len() {
                    assert(old_comp[w] == x);
                }
            }
            assert forall|x: u64| old_visited.contains(x) implies visited@.contains(x) by {
                let w = choose|w: int| 0 <= w < old_visited.len() && old_visited[w] == x;
                assert(visited@[w] == x);
            }
            assert forall|x: u64| old_comp.contains(x) implies comp@.contains(x) by {
                let w = choose|w: int| 0 <= w < old_comp.len() && old_comp[w] == x;
                assert(comp@[w] == x);
            }
            assert(visited@[visited@.len() - 1] == cur);
            assert(comp@[comp@.len() - 1] == cur);
            assert forall|x: u64| visited@.contains(x) implies old_visited.contains(x) || x == cur by {
                let w = choose|w: int| 0 <= w < visited@.len() && visited@[w] == x;
                if w < old_visited.len() {
                    assert(old_visited[w] == x);
                }
            }
            assert(visited@.no_duplicates()) by {
                assert forall|i: int, j: int|
                    0 <= i < visited@.len() && 0 <= j < visited@.len() && i != j implies visited@[i]
                    != visited@[j] by {
                    if i < old_visited.len() && j < old_visited.len() {
                        assert(visited@[i] == old_visited[i]);
                        assert(visited@[j] == old_visited[j]);
                    } else if i < old_visited.len() {
                        assert(old_visited.contains(visited@[i]));
                    } else if j < old_visited.len() {
                        assert(old_visited.contains(visited@[j]));
                    }
                }
            }
            lemma_within_len(visited@, nodes@);
            assert(connected(aspects@, start, cur));
            assert forall|x: u64| comp@.contains(x) implies connected(aspects@, start, x) by {
                if x != cur {
                    assert(old_comp.contains(x));
                }
            }
            assert forall|x: u64| queue@.contains(x) implies !visited@.contains(x) && nodes@.contains(
                x,
            ) && connected(aspects@, start, x) by {
                assert(old_queue.contains(x) && x != cur);
                assert(!old_visited.contains(x));
            }
            assert(queue@.no_duplicates()) by {
                assert forall|i: int, j: int|
                    0 <= i < queue@.len() && 0 <= j < queue@.len() && i != j implies queue@[i]
                    != queue@[j] by {
                    assert(queue@[i] == old_queue[i + 1]);
                    assert(queue@[j] == old_queue[j + 1]);
                }
            }
        }
        let nb = neighbors_exec(aspects, conj, cur);
        let ghost q_after = queue@;
        let ghost vis_now = visited@;
        proof {
            assert(q_after =~= old_queue.drop_first());
            assert(nb@.take(0) =~= Seq::<u64>::empty());
        }
        let mut t: usize = 0;
        while t < nb.len()
            invariant
                visited@ == vis_now,
                queue@ == enqueue_new(q_after, nb@.take(t as int), vis_now),
                conjunction_positions(aspects@, conj@),
                covers_endpoints(aspects@, nodes@),
                connected(aspects@, start, cur),
                visited@.contains(cur),
                forall|x: u64| comp@.contains(x) ==> connected(aspects@, start, x),
                forall|b: u64| nb@.contains(b) ==> conjunct(aspects@, cur, b),
                0 <= t <= nb@.len(),
                queue@.no_duplicates(),
                forall|x: u64|
                    queue@.contains(x) ==> !visited@.contains(x) && nodes@.contains(x)
                        && connected(aspects@, start, x),
                forall|k: int| 0 <= k < t ==> visited@.contains(nb@[k]) || queue@.contains(nb@[k]),
                forall|x: u64| old_queue.contains(x) && x != cur ==> queue@.contains(x),
            decreases nb@.len() - t,
        {
            let n = nb[t];
            assert(nb@.contains(n));
            let ghost before_q = queue@;
            assert(nb@.take(t + 1).drop_last() =~= nb@.take(t as int));
            if !contains_body(&visited, n) && !contains_body(&queue, n) {
                proof {
                    lemma_connected_step(aspects@, start, cur, n);
                    lemma_conjunct_sym(aspects@, cur, n);
                }
                queue.push(n);
                proof {
                    assert(!visited@.contains(n));
                    assert(nodes@.contains(n));
                    assert(connected(aspects@, start, n));
                    assert forall|x: u64| queue@.contains(x) implies before_q.contains(x) || x
                        == n by {
                        let w = choose|w: int| 0 <= w < queue@.len() && queue@[w] == x;
                        if w < before_q.len() {
                            assert(before_q[w] == x);
                        }
                    }
                    assert forall|x: u64| before_q.contains(x) implies queue@.contains(x) by {
                        let w = choose|w: int| 0 <= w < before_q.len() && before_q[w] == x;
                        assert(queue@[w] == x);
                    }
                    assert(queue@[queue@.len() - 1] == n);
                    assert forall|x: u64| queue@.contains(x) implies !visited@.contains(x)
                        && nodes@.contains(x) && connected(aspects@, start, x) by {
                        if x != n {
                            assert(before_q.contains(x));
                        }
                    }
                    assert forall|k: int| 0 <= k < t + 1 implies visited@.contains(nb@[k])
                        || queue@.contains(nb@[k]) by {
                        if k < t {
                            if !visited@.contains(nb@[k]) {
                                assert(before_q.contains(nb@[k]));
                            }
                        }
                    }
                    assert forall|x: u64| old_queue.contains(x) && x != cur implies queue@.contains(
                        x,
                    ) by {
                        assert(before_q.contains(x));
                    }
                    assert(queue@.no_duplicates()) by {
                        assert forall|i: int, j: int|
                            0 <= i < queue@.len() && 0 <= j < queue@.len() && i != j implies queue@[i]
                            != queue@[j] by {
                            if i < before_q.len() && j < before_q.len() {
                                assert(queue@[i] == before_q[i]);
                                assert(queue@[j] == before_q[j]);
                            } else if i < before_q.len() {
                                assert(before_q.contains(queue@[i]));
                            } else if j < before_q.len() {
                                assert(before_q.contains(queue@[j]));
                            }
                        }
                    }
                }
            }
            t = t + 1;
        }
        proof {
            assert forall|a: u64, b: u64|
                #![trigger comp@.contains(a), conjunct(aspects@, a, b)]
                comp@.contains(a) && conjunct(aspects@, a, b) implies visited@.contains(b)
                    || queue@.contains(b) by {
                if a == cur {
                    assert(nb@.contains(b));
                    let w = choose|w: int| 0 <= w < nb@.len() && nb@[w] == b;
                } else {
                    assert(old_comp.contains(a));
                    if old_visited.contains(b) {
                    } else {
                        assert(old_queue.contains(b));
                    }
                }
            }
            assert(nb@.take(nb@.len() as int) =~= nb@);
            assert(old_visited.len() <= nodes@.len());
            assert(fuel >= 1);
            assert(walk_from(aspects@, conj@, old_visited, old_queue, fuel) == walk_from(
                aspects@,
                conj@,
                visited@,
                queue@,
                (fuel - 1) as nat,
            ));
        }
    }
    proof {
        assert(comp@.len() > 0);
        assert forall|x: u64| v0.contains(x) implies !comp@.contains(x) by {
            if comp@.contains(x) {
                let i = choose|i: int| 0 <= i < v0.len() && v0[i] == x;
                let j = choose|j: int| 0 <= j < comp@.len() && comp@[j] == x;
                assert(visited@[i] == x);
                assert(visited@[v0.len() + j] == x);
            }
        }
        assert forall|x: u64| v0.contains(x) implies visited@.contains(x) by {
            let w = choose|w: int| 0 <= w < v0.len() && v0[w] == x;
            assert(visited@[w] == x);
        }
        assert forall|x: u64| comp@.contains(x) implies visited@.contains(x) by {
            let w = choose|w: int| 0 <= w < comp@.len() && comp@[w] == x;
            assert(visited@[v0.len() + w] == x);
        }
        assert forall|x: u64| visited@.contains(x) implies v0.contains(x) || comp@.contains(x) by {
            let w = choose|w: int| 0 <= w < visited@.len() && visited@[w] == x;
            if w < v0.len() {
                assert(v0[w] == x);
            } else {
                assert(comp@[w - v0.len()] == x);
            }
        }
        assert(closed_under(aspects@, comp@)) by {
            assert forall|a: u64, b: u64|
                #![trigger comp@.contains(a), conjunct(aspects@, a, b)]
                comp@.contains(a) && conjunct(aspects@, a, b) implies comp@.contains(b) by {
                assert(visited@.contains(b));
                if v0.contains(b) {
                    lemma_conjunct_sym(aspects@, a, b);
                    assert(v0.contains(a));
                }
            }
        }
        assert(closed_under(aspects@, visited@)) by {
            assert forall|a: u64, b: u64|
                #![trigger visited@.contains(a), conjunct(aspects@, a, b)]
                visited@.contains(a) && conjunct(aspects@, a, b) implies visited@.contains(b) by {
                if v0.contains(a) {
                    assert(v0.contains(b));
                } else {
                    assert(comp@.contains(b));
                }
            }
        }
        assert(comp@.contains(start)) by {
            assert(comp@[0] == start);
        }
        assert forall|b: u64| connected(aspects@, start, b) implies comp@.contains(b) by {
            lemma_closed_connected(aspects@, comp@, start, b);
        }
        assert(walk_from(aspects@, conj@, visited@, queue@, (fuel0 - comp@.len()) as nat)
            == visited@);
        assert(comp@.no_duplicates()) by {
            assert forall|i: int, j: int|
                0 <= i < comp@.len() && 0 <= j < comp@.len() && i != j implies comp@[i]
                != comp@[j] by {
                assert(visited@[v0.len() + i] == comp@[i]);
                assert(visited@[v0.len() + j] == comp@[j]);
            }
        }
    }
    comp
}

pub open spec fn inside_fn(links: Seq<AspectLink>, conj: Seq<usize>, comp: Seq<u64>) -> spec_fn(
    int,
) -> Seq<usize> {
    |k: int|
        found(
            comp.contains(links[conj[k] as int].body1) && comp.contains(
                links[conj[k] as int].body2,
            ),
            conj[k],
        )
}

/// The positions of the conjunctions with both ends in `comp`, ascending.
pub open spec fn conjunctions_within(links: Seq<AspectLink>, comp: Seq<u64>) -> Seq<usize> {
    let conj = indices_of_type(links, AspectType::Conjunction);
    concat_range(0, conj.len() as int, inside_fn(links, conj, comp))
}

/// `m` is the Stellium of a group of three or more bodies joined by chains
/// of conjunctions: its bodies are exactly those reached from the first,
/// without repeats, the first is the least, and its aspects are the
/// conjunctions inside the group.
pub open spec fn is_stellium_of(links: Seq<AspectLink>, m: MatchView) -> bool {
    &&& m.0 == AspectPattern::Stellium
    &&& m.1.len() >= 3
    &&& m.1.no_duplicates()
    &&& forall|b: u64| #[trigger] m.1.contains(b) <==> connected(links, m.1[0], b)
    &&& forall|k: int| 0 <= k < m.1.len() ==> m.1[0] <= #[trigger] m.1[k]
    &&& m.2 == conjunctions_within(links, m.1)
}

/// The bodies reached from `a` are fewer than three.
pub open spec fn small_group(links: Seq<AspectLink>, a: u64) -> bool {
    exists|c: Seq<u64>|
        c.no_duplicates() && c.len() < 3 && forall|b: u64| #[trigger] c.contains(b) <==> connected(
            links,
            a,
            b,
        )
}

pub open spec fn covered(r: Seq<MatchView>, a: u64) -> bool {
    exists|k: int| 0 <= k < r.len() && #[trigger] r[k].1.contains(a)
}

/// `r` lists the Stelliums: one per group of three or more bodies joined by
/// chains of conjunctions, in ascending order of the group's least body;
/// nothing with fewer than two conjunctions.
pub open spec fn stellium_list(links: Seq<AspectLink>, r: Seq<MatchView>) -> bool {
    if indices_of_type(links, AspectType::Conjunction).len() < 2 {
        r.len() == 0
    } else {
        &&& forall|k: int| 0 <= k < r.len() ==> is_stellium_of(links, #[trigger] r[k])
        &&& forall|k: int, l: int| 0 <= k < l < r.len() ==> #[trigger] r[k].1[0] < #[trigger] r[l].1[0]
        &&& forall|a: u64, b: u64|
            #[trigger] conjunct(links, a, b) ==> small_group(links, a) || covered(r, a)
    }
}

/// The positions of the conjunctions with both ends in `comp`.
fn inside_exec(aspects: &[AspectLink], conj: &Vec<usize>, comp: &Vec<u64>) -> (r: Vec<usize>)
    requires
        conj@ == indices_of_type(aspects@, AspectType::Conjunction),
        all_below(conj@, aspects@.len() as int),
    ensures
        r@ == conjunctions_within(aspects@, comp@),
{
    let mut r: Vec<usize> = Vec::new();
    let mut k: usize = 0;
    while k < conj.len()
        invariant
            all_below(conj@, aspects@.len() as int),
            0 <= k <= conj@.len(),
            r@ == concat_range(0, k as int, inside_fn(aspects@, conj@, comp@)),
        decreases conj@.len() - k,
    {
        let ghost before = r@;
        let l = aspects[conj[k]];
        let hit = contains_body(comp, l.body1) && contains_body(comp, l.body2);
        if hit {
            r.push(conj[k]);
        }
        proof {
            lemma_found(before, hit, conj@[k as int]);
            lemma_concat_range_step(0, k as int, inside_fn(aspects@, conj@, comp@));
        }
        k = k + 1;
    }
    r
}

/// Detect Stelliums: groups of three or more bodies joined by chains of
/// conjunctions.
///
/// Groups are reported in ascending order of their least body, each listing
/// its bodies in the order a breadth-first walk from that body reaches them
/// (neighbours in ascending order) and the positions of the conjunctions
/// inside the group. Nothing is reported with fewer than two conjunctions.
pub fn detect_stellium_named(aspects: &[AspectLink]) -> (r: Vec<AspectPatternMatch>)
    ensures
        match_views(r@) == stelliums_named(aspects@),
        stellium_list(aspects@, match_views(r@)),
{
    let mut out: Vec<AspectPatternMatch> = Vec::new();
    let conj = of_type(aspects, AspectType::Conjunction);
    if conj.len() < 2 {
        assert(match_views(out@) =~= Seq::<MatchView>::empty());
        return out;
    }
    let touched = endpoint_bodies(aspects, &conj);
    let nodes = sorted_bodies(touched.as_slice());
    proof {
        broadcast use vstd::seq_lib::group_to_multiset_ensures;

        lemma_body_le_total();
        touched@.lemma_sort_by_ensures(body_le());
        assert forall|a: u64, b: u64| #[trigger] conjunct(aspects@, a, b) implies nodes@.contains(a) by {
            let i = choose|i: int|
                0 <= i < aspects@.len() && joins(aspects@[i], AspectType::Conjunction, a, b);
            assert(conj@.contains(i as usize));
            let k = choose|k: int| 0 <= k < conj@.len() && conj@[k] == i as usize;
            let pair = endpoints_fn(aspects@, conj@)(k);
            assert(pair == seq![aspects@[i].body1, aspects@[i].body2]);
            if aspects@[i].body1 == a {
                assert(pair[0] == a);
            } else {
                assert(pair[1] == a);
            }
            lemma_concat_range_contains(0, conj@.len() as int, endpoints_fn(aspects@, conj@), k, a);
            lemma_dedup_contains(concat_range(0, conj@.len() as int, endpoints_fn(aspects@, conj@)), a);
            assert(touched@.to_multiset().count(a) > 0);
        }
    }
    let mut visited: Vec<u64> = Vec::new();
    assert(match_views(out@) =~= Seq::<MatchView>::empty());
    assert(nodes@ == stellium_nodes(aspects@));
    let n = nodes.len();
    let mut s: usize = 0;
    while s < n
        invariant
            conjunction_positions(aspects@, conj@),
            conj@ == indices_of_type(aspects@, AspectType::Conjunction),
            conj@.len() >= 2,
            covers_endpoints(aspects@, nodes@),
            sorted_by(nodes@, body_le()),
            n == nodes@.len(),
            0 <= s <= n,
            visited@.no_duplicates(),
            within(visited@, nodes@),
            closed_under(aspects@, visited@),
            forall|t: int| 0 <= t < s ==> visited@.contains(#[trigger] nodes@[t]),
            forall|k: int|
                0 <= k < out@.len() ==> is_stellium_of(aspects@, #[trigger] match_views(out@)[k]),
            forall|k: int, l: int|
                0 <= k < l < out@.len() ==> #[trigger] match_views(out@)[k].1[0]
                    < #[trigger] match_views(out@)[l].1[0],
            forall|k: int|
                0 <= k < out@.len() ==> visited@.contains(#[trigger] match_views(out@)[k].1[0]),
            s > 0 ==> forall|k: int|
                0 <= k < out@.len() ==> #[trigger] match_views(out@)[k].1[0] <= nodes@[s - 1],
            s == 0 ==> out@.len() == 0,
            nodes@ == stellium_nodes(aspects@),
            (visited@, match_views(out@)) == stellium_scan(aspects@, s as int),
            forall|x: u64|
                #[trigger] visited@.contains(x) ==> small_group(aspects@, x) || covered(
                    match_views(out@),
                    x,
                ),
        decreases n - s,
    {
        let start = nodes[s];
        let ghost vis_before = visited@;
        let ghost out_before = match_views(out@);
        if !contains_body(&visited, start) {
            let ghost old_visited = visited@;
            let ghost old_out = match_views(out@);
            let comp = walk_component(aspects, &conj, &nodes, &mut visited, start);
            proof {
                assert forall|k: int| 0 <= k < comp@.len() implies start <= #[trigger] comp@[k] by {
                    let b = comp@[k];
                    assert(comp@.contains(b));
                    if b < start {
                        lemma_connected_endpoint(aspects@, start, b);
                        let c = choose|c: u64| conjunct(aspects@, b, c);
                        assert(nodes@.contains(b));
                        let t = choose|t: int| 0 <= t < nodes@.len() && nodes@[t] == b;
                        if t >= s {
                            assert(body_le()(nodes@[s as int], nodes@[t]));
                        }
                        assert(old_visited.contains(b));
                        lemma_connected_sym(aspects@, start, b);
                        lemma_closed_connected(aspects@, old_visited, b, start);
                    }
                }
                assert forall|x: u64| old_visited.contains(x) implies visited@.contains(x) by {
                    let w = choose|w: int| 0 <= w < old_visited.len() && old_visited[w] == x;
                    assert(visited@[w] == x);
                }
                assert forall|x: u64| visited@.contains(x) implies old_visited.contains(x)
                    || comp@.contains(x) by {
                    let w = choose|w: int| 0 <= w < visited@.len() && visited@[w] == x;
                    if w < old_visited.len() {
                        assert(old_visited[w] == x);
                    } else {
                        assert(comp@[w - old_visited.len()] == x);
                    }
                }
                assert forall|x: u64, b: u64| comp@.contains(x) implies (#[trigger] connected(
                    aspects@,
                    x,
                    b,
                ) <==> comp@.contains(b)) by {
                    lemma_connected_sym(aspects@, start, x);
                    if connected(aspects@, x, b) {
                        lemma_connected_trans(aspects@, start, x, b);
                    }
                    if comp@.contains(b) {
                        lemma_connected_trans(aspects@, x, start, b);
                    }
                }
            }
            if comp.len() >= 3 {
                let positions = inside_exec(aspects, &conj, &comp);
                let m = AspectPatternMatch {
                    pattern_type: AspectPattern::Stellium,
                    bodies: comp,
                    aspects: positions,
                };
                let ghost mv = m@;
                out.push(m);
                proof {
                    assert(match_views(out@) =~= old_out.push(mv));
                    assert(comp@ =~= visited@.subrange(old_visited.len() as int, visited@.len() as int));
                    assert(is_stellium_of(aspects@, mv));
                    assert forall|x: u64| #[trigger] visited@.contains(x) implies small_group(
                        aspects@,
                        x,
                    ) || covered(match_views(out@), x) by {
                        if old_visited.contains(x) {
                            if covered(old_out, x) {
                                let k = choose|k: int| 0 <= k < old_out.len() && #[trigger] old_out[k].1.contains(x);
                                assert(match_views(out@)[k] == old_out[k]);
                            }
                        } else {
                            assert(match_views(out@)[old_out.len() as int].1.contains(x));
                        }
                    }
                }
            } else {
                proof {
                    assert forall|x: u64| #[trigger] visited@.contains(x) implies small_group(
                        aspects@,
                        x,
                    ) || covered(match_views(out@), x) by {
                        if !old_visited.contains(x) {
                            assert(comp@.contains(x));
                            assert(forall|b: u64| #[trigger] comp@.contains(b) <==> connected(aspects@, x, b));
                        }
                    }
                    assert(match_views(out@) =~= old_out);
                    assert(comp@ =~= visited@.subrange(old_visited.len() as int, visited@.len() as int));
                }
            }
            assert(comp@[0] == start);
            assert(visited@[old_visited.len() as int] == start);
        }
        proof {
            assert(visited@.contains(start));
            assert forall|t: int| 0 <= t < s + 1 implies visited@.contains(#[trigger] nodes@[t]) by {
                if t < s {
                    assert(vis_before.contains(nodes@[t]));
                }
            }
            assert forall|k: int| 0 <= k < out@.len() implies #[trigger] match_views(out@)[k].1[0]
                <= nodes@[s as int] by {
                if k < out_before.len() {
                    assert(match_views(out@)[k] == out_before[k]);
                    assert(body_le()(nodes@[s - 1], nodes@[s as int]));
                }
            }
        }
        s = s + 1;
    }
    proof {
        assert forall|a: u64, b: u64| #[trigger] conjunct(aspects@, a, b) implies small_group(
            aspects@,
            a,
        ) || covered(match_views(out@), a) by {
            assert(nodes@.contains(a));
            let t = choose|t: int| 0 <= t < nodes@.len() && nodes@[t] == a;
            assert(visited@.contains(nodes@[t]));
        }
    }
    out
}

// ---------------------------------------------------------------------------
// All named patterns
// ---------------------------------------------------------------------------

/// The patterns other than Stelliums, in the order `find_named_patterns`
/// reports them.
pub open spec fn named_patterns_before_stelliums(links: Seq<AspectLink>) -> Seq<MatchView> {
    grand_crosses_named(links) + kites_named(links) + mystic_rectangles_named(links)
        + grand_trines_named(links) + t_squares(links) + yods(links)
}

fn append_matches(out: &mut Vec<AspectPatternMatch>, more: Vec<AspectPatternMatch>)
    ensures
        match_views(final(out)@) == match_views(old(out)@) + match_views(more@),
{
    let mut more = more;
    let ghost a = out@;
    let ghost b = more@;
    out.append(&mut more);
    assert(match_views(a + b) =~= match_views(a) + match_views(b));
}

/// Find every named-body pattern, in order of rarity: Grand Crosses, Kites,
/// Mystic Rectangles, Grand Trines, T-Squares, Yods, then Stelliums, each
/// kind as its own detector reports it.
pub fn find_named_patterns(aspects: &[AspectLink]) -> (r: Vec<AspectPatternMatch>)
    ensures
        match_views(r@) == named_patterns_before_stelliums(aspects@) + stelliums_named(aspects@),
        stellium_list(
            aspects@,
            match_views(r@).subrange(
                named_patterns_before_stelliums(aspects@).len() as int,
                r@.len() as int,
            ),
        ),
{
    let mut patterns: Vec<AspectPatternMatch> = Vec::new();
    assert(match_views(patterns@) =~= Seq::<MatchView>::empty());
    append_matches(&mut patterns, detect_grand_cross_named(aspects));
    append_matches(&mut patterns, detect_kite_named(aspects));
    append_matches(&mut patterns, detect_mystic_rectangle_named(aspects));
    append_matches(&mut patterns, detect_grand_trine_named(aspects));
    append_matches(&mut patterns, detect_t_square_named(aspects));
    append_matches(&mut patterns, detect_yod_named(aspects));
    let ghost head = match_views(patterns@);
    assert(head =~= named_patterns_before_stelliums(aspects@));
    let stelliums = detect_stellium_named(aspects);
    let ghost tail = match_views(stelliums@);
    append_matches(&mut patterns, stelliums);
    assert(match_views(patterns@) == head + tail);
    assert(match_views(patterns@).len() == patterns@.len());
    assert(match_views(patterns@).subrange(0, head.len() as int) =~= head);
    assert(match_views(patterns@).subrange(head.len() as int, patterns@.len() as int) =~= tail);
    patterns
}

// ---------------------------------------------------------------------------
// What every reported pattern is made of
// ---------------------------------------------------------------------------

/// The aspects listed with `m` are the aspects its kind is made of, each
/// between the right two of its bodies (Stelliums are described by
/// [`stellium_list`]).
pub open spec fn well_formed_match(links: Seq<AspectLink>, m: MatchView) -> bool {
    let b = m.1;
    let a = m.2;
    &&& all_below(a, links.len() as int)
    &&& match m.0 {
        AspectPattern::TSquare => {
            &&& b.len() == 3 && a.len() == 3
            &&& joins(links[a[0] as int], AspectType::Opposition, b[0], b[1])
            &&& joins(links[a[1] as int], AspectType::Square, b[0], b[2])
            &&& joins(links[a[2] as int], AspectType::Square, b[1], b[2])
        },
        AspectPattern::Yod => {
            &&& b.len() == 3 && a.len() == 3
            &&& joins(links[a[0] as int], AspectType::Sextile, b[0], b[1])
            &&& joins(links[a[1] as int], AspectType::Quincunx, b[0], b[2])
            &&& joins(links[a[2] as int], AspectType::Quincunx, b[1], b[2])
        },
        AspectPattern::GrandTrine => {
            &&& b.len() == 3 && a.len() == 3
            &&& joins(links[a[0] as int], AspectType::Trine, b[0], b[1])
            &&& joins(links[a[1] as int], AspectType::Trine, b[1], b[2])
            &&& joins(links[a[2] as int], AspectType::Trine, b[0], b[2])
        },
        AspectPattern::GrandCross => {
            &&& b.len() == 4 && a.len() == 6
            &&& joins(links[a[0] as int], AspectType::Opposition, b[0], b[1])
            &&& joins(links[a[1] as int], AspectType::Opposition, b[2], b[3])
            &&& joins(links[a[2] as int], AspectType::Square, b[0], b[2])
            &&& joins(links[a[3] as int], AspectType::Square, b[0], b[3])
            &&& joins(links[a[4] as int], AspectType::Square, b[1], b[2])
            &&& joins(links[a[5] as int], AspectType::Square, b[1], b[3])
        },
        AspectPattern::MysticRectangle => {
            &&& b.len() == 4 && a.len() == 6
            &&& joins(links[a[0] as int], AspectType::Opposition, b[0], b[1])
            &&& joins(links[a[1] as int], AspectType::Opposition, b[2], b[3])
            &&& {
                ||| {
                    &&& joins(links[a[2] as int], AspectType::Trine, b[0], b[2])
                    &&& joins(links[a[3] as int], AspectType::Trine, b[1], b[3])
                    &&& joins(links[a[4] as int], AspectType::Sextile, b[0], b[3])
                    &&& joins(links[a[5] as int], AspectType::Sextile, b[1], b[2])
                }
                ||| {
                    &&& joins(links[a[2] as int], AspectType::Trine, b[0], b[3])
                    &&& joins(links[a[3] as int], AspectType::Trine, b[1], b[2])
                    &&& joins(links[a[4] as int], AspectType::Sextile, b[0], b[2])
                    &&& joins(links[a[5] as int], AspectType::Sextile, b[1], b[3])
                }
            }
        },
        AspectPattern::Kite => {
            &&& b.len() == 4 && a.len() == 6
            &&& joins(links[a[0] as int], AspectType::Trine, b[0], b[1])
            &&& joins(links[a[1] as int], AspectType::Trine, b[1], b[2])
            &&& joins(links[a[2] as int], AspectType::Trine, b[0], b[2])
            &&& exists|v: int|
                0 <= v < 3 && joins(links[a[3] as int], AspectType::Opposition, b[v], b[3]) && (
                exists|x: int|
                    0 <= x < 3 && b[x] != b[v] && joins(
                        links[a[4] as int],
                        AspectType::Sextile,
                        b[3],
                        b[x],
                    )) && (exists|y: int|
                    0 <= y < 3 && b[y] != b[v] && joins(
                        links[a[5] as int],
                        AspectType::Sextile,
                        b[3],
                        b[y],
                    ))
        },
        AspectPattern::Stellium => true,
    }
}

pub open spec fn well_formed_fn(links: Seq<AspectLink>) -> spec_fn(MatchView) -> bool {
    |m: MatchView| well_formed_match(links, m)
}

proof fn lemma_dedup_by_bodies_all(s: Seq<MatchView>, p: spec_fn(MatchView) -> bool)
    requires
        all_satisfy(s, p),
    ensures
        all_satisfy(dedup_by_bodies(s), p),
    decreases s.len(),
{
    if s.len() > 0 {
        let prev = s.drop_last();
        assert(all_satisfy(prev, p)) by {
            assert forall|k: int| 0 <= k < prev.len() implies #[trigger] p(prev[k]) by {
                assert(prev[k] == s[k]);
            }
        }
        lemma_dedup_by_bodies_all(prev, p);
        assert(p(s[s.len() - 1]));
    }
}

/// Kept patterns never share their set of bodies.
proof fn lemma_dedup_by_bodies_distinct(s: Seq<MatchView>)
    ensures
        forall|k: int, l: int|
            0 <= k < l < dedup_by_bodies(s).len() ==> body_key(#[trigger] dedup_by_bodies(s)[k])
                != body_key(#[trigger] dedup_by_bodies(s)[l]),
    decreases s.len(),
{
    if s.len() > 0 {
        let prev = dedup_by_bodies(s.drop_last());
        lemma_dedup_by_bodies_distinct(s.drop_last());
        if !body_keys(prev).contains(body_key(s.last())) {
            let d = prev.push(s.last());
            assert forall|k: int, l: int| 0 <= k < l < d.len() implies body_key(#[trigger] d[k])
                != body_key(#[trigger] d[l]) by {
                if l == prev.len() {
                    assert(body_keys(prev)[k] == body_key(prev[k]));
                } else {
                    assert(d[k] == prev[k]);
                    assert(d[l] == prev[l]);
                }
            }
        }
    }
}

pub open spec fn typed_below(links: Seq<AspectLink>, t: AspectType) -> spec_fn(usize) -> bool {
    |i: usize| i < links.len() && links[i as int].aspect_type == t
}

pub open spec fn typed_touching(links: Seq<AspectLink>, t: AspectType, b: u64) -> spec_fn(
    usize,
) -> bool {
    |i: usize| i < links.len() && links[i as int].aspect_type == t && touches(links[i as int], b)
}

proof fn lemma_indices_of_type_all(links: Seq<AspectLink>, t: AspectType)
    requires
        links.len() <= usize::MAX,
    ensures
        all_satisfy(indices_of_type(links, t), typed_below(links, t)),
{
    assert forall|i: int| 0 <= i < links.len() implies all_satisfy(
        #[trigger] type_member_fn(links, t)(i),
        typed_below(links, t),
    ) by {
        lemma_found_all(links[i].aspect_type == t, i as usize, typed_below(links, t));
    }
    lemma_concat_range_all(0, links.len() as int, type_member_fn(links, t), typed_below(links, t));
}

proof fn lemma_touching_all(links: Seq<AspectLink>, t: AspectType, idx: Seq<usize>, b: u64)
    requires
        all_satisfy(idx, typed_below(links, t)),
    ensures
        all_satisfy(touching(links, idx, b), typed_touching(links, t, b)),
{
    assert forall|k: int| 0 <= k < idx.len() implies all_satisfy(
        #[trigger] touching_fn(links, idx, b)(k),
        typed_touching(links, t, b),
    ) by {
        assert(typed_below(links, t)(idx[k]));
        lemma_found_all(
            touches(links[idx[k] as int], b),
            idx[k],
            typed_touching(links, t, b),
        );
    }
    lemma_concat_range_all(0, idx.len() as int, touching_fn(links, idx, b), typed_touching(links, t, b));
}

proof fn lemma_first_between_from(links: Seq<AspectLink>, t: AspectType, a: u64, b: u64, lo: int)
    requires
        links.len() <= usize::MAX,
    ensures
        first_between_from(links, t, a, b, lo) matches Some(i) ==> i < links.len() && joins(
            links[i as int],
            t,
            a,
            b,
        ),
    decreases links.len() - lo,
{
    if 0 <= lo < links.len() && !joins(links[lo], t, a, b) {
        lemma_first_between_from(links, t, a, b, lo + 1);
    }
}

proof fn lemma_first_between(links: Seq<AspectLink>, t: AspectType, a: u64, b: u64)
    requires
        links.len() <= usize::MAX,
    ensures
        first_between(links, t, a, b) matches Some(i) ==> i < links.len() && joins(
            links[i as int],
            t,
            a,
            b,
        ),
{
    lemma_first_between_from(links, t, a, b, 0);
}

/// The arm from `known` reaches the far end.
proof fn lemma_arm_joins(l: AspectLink, t: AspectType, known: u64)
    requires
        l.aspect_type == t,
        touches(l, known),
    ensures
        joins(l, t, known, far_end(l, known)),
{
}

proof fn lemma_focal_well_formed(
    links: Seq<AspectLink>,
    pattern: AspectPattern,
    base_type: AspectType,
    arm_type: AspectType,
)
    requires
        links.len() <= usize::MAX,
        pattern == AspectPattern::TSquare ==> base_type == AspectType::Opposition && arm_type
            == AspectType::Square,
        pattern == AspectPattern::Yod ==> base_type == AspectType::Sextile && arm_type
            == AspectType::Quincunx,
        pattern == AspectPattern::TSquare || pattern == AspectPattern::Yod,
    ensures
        all_satisfy(focal_candidates(links, pattern, base_type, arm_type), well_formed_fn(links)),
{
    let bases = indices_of_type(links, base_type);
    let arms = indices_of_type(links, arm_type);
    let wf = well_formed_fn(links);
    lemma_indices_of_type_all(links, base_type);
    lemma_indices_of_type_all(links, arm_type);
    assert forall|x: int| 0 <= x < bases.len() implies all_satisfy(
        #[trigger] focal_base_fn(links, pattern, bases, arm_type)(x),
        wf,
    ) by {
        let base = bases[x];
        assert(typed_below(links, base_type)(base));
        let l = links[base as int];
        let from1 = touching(links, arms, l.body1);
        let from2 = touching(links, arms, l.body2);
        lemma_touching_all(links, arm_type, arms, l.body1);
        lemma_touching_all(links, arm_type, arms, l.body2);
        assert forall|y: int| 0 <= y < from1.len() implies all_satisfy(
            #[trigger] focal_arm1_fn(links, pattern, base, from1, from2)(y),
            wf,
        ) by {
            let arm1 = from1[y];
            assert(typed_touching(links, arm_type, l.body1)(arm1));
            assert forall|z: int| 0 <= z < from2.len() implies all_satisfy(
                #[trigger] focal_arm2_fn(links, pattern, base, arm1, from2)(z),
                wf,
            ) by {
                let arm2 = from2[z];
                assert(typed_touching(links, arm_type, l.body2)(arm2));
                let apex1 = far_end(links[arm1 as int], l.body1);
                let apex2 = far_end(links[arm2 as int], l.body2);
                let m: MatchView = (pattern, seq![l.body1, l.body2, apex1], seq![base, arm1, arm2]);
                lemma_arm_joins(links[arm1 as int], arm_type, l.body1);
                lemma_arm_joins(links[arm2 as int], arm_type, l.body2);
                assert(apex1 == apex2 ==> wf(m));
                lemma_found_all(apex1 == apex2 && apex1 != l.body1 && apex1 != l.body2, m, wf);
            }
            lemma_concat_range_all(0, from2.len() as int, focal_arm2_fn(links, pattern, base, arm1, from2), wf);
        }
        lemma_concat_range_all(0, from1.len() as int, focal_arm1_fn(links, pattern, base, from1, from2), wf);
    }
    lemma_concat_range_all(0, bases.len() as int, focal_base_fn(links, pattern, bases, arm_type), wf);
}

proof fn lemma_grand_trines_well_formed(links: Seq<AspectLink>)
    requires
        links.len() <= usize::MAX,
    ensures
        all_satisfy(grand_trines_named(links), well_formed_fn(links)),
{
    let wf = well_formed_fn(links);
    if indices_of_type(links, AspectType::Trine).len() >= 3 {
        let bodies = trine_bodies(links);
        let n = bodies.len() as int;
        assert forall|i: int| 0 <= i < n implies all_satisfy(#[trigger] gt_i_fn(links, bodies)(i), wf) by {
            assert forall|j: int| i + 1 <= j < n implies all_satisfy(
                #[trigger] gt_j_fn(links, bodies, i)(j),
                wf,
            ) by {
                assert forall|k: int| j + 1 <= k < n implies all_satisfy(
                    #[trigger] gt_k_fn(links, bodies, i, j)(k),
                    wf,
                ) by {
                    let (a, b, c) = (bodies[i], bodies[j], bodies[k]);
                    lemma_first_between(links, AspectType::Trine, a, b);
                    lemma_first_between(links, AspectType::Trine, b, c);
                    lemma_first_between(links, AspectType::Trine, a, c);
                    let r = grand_trine_on(links, a, b, c);
                    if r.len() > 0 {
                        assert(wf(r[0]));
                    }
                }
                lemma_concat_range_all(j + 1, n, gt_k_fn(links, bodies, i, j), wf);
            }
            lemma_concat_range_all(i + 1, n, gt_j_fn(links, bodies, i), wf);
        }
        lemma_concat_range_all(0, n, gt_i_fn(links, bodies), wf);
    }
}

proof fn lemma_grand_crosses_well_formed(links: Seq<AspectLink>)
    requires
        links.len() <= usize::MAX,
    ensures
        all_satisfy(grand_crosses_named(links), well_formed_fn(links)),
{
    let wf = well_formed_fn(links);
    let opps = indices_of_type(links, AspectType::Opposition);
    let n = opps.len() as int;
    lemma_indices_of_type_all(links, AspectType::Opposition);
    assert forall|i: int| 0 <= i < n implies all_satisfy(#[trigger] cross_i_fn(links, opps)(i), wf) by {
        assert forall|j: int| i + 1 <= j < n implies all_satisfy(
            #[trigger] cross_j_fn(links, opps, i)(j),
            wf,
        ) by {
            assert(typed_below(links, AspectType::Opposition)(opps[i]));
            assert(typed_below(links, AspectType::Opposition)(opps[j]));
            let o1 = links[opps[i] as int];
            let o2 = links[opps[j] as int];
            lemma_first_between(links, AspectType::Square, o1.body1, o2.body1);
            lemma_first_between(links, AspectType::Square, o1.body1, o2.body2);
            lemma_first_between(links, AspectType::Square, o1.body2, o2.body1);
            lemma_first_between(links, AspectType::Square, o1.body2, o2.body2);
            let r = grand_cross_at(links, opps, i, j);
            if r.len() > 0 {
                assert(wf(r[0]));
            }
        }
        lemma_concat_range_all(i + 1, n, cross_j_fn(links, opps, i), wf);
    }
    lemma_concat_range_all(0, n, cross_i_fn(links, opps), wf);
}

proof fn lemma_mystic_rectangles_well_formed(links: Seq<AspectLink>)
    requires
        links.len() <= usize::MAX,
    ensures
        all_satisfy(mystic_rectangles_named(links), well_formed_fn(links)),
{
    let wf = well_formed_fn(links);
    let opps = indices_of_type(links, AspectType::Opposition);
    let n = opps.len() as int;
    lemma_indices_of_type_all(links, AspectType::Opposition);
    assert forall|i: int| 0 <= i < n implies all_satisfy(#[trigger] rect_i_fn(links, opps)(i), wf) by {
        assert forall|j: int| i + 1 <= j < n implies all_satisfy(
            #[trigger] rect_j_fn(links, opps, i)(j),
            wf,
        ) by {
            assert(typed_below(links, AspectType::Opposition)(opps[i]));
            assert(typed_below(links, AspectType::Opposition)(opps[j]));
            let o1 = links[opps[i] as int];
            let o2 = links[opps[j] as int];
            lemma_first_between(links, AspectType::Trine, o1.body1, o2.body1);
            lemma_first_between(links, AspectType::Trine, o1.body2, o2.body2);
            lemma_first_between(links, AspectType::Trine, o1.body1, o2.body2);
            lemma_first_between(links, AspectType::Trine, o1.body2, o2.body1);
            lemma_first_between(links, AspectType::Sextile, o1.body1, o2.body1);
            lemma_first_between(links, AspectType::Sextile, o1.body2, o2.body2);
            lemma_first_between(links, AspectType::Sextile, o1.body1, o2.body2);
            lemma_first_between(links, AspectType::Sextile, o1.body2, o2.body1);
            let r1 = rectangle_at(links, opps, i, j, false);
            let r2 = rectangle_at(links, opps, i, j, true);
            if r1.len() > 0 {
                assert(wf(r1[0]));
            }
            if r2.len() > 0 {
                assert(wf(r2[0]));
            }
            lemma_all_satisfy_add(r1, r2, wf);
        }
        lemma_concat_range_all(i + 1, n, rect_j_fn(links, opps, i), wf);
    }
    lemma_concat_range_all(0, n, rect_i_fn(links, opps), wf);
    lemma_dedup_by_bodies_all(concat_range(0, n, rect_i_fn(links, opps)), wf);
}

proof fn lemma_kite_tail_from(
    links: Seq<AspectLink>,
    opps: Seq<usize>,
    vertex: u64,
    trine: Seq<u64>,
    lo: int,
)
    requires
        all_satisfy(opps, typed_below(links, AspectType::Opposition)),
    ensures
        kite_tail_from(links, opps, vertex, trine, lo) matches Some(i) ==> {
            &&& typed_touching(links, AspectType::Opposition, vertex)(i)
            &&& !trine.contains(far_end(links[i as int], vertex))
        },
    decreases opps.len() - lo,
{
    if 0 <= lo < opps.len() {
        assert(typed_below(links, AspectType::Opposition)(opps[lo]));
        lemma_kite_tail_from(links, opps, vertex, trine, lo + 1);
    }
}

pub open spec fn other_than(bodies: Seq<u64>, vertex: u64) -> spec_fn(u64) -> bool {
    |x: u64| bodies.contains(x) && x != vertex
}

proof fn lemma_other_vertices(bodies: Seq<u64>, vertex: u64)
    ensures
        all_satisfy(other_vertices(bodies, vertex), other_than(bodies, vertex)),
{
    assert forall|x: int| 0 <= x < bodies.len() implies all_satisfy(
        #[trigger] others_fn(bodies, vertex)(x),
        other_than(bodies, vertex),
    ) by {
        assert(bodies.contains(bodies[x]));
        lemma_found_all(bodies[x] != vertex, bodies[x], other_than(bodies, vertex));
    }
    lemma_concat_range_all(
        0,
        bodies.len() as int,
        others_fn(bodies, vertex),
        other_than(bodies, vertex),
    );
}

proof fn lemma_kites_well_formed(links: Seq<AspectLink>)
    requires
        links.len() <= usize::MAX,
    ensures
        all_satisfy(kites_named(links), well_formed_fn(links)),
{
    let wf = well_formed_fn(links);
    let gts = grand_trines_named(links);
    let opps = indices_of_type(links, AspectType::Opposition);
    lemma_grand_trines_well_formed(links);
    lemma_indices_of_type_all(links, AspectType::Opposition);
    assert forall|g: int| 0 <= g < gts.len() implies all_satisfy(#[trigger] kite_g_fn(links, gts)(g), wf) by {
        let gt = gts[g];
        assert(wf(gt));
        assert(gt.0 == AspectPattern::GrandTrine) by {
            lemma_grand_trines_are_grand_trines(links);
            assert(is_kind(AspectPattern::GrandTrine)(gts[g]));
        }
        assert forall|v: int| 0 <= v < gt.1.len() implies all_satisfy(#[trigger] kite_v_fn(links, gt)(v), wf) by {
            let vertex = gt.1[v];
            let opp = kite_tail(links, vertex, gt.1);
            lemma_kite_tail_from(links, opps, vertex, gt.1, 0);
            let r = kite_at(links, gt, v);
            if r.len() > 0 {
                let o = opp->0;
                let fourth = far_end(links[o as int], vertex);
                let ov = other_vertices(gt.1, vertex);
                lemma_other_vertices(gt.1, vertex);
                assert(other_than(gt.1, vertex)(ov[0]));
                assert(other_than(gt.1, vertex)(ov[1]));
                let x = choose|x: int| 0 <= x < gt.1.len() && gt.1[x] == ov[0];
                let y = choose|y: int| 0 <= y < gt.1.len() && gt.1[y] == ov[1];
                let s1 = first_between(links, AspectType::Sextile, fourth, ov[0]);
                let s2 = first_between(links, AspectType::Sextile, fourth, ov[1]);
                lemma_first_between(links, AspectType::Sextile, fourth, ov[0]);
                lemma_first_between(links, AspectType::Sextile, fourth, ov[1]);
                lemma_arm_joins(links[o as int], AspectType::Opposition, vertex);
                let m = r[0];
                assert(m == (AspectPattern::Kite, gt.1.push(fourth), gt.2 + seq![o, s1->0, s2->0]));
                let b = m.1;
                let a = m.2;
                assert(b[3] == fourth);
                assert(b[v] == vertex);
                assert(b[x] == ov[0]);
                assert(b[y] == ov[1]);
                assert(a[3] == o);
                assert(a[4] == s1->0);
                assert(a[5] == s2->0);
                assert(a[0] == gt.2[0] && a[1] == gt.2[1] && a[2] == gt.2[2]);
                assert(b[0] == gt.1[0] && b[1] == gt.1[1] && b[2] == gt.1[2]);
                assert(all_below(a, links.len() as int)) by {
                    assert forall|k: int| 0 <= k < a.len() implies a[k] < links.len() by {
                        if k < 3 {
                            assert(a[k] == gt.2[k]);
                        }
                    }
                }
                assert(wf(m));
            }
        }
        lemma_concat_range_all(0, gt.1.len() as int, kite_v_fn(links, gt), wf);
    }
    lemma_concat_range_all(0, gts.len() as int, kite_g_fn(links, gts), wf);
}

pub open spec fn is_kind(p: AspectPattern) -> spec_fn(MatchView) -> bool {
    |m: MatchView| m.0 == p
}

proof fn lemma_grand_trines_are_grand_trines(links: Seq<AspectLink>)
    ensures
        all_satisfy(grand_trines_named(links), is_kind(AspectPattern::GrandTrine)),
{
    let p = is_kind(AspectPattern::GrandTrine);
    if indices_of_type(links, AspectType::Trine).len() >= 3 {
        let bodies = trine_bodies(links);
        let n = bodies.len() as int;
        assert forall|i: int| 0 <= i < n implies all_satisfy(#[trigger] gt_i_fn(links, bodies)(i), p) by {
            assert forall|j: int| i + 1 <= j < n implies all_satisfy(
                #[trigger] gt_j_fn(links, bodies, i)(j),
                p,
            ) by {
                assert forall|k: int| j + 1 <= k < n implies all_satisfy(
                    #[trigger] gt_k_fn(links, bodies, i, j)(k),
                    p,
                ) by {
                    let r = grand_trine_on(links, bodies[i], bodies[j], bodies[k]);
                    if r.len() > 0 {
                        assert(p(r[0]));
                    }
                }
                lemma_concat_range_all(j + 1, n, gt_k_fn(links, bodies, i, j), p);
            }
            lemma_concat_range_all(i + 1, n, gt_j_fn(links, bodies, i), p);
        }
        lemma_concat_range_all(0, n, gt_i_fn(links, bodies), p);
    }
}

/// Every pattern the named-body detectors report (Stelliums aside, which
/// [`stellium_list`] describes) lists the aspects its shape is made of,
/// each of the right kind and between the right two of its bodies: a
/// T-Square an opposition and two squares to the apex, a Yod a sextile and
/// two quincunxes, a Grand Trine three trines, a Grand Cross two oppositions
/// and four squares, a Mystic Rectangle two oppositions, two trines and two
/// sextiles, a Kite a Grand Trine's three trines, an opposition from one
/// vertex to the tail and two sextiles from the tail to the other vertices.
pub proof fn lemma_named_patterns_well_formed(links: Seq<AspectLink>)
    requires
        links.len() <= usize::MAX,
    ensures
        all_satisfy(t_squares(links), well_formed_fn(links)),
        all_satisfy(yods(links), well_formed_fn(links)),
        all_satisfy(grand_trines_named(links), well_formed_fn(links)),
        all_satisfy(grand_crosses_named(links), well_formed_fn(links)),
        all_satisfy(mystic_rectangles_named(links), well_formed_fn(links)),
        all_satisfy(kites_named(links), well_formed_fn(links)),
        all_satisfy(named_patterns_before_stelliums(links), well_formed_fn(links)),
{
    let wf = well_formed_fn(links);
    lemma_focal_well_formed(links, AspectPattern::TSquare, AspectType::Opposition, AspectType::Square);
    lemma_dedup_by_bodies_all(
        focal_candidates(links, AspectPattern::TSquare, AspectType::Opposition, AspectType::Square),
        wf,
    );
    lemma_focal_well_formed(links, AspectPattern::Yod, AspectType::Sextile, AspectType::Quincunx);
    lemma_dedup_by_bodies_all(
        focal_candidates(links, AspectPattern::Yod, AspectType::Sextile, AspectType::Quincunx),
        wf,
    );
    lemma_grand_trines_well_formed(links);
    lemma_grand_crosses_well_formed(links);
    lemma_mystic_rectangles_well_formed(links);
    lemma_kites_well_formed(links);
    lemma_all_satisfy_add(grand_crosses_named(links), kites_named(links), wf);
    lemma_all_satisfy_add(
        grand_crosses_named(links) + kites_named(links),
        mystic_rectangles_named(links),
        wf,
    );
    lemma_all_satisfy_add(
        grand_crosses_named(links) + kites_named(links) + mystic_rectangles_named(links),
        grand_trines_named(links),
        wf,
    );
    lemma_all_satisfy_add(
        grand_crosses_named(links) + kites_named(links) + mystic_rectangles_named(links)
            + grand_trines_named(links),
        t_squares(links),
        wf,
    );
    lemma_all_satisfy_add(
        grand_crosses_named(links) + kites_named(links) + mystic_rectangles_named(links)
            + grand_trines_named(links) + t_squares(links),
        yods(links),
        wf,
    );
}

/// T-Squares, Yods and Mystic Rectangles report each set of bodies at most
/// once: no two results list the same bodies (in any order).
pub proof fn lemma_one_pattern_per_body_set(links: Seq<AspectLink>)
    ensures
        forall|k: int, l: int|
            0 <= k < l < t_squares(links).len() ==> body_key(#[trigger] t_squares(links)[k])
                != body_key(#[trigger] t_squares(links)[l]),
        forall|k: int, l: int|
            0 <= k < l < yods(links).len() ==> body_key(#[trigger] yods(links)[k]) != body_key(
                #[trigger] yods(links)[l],
            ),
        forall|k: int, l: int|
            0 <= k < l < mystic_rectangles_named(links).len() ==> body_key(
                #[trigger] mystic_rectangles_named(links)[k],
            ) != body_key(#[trigger] mystic_rectangles_named(links)[l]),
{
    lemma_dedup_by_bodies_distinct(
        focal_candidates(links, AspectPattern::TSquare, AspectType::Opposition, AspectType::Square),
    );
    lemma_dedup_by_bodies_distinct(
        focal_candidates(links, AspectPattern::Yod, AspectType::Sextile, AspectType::Quincunx),
    );
    let opps = indices_of_type(links, AspectType::Opposition);
    lemma_dedup_by_bodies_distinct(concat_range(0, opps.len() as int, rect_i_fn(links, opps)));
}


// ---------------------------------------------------------------------------
// Nothing is missed
// ---------------------------------------------------------------------------

proof fn lemma_indices_ascending(links: Seq<AspectLink>, t: AspectType, hi: int)
    requires
        0 <= hi <= links.len(),
        links.len() <= usize::MAX,
    ensures
        ({
            let c = concat_range(0, hi, type_member_fn(links, t));
            &&& forall|x: int| 0 <= x < c.len() ==> #[trigger] c[x] < hi
            &&& forall|a: int, b: int| 0 <= a < b < c.len() ==> #[trigger] c[a] < #[trigger] c[b]
        }),
    decreases hi,
{
    if hi > 0 {
        lemma_indices_ascending(links, t, hi - 1);
        let prev = concat_range(0, hi - 1, type_member_fn(links, t));
        let last = type_member_fn(links, t)(hi - 1);
        let c = concat_range(0, hi, type_member_fn(links, t));
        assert(c == prev + last);
        assert forall|x: int| 0 <= x < c.len() implies #[trigger] c[x] < hi by {
            if x < prev.len() {
                assert(c[x] == prev[x]);
            } else {
                assert(c[x] == last[x - prev.len()]);
            }
        }
        assert forall|a: int, b: int| 0 <= a < b < c.len() implies #[trigger] c[a] < #[trigger] c[b] by {
            if b < prev.len() {
                assert(c[a] == prev[a]);
                assert(c[b] == prev[b]);
            } else {
                assert(c[b] == last[b - prev.len()]);
                assert(a < prev.len());
                assert(c[a] == prev[a]);
            }
        }
    }
}

/// The link at `x` of type `t` appears in `indices_of_type` at some position.
proof fn lemma_indices_of_type_has(links: Seq<AspectLink>, t: AspectType, x: int) -> (a: int)
    requires
        links.len() <= usize::MAX,
        0 <= x < links.len(),
        links[x].aspect_type == t,
    ensures
        0 <= a < indices_of_type(links, t).len(),
        indices_of_type(links, t)[a] == x,
{
    let f = type_member_fn(links, t);
    assert(f(x)[0] == x as usize);
    lemma_concat_range_contains(0, links.len() as int, f, x, x as usize);
    let idx = indices_of_type(links, t);
    choose|a: int| 0 <= a < idx.len() && idx[a] == x as usize
}

proof fn lemma_first_between_some(
    links: Seq<AspectLink>,
    t: AspectType,
    a: u64,
    b: u64,
    lo: int,
    w: int,
)
    requires
        links.len() <= usize::MAX,
        0 <= lo <= w < links.len(),
        joins(links[w], t, a, b),
    ensures
        first_between_from(links, t, a, b, lo) is Some,
    decreases w - lo,
{
    if lo < w && !joins(links[lo], t, a, b) {
        lemma_first_between_some(links, t, a, b, lo + 1, w);
    }
}

/// Every candidate has a kept pattern over the same bodies.
proof fn lemma_dedup_by_bodies_covers(s: Seq<MatchView>, m: MatchView)
    requires
        s.contains(m),
    ensures
        exists|m2: MatchView| dedup_by_bodies(s).contains(m2) && body_key(m2) == body_key(m),
    decreases s.len(),
{
    let prev = dedup_by_bodies(s.drop_last());
    if s.drop_last().contains(m) {
        lemma_dedup_by_bodies_covers(s.drop_last(), m);
        let m2 = choose|m2: MatchView| prev.contains(m2) && body_key(m2) == body_key(m);
        if !body_keys(prev).contains(body_key(s.last())) {
            let w = choose|w: int| 0 <= w < prev.len() && prev[w] == m2;
            assert(prev.push(s.last())[w] == m2);
        }
    } else {
        let w = choose|w: int| 0 <= w < s.len() && s[w] == m;
        if w < s.len() - 1 {
            assert(s.drop_last()[w] == m);
        }
        assert(m == s.last());
        if body_keys(prev).contains(body_key(m)) {
            let v = choose|v: int| 0 <= v < body_keys(prev).len() && body_keys(prev)[v] == body_key(m);
            assert(prev.contains(prev[v]));
        } else {
            let d = prev.push(m);
            assert(d[prev.len() as int] == m);
        }
    }
}

/// Two lists with the same key hold the same bodies.
proof fn lemma_same_key_same_bodies(m: MatchView, n: MatchView)
    requires
        body_key(m) == body_key(n),
    ensures
        m.1.to_multiset() == n.1.to_multiset(),
{
    lemma_body_le_total();
    m.1.lemma_sort_by_ensures(body_le());
    n.1.lemma_sort_by_ensures(body_le());
}

proof fn lemma_rectangle_found(
    links: Seq<AspectLink>,
    x: int,
    y: int,
    t1: int,
    t2: int,
    s1: int,
    s2: int,
    crossed: bool,
)
    requires
        links.len() <= usize::MAX,
        0 <= x < y < links.len(),
        links[x].aspect_type == AspectType::Opposition,
        links[y].aspect_type == AspectType::Opposition,
        !share_a_body(links[x], links[y]),
        0 <= t1 < links.len() && 0 <= t2 < links.len() && t1 != t2,
        0 <= s1 < links.len() && 0 <= s2 < links.len() && s1 != s2,
        links[t1].aspect_type == AspectType::Trine,
        links[t2].aspect_type == AspectType::Trine,
        links[s1].aspect_type == AspectType::Sextile,
        links[s2].aspect_type == AspectType::Sextile,
        ({
            let (o1, o2) = (links[x], links[y]);
            let (tp, tq) = if crossed {
                (o2.body2, o2.body1)
            } else {
                (o2.body1, o2.body2)
            };
            &&& joins(links[t1], AspectType::Trine, o1.body1, tp)
            &&& joins(links[t2], AspectType::Trine, o1.body2, tq)
            &&& joins(links[s1], AspectType::Sextile, o1.body1, tq)
            &&& joins(links[s2], AspectType::Sextile, o1.body2, tp)
        }),
    ensures
        exists|m: MatchView|
            mystic_rectangles_named(links).contains(m) && m.1.to_multiset() == axes(
                links[x],
                links[y],
            ).to_multiset(),
{
    let opps = indices_of_type(links, AspectType::Opposition);
    let n = opps.len() as int;
    let a = lemma_indices_of_type_has(links, AspectType::Opposition, x);
    let b = lemma_indices_of_type_has(links, AspectType::Opposition, y);
    lemma_indices_ascending(links, AspectType::Opposition, links.len() as int);
    if b <= a {
        if b < a {
            assert(opps[b] < opps[a]);
        }
        assert(false);
    }
    let ta = lemma_indices_of_type_has(links, AspectType::Trine, t1);
    let tb = lemma_indices_of_type_has(links, AspectType::Trine, t2);
    assert(ta != tb);
    assert(indices_of_type(links, AspectType::Trine).len() >= 2);
    let sa = lemma_indices_of_type_has(links, AspectType::Sextile, s1);
    let sb = lemma_indices_of_type_has(links, AspectType::Sextile, s2);
    assert(sa != sb);
    assert(indices_of_type(links, AspectType::Sextile).len() >= 2);
    let o1 = links[x];
    let o2 = links[y];
    let (tp, tq) = if crossed {
        (o2.body2, o2.body1)
    } else {
        (o2.body1, o2.body2)
    };
    lemma_first_between_some(links, AspectType::Trine, o1.body1, tp, 0, t1);
    lemma_first_between_some(links, AspectType::Trine, o1.body2, tq, 0, t2);
    lemma_first_between_some(links, AspectType::Sextile, o1.body1, tq, 0, s1);
    lemma_first_between_some(links, AspectType::Sextile, o1.body2, tp, 0, s2);
    let r = rectangle_at(links, opps, a, b, crossed);
    assert(r.len() == 1);
    let cand = r[0];
    assert(cand.1 == axes(o1, o2));
    let pair = rect_j_fn(links, opps, a)(b);
    assert(pair == rectangle_at(links, opps, a, b, false) + rectangle_at(links, opps, a, b, true));
    if crossed {
        lemma_contains_left_right(rectangle_at(links, opps, a, b, false), r, cand);
    } else {
        assert(pair[0] == cand);
    }
    assert(pair.contains(cand));
    lemma_concat_range_contains(a + 1, n, rect_j_fn(links, opps, a), b, cand);
    assert(rect_i_fn(links, opps)(a).contains(cand));
    lemma_concat_range_contains(0, n, rect_i_fn(links, opps), a, cand);
    let cands = concat_range(0, n, rect_i_fn(links, opps));
    assert(mystic_rectangles_named(links) == dedup_by_bodies(cands));
    lemma_dedup_by_bodies_covers(cands, cand);
    let m2 = choose|m2: MatchView| dedup_by_bodies(cands).contains(m2) && body_key(m2) == body_key(cand);
    lemma_same_key_same_bodies(m2, cand);
}

proof fn lemma_contains_left_right<A>(a: Seq<A>, b: Seq<A>, x: A)
    requires
        b.contains(x),
    ensures
        (a + b).contains(x),
{
    let w = choose|w: int| 0 <= w < b.len() && b[w] == x;
    assert((a + b)[a.len() + w] == x);
}

/// Every Mystic Rectangle is found: for oppositions at positions `x < y`
/// with no common body, joined either straight (trines `o1.body1`–`o2.body1`
/// and `o1.body2`–`o2.body2`, sextiles `o1.body1`–`o2.body2` and
/// `o1.body2`–`o2.body1`) or crossed (trines `o1.body1`–`o2.body2` and
/// `o1.body2`–`o2.body1`, sextiles `o1.body1`–`o2.body1` and
/// `o1.body2`–`o2.body2`), by two distinct trines and two distinct
/// sextiles, a Mystic Rectangle on those four bodies is reported.
pub proof fn lemma_mystic_rectangles_complete(
    links: Seq<AspectLink>,
    x: int,
    y: int,
    t1: int,
    t2: int,
    s1: int,
    s2: int,
)
    requires
        links.len() <= usize::MAX,
        0 <= x < y < links.len(),
        0 <= t1 < links.len() && 0 <= t2 < links.len() && 0 <= s1 < links.len() && 0 <= s2
            < links.len(),
        links[x].aspect_type == AspectType::Opposition,
        links[y].aspect_type == AspectType::Opposition,
        links[x].body1 != links[y].body1 && links[x].body1 != links[y].body2 && links[x].body2
            != links[y].body1 && links[x].body2 != links[y].body2,
        links[t1].aspect_type == AspectType::Trine,
        links[t2].aspect_type == AspectType::Trine,
        links[s1].aspect_type == AspectType::Sextile,
        links[s2].aspect_type == AspectType::Sextile,
        t1 != t2 && s1 != s2,
    ensures
        ({
            let (p, q, r, u) = (links[x].body1, links[x].body2, links[y].body1, links[y].body2);
            let ends = |l: AspectLink, e: u64, f: u64|
                (l.body1 == e && l.body2 == f) || (l.body1 == f && l.body2 == e);
            let straight = ends(links[t1], p, r) && ends(links[t2], q, u) && ends(links[s1], p, u)
                && ends(links[s2], q, r);
            let crossed = ends(links[t1], p, u) && ends(links[t2], q, r) && ends(links[s1], p, r)
                && ends(links[s2], q, u);
            (straight || crossed) ==> exists|m: MatchView|
                mystic_rectangles_named(links).contains(m) && m.1.to_multiset() == seq![
                    p,
                    q,
                    r,
                    u,
                ].to_multiset()
        }),
{
    let (p, q, r, u) = (links[x].body1, links[x].body2, links[y].body1, links[y].body2);
    let ends = |l: AspectLink, e: u64, f: u64|
        (l.body1 == e && l.body2 == f) || (l.body1 == f && l.body2 == e);
    let straight = ends(links[t1], p, r) && ends(links[t2], q, u) && ends(links[s1], p, u) && ends(
        links[s2],
        q,
        r,
    );
    let crossed = ends(links[t1], p, u) && ends(links[t2], q, r) && ends(links[s1], p, r) && ends(
        links[s2],
        q,
        u,
    );
    assert(axes(links[x], links[y]) == seq![p, q, r, u]);
    if straight {
        lemma_rectangle_found(links, x, y, t1, t2, s1, s2, false);
    } else if crossed {
        lemma_rectangle_found(links, x, y, t1, t2, s1, s2, true);
    }
}


proof fn lemma_touching_has(links: Seq<AspectLink>, idx: Seq<usize>, b: u64, a: int)
    requires
        0 <= a < idx.len(),
        touches(links[idx[a] as int], b),
    ensures
        touching(links, idx, b).contains(idx[a]),
{
    assert(touching_fn(links, idx, b)(a)[0] == idx[a]);
    lemma_concat_range_contains(0, idx.len() as int, touching_fn(links, idx, b), a, idx[a]);
}

/// The link has ends `e` and `f`, either way round.
pub open spec fn has_ends(l: AspectLink, e: u64, f: u64) -> bool {
    (l.body1 == e && l.body2 == f) || (l.body1 == f && l.body2 == e)
}

proof fn lemma_focal_found(
    links: Seq<AspectLink>,
    pattern: AspectPattern,
    base_type: AspectType,
    arm_type: AspectType,
    x: int,
    s1: int,
    s2: int,
    apex: u64,
)
    requires
        links.len() <= usize::MAX,
        0 <= x < links.len() && 0 <= s1 < links.len() && 0 <= s2 < links.len(),
        links[x].aspect_type == base_type,
        links[s1].aspect_type == arm_type,
        links[s2].aspect_type == arm_type,
        apex != links[x].body1 && apex != links[x].body2,
        has_ends(links[s1], links[x].body1, apex),
        has_ends(links[s2], links[x].body2, apex),
    ensures
        exists|m: MatchView|
            dedup_by_bodies(focal_candidates(links, pattern, base_type, arm_type)).contains(m)
                && m.1.to_multiset() == seq![links[x].body1, links[x].body2, apex].to_multiset(),
{
    let bases = indices_of_type(links, base_type);
    let arms = indices_of_type(links, arm_type);
    let l = links[x];
    let a = lemma_indices_of_type_has(links, base_type, x);
    let p1 = lemma_indices_of_type_has(links, arm_type, s1);
    let p2 = lemma_indices_of_type_has(links, arm_type, s2);
    let from1 = touching(links, arms, l.body1);
    let from2 = touching(links, arms, l.body2);
    lemma_touching_has(links, arms, l.body1, p1);
    lemma_touching_has(links, arms, l.body2, p2);
    let y = choose|y: int| 0 <= y < from1.len() && from1[y] == s1 as usize;
    let z = choose|z: int| 0 <= z < from2.len() && from2[z] == s2 as usize;
    let cand = focal_candidate(links, pattern, x as usize, s1 as usize, s2 as usize)[0];
    assert(focal_candidate(links, pattern, x as usize, s1 as usize, s2 as usize).len() == 1);
    assert(cand.1 == seq![l.body1, l.body2, apex]);
    lemma_concat_range_contains(
        0,
        from2.len() as int,
        focal_arm2_fn(links, pattern, x as usize, s1 as usize, from2),
        z,
        cand,
    );
    assert(focal_arm1_fn(links, pattern, x as usize, from1, from2)(y).contains(cand));
    lemma_concat_range_contains(
        0,
        from1.len() as int,
        focal_arm1_fn(links, pattern, x as usize, from1, from2),
        y,
        cand,
    );
    assert(focal_base_fn(links, pattern, bases, arm_type)(a).contains(cand));
    lemma_concat_range_contains(
        0,
        bases.len() as int,
        focal_base_fn(links, pattern, bases, arm_type),
        a,
        cand,
    );
    let cands = focal_candidates(links, pattern, base_type, arm_type);
    lemma_dedup_by_bodies_covers(cands, cand);
    let m2 = choose|m2: MatchView| dedup_by_bodies(cands).contains(m2) && body_key(m2) == body_key(cand);
    lemma_same_key_same_bodies(m2, cand);
}

/// Every T-Square and every Yod is found: an opposition (for a Yod, a
/// sextile) at position `x` between two distinct bodies, with squares (for a
/// Yod, quincunxes) at positions `s1` from its first body and `s2` from its
/// second body to a common third body, gives a T-Square (Yod) on those
/// three bodies.
pub proof fn lemma_t_squares_and_yods_named_complete(
    links: Seq<AspectLink>,
    x: int,
    s1: int,
    s2: int,
    apex: u64,
)
    requires
        links.len() <= usize::MAX,
        0 <= x < links.len() && 0 <= s1 < links.len() && 0 <= s2 < links.len(),
        links[x].body1 != links[x].body2,
        apex != links[x].body1 && apex != links[x].body2,
        (links[s1].body1 == links[x].body1 && links[s1].body2 == apex) || (links[s1].body1 == apex
            && links[s1].body2 == links[x].body1),
        (links[s2].body1 == links[x].body2 && links[s2].body2 == apex) || (links[s2].body1 == apex
            && links[s2].body2 == links[x].body2),
    ensures
        links[x].aspect_type == AspectType::Opposition && links[s1].aspect_type == AspectType::Square
            && links[s2].aspect_type == AspectType::Square ==> exists|m: MatchView|
            t_squares(links).contains(m) && m.1.to_multiset() == seq![
                links[x].body1,
                links[x].body2,
                apex,
            ].to_multiset(),
        links[x].aspect_type == AspectType::Sextile && links[s1].aspect_type == AspectType::Quincunx
            && links[s2].aspect_type == AspectType::Quincunx ==> exists|m: MatchView|
            yods(links).contains(m) && m.1.to_multiset() == seq![
                links[x].body1,
                links[x].body2,
                apex,
            ].to_multiset(),
{
    if links[x].aspect_type == AspectType::Opposition && links[s1].aspect_type == AspectType::Square
        && links[s2].aspect_type == AspectType::Square {
        lemma_focal_found(
            links,
            AspectPattern::TSquare,
            AspectType::Opposition,
            AspectType::Square,
            x,
            s1,
            s2,
            apex,
        );
        let c = focal_candidates(links, AspectPattern::TSquare, AspectType::Opposition, AspectType::Square);
        let m = choose|m: MatchView|
            dedup_by_bodies(c).contains(m) && m.1.to_multiset() == seq![
                links[x].body1,
                links[x].body2,
                apex,
            ].to_multiset();
        assert(t_squares(links) == dedup_by_bodies(c));
        assert(t_squares(links).contains(m));
    }
    if links[x].aspect_type == AspectType::Sextile && links[s1].aspect_type == AspectType::Quincunx
        && links[s2].aspect_type == AspectType::Quincunx {
        lemma_focal_found(
            links,
            AspectPattern::Yod,
            AspectType::Sextile,
            AspectType::Quincunx,
            x,
            s1,
            s2,
            apex,
        );
        let a = lemma_indices_of_type_has(links, AspectType::Sextile, x);
        let q1 = lemma_indices_of_type_has(links, AspectType::Quincunx, s1);
        let q2 = lemma_indices_of_type_has(links, AspectType::Quincunx, s2);
        assert(s1 != s2);
        assert(q1 != q2);
        assert(indices_of_type(links, AspectType::Quincunx).len() >= 2);
        assert(indices_of_type(links, AspectType::Sextile).len() >= 1);
        let c = focal_candidates(links, AspectPattern::Yod, AspectType::Sextile, AspectType::Quincunx);
        let m = choose|m: MatchView|
            dedup_by_bodies(c).contains(m) && m.1.to_multiset() == seq![
                links[x].body1,
                links[x].body2,
                apex,
            ].to_multiset();
        assert(yods(links) == dedup_by_bodies(c));
        assert(yods(links).contains(m));
    }
}


/// Every Grand Cross is found: oppositions at positions `x < y` with no
/// common body, and four distinct squares joining each end of the first to
/// each end of the second, give a Grand Cross listing the bodies axis by
/// axis.
pub proof fn lemma_grand_crosses_complete(
    links: Seq<AspectLink>,
    x: int,
    y: int,
    q1: int,
    q2: int,
    q3: int,
    q4: int,
)
    requires
        links.len() <= usize::MAX,
        0 <= x < y < links.len(),
        0 <= q1 < links.len() && 0 <= q2 < links.len() && 0 <= q3 < links.len() && 0 <= q4
            < links.len(),
        q1 != q2 && q1 != q3 && q1 != q4 && q2 != q3 && q2 != q4 && q3 != q4,
        links[x].aspect_type == AspectType::Opposition,
        links[y].aspect_type == AspectType::Opposition,
        links[x].body1 != links[y].body1 && links[x].body1 != links[y].body2 && links[x].body2
            != links[y].body1 && links[x].body2 != links[y].body2,
        links[q1].aspect_type == AspectType::Square && has_ends(
            links[q1],
            links[x].body1,
            links[y].body1,
        ),
        links[q2].aspect_type == AspectType::Square && has_ends(
            links[q2],
            links[x].body1,
            links[y].body2,
        ),
        links[q3].aspect_type == AspectType::Square && has_ends(
            links[q3],
            links[x].body2,
            links[y].body1,
        ),
        links[q4].aspect_type == AspectType::Square && has_ends(
            links[q4],
            links[x].body2,
            links[y].body2,
        ),
    ensures
        exists|m: MatchView|
            grand_crosses_named(links).contains(m) && m.0 == AspectPattern::GrandCross && m.1
                == seq![links[x].body1, links[x].body2, links[y].body1, links[y].body2],
{
    let opps = indices_of_type(links, AspectType::Opposition);
    let n = opps.len() as int;
    let a = lemma_indices_of_type_has(links, AspectType::Opposition, x);
    let b = lemma_indices_of_type_has(links, AspectType::Opposition, y);
    lemma_indices_ascending(links, AspectType::Opposition, links.len() as int);
    if b <= a {
        if b < a {
            assert(opps[b] < opps[a]);
        }
        assert(false);
    }
    let w1 = lemma_indices_of_type_has(links, AspectType::Square, q1);
    let w2 = lemma_indices_of_type_has(links, AspectType::Square, q2);
    let w3 = lemma_indices_of_type_has(links, AspectType::Square, q3);
    let w4 = lemma_indices_of_type_has(links, AspectType::Square, q4);
    assert(w1 != w2 && w1 != w3 && w1 != w4 && w2 != w3 && w2 != w4 && w3 != w4);
    assert(indices_of_type(links, AspectType::Square).len() >= 4);
    let o1 = links[x];
    let o2 = links[y];
    lemma_first_between_some(links, AspectType::Square, o1.body1, o2.body1, 0, q1);
    lemma_first_between_some(links, AspectType::Square, o1.body1, o2.body2, 0, q2);
    lemma_first_between_some(links, AspectType::Square, o1.body2, o2.body1, 0, q3);
    lemma_first_between_some(links, AspectType::Square, o1.body2, o2.body2, 0, q4);
    let r = grand_cross_at(links, opps, a, b);
    assert(r.len() == 1);
    let cand = r[0];
    lemma_concat_range_contains(a + 1, n, cross_j_fn(links, opps, a), b, cand);
    assert(cross_i_fn(links, opps)(a).contains(cand));
    lemma_concat_range_contains(0, n, cross_i_fn(links, opps), a, cand);
    assert(grand_crosses_named(links).contains(cand));
}

proof fn lemma_trine_bodies_has(links: Seq<AspectLink>, t: int, e: u64)
    requires
        links.len() <= usize::MAX,
        0 <= t < links.len(),
        links[t].aspect_type == AspectType::Trine,
        links[t].body1 == e || links[t].body2 == e,
    ensures
        trine_bodies(links).contains(e),
{
    let trines = indices_of_type(links, AspectType::Trine);
    let a = lemma_indices_of_type_has(links, AspectType::Trine, t);
    let pair = endpoints_fn(links, trines)(a);
    if links[t].body1 == e {
        assert(pair[0] == e);
    } else {
        assert(pair[1] == e);
    }
    lemma_concat_range_contains(0, trines.len() as int, endpoints_fn(links, trines), a, e);
    lemma_dedup_contains(concat_range(0, trines.len() as int, endpoints_fn(links, trines)), e);
}

/// Among three distinct bodies each pair of which a trine joins, the first
/// trine between any two of them exists.
proof fn lemma_trine_pair(
    links: Seq<AspectLink>,
    u: u64,
    v: u64,
    a: u64,
    b: u64,
    c: u64,
    tab: int,
    tbc: int,
    tac: int,
)
    requires
        links.len() <= usize::MAX,
        0 <= tab < links.len() && 0 <= tbc < links.len() && 0 <= tac < links.len(),
        links[tab].aspect_type == AspectType::Trine && has_ends(links[tab], a, b),
        links[tbc].aspect_type == AspectType::Trine && has_ends(links[tbc], b, c),
        links[tac].aspect_type == AspectType::Trine && has_ends(links[tac], a, c),
        u == a || u == b || u == c,
        v == a || v == b || v == c,
        u != v,
    ensures
        first_between(links, AspectType::Trine, u, v) is Some,
{
    if (u == a && v == b) || (u == b && v == a) {
        lemma_first_between_some(links, AspectType::Trine, u, v, 0, tab);
    } else if (u == b && v == c) || (u == c && v == b) {
        lemma_first_between_some(links, AspectType::Trine, u, v, 0, tbc);
    } else {
        lemma_first_between_some(links, AspectType::Trine, u, v, 0, tac);
    }
}

/// Every Grand Trine is found: three distinct bodies joined pairwise by
/// trines give a Grand Trine listing exactly those three bodies.
pub proof fn lemma_grand_trines_named_complete(
    links: Seq<AspectLink>,
    a: u64,
    b: u64,
    c: u64,
    tab: int,
    tbc: int,
    tac: int,
)
    requires
        links.len() <= usize::MAX,
        a != b && b != c && a != c,
        0 <= tab < links.len() && 0 <= tbc < links.len() && 0 <= tac < links.len(),
        links[tab].aspect_type == AspectType::Trine && has_ends(links[tab], a, b),
        links[tbc].aspect_type == AspectType::Trine && has_ends(links[tbc], b, c),
        links[tac].aspect_type == AspectType::Trine && has_ends(links[tac], a, c),
    ensures
        exists|m: MatchView|
            grand_trines_named(links).contains(m) && m.0 == AspectPattern::GrandTrine && m.1.len()
                == 3 && m.1.contains(a) && m.1.contains(b) && m.1.contains(c),
{
    let ta = lemma_indices_of_type_has(links, AspectType::Trine, tab);
    let tb = lemma_indices_of_type_has(links, AspectType::Trine, tbc);
    let tc = lemma_indices_of_type_has(links, AspectType::Trine, tac);
    assert(tab != tbc && tab != tac && tbc != tac);
    assert(ta != tb && ta != tc && tb != tc);
    assert(indices_of_type(links, AspectType::Trine).len() >= 3);
    let bodies = trine_bodies(links);
    let n = bodies.len() as int;
    lemma_trine_bodies_has(links, tab, a);
    lemma_trine_bodies_has(links, tab, b);
    lemma_trine_bodies_has(links, tbc, c);
    let pa = choose|p: int| 0 <= p < n && bodies[p] == a;
    let pb = choose|p: int| 0 <= p < n && bodies[p] == b;
    let pc = choose|p: int| 0 <= p < n && bodies[p] == c;
    let i = if pa <= pb && pa <= pc { pa } else if pb <= pc { pb } else { pc };
    let k = if pa >= pb && pa >= pc { pa } else if pb >= pc { pb } else { pc };
    let j = if pa != i && pa != k { pa } else if pb != i && pb != k { pb } else { pc };
    assert(i < j < k);
    let (u, v, w) = (bodies[i], bodies[j], bodies[k]);
    lemma_trine_pair(links, u, v, a, b, c, tab, tbc, tac);
    lemma_trine_pair(links, v, w, a, b, c, tab, tbc, tac);
    lemma_trine_pair(links, u, w, a, b, c, tab, tbc, tac);
    let r = grand_trine_on(links, u, v, w);
    assert(r.len() == 1);
    let cand = r[0];
    assert(cand.1 == seq![u, v, w]);
    assert(cand.1.contains(a) && cand.1.contains(b) && cand.1.contains(c)) by {
        assert(cand.1[0] == u && cand.1[1] == v && cand.1[2] == w);
    }
    assert(gt_k_fn(links, bodies, i, j)(k).contains(cand));
    lemma_concat_range_contains(j + 1, n, gt_k_fn(links, bodies, i, j), k, cand);
    assert(gt_j_fn(links, bodies, i)(j).contains(cand));
    lemma_concat_range_contains(i + 1, n, gt_j_fn(links, bodies, i), j, cand);
    assert(gt_i_fn(links, bodies)(i).contains(cand));
    lemma_concat_range_contains(0, n, gt_i_fn(links, bodies), i, cand);
    assert(grand_trines_named(links).contains(cand));
}

proof fn lemma_kite_tail_some(
    links: Seq<AspectLink>,
    opps: Seq<usize>,
    vertex: u64,
    trine: Seq<u64>,
    lo: int,
    w: int,
)
    requires
        0 <= lo <= w < opps.len(),
        touches(links[opps[w] as int], vertex),
        !trine.contains(far_end(links[opps[w] as int], vertex)),
    ensures
        kite_tail_from(links, opps, vertex, trine, lo) is Some,
    decreases w - lo,
{
    if lo < w && !(touches(links[opps[lo] as int], vertex) && !trine.contains(
        far_end(links[opps[lo] as int], vertex),
    )) {
        lemma_kite_tail_some(links, opps, vertex, trine, lo + 1, w);
    }
}

/// Every Kite is found: three distinct bodies `a`, `b`, `c` joined pairwise
/// by trines, and a fourth body `d` opposite `a` (at position `o`) and
/// sextile to `b` (at `s1`) and to `c` (at `s2`), where no opposition joins
/// `a` to a body other than `a`, `b`, `c` or `d`, give a Kite that lists the
/// three trine bodies and then `d`, whichever member of the trine `a` is.
pub proof fn lemma_kites_named_complete(
    links: Seq<AspectLink>,
    a: u64,
    b: u64,
    c: u64,
    d: u64,
    tab: int,
    tbc: int,
    tac: int,
    o: int,
    s1: int,
    s2: int,
)
    requires
        links.len() <= usize::MAX,
        a != b && b != c && a != c,
        d != a && d != b && d != c,
        0 <= tab < links.len() && 0 <= tbc < links.len() && 0 <= tac < links.len(),
        0 <= o < links.len() && 0 <= s1 < links.len() && 0 <= s2 < links.len(),
        links[tab].aspect_type == AspectType::Trine && has_ends(links[tab], a, b),
        links[tbc].aspect_type == AspectType::Trine && has_ends(links[tbc], b, c),
        links[tac].aspect_type == AspectType::Trine && has_ends(links[tac], a, c),
        links[o].aspect_type == AspectType::Opposition && has_ends(links[o], a, d),
        links[s1].aspect_type == AspectType::Sextile && has_ends(links[s1], d, b),
        links[s2].aspect_type == AspectType::Sextile && has_ends(links[s2], d, c),
        forall|z: int|
            0 <= z < links.len() && #[trigger] links[z].aspect_type == AspectType::Opposition ==> {
                &&& links[z].body1 == a ==> (links[z].body2 == a || links[z].body2 == b
                    || links[z].body2 == c || links[z].body2 == d)
                &&& links[z].body2 == a ==> (links[z].body1 == a || links[z].body1 == b
                    || links[z].body1 == c || links[z].body1 == d)
            },
    ensures
        exists|m: MatchView|
            kites_named(links).contains(m) && m.0 == AspectPattern::Kite && m.1.len() == 4 && m.1[3]
                == d && m.1.contains(a) && m.1.contains(b) && m.1.contains(c),
{
    lemma_grand_trines_named_complete(links, a, b, c, tab, tbc, tac);
    let gts = grand_trines_named(links);
    let gt = choose|m: MatchView|
        gts.contains(m) && m.0 == AspectPattern::GrandTrine && m.1.len() == 3 && m.1.contains(a)
            && m.1.contains(b) && m.1.contains(c);
    let g = choose|g: int| 0 <= g < gts.len() && gts[g] == gt;
    let t = gt.1;
    let pa = choose|p: int| 0 <= p < t.len() && t[p] == a;
    let pb = choose|p: int| 0 <= p < t.len() && t[p] == b;
    let pc = choose|p: int| 0 <= p < t.len() && t[p] == c;
    assert(pa != pb && pb != pc && pa != pc);
    assert(forall|x: int| 0 <= x < 3 ==> #[trigger] t[x] == a || t[x] == b || t[x] == c) by {
        assert forall|x: int| 0 <= x < 3 implies #[trigger] t[x] == a || t[x] == b || t[x] == c by {
            assert(x == pa || x == pb || x == pc);
        }
    }
    assert(!t.contains(d)) by {
        if t.contains(d) {
            let x = choose|x: int| 0 <= x < t.len() && t[x] == d;
            assert(t[x] == a || t[x] == b || t[x] == c);
        }
    }
    let opps = indices_of_type(links, AspectType::Opposition);
    let w = lemma_indices_of_type_has(links, AspectType::Opposition, o);
    assert(far_end(links[o], a) == d);
    lemma_kite_tail_some(links, opps, a, t, 0, w);
    lemma_indices_of_type_all(links, AspectType::Opposition);
    lemma_kite_tail_from(links, opps, a, t, 0);
    let i = kite_tail(links, a, t)->0;
    assert(typed_touching(links, AspectType::Opposition, a)(i));
    let e = far_end(links[i as int], a);
    assert(links[i as int].aspect_type == AspectType::Opposition);
    assert(e == a || e == b || e == c || e == d);
    assert(t.contains(t[pa]) && t.contains(t[pb]) && t.contains(t[pc]));
    assert(e == d);
    let f = others_fn(t, a);
    let ov = other_vertices(t, a);
    assert(concat_range(0, 1, f) == concat_range(0, 0, f) + f(0));
    assert(concat_range(0, 2, f) == concat_range(0, 1, f) + f(1));
    assert(concat_range(0, 3, f) == concat_range(0, 2, f) + f(2));
    assert(ov == concat_range(0, 3, f));
    if pa == 0 {
        assert(ov =~= seq![t[1], t[2]]);
    } else if pa == 1 {
        assert(ov =~= seq![t[0], t[2]]);
    } else {
        assert(ov =~= seq![t[0], t[1]]);
    }
    assert(ov.len() == 2);
    assert((ov[0] == b && ov[1] == c) || (ov[0] == c && ov[1] == b));
    if ov[0] == b {
        lemma_first_between_some(links, AspectType::Sextile, d, ov[0], 0, s1);
        lemma_first_between_some(links, AspectType::Sextile, d, ov[1], 0, s2);
    } else {
        lemma_first_between_some(links, AspectType::Sextile, d, ov[0], 0, s2);
        lemma_first_between_some(links, AspectType::Sextile, d, ov[1], 0, s1);
    }
    let r = kite_at(links, gt, pa);
    assert(r.len() == 1);
    let m = r[0];
    assert(m.1 == t.push(d));
    assert(m.1[pa] == a && m.1[pb] == b && m.1[pc] == c && m.1[3] == d);
    assert(r.contains(m));
    assert(kite_v_fn(links, gt)(pa) == r);
    lemma_concat_range_contains(0, t.len() as int, kite_v_fn(links, gt), pa, m);
    assert(kite_g_fn(links, gts)(g).contains(m));
    lemma_concat_range_contains(0, gts.len() as int, kite_g_fn(links, gts), g, m);
    assert(kites_named(links).contains(m));
}

} // verus!
