//! Aspect-pattern detection over a grid of pairwise aspect facts between
//! bodies numbered `0..n`.

use vstd::prelude::*;

verus! {

/// The aspect configurations that pattern detection recognizes.
#[derive(Debug, Clone, Copy, PartialEq, Eq, Structural)]
pub enum AspectPattern {
    GrandTrine,
    TSquare,
    GrandCross,
    Yod,
    Kite,
    Stellium,
    MysticRectangle,
}

/// The same type as [`AspectPattern`], under the name the named-body API
/// uses.
pub type AspectPatternType = AspectPattern;

// ---------------------------------------------------------------------------
// Ordered concatenation
// ---------------------------------------------------------------------------

/// `f(lo) + f(lo + 1) + ... + f(hi - 1)`: the results of a loop over
/// `lo..hi`, in loop order.
pub open spec fn concat_range<A>(lo: int, hi: int, f: spec_fn(int) -> Seq<A>) -> Seq<A>
    decreases hi - lo,
{
    if hi <= lo {
        Seq::empty()
    } else {
        concat_range(lo, hi - 1, f) + f(hi - 1)
    }
}

/// `s` with every element dropped that equals an earlier one.
pub open spec fn dedup<A>(s: Seq<A>) -> Seq<A>
    decreases s.len(),
{
    if s.len() == 0 {
        Seq::empty()
    } else {
        let prev = dedup(s.drop_last());
        if prev.contains(s.last()) {
            prev
        } else {
            prev.push(s.last())
        }
    }
}

pub(crate) proof fn lemma_concat_range_step<A>(lo: int, hi: int, f: spec_fn(int) -> Seq<A>)
    requires
        lo <= hi,
    ensures
        concat_range(lo, hi + 1, f) == concat_range(lo, hi, f) + f(hi),
{
}

pub(crate) proof fn lemma_add_assoc<A>(a: Seq<A>, b: Seq<A>, c: Seq<A>)
    ensures
        (a + b) + c == a + (b + c),
{
    assert((a + b) + c =~= a + (b + c));
}

proof fn lemma_add_empty<A>(a: Seq<A>)
    ensures
        a + Seq::<A>::empty() == a,
{
    assert(a + Seq::<A>::empty() =~= a);
}

/// After a loop over `lo..hi` that appended `f(x)` in each round: the output
/// started as `start`, and `mid` was its value before round `hi`.
pub(crate) proof fn lemma_loop_round<A>(
    start: Seq<A>,
    mid: Seq<A>,
    now: Seq<A>,
    lo: int,
    hi: int,
    f: spec_fn(int) -> Seq<A>,
)
    requires
        lo <= hi,
        mid == start + concat_range(lo, hi, f),
        now == mid + f(hi),
    ensures
        now == start + concat_range(lo, hi + 1, f),
{
    lemma_concat_range_step(lo, hi, f);
    lemma_add_assoc(start, concat_range(lo, hi, f), f(hi));
}

// ---------------------------------------------------------------------------
// Facts about every element
// ---------------------------------------------------------------------------

/// Every element of `s` satisfies `p`.
pub open spec fn all_satisfy<A>(s: Seq<A>, p: spec_fn(A) -> bool) -> bool {
    forall|k: int| 0 <= k < s.len() ==> #[trigger] p(s[k])
}

pub(crate) proof fn lemma_concat_range_all<A>(lo: int, hi: int, f: spec_fn(int) -> Seq<A>, p: spec_fn(A) -> bool)
    requires
        forall|i: int| lo <= i < hi ==> all_satisfy(#[trigger] f(i), p),
    ensures
        all_satisfy(concat_range(lo, hi, f), p),
    decreases hi - lo,
{
    if hi > lo {
        lemma_concat_range_all(lo, hi - 1, f, p);
        let prev = concat_range(lo, hi - 1, f);
        let last = f(hi - 1);
        assert(all_satisfy(last, p));
        assert(concat_range(lo, hi, f) == prev + last);
        assert forall|k: int| 0 <= k < (prev + last).len() implies #[trigger] p((prev + last)[k]) by {
            if k < prev.len() {
                assert((prev + last)[k] == prev[k]);
            } else {
                assert((prev + last)[k] == last[k - prev.len()]);
            }
        }
    }
}

pub(crate) proof fn lemma_all_satisfy_add<A>(s: Seq<A>, t: Seq<A>, p: spec_fn(A) -> bool)
    requires
        all_satisfy(s, p),
        all_satisfy(t, p),
    ensures
        all_satisfy(s + t, p),
{
    assert forall|k: int| 0 <= k < (s + t).len() implies #[trigger] p((s + t)[k]) by {
        if k < s.len() {
            assert((s + t)[k] == s[k]);
        } else {
            assert((s + t)[k] == t[k - s.len()]);
        }
    }
}

pub(crate) proof fn lemma_found_all<A>(cond: bool, a: A, p: spec_fn(A) -> bool)
    requires
        cond ==> p(a),
    ensures
        all_satisfy(found(cond, a), p),
{
}

pub(crate) proof fn lemma_concat_range_contains<A>(lo: int, hi: int, f: spec_fn(int) -> Seq<A>, k: int, x: A)
    requires
        lo <= k < hi,
        f(k).contains(x),
    ensures
        concat_range(lo, hi, f).contains(x),
    decreases hi - lo,
{
    let prev = concat_range(lo, hi - 1, f);
    assert(concat_range(lo, hi, f) == prev + f(hi - 1));
    if k == hi - 1 {
        let fk = f(k);
        let w = choose|w: int| 0 <= w < fk.len() && fk[w] == x;
        assert((prev + f(hi - 1))[prev.len() + w] == x);
    } else {
        lemma_concat_range_contains(lo, hi - 1, f, k, x);
        let w = choose|w: int| 0 <= w < prev.len() && prev[w] == x;
        assert((prev + f(hi - 1))[w] == x);
    }
}

pub(crate) proof fn lemma_dedup_contains<A>(s: Seq<A>, x: A)
    ensures
        dedup(s).contains(x) <==> s.contains(x),
    decreases s.len(),
{
    if s.len() > 0 {
        let prev = s.drop_last();
        lemma_dedup_contains(prev, x);
        if prev.contains(x) {
            let w = choose|w: int| 0 <= w < prev.len() && prev[w] == x;
            assert(s[w] == x);
        }
        if s.contains(x) && !prev.contains(x) {
            let w = choose|w: int| 0 <= w < s.len() && s[w] == x;
            if w < prev.len() {
                assert(prev[w] == x);
            }
            assert(x == s.last());
        }
        if dedup(prev).contains(x) {
            let w = choose|w: int| 0 <= w < dedup(prev).len() && dedup(prev)[w] == x;
            assert(dedup(prev).push(s.last())[w] == x);
        }
        if dedup(s).contains(x) && !dedup(prev).contains(x) {
            let w = choose|w: int| 0 <= w < dedup(s).len() && dedup(s)[w] == x;
            assert(dedup(s) == dedup(prev).push(s.last()));
            if w < dedup(prev).len() {
                assert(dedup(prev)[w] == x);
            }
        }
        if x == s.last() {
            assert(dedup(prev).push(s.last())[dedup(prev).len() as int] == x);
        }
    }
}

// ---------------------------------------------------------------------------
// Pairwise aspect facts
// ---------------------------------------------------------------------------

/// The pairwise relations that index-based pattern detection reads.
#[derive(Debug, Clone, Copy, PartialEq, Eq, Structural)]
pub enum Relation {
    /// Separation within orb of 60°.
    Sextile,
    /// Separation within orb of 90°.
    Square,
    /// Separation within orb of 120°.
    Trine,
    /// Separation within orb of 150°.
    Quincunx,
    /// Separation within orb of 180°.
    Opposition,
    /// Separation under 30° (the span of a stellium).
    StelliumArc,
}

/// Aspect facts about `n` bodies: for each [`Relation`] and each ordered pair
/// `(i, j)` of body indices, whether the relation holds from body `i` to
/// body `j` (the separation measured from `i`'s longitude to `j`'s).
pub struct AspectGrid {
    n: usize,
    sextile: Vec<Vec<bool>>,
    square: Vec<Vec<bool>>,
    trine: Vec<Vec<bool>>,
    quincunx: Vec<Vec<bool>>,
    opposition: Vec<Vec<bool>>,
    arc: Vec<Vec<bool>>,
}

/// An `n` by `n` table.
pub open spec fn square_table(m: Seq<Vec<bool>>, n: int) -> bool {
    &&& m.len() == n
    &&& forall|i: int| 0 <= i < n ==> (#[trigger] m[i])@.len() == n
}

impl AspectGrid {
    /// Number of bodies.
    pub closed spec fn size(&self) -> int {
        self.n as int
    }

    pub closed spec fn table(&self, rel: Relation) -> Seq<Vec<bool>> {
        match rel {
            Relation::Sextile => self.sextile@,
            Relation::Square => self.square@,
            Relation::Trine => self.trine@,
            Relation::Quincunx => self.quincunx@,
            Relation::Opposition => self.opposition@,
            Relation::StelliumArc => self.arc@,
        }
    }

    /// All tables are `size` by `size`.
    pub closed spec fn wf(&self) -> bool {
        &&& square_table(self.sextile@, self.n as int)
        &&& square_table(self.square@, self.n as int)
        &&& square_table(self.trine@, self.n as int)
        &&& square_table(self.quincunx@, self.n as int)
        &&& square_table(self.opposition@, self.n as int)
        &&& square_table(self.arc@, self.n as int)
    }

    /// Whether `rel` holds from body `i` to body `j`.
    pub closed spec fn holds(&self, rel: Relation, i: int, j: int) -> bool {
        self.table(rel)[i]@[j]
    }

    /// A grid of `n` bodies in which no relation holds.
    pub fn new(n: usize) -> (g: AspectGrid)
        ensures
            g.wf(),
            g.size() == n,
            forall|rel: Relation, i: int, j: int|
                0 <= i < n && 0 <= j < n ==> !g.holds(rel, i, j),
    {
        let g = AspectGrid {
            n,
            sextile: false_table(n),
            square: false_table(n),
            trine: false_table(n),
            quincunx: false_table(n),
            opposition: false_table(n),
            arc: false_table(n),
        };
        assert forall|rel: Relation, i: int, j: int|
            0 <= i < n && 0 <= j < n implies !g.holds(rel, i, j) by {
            let t = g.table(rel);
            assert(t[i]@ == Seq::new(n as nat, |k: int| false));
        }
        g
    }

    /// Number of bodies.
    pub fn len(&self) -> (n: usize)
        ensures
            n == self.size(),
    {
        self.n
    }

    /// Record whether `rel` holds from body `i` to body `j`.
    pub fn set(&mut self, rel: Relation, i: usize, j: usize, value: bool)
        requires
            old(self).wf(),
            i < old(self).size(),
            j < old(self).size(),
        ensures
            final(self).wf(),
            final(self).size() == old(self).size(),
            final(self).holds(rel, i as int, j as int) == value,
            forall|r: Relation, a: int, b: int|
                0 <= a < old(self).size() && 0 <= b < old(self).size() && (r, a, b) != (
                    rel,
                    i as int,
                    j as int,
                ) ==> final(self).holds(r, a, b) == old(self).holds(r, a, b),
    {
        match rel {
            Relation::Sextile => set_cell(&mut self.sextile, self.n, i, j, value),
            Relation::Square => set_cell(&mut self.square, self.n, i, j, value),
            Relation::Trine => set_cell(&mut self.trine, self.n, i, j, value),
            Relation::Quincunx => set_cell(&mut self.quincunx, self.n, i, j, value),
            Relation::Opposition => set_cell(&mut self.opposition, self.n, i, j, value),
            Relation::StelliumArc => set_cell(&mut self.arc, self.n, i, j, value),
        }
    }

    /// Whether `rel` holds from body `i` to body `j`.
    pub fn get(&self, rel: Relation, i: usize, j: usize) -> (b: bool)
        requires
            self.wf(),
            i < self.size(),
            j < self.size(),
        ensures
            b == self.holds(rel, i as int, j as int),
    {
        let t = match rel {
            Relation::Sextile => &self.sextile,
            Relation::Square => &self.square,
            Relation::Trine => &self.trine,
            Relation::Quincunx => &self.quincunx,
            Relation::Opposition => &self.opposition,
            Relation::StelliumArc => &self.arc,
        };
        assert(t@ == self.table(rel));
        assert(t@[i as int]@.len() == self.n);
        t[i][j]
    }
}

fn false_table(n: usize) -> (t: Vec<Vec<bool>>)
    ensures
        square_table(t@, n as int),
        forall|i: int| 0 <= i < n ==> (#[trigger] t@[i])@ == Seq::new(n as nat, |k: int| false),
{
    let mut t: Vec<Vec<bool>> = Vec::new();
    let mut i: usize = 0;
    while i < n
        invariant
            0 <= i <= n,
            t@.len() == i,
            forall|a: int| 0 <= a < i ==> (#[trigger] t@[a])@ == Seq::new(n as nat, |k: int| false),
        decreases n - i,
    {
        let mut row: Vec<bool> = Vec::new();
        let mut j: usize = 0;
        while j < n
            invariant
                0 <= j <= n,
                row@ == Seq::new(j as nat, |k: int| false),
            decreases n - j,
        {
            row.push(false);
            j = j + 1;
            assert(row@ =~= Seq::new(j as nat, |k: int| false));
        }
        t.push(row);
        i = i + 1;
    }
    t
}

fn set_cell(t: &mut Vec<Vec<bool>>, n: usize, i: usize, j: usize, value: bool)
    requires
        square_table(old(t)@, n as int),
        i < n,
        j < n,
    ensures
        square_table(final(t)@, n as int),
        final(t)@[i as int]@[j as int] == value,
        forall|a: int, b: int|
            0 <= a < n && 0 <= b < n && (a, b) != (i as int, j as int) ==> final(t)@[a]@[b] == old(
                t,
            )@[a]@[b],
{
    let mut row = t[i].clone();
    assert(row@ =~= old(t)@[i as int]@);
    assert(row@.len() == n);
    row.set(j, value);
    t.set(i, row);
    assert forall|a: int, b: int|
        0 <= a < n && 0 <= b < n && (a, b) != (i as int, j as int) implies t@[a]@[b] == old(
        t,
    )@[a]@[b] by {
        if a == i as int {
        } else {
        }
    }
}

// ---------------------------------------------------------------------------
// Index-based pattern detection: specification
// ---------------------------------------------------------------------------

/// What index-based detection reports: a pattern and the indices of its
/// bodies.
pub type PatternView = (AspectPattern, Seq<usize>);

/// Mathematical value of detection results.
pub open spec fn pattern_views(v: Seq<(AspectPattern, Vec<usize>)>) -> Seq<PatternView> {
    v.map_values(|e: (AspectPattern, Vec<usize>)| (e.0, e.1@))
}

pub open spec fn one<A>(a: A) -> Seq<A> {
    seq![a]
}

pub open spec fn found<A>(cond: bool, a: A) -> Seq<A> {
    if cond {
        seq![a]
    } else {
        Seq::empty()
    }
}

/// Bodies `a`, `b`, `c` are mutually trine (checked as a–b, b–c, a–c).
pub open spec fn is_grand_trine(g: AspectGrid, a: int, b: int, c: int) -> bool {
    g.holds(Relation::Trine, a, b) && g.holds(Relation::Trine, b, c) && g.holds(
        Relation::Trine,
        a,
        c,
    )
}

pub open spec fn grand_trine_at(g: AspectGrid, i: int, j: int, k: int) -> Seq<PatternView> {
    found(
        is_grand_trine(g, i, j, k),
        (AspectPattern::GrandTrine, seq![i as usize, j as usize, k as usize]),
    )
}

pub open spec fn grand_trine_at_fn(g: AspectGrid, i: int, j: int) -> spec_fn(int) -> Seq<
    PatternView,
> {
    |k: int| grand_trine_at(g, i, j, k)
}

pub open spec fn grand_trines_ij(g: AspectGrid, i: int, j: int) -> Seq<PatternView> {
    concat_range(j + 1, g.size(), grand_trine_at_fn(g, i, j))
}

pub open spec fn grand_trines_ij_fn(g: AspectGrid, i: int) -> spec_fn(int) -> Seq<PatternView> {
    |j: int| grand_trines_ij(g, i, j)
}

pub open spec fn grand_trines_i(g: AspectGrid, i: int) -> Seq<PatternView> {
    concat_range(i + 1, g.size(), grand_trines_ij_fn(g, i))
}

pub open spec fn grand_trines_i_fn(g: AspectGrid) -> spec_fn(int) -> Seq<PatternView> {
    |i: int| grand_trines_i(g, i)
}

/// Grand Trines: every `i < j < k` that are mutually trine, as `[i, j, k]`,
/// in lexicographic order of `(i, j, k)`.
pub open spec fn grand_trines(g: AspectGrid) -> Seq<PatternView> {
    concat_range(0, g.size(), grand_trines_i_fn(g))
}

/// A focal body `k` for the pair `(i, j)`: distinct from both and in
/// `focal` relation to each (squares for a T-Square, quincunxes for a Yod).
pub open spec fn focal_at(
    g: AspectGrid,
    pattern: AspectPattern,
    focal: Relation,
    i: int,
    j: int,
    k: int,
) -> Seq<PatternView> {
    found(
        k != i && k != j && g.holds(focal, i, k) && g.holds(focal, j, k),
        (pattern, seq![i as usize, j as usize, k as usize]),
    )
}

pub open spec fn focal_ij(
    g: AspectGrid,
    pattern: AspectPattern,
    base: Relation,
    focal: Relation,
    i: int,
    j: int,
) -> Seq<PatternView> {
    if g.holds(base, i, j) {
        concat_range(0, g.size(), focal_at_fn(g, pattern, focal, i, j))
    } else {
        Seq::empty()
    }
}

pub open spec fn focal_at_fn(
    g: AspectGrid,
    pattern: AspectPattern,
    focal: Relation,
    i: int,
    j: int,
) -> spec_fn(int) -> Seq<PatternView> {
    |k: int| focal_at(g, pattern, focal, i, j, k)
}

pub open spec fn focal_ij_fn(
    g: AspectGrid,
    pattern: AspectPattern,
    base: Relation,
    focal: Relation,
    i: int,
) -> spec_fn(int) -> Seq<PatternView> {
    |j: int| focal_ij(g, pattern, base, focal, i, j)
}

pub open spec fn focal_i_fn(
    g: AspectGrid,
    pattern: AspectPattern,
    base: Relation,
    focal: Relation,
) -> spec_fn(int) -> Seq<PatternView> {
    |i: int| focal_i(g, pattern, base, focal, i)
}

pub open spec fn focal_i(
    g: AspectGrid,
    pattern: AspectPattern,
    base: Relation,
    focal: Relation,
    i: int,
) -> Seq<PatternView> {
    concat_range(i + 1, g.size(), focal_ij_fn(g, pattern, base, focal, i))
}

/// Three-body patterns on a `base` pair `i < j` with a focal body `k` in
/// `focal` relation to both, as `[i, j, k]`, ordered by `(i, j, k)`.
pub open spec fn focal_patterns(
    g: AspectGrid,
    pattern: AspectPattern,
    base: Relation,
    focal: Relation,
) -> Seq<PatternView> {
    concat_range(0, g.size(), focal_i_fn(g, pattern, base, focal))
}

/// The bodies within a stellium arc of body `i`, with `i` itself, ascending.
pub open spec fn stellium_cluster(g: AspectGrid, i: int) -> Seq<usize> {
    concat_range(0, g.size(), cluster_member_fn(g, i))
}

pub open spec fn cluster_member_fn(g: AspectGrid, i: int) -> spec_fn(int) -> Seq<usize> {
    |j: int| found(j == i || g.holds(Relation::StelliumArc, i, j), j as usize)
}

pub open spec fn stellium_candidate_fn(g: AspectGrid) -> spec_fn(int) -> Seq<Seq<usize>> {
    |i: int| found(stellium_cluster(g, i).len() >= 3, stellium_cluster(g, i))
}

pub open spec fn stellium_candidates(g: AspectGrid, hi: int) -> Seq<Seq<usize>> {
    concat_range(0, hi, stellium_candidate_fn(g))
}

pub open spec fn as_stelliums(keys: Seq<Seq<usize>>) -> Seq<PatternView> {
    keys.map_values(|k: Seq<usize>| (AspectPattern::Stellium, k))
}

/// Stelliums: for each body in index order, its cluster when it has at least
/// three members, skipping a cluster already reported.
pub open spec fn stelliums(g: AspectGrid) -> Seq<PatternView> {
    as_stelliums(dedup(stellium_candidates(g, g.size())))
}

/// Bodies on two opposition axes `p–q` and `r–s` joined by four squares.
pub open spec fn is_cross(g: AspectGrid, p: int, q: int, r: int, s: int) -> bool {
    &&& g.holds(Relation::Opposition, p, q)
    &&& g.holds(Relation::Opposition, r, s)
    &&& g.holds(Relation::Square, p, r)
    &&& g.holds(Relation::Square, p, s)
    &&& g.holds(Relation::Square, q, r)
    &&& g.holds(Relation::Square, q, s)
}

/// Bodies on two opposition axes `p–q` and `r–s` joined by two trines and
/// two sextiles, each endpoint having one of each.
pub open spec fn is_rectangle(g: AspectGrid, p: int, q: int, r: int, s: int) -> bool {
    &&& g.holds(Relation::Opposition, p, q)
    &&& g.holds(Relation::Opposition, r, s)
    &&& {
        ||| (g.holds(Relation::Trine, p, r) && g.holds(Relation::Sextile, p, s) && g.holds(
            Relation::Sextile,
            q,
            r,
        ) && g.holds(Relation::Trine, q, s))
        ||| (g.holds(Relation::Sextile, p, r) && g.holds(Relation::Trine, p, s) && g.holds(
            Relation::Trine,
            q,
            r,
        ) && g.holds(Relation::Sextile, q, s))
    }
}

/// For four bodies, the first of the three ways to split them into two axes
/// (`ab|cd`, `ac|bd`, `ad|bc`) that forms the shape, listed axis by axis.
pub open spec fn four_body_order(
    g: AspectGrid,
    rectangle: bool,
    a: int,
    b: int,
    c: int,
    d: int,
) -> Option<Seq<usize>> {
    let shape = |p: int, q: int, r: int, s: int|
        if rectangle {
            is_rectangle(g, p, q, r, s)
        } else {
            is_cross(g, p, q, r, s)
        };
    if shape(a, b, c, d) {
        Some(seq![a as usize, b as usize, c as usize, d as usize])
    } else if shape(a, c, b, d) {
        Some(seq![a as usize, c as usize, b as usize, d as usize])
    } else if shape(a, d, b, c) {
        Some(seq![a as usize, d as usize, b as usize, c as usize])
    } else {
        None
    }
}

pub open spec fn four_body_at(
    g: AspectGrid,
    pattern: AspectPattern,
    a: int,
    b: int,
    c: int,
    d: int,
) -> Seq<PatternView> {
    match four_body_order(g, pattern == AspectPattern::MysticRectangle, a, b, c, d) {
        Some(order) => one((pattern, order)),
        None => Seq::empty(),
    }
}

pub open spec fn four_body_abc(
    g: AspectGrid,
    pattern: AspectPattern,
    a: int,
    b: int,
    c: int,
) -> Seq<PatternView> {
    concat_range(c + 1, g.size(), four_body_at_fn(g, pattern, a, b, c))
}

pub open spec fn four_body_at_fn(g: AspectGrid, pattern: AspectPattern, a: int, b: int, c: int) -> spec_fn(int) -> Seq<PatternView> {
    |d: int| four_body_at(g, pattern, a, b, c, d)
}

pub open spec fn four_body_abc_fn(g: AspectGrid, pattern: AspectPattern, a: int, b: int) -> spec_fn(int) -> Seq<PatternView> {
    |c: int| four_body_abc(g, pattern, a, b, c)
}

pub open spec fn four_body_ab_fn(g: AspectGrid, pattern: AspectPattern, a: int) -> spec_fn(int) -> Seq<PatternView> {
    |b: int| four_body_ab(g, pattern, a, b)
}

pub open spec fn four_body_a_fn(g: AspectGrid, pattern: AspectPattern) -> spec_fn(int) -> Seq<PatternView> {
    |a: int| four_body_a(g, pattern, a)
}

pub open spec fn four_body_ab(g: AspectGrid, pattern: AspectPattern, a: int, b: int) -> Seq<
    PatternView,
> {
    concat_range(b + 1, g.size(), four_body_abc_fn(g, pattern, a, b))
}

pub open spec fn four_body_a(g: AspectGrid, pattern: AspectPattern, a: int) -> Seq<PatternView> {
    concat_range(a + 1, g.size(), four_body_ab_fn(g, pattern, a))
}

/// Grand Crosses (or Mystic Rectangles): every `a < b < c < d` that forms
/// the shape, listed axis by axis, ordered by `(a, b, c, d)`.
pub open spec fn four_body_patterns(g: AspectGrid, pattern: AspectPattern) -> Seq<PatternView> {
    concat_range(0, g.size(), four_body_a_fn(g, pattern))
}

/// A Kite on the Grand Trine `i, j, k` with tail `t`: `t` must oppose
/// exactly one trine member (the apex) and sextile the other two (the
/// wings). Listed as `[tail, apex, wing1, wing2]`.
pub open spec fn kite_order(g: AspectGrid, i: int, j: int, k: int, t: int) -> Option<Seq<usize>> {
    let opp = |m: int| g.holds(Relation::Opposition, t, m);
    let sext = |m: int| g.holds(Relation::Sextile, t, m);
    if opp(i) {
        if !opp(j) && !opp(k) && sext(j) && sext(k) {
            Some(seq![t as usize, i as usize, j as usize, k as usize])
        } else {
            None
        }
    } else if opp(j) {
        if !opp(k) && sext(i) && sext(k) {
            Some(seq![t as usize, j as usize, i as usize, k as usize])
        } else {
            None
        }
    } else if opp(k) {
        if sext(i) && sext(j) {
            Some(seq![t as usize, k as usize, i as usize, j as usize])
        } else {
            None
        }
    } else {
        None
    }
}

pub open spec fn kite_at(g: AspectGrid, i: int, j: int, k: int, t: int) -> Seq<PatternView> {
    if t != i && t != j && t != k {
        match kite_order(g, i, j, k, t) {
            Some(order) => one((AspectPattern::Kite, order)),
            None => Seq::empty(),
        }
    } else {
        Seq::empty()
    }
}

pub open spec fn kites_ijk(g: AspectGrid, i: int, j: int, k: int) -> Seq<PatternView> {
    if is_grand_trine(g, i, j, k) {
        concat_range(0, g.size(), kite_at_fn(g, i, j, k))
    } else {
        Seq::empty()
    }
}

pub open spec fn kite_at_fn(g: AspectGrid, i: int, j: int, k: int) -> spec_fn(int) -> Seq<PatternView> {
    |t: int| kite_at(g, i, j, k, t)
}

pub open spec fn kites_ijk_fn(g: AspectGrid, i: int, j: int) -> spec_fn(int) -> Seq<PatternView> {
    |k: int| kites_ijk(g, i, j, k)
}

pub open spec fn kites_ij_fn(g: AspectGrid, i: int) -> spec_fn(int) -> Seq<PatternView> {
    |j: int| kites_ij(g, i, j)
}

pub open spec fn kites_i_fn(g: AspectGrid) -> spec_fn(int) -> Seq<PatternView> {
    |i: int| kites_i(g, i)
}

pub open spec fn kites_ij(g: AspectGrid, i: int, j: int) -> Seq<PatternView> {
    concat_range(j + 1, g.size(), kites_ijk_fn(g, i, j))
}

pub open spec fn kites_i(g: AspectGrid, i: int) -> Seq<PatternView> {
    concat_range(i + 1, g.size(), kites_ij_fn(g, i))
}

/// Kites: for every Grand Trine `i < j < k` and every other body as tail.
pub open spec fn kites(g: AspectGrid) -> Seq<PatternView> {
    concat_range(0, g.size(), kites_i_fn(g))
}

/// Everything index-based detection reports, in its order: Grand Trines,
/// T-Squares, Yods, Stelliums, Grand Crosses, Mystic Rectangles, Kites.
pub open spec fn detected_patterns(g: AspectGrid) -> Seq<PatternView> {
    grand_trines(g) + focal_patterns(
        g,
        AspectPattern::TSquare,
        Relation::Opposition,
        Relation::Square,
    ) + focal_patterns(g, AspectPattern::Yod, Relation::Sextile, Relation::Quincunx)
        + stelliums(g) + four_body_patterns(g, AspectPattern::GrandCross) + four_body_patterns(
        g,
        AspectPattern::MysticRectangle,
    ) + kites(g)
}

} // verus!

verus! {

// ---------------------------------------------------------------------------
// Index-based pattern detection
// ---------------------------------------------------------------------------

proof fn lemma_views_push(v: Seq<(AspectPattern, Vec<usize>)>, x: (AspectPattern, Vec<usize>))
    ensures
        pattern_views(v.push(x)) == pattern_views(v).push((x.0, x.1@)),
{
    assert(pattern_views(v.push(x)) =~= pattern_views(v).push((x.0, x.1@)));
}

pub(crate) proof fn lemma_found<A>(mid: Seq<A>, cond: bool, e: A)
    ensures
        mid + found(cond, e) == if cond {
            mid.push(e)
        } else {
            mid
        },
{
    if cond {
        assert(mid + found(cond, e) =~= mid.push(e));
    } else {
        assert(mid + found(cond, e) =~= mid);
    }
}

/// Append one detection result and record how the view grows.
fn push_pattern(
    out: &mut Vec<(AspectPattern, Vec<usize>)>,
    pattern: AspectPattern,
    members: Vec<usize>,
)
    ensures
        pattern_views(final(out)@) == pattern_views(old(out)@).push((pattern, members@)),
{
    proof {
        lemma_views_push(out@, (pattern, members));
    }
    out.push((pattern, members));
}

fn push_grand_trines(g: &AspectGrid, out: &mut Vec<(AspectPattern, Vec<usize>)>)
    requires
        g.wf(),
    ensures
        pattern_views(final(out)@) == pattern_views(old(out)@) + grand_trines(*g),
{
    let n = g.len();
    let ghost start = pattern_views(out@);
    let mut i: usize = 0;
    while i < n
        invariant
            g.wf(),
            n == g.size(),
            0 <= i <= n,
            pattern_views(out@) == start + concat_range(0, i as int, grand_trines_i_fn(*g)),
        decreases n - i,
    {
        let ghost before_i = pattern_views(out@);
        let mut j: usize = i + 1;
        while j < n
            invariant
                g.wf(),
                n == g.size(),
                i < n,
                i + 1 <= j <= n,
                pattern_views(out@) == before_i + concat_range(
                    i + 1,
                    j as int,
                    grand_trines_ij_fn(*g, i as int),
                ),
            decreases n - j,
        {
            let ghost before_j = pattern_views(out@);
            let mut k: usize = j + 1;
            while k < n
                invariant
                    g.wf(),
                    n == g.size(),
                    i < j < n,
                    j + 1 <= k <= n,
                    pattern_views(out@) == before_j + concat_range(
                        j + 1,
                        k as int,
                        grand_trine_at_fn(*g, i as int, j as int),
                    ),
                decreases n - k,
            {
                let ghost before_k = pattern_views(out@);
                let hit = g.get(Relation::Trine, i, j) && g.get(Relation::Trine, j, k) && g.get(
                    Relation::Trine,
                    i,
                    k,
                );
                if hit {
                    let members = vec![i, j, k];
                    assert(members@ =~= seq![i, j, k]);
                    push_pattern(out, AspectPattern::GrandTrine, members);
                }
                proof {
                    lemma_found(
                        before_k,
                        hit,
                        (AspectPattern::GrandTrine, seq![i as usize, j as usize, k as usize]),
                    );
                    lemma_loop_round(
                        before_j,
                        before_k,
                        pattern_views(out@),
                        j + 1,
                        k as int,
                        grand_trine_at_fn(*g, i as int, j as int),
                    );
                }
                k = k + 1;
            }
            proof {
                lemma_loop_round(
                    before_i,
                    before_j,
                    pattern_views(out@),
                    i + 1,
                    j as int,
                    grand_trines_ij_fn(*g, i as int),
                );
            }
            j = j + 1;
        }
        proof {
            lemma_loop_round(
                start,
                before_i,
                pattern_views(out@),
                0,
                i as int,
                grand_trines_i_fn(*g),
            );
        }
        i = i + 1;
    }
}

} // verus!

verus! {

fn push_focal_patterns(
    g: &AspectGrid,
    out: &mut Vec<(AspectPattern, Vec<usize>)>,
    pattern: AspectPattern,
    base: Relation,
    focal: Relation,
)
    requires
        g.wf(),
    ensures
        pattern_views(final(out)@) == pattern_views(old(out)@) + focal_patterns(
            *g,
            pattern,
            base,
            focal,
        ),
{
    let n = g.len();
    let ghost start = pattern_views(out@);
    let mut i: usize = 0;
    while i < n
        invariant
            g.wf(),
            n == g.size(),
            0 <= i <= n,
            pattern_views(out@) == start + concat_range(
                0,
                i as int,
                focal_i_fn(*g, pattern, base, focal),
            ),
        decreases n - i,
    {
        let ghost before_i = pattern_views(out@);
        let mut j: usize = i + 1;
        while j < n
            invariant
                g.wf(),
                n == g.size(),
                i < n,
                i + 1 <= j <= n,
                pattern_views(out@) == before_i + concat_range(
                    i + 1,
                    j as int,
                    focal_ij_fn(*g, pattern, base, focal, i as int),
                ),
            decreases n - j,
        {
            let ghost before_j = pattern_views(out@);
            if g.get(base, i, j) {
                let mut k: usize = 0;
                while k < n
                    invariant
                        g.wf(),
                        n == g.size(),
                        i < j < n,
                        0 <= k <= n,
                        pattern_views(out@) == before_j + concat_range(
                            0,
                            k as int,
                            focal_at_fn(*g, pattern, focal, i as int, j as int),
                        ),
                    decreases n - k,
                {
                    let ghost before_k = pattern_views(out@);
                    let hit = k != i && k != j && g.get(focal, i, k) && g.get(focal, j, k);
                    if hit {
                        let members = vec![i, j, k];
                        assert(members@ =~= seq![i, j, k]);
                        push_pattern(out, pattern, members);
                    }
                    proof {
                        lemma_found(
                            before_k,
                            hit,
                            (pattern, seq![i as usize, j as usize, k as usize]),
                        );
                        lemma_loop_round(
                            before_j,
                            before_k,
                            pattern_views(out@),
                            0,
                            k as int,
                            focal_at_fn(*g, pattern, focal, i as int, j as int),
                        );
                    }
                    k = k + 1;
                }
            } else {
                proof {
                    lemma_add_empty(before_j);
                }
            }
            proof {
                lemma_loop_round(
                    before_i,
                    before_j,
                    pattern_views(out@),
                    i + 1,
                    j as int,
                    focal_ij_fn(*g, pattern, base, focal, i as int),
                );
            }
            j = j + 1;
        }
        proof {
            lemma_loop_round(
                start,
                before_i,
                pattern_views(out@),
                0,
                i as int,
                focal_i_fn(*g, pattern, base, focal),
            );
        }
        i = i + 1;
    }
}

fn is_cross_exec(g: &AspectGrid, p: usize, q: usize, r: usize, s: usize) -> (b: bool)
    requires
        g.wf(),
        p < g.size(),
        q < g.size(),
        r < g.size(),
        s < g.size(),
    ensures
        b == is_cross(*g, p as int, q as int, r as int, s as int),
{
    g.get(Relation::Opposition, p, q) && g.get(Relation::Opposition, r, s) && g.get(
        Relation::Square,
        p,
        r,
    ) && g.get(Relation::Square, p, s) && g.get(Relation::Square, q, r) && g.get(
        Relation::Square,
        q,
        s,
    )
}

fn is_rectangle_exec(g: &AspectGrid, p: usize, q: usize, r: usize, s: usize) -> (b: bool)
    requires
        g.wf(),
        p < g.size(),
        q < g.size(),
        r < g.size(),
        s < g.size(),
    ensures
        b == is_rectangle(*g, p as int, q as int, r as int, s as int),
{
    if !(g.get(Relation::Opposition, p, q) && g.get(Relation::Opposition, r, s)) {
        return false;
    }
    let pr_t = g.get(Relation::Trine, p, r);
    let ps_s = g.get(Relation::Sextile, p, s);
    let qr_s = g.get(Relation::Sextile, q, r);
    let qs_t = g.get(Relation::Trine, q, s);
    let pr_s = g.get(Relation::Sextile, p, r);
    let ps_t = g.get(Relation::Trine, p, s);
    let qr_t = g.get(Relation::Trine, q, r);
    let qs_s = g.get(Relation::Sextile, q, s);
    (pr_t && ps_s && qr_s && qs_t) || (pr_s && ps_t && qr_t && qs_s)
}

fn shape_exec(g: &AspectGrid, rectangle: bool, p: usize, q: usize, r: usize, s: usize) -> (b:
    bool)
    requires
        g.wf(),
        p < g.size(),
        q < g.size(),
        r < g.size(),
        s < g.size(),
    ensures
        b == if rectangle {
            is_rectangle(*g, p as int, q as int, r as int, s as int)
        } else {
            is_cross(*g, p as int, q as int, r as int, s as int)
        },
{
    if rectangle {
        is_rectangle_exec(g, p, q, r, s)
    } else {
        is_cross_exec(g, p, q, r, s)
    }
}

/// The axis-by-axis order of four bodies forming a Grand Cross (or, with
/// `rectangle`, a Mystic Rectangle), if they form one.
fn four_body_order_exec(
    g: &AspectGrid,
    rectangle: bool,
    a: usize,
    b: usize,
    c: usize,
    d: usize,
) -> (r: Option<Vec<usize>>)
    requires
        g.wf(),
        a < g.size(),
        b < g.size(),
        c < g.size(),
        d < g.size(),
    ensures
        r matches Some(v) ==> four_body_order(*g, rectangle, a as int, b as int, c as int, d as int)
            == Some(v@),
        r is None ==> four_body_order(*g, rectangle, a as int, b as int, c as int, d as int)
            is None,
{
    if shape_exec(g, rectangle, a, b, c, d) {
        let v = vec![a, b, c, d];
        assert(v@ =~= seq![a, b, c, d]);
        Some(v)
    } else if shape_exec(g, rectangle, a, c, b, d) {
        let v = vec![a, c, b, d];
        assert(v@ =~= seq![a, c, b, d]);
        Some(v)
    } else if shape_exec(g, rectangle, a, d, b, c) {
        let v = vec![a, d, b, c];
        assert(v@ =~= seq![a, d, b, c]);
        Some(v)
    } else {
        None
    }
}

fn push_four_body_patterns(
    g: &AspectGrid,
    out: &mut Vec<(AspectPattern, Vec<usize>)>,
    pattern: AspectPattern,
)
    requires
        g.wf(),
    ensures
        pattern_views(final(out)@) == pattern_views(old(out)@) + four_body_patterns(*g, pattern),
{
    let rectangle = pattern == AspectPattern::MysticRectangle;
    let n = g.len();
    let ghost start = pattern_views(out@);
    let mut a: usize = 0;
    while a < n
        invariant
            g.wf(),
            n == g.size(),
            rectangle == (pattern == AspectPattern::MysticRectangle),
            0 <= a <= n,
            pattern_views(out@) == start + concat_range(0, a as int, four_body_a_fn(*g, pattern)),
        decreases n - a,
    {
        let ghost before_a = pattern_views(out@);
        let mut b: usize = a + 1;
        while b < n
            invariant
                g.wf(),
                n == g.size(),
                rectangle == (pattern == AspectPattern::MysticRectangle),
                a < n,
                a + 1 <= b <= n,
                pattern_views(out@) == before_a + concat_range(
                    a + 1,
                    b as int,
                    four_body_ab_fn(*g, pattern, a as int),
                ),
            decreases n - b,
        {
            let ghost before_b = pattern_views(out@);
            let mut c: usize = b + 1;
            while c < n
                invariant
                    g.wf(),
                    n == g.size(),
                    rectangle == (pattern == AspectPattern::MysticRectangle),
                    a < b < n,
                    b + 1 <= c <= n,
                    pattern_views(out@) == before_b + concat_range(
                        b + 1,
                        c as int,
                        four_body_abc_fn(*g, pattern, a as int, b as int),
                    ),
                decreases n - c,
            {
                let ghost before_c = pattern_views(out@);
                let mut d: usize = c + 1;
                while d < n
                    invariant
                        g.wf(),
                        n == g.size(),
                        rectangle == (pattern == AspectPattern::MysticRectangle),
                        a < b < c < n,
                        c + 1 <= d <= n,
                        pattern_views(out@) == before_c + concat_range(
                            c + 1,
                            d as int,
                            four_body_at_fn(*g, pattern, a as int, b as int, c as int),
                        ),
                    decreases n - d,
                {
                    let ghost before_d = pattern_views(out@);
                    let order = four_body_order_exec(g, rectangle, a, b, c, d);
                    match order {
                        Some(members) => {
                            let ghost m = members@;
                            push_pattern(out, pattern, members);
                            proof {
                                assert(before_d + one((pattern, m)) =~= before_d.push((pattern, m)));
                            }
                        },
                        None => {
                            proof {
                                lemma_add_empty(before_d);
                            }
                        },
                    }
                    proof {
                        lemma_loop_round(
                            before_c,
                            before_d,
                            pattern_views(out@),
                            c + 1,
                            d as int,
                            four_body_at_fn(*g, pattern, a as int, b as int, c as int),
                        );
                    }
                    d = d + 1;
                }
                proof {
                    lemma_loop_round(
                        before_b,
                        before_c,
                        pattern_views(out@),
                        b + 1,
                        c as int,
                        four_body_abc_fn(*g, pattern, a as int, b as int),
                    );
                }
                c = c + 1;
            }
            proof {
                lemma_loop_round(
                    before_a,
                    before_b,
                    pattern_views(out@),
                    a + 1,
                    b as int,
                    four_body_ab_fn(*g, pattern, a as int),
                );
            }
            b = b + 1;
        }
        proof {
            lemma_loop_round(
                start,
                before_a,
                pattern_views(out@),
                0,
                a as int,
                four_body_a_fn(*g, pattern),
            );
        }
        a = a + 1;
    }
}

} // verus!

verus! {

fn kite_order_exec(g: &AspectGrid, i: usize, j: usize, k: usize, t: usize) -> (r: Option<
    Vec<usize>,
>)
    requires
        g.wf(),
        i < g.size(),
        j < g.size(),
        k < g.size(),
        t < g.size(),
    ensures
        r matches Some(v) ==> kite_order(*g, i as int, j as int, k as int, t as int) == Some(v@),
        r is None ==> kite_order(*g, i as int, j as int, k as int, t as int) is None,
{
    let (apex, w1, w2) = if g.get(Relation::Opposition, t, i) {
        (i, j, k)
    } else if g.get(Relation::Opposition, t, j) {
        (j, i, k)
    } else if g.get(Relation::Opposition, t, k) {
        (k, i, j)
    } else {
        return None;
    };
    if !g.get(Relation::Opposition, t, w1) && !g.get(Relation::Opposition, t, w2) && g.get(
        Relation::Sextile,
        t,
        w1,
    ) && g.get(Relation::Sextile, t, w2) {
        let v = vec![t, apex, w1, w2];
        assert(v@ =~= seq![t, apex, w1, w2]);
        Some(v)
    } else {
        None
    }
}

fn push_kites(g: &AspectGrid, out: &mut Vec<(AspectPattern, Vec<usize>)>)
    requires
        g.wf(),
    ensures
        pattern_views(final(out)@) == pattern_views(old(out)@) + kites(*g),
{
    let n = g.len();
    let ghost start = pattern_views(out@);
    let mut i: usize = 0;
    while i < n
        invariant
            g.wf(),
            n == g.size(),
            0 <= i <= n,
            pattern_views(out@) == start + concat_range(0, i as int, kites_i_fn(*g)),
        decreases n - i,
    {
        let ghost before_i = pattern_views(out@);
        let mut j: usize = i + 1;
        while j < n
            invariant
                g.wf(),
                n == g.size(),
                i < n,
                i + 1 <= j <= n,
                pattern_views(out@) == before_i + concat_range(
                    i + 1,
                    j as int,
                    kites_ij_fn(*g, i as int),
                ),
            decreases n - j,
        {
            let ghost before_j = pattern_views(out@);
            let mut k: usize = j + 1;
            while k < n
                invariant
                    g.wf(),
                    n == g.size(),
                    i < j < n,
                    j + 1 <= k <= n,
                    pattern_views(out@) == before_j + concat_range(
                        j + 1,
                        k as int,
                        kites_ijk_fn(*g, i as int, j as int),
                    ),
                decreases n - k,
            {
                let ghost before_k = pattern_views(out@);
                let trine = g.get(Relation::Trine, i, j) && g.get(Relation::Trine, j, k) && g.get(
                    Relation::Trine,
                    i,
                    k,
                );
                if trine {
                    let mut t: usize = 0;
                    while t < n
                        invariant
                            g.wf(),
                            n == g.size(),
                            i < j < k < n,
                            0 <= t <= n,
                            pattern_views(out@) == before_k + concat_range(
                                0,
                                t as int,
                                kite_at_fn(*g, i as int, j as int, k as int),
                            ),
                        decreases n - t,
                    {
                        let ghost before_t = pattern_views(out@);
                        if t != i && t != j && t != k {
                            match kite_order_exec(g, i, j, k, t) {
                                Some(members) => {
                                    let ghost m = members@;
                                    push_pattern(out, AspectPattern::Kite, members);
                                    proof {
                                        assert(before_t + one((AspectPattern::Kite, m))
                                            =~= before_t.push((AspectPattern::Kite, m)));
                                    }
                                },
                                None => {
                                    proof {
                                        lemma_add_empty(before_t);
                                    }
                                },
                            }
                        } else {
                            proof {
                                lemma_add_empty(before_t);
                            }
                        }
                        proof {
                            lemma_loop_round(
                                before_k,
                                before_t,
                                pattern_views(out@),
                                0,
                                t as int,
                                kite_at_fn(*g, i as int, j as int, k as int),
                            );
                        }
                        t = t + 1;
                    }
                } else {
                    proof {
                        lemma_add_empty(before_k);
                    }
                }
                proof {
                    lemma_loop_round(
                        before_j,
                        before_k,
                        pattern_views(out@),
                        j + 1,
                        k as int,
                        kites_ijk_fn(*g, i as int, j as int),
                    );
                }
                k = k + 1;
            }
            proof {
                lemma_loop_round(
                    before_i,
                    before_j,
                    pattern_views(out@),
                    i + 1,
                    j as int,
                    kites_ij_fn(*g, i as int),
                );
            }
            j = j + 1;
        }
        proof {
            lemma_loop_round(start, before_i, pattern_views(out@), 0, i as int, kites_i_fn(*g));
        }
        i = i + 1;
    }
}

/// The members of body `i`'s stellium cluster, ascending.
fn stellium_cluster_exec(g: &AspectGrid, i: usize) -> (c: Vec<usize>)
    requires
        g.wf(),
        i < g.size(),
    ensures
        c@ == stellium_cluster(*g, i as int),
{
    let n = g.len();
    let mut c: Vec<usize> = Vec::new();
    let mut j: usize = 0;
    while j < n
        invariant
            g.wf(),
            n == g.size(),
            i < n,
            0 <= j <= n,
            c@ == concat_range(0, j as int, cluster_member_fn(*g, i as int)),
        decreases n - j,
    {
        let ghost before = c@;
        let member = j == i || g.get(Relation::StelliumArc, i, j);
        if member {
            c.push(j);
        }
        proof {
            lemma_found(before, member, j as usize);
            lemma_loop_round(
                Seq::<usize>::empty(),
                before,
                c@,
                0,
                j as int,
                cluster_member_fn(*g, i as int),
            );
            assert(Seq::<usize>::empty() + concat_range(0, j + 1, cluster_member_fn(*g, i as int))
                =~= concat_range(0, j + 1, cluster_member_fn(*g, i as int)));
        }
        j = j + 1;
    }
    c
}

fn same_indices(a: &Vec<usize>, b: &Vec<usize>) -> (r: bool)
    ensures
        r == (a@ == b@),
{
    if a.len() != b.len() {
        return false;
    }
    let mut i: usize = 0;
    while i < a.len()
        invariant
            a@.len() == b@.len(),
            0 <= i <= a@.len(),
            forall|k: int| 0 <= k < i ==> a@[k] == b@[k],
        decreases a@.len() - i,
    {
        if a[i] != b[i] {
            return false;
        }
        i = i + 1;
    }
    assert(a@ =~= b@);
    true
}

pub open spec fn index_lists(v: Seq<Vec<usize>>) -> Seq<Seq<usize>> {
    v.map_values(|x: Vec<usize>| x@)
}

fn contains_indices(keys: &Vec<Vec<usize>>, key: &Vec<usize>) -> (r: bool)
    ensures
        r == index_lists(keys@).contains(key@),
{
    let mut i: usize = 0;
    while i < keys.len()
        invariant
            0 <= i <= keys@.len(),
            forall|k: int| 0 <= k < i ==> keys@[k]@ != key@,
        decreases keys@.len() - i,
    {
        if same_indices(&keys[i], key) {
            assert(index_lists(keys@)[i as int] == key@);
            return true;
        }
        i = i + 1;
    }
    assert(!index_lists(keys@).contains(key@)) by {
        if index_lists(keys@).contains(key@) {
            let k = choose|k: int| 0 <= k < index_lists(keys@).len() && index_lists(keys@)[k] == key@;
            assert(keys@[k]@ == key@);
        }
    }
    false
}

fn copy_indices(v: &Vec<usize>) -> (r: Vec<usize>)
    ensures
        r@ == v@,
{
    let mut r: Vec<usize> = Vec::new();
    let mut i: usize = 0;
    while i < v.len()
        invariant
            0 <= i <= v@.len(),
            r@ == v@.take(i as int),
        decreases v@.len() - i,
    {
        r.push(v[i]);
        i = i + 1;
        assert(r@ =~= v@.take(i as int));
    }
    assert(v@.take(i as int) =~= v@);
    r
}

pub(crate) proof fn lemma_dedup_step<A>(s: Seq<A>, x: A)
    ensures
        dedup(s.push(x)) == if dedup(s).contains(x) {
            dedup(s)
        } else {
            dedup(s).push(x)
        },
{
    assert(s.push(x).drop_last() =~= s);
}

fn push_stelliums(g: &AspectGrid, out: &mut Vec<(AspectPattern, Vec<usize>)>)
    requires
        g.wf(),
    ensures
        pattern_views(final(out)@) == pattern_views(old(out)@) + stelliums(*g),
{
    let n = g.len();
    let ghost start = pattern_views(out@);
    let mut keys: Vec<Vec<usize>> = Vec::new();
    let mut i: usize = 0;
    assert(as_stelliums(Seq::<Seq<usize>>::empty()) =~= Seq::<PatternView>::empty());
    while i < n
        invariant
            g.wf(),
            n == g.size(),
            0 <= i <= n,
            index_lists(keys@) == dedup(stellium_candidates(*g, i as int)),
            pattern_views(out@) == start + as_stelliums(index_lists(keys@)),
        decreases n - i,
    {
        let ghost before = stellium_candidates(*g, i as int);
        let cluster = stellium_cluster_exec(g, i);
        let big = cluster.len() >= 3;
        proof {
            lemma_concat_range_step(0, i as int, stellium_candidate_fn(*g));
            lemma_found(before, big, cluster@);
        }
        if big {
            proof {
                lemma_dedup_step(before, cluster@);
            }
            if !contains_indices(&keys, &cluster) {
                let ghost old_keys = index_lists(keys@);
                let key = copy_indices(&cluster);
                keys.push(key);
                assert(index_lists(keys@) =~= old_keys.push(cluster@));
                push_pattern(out, AspectPattern::Stellium, cluster);
                assert(as_stelliums(old_keys.push(cluster@)) =~= as_stelliums(old_keys).push(
                    (AspectPattern::Stellium, cluster@),
                ));
                proof {
                    lemma_add_assoc(
                        start,
                        as_stelliums(old_keys),
                        seq![(AspectPattern::Stellium, cluster@)],
                    );
                    assert(start + as_stelliums(old_keys).push((AspectPattern::Stellium, cluster@))
                        =~= (start + as_stelliums(old_keys)).push(
                        (AspectPattern::Stellium, cluster@),
                    ));
                }
            }
        }
        i = i + 1;
    }
}

/// Detect aspect patterns among `n` bodies from their pairwise aspect facts.
///
/// Reports, in this order: Grand Trines (`[i, j, k]`, mutually trine),
/// T-Squares (`[i, j, k]`: `i`–`j` opposed, both square to `k`), Yods
/// (`[i, j, k]`: `i`–`j` sextile, both quincunx to `k`), Stelliums (the
/// ascending indices of a body and all bodies within its 30° arc, when at
/// least three, each cluster once), Grand Crosses and Mystic Rectangles (four
/// bodies as two opposition axes `[p, q, r, s]`), and Kites (`[tail, apex,
/// wing1, wing2]` on a Grand Trine). Within each kind, results follow the
/// ascending order of the body indices that were tried.
pub fn detect_patterns(grid: &AspectGrid) -> (patterns: Vec<(AspectPattern, Vec<usize>)>)
    requires
        grid.wf(),
    ensures
        pattern_views(patterns@) == detected_patterns(*grid),
{
    let mut patterns: Vec<(AspectPattern, Vec<usize>)> = Vec::new();
    assert(pattern_views(patterns@) =~= Seq::<PatternView>::empty());
    push_grand_trines(grid, &mut patterns);
    push_focal_patterns(
        grid,
        &mut patterns,
        AspectPattern::TSquare,
        Relation::Opposition,
        Relation::Square,
    );
    push_focal_patterns(grid, &mut patterns, AspectPattern::Yod, Relation::Sextile, Relation::Quincunx);
    push_stelliums(grid, &mut patterns);
    push_four_body_patterns(grid, &mut patterns, AspectPattern::GrandCross);
    push_four_body_patterns(grid, &mut patterns, AspectPattern::MysticRectangle);
    push_kites(grid, &mut patterns);
    assert(pattern_views(patterns@) =~= detected_patterns(*grid));
    patterns
}

// ---------------------------------------------------------------------------
// The shape of every reported pattern
// ---------------------------------------------------------------------------

/// The members of `pv` are bodies of the grid and stand in the relations its
/// kind names, in the order the kind lists them: a Grand Trine's three
/// bodies mutually trine; a T-Square's (Yod's) first two opposed (sextile)
/// and both square (quincunx) to the third; a Grand Cross's or Mystic
/// Rectangle's members as two opposition axes `m[0]`–`m[1]` and
/// `m[2]`–`m[3]` joined by squares (by two trines and two sextiles); a
/// Kite's tail `m[0]` opposed to the apex `m[1]` only and sextile to both
/// wings; a Stellium's members the cluster of one body, at least three, in
/// ascending order. No body is listed twice.
pub open spec fn shape_holds(g: AspectGrid, pv: PatternView) -> bool {
    let m = pv.1;
    &&& forall|k: int| 0 <= k < m.len() ==> #[trigger] m[k] < g.size()
    &&& m.no_duplicates()
    &&& match pv.0 {
        AspectPattern::GrandTrine => m.len() == 3 && is_grand_trine(
            g,
            m[0] as int,
            m[1] as int,
            m[2] as int,
        ),
        AspectPattern::TSquare => {
            &&& m.len() == 3 && m[2] != m[0] && m[2] != m[1]
            &&& g.holds(Relation::Opposition, m[0] as int, m[1] as int)
            &&& g.holds(Relation::Square, m[0] as int, m[2] as int)
            &&& g.holds(Relation::Square, m[1] as int, m[2] as int)
        },
        AspectPattern::Yod => {
            &&& m.len() == 3 && m[2] != m[0] && m[2] != m[1]
            &&& g.holds(Relation::Sextile, m[0] as int, m[1] as int)
            &&& g.holds(Relation::Quincunx, m[0] as int, m[2] as int)
            &&& g.holds(Relation::Quincunx, m[1] as int, m[2] as int)
        },
        AspectPattern::GrandCross => m.len() == 4 && is_cross(
            g,
            m[0] as int,
            m[1] as int,
            m[2] as int,
            m[3] as int,
        ),
        AspectPattern::MysticRectangle => m.len() == 4 && is_rectangle(
            g,
            m[0] as int,
            m[1] as int,
            m[2] as int,
            m[3] as int,
        ),
        AspectPattern::Kite => {
            &&& m.len() == 4
            &&& m[0] != m[1] && m[0] != m[2] && m[0] != m[3]
            &&& g.holds(Relation::Opposition, m[0] as int, m[1] as int)
            &&& !g.holds(Relation::Opposition, m[0] as int, m[2] as int)
            &&& !g.holds(Relation::Opposition, m[0] as int, m[3] as int)
            &&& g.holds(Relation::Sextile, m[0] as int, m[2] as int)
            &&& g.holds(Relation::Sextile, m[0] as int, m[3] as int)
        },
        AspectPattern::Stellium => {
            &&& m.len() >= 3
            &&& forall|a: int, b: int| 0 <= a < b < m.len() ==> #[trigger] m[a] < #[trigger] m[b]
            &&& exists|i: int| 0 <= i < g.size() && m == #[trigger] stellium_cluster(g, i)
        },
    }
}

pub open spec fn shape_fn(g: AspectGrid) -> spec_fn(PatternView) -> bool {
    |pv: PatternView| shape_holds(g, pv)
}

proof fn lemma_grand_trines_shape(g: AspectGrid)
    ensures
        all_satisfy(grand_trines(g), shape_fn(g)),
{
    let p = shape_fn(g);
    let n = g.size();
    assert(n <= usize::MAX);
    assert forall|i: int| 0 <= i < n implies all_satisfy(#[trigger] grand_trines_i_fn(g)(i), p) by {
        assert forall|j: int| i + 1 <= j < n implies all_satisfy(
            #[trigger] grand_trines_ij_fn(g, i)(j),
            p,
        ) by {
            assert forall|k: int| j + 1 <= k < n implies all_satisfy(
                #[trigger] grand_trine_at_fn(g, i, j)(k),
                p,
            ) by {
                let pv = (AspectPattern::GrandTrine, seq![i as usize, j as usize, k as usize]);
                assert(is_grand_trine(g, i, j, k) ==> p(pv));
                lemma_found_all(is_grand_trine(g, i, j, k), pv, p);
            }
            lemma_concat_range_all(j + 1, n, grand_trine_at_fn(g, i, j), p);
        }
        lemma_concat_range_all(i + 1, n, grand_trines_ij_fn(g, i), p);
    }
    lemma_concat_range_all(0, n, grand_trines_i_fn(g), p);
}

proof fn lemma_focal_shape(g: AspectGrid, pattern: AspectPattern, base: Relation, focal: Relation)
    requires
        (pattern == AspectPattern::TSquare && base == Relation::Opposition && focal
            == Relation::Square) || (pattern == AspectPattern::Yod && base == Relation::Sextile
            && focal == Relation::Quincunx),
    ensures
        all_satisfy(focal_patterns(g, pattern, base, focal), shape_fn(g)),
{
    let p = shape_fn(g);
    let n = g.size();
    assert(n <= usize::MAX);
    assert forall|i: int| 0 <= i < n implies all_satisfy(
        #[trigger] focal_i_fn(g, pattern, base, focal)(i),
        p,
    ) by {
        assert forall|j: int| i + 1 <= j < n implies all_satisfy(
            #[trigger] focal_ij_fn(g, pattern, base, focal, i)(j),
            p,
        ) by {
            if g.holds(base, i, j) {
                assert forall|k: int| 0 <= k < n implies all_satisfy(
                    #[trigger] focal_at_fn(g, pattern, focal, i, j)(k),
                    p,
                ) by {
                    let pv = (pattern, seq![i as usize, j as usize, k as usize]);
                    let cond = k != i && k != j && g.holds(focal, i, k) && g.holds(focal, j, k);
                    assert(cond ==> p(pv));
                    lemma_found_all(cond, pv, p);
                }
                lemma_concat_range_all(0, n, focal_at_fn(g, pattern, focal, i, j), p);
            }
        }
        lemma_concat_range_all(i + 1, n, focal_ij_fn(g, pattern, base, focal, i), p);
    }
    lemma_concat_range_all(0, n, focal_i_fn(g, pattern, base, focal), p);
}

pub open spec fn cluster_key(g: AspectGrid) -> spec_fn(Seq<usize>) -> bool {
    |k: Seq<usize>|
        k.len() >= 3 && (forall|x: int| 0 <= x < k.len() ==> #[trigger] k[x] < g.size()) && (forall|
            a: int,
            b: int,
        | 0 <= a < b < k.len() ==> #[trigger] k[a] < #[trigger] k[b]) && exists|
            i: int,
        | 0 <= i < g.size() && k == #[trigger] stellium_cluster(g, i)
}

proof fn lemma_cluster_below(g: AspectGrid, i: int)
    ensures
        all_satisfy(stellium_cluster(g, i), |x: usize| x < g.size()),
{
    let n = g.size();
    assert(n <= usize::MAX);
    let p = |x: usize| x < g.size();
    assert forall|j: int| 0 <= j < n implies all_satisfy(#[trigger] cluster_member_fn(g, i)(j), p) by {
        lemma_found_all(j == i || g.holds(Relation::StelliumArc, i, j), j as usize, p);
    }
    lemma_concat_range_all(0, n, cluster_member_fn(g, i), p);
}

proof fn lemma_dedup_all<A>(s: Seq<A>, p: spec_fn(A) -> bool)
    requires
        all_satisfy(s, p),
    ensures
        all_satisfy(dedup(s), p),
    decreases s.len(),
{
    if s.len() > 0 {
        let prev = s.drop_last();
        assert(all_satisfy(prev, p)) by {
            assert forall|k: int| 0 <= k < prev.len() implies #[trigger] p(prev[k]) by {
                assert(prev[k] == s[k]);
            }
        }
        lemma_dedup_all(prev, p);
        assert(p(s[s.len() - 1]));
    }
}

proof fn lemma_cluster_ascending(g: AspectGrid, i: int, hi: int)
    requires
        0 <= hi <= g.size(),
    ensures
        ({
            let c = concat_range(0, hi, cluster_member_fn(g, i));
            &&& forall|x: int| 0 <= x < c.len() ==> #[trigger] c[x] < hi
            &&& forall|a: int, b: int| 0 <= a < b < c.len() ==> #[trigger] c[a] < #[trigger] c[b]
        }),
    decreases hi,
{
    assert(g.size() <= usize::MAX);
    if hi > 0 {
        lemma_cluster_ascending(g, i, hi - 1);
        let prev = concat_range(0, hi - 1, cluster_member_fn(g, i));
        let last = cluster_member_fn(g, i)(hi - 1);
        let c = concat_range(0, hi, cluster_member_fn(g, i));
        assert(c == prev + last);
        assert forall|x: int| 0 <= x < c.len() implies #[trigger] c[x] < hi by {
            if x < prev.len() {
                assert(c[x] == prev[x]);
            } else {
                assert(c[x] == last[x - prev.len()]);
            }
        }
        assert forall|a: int, b: int| 0 <= a < b < c.len() implies #[trigger] c[a] < #[trigger] c[b] by {
            if b < prev.len() {
                assert(c[a] == prev[a]);
                assert(c[b] == prev[b]);
            } else {
                assert(c[b] == last[b - prev.len()]);
                assert(c[b] == hi - 1);
                assert(a < prev.len());
                assert(c[a] == prev[a]);
            }
        }
    }
}

/// Dropping repeats leaves no repeats.
proof fn lemma_dedup_distinct<A>(s: Seq<A>)
    ensures
        dedup(s).no_duplicates(),
    decreases s.len(),
{
    if s.len() > 0 {
        lemma_dedup_distinct(s.drop_last());
        let prev = dedup(s.drop_last());
        if !prev.contains(s.last()) {
            let d = prev.push(s.last());
            assert forall|a: int, b: int| 0 <= a < d.len() && 0 <= b < d.len() && a != b implies d[a]
                != d[b] by {
                if a < prev.len() && b < prev.len() {
                    assert(d[a] == prev[a]);
                    assert(d[b] == prev[b]);
                } else if a < prev.len() {
                    assert(d[a] == prev[a]);
                } else {
                    assert(d[b] == prev[b]);
                }
            }
        }
    }
}

proof fn lemma_stelliums_shape(g: AspectGrid)
    ensures
        all_satisfy(stelliums(g), shape_fn(g)),
{
    let n = g.size();
    let q = cluster_key(g);
    assert forall|i: int| 0 <= i < n implies all_satisfy(#[trigger] stellium_candidate_fn(g)(i), q) by {
        let c = stellium_cluster(g, i);
        lemma_cluster_below(g, i);
        lemma_cluster_ascending(g, i, n);
        assert(forall|x: int| 0 <= x < c.len() ==> #[trigger] c[x] < g.size()) by {
            assert forall|x: int| 0 <= x < c.len() implies #[trigger] c[x] < g.size() by {
                assert((|x: usize| x < g.size())(c[x]));
            }
        }
        lemma_found_all(c.len() >= 3, c, q);
    }
    lemma_concat_range_all(0, n, stellium_candidate_fn(g), q);
    lemma_dedup_all(stellium_candidates(g, n), q);
    let keys = dedup(stellium_candidates(g, n));
    assert forall|k: int| 0 <= k < stelliums(g).len() implies #[trigger] shape_fn(g)(stelliums(g)[k]) by {
        assert(q(keys[k]));
        assert(stelliums(g)[k] == (AspectPattern::Stellium, keys[k]));
        let m = keys[k];
        assert(m.no_duplicates()) by {
            assert forall|a: int, b: int| 0 <= a < m.len() && 0 <= b < m.len() && a != b implies m[a]
                != m[b] by {
                if a < b {
                    assert(m[a] < m[b]);
                } else {
                    assert(m[b] < m[a]);
                }
            }
        }
    }
}

proof fn lemma_four_body_shape(g: AspectGrid, pattern: AspectPattern)
    requires
        pattern == AspectPattern::GrandCross || pattern == AspectPattern::MysticRectangle,
    ensures
        all_satisfy(four_body_patterns(g, pattern), shape_fn(g)),
{
    let p = shape_fn(g);
    let n = g.size();
    assert(n <= usize::MAX);
    assert forall|a: int| 0 <= a < n implies all_satisfy(#[trigger] four_body_a_fn(g, pattern)(a), p) by {
        assert forall|b: int| a + 1 <= b < n implies all_satisfy(
            #[trigger] four_body_ab_fn(g, pattern, a)(b),
            p,
        ) by {
            assert forall|c: int| b + 1 <= c < n implies all_satisfy(
                #[trigger] four_body_abc_fn(g, pattern, a, b)(c),
                p,
            ) by {
                assert forall|d: int| c + 1 <= d < n implies all_satisfy(
                    #[trigger] four_body_at_fn(g, pattern, a, b, c)(d),
                    p,
                ) by {
                    let r = four_body_at(g, pattern, a, b, c, d);
                    if r.len() > 0 {
                        assert(p(r[0]));
                    }
                }
                lemma_concat_range_all(c + 1, n, four_body_at_fn(g, pattern, a, b, c), p);
            }
            lemma_concat_range_all(b + 1, n, four_body_abc_fn(g, pattern, a, b), p);
        }
        lemma_concat_range_all(a + 1, n, four_body_ab_fn(g, pattern, a), p);
    }
    lemma_concat_range_all(0, n, four_body_a_fn(g, pattern), p);
}

proof fn lemma_kites_shape(g: AspectGrid)
    ensures
        all_satisfy(kites(g), shape_fn(g)),
{
    let p = shape_fn(g);
    let n = g.size();
    assert(n <= usize::MAX);
    assert forall|i: int| 0 <= i < n implies all_satisfy(#[trigger] kites_i_fn(g)(i), p) by {
        assert forall|j: int| i + 1 <= j < n implies all_satisfy(#[trigger] kites_ij_fn(g, i)(j), p) by {
            assert forall|k: int| j + 1 <= k < n implies all_satisfy(
                #[trigger] kites_ijk_fn(g, i, j)(k),
                p,
            ) by {
                if is_grand_trine(g, i, j, k) {
                    assert forall|t: int| 0 <= t < n implies all_satisfy(
                        #[trigger] kite_at_fn(g, i, j, k)(t),
                        p,
                    ) by {
                        let r = kite_at(g, i, j, k, t);
                        if r.len() > 0 {
                            assert(p(r[0]));
                        }
                    }
                    lemma_concat_range_all(0, n, kite_at_fn(g, i, j, k), p);
                }
            }
            lemma_concat_range_all(j + 1, n, kites_ijk_fn(g, i, j), p);
        }
        lemma_concat_range_all(i + 1, n, kites_ij_fn(g, i), p);
    }
    lemma_concat_range_all(0, n, kites_i_fn(g), p);
}

/// Every pattern index-based detection reports has the shape its kind names
/// (see [`shape_holds`]): in particular a Grand Cross or Mystic Rectangle
/// lists its members as two opposition axes, and a Kite's tail opposes the
/// apex alone and sextiles both wings. No Stellium is reported twice.
pub proof fn lemma_detected_patterns_have_their_shape(g: AspectGrid)
    ensures
        forall|k: int|
            0 <= k < detected_patterns(g).len() ==> shape_holds(g, #[trigger] detected_patterns(g)[k]),
        stelliums(g).no_duplicates(),
{
    let keys = dedup(stellium_candidates(g, g.size()));
    lemma_dedup_distinct(stellium_candidates(g, g.size()));
    assert forall|a: int, b: int|
        0 <= a < stelliums(g).len() && 0 <= b < stelliums(g).len() && a != b implies stelliums(g)[a]
        != stelliums(g)[b] by {
        assert(stelliums(g)[a] == (AspectPattern::Stellium, keys[a]));
        assert(stelliums(g)[b] == (AspectPattern::Stellium, keys[b]));
    }
    let p = shape_fn(g);
    lemma_grand_trines_shape(g);
    lemma_focal_shape(g, AspectPattern::TSquare, Relation::Opposition, Relation::Square);
    lemma_focal_shape(g, AspectPattern::Yod, Relation::Sextile, Relation::Quincunx);
    lemma_stelliums_shape(g);
    lemma_four_body_shape(g, AspectPattern::GrandCross);
    lemma_four_body_shape(g, AspectPattern::MysticRectangle);
    lemma_kites_shape(g);
    let s1 = grand_trines(g);
    let s2 = s1 + focal_patterns(g, AspectPattern::TSquare, Relation::Opposition, Relation::Square);
    lemma_all_satisfy_add(s1, focal_patterns(g, AspectPattern::TSquare, Relation::Opposition, Relation::Square), p);
    let s3 = s2 + focal_patterns(g, AspectPattern::Yod, Relation::Sextile, Relation::Quincunx);
    lemma_all_satisfy_add(s2, focal_patterns(g, AspectPattern::Yod, Relation::Sextile, Relation::Quincunx), p);
    let s4 = s3 + stelliums(g);
    lemma_all_satisfy_add(s3, stelliums(g), p);
    let s5 = s4 + four_body_patterns(g, AspectPattern::GrandCross);
    lemma_all_satisfy_add(s4, four_body_patterns(g, AspectPattern::GrandCross), p);
    let s6 = s5 + four_body_patterns(g, AspectPattern::MysticRectangle);
    lemma_all_satisfy_add(s5, four_body_patterns(g, AspectPattern::MysticRectangle), p);
    lemma_all_satisfy_add(s6, kites(g), p);
    assert(detected_patterns(g) == s6 + kites(g));
    assert forall|k: int| 0 <= k < detected_patterns(g).len() implies shape_holds(
        g,
        #[trigger] detected_patterns(g)[k],
    ) by {
        assert(p(detected_patterns(g)[k]));
    }
}


proof fn lemma_contains_right<A>(a: Seq<A>, b: Seq<A>, x: A)
    requires
        b.contains(x),
    ensures
        (a + b).contains(x),
{
    let w = choose|w: int| 0 <= w < b.len() && b[w] == x;
    assert((a + b)[a.len() + w] == x);
}

proof fn lemma_kite_reported(g: AspectGrid, i: usize, j: usize, k: usize, t: usize, pv: PatternView)
    requires
        i < j < k < g.size(),
        t < g.size(),
        is_grand_trine(g, i as int, j as int, k as int),
        kite_at(g, i as int, j as int, k as int, t as int).contains(pv),
    ensures
        detected_patterns(g).contains(pv),
{
    let n = g.size();
    lemma_concat_range_contains(0, n, kite_at_fn(g, i as int, j as int, k as int), t as int, pv);
    assert(kites_ijk_fn(g, i as int, j as int)(k as int).contains(pv));
    lemma_concat_range_contains(j + 1, n, kites_ijk_fn(g, i as int, j as int), k as int, pv);
    assert(kites_ij_fn(g, i as int)(j as int).contains(pv));
    lemma_concat_range_contains(i + 1, n, kites_ij_fn(g, i as int), j as int, pv);
    assert(kites_i_fn(g)(i as int).contains(pv));
    lemma_concat_range_contains(0, n, kites_i_fn(g), i as int, pv);
    let head = grand_trines(g) + focal_patterns(
        g,
        AspectPattern::TSquare,
        Relation::Opposition,
        Relation::Square,
    ) + focal_patterns(g, AspectPattern::Yod, Relation::Sextile, Relation::Quincunx)
        + stelliums(g) + four_body_patterns(g, AspectPattern::GrandCross) + four_body_patterns(
        g,
        AspectPattern::MysticRectangle,
    );
    assert(detected_patterns(g) == head + kites(g));
    lemma_contains_right(head, kites(g), pv);
}

/// Every Kite is found. For a Grand Trine on bodies `i < j < k` (trines
/// `i`–`j`, `j`–`k`, `i`–`k`) and any other body `t` that opposes exactly one
/// of the three (the apex) and sextiles the other two (the wings), detection
/// reports `[t, apex, wing1, wing2]` with the wings in index order, whichever
/// member the apex is.
pub proof fn lemma_kites_complete(g: AspectGrid, i: usize, j: usize, k: usize, t: usize)
    requires
        i < j < k < g.size(),
        t < g.size(),
        t != i && t != j && t != k,
        g.holds(Relation::Trine, i as int, j as int),
        g.holds(Relation::Trine, j as int, k as int),
        g.holds(Relation::Trine, i as int, k as int),
    ensures
        ({
            let opp_i = g.holds(Relation::Opposition, t as int, i as int);
            let opp_j = g.holds(Relation::Opposition, t as int, j as int);
            let opp_k = g.holds(Relation::Opposition, t as int, k as int);
            let sext_i = g.holds(Relation::Sextile, t as int, i as int);
            let sext_j = g.holds(Relation::Sextile, t as int, j as int);
            let sext_k = g.holds(Relation::Sextile, t as int, k as int);
            &&& opp_i && !opp_j && !opp_k && sext_j && sext_k ==> detected_patterns(g).contains(
                (AspectPattern::Kite, seq![t, i, j, k]),
            )
            &&& !opp_i && opp_j && !opp_k && sext_i && sext_k ==> detected_patterns(g).contains(
                (AspectPattern::Kite, seq![t, j, i, k]),
            )
            &&& !opp_i && !opp_j && opp_k && sext_i && sext_j ==> detected_patterns(g).contains(
                (AspectPattern::Kite, seq![t, k, i, j]),
            )
        }),
{
    let r = kite_at(g, i as int, j as int, k as int, t as int);
    if r.len() > 0 {
        assert(r.contains(r[0]));
        lemma_kite_reported(g, i, j, k, t, r[0]);
    }
}


proof fn lemma_contains_left<A>(a: Seq<A>, b: Seq<A>, x: A)
    requires
        a.contains(x),
    ensures
        (a + b).contains(x),
{
    let w = choose|w: int| 0 <= w < a.len() && a[w] == x;
    assert((a + b)[w] == x);
}

/// The seven parts of [`detected_patterns`], in order.
pub open spec fn detected_parts(g: AspectGrid) -> Seq<Seq<PatternView>> {
    seq![
        grand_trines(g),
        focal_patterns(g, AspectPattern::TSquare, Relation::Opposition, Relation::Square),
        focal_patterns(g, AspectPattern::Yod, Relation::Sextile, Relation::Quincunx),
        stelliums(g),
        four_body_patterns(g, AspectPattern::GrandCross),
        four_body_patterns(g, AspectPattern::MysticRectangle),
        kites(g),
    ]
}

/// What any part of detection holds, detection reports.
proof fn lemma_part_reported(g: AspectGrid, part: int, pv: PatternView)
    requires
        0 <= part < 7,
        detected_parts(g)[part].contains(pv),
    ensures
        detected_patterns(g).contains(pv),
{
    let d = detected_parts(g);
    let s1 = d[0];
    let s2 = s1 + d[1];
    let s3 = s2 + d[2];
    let s4 = s3 + d[3];
    let s5 = s4 + d[4];
    let s6 = s5 + d[5];
    let s7 = s6 + d[6];
    assert(detected_patterns(g) == s7);
    if part == 0 {
        lemma_contains_left(s1, d[1], pv);
        lemma_contains_left(s2, d[2], pv);
        lemma_contains_left(s3, d[3], pv);
        lemma_contains_left(s4, d[4], pv);
        lemma_contains_left(s5, d[5], pv);
        lemma_contains_left(s6, d[6], pv);
    } else if part == 1 {
        lemma_contains_right(s1, d[1], pv);
        lemma_contains_left(s2, d[2], pv);
        lemma_contains_left(s3, d[3], pv);
        lemma_contains_left(s4, d[4], pv);
        lemma_contains_left(s5, d[5], pv);
        lemma_contains_left(s6, d[6], pv);
    } else if part == 2 {
        lemma_contains_right(s2, d[2], pv);
        lemma_contains_left(s3, d[3], pv);
        lemma_contains_left(s4, d[4], pv);
        lemma_contains_left(s5, d[5], pv);
        lemma_contains_left(s6, d[6], pv);
    } else if part == 3 {
        lemma_contains_right(s3, d[3], pv);
        lemma_contains_left(s4, d[4], pv);
        lemma_contains_left(s5, d[5], pv);
        lemma_contains_left(s6, d[6], pv);
    } else if part == 4 {
        lemma_contains_right(s4, d[4], pv);
        lemma_contains_left(s5, d[5], pv);
        lemma_contains_left(s6, d[6], pv);
    } else if part == 5 {
        lemma_contains_right(s5, d[5], pv);
        lemma_contains_left(s6, d[6], pv);
    } else {
        lemma_contains_right(s6, d[6], pv);
    }
}

/// Every Grand Trine is found: three bodies `i < j < k` with trines `i`–`j`,
/// `j`–`k` and `i`–`k` are reported as `[i, j, k]`.
pub proof fn lemma_grand_trines_complete(g: AspectGrid, i: usize, j: usize, k: usize)
    requires
        i < j < k < g.size(),
        g.holds(Relation::Trine, i as int, j as int),
        g.holds(Relation::Trine, j as int, k as int),
        g.holds(Relation::Trine, i as int, k as int),
    ensures
        detected_patterns(g).contains((AspectPattern::GrandTrine, seq![i, j, k])),
{
    let n = g.size();
    let pv = (AspectPattern::GrandTrine, seq![i, j, k]);
    assert(grand_trine_at(g, i as int, j as int, k as int)[0] == pv);
    lemma_concat_range_contains(j + 1, n, grand_trine_at_fn(g, i as int, j as int), k as int, pv);
    assert(grand_trines_ij_fn(g, i as int)(j as int).contains(pv));
    lemma_concat_range_contains(i + 1, n, grand_trines_ij_fn(g, i as int), j as int, pv);
    assert(grand_trines_i_fn(g)(i as int).contains(pv));
    lemma_concat_range_contains(0, n, grand_trines_i_fn(g), i as int, pv);
    lemma_part_reported(g, 0, pv);
}

proof fn lemma_focal_reported(
    g: AspectGrid,
    pattern: AspectPattern,
    base: Relation,
    focal: Relation,
    i: usize,
    j: usize,
    k: usize,
)
    requires
        i < j < g.size(),
        k < g.size(),
        k != i && k != j,
        g.holds(base, i as int, j as int),
        g.holds(focal, i as int, k as int),
        g.holds(focal, j as int, k as int),
    ensures
        focal_patterns(g, pattern, base, focal).contains((pattern, seq![i, j, k])),
{
    let n = g.size();
    let pv = (pattern, seq![i, j, k]);
    assert(focal_at(g, pattern, focal, i as int, j as int, k as int)[0] == pv);
    lemma_concat_range_contains(0, n, focal_at_fn(g, pattern, focal, i as int, j as int), k as int, pv);
    assert(focal_ij_fn(g, pattern, base, focal, i as int)(j as int).contains(pv));
    lemma_concat_range_contains(i + 1, n, focal_ij_fn(g, pattern, base, focal, i as int), j as int, pv);
    assert(focal_i_fn(g, pattern, base, focal)(i as int).contains(pv));
    lemma_concat_range_contains(0, n, focal_i_fn(g, pattern, base, focal), i as int, pv);
}

/// Every T-Square and every Yod is found: bodies `i < j` opposed (for a
/// Yod, sextile) and both square (for a Yod, quincunx) to a third body `k`
/// are reported as `[i, j, k]`.
pub proof fn lemma_t_squares_and_yods_complete(g: AspectGrid, i: usize, j: usize, k: usize)
    requires
        i < j < g.size(),
        k < g.size(),
        k != i && k != j,
    ensures
        g.holds(Relation::Opposition, i as int, j as int) && g.holds(
            Relation::Square,
            i as int,
            k as int,
        ) && g.holds(Relation::Square, j as int, k as int) ==> detected_patterns(g).contains(
            (AspectPattern::TSquare, seq![i, j, k]),
        ),
        g.holds(Relation::Sextile, i as int, j as int) && g.holds(
            Relation::Quincunx,
            i as int,
            k as int,
        ) && g.holds(Relation::Quincunx, j as int, k as int) ==> detected_patterns(g).contains(
            (AspectPattern::Yod, seq![i, j, k]),
        ),
{
    if g.holds(Relation::Opposition, i as int, j as int) && g.holds(
        Relation::Square,
        i as int,
        k as int,
    ) && g.holds(Relation::Square, j as int, k as int) {
        lemma_focal_reported(g, AspectPattern::TSquare, Relation::Opposition, Relation::Square, i, j, k);
        lemma_part_reported(g, 1, (AspectPattern::TSquare, seq![i, j, k]));
    }
    if g.holds(Relation::Sextile, i as int, j as int) && g.holds(
        Relation::Quincunx,
        i as int,
        k as int,
    ) && g.holds(Relation::Quincunx, j as int, k as int) {
        lemma_focal_reported(g, AspectPattern::Yod, Relation::Sextile, Relation::Quincunx, i, j, k);
        lemma_part_reported(g, 2, (AspectPattern::Yod, seq![i, j, k]));
    }
}

/// Four bodies `p`, `q`, `r`, `s` on opposition axes `p`–`q` and `r`–`s`
/// with all four cross sides square.
pub open spec fn cross_sides(g: AspectGrid, p: int, q: int, r: int, s: int) -> bool {
    &&& g.holds(Relation::Opposition, p, q) && g.holds(Relation::Opposition, r, s)
    &&& g.holds(Relation::Square, p, r) && g.holds(Relation::Square, p, s)
    &&& g.holds(Relation::Square, q, r) && g.holds(Relation::Square, q, s)
}

/// Four bodies `p`, `q`, `r`, `s` on opposition axes `p`–`q` and `r`–`s`
/// joined by two trines and two sextiles, each end having one of each.
pub open spec fn rectangle_sides(g: AspectGrid, p: int, q: int, r: int, s: int) -> bool {
    &&& g.holds(Relation::Opposition, p, q) && g.holds(Relation::Opposition, r, s)
    &&& {
        ||| g.holds(Relation::Trine, p, r) && g.holds(Relation::Sextile, p, s) && g.holds(
            Relation::Sextile,
            q,
            r,
        ) && g.holds(Relation::Trine, q, s)
        ||| g.holds(Relation::Sextile, p, r) && g.holds(Relation::Trine, p, s) && g.holds(
            Relation::Trine,
            q,
            r,
        ) && g.holds(Relation::Sextile, q, s)
    }
}

/// Every Grand Cross and every Mystic Rectangle is found: when four bodies
/// `a < b < c < d` split into two opposition axes (`ab|cd`, `ac|bd` or
/// `ad|bc`) joined by four squares (by two trines and two sextiles), a
/// Grand Cross (Mystic Rectangle) listing exactly those four bodies is
/// reported.
pub proof fn lemma_four_body_patterns_complete(
    g: AspectGrid,
    a: usize,
    b: usize,
    c: usize,
    d: usize,
)
    requires
        a < b < c < d < g.size(),
    ensures
        cross_sides(g, a as int, b as int, c as int, d as int) || cross_sides(
            g,
            a as int,
            c as int,
            b as int,
            d as int,
        ) || cross_sides(g, a as int, d as int, b as int, c as int) ==> exists|m: Seq<usize>|
            detected_patterns(g).contains((AspectPattern::GrandCross, m)) && m.len() == 4
                && m.contains(a) && m.contains(b) && m.contains(c) && m.contains(d),
        rectangle_sides(g, a as int, b as int, c as int, d as int) || rectangle_sides(
            g,
            a as int,
            c as int,
            b as int,
            d as int,
        ) || rectangle_sides(g, a as int, d as int, b as int, c as int) ==> exists|m: Seq<usize>|
            detected_patterns(g).contains((AspectPattern::MysticRectangle, m)) && m.len() == 4
                && m.contains(a) && m.contains(b) && m.contains(c) && m.contains(d),
{
    let (ai, bi, ci, di) = (a as int, b as int, c as int, d as int);
    let n = g.size();
    if cross_sides(g, ai, bi, ci, di) || cross_sides(g, ai, ci, bi, di) || cross_sides(g, ai, di, bi, ci) {
        lemma_four_body_reported(g, AspectPattern::GrandCross, a, b, c, d);
        let m = four_body_order(g, false, ai, bi, ci, di)->0;
        assert(m.contains(a) && m.contains(b) && m.contains(c) && m.contains(d)) by {
            assert(m.contains(m[0]) && m.contains(m[1]) && m.contains(m[2]) && m.contains(m[3]));
        }
        lemma_part_reported(g, 4, (AspectPattern::GrandCross, m));
    }
    if rectangle_sides(g, ai, bi, ci, di) || rectangle_sides(g, ai, ci, bi, di) || rectangle_sides(
        g,
        ai,
        di,
        bi,
        ci,
    ) {
        lemma_four_body_reported(g, AspectPattern::MysticRectangle, a, b, c, d);
        let m = four_body_order(g, true, ai, bi, ci, di)->0;
        assert(m.contains(a) && m.contains(b) && m.contains(c) && m.contains(d)) by {
            assert(m.contains(m[0]) && m.contains(m[1]) && m.contains(m[2]) && m.contains(m[3]));
        }
        lemma_part_reported(g, 5, (AspectPattern::MysticRectangle, m));
    }
}

proof fn lemma_four_body_reported(
    g: AspectGrid,
    pattern: AspectPattern,
    a: usize,
    b: usize,
    c: usize,
    d: usize,
)
    requires
        a < b < c < d < g.size(),
        pattern == AspectPattern::GrandCross || pattern == AspectPattern::MysticRectangle,
        four_body_order(
            g,
            pattern == AspectPattern::MysticRectangle,
            a as int,
            b as int,
            c as int,
            d as int,
        ) is Some,
    ensures
        four_body_patterns(g, pattern).contains(
            (
                pattern,
                four_body_order(
                    g,
                    pattern == AspectPattern::MysticRectangle,
                    a as int,
                    b as int,
                    c as int,
                    d as int,
                )->0,
            ),
        ),
{
    let n = g.size();
    let (ai, bi, ci, di) = (a as int, b as int, c as int, d as int);
    let pv = (pattern, four_body_order(g, pattern == AspectPattern::MysticRectangle, ai, bi, ci, di)->0);
    assert(four_body_at(g, pattern, ai, bi, ci, di)[0] == pv);
    lemma_concat_range_contains(ci + 1, n, four_body_at_fn(g, pattern, ai, bi, ci), di, pv);
    assert(four_body_abc_fn(g, pattern, ai, bi)(ci).contains(pv));
    lemma_concat_range_contains(bi + 1, n, four_body_abc_fn(g, pattern, ai, bi), ci, pv);
    assert(four_body_ab_fn(g, pattern, ai)(bi).contains(pv));
    lemma_concat_range_contains(ai + 1, n, four_body_ab_fn(g, pattern, ai), bi, pv);
    assert(four_body_a_fn(g, pattern)(ai).contains(pv));
    lemma_concat_range_contains(0, n, four_body_a_fn(g, pattern), ai, pv);
}


proof fn lemma_cluster_members(g: AspectGrid, i: int, x: int)
    requires
        0 <= i < g.size(),
    ensures
        stellium_cluster(g, i).contains(x as usize) && 0 <= x < g.size() <==> 0 <= x < g.size() && (
        x == i || g.holds(Relation::StelliumArc, i, x)),
{
    let n = g.size();
    assert(n <= usize::MAX);
    let c = stellium_cluster(g, i);
    if 0 <= x < n && (x == i || g.holds(Relation::StelliumArc, i, x)) {
        assert(cluster_member_fn(g, i)(x)[0] == x as usize);
        lemma_concat_range_contains(0, n, cluster_member_fn(g, i), x, x as usize);
    }
    if c.contains(x as usize) && 0 <= x < n {
        let p = |y: usize| y < n && (y == i || g.holds(Relation::StelliumArc, i, y as int));
        assert forall|j: int| 0 <= j < n implies all_satisfy(#[trigger] cluster_member_fn(g, i)(j), p) by {
            lemma_found_all(j == i || g.holds(Relation::StelliumArc, i, j), j as usize, p);
        }
        lemma_concat_range_all(0, n, cluster_member_fn(g, i), p);
        let w = choose|w: int| 0 <= w < c.len() && c[w] == x as usize;
        assert(p(c[w]));
    }
}

/// Every Stellium is found: when body `i` has two other bodies `j1 != j2`
/// within its stellium arc, a Stellium is reported whose members are
/// exactly `i` and the bodies within `i`'s arc.
pub proof fn lemma_stelliums_complete(g: AspectGrid, i: usize, j1: usize, j2: usize)
    requires
        i < g.size(),
        j1 < g.size(),
        j2 < g.size(),
        j1 != i && j2 != i && j1 != j2,
        g.holds(Relation::StelliumArc, i as int, j1 as int),
        g.holds(Relation::StelliumArc, i as int, j2 as int),
    ensures
        exists|m: Seq<usize>|
            detected_patterns(g).contains((AspectPattern::Stellium, m)) && forall|x: usize|
                x < g.size() ==> (#[trigger] m.contains(x) <==> (x == i || g.holds(
                    Relation::StelliumArc,
                    i as int,
                    x as int,
                ))),
{
    let n = g.size();
    let c = stellium_cluster(g, i as int);
    lemma_cluster_members(g, i as int, i as int);
    lemma_cluster_members(g, i as int, j1 as int);
    lemma_cluster_members(g, i as int, j2 as int);
    assert(c.len() >= 3) by {
        let w0 = choose|w: int| 0 <= w < c.len() && c[w] == i;
        let w1 = choose|w: int| 0 <= w < c.len() && c[w] == j1;
        let w2 = choose|w: int| 0 <= w < c.len() && c[w] == j2;
        assert(w0 != w1 && w0 != w2 && w1 != w2);
    }
    assert(stellium_candidate_fn(g)(i as int)[0] == c);
    lemma_concat_range_contains(0, n, stellium_candidate_fn(g), i as int, c);
    lemma_dedup_contains(stellium_candidates(g, n), c);
    let keys = dedup(stellium_candidates(g, n));
    let w = choose|w: int| 0 <= w < keys.len() && keys[w] == c;
    assert(stelliums(g)[w] == (AspectPattern::Stellium, c));
    assert(stelliums(g).contains((AspectPattern::Stellium, c)));
    lemma_part_reported(g, 3, (AspectPattern::Stellium, c));
    assert forall|x: usize| x < g.size() implies (#[trigger] c.contains(x) <==> (x == i || g.holds(
        Relation::StelliumArc,
        i as int,
        x as int,
    ))) by {
        lemma_cluster_members(g, i as int, x as int);
    }
}

} // verus!
