//! Text detection and recognition bookkeeping. Detection groups the pixels
//! of a score map that reach the threshold into regions of 4-connected
//! pixels, each with its bounding box; recognition collapses the best class
//! of each time step into text.
use crate::graph::error::GraphError;
use vstd::prelude::*;

verus! {

/// Pixels `p` and `q` of a row-major map `w` pixels wide touch: they are
/// side by side in one row, or one above the other.
pub open spec fn adjacent(w: int, p: int, q: int) -> bool {
    ||| q == p + 1 && (p + 1) % w != 0
    ||| p == q + 1 && (q + 1) % w != 0
    ||| q == p + w
    ||| p == q + w
}

/// `s` is a walk over lit pixels, each step to a touching pixel.
pub open spec fn lit_walk(lit: Seq<bool>, w: int, s: Seq<int>) -> bool {
    &&& s.len() > 0
    &&& forall|i: int| 0 <= i < s.len() ==> 0 <= #[trigger] s[i] < lit.len() && lit[s[i]]
    &&& forall|i: int| 0 <= i < s.len() - 1 ==> adjacent(w, #[trigger] s[i], s[i + 1])
}

/// A walk over lit pixels leads from `p` to `q`.
pub open spec fn linked(lit: Seq<bool>, w: int, p: int, q: int) -> bool {
    exists|s: Seq<int>| #[trigger] lit_walk(lit, w, s) && s[0] == p && s.last() == q
}

/// `pts` lists the pixel `q`.
pub open spec fn holds(pts: Seq<usize>, q: int) -> bool {
    exists|j: int| 0 <= j < pts.len() && pts[j] as int == q
}

/// `pts` lists each pixel once.
pub open spec fn distinct(pts: Seq<usize>) -> bool {
    forall|i: int, j: int| 0 <= i < j < pts.len() ==> pts[i] != pts[j]
}

/// `pts` lists, once each, exactly the pixels linked to its first pixel,
/// and that first pixel is the smallest of them.
pub open spec fn is_region(lit: Seq<bool>, w: int, pts: Seq<usize>) -> bool {
    &&& pts.len() > 0
    &&& distinct(pts)
    &&& forall|q: int| holds(pts, q) <==> linked(lit, w, pts[0] as int, q)
    &&& forall|q: int| linked(lit, w, pts[0] as int, q) ==> pts[0] <= q
}

/// Some region of `regions` lists `q`.
pub open spec fn covered(regions: Seq<Seq<usize>>, q: int) -> bool {
    exists|i: int| 0 <= i < regions.len() && holds(#[trigger] regions[i], q)
}

/// The regions of a map: each is a region, they come in the order of their
/// first pixels, and together they hold every lit pixel.
pub open spec fn regions_of(lit: Seq<bool>, w: int, regions: Seq<Seq<usize>>) -> bool {
    &&& forall|i: int| 0 <= i < regions.len() ==> is_region(lit, w, #[trigger] regions[i])
    &&& forall|i: int, j: int| 0 <= i < j < regions.len() ==> regions[i][0] < regions[j][0]
    &&& forall|q: int| 0 <= q < lit.len() && lit[q] ==> covered(regions, q)
}

/// A one-pixel walk.
proof fn lemma_linked_self(lit: Seq<bool>, w: int, p: int)
    requires
        0 <= p < lit.len(),
        lit[p],
    ensures
        linked(lit, w, p, p),
{
    let s = seq![p];
    assert(lit_walk(lit, w, s));
}

/// A walk extends by a step to a touching lit pixel.
proof fn lemma_linked_step(lit: Seq<bool>, w: int, p: int, q: int, r: int)
    requires
        linked(lit, w, p, q),
        adjacent(w, q, r),
        0 <= r < lit.len(),
        lit[r],
    ensures
        linked(lit, w, p, r),
{
    let s = choose|s: Seq<int>| #[trigger] lit_walk(lit, w, s) && s[0] == p && s.last() == q;
    let t = s.push(r);
    assert forall|i: int| 0 <= i < t.len() - 1 implies adjacent(w, #[trigger] t[i], t[i + 1]) by {
        if i < s.len() - 1 {
            assert(adjacent(w, s[i], s[i + 1]));
        }
    }
    assert(lit_walk(lit, w, t));
}

/// A walk can be taken backwards.
proof fn lemma_linked_back(lit: Seq<bool>, w: int, p: int, q: int)
    requires
        linked(lit, w, p, q),
    ensures
        linked(lit, w, q, p),
{
    let s = choose|s: Seq<int>| #[trigger] lit_walk(lit, w, s) && s[0] == p && s.last() == q;
    let t = s.reverse();
    assert forall|i: int| 0 <= i < t.len() implies 0 <= #[trigger] t[i] < lit.len() && lit[t[i]] by {
        assert(t[i] == s[s.len() - 1 - i]);
    }
    assert forall|i: int| 0 <= i < t.len() - 1 implies adjacent(w, #[trigger] t[i], t[i + 1]) by {
        let k = s.len() - 2 - i;
        assert(t[i] == s[k + 1]);
        assert(t[i + 1] == s[k]);
        assert(adjacent(w, s[k], s[k + 1]));
    }
    assert(lit_walk(lit, w, t));
    assert(t[0] == q);
    assert(t.last() == p);
}

/// Two walks join end to start.
proof fn lemma_linked_join(lit: Seq<bool>, w: int, p: int, q: int, r: int)
    requires
        linked(lit, w, p, q),
        linked(lit, w, q, r),
    ensures
        linked(lit, w, p, r),
{
    let s = choose|s: Seq<int>| #[trigger] lit_walk(lit, w, s) && s[0] == p && s.last() == q;
    let u = choose|u: Seq<int>| #[trigger] lit_walk(lit, w, u) && u[0] == q && u.last() == r;
    let t = s + u.skip(1);
    assert forall|i: int| 0 <= i < t.len() implies 0 <= #[trigger] t[i] < lit.len() && lit[t[i]] by {
        if i >= s.len() {
            assert(t[i] == u[i - s.len() + 1]);
        }
    }
    assert forall|i: int| 0 <= i < t.len() - 1 implies adjacent(w, #[trigger] t[i], t[i + 1]) by {
        if i < s.len() - 1 {
            assert(adjacent(w, s[i], s[i + 1]));
        } else if i == s.len() - 1 {
            assert(t[i] == u[0]);
            assert(t[i + 1] == u[1]);
            assert(adjacent(w, u[0], u[1]));
        } else {
            let k = i - s.len() + 1;
            assert(t[i] == u[k]);
            assert(t[i + 1] == u[k + 1]);
            assert(adjacent(w, u[k], u[k + 1]));
        }
    }
    assert(lit_walk(lit, w, t));
    if u.len() == 1 {
        assert(t =~= s);
    } else {
        assert(t.last() == u.last());
    }
}

/// Every lit pixel that touches a pixel of `pts` is in `pts` or in one of
/// the regions `other`.
pub open spec fn closed(lit: Seq<bool>, w: int, pts: Seq<usize>, other: Seq<Seq<usize>>) -> bool {
    forall|j: int, r: int|
        0 <= j < pts.len() && #[trigger] adjacent(w, pts[j] as int, r) && 0 <= r < lit.len() && lit[r] ==> holds(
            pts,
            r,
        ) || covered(other, r)
}

/// Along a walk from `s`, every pixel is held by a set that holds `s` and
/// is closed under lit touching pixels, as far as they are not in `other`,
/// when no pixel of `other` is linked to `s`.
proof fn lemma_walk_held(
    lit: Seq<bool>,
    w: int,
    pts: Seq<usize>,
    other: Seq<Seq<usize>>,
    s: int,
    walk: Seq<int>,
    i: int,
)
    requires
        holds(pts, s),
        closed(lit, w, pts, other),
        forall|r: int| #[trigger] covered(other, r) ==> !linked(lit, w, s, r),
        lit_walk(lit, w, walk),
        walk[0] == s,
        0 <= i < walk.len(),
    ensures
        holds(pts, walk[i]),
        linked(lit, w, s, walk[i]),
    decreases i,
{
    if i == 0 {
        lemma_linked_self(lit, w, s);
    } else {
        lemma_walk_held(lit, w, pts, other, s, walk, i - 1);
        let j = choose|j: int| 0 <= j < pts.len() && pts[j] as int == walk[i - 1];
        assert(adjacent(w, walk[i - 1], walk[i]));
        assert(adjacent(w, pts[j] as int, walk[i]));
        assert(0 <= walk[i] < lit.len() && lit[walk[i]]);
        lemma_linked_step(lit, w, s, walk[i - 1], walk[i]);
        assert(holds(pts, walk[i]) || covered(other, walk[i]));
    }
}

/// A set of pixels that holds `s` and is closed under lit touching pixels,
/// as far as they are not in `other`, holds every pixel linked to `s` when
/// no pixel of `other` is linked to `s`.
proof fn lemma_closed_holds_linked(
    lit: Seq<bool>,
    w: int,
    pts: Seq<usize>,
    other: Seq<Seq<usize>>,
    s: int,
    q: int,
)
    requires
        holds(pts, s),
        closed(lit, w, pts, other),
        forall|r: int| #[trigger] covered(other, r) ==> !linked(lit, w, s, r),
        linked(lit, w, s, q),
    ensures
        holds(pts, q),
{
    let walk = choose|t: Seq<int>| #[trigger] lit_walk(lit, w, t) && t[0] == s && t.last() == q;
    lemma_walk_held(lit, w, pts, other, s, walk, walk.len() - 1);
}

/// While a region grows: the visited pixels are those of the earlier
/// regions and those listed so far, each listed once, lit and linked to
/// the start.
pub open spec fn growing(
    lit: Seq<bool>,
    w: int,
    comps: Seq<Seq<usize>>,
    start: int,
    visited: Seq<bool>,
    pts: Seq<usize>,
) -> bool {
    &&& visited.len() == lit.len()
    &&& pts.len() > 0
    &&& pts[0] == start
    &&& forall|j: int|
        0 <= j < pts.len() ==> (#[trigger] pts[j]) < lit.len() && lit[pts[j] as int] && linked(
            lit,
            w,
            start,
            pts[j] as int,
        )
    &&& distinct(pts)
    &&& forall|q: int| 0 <= q < lit.len() ==> (#[trigger] visited[q] <==> covered(comps, q) || holds(pts, q))
}

/// Visits the touching pixel `c` of `from`: an unvisited lit pixel is
/// marked and listed.
fn visit(
    lit: &Vec<bool>,
    visited: &mut Vec<bool>,
    pts: &mut Vec<usize>,
    c: usize,
    Ghost(w): Ghost<int>,
    Ghost(comps): Ghost<Seq<Seq<usize>>>,
    Ghost(start): Ghost<int>,
    Ghost(from): Ghost<int>,
)
    requires
        growing(lit@, w, comps, start, old(visited)@, old(pts)@),
        c < lit@.len(),
        linked(lit@, w, start, from),
        adjacent(w, from, c as int),
    ensures
        growing(lit@, w, comps, start, final(visited)@, final(pts)@),
        final(visited)@[c as int] || !lit@[c as int],
        forall|q: int| 0 <= q < lit@.len() && old(visited)@[q] ==> final(visited)@[q],
        final(pts)@.len() >= old(pts)@.len(),
        forall|j: int| 0 <= j < old(pts)@.len() ==> final(pts)@[j] == old(pts)@[j],
{
    if !visited[c] && lit[c] {
        proof {
            lemma_linked_step(lit@, w, start, from, c as int);
            assert(!holds(pts@, c as int));
        }
        let ghost before = pts@;
        visited.set(c, true);
        pts.push(c);
        proof {
            assert(holds(pts@, c as int)) by {
                assert(pts@[before.len() as int] == c);
            }
            assert forall|q: int| holds(before, q) implies holds(pts@, q) by {
                let j = choose|j: int| 0 <= j < before.len() && before[j] as int == q;
                assert(pts@[j] == before[j]);
            }
            assert forall|q: int| holds(pts@, q) implies holds(before, q) || q == c by {
                let j = choose|j: int| 0 <= j < pts@.len() && pts@[j] as int == q;
                if j < before.len() {
                    assert(pts@[j] == before[j]);
                }
            }
            assert forall|i: int, j: int| 0 <= i < j < pts@.len() implies pts@[i] != pts@[j] by {
                if j == before.len() {
                    assert(holds(before, pts@[i] as int));
                }
            }
        }
    }
}

/// Grows the region of the unvisited lit pixel `start`, breadth first:
/// gives its pixels in the order they were reached and marks them visited.
fn explore(
    lit: &Vec<bool>,
    width: usize,
    Ghost(height): Ghost<int>,
    visited: &mut Vec<bool>,
    start: usize,
    Ghost(comps): Ghost<Seq<Seq<usize>>>,
) -> (pts: Vec<usize>)
    requires
        width > 0,
        lit@.len() == height * width,
        old(visited)@.len() == lit@.len(),
        start < lit@.len(),
        lit@[start as int],
        !old(visited)@[start as int],
        forall|q: int| 0 <= q < lit@.len() ==> (#[trigger] old(visited)@[q] <==> covered(comps, q)),
        forall|i: int| 0 <= i < comps.len() ==> is_region(lit@, width as int, #[trigger] comps[i]),
    ensures
        growing(lit@, width as int, comps, start as int, final(visited)@, pts@),
        forall|q: int| holds(pts@, q) <==> linked(lit@, width as int, start as int, q),
{
    let ghost w = width as int;
    let n = lit.len();
    let mut pts: Vec<usize> = Vec::new();
    visited.set(start, true);
    pts.push(start);
    proof {
        lemma_linked_self(lit@, w, start as int);
        assert(holds(pts@, start as int)) by {
            assert(pts@[0] == start);
        }
        assert forall|q: int| holds(pts@, q) implies q == start by {
            let j = choose|j: int| 0 <= j < pts@.len() && pts@[j] as int == q;
        }
        assert(!covered(comps, start as int));
    }
    let mut k: usize = 0;
    while k < pts.len()
        invariant
            width > 0,
            w == width as int,
            n == lit@.len(),
            n == height * w,
            growing(lit@, w, comps, start as int, visited@, pts@),
            !covered(comps, start as int),
            forall|i: int| 0 <= i < comps.len() ==> is_region(lit@, w, #[trigger] comps[i]),
            k <= pts@.len(),
            forall|j: int, r: int|
                0 <= j < k && #[trigger] adjacent(w, pts@[j] as int, r) && 0 <= r < n && lit@[r] ==> visited@[r],
        decreases lit@.len() - k,
    {
        proof {
            lemma_listed_bound(lit@, w, comps, start as int, visited@, pts@);
        }
        let idx = pts[k];
        let x = idx % width;
        let ghost before_pts = pts@;
        let ghost before_visited = visited@;
        proof {
            assert(linked(lit@, w, start as int, idx as int));
        }
        if x > 0 {
            proof {
                lemma_left(w, idx as int);
            }
            visit(lit, visited, &mut pts, idx - 1, Ghost(w), Ghost(comps), Ghost(start as int), Ghost(idx as int));
        }
        if x + 1 < width {
            proof {
                lemma_right(w, height, idx as int);
            }
            visit(lit, visited, &mut pts, idx + 1, Ghost(w), Ghost(comps), Ghost(start as int), Ghost(idx as int));
        }
        if idx >= width {
            visit(lit, visited, &mut pts, idx - width, Ghost(w), Ghost(comps), Ghost(start as int), Ghost(idx as int));
        }
        if width <= n && idx < n - width {
            visit(lit, visited, &mut pts, idx + width, Ghost(w), Ghost(comps), Ghost(start as int), Ghost(idx as int));
        }
        proof {
            assert(pts@[k as int] == idx);
            assert forall|r: int| #[trigger] adjacent(w, idx as int, r) && 0 <= r < n && lit@[r] implies visited@[r] by {
                lemma_touching(w, idx as int, r, n as int);
            }
            assert forall|j: int, r: int|
                0 <= j < k + 1 && #[trigger] adjacent(w, pts@[j] as int, r) && 0 <= r < n && lit@[r] implies visited@[r] by {
                if j < k {
                    assert(pts@[j] == before_pts[j]);
                    assert(adjacent(w, before_pts[j] as int, r));
                    assert(before_visited[r]);
                } else {
                    assert(pts@[j] == idx);
                }
            }
        }
        k += 1;
    }
    proof {
        assert(closed(lit@, w, pts@, comps)) by {
            assert forall|j: int, r: int|
                0 <= j < pts@.len() && #[trigger] adjacent(w, pts@[j] as int, r) && 0 <= r < lit@.len()
                    && lit@[r] implies holds(pts@, r) || covered(comps, r) by {
                assert(visited@[r]);
            }
        }
        assert forall|r: int| #[trigger] covered(comps, r) implies !linked(lit@, w, start as int, r) by {
            if linked(lit@, w, start as int, r) {
                let i = choose|i: int| 0 <= i < comps.len() && holds(#[trigger] comps[i], r);
                assert(is_region(lit@, w, comps[i]));
                let f = comps[i][0] as int;
                assert(linked(lit@, w, f, r));
                lemma_linked_back(lit@, w, start as int, r);
                lemma_linked_join(lit@, w, f, r, start as int);
                assert(holds(comps[i], start as int));
                assert(covered(comps, start as int));
            }
        }
        assert forall|q: int| holds(pts@, q) <==> linked(lit@, w, start as int, q) by {
            if linked(lit@, w, start as int, q) {
                lemma_closed_holds_linked(lit@, w, pts@, comps, start as int, q);
            }
            if holds(pts@, q) {
                let j = choose|j: int| 0 <= j < pts@.len() && pts@[j] as int == q;
            }
        }
    }
    pts
}

/// A region never lists more pixels than the map has.
proof fn lemma_listed_bound(
    lit: Seq<bool>,
    w: int,
    comps: Seq<Seq<usize>>,
    start: int,
    visited: Seq<bool>,
    pts: Seq<usize>,
)
    requires
        growing(lit, w, comps, start, visited, pts),
    ensures
        pts.len() <= lit.len(),
{
    let m = pts.map_values(|p: usize| p as int);
    let s = m.to_set();
    let all = Set::new(|q: int| 0 <= q < lit.len());
    assert(all =~= vstd::set_lib::set_int_range(0, lit.len() as int));
    vstd::set_lib::lemma_int_range(0, lit.len() as int);
    assert(s.subset_of(all)) by {
        assert forall|q: int| s.contains(q) implies all.contains(q) by {
            assert(m.contains(q));
            let j = choose|j: int| 0 <= j < m.len() && #[trigger] m[j] == q;
            assert(pts[j] < lit.len());
        }
    }
    vstd::set_lib::lemma_len_subset(s, all);
    assert(m.no_duplicates()) by {
        assert forall|i: int, j: int| 0 <= i < m.len() && 0 <= j < m.len() && i != j implies m[i] != m[j] by {
            if i < j {
                assert(pts[i] != pts[j]);
            } else {
                assert(pts[j] != pts[i]);
            }
        }
    }
    m.unique_seq_to_set();
}

/// The pixel left of a pixel that is not first in its row touches it.
proof fn lemma_left(w: int, p: int)
    requires
        w > 0,
        p >= 0,
        p % w > 0,
    ensures
        p >= 1,
        adjacent(w, p, p - 1),
{
    if p == 0 {
        vstd::arithmetic::div_mod::lemma_fundamental_div_mod_converse(0, w, 0, 0);
    }
    assert((p - 1 + 1) % w != 0);
}

/// The pixel right of a pixel that is not last in its row touches it, and
/// lies in the map.
proof fn lemma_right(w: int, h: int, p: int)
    requires
        w > 0,
        0 <= p < h * w,
        p % w + 1 < w,
    ensures
        p + 1 < h * w,
        adjacent(w, p, p + 1),
{
    vstd::arithmetic::div_mod::lemma_fundamental_div_mod(p, w);
    vstd::arithmetic::div_mod::lemma_mod_bound(p, w);
    let q = p / w;
    let x = p % w;
    vstd::arithmetic::mul::lemma_mul_is_commutative(q, w);
    vstd::arithmetic::div_mod::lemma_fundamental_div_mod_converse(p + 1, w, q, x + 1);
    assert(p + 1 < h * w) by (nonlinear_arith)
        requires
            p == w * q + x,
            0 <= x,
            x + 1 < w,
            p < h * w,
            w > 0,
    ;
}

/// Every pixel that touches `p` is its left neighbour (when `p` is not
/// first in its row), its right neighbour (when `p` is not last in its
/// row), the pixel above, or the pixel below.
proof fn lemma_touching(w: int, p: int, r: int, n: int)
    requires
        w > 0,
        0 <= p < n,
        0 <= r < n,
        adjacent(w, p, r),
    ensures
        (r == p - 1 && p % w > 0) || (r == p + 1 && p % w + 1 < w) || (r == p - w && p >= w) || (r == p + w && w
            <= n && p < n - w),
{
    vstd::arithmetic::div_mod::lemma_fundamental_div_mod(p, w);
    vstd::arithmetic::div_mod::lemma_mod_bound(p, w);
    vstd::arithmetic::mul::lemma_mul_is_commutative(p / w, w);
    if r == p + 1 && (p + 1) % w != 0 && p % w + 1 >= w {
        let q = p / w;
        assert(p + 1 == (q + 1) * w) by (nonlinear_arith)
            requires
                p == w * q + (w - 1),
        ;
        vstd::arithmetic::div_mod::lemma_fundamental_div_mod_converse(p + 1, w, q + 1, 0);
        assert(false);
    }
}

/// A walk ends on a lit pixel of the map.
proof fn lemma_linked_lit(lit: Seq<bool>, w: int, p: int, q: int)
    requires
        linked(lit, w, p, q),
    ensures
        0 <= q < lit.len(),
        lit[q],
{
    let s = choose|s: Seq<int>| #[trigger] lit_walk(lit, w, s) && s[0] == p && s.last() == q;
    assert(0 <= s[s.len() - 1] < lit.len());
}

/// A pixel is covered by regions with one more region exactly when the
/// earlier regions or the new one hold it.
proof fn lemma_covered_push(comps: Seq<Seq<usize>>, pts: Seq<usize>, q: int)
    ensures
        covered(comps.push(pts), q) <==> covered(comps, q) || holds(pts, q),
{
    let c = comps.push(pts);
    if covered(c, q) {
        let i = choose|i: int| 0 <= i < c.len() && holds(#[trigger] c[i], q);
        if i < comps.len() {
            assert(c[i] == comps[i]);
        }
    }
    if covered(comps, q) {
        let i = choose|i: int| 0 <= i < comps.len() && holds(#[trigger] comps[i], q);
        assert(c[i] == comps[i]);
    }
    if holds(pts, q) {
        assert(c[comps.len() as int] == pts);
    }
}

/// A group of touching lit pixels with its bounding box, in pixel columns
/// and rows (inclusive).
pub struct TextRegion {
    pub points: Vec<usize>,
    pub min_x: usize,
    pub max_x: usize,
    pub min_y: usize,
    pub max_y: usize,
}

/// The pixels of each region.
pub open spec fn points_of(rs: Seq<TextRegion>) -> Seq<Seq<usize>> {
    rs.map_values(|r: TextRegion| r.points@)
}

/// The column of pixel `p` in a map `w` pixels wide.
pub open spec fn col(p: usize, w: int) -> int {
    (p as int) % w
}

/// The row of pixel `p` in a map `w` pixels wide.
pub open spec fn row(p: usize, w: int) -> int {
    (p as int) / w
}

/// The box of `r` is the smallest that holds its pixels of a map `w`
/// pixels wide.
pub open spec fn boxed(r: TextRegion, w: int) -> bool {
    let pts = r.points@;
    &&& forall|j: int|
        0 <= j < pts.len() ==> r.min_x <= col(#[trigger] pts[j], w) <= r.max_x && r.min_y <= row(pts[j], w)
            <= r.max_y
    &&& exists|j: int| 0 <= j < pts.len() && col(#[trigger] pts[j], w) == r.min_x
    &&& exists|j: int| 0 <= j < pts.len() && col(#[trigger] pts[j], w) == r.max_x
    &&& exists|j: int| 0 <= j < pts.len() && row(#[trigger] pts[j], w) == r.min_y
    &&& exists|j: int| 0 <= j < pts.len() && row(#[trigger] pts[j], w) == r.max_y
}

/// The bounding box of a non-empty list of pixels.
fn bounding_box(pts: Vec<usize>, width: usize) -> (r: TextRegion)
    requires
        pts@.len() > 0,
        width > 0,
    ensures
        r.points@ == pts@,
        boxed(r, width as int),
{
    let first = pts[0];
    assert(pts@[0] == first);
    let mut min_x = first % width;
    let mut max_x = min_x;
    let mut min_y = first / width;
    let mut max_y = min_y;
    let mut i: usize = 1;
    while i < pts.len()
        invariant
            width > 0,
            1 <= i <= pts@.len(),
            forall|j: int|
                0 <= j < i ==> min_x <= col(#[trigger] pts@[j], width as int) <= max_x && min_y <= row(
                    pts@[j],
                    width as int,
                ) <= max_y,
            exists|j: int| 0 <= j < i && col(#[trigger] pts@[j], width as int) == min_x,
            exists|j: int| 0 <= j < i && col(#[trigger] pts@[j], width as int) == max_x,
            exists|j: int| 0 <= j < i && row(#[trigger] pts@[j], width as int) == min_y,
            exists|j: int| 0 <= j < i && row(#[trigger] pts@[j], width as int) == max_y,
        decreases pts@.len() - i,
    {
        let p = pts[i];
        let x = p % width;
        let y = p / width;
        if x < min_x {
            min_x = x;
        }
        if x > max_x {
            max_x = x;
        }
        if y < min_y {
            min_y = y;
        }
        if y > max_y {
            max_y = y;
        }
        assert(pts@[i as int] == p);
        i += 1;
    }
    TextRegion { points: pts, min_x, max_x, min_y, max_y }
}

/// The height and width of a score map shaped `[1, 1, H, W]` or `[1, H, W]`.
pub fn score_map_size(dims: &Vec<usize>) -> (r: Result<(usize, usize), GraphError>)
    ensures
        dims@.len() == 4 && dims@[0] == 1 && dims@[1] == 1 ==> r == Ok::<(usize, usize), GraphError>(
            (dims@[2], dims@[3]),
        ),
        dims@.len() == 3 && dims@[0] == 1 ==> r == Ok::<(usize, usize), GraphError>((dims@[1], dims@[2])),
        !(dims@.len() == 4 && dims@[0] == 1 && dims@[1] == 1) && !(dims@.len() == 3 && dims@[0] == 1) ==> (r matches Err(
            GraphError::Config(m),
        ) && m@ == "ppocr det expects [1,1,H,W] or [1,H,W]"@),
{
    if dims.len() == 4 && dims[0] == 1 && dims[1] == 1 {
        Ok((dims[2], dims[3]))
    } else if dims.len() == 3 && dims[0] == 1 {
        Ok((dims[1], dims[2]))
    } else {
        Err(GraphError::Config("ppocr det expects [1,1,H,W] or [1,H,W]".to_string()))
    }
}

/// The text regions of a `height` by `width` map whose lit pixels are those
/// that reach the detection threshold: every group of 4-connected lit
/// pixels, in the order of the first pixel of each (row-major), with its
/// pixels in breadth-first order from that first pixel, and its bounding
/// box.
pub fn text_regions(lit: &Vec<bool>, width: usize, height: usize) -> (r: Result<Vec<TextRegion>, GraphError>)
    ensures
        height * width > usize::MAX ==> (r matches Err(GraphError::Runtime(m)) && m@
            == "ocr map dimensions overflow"@),
        height * width <= usize::MAX && lit@.len() != height * width ==> (r matches Err(GraphError::Runtime(m))
            && m@ == "ocr map size mismatch"@),
        height * width <= usize::MAX && lit@.len() == height * width ==> (r matches Ok(rs) && regions_of(
            lit@,
            width as int,
            points_of(rs@),
        ) && forall|i: int| 0 <= i < rs@.len() ==> boxed(#[trigger] rs@[i], width as int)),
{
    let n = match height.checked_mul(width) {
        Some(n) => n,
        None => {
            return Err(GraphError::Runtime("ocr map dimensions overflow".to_string()));
        },
    };
    if lit.len() != n {
        return Err(GraphError::Runtime("ocr map size mismatch".to_string()));
    }
    let ghost w = width as int;
    let mut visited: Vec<bool> = Vec::new();
    while visited.len() < n
        invariant
            visited@.len() <= n,
            forall|q: int| 0 <= q < visited@.len() ==> !(#[trigger] visited@[q]),
        decreases n - visited@.len(),
    {
        visited.push(false);
    }
    let mut out: Vec<TextRegion> = Vec::new();
    let ghost mut comps: Seq<Seq<usize>> = Seq::empty();
    let mut start: usize = 0;
    while start < n
        invariant
            n == lit@.len(),
            n == height * width,
            w == width as int,
            visited@.len() == n,
            comps == points_of(out@),
            forall|i: int| 0 <= i < out@.len() ==> boxed(#[trigger] out@[i], w),
            forall|i: int| 0 <= i < comps.len() ==> is_region(lit@, w, #[trigger] comps[i]),
            forall|i: int, j: int| 0 <= i < j < comps.len() ==> comps[i][0] < comps[j][0],
            forall|i: int| 0 <= i < comps.len() ==> (#[trigger] comps[i])[0] < start,
            forall|q: int| 0 <= q < n ==> (#[trigger] visited@[q] <==> covered(comps, q)),
            forall|q: int| 0 <= q < start && lit@[q] ==> #[trigger] visited@[q],
            start <= n,
        decreases n - start,
    {
        if !visited[start] && lit[start] {
            proof {
                assert(width > 0) by {
                    if width == 0 {
                        assert(n == 0);
                    }
                }
            }
            let ghost old_visited = visited@;
            let pts = explore(lit, width, Ghost(height as int), &mut visited, start, Ghost(comps));
            proof {
                assert forall|q: int| linked(lit@, w, start as int, q) implies start <= q by {
                    lemma_linked_lit(lit@, w, start as int, q);
                    if q < start {
                        assert(old_visited[q]);
                        let i = choose|i: int| 0 <= i < comps.len() && holds(#[trigger] comps[i], q);
                        assert(is_region(lit@, w, comps[i]));
                        let f = comps[i][0] as int;
                        lemma_linked_back(lit@, w, start as int, q);
                        lemma_linked_join(lit@, w, f, q, start as int);
                        assert(holds(comps[i], start as int));
                        assert(covered(comps, start as int));
                    }
                }
                assert(is_region(lit@, w, pts@));
            }
            let region = bounding_box(pts, width);
            let ghost before = comps;
            let ghost old_out = out@;
            out.push(region);
            proof {
                comps = comps.push(region.points@);
                assert(comps =~= points_of(out@));
                assert forall|q: int| 0 <= q < n implies (#[trigger] visited@[q] <==> covered(comps, q)) by {
                    lemma_covered_push(before, region.points@, q);
                }
                assert forall|i: int| 0 <= i < out@.len() implies boxed(#[trigger] out@[i], w) by {
                    if i < out@.len() - 1 {
                        assert(out@[i] == old_out[i]);
                    }
                }
                assert forall|q: int| 0 <= q < start + 1 && lit@[q] implies #[trigger] visited@[q] by {
                    if q < start {
                        assert(old_visited[q]);
                        lemma_covered_push(before, region.points@, q);
                    } else {
                        assert(region.points@[0] == start);
                    }
                }
            }
        }
        start += 1;
    }
    proof {
        assert forall|q: int| 0 <= q < lit@.len() && lit@[q] implies covered(points_of(out@), q) by {
            assert(visited@[q]);
        }
    }
    Ok(out)
}

/// No pixel belongs to two regions of a map.
pub proof fn lemma_regions_disjoint(lit: Seq<bool>, w: int, regions: Seq<Seq<usize>>, i: int, j: int, q: int)
    requires
        regions_of(lit, w, regions),
        0 <= i < j < regions.len(),
    ensures
        !(holds(regions[i], q) && holds(regions[j], q)),
{
    if holds(regions[i], q) && holds(regions[j], q) {
        assert(is_region(lit, w, regions[i]));
        assert(is_region(lit, w, regions[j]));
        let fi = regions[i][0] as int;
        let fj = regions[j][0] as int;
        lemma_linked_back(lit, w, fi, q);
        lemma_linked_join(lit, w, fj, q, fi);
        assert(fj <= fi);
    }
}

/// The number of classes of a recognizer over `alphabet_len` characters
/// (one more: the blank), when `logits_len` scores split into whole time
/// steps of that many classes.
pub fn ctc_class_count(logits_len: usize, alphabet_len: usize) -> (r: Result<usize, GraphError>)
    ensures
        alphabet_len == usize::MAX ==> (r matches Err(GraphError::Runtime(m)) && m@ == "ocr alphabet size overflow"@),
        alphabet_len < usize::MAX && (logits_len as int) % (alphabet_len as int + 1) != 0 ==> (r matches Err(GraphError::Runtime(m))
            && m@ == "ocr logits do not match alphabet size"@),
        alphabet_len < usize::MAX && (logits_len as int) % (alphabet_len as int + 1) == 0 ==> r == Ok::<usize, GraphError>(
            (alphabet_len + 1) as usize,
        ),
{
    let classes = match alphabet_len.checked_add(1) {
        Some(c) => c,
        None => {
            return Err(GraphError::Runtime("ocr alphabet size overflow".to_string()));
        },
    };
    if logits_len % classes != 0 {
        return Err(GraphError::Runtime("ocr logits do not match alphabet size".to_string()));
    }
    Ok(classes)
}

/// Greedy CTC decoding of the best class of each time step (`None` for a
/// step without scores): a class is written when it is not the blank and
/// differs from the class of the step before; the text so far and the last
/// class, or the error that stops decoding.
pub open spec fn ctc_decoded(best: Seq<Option<usize>>, alphabet: Seq<char>, blank: usize) -> Result<
    (Seq<char>, Option<usize>),
    Seq<char>,
>
    decreases best.len(),
{
    if best.len() == 0 {
        Ok((Seq::empty(), None))
    } else {
        match ctc_decoded(best.drop_last(), alphabet, blank) {
            Err(e) => Err(e),
            Ok((text, previous)) => match best.last() {
                None => Err("empty CTC row"@),
                Some(i) => if i != blank && Some(i) != previous {
                    if i < alphabet.len() {
                        Ok((text.push(alphabet[i as int]), Some(i)))
                    } else {
                        Err("CTC class exceeds alphabet"@)
                    }
                } else {
                    Ok((text, Some(i)))
                },
            },
        }
    }
}

/// Decodes the best class of each time step into text.
pub fn ctc_collapse(best: &Vec<Option<usize>>, alphabet: &Vec<char>, blank: usize) -> (r: Result<Vec<char>, GraphError>)
    ensures
        match ctc_decoded(best@, alphabet@, blank) {
            Ok((text, _)) => r matches Ok(v) && v@ == text,
            Err(m) => r matches Err(GraphError::Runtime(e)) && e@ == m,
        },
{
    let mut text: Vec<char> = Vec::new();
    let mut previous: Option<usize> = None;
    let mut k: usize = 0;
    while k < best.len()
        invariant
            k <= best@.len(),
            ctc_decoded(best@.take(k as int), alphabet@, blank) == Ok::<(Seq<char>, Option<usize>), Seq<char>>(
                (text@, previous),
            ),
        decreases best@.len() - k,
    {
        proof {
            assert(best@.take(k + 1).drop_last() =~= best@.take(k as int));
            assert(best@.take(k + 1).last() == best@[k as int]);
        }
        match best[k] {
            None => {
                proof {
                    lemma_ctc_error_stays(best@, alphabet@, blank, k + 1);
                }
                return Err(GraphError::Runtime("empty CTC row".to_string()));
            },
            Some(i) => {
                if i != blank && previous != Some(i) {
                    if i >= alphabet.len() {
                        proof {
                            lemma_ctc_error_stays(best@, alphabet@, blank, k + 1);
                        }
                        return Err(GraphError::Runtime("CTC class exceeds alphabet".to_string()));
                    }
                    text.push(alphabet[i]);
                }
                previous = Some(i);
            },
        }
        k += 1;
    }
    assert(best@.take(best@.len() as int) =~= best@);
    Ok(text)
}

/// Once decoding stops with an error, the later steps do not change it.
proof fn lemma_ctc_error_stays(best: Seq<Option<usize>>, alphabet: Seq<char>, blank: usize, k: int)
    requires
        0 <= k <= best.len(),
        ctc_decoded(best.take(k), alphabet, blank) is Err,
    ensures
        ctc_decoded(best, alphabet, blank) == ctc_decoded(best.take(k), alphabet, blank),
    decreases best.len() - k,
{
    if k < best.len() {
        assert(best.take(k + 1).drop_last() =~= best.take(k));
        lemma_ctc_error_stays(best, alphabet, blank, k + 1);
    } else {
        assert(best.take(k) =~= best);
    }
}

} // verus!
