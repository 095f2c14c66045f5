//! Wall-segment stitching: turning a sector's unordered directed wall
//! list into closed polygon contours, and fan-triangulating the result.

use vstd::prelude::*;

verus! {

/// Inserting a vertex into the seen-set, which keeps one copy of each.
pub open spec fn seen_insert(seen: Seq<int>, v: int) -> Seq<int> {
    if seen.contains(v) {
        seen
    } else {
        seen.push(v)
    }
}

/// What attaching one wall to one open contour can do.
pub ghost enum ContourAdd {
    /// The wall touches neither end.
    Unmatched,
    /// The wall extends one end; the new contour.
    Extended(Seq<int>),
    /// The wall joins the two ends: the contour closes.
    Closed,
}

/// Attaching the directed wall `(left, right)` to an open contour: a wall
/// whose left vertex is the contour's right end extends it rightward, one
/// whose right vertex is the contour's left end extends it leftward, and
/// a wall bridging the two ends closes it. A duplicate wall (both
/// vertices already seen) may still close a contour, but never extends
/// one.
pub open spec fn contour_add(c: Seq<int>, left: int, right: int, dup: bool) -> ContourAdd {
    if left == c.last() {
        if right == c.first() {
            ContourAdd::Closed
        } else if !dup {
            ContourAdd::Extended(c.push(right))
        } else {
            ContourAdd::Unmatched
        }
    } else if right == c.first() {
        if !dup {
            ContourAdd::Extended(seq![left] + c)
        } else {
            ContourAdd::Unmatched
        }
    } else {
        ContourAdd::Unmatched
    }
}

/// What scanning the open contours for a wall finds.
pub ghost enum ScanOutcome {
    /// No contour matched.
    NotFound,
    /// Contour `i` was extended to the given sequence.
    Extended(int, Seq<int>),
    /// Contour `i` was closed.
    Closed(int),
}

/// The first contour, from index `j` on, that the wall extends or closes.
pub open spec fn scan_contours(
    contours: Seq<Seq<int>>,
    j: int,
    left: int,
    right: int,
    dup: bool,
) -> ScanOutcome
    decreases contours.len() - j,
{
    if j < 0 || j >= contours.len() {
        ScanOutcome::NotFound
    } else {
        match contour_add(contours[j], left, right, dup) {
            ContourAdd::Unmatched => scan_contours(contours, j + 1, left, right, dup),
            ContourAdd::Extended(c) => ScanOutcome::Extended(j, c),
            ContourAdd::Closed => ScanOutcome::Closed(j),
        }
    }
}

/// The index of the minimum of `s[i..]`, taking the last one on ties.
pub open spec fn min_index_from(s: Seq<int>, i: int) -> int
    decreases s.len() - i,
{
    if i >= s.len() - 1 {
        s.len() - 1
    } else {
        let r = min_index_from(s, i + 1);
        if s[i] < s[r] {
            i
        } else {
            r
        }
    }
}

/// A closed polygon in canonical form: rotated so its minimum vertex
/// index comes first.
pub open spec fn canonical_polygon(s: Seq<int>) -> Seq<int> {
    let k = min_index_from(s, 0);
    s.skip(k) + s.take(k)
}

proof fn lemma_min_index_from(s: Seq<int>, i: int)
    requires
        0 <= i < s.len(),
    ensures
        i <= min_index_from(s, i) < s.len(),
        forall|j: int| i <= j < s.len() ==> s[min_index_from(s, i)] <= #[trigger] s[j],
    decreases s.len() - i,
{
    if i < s.len() - 1 {
        lemma_min_index_from(s, i + 1);
    }
}

/// The canonical form keeps the polygon's vertices, only rotated: its
/// first vertex is a minimal one, and every vertex reappears exactly
/// once, `len - k` places to the left for the rotation amount `k`.
pub proof fn lemma_canonical_polygon_min_first(s: Seq<int>)
    requires
        s.len() > 0,
    ensures
        canonical_polygon(s).len() == s.len(),
        forall|j: int| 0 <= j < s.len() ==> canonical_polygon(s)[0] <= #[trigger] s[j],
        forall|j: int|
            0 <= j < s.len() ==> canonical_polygon(s)[j] == s[(j + min_index_from(s, 0)) % (
            s.len() as int)],
{
    lemma_min_index_from(s, 0);
    let k = min_index_from(s, 0);
    let c = canonical_polygon(s);
    assert(c[0] == s[k]);
    assert forall|j: int| 0 <= j < s.len() implies c[j] == s[(j + k) % (s.len() as int)] by {
        if j + k < s.len() {
            assert(c[j] == s[j + k]);
            vstd::arithmetic::div_mod::lemma_small_mod((j + k) as nat, s.len() as nat);
        } else {
            assert(c[j] == s[j + k - s.len()]);
            vstd::arithmetic::div_mod::lemma_mod_sub_multiples_vanish(j + k, s.len() as int);
            vstd::arithmetic::div_mod::lemma_small_mod((j + k - s.len()) as nat, s.len() as nat);
        }
    }
}

/// The stitcher's state: open contours, finished polygons, and the
/// vertices seen so far.
pub ghost struct StitchState {
    pub contours: Seq<Seq<int>>,
    pub polygons: Seq<Seq<int>>,
    pub seen: Seq<int>,
}

/// One wall fed to the stitcher: attach to the first matching contour,
/// emit it if the wall closes it, or open a new contour if nothing
/// matched and the wall is no duplicate.
pub open spec fn stitch_step(st: StitchState, left: int, right: int) -> StitchState {
    let dup = st.seen.contains(left) && seen_insert(st.seen, left).contains(right);
    let seen1 = seen_insert(seen_insert(st.seen, left), right);
    match scan_contours(st.contours, 0, left, right, dup) {
        ScanOutcome::NotFound => {
            if !dup {
                StitchState {
                    contours: st.contours.push(seq![left, right]),
                    polygons: st.polygons,
                    seen: seen1,
                }
            } else {
                StitchState { contours: st.contours, polygons: st.polygons, seen: seen1 }
            }
        },
        ScanOutcome::Extended(i, c) => StitchState {
            contours: st.contours.update(i, c),
            polygons: st.polygons,
            seen: seen1,
        },
        ScanOutcome::Closed(i) => StitchState {
            contours: st.contours.remove(i),
            polygons: st.polygons.push(canonical_polygon(st.contours[i])),
            seen: seen1,
        },
    }
}

/// The stitcher run over the walls from index `i` on.
pub open spec fn stitch_walls_from(walls: Seq<(int, int)>, i: int, st: StitchState) -> StitchState
    decreases walls.len() - i,
{
    if i < 0 || i >= walls.len() {
        st
    } else {
        stitch_walls_from(walls, i + 1, stitch_step(st, walls[i].0, walls[i].1))
    }
}

/// Stable insertion of a polygon into a list sorted by first vertex.
pub open spec fn insert_sorted(sorted: Seq<Seq<int>>, p: Seq<int>) -> Seq<Seq<int>>
    decreases sorted.len(),
{
    if sorted.len() == 0 {
        seq![p]
    } else if sorted.last().first() <= p.first() {
        sorted.push(p)
    } else {
        insert_sorted(sorted.drop_last(), p).push(sorted.last())
    }
}

/// The polygons sorted by their first (minimum) vertex index, keeping
/// input order among equals.
pub open spec fn sort_polygons_from(ps: Seq<Seq<int>>, i: int, sorted: Seq<Seq<int>>) -> Seq<
    Seq<int>,
>
    decreases ps.len() - i,
{
    if i < 0 || i >= ps.len() {
        sorted
    } else {
        sort_polygons_from(ps, i + 1, insert_sorted(sorted, ps[i]))
    }
}

/// What the stitcher yields for a whole wall list: every polygon closed
/// along the way, canonicalized and sorted by minimum vertex index.
pub open spec fn walls_to_polygons_spec(walls: Seq<(int, int)>) -> Seq<Seq<int>> {
    let st = stitch_walls_from(
        walls,
        0,
        StitchState { contours: Seq::empty(), polygons: Seq::empty(), seen: Seq::empty() },
    );
    sort_polygons_from(st.polygons, 0, Seq::empty())
}

/// The view of a polygon list as sequences of mathematical integers.
pub open spec fn polys_view(ps: Seq<Vec<usize>>) -> Seq<Seq<int>> {
    ps.map_values(|p: Vec<usize>| p@.map_values(|v: usize| v as int))
}

/// The view of a wall list as pairs of mathematical integers.
pub open spec fn walls_view(ws: Seq<(usize, usize)>) -> Seq<(int, int)> {
    ws.map_values(|w: (usize, usize)| (w.0 as int, w.1 as int))
}

/// The view of the seen-vertex list as mathematical integers.
pub open spec fn seen_view(s: Seq<usize>) -> Seq<int> {
    s.map_values(|v: usize| v as int)
}

/// Whether `x` is among the vertices seen so far, inserting it if not.
fn seen_add(seen: &mut Vec<usize>, x: usize) -> (was_present: bool)
    ensures
        was_present == seen_view(old(seen)@).contains(x as int),
        seen_view(final(seen)@) == seen_insert(seen_view(old(seen)@), x as int),
{
    let n = seen.len();
    let mut i: usize = 0;
    while i < n
        invariant
            i <= n,
            n == seen@.len(),
            seen@ == old(seen)@,
            forall|j: int| 0 <= j < i ==> seen@[j] != x,
        decreases n - i,
    {
        if seen[i] == x {
            proof {
                assert(seen_view(seen@)[i as int] == x as int);
            }
            return true;
        }
        i += 1;
    }
    proof {
        assert forall|j: int| 0 <= j < seen_view(seen@).len() implies seen_view(seen@)[j]
            != x as int by {}
        assert(!seen_view(seen@).contains(x as int));
    }
    let ghost before = seen@;
    seen.push(x);
    proof {
        assert(seen_view(seen@) =~= seen_view(before).push(x as int));
    }
    false
}

/// Where a wall attaches among the open contours.
enum Attach {
    /// It extends contour `i` at its right end.
    Back(usize),
    /// It extends contour `i` at its left end.
    Front(usize),
    /// It closes contour `i`.
    Close(usize),
    /// It matches no contour.
    Open,
}

/// Finds the first contour the wall extends or closes, without changing
/// anything.
#[verifier::loop_isolation(false)]
fn find_attach(contours: &Vec<Vec<usize>>, left: usize, right: usize, dup: bool) -> (a: Attach)
    requires
        forall|k: int| 0 <= k < contours@.len() ==> (#[trigger] contours@[k])@.len() >= 2,
    ensures
        ({
            let cv = polys_view(contours@);
            match a {
                Attach::Open => scan_contours(cv, 0, left as int, right as int, dup)
                    == ScanOutcome::NotFound,
                Attach::Back(i) => {
                    &&& i < contours@.len()
                    &&& scan_contours(cv, 0, left as int, right as int, dup)
                        == ScanOutcome::Extended(i as int, cv[i as int].push(right as int))
                },
                Attach::Front(i) => {
                    &&& i < contours@.len()
                    &&& scan_contours(cv, 0, left as int, right as int, dup)
                        == ScanOutcome::Extended(i as int, seq![left as int] + cv[i as int])
                },
                Attach::Close(i) => {
                    &&& i < contours@.len()
                    &&& scan_contours(cv, 0, left as int, right as int, dup)
                        == ScanOutcome::Closed(i as int)
                },
            }
        }),
{
    let ghost cv = polys_view(contours@);
    let n = contours.len();
    let mut j: usize = 0;
    while j < n
        invariant
            j <= n,
            scan_contours(cv, 0, left as int, right as int, dup) == scan_contours(
                cv,
                j as int,
                left as int,
                right as int,
                dup,
            ),
        decreases n - j,
    {
        let c = &contours[j];
        let clen = c.len();
        proof {
            assert(cv[j as int] == c@.map_values(|v: usize| v as int));
            assert(cv[j as int].len() == clen);
            assert(cv[j as int].first() == c@[0] as int);
            assert(cv[j as int].last() == c@[clen - 1] as int);
        }
        if left == c[clen - 1] {
            if right == c[0] {
                return Attach::Close(j);
            } else if !dup {
                return Attach::Back(j);
            }
        } else if right == c[0] {
            if !dup {
                return Attach::Front(j);
            }
        }
        j += 1;
    }
    Attach::Open
}

/// Rotates a closed contour so its minimum vertex index comes first.
#[verifier::loop_isolation(false)]
fn canonicalize(c: Vec<usize>) -> (r: Vec<usize>)
    requires
        c@.len() >= 1,
    ensures
        r@.map_values(|v: usize| v as int) == canonical_polygon(
            c@.map_values(|v: usize| v as int),
        ),
        r@.len() == c@.len(),
{
    let ghost cv = c@.map_values(|v: usize| v as int);
    let n = c.len();
    let mut best = n - 1;
    let mut i = n - 1;
    while i > 0
        invariant
            i < n,
            best < n,
            best == min_index_from(cv, i as int),
        decreases i,
    {
        i -= 1;
        if c[i] < c[best] {
            best = i;
        }
    }

    let mut r: Vec<usize> = Vec::new();
    let mut j = best;
    while j < n
        invariant
            best <= j <= n,
            best < n,
            n == c@.len(),
            r@ == c@.subrange(best as int, j as int),
        decreases n - j,
    {
        let v = c[j];
        r.push(v);
        proof {
            assert(r@ =~= c@.subrange(best as int, j + 1));
        }
        j += 1;
    }
    let mut j2: usize = 0;
    while j2 < best
        invariant
            j2 <= best,
            best < n,
            n == c@.len(),
            r@ == c@.subrange(best as int, n as int) + c@.subrange(0, j2 as int),
        decreases best - j2,
    {
        let v = c[j2];
        r.push(v);
        proof {
            assert(r@ =~= c@.subrange(best as int, n as int) + c@.subrange(0, j2 + 1));
        }
        j2 += 1;
    }
    proof {
        assert(r@.map_values(|v: usize| v as int) =~= cv.skip(best as int) + cv.take(best as int));
    }
    r
}

proof fn lemma_insert_sorted_at(sorted: Seq<Seq<int>>, p: Seq<int>, j: int)
    requires
        0 <= j <= sorted.len(),
        forall|m: int| j <= m < sorted.len() ==> (#[trigger] sorted[m]).first() > p.first(),
        j > 0 ==> sorted[j - 1].first() <= p.first(),
    ensures
        insert_sorted(sorted, p) == sorted.take(j) + seq![p] + sorted.skip(j),
    decreases sorted.len(),
{
    if sorted.len() == 0 {
        assert(insert_sorted(sorted, p) =~= sorted.take(j) + seq![p] + sorted.skip(j));
    } else if j == sorted.len() {
        assert(insert_sorted(sorted, p) =~= sorted.take(j) + seq![p] + sorted.skip(j));
    } else {
        assert(sorted.last().first() > p.first());
        lemma_insert_sorted_at(sorted.drop_last(), p, j);
        assert(insert_sorted(sorted.drop_last(), p).push(sorted.last()) =~= sorted.take(j)
            + seq![p] + sorted.skip(j));
    }
}

/// Inserts a polygon into a list kept sorted by first vertex, after any
/// polygons with an equal first vertex.
#[verifier::loop_isolation(false)]
fn insert_poly(sorted: &mut Vec<Vec<usize>>, p: Vec<usize>)
    requires
        p@.len() >= 1,
        forall|k: int| 0 <= k < old(sorted)@.len() ==> (#[trigger] old(sorted)@[k])@.len() >= 1,
    ensures
        polys_view(final(sorted)@) == insert_sorted(
            polys_view(old(sorted)@),
            p@.map_values(|v: usize| v as int),
        ),
        forall|k: int| 0 <= k < final(sorted)@.len() ==> (#[trigger] final(sorted)@[k])@.len() >= 1,
{
    let ghost sv = polys_view(sorted@);
    let ghost pv = p@.map_values(|v: usize| v as int);
    let key = p[0];
    let n = sorted.len();
    let mut j = n;
    while j > 0 && sorted[j - 1][0] > key
        invariant
            j <= n,
            n == sorted@.len(),
            sorted@ == old(sorted)@,
            forall|m: int| j <= m < n ==> (#[trigger] sv[m]).first() > pv.first(),
        decreases j,
    {
        proof {
            assert(sv[j - 1].first() == sorted@[j - 1]@[0] as int);
        }
        j -= 1;
    }
    proof {
        if j > 0 {
            assert(sv[j - 1].first() == sorted@[j - 1]@[0] as int);
        }
        lemma_insert_sorted_at(sv, pv, j as int);
    }
    sorted.insert(j, p);
    proof {
        assert(polys_view(sorted@) =~~= sv.take(j as int) + seq![pv] + sv.skip(j as int));
    }
}

/// Stitches an unordered list of directed walls `(left, right)` into
/// closed polygons. Each wall extends or closes the first open contour it
/// fits; a wall whose vertices were both seen before only ever closes.
/// Emitted polygons are rotated so their minimum vertex index is first
/// and sorted by that index.
#[verifier::loop_isolation(false)]
pub fn walls_to_polygons(walls: &Vec<(usize, usize)>) -> (r: Vec<Vec<usize>>)
    ensures
        polys_view(r@) == walls_to_polygons_spec(walls_view(walls@)),
{
    let ghost wv = walls_view(walls@);
    let ghost st0 = StitchState {
        contours: Seq::empty(),
        polygons: Seq::empty(),
        seen: Seq::empty(),
    };

    let mut contours: Vec<Vec<usize>> = Vec::new();
    let mut polygons: Vec<Vec<usize>> = Vec::new();
    let mut seen: Vec<usize> = Vec::new();
    proof {
        assert(polys_view(contours@) =~~= Seq::<Seq<int>>::empty());
        assert(polys_view(polygons@) =~~= Seq::<Seq<int>>::empty());
        assert(seen_view(seen@) =~= Seq::<int>::empty());
    }

    let n = walls.len();
    let mut w: usize = 0;
    while w < n
        invariant
            w <= n,
            n == walls@.len(),
            forall|k: int| 0 <= k < contours@.len() ==> (#[trigger] contours@[k])@.len() >= 2,
            forall|k: int| 0 <= k < polygons@.len() ==> (#[trigger] polygons@[k])@.len() >= 1,
            stitch_walls_from(wv, 0, st0) == stitch_walls_from(
                wv,
                w as int,
                StitchState {
                    contours: polys_view(contours@),
                    polygons: polys_view(polygons@),
                    seen: seen_view(seen@),
                },
            ),
        decreases n - w,
    {
        let ghost st_before = StitchState {
            contours: polys_view(contours@),
            polygons: polys_view(polygons@),
            seen: seen_view(seen@),
        };
        let left = walls[w].0;
        let right = walls[w].1;
        proof {
            assert(wv[w as int] == (left as int, right as int));
        }

        let dup_l = seen_add(&mut seen, left);
        let dup_r = seen_add(&mut seen, right);
        let dup = dup_l && dup_r;

        let ghost cv = polys_view(contours@);
        match find_attach(&contours, left, right, dup) {
            Attach::Open => {
                if !dup {
                    let mut fresh: Vec<usize> = Vec::new();
                    fresh.push(left);
                    fresh.push(right);
                    proof {
                        assert(fresh@.map_values(|v: usize| v as int) =~= seq![
                            left as int,
                            right as int,
                        ]);
                    }
                    contours.push(fresh);
                    proof {
                        assert(polys_view(contours@) =~~= cv.push(
                            seq![left as int, right as int],
                        ));
                    }
                }
            },
            Attach::Back(i) => {
                let mut c = contours.remove(i);
                c.push(right);
                contours.insert(i, c);
                proof {
                    assert(polys_view(contours@) =~~= cv.update(
                        i as int,
                        cv[i as int].push(right as int),
                    ));
                }
            },
            Attach::Front(i) => {
                let mut c = contours.remove(i);
                c.insert(0, left);
                contours.insert(i, c);
                proof {
                    assert(c@.map_values(|v: usize| v as int) =~= seq![left as int] + cv[i as int]);
                    assert(polys_view(contours@) =~~= cv.update(
                        i as int,
                        seq![left as int] + cv[i as int],
                    ));
                }
            },
            Attach::Close(i) => {
                let c = contours.remove(i);
                let poly = canonicalize(c);
                polygons.push(poly);
                proof {
                    assert(polys_view(contours@) =~~= cv.remove(i as int));
                    assert(polys_view(polygons@) =~~= st_before.polygons.push(
                        canonical_polygon(cv[i as int]),
                    ));
                    assert(canonical_polygon(cv[i as int]).len() == cv[i as int].len());
                }
            },
        }
        w += 1;
    }

    // Sort the finished polygons by their first vertex.
    let ghost polys0 = polys_view(polygons@);
    let mut sorted: Vec<Vec<usize>> = Vec::new();
    let np_total = polygons.len();
    let ghost total = np_total as int;
    let mut idx: usize = 0;
    while polygons.len() > 0
        invariant
            idx + polygons@.len() == total,
            total <= usize::MAX,
            forall|k: int| 0 <= k < polygons@.len() ==> (#[trigger] polygons@[k])@.len() >= 1,
            forall|k: int| 0 <= k < sorted@.len() ==> (#[trigger] sorted@[k])@.len() >= 1,
            polys_view(polygons@) == polys0.skip(idx as int),
            sort_polygons_from(polys0, 0, Seq::empty()) == sort_polygons_from(
                polys0,
                idx as int,
                polys_view(sorted@),
            ),
        decreases polygons@.len(),
    {
        let ghost before = polys_view(polygons@);
        let p = polygons.remove(0);
        proof {
            assert(polys_view(polygons@) =~~= before.drop_first());
            assert(before.drop_first() =~~= polys0.skip(idx + 1));
            assert(before[0] == p@.map_values(|v: usize| v as int));
            assert(before[0] == polys0.skip(idx as int)[0]);
            assert(p@.map_values(|v: usize| v as int) == polys0[idx as int]);
        }
        insert_poly(&mut sorted, p);
        idx += 1;
    }
    proof {
        assert(walls_to_polygons_spec(wv) == sort_polygons_from(
            polys0,
            total,
            polys_view(sorted@),
        ));
    }
    sorted
}

/// Fan-triangulates one polygon: every triangle shares the polygon's
/// first vertex. A polygon with fewer than three vertices yields no
/// triangles.
pub fn triangulate_polygon(polygon: &Vec<usize>) -> (r: Vec<(usize, usize, usize)>)
    ensures
        polygon@.len() >= 3 ==> r@.len() == polygon@.len() - 2,
        polygon@.len() < 3 ==> r@.len() == 0,
        forall|i: int|
            0 <= i < r@.len() ==> #[trigger] r@[i] == (polygon@[0], polygon@[i + 1], polygon@[i
                + 2]),
{
    let mut r: Vec<(usize, usize, usize)> = Vec::new();
    if polygon.len() < 3 {
        return r;
    }
    let n = polygon.len();
    let mut i: usize = 1;
    while i + 1 < n
        invariant
            1 <= i,
            i + 1 <= n,
            n == polygon@.len(),
            n >= 3,
            r@.len() == i - 1,
            forall|k: int|
                0 <= k < r@.len() ==> #[trigger] r@[k] == (polygon@[0], polygon@[k + 1], polygon@[k
                    + 2]),
        decreases n - i,
    {
        r.push((polygon[0], polygon[i], polygon[i + 1]));
        i += 1;
    }
    r
}

/// The fan triangles of one polygon, as triples of vertex indices.
pub open spec fn fan_triangles(p: Seq<int>) -> Seq<(int, int, int)> {
    if p.len() < 3 {
        Seq::empty()
    } else {
        Seq::new((p.len() - 2) as nat, |i: int| (p[0], p[i + 1], p[i + 2]))
    }
}

/// The triangles of every polygon from index `k` on, concatenated.
pub open spec fn sector_triangles_spec(polys: Seq<Seq<int>>, k: int) -> Seq<(int, int, int)>
    decreases polys.len() - k,
{
    if k < 0 || k >= polys.len() {
        Seq::empty()
    } else {
        fan_triangles(polys[k]) + sector_triangles_spec(polys, k + 1)
    }
}

/// The view of a triangle list as triples of mathematical integers.
pub open spec fn tris_view(ts: Seq<(usize, usize, usize)>) -> Seq<(int, int, int)> {
    ts.map_values(|t: (usize, usize, usize)| (t.0 as int, t.1 as int, t.2 as int))
}

/// Triangulates a sector's floor: stitches the walls, with their ends
/// flipped to reverse the winding, into polygons, and fans each polygon
/// into triangles of vertex indices, concatenated in polygon order.
#[verifier::loop_isolation(false)]
pub fn triangulate_sector(walls: &Vec<(usize, usize)>) -> (r: Vec<(usize, usize, usize)>)
    ensures
        ({
            let flipped = walls@.map_values(|p: (usize, usize)| (p.1, p.0));
            let polys = walls_to_polygons_spec(walls_view(flipped));
            tris_view(r@) == sector_triangles_spec(polys, 0)
        }),
{
    let mut flipped: Vec<(usize, usize)> = Vec::new();
    let n = walls.len();
    let mut i: usize = 0;
    while i < n
        invariant
            i <= n,
            flipped@ == walls@.subrange(0, i as int).map_values(|p: (usize, usize)| (p.1, p.0)),
        decreases n - i,
    {
        let pair = walls[i];
        flipped.push((pair.1, pair.0));
        proof {
            assert(flipped@ =~= walls@.subrange(0, i + 1).map_values(
                |p: (usize, usize)| (p.1, p.0),
            ));
        }
        i += 1;
    }
    proof {
        assert(walls@.subrange(0, n as int) =~= walls@);
    }

    let polygons = walls_to_polygons(&flipped);
    let ghost polys = walls_to_polygons_spec(walls_view(flipped@));
    let mut r: Vec<(usize, usize, usize)> = Vec::new();
    let np = polygons.len();
    let mut k: usize = 0;
    while k < np
        invariant
            k <= np,
            np == polygons@.len(),
            polys_view(polygons@) == polys,
            tris_view(r@) + sector_triangles_spec(polys, k as int) == sector_triangles_spec(
                polys,
                0,
            ),
        decreases np - k,
    {
        let ghost r_before = r@;
        let tris = triangulate_polygon(&polygons[k]);
        let nt = tris.len();
        let mut t: usize = 0;
        while t < nt
            invariant
                t <= nt,
                nt == tris@.len(),
                k < np,
                forall|x: int|
                    0 <= x < tris@.len() ==> #[trigger] tris@[x] == (
                        polygons@[k as int]@[0],
                        polygons@[k as int]@[x + 1],
                        polygons@[k as int]@[x + 2],
                    ),
                nt == fan_triangles(polys[k as int]).len(),
                r@ == r_before + tris@.subrange(0, t as int),
            decreases nt - t,
        {
            let tri = tris[t];
            r.push(tri);
            proof {
                assert(r@ =~= r_before + tris@.subrange(0, t + 1));
            }
            t += 1;
        }
        proof {
            assert(tris@.subrange(0, nt as int) =~= tris@);
            let pk = polys[k as int];
            assert(pk == polygons@[k as int]@.map_values(|v: usize| v as int));
            assert(tris_view(tris@) =~= fan_triangles(pk));
            assert(tris_view(r@) =~= tris_view(r_before) + tris_view(tris@));
            assert(tris_view(r@) + sector_triangles_spec(polys, k + 1) =~= tris_view(r_before) + (
            fan_triangles(pk) + sector_triangles_spec(polys, k + 1)));
        }
        k += 1;
    }
    proof {
        assert(tris_view(r@) + Seq::<(int, int, int)>::empty() =~= tris_view(r@));
    }
    r
}

} // verus!
