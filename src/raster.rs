use vstd::prelude::*;

verus! {

/// A pointer sample in window pixel coordinates.
#[derive(Clone, Copy, Debug, PartialEq, Eq, Structural)]
pub struct Sample {
    pub x: i32,
    pub y: i32,
}

/// A point emitted by the rasterizer, in window pixel coordinates.
#[derive(Clone, Copy, Debug, PartialEq, Eq, Structural)]
pub struct Point {
    pub x: i64,
    pub y: i64,
}

pub open spec fn point_view(p: Point) -> (int, int) {
    (p.x as int, p.y as int)
}

pub open spec fn points_view(s: Seq<Point>) -> Seq<(int, int)> {
    s.map_values(|p: Point| point_view(p))
}

pub open spec fn swap_xy(p: (int, int)) -> (int, int) {
    (p.1, p.0)
}

pub open spec fn abs(v: int) -> int {
    if v < 0 {
        -v
    } else {
        v
    }
}

/// Maps a point of the working frame, whose first coordinate runs along the
/// major axis, back to window coordinates.
pub open spec fn orient(transposed: bool, a: int, b: int) -> (int, int) {
    if transposed {
        (b, a)
    } else {
        (a, b)
    }
}

/// The five pixels emitted for the primary point `(a, b)` of the working frame:
/// the point itself in window coordinates, then its right, lower, left and
/// upper neighbours.
pub open spec fn cross(transposed: bool, a: int, b: int) -> Seq<(int, int)> {
    let (x, y) = orient(transposed, a, b);
    seq![(x, y), (x + 1, y), (x, y + 1), (x - 1, y), (x, y - 1)]
}

/// The direction in which the minor coordinate moves: toward the sign of
/// the minor delta `db`.
pub open spec fn minor_step(db: int) -> int {
    if db < 0 {
        -1
    } else {
        1
    }
}

/// Minor coordinate of the next primary point, given the discriminator.
pub open spec fn next_minor(b: int, d: int, db: int) -> int {
    if d <= 0 {
        b
    } else {
        b + minor_step(db)
    }
}

/// Discriminator of the next step, built on the size of the minor delta.
pub open spec fn next_disc(d: int, da: int, db: int) -> int {
    if d <= 0 {
        d + 2 * abs(db)
    } else {
        d + 2 * (abs(db) - da)
    }
}

/// The points of a thick line in the working frame, from major coordinate `a`
/// through `a_end`, with the minor coordinate at `b` and discriminator `d`.
pub open spec fn thick(transposed: bool, a: int, b: int, d: int, a_end: int, da: int, db: int) -> Seq<
    (int, int),
>
    decreases a_end + 1 - a,
{
    if a > a_end {
        seq![]
    } else {
        cross(transposed, a, b) + thick(
            transposed,
            a + 1,
            next_minor(b, d, db),
            next_disc(d, da, db),
            a_end,
            da,
            db,
        )
    }
}

/// Whether the segment rises faster than it runs, so that the rasterizer
/// works with the axes exchanged.
pub open spec fn steep(x1: int, y1: int, x2: int, y2: int) -> bool {
    abs(y2 - y1) > abs(x2 - x1)
}

/// The working frame of a segment: whether the axes are exchanged, then the
/// start `(sa, sb)` and end `(ea, eb)` in that frame, ordered along the major
/// axis.
pub open spec fn frame(x1: int, y1: int, x2: int, y2: int) -> (bool, int, int, int, int) {
    let t = steep(x1, y1, x2, y2);
    let (a1, b1) = if t {
        (y1, x1)
    } else {
        (x1, y1)
    };
    let (a2, b2) = if t {
        (y2, x2)
    } else {
        (x2, y2)
    };
    if a1 > a2 {
        (t, a2, b2, a1, b1)
    } else {
        (t, a1, b1, a2, b2)
    }
}

/// The first discriminator of the midpoint algorithm.
pub open spec fn first_disc(da: int, db: int) -> int {
    2 * abs(db) - da
}

/// The thick line between two window points: transpose when steep, order the
/// endpoints along the major axis, then step the midpoint discriminator.
pub open spec fn line_spec(x1: int, y1: int, x2: int, y2: int) -> Seq<(int, int)> {
    let (t, sa, sb, ea, eb) = frame(x1, y1, x2, y2);
    thick(t, sa, sb, first_disc(ea - sa, eb - sb), ea, ea - sa, eb - sb)
}

pub open spec fn line_of(p1: Sample, p2: Sample) -> Seq<(int, int)> {
    line_spec(p1.x as int, p1.y as int, p2.x as int, p2.y as int)
}

proof fn lemma_thick_len(transposed: bool, a: int, b: int, d: int, a_end: int, da: int, db: int)
    requires
        a <= a_end + 1,
    ensures
        thick(transposed, a, b, d, a_end, da, db).len() == 5 * (a_end + 1 - a),
    decreases a_end + 1 - a,
{
    if a <= a_end {
        lemma_thick_len(transposed, a + 1, next_minor(b, d, db), next_disc(d, da, db), a_end, da, db);
    }
}

/// Without a minor step the primary points keep the minor coordinate.
proof fn lemma_thick_flat(transposed: bool, a: int, b: int, d: int, a_end: int, da: int)
    requires
        d <= 0,
    ensures
        forall|k: int|
            0 <= k && 5 * k < thick(transposed, a, b, d, a_end, da, 0).len() ==> #[trigger] thick(
                transposed,
                a,
                b,
                d,
                a_end,
                da,
                0,
            )[5 * k] == orient(transposed, a + k, b),
    decreases a_end + 1 - a,
{
    if a <= a_end {
        lemma_thick_flat(transposed, a + 1, b, d, a_end, da);
        let s = thick(transposed, a, b, d, a_end, da, 0);
        let rest = thick(transposed, a + 1, b, d, a_end, da, 0);
        assert(s == cross(transposed, a, b) + rest);
        assert forall|k: int| 0 <= k && 5 * k < s.len() implies #[trigger] s[5 * k] == orient(
            transposed,
            a + k,
            b,
        ) by {
            if k > 0 {
                assert(s[5 * k] == rest[5 * (k - 1)]);
            }
        }
    }
}

/// Whether `p` is the centre `c` or one of its four unit neighbours.
pub open spec fn near(c: (int, int), p: (int, int)) -> bool {
    ||| p == c
    ||| p == (c.0 + 1, c.1)
    ||| p == (c.0, c.1 + 1)
    ||| p == (c.0 - 1, c.1)
    ||| p == (c.0, c.1 - 1)
}

proof fn lemma_cross_contains(transposed: bool, a: int, b: int)
    ensures
        forall|p: (int, int)| #[trigger]
            cross(transposed, a, b).contains(p) <==> near(orient(transposed, a, b), p),
{
    let c = cross(transposed, a, b);
    assert forall|p: (int, int)| #[trigger] c.contains(p) <==> near(orient(transposed, a, b), p) by {
        if near(orient(transposed, a, b), p) {
            if p == c[0] {
                assert(c.contains(c[0]));
            } else if p == c[1] {
                assert(c.contains(c[1]));
            } else if p == c[2] {
                assert(c.contains(c[2]));
            } else if p == c[3] {
                assert(c.contains(c[3]));
            } else {
                assert(c.contains(c[4]));
            }
        }
    }
}

/// The transposed line holds the points of the plain one with their axes
/// exchanged.
proof fn lemma_thick_transpose(a: int, b: int, d: int, a_end: int, da: int, db: int)
    ensures
        forall|p: (int, int)| #[trigger]
            thick(true, a, b, d, a_end, da, db).contains(p) <==> thick(
                false,
                a,
                b,
                d,
                a_end,
                da,
                db,
            ).contains(swap_xy(p)),
    decreases a_end + 1 - a,
{
    broadcast use vstd::seq_lib::lemma_seq_concat_contains_all_elements;

    if a <= a_end {
        let (b2, d2) = (next_minor(b, d, db), next_disc(d, da, db));
        lemma_thick_transpose(a + 1, b2, d2, a_end, da, db);
        lemma_cross_contains(true, a, b);
        lemma_cross_contains(false, a, b);
        let t = thick(true, a, b, d, a_end, da, db);
        let f = thick(false, a, b, d, a_end, da, db);
        assert(t == cross(true, a, b) + thick(true, a + 1, b2, d2, a_end, da, db));
        assert(f == cross(false, a, b) + thick(false, a + 1, b2, d2, a_end, da, db));
    }
}

/// A stroke segment always produces at least one five-pixel cross: the
/// result is never empty.
pub proof fn lemma_line_nonempty(p1: Sample, p2: Sample)
    ensures
        line_of(p1, p2).len() >= 5,
{
    let (t, sa, sb, ea, eb) = frame(p1.x as int, p1.y as int, p2.x as int, p2.y as int);
    lemma_thick_len(t, sa, sb, first_disc(ea - sa, eb - sb), ea, ea - sa, eb - sb);
}

/// Whether `p` is in the cross around the `k`-th point of the diagonal that
/// starts at `(a, b)` and moves `step` on the minor axis for each major step.
pub open spec fn on_diagonal(a: int, b: int, step: int, k: int, p: (int, int)) -> bool {
    near((a + k, b + k * step), p)
}

/// On an exact diagonal every step moves the minor coordinate: the primary
/// points are `(a + k, b + k * step)`.
proof fn lemma_thick_diagonal(a: int, b: int, a_end: int, da: int, db: int)
    requires
        abs(db) == da,
        da > 0,
    ensures
        forall|p: (int, int)| #[trigger]
            thick(false, a, b, da, a_end, da, db).contains(p) <==> exists|k: int|
                0 <= k <= a_end - a && #[trigger] on_diagonal(a, b, minor_step(db), k, p),
    decreases a_end + 1 - a,
{
    broadcast use vstd::seq_lib::lemma_seq_concat_contains_all_elements;

    let s = minor_step(db);
    let t = thick(false, a, b, da, a_end, da, db);
    if a <= a_end {
        lemma_thick_diagonal(a + 1, b + s, a_end, da, db);
        lemma_cross_contains(false, a, b);
        let rest = thick(false, a + 1, b + s, da, a_end, da, db);
        assert(t == cross(false, a, b) + rest);
        assert forall|p: (int, int)| #[trigger] t.contains(p) <==> exists|k: int|
            0 <= k <= a_end - a && on_diagonal(a, b, s, k, p) by {
            if t.contains(p) {
                if cross(false, a, b).contains(p) {
                    assert(on_diagonal(a, b, s, 0, p));
                } else {
                    let (a1, b1) = (a + 1, b + s);
                    let k = choose|k: int| 0 <= k <= a_end - a1 && on_diagonal(a1, b1, s, k, p);
                    assert(on_diagonal(a, b, s, k + 1, p));
                }
            }
            if exists|k: int| 0 <= k <= a_end - a && on_diagonal(a, b, s, k, p) {
                let k = choose|k: int| 0 <= k <= a_end - a && on_diagonal(a, b, s, k, p);
                if k == 0 {
                    assert(cross(false, a, b).contains(p));
                } else {
                    assert(on_diagonal(a + 1, b + s, s, k - 1, p));
                    assert(rest.contains(p));
                }
            }
        }
    } else {
        assert forall|p: (int, int)| #[trigger] t.contains(p) <==> exists|k: int|
            0 <= k <= a_end - a && on_diagonal(a, b, s, k, p) by {}
    }
}

/// Exchanging the axes of both endpoints exchanges the axes of every emitted
/// point: a point lies on the exchanged line exactly when its mirror lies on
/// the original one.
pub proof fn lemma_line_transpose(p1: Sample, p2: Sample)
    requires
        p1 != p2,
    ensures
        forall|p: (int, int)| #[trigger]
            line_of(Sample { x: p1.y, y: p1.x }, Sample { x: p2.y, y: p2.x }).contains(p)
                <==> line_of(p1, p2).contains(swap_xy(p)),
{
    let (x1, y1, x2, y2) = (p1.x as int, p1.y as int, p2.x as int, p2.y as int);
    if abs(x2 - x1) != abs(y2 - y1) {
        if steep(x1, y1, x2, y2) {
            let (sa, sb, ea, eb) = if y1 > y2 {
                (y2, x2, y1, x1)
            } else {
                (y1, x1, y2, x2)
            };
            lemma_thick_transpose(sa, sb, first_disc(ea - sa, eb - sb), ea, ea - sa, eb - sb);
        } else {
            let (sa, sb, ea, eb) = if x1 > x2 {
                (x2, y2, x1, y1)
            } else {
                (x1, y1, x2, y2)
            };
            lemma_thick_transpose(sa, sb, first_disc(ea - sa, eb - sb), ea, ea - sa, eb - sb);
        }
    } else {
        // An exact diagonal is worked in its own frame both ways.
        let n = abs(x2 - x1);
        assert(n > 0) by {
            if n == 0 {
                assert(p1 == p2);
            }
        }
        let (sa, sb, ea, eb) = if x1 > x2 {
            (x2, y2, x1, y1)
        } else {
            (x1, y1, x2, y2)
        };
        let (qa, qb, qea, qeb) = if y1 > y2 {
            (y2, x2, y1, x1)
        } else {
            (y1, x1, y2, x2)
        };
        lemma_thick_diagonal(sa, sb, ea, n, eb - sb);
        lemma_thick_diagonal(qa, qb, qea, n, qeb - qb);
        let lp = line_of(p1, p2);
        let lq = line_of(Sample { x: p1.y, y: p1.x }, Sample { x: p2.y, y: p2.x });
        assert(lp == thick(false, sa, sb, n, ea, n, eb - sb));
        assert(lq == thick(false, qa, qb, n, qea, n, qeb - qb));
        let s = minor_step(eb - sb);
        let qs = minor_step(qeb - qb);
        assert forall|p: (int, int)| #[trigger] lq.contains(p) <==> lp.contains(swap_xy(p)) by {
            if lq.contains(p) {
                let k = choose|k: int| 0 <= k <= n && on_diagonal(qa, qb, qs, k, p);
                let j = if s > 0 {
                    k
                } else {
                    n - k
                };
                assert(on_diagonal(sa, sb, s, j, swap_xy(p)));
            }
            if lp.contains(swap_xy(p)) {
                let j = choose|j: int| 0 <= j <= n && on_diagonal(sa, sb, s, j, swap_xy(p));
                let k = if s > 0 {
                    j
                } else {
                    n - j
                };
                assert(on_diagonal(qa, qb, qs, k, p));
            }
        }
    }
}

/// Twice the distance, scaled by `da`, on the minor axis between `(u, v)` and
/// the exact segment from `(a0, b0)` with slope `db / da` in the working frame.
pub open spec fn track_err(u: int, v: int, a0: int, b0: int, da: int, db: int) -> int {
    2 * ((u - a0) * db - (v - b0) * da)
}

/// The window point `p`, read in the working frame, stands at major
/// coordinate `u` and within half a pixel of the exact segment.
pub open spec fn tracks(
    transposed: bool,
    p: (int, int),
    u: int,
    a0: int,
    b0: int,
    da: int,
    db: int,
) -> bool {
    let (pu, pv) = orient(transposed, p.0, p.1);
    &&& pu == u
    &&& -da <= track_err(pu, pv, a0, b0, da, db) <= da
}

/// `e` read in the direction of the minor delta `db`.
pub open spec fn toward(db: int, e: int) -> int {
    if db < 0 {
        -e
    } else {
        e
    }
}

proof fn lemma_thick_track(
    transposed: bool,
    a: int,
    b: int,
    d: int,
    a_end: int,
    da: int,
    db: int,
    a0: int,
    b0: int,
)
    requires
        a0 <= a <= a_end + 1,
        da == a_end - a0,
        abs(db) <= da,
        -da <= track_err(a, b, a0, b0, da, db) <= da,
        d == toward(db, track_err(a, b, a0, b0, da, db)) + 2 * abs(db) - da,
    ensures
        forall|k: int|
            0 <= k && 5 * k < thick(transposed, a, b, d, a_end, da, db).len() ==> #[trigger] tracks(
                transposed,
                thick(transposed, a, b, d, a_end, da, db)[5 * k],
                a + k,
                a0,
                b0,
                da,
                db,
            ),
    decreases a_end + 1 - a,
{
    if a <= a_end {
        let e = track_err(a, b, a0, b0, da, db);
        let b2 = next_minor(b, d, db);
        let d2 = next_disc(d, da, db);
        let e2 = track_err(a + 1, b2, a0, b0, da, db);
        if d <= 0 {
            assert(e2 == e + 2 * db) by (nonlinear_arith)
                requires
                    b2 == b,
                    e == 2 * ((a - a0) * db - (b - b0) * da),
                    e2 == 2 * ((a + 1 - a0) * db - (b2 - b0) * da),
            ;
        } else if db < 0 {
            assert(e2 == e + 2 * db + 2 * da) by (nonlinear_arith)
                requires
                    b2 == b - 1,
                    e == 2 * ((a - a0) * db - (b - b0) * da),
                    e2 == 2 * ((a + 1 - a0) * db - (b2 - b0) * da),
            ;
        } else {
            assert(e2 == e + 2 * db - 2 * da) by (nonlinear_arith)
                requires
                    b2 == b + 1,
                    e == 2 * ((a - a0) * db - (b - b0) * da),
                    e2 == 2 * ((a + 1 - a0) * db - (b2 - b0) * da),
            ;
        }
        lemma_thick_track(transposed, a + 1, b2, d2, a_end, da, db, a0, b0);
        let t = thick(transposed, a, b, d, a_end, da, db);
        let rest = thick(transposed, a + 1, b2, d2, a_end, da, db);
        assert(t == cross(transposed, a, b) + rest);
        assert forall|k: int| 0 <= k && 5 * k < t.len() implies #[trigger] tracks(
            transposed,
            t[5 * k],
            a + k,
            a0,
            b0,
            da,
            db,
        ) by {
            if k > 0 {
                assert(t[5 * k] == rest[5 * (k - 1)]);
                assert(tracks(transposed, rest[5 * (k - 1)], a + 1 + (k - 1), a0, b0, da, db));
            }
        }
    }
}

/// The line runs from one endpoint to the other: its first primary point is
/// one endpoint, its last primary point the other, and each primary point in
/// between lies within half a pixel of the exact segment on the minor axis.
pub proof fn lemma_line_tracks_segment(p1: Sample, p2: Sample)
    ensures
        ({
            let (t, sa, sb, ea, eb) = frame(p1.x as int, p1.y as int, p2.x as int, p2.y as int);
            let l = line_of(p1, p2);
            let (e1, e2) = ((p1.x as int, p1.y as int), (p2.x as int, p2.y as int));
            &&& (l[0] == e1 && l[l.len() - 5] == e2) || (l[0] == e2 && l[l.len() - 5] == e1)
            &&& forall|k: int|
                0 <= k && 5 * k < l.len() ==> #[trigger] tracks(
                    t,
                    l[5 * k],
                    sa + k,
                    sa,
                    sb,
                    ea - sa,
                    eb - sb,
                )
        }),
{
    let (t, sa, sb, ea, eb) = frame(p1.x as int, p1.y as int, p2.x as int, p2.y as int);
    let (da, db) = (ea - sa, eb - sb);
    let l = line_of(p1, p2);
    assert(track_err(sa, sb, sa, sb, da, db) == 0) by (nonlinear_arith);
    lemma_thick_track(t, sa, sb, first_disc(da, db), ea, da, db, sa, sb);
    lemma_thick_len(t, sa, sb, first_disc(da, db), ea, da, db);
    let rest = thick(t, sa + 1, next_minor(sb, first_disc(da, db), db), next_disc(first_disc(da, db), da, db), ea, da, db);
    assert(l == cross(t, sa, sb) + rest);
    assert(l[0] == orient(t, sa, sb));
    let last = l[5 * da];
    assert(tracks(t, last, sa + da, sa, sb, da, db));
    let (pu, pv) = orient(t, last.0, last.1);
    let x = db - (pv - sb);
    assert(track_err(pu, pv, sa, sb, da, db) == 2 * da * x) by (nonlinear_arith)
        requires
            pu == sa + da,
            x == db - (pv - sb),
    ;
    if da > 0 {
        assert(x == 0) by (nonlinear_arith)
            requires
                -da <= 2 * da * x <= da,
                da > 0,
        ;
    } else {
        assert(last == l[0]);
    }
    assert(l[l.len() - 5] == orient(t, ea, eb));
}

/// A horizontal segment keeps every primary point on the row of its
/// endpoints; a vertical one keeps every primary point on their column.
pub proof fn lemma_line_axis_aligned(p1: Sample, p2: Sample)
    ensures
        p1.y == p2.y ==> forall|k: int|
            0 <= k && 5 * k < line_of(p1, p2).len() ==> (#[trigger] line_of(p1, p2)[5 * k]).1
                == p1.y,
        p1.x == p2.x ==> forall|k: int|
            0 <= k && 5 * k < line_of(p1, p2).len() ==> (#[trigger] line_of(p1, p2)[5 * k]).0
                == p1.x,
{
    let (x1, y1, x2, y2) = (p1.x as int, p1.y as int, p2.x as int, p2.y as int);
    if y1 == y2 {
        let (sa, ea) = if x1 > x2 {
            (x2, x1)
        } else {
            (x1, x2)
        };
        lemma_thick_flat(false, sa, y1, -(ea - sa), ea, ea - sa);
    }
    if x1 == x2 && y1 != y2 {
        let (sa, ea) = if y1 > y2 {
            (y2, y1)
        } else {
            (y1, y2)
        };
        lemma_thick_flat(true, sa, x1, -(ea - sa), ea, ea - sa);
    } else if x1 == x2 {
        lemma_thick_flat(false, x1, y1, 0, x1, 0);
        lemma_thick_len(false, x1, y1, 0, x1, 0, 0);
    }
}

/// Rasterized points stay well inside `i64`: within `2^33` of the origin.
pub open spec fn in_bounds(p: Point) -> bool {
    -0x2_0000_0000 <= p.x <= 0x2_0000_0000 && -0x2_0000_0000 <= p.y <= 0x2_0000_0000
}

/// Rasterizes the segment between two pointer samples as a line three pixels
/// thick: each step along the major axis emits its primary point followed by
/// the four unit neighbours.
pub fn line_points(p1: Sample, p2: Sample) -> (r: Vec<Point>)
    ensures
        points_view(r@) == line_of(p1, p2),
        forall|i: int| 0 <= i < r@.len() ==> #[trigger] in_bounds(r@[i]),
{
    let dx0: i64 = p2.x as i64 - p1.x as i64;
    let dy0: i64 = p2.y as i64 - p1.y as i64;
    let adx: i64 = if dx0 < 0 { -dx0 } else { dx0 };
    let ady: i64 = if dy0 < 0 { -dy0 } else { dy0 };
    let transposed = ady > adx;
    let (a1, b1, a2, b2) = if transposed {
        (p1.y as i64, p1.x as i64, p2.y as i64, p2.x as i64)
    } else {
        (p1.x as i64, p1.y as i64, p2.x as i64, p2.y as i64)
    };
    let (sa, sb, ea, eb) = if a1 > a2 {
        (a2, b2, a1, b1)
    } else {
        (a1, b1, a2, b2)
    };
    let da: i64 = ea - sa;
    let db: i64 = eb - sb;
    let adb: i64 = if db < 0 { -db } else { db };
    let step: i64 = if db < 0 { -1 } else { 1 };
    let ghost d0: int = first_disc(da as int, db as int);
    let ghost full = thick(transposed, sa as int, sb as int, d0, ea as int, da as int, db as int);
    assert(full == line_of(p1, p2));
    let mut result: Vec<Point> = Vec::new();
    let mut a: i64 = sa;
    let mut b: i64 = sb;
    let mut d: i128 = 2 * (adb as i128) - (da as i128);
    while a <= ea
        invariant
            sa <= a <= ea + 1,
            sb - (a - sa) <= b <= sb + (a - sa),
            -0x8000_0000 <= sa <= 0x7fff_ffff,
            -0x8000_0000 <= ea <= 0x7fff_ffff,
            -0x8000_0000 <= sb <= 0x7fff_ffff,
            da == ea - sa,
            -da <= db <= da,
            adb == abs(db as int),
            step == minor_step(db as int),
            forall|i: int| 0 <= i < result@.len() ==> #[trigger] in_bounds(result@[i]),
            -(a - sa + 1) * 0x10_0000_0000 <= d <= 0x4_0000_0000,
            points_view(result@) + thick(
                transposed,
                a as int,
                b as int,
                d as int,
                ea as int,
                da as int,
                db as int,
            ) == full,
        decreases ea + 1 - a,
    {
        let ghost old_res = result@;
        let ghost before = points_view(result@);
        let ghost rest = thick(
            transposed,
            a as int,
            b as int,
            d as int,
            ea as int,
            da as int,
            db as int,
        );
        let (q0, q1, q2, q3, q4) = if transposed {
            (
                Point { x: b, y: a },
                Point { x: b + 1, y: a },
                Point { x: b, y: a + 1 },
                Point { x: b - 1, y: a },
                Point { x: b, y: a - 1 },
            )
        } else {
            (
                Point { x: a, y: b },
                Point { x: a + 1, y: b },
                Point { x: a, y: b + 1 },
                Point { x: a - 1, y: b },
                Point { x: a, y: b - 1 },
            )
        };
        result.push(q0);
        result.push(q1);
        result.push(q2);
        result.push(q3);
        result.push(q4);
        let ghost c = cross(transposed, a as int, b as int);
        let ghost added = seq![q0, q1, q2, q3, q4];
        assert(result@ =~= old_res + added);
        assert(forall|i: int| 0 <= i < added.len() ==> #[trigger] in_bounds(added[i]));
        assert(points_view(added) =~= c);
        assert(points_view(result@) =~= before + c);
        a = a + 1;
        if d <= 0 {
            d = d + 2 * (adb as i128);
        } else {
            d = d + 2 * ((adb as i128) - (da as i128));
            b = b + step;
        }
        assert(rest == c + thick(
            transposed,
            a as int,
            b as int,
            d as int,
            ea as int,
            da as int,
            db as int,
        ));
        assert(points_view(result@) + thick(
            transposed,
            a as int,
            b as int,
            d as int,
            ea as int,
            da as int,
            db as int,
        ) =~= full);
    }
    assert(points_view(result@) =~= full);
    result
}

} // verus!
