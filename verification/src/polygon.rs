//! Filling polygons row by row: each row is painted between the first and
//! second of its edge crossings, the third and fourth, and so on.
use vstd::prelude::*;
use crate::canvas::Canvas;
use crate::color::Color;
use crate::iso::{fits_i32, trunc_div};
use crate::layout::{max, min};
use crate::shapes::{lemma_share_between, set_pixel};

verus! {

/// The start and end of edge `i` of the closed outline through `points`.
pub open spec fn edge(points: Seq<(i32, i32)>, i: int) -> ((i32, i32), (i32, i32)) {
    (points[i], points[(i + 1) % (points.len() as int)])
}

/// Where edge `i` crosses row `y`: nowhere for a flat edge or a row beyond
/// its ends; otherwise its column at that row, rounded towards the edge's
/// start.
pub open spec fn edge_crossing(points: Seq<(i32, i32)>, i: int, y: int) -> Option<i32> {
    let ((x0, y0), (x1, y1)) = edge(points, i);
    if y0 == y1 || y < min(y0 as int, y1 as int) || y > max(y0 as int, y1 as int) {
        None
    } else if y1 > y0 {
        Some((x0 + trunc_div((x1 - x0) * (y - y0), y1 - y0)) as i32)
    } else {
        Some((x0 + trunc_div((x0 - x1) * (y - y0), y0 - y1)) as i32)
    }
}

/// The crossings of row `y` by the first `k` edges, in edge order.
pub open spec fn crossings(points: Seq<(i32, i32)>, y: int, k: int) -> Seq<i32>
    decreases k,
{
    if k <= 0 {
        seq![]
    } else {
        let before = crossings(points, y, k - 1);
        match edge_crossing(points, k - 1, y) {
            Some(x) => before.push(x),
            None => before,
        }
    }
}

pub open spec fn increasing(s: Seq<i32>) -> bool {
    forall|i: int, j: int| 0 <= i < j < s.len() ==> s[i] < s[j]
}

pub open spec fn same_values(s: Seq<i32>, t: Seq<i32>) -> bool {
    forall|x: i32| s.contains(x) <==> t.contains(x)
}

/// The columns where row `y` crosses the polygon's outline, each once, in
/// increasing order.
pub open spec fn scan_crossings(points: Seq<(i32, i32)>, y: int) -> Seq<i32> {
    choose|s: Seq<i32>| increasing(s) && same_values(s, crossings(points, y, points.len() as int))
}

/// Whether the fill paints column `a` of row `y`: between the first and
/// second crossing of the row, the third and fourth, and so on.
pub open spec fn in_filled_row(points: Seq<(i32, i32)>, y: int, a: int) -> bool {
    let s = scan_crossings(points, y);
    exists|j: int| 0 <= j && 2 * j + 1 < s.len() && s[2 * j] <= a <= #[trigger] s[2 * j + 1]
}

/// The pixel at `(a, b)` after the polygon through `points` is filled on
/// `before`; fewer than three points fill nothing.
pub open spec fn after_fill_polygon(before: Canvas, points: Seq<(i32, i32)>, color: Color, a: int, b: int) -> Option<Color> {
    if points.len() >= 3 && before.inside(a, b) && in_filled_row(points, b, a) {
        Some(color)
    } else {
        before.at(a, b)
    }
}

/// Polygons whose slanted edges fit the crossing arithmetic.
pub open spec fn polygon_fits(points: Seq<(i32, i32)>) -> bool {
    forall|i: int|
        0 <= i < points.len() && #[trigger] edge(points, i).0.1 != edge(points, i).1.1 ==> {
            &&& fits_i32(edge(points, i).1.0 - edge(points, i).0.0)
            &&& fits_i32(edge(points, i).1.1 - edge(points, i).0.1)
        }
}

// ---------------------------------------------------------------------------
// Crossings
// ---------------------------------------------------------------------------

proof fn lemma_next_index(i: int, n: int)
    requires
        0 <= i < n,
    ensures
        (i + 1) % n == if i + 1 < n {
            i + 1
        } else {
            0
        },
{
    if i + 1 < n {
        vstd::arithmetic::div_mod::lemma_small_mod((i + 1) as nat, n as nat);
    } else {
        vstd::arithmetic::div_mod::lemma_mod_self_0(n);
    }
}

fn edge_crossing_exec(points: &[(i32, i32)], i: usize, y: i32) -> (r: Option<i32>)
    requires
        i < points@.len(),
        polygon_fits(points@),
    ensures
        r == edge_crossing(points@, i as int, y as int),
{
    let n = points.len();
    let next = if i + 1 < n {
        i + 1
    } else {
        0
    };
    proof {
        lemma_next_index(i as int, n as int);
    }
    let (x0, y0) = points[i];
    let (x1, y1) = points[next];
    assert(edge(points@, i as int) == ((x0, y0), (x1, y1)));
    if y0 == y1 {
        return None;
    }
    let lower = if y0 < y1 {
        y0
    } else {
        y1
    };
    let upper = if y0 < y1 {
        y1
    } else {
        y0
    };
    if y < lower || y > upper {
        return None;
    }
    let dx: i64 = (x1 - x0) as i64;
    let dy: i64 = (y1 - y0) as i64;
    let t: i64 = (y - y0) as i64;
    assert(-0x8000_0000 * 0x8000_0000 <= dx * t <= 0x8000_0000 * 0x8000_0000) by (nonlinear_arith)
        requires
            -0x8000_0000 <= dx <= 0x7fff_ffff,
            -0x8000_0000 <= t <= 0x7fff_ffff,
    ;
    let numerator: i64 = dx * t;
    let q: i64 = if dy > 0 {
        proof {
            lemma_share_between(dx as int, t as int, dy as int);
        }
        numerator / dy
    } else {
        proof {
            lemma_share_between(dx as int, -t, -dy);
            assert(-numerator == dx * (-t)) by (nonlinear_arith)
                requires
                    numerator == dx * t,
            ;
            assert((x0 - x1) * (y - y0) == -numerator) by (nonlinear_arith)
                requires
                    numerator == dx * t,
                    dx == x1 - x0,
                    t == y - y0,
            ;
        }
        (-numerator) / (-dy)
    };
    let x: i64 = x0 as i64 + q;
    Some(x as i32)
}

proof fn lemma_increasing_unique(s: Seq<i32>, t: Seq<i32>)
    requires
        increasing(s),
        increasing(t),
        same_values(s, t),
    ensures
        s == t,
    decreases s.len(),
{
    if s.len() == 0 {
        if t.len() > 0 {
            assert(t.contains(t[0]));
        }
        assert(s =~= t);
    } else {
        assert(s.contains(s[0]));
        assert(t.contains(s[0]));
        assert(t.len() > 0);
        assert(t.contains(t[0]));
        assert(s.contains(t[0]));
        let i = choose|i: int| 0 <= i < t.len() && t[i] == s[0];
        let k = choose|k: int| 0 <= k < s.len() && s[k] == t[0];
        assert(s[0] == t[0]) by {
            if s[0] < t[0] {
                assert(i > 0);
            } else if t[0] < s[0] {
                assert(k > 0);
            }
        }
        let s1 = s.drop_first();
        let t1 = t.drop_first();
        assert forall|x: i32| s1.contains(x) <==> t1.contains(x) by {
            if s1.contains(x) {
                let a = choose|a: int| 0 <= a < s1.len() && s1[a] == x;
                assert(s[a + 1] == x);
                assert(x != s[0]);
                assert(t.contains(x));
                let b = choose|b: int| 0 <= b < t.len() && t[b] == x;
                assert(b > 0);
                assert(t1[b - 1] == x);
            }
            if t1.contains(x) {
                let a = choose|a: int| 0 <= a < t1.len() && t1[a] == x;
                assert(t[a + 1] == x);
                assert(x != t[0]);
                assert(s.contains(x));
                let b = choose|b: int| 0 <= b < s.len() && s[b] == x;
                assert(b > 0);
                assert(s1[b - 1] == x);
            }
        }
        lemma_increasing_unique(s1, t1);
        assert(s =~= t) by {
            assert forall|j: int| 0 <= j < s.len() implies s[j] == t[j] by {
                if j > 0 {
                    assert(s[j] == s1[j - 1]);
                    assert(t[j] == t1[j - 1]);
                }
            }
        }
    }
}

/// Adds `x` to an increasing sequence of columns, unless it is there.
fn insert_crossing(columns: &mut Vec<i32>, x: i32)
    requires
        increasing(old(columns)@),
    ensures
        increasing(final(columns)@),
        forall|v: i32| #[trigger] final(columns)@.contains(v) <==> (old(columns)@.contains(v) || v == x),
{
    let mut p: usize = 0;
    while p < columns.len()
        invariant
            p <= columns@.len(),
            forall|k: int| 0 <= k < p ==> columns@[k] < x,
        ensures
            p <= columns@.len(),
            forall|k: int| 0 <= k < p ==> columns@[k] < x,
            p < columns@.len() ==> columns@[p as int] >= x,
        decreases columns.len() - p,
    {
        if columns[p] >= x {
            break;
        }
        p += 1;
    }
    if p < columns.len() && columns[p] == x {
        assert(columns@.contains(x) == true) by {
            assert(columns@[p as int] == x);
        }
        return;
    }
    let ghost old_columns = columns@;
    columns.insert(p, x);
    proof {
        let s = old_columns;
        let t = columns@;
        assert(t.len() == s.len() + 1);
        assert forall|k: int| 0 <= k < p implies t[k] == s[k] by {}
        assert(t[p as int] == x);
        assert forall|k: int| p < k < t.len() implies t[k] == s[k - 1] by {}
        assert forall|i: int, j: int| 0 <= i < j < t.len() implies t[i] < t[j] by {
            if j < p {
            } else if j == p {
            } else if i < p {
                assert(s[j - 1] >= x) by {
                    if j - 1 > p {
                        assert(s[p as int] < s[j - 1]);
                    }
                }
                assert(s[p as int] > x);
            } else if i == p {
                assert(s[p as int] > x);
                if j - 1 > p {
                    assert(s[p as int] < s[j - 1]);
                }
            } else {
            }
        }
        assert forall|v: i32| #[trigger] t.contains(v) <==> (s.contains(v) || v == x) by {
            if t.contains(v) {
                let k = choose|k: int| 0 <= k < t.len() && t[k] == v;
                if k < p {
                    assert(s[k] == v);
                } else if k > p {
                    assert(s[k - 1] == v);
                }
            }
            if s.contains(v) {
                let k = choose|k: int| 0 <= k < s.len() && s[k] == v;
                if k < p {
                    assert(t[k] == v);
                } else {
                    assert(t[k + 1] == v);
                }
            }
            if v == x {
                assert(t[p as int] == v);
            }
        }
    }
}

/// The crossings of row `y`, each once, in increasing order.
pub fn scan_row(points: &[(i32, i32)], y: i32) -> (r: Vec<i32>)
    requires
        polygon_fits(points@),
    ensures
        r@ == scan_crossings(points@, y as int),
{
    let mut columns: Vec<i32> = Vec::new();
    let mut i: usize = 0;
    while i < points.len()
        invariant
            i <= points@.len(),
            polygon_fits(points@),
            increasing(columns@),
            same_values(columns@, crossings(points@, y as int, i as int)),
        decreases points.len() - i,
    {
        let crossing = edge_crossing_exec(points, i, y);
        let ghost before = columns@;
        match crossing {
            Some(x) => {
                insert_crossing(&mut columns, x);
                proof {
                    let c = crossings(points@, y as int, i as int);
                    assert(crossings(points@, y as int, i + 1) == c.push(x));
                    assert forall|v: i32| columns@.contains(v) <==> crossings(points@, y as int, i + 1).contains(v) by {
                        vstd::seq_lib::lemma_seq_contains_after_push(c, x, v);
                    }
                }
            },
            None => {
                assert(crossings(points@, y as int, i + 1) == crossings(points@, y as int, i as int));
            },
        }
        i += 1;
    }
    proof {
        let c = crossings(points@, y as int, points@.len() as int);
        assert(increasing(columns@) && same_values(columns@, c));
        let chosen = scan_crossings(points@, y as int);
        assert(increasing(chosen) && same_values(chosen, c));
        assert forall|x: i32| chosen.contains(x) <==> columns@.contains(x) by {}
        lemma_increasing_unique(chosen, columns@);
    }
    columns
}

/// An increasing sequence with `x` added to the values of `s`.
proof fn lemma_insert_value(s: Seq<i32>, x: i32) -> (t: Seq<i32>)
    requires
        increasing(s),
    ensures
        increasing(t),
        forall|v: i32| #[trigger] t.contains(v) <==> (s.contains(v) || v == x),
    decreases s.len(),
{
    if s.len() == 0 {
        let t = seq![x];
        assert forall|v: i32| #[trigger] t.contains(v) <==> (s.contains(v) || v == x) by {
            if v == x {
                assert(t[0] == v);
            }
        }
        t
    } else if s.last() < x {
        let t = s.push(x);
        assert forall|v: i32| #[trigger] t.contains(v) <==> (s.contains(v) || v == x) by {
            vstd::seq_lib::lemma_seq_contains_after_push(s, x, v);
        }
        t
    } else if s.last() == x {
        assert forall|v: i32| #[trigger] s.contains(v) <==> (s.contains(v) || v == x) by {
            if v == x {
                assert(s[s.len() - 1] == v);
            }
        }
        s
    } else {
        let rest = s.drop_last();
        let last = s.last();
        let u = lemma_insert_value(rest, x);
        let t = u.push(last);
        assert forall|k: int| 0 <= k < u.len() implies u[k] < last by {
            assert(u.contains(u[k]));
            if u[k] != x {
                assert(rest.contains(u[k]));
                let i = choose|i: int| 0 <= i < rest.len() && rest[i] == u[k];
                assert(s[i] < s[s.len() - 1]);
            }
        }
        assert forall|v: i32| #[trigger] t.contains(v) <==> (s.contains(v) || v == x) by {
            vstd::seq_lib::lemma_seq_contains_after_push(u, last, v);
            if rest.contains(v) {
                let i = choose|i: int| 0 <= i < rest.len() && rest[i] == v;
                assert(s[i] == v);
            }
            if s.contains(v) && v != last {
                let i = choose|i: int| 0 <= i < s.len() && s[i] == v;
                assert(i != s.len() - 1);
                assert(rest[i] == v);
            }
            if v == last {
                assert(s[s.len() - 1] == v);
            }
        }
        t
    }
}

/// Every row has its increasing sequence of crossings.
proof fn lemma_scan_exists(points: Seq<(i32, i32)>, y: int, k: int) -> (s: Seq<i32>)
    ensures
        increasing(s),
        same_values(s, crossings(points, y, k)),
    decreases k,
{
    if k <= 0 {
        let s = Seq::<i32>::empty();
        assert(s =~= crossings(points, y, k));
        s
    } else {
        let u = lemma_scan_exists(points, y, k - 1);
        let before = crossings(points, y, k - 1);
        match edge_crossing(points, k - 1, y) {
            Some(x) => {
                let s = lemma_insert_value(u, x);
                assert forall|v: i32| s.contains(v) <==> crossings(points, y, k).contains(v) by {
                    vstd::seq_lib::lemma_seq_contains_after_push(before, x, v);
                }
                s
            },
            None => u,
        }
    }
}

/// A column crossed by the first `k` edges comes from one of them.
proof fn lemma_crossing_source(points: Seq<(i32, i32)>, y: int, k: int, v: i32)
    requires
        crossings(points, y, k).contains(v),
    ensures
        exists|i: int| 0 <= i < k && #[trigger] edge_crossing(points, i, y) == Some(v),
    decreases k,
{
    if k <= 0 {
        assert(false);
    } else {
        let before = crossings(points, y, k - 1);
        match edge_crossing(points, k - 1, y) {
            Some(x) => {
                vstd::seq_lib::lemma_seq_contains_after_push(before, x, v);
                if x == v {
                    assert(edge_crossing(points, k - 1, y) == Some(v));
                } else {
                    lemma_crossing_source(points, y, k - 1, v);
                    let i = choose|i: int| 0 <= i < k - 1 && #[trigger] edge_crossing(points, i, y) == Some(v);
                    assert(edge_crossing(points, i, y) == Some(v));
                }
            },
            None => {
                lemma_crossing_source(points, y, k - 1, v);
                let i = choose|i: int| 0 <= i < k - 1 && #[trigger] edge_crossing(points, i, y) == Some(v);
                assert(edge_crossing(points, i, y) == Some(v));
            },
        }
    }
}

/// A filled pixel lies on a row that some edge reaches.
proof fn lemma_filled_rows_are_spanned(points: Seq<(i32, i32)>, y: int, a: int)
    requires
        in_filled_row(points, y, a),
    ensures
        exists|i: int|
            0 <= i < points.len() && #[trigger] edge_crossing(points, i, y) is Some,
{
    let c = crossings(points, y, points.len() as int);
    let s = scan_crossings(points, y);
    let j = choose|j: int| 0 <= j && 2 * j + 1 < s.len() && s[2 * j] <= a <= #[trigger] s[2 * j + 1];
    assert(s.len() > 0);
    assert(s.contains(s[0]));
    let witness = lemma_scan_exists(points, y, points.len() as int);
    assert(increasing(witness) && same_values(witness, c));
    assert(increasing(s) && same_values(s, c));
    assert(c.contains(s[0]));
    lemma_crossing_source(points, y, points.len() as int, s[0]);
    let i = choose|i: int| 0 <= i < points.len() && #[trigger] edge_crossing(points, i, y) == Some(s[0]);
    assert(edge_crossing(points, i, y) is Some);
}

// ---------------------------------------------------------------------------
// Painting
// ---------------------------------------------------------------------------

/// Paints row `y` from column `start` to column `end` inclusive.
fn paint_run(canvas: &mut Canvas, start: i32, end: i32, y: i32, color: Color)
    requires
        old(canvas).wf(),
    ensures
        final(canvas).wf(),
        final(canvas).geometry_spec() == old(canvas).geometry_spec(),
        final(canvas).is_light() == old(canvas).is_light(),
        forall|a: int, b: int|
            #[trigger] final(canvas).at(a, b) == if old(canvas).inside(a, b) && b == y && start <= a <= end {
                Some(color)
            } else {
                old(canvas).at(a, b)
            },
{
    let ghost before = *canvas;
    let mut x: i64 = start as i64;
    while x <= end as i64
        invariant
            start <= x <= end + 1 || (x == start && start > end),
            canvas.wf(),
            canvas.geometry_spec() == before.geometry_spec(),
            canvas.is_light() == before.is_light(),
            forall|a: int, b: int|
                #[trigger] canvas.at(a, b) == if before.inside(a, b) && b == y && start <= a < x {
                    Some(color)
                } else {
                    before.at(a, b)
                },
        decreases end + 1 - x,
    {
        set_pixel(canvas, x as i32, y, color);
        x += 1;
    }
}

/// Fills the polygon through `points`, row by row between pairs of edge
/// crossings; fewer than three points fill nothing.
pub fn fill_polygon(canvas: &mut Canvas, points: &[(i32, i32)], color: Color)
    requires
        old(canvas).wf(),
        polygon_fits(points@),
    ensures
        final(canvas).wf(),
        final(canvas).geometry_spec() == old(canvas).geometry_spec(),
        final(canvas).is_light() == old(canvas).is_light(),
        forall|a: int, b: int| #[trigger] final(canvas).at(a, b) == after_fill_polygon(*old(canvas), points@, color, a, b),
{
    let n = points.len();
    if n < 3 {
        return;
    }
    let ghost before = *canvas;
    let mut min_y = points[0].1;
    let mut max_y = points[0].1;
    let mut i: usize = 1;
    while i < n
        invariant
            n == points@.len(),
            1 <= i <= n,
            forall|k: int| 0 <= k < i ==> min_y <= #[trigger] points@[k].1 <= max_y,
        decreases n - i,
    {
        let y = points[i].1;
        if y < min_y {
            min_y = y;
        }
        if y > max_y {
            max_y = y;
        }
        i += 1;
    }
    let mut row: i64 = min_y as i64;
    while row <= max_y as i64
        invariant
            n == points@.len(),
            n >= 3,
            polygon_fits(points@),
            min_y <= row <= max_y + 1,
            canvas.wf(),
            canvas.geometry_spec() == before.geometry_spec(),
            canvas.is_light() == before.is_light(),
            forall|a: int, b: int|
                #[trigger] canvas.at(a, b) == if before.inside(a, b) && min_y <= b < row && in_filled_row(points@, b, a) {
                    Some(color)
                } else {
                    before.at(a, b)
                },
        decreases max_y + 1 - row,
    {
        let y = row as i32;
        let columns = scan_row(points, y);
        let ghost s = columns@;
        let mut pair: usize = 0;
        while pair < columns.len() / 2
            invariant
                s == columns@,
                s == scan_crossings(points@, y as int),
                pair <= columns@.len() / 2,
                y == row,
                canvas.wf(),
                canvas.geometry_spec() == before.geometry_spec(),
                canvas.is_light() == before.is_light(),
                forall|a: int, b: int|
                    #[trigger] canvas.at(a, b) == if before.inside(a, b) && ((min_y <= b < row && in_filled_row(points@, b, a)) || (
                    b == y && exists|j: int| 0 <= j < pair && s[2 * j] <= a <= #[trigger] s[2 * j + 1])) {
                        Some(color)
                    } else {
                        before.at(a, b)
                    },
            decreases columns.len() / 2 - pair,
        {
            let start = columns[2 * pair];
            let end = columns[2 * pair + 1];
            paint_run(canvas, start, end, y, color);
            proof {
                assert forall|a: int, b: int| #[trigger]
                    canvas.at(a, b) == if before.inside(a, b) && ((min_y <= b < row && in_filled_row(points@, b, a)) || (
                    b == y && exists|j: int| 0 <= j < pair + 1 && s[2 * j] <= a <= #[trigger] s[2 * j + 1])) {
                        Some(color)
                    } else {
                        before.at(a, b)
                    } by {
                    if b == y && start <= a <= end {
                        assert(s[2 * pair as int] <= a <= s[2 * pair as int + 1]);
                    } else if b == y && exists|j: int| 0 <= j < pair + 1 && s[2 * j] <= a <= #[trigger] s[2 * j + 1] {
                        let j = choose|j: int| 0 <= j < pair + 1 && s[2 * j] <= a <= #[trigger] s[2 * j + 1];
                        assert(j != pair);
                    }
                }
            }
            pair += 1;
        }
        proof {
            assert forall|a: int, b: int| #[trigger]
                canvas.at(a, b) == if before.inside(a, b) && min_y <= b < row + 1 && in_filled_row(points@, b, a) {
                    Some(color)
                } else {
                    before.at(a, b)
                } by {
                if b == y {
                    if in_filled_row(points@, b, a) {
                        let j = choose|j: int| 0 <= j && 2 * j + 1 < s.len() && s[2 * j] <= a <= #[trigger] s[2 * j + 1];
                        assert(j < pair);
                    }
                }
            }
        }
        row += 1;
    }
    proof {
        assert forall|a: int, b: int| #[trigger] canvas.at(a, b) == after_fill_polygon(before, points@, color, a, b) by {
            if in_filled_row(points@, b, a) {
                lemma_filled_rows_are_spanned(points@, b, a);
                let i = choose|i: int| 0 <= i < points@.len() && #[trigger] edge_crossing(points@, i, b) is Some;
                lemma_next_index(i, n as int);
                let next = if i + 1 < n {
                    i + 1
                } else {
                    0
                };
                assert(min_y <= points@[i].1 <= max_y);
                assert(min_y <= points@[next].1 <= max_y);
            }
        }
    }
}

} // verus!
