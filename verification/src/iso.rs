//! The isometric room: its furniture, the order items are painted in, and
//! small pieces of isometric geometry.
use vstd::prelude::*;
use crate::canvas::{density, density_spec, Canvas, PixelEncoding};
use crate::color::{phase_ms, phase_spec};
use crate::room::{figure_dimensions, figure_size};
use crate::layout::{max, min, sat_sub};

verus! {

/// How many tiles an item covers and how tall it stands.
#[derive(Debug, Clone, Copy, PartialEq, Eq, Structural)]
pub struct IsoFootprint {
    pub width: u8,
    pub depth: u8,
    pub height: u8,
}

/// What an item of the isometric room is.
#[derive(Debug, Clone, Copy, PartialEq, Eq, Structural)]
pub enum IsoKind {
    Plant,
    Cooler,
    MeetingTable,
    Chair(usize),
    Worker(usize),
    Manager,
    Desk(usize),
}

/// An item on the room's tile grid.
#[derive(Debug, Clone, Copy, PartialEq, Eq, Structural)]
pub struct IsoItem {
    pub tile_x: usize,
    pub tile_y: usize,
    pub footprint: IsoFootprint,
    pub kind: IsoKind,
}

/// Among items on the same tile, the order of kinds: plants and coolers,
/// then tables and chairs, people, the manager and desks last.
pub open spec fn kind_rank_spec(kind: IsoKind) -> u8 {
    match kind {
        IsoKind::Plant | IsoKind::Cooler => 1,
        IsoKind::MeetingTable | IsoKind::Chair(_) => 3,
        IsoKind::Worker(_) => 4,
        IsoKind::Manager => 5,
        IsoKind::Desk(_) => 6,
    }
}

pub fn kind_rank(kind: IsoKind) -> (r: u8)
    ensures
        r == kind_rank_spec(kind),
{
    match kind {
        IsoKind::Plant | IsoKind::Cooler => 1,
        IsoKind::MeetingTable | IsoKind::Chair(_) => 3,
        IsoKind::Worker(_) => 4,
        IsoKind::Manager => 5,
        IsoKind::Desk(_) => 6,
    }
}

/// `a + b`, saturating at `usize::MAX`.
pub open spec fn usize_sat_add(a: int, b: int) -> int {
    if a + b > usize::MAX {
        usize::MAX as int
    } else {
        a + b
    }
}

/// The painting key of an item: its front edge's depth into the room (tile
/// row plus column plus footprint depth), then its row, then its kind.
pub open spec fn painter_key_spec(item: IsoItem) -> (int, int, int) {
    (
        usize_sat_add(usize_sat_add(item.tile_x as int, item.tile_y as int), item.footprint.depth as int),
        item.tile_y as int,
        kind_rank_spec(item.kind) as int,
    )
}

pub fn painter_key(item: IsoItem) -> (r: (usize, usize, u8))
    ensures
        (r.0 as int, r.1 as int, r.2 as int) == painter_key_spec(item),
{
    (
        item.tile_x.saturating_add(item.tile_y).saturating_add(item.footprint.depth as usize),
        item.tile_y,
        kind_rank(item.kind),
    )
}

/// Lexicographic order of painting keys.
pub open spec fn key_le(a: (int, int, int), b: (int, int, int)) -> bool {
    a.0 < b.0 || (a.0 == b.0 && (a.1 < b.1 || (a.1 == b.1 && a.2 <= b.2)))
}

pub(crate) fn key_le_exec(a: (usize, usize, u8), b: (usize, usize, u8)) -> (r: bool)
    ensures
        r == key_le((a.0 as int, a.1 as int, a.2 as int), (b.0 as int, b.1 as int, b.2 as int)),
{
    a.0 < b.0 || (a.0 == b.0 && (a.1 < b.1 || (a.1 == b.1 && a.2 <= b.2)))
}

/// Whether item `a` is painted no later than item `b`.
pub open spec fn paints_before(a: IsoItem, b: IsoItem) -> bool {
    key_le(painter_key_spec(a), painter_key_spec(b))
}

/// `x` placed into `s` after every item that paints no later than it.
pub open spec fn insert_sorted(s: Seq<IsoItem>, x: IsoItem) -> Seq<IsoItem>
    decreases s.len(),
{
    if s.len() == 0 {
        seq![x]
    } else if paints_before(s.last(), x) {
        s.push(x)
    } else {
        insert_sorted(s.drop_last(), x).push(s.last())
    }
}

/// Items in painting order: a stable sort by painting key, so items with
/// equal keys keep their order.
pub open spec fn painting_order(s: Seq<IsoItem>) -> Seq<IsoItem>
    decreases s.len(),
{
    if s.len() == 0 {
        seq![]
    } else {
        insert_sorted(painting_order(s.drop_last()), s.last())
    }
}

/// Whether a sequence is in painting order.
pub open spec fn painter_sorted(s: Seq<IsoItem>) -> bool {
    forall|i: int, j: int| 0 <= i < j < s.len() ==> paints_before(#[trigger] s[i], #[trigger] s[j])
}

proof fn lemma_insert_split(s: Seq<IsoItem>, x: IsoItem, j: int)
    requires
        0 <= j <= s.len(),
        forall|k: int| j <= k < s.len() ==> !paints_before(#[trigger] s[k], x),
    ensures
        insert_sorted(s, x) == insert_sorted(s.take(j), x) + s.skip(j),
    decreases s.len(),
{
    if j == s.len() {
        assert(s.take(j) =~= s);
        assert(s.skip(j) =~= Seq::<IsoItem>::empty());
        assert(insert_sorted(s, x) + Seq::<IsoItem>::empty() =~= insert_sorted(s, x));
    } else {
        let rest = s.drop_last();
        assert(!paints_before(s[s.len() - 1], x));
        assert forall|k: int| j <= k < rest.len() implies !paints_before(#[trigger] rest[k], x) by {
            assert(rest[k] == s[k]);
        }
        lemma_insert_split(rest, x, j);
        assert(rest.take(j) =~= s.take(j));
        assert(rest.skip(j).push(s.last()) =~= s.skip(j));
        assert((insert_sorted(s.take(j), x) + rest.skip(j)).push(s.last()) =~= insert_sorted(s.take(j), x)
            + s.skip(j));
    }
}

/// Puts items in painting order: farther and lower items first, so nearer
/// and taller ones are drawn over them. Items with equal keys keep their order.
pub fn painter_order(items: &mut Vec<IsoItem>)
    ensures
        final(items)@ == painting_order(old(items)@),
{
    let mut sorted: Vec<IsoItem> = Vec::new();
    let n = items.len();
    let mut i: usize = 0;
    while i < n
        invariant
            n == items.len(),
            items@ == old(items)@,
            i <= n,
            sorted@ == painting_order(items@.take(i as int)),
        decreases n - i,
    {
        let x = items[i];
        let key = painter_key(x);
        let mut j = sorted.len();
        while j > 0 && !key_le_exec(painter_key(sorted[j - 1]), key)
            invariant
                j <= sorted.len(),
                (key.0 as int, key.1 as int, key.2 as int) == painter_key_spec(x),
                forall|k: int| j <= k < sorted@.len() ==> !paints_before(#[trigger] sorted@[k], x),
            decreases j,
        {
            j -= 1;
        }
        proof {
            lemma_insert_split(sorted@, x, j as int);
            if j > 0 {
                assert(sorted@.take(j as int).last() == sorted@[j - 1]);
                assert(insert_sorted(sorted@.take(j as int), x) == sorted@.take(j as int).push(x));
            }
            assert(items@.take(i + 1).drop_last() =~= items@.take(i as int));
        }
        let ghost before = sorted@;
        sorted.insert(j, x);
        assert(sorted@ =~= insert_sorted(before.take(j as int), x) + before.skip(j as int));
        i += 1;
    }
    assert(items@.take(n as int) =~= items@);
    *items = sorted;
}

proof fn lemma_insert_sorted_keeps_order(s: Seq<IsoItem>, x: IsoItem)
    requires
        painter_sorted(s),
    ensures
        painter_sorted(insert_sorted(s, x)),
        insert_sorted(s, x).len() == s.len() + 1,
        forall|k: int| 0 <= k < insert_sorted(s, x).len() ==> (#[trigger] insert_sorted(s, x)[k] == x || s.contains(insert_sorted(s, x)[k])),
    decreases s.len(),
{
    if s.len() == 0 {
    } else if paints_before(s.last(), x) {
        let r = s.push(x);
        assert forall|i: int, j: int| 0 <= i < j < r.len() implies paints_before(#[trigger] r[i], #[trigger] r[j]) by {
            if j == s.len() {
                assert(paints_before(s[i], s.last()));
            } else {
                assert(paints_before(s[i], s[j]));
            }
        }
        assert forall|k: int| 0 <= k < r.len() implies (#[trigger] r[k] == x || s.contains(r[k])) by {
            if k < s.len() {
                assert(s.contains(s[k]));
            }
        }
    } else {
        let rest = s.drop_last();
        assert forall|i: int, j: int| 0 <= i < j < rest.len() implies paints_before(#[trigger] rest[i], #[trigger] rest[j]) by {
            assert(paints_before(s[i], s[j]));
        }
        lemma_insert_sorted_keeps_order(rest, x);
        let inner = insert_sorted(rest, x);
        let r = inner.push(s.last());
        assert forall|k: int| 0 <= k < r.len() implies (#[trigger] r[k] == x || s.contains(r[k])) by {
            if k < inner.len() {
                if inner[k] != x {
                    let m = choose|m: int| 0 <= m < rest.len() && rest[m] == inner[k];
                    assert(s[m] == inner[k]);
                    assert(s.contains(r[k]));
                }
            } else {
                assert(s[s.len() - 1] == r[k]);
                assert(s.contains(r[k]));
            }
        }
        assert forall|i: int, j: int| 0 <= i < j < r.len() implies paints_before(#[trigger] r[i], #[trigger] r[j]) by {
            if j == inner.len() {
                if inner[i] == x {
                    // The last item paints after x: the keys are totally ordered.
                    assert(!paints_before(s.last(), x));
                } else {
                    let m = choose|m: int| 0 <= m < rest.len() && rest[m] == inner[i];
                    assert(paints_before(s[m], s[s.len() - 1]));
                }
            } else {
                assert(paints_before(inner[i], inner[j]));
            }
        }
    }
}

/// Painting order is sorted by painting key.
pub proof fn law_painting_order_is_sorted(s: Seq<IsoItem>)
    ensures
        painter_sorted(painting_order(s)),
        painting_order(s).len() == s.len(),
    decreases s.len(),
{
    if s.len() > 0 {
        law_painting_order_is_sorted(s.drop_last());
        lemma_insert_sorted_keeps_order(painting_order(s.drop_last()), s.last());
    }
}

/// Two items stand on the same spot: the same tile and footprint depth.
pub open spec fn same_spot(a: IsoItem, b: IsoItem) -> bool {
    a.tile_x == b.tile_x && a.tile_y == b.tile_y && a.footprint.depth == b.footprint.depth
}

/// On one spot the room is painted from the floor up, whatever order the
/// items came in: plants and coolers first; a chair or the meeting table
/// before the people at it and before the desk; a worker before the manager;
/// and the people before their desk, whose front is drawn over them.
pub proof fn law_desks_cover_the_people_on_their_spot(s: Seq<IsoItem>, p: int, q: int)
    requires
        0 <= p < painting_order(s).len(),
        0 <= q < painting_order(s).len(),
        same_spot(painting_order(s)[p], painting_order(s)[q]),
        ({
            let a = painting_order(s)[p].kind;
            let b = painting_order(s)[q].kind;
            ||| (a is Worker || a is Manager) && b is Desk
            ||| a is Worker && b is Manager
            ||| (a is Chair || a is MeetingTable) && (b is Worker || b is Manager || b is Desk)
            ||| (a is Plant || a is Cooler) && !(b is Plant || b is Cooler)
        }),
    ensures
        p < q,
{
    law_painting_order_is_sorted(s);
    let r = painting_order(s);
    if q < p {
        assert(paints_before(r[q], r[p]));
    }
}

proof fn lemma_insert_sorted_multiset(s: Seq<IsoItem>, x: IsoItem)
    ensures
        insert_sorted(s, x).to_multiset() == s.to_multiset().insert(x),
    decreases s.len(),
{
    broadcast use vstd::seq_lib::group_to_multiset_ensures;

    if s.len() > 0 && !paints_before(s.last(), x) {
        let rest = s.drop_last();
        lemma_insert_sorted_multiset(rest, x);
        assert(rest.push(s.last()) =~= s);
        assert(insert_sorted(s, x).to_multiset() =~= rest.to_multiset().insert(x).insert(s.last()));
        assert(s.to_multiset() =~= rest.to_multiset().insert(s.last()));
    }
}

/// Painting order neither drops nor adds an item.
pub proof fn law_painting_order_is_a_permutation(s: Seq<IsoItem>)
    ensures
        painting_order(s).to_multiset() == s.to_multiset(),
    decreases s.len(),
{
    broadcast use vstd::seq_lib::group_to_multiset_ensures;

    if s.len() > 0 {
        let rest = s.drop_last();
        law_painting_order_is_a_permutation(rest);
        lemma_insert_sorted_multiset(painting_order(rest), s.last());
        assert(rest.push(s.last()) =~= s);
    }
}

// ---------------------------------------------------------------------------
// Isometric geometry
// ---------------------------------------------------------------------------

/// Integer division rounding toward zero, as Rust's `/` on signed integers.
pub open spec fn trunc_div(a: int, b: int) -> int {
    if a >= 0 {
        a / b
    } else {
        -((-a) / b)
    }
}

pub open spec fn abs(a: int) -> int {
    if a < 0 {
        -a
    } else {
        a
    }
}

/// Whether offset `(dx, dy)` from a diamond's centre is inside a diamond of
/// the given half width and half height; an empty diamond holds nothing.
pub open spec fn diamond_contains_spec(dx: int, dy: int, half_width: int, half_height: int) -> bool {
    half_width > 0 && half_height > 0 && abs(dx) * half_height + abs(dy) * half_width <= half_width * half_height
}

pub fn diamond_contains(dx: i32, dy: i32, half_width: i32, half_height: i32) -> (r: bool)
    ensures
        r == diamond_contains_spec(dx as int, dy as int, half_width as int, half_height as int),
{
    if half_width <= 0 || half_height <= 0 {
        return false;
    }
    let ax: i128 = if dx < 0 {
        -(dx as i128)
    } else {
        dx as i128
    };
    let ay: i128 = if dy < 0 {
        -(dy as i128)
    } else {
        dy as i128
    };
    let hw = half_width as i128;
    let hh = half_height as i128;
    assert(0 <= ax * hh <= 0x8000_0000 * 0x8000_0000) by (nonlinear_arith)
        requires
            0 <= ax <= 0x8000_0000,
            0 < hh <= 0x7fff_ffff,
    ;
    assert(0 <= ay * hw <= 0x8000_0000 * 0x8000_0000) by (nonlinear_arith)
        requires
            0 <= ay <= 0x8000_0000,
            0 < hw <= 0x7fff_ffff,
    ;
    assert(0 <= hw * hh <= 0x8000_0000 * 0x8000_0000) by (nonlinear_arith)
        requires
            0 < hh <= 0x7fff_ffff,
            0 < hw <= 0x7fff_ffff,
    ;
    ax * hh + ay * hw <= hw * hh
}

/// A diamond is symmetric about its centre lines and holds its centre.
pub proof fn law_diamond_is_symmetric(dx: int, dy: int, half_width: int, half_height: int)
    ensures
        diamond_contains_spec(dx, dy, half_width, half_height) == diamond_contains_spec(-dx, dy, half_width, half_height),
        diamond_contains_spec(dx, dy, half_width, half_height) == diamond_contains_spec(dx, -dy, half_width, half_height),
        half_width > 0 && half_height > 0 ==> diamond_contains_spec(0, 0, half_width, half_height),
{
    if half_width > 0 && half_height > 0 {
        assert(0 <= half_width * half_height) by (nonlinear_arith)
            requires
                half_width > 0,
                half_height > 0,
        ;
        assert(abs(0) == 0);
        assert(0 * half_height + 0 * half_width == 0) by (nonlinear_arith);
    }
}

/// The point `along` tenths of the way from `start` to `end`, raised by
/// `rise` pixels.
pub open spec fn wall_point_spec(start: (int, int), end: (int, int), along: int, rise: int) -> (int, int) {
    (start.0 + trunc_div((end.0 - start.0) * along, 10), start.1 + trunc_div((end.1 - start.1) * along, 10) - rise)
}

pub open spec fn fits_i32(v: int) -> bool {
    i32::MIN <= v <= i32::MAX
}

/// Wall points whose arithmetic fits in `i32`.
pub open spec fn wall_point_fits(start: (int, int), end: (int, int), along: int, rise: int) -> bool {
    &&& fits_i32(end.0 - start.0)
    &&& fits_i32(end.1 - start.1)
    &&& fits_i32((end.0 - start.0) * along)
    &&& fits_i32((end.1 - start.1) * along)
    &&& fits_i32(wall_point_spec(start, end, along, rise).0)
    &&& fits_i32(start.1 + trunc_div((end.1 - start.1) * along, 10))
    &&& fits_i32(wall_point_spec(start, end, along, rise).1)
}

pub fn wall_point(start: (i32, i32), end: (i32, i32), along: i32, rise: i32) -> (r: (i32, i32))
    requires
        wall_point_fits((start.0 as int, start.1 as int), (end.0 as int, end.1 as int), along as int, rise as int),
    ensures
        (r.0 as int, r.1 as int) == wall_point_spec((start.0 as int, start.1 as int), (end.0 as int, end.1 as int), along as int, rise as int),
{
    let x = start.0 + (end.0 - start.0) * along / 10;
    let y = start.1 + (end.1 - start.1) * along / 10 - rise;
    (x, y)
}

/// The point `numerator / denominator` of the way from `start` to `end`;
/// `start` itself for an empty fraction.
pub open spec fn lerp_point_spec(start: (int, int), end: (int, int), numerator: int, denominator: int) -> (int, int) {
    if denominator == 0 {
        start
    } else {
        (
            start.0 + trunc_div((end.0 - start.0) * numerator, denominator),
            start.1 + trunc_div((end.1 - start.1) * numerator, denominator),
        )
    }
}

/// Fractions of a segment whose arithmetic fits in `i32`.
pub open spec fn lerp_fits(start: (int, int), end: (int, int), numerator: int, denominator: int) -> bool {
    denominator > 0 ==> {
        &&& numerator <= i32::MAX
        &&& denominator <= i32::MAX
        &&& fits_i32(end.0 - start.0)
        &&& fits_i32(end.1 - start.1)
        &&& fits_i32((end.0 - start.0) * numerator)
        &&& fits_i32((end.1 - start.1) * numerator)
        &&& fits_i32(lerp_point_spec(start, end, numerator, denominator).0)
        &&& fits_i32(lerp_point_spec(start, end, numerator, denominator).1)
    }
}

pub fn lerp_point(start: (i32, i32), end: (i32, i32), numerator: usize, denominator: usize) -> (r: (i32, i32))
    requires
        lerp_fits((start.0 as int, start.1 as int), (end.0 as int, end.1 as int), numerator as int, denominator as int),
    ensures
        (r.0 as int, r.1 as int) == lerp_point_spec((start.0 as int, start.1 as int), (end.0 as int, end.1 as int), numerator as int, denominator as int),
{
    if denominator == 0 {
        return start;
    }
    let numerator = numerator as i32;
    let denominator = denominator as i32;
    (
        start.0 + (end.0 - start.0) * numerator / denominator,
        start.1 + (end.1 - start.1) * numerator / denominator,
    )
}

/// A fraction of the way from a point lands on the start at zero and on the
/// end at the whole.
pub proof fn law_lerp_reaches_both_ends(start: (int, int), end: (int, int), denominator: int)
    requires
        denominator > 0,
    ensures
        lerp_point_spec(start, end, 0, denominator) == start,
        lerp_point_spec(start, end, denominator, denominator) == end,
{
    let dx = end.0 - start.0;
    let dy = end.1 - start.1;
    assert(trunc_div(dx * denominator, denominator) == dx) by (nonlinear_arith)
        requires
            denominator > 0,
    {
        if dx >= 0 {
            assert((dx * denominator) / denominator == dx);
        } else {
            assert((-(dx * denominator)) / denominator == -dx) by {
                assert(-(dx * denominator) == (-dx) * denominator);
            }
        }
    }
    assert(trunc_div(dy * denominator, denominator) == dy) by (nonlinear_arith)
        requires
            denominator > 0,
    {
        if dy >= 0 {
            assert((dy * denominator) / denominator == dy);
        } else {
            assert((-(dy * denominator)) / denominator == -dy) by {
                assert(-(dy * denominator) == (-dy) * denominator);
            }
        }
    }
}

/// The cell holding a pixel coordinate, rounding down (negative pixels fall
/// in negative cells); a zero scale counts as one.
pub open spec fn physical_to_cell_spec(value: int, scale: int) -> int {
    value / (if scale < 1 {
        1
    } else {
        scale
    })
}

pub fn physical_to_cell(value: i32, scale: usize) -> (r: i32)
    requires
        scale <= i32::MAX,
    ensures
        r as int == physical_to_cell_spec(value as int, scale as int),
        scale >= 1 ==> r * scale <= value < (r + 1) * scale,
{
    let s: i32 = if scale < 1 {
        1
    } else {
        scale as i32
    };
    let q = value / s;
    let m = value % s;
    proof {
        assert(value as int == q * s + m) by (nonlinear_arith)
            requires
                s > 0,
                q == (if value >= 0 { value as int / s as int } else { -((-value) as int / s as int) }),
                m == (if value >= 0 { value as int % s as int } else { -((-value) as int % s as int) }),
        ;
    }
    proof {
        if m < 0 {
            assert(s >= 2);
            assert(q > i32::MIN) by (nonlinear_arith)
                requires
                    s >= 2,
                    value as int == q * s + m,
                    -s < m < 0,
                    value >= i32::MIN,
            ;
        }
    }
    let r = if m < 0 {
        q - 1
    } else {
        q
    };
    proof {
        let v = value as int;
        let si = s as int;
        assert(0 <= v - r * si < si) by (nonlinear_arith)
            requires
                v == q * si + m,
                si > 0,
                -si < m < si,
                r == (if m < 0 { q - 1 } else { q as int }),
        ;
        assert(r == v / si) by (nonlinear_arith)
            requires
                0 <= v - r * si < si,
                si > 0,
        ;
        if scale >= 1 {
            assert(si == scale);
            assert(r * si <= v < (r + 1) * si) by (nonlinear_arith)
                requires
                    0 <= v - r * si < si,
            ;
        }
    }
    r
}

// ---------------------------------------------------------------------------
// The isometric grid
// ---------------------------------------------------------------------------

/// The tile grid of an isometric room, in canvas pixels.
#[derive(Debug, Clone, Copy)]
pub struct IsoGrid {
    pub columns: usize,
    pub rows: usize,
    pub tile_width: i32,
    pub tile_height: i32,
    pub origin_x: i32,
    pub origin_y: i32,
    pub encoding: PixelEncoding,
    pub pixels_per_cell: (usize, usize),
    pub desk_tiles: [(usize, usize); 10],
    pub wall_height: i32,
    pub animation_now: Option<i64>,
}

/// The tiles desks take, in seating order, on the full room grid.
pub open spec fn iso_desk_tiles_spec() -> Seq<(usize, usize)> {
    seq![(2, 0), (3, 2), (4, 0), (0, 2), (2, 3), (0, 1), (1, 3), (2, 1), (2, 2), (1, 2)]
}

pub fn iso_desk_tiles() -> (r: [(usize, usize); 10])
    ensures
        r@ == iso_desk_tiles_spec(),
{
    let r = [(2, 0), (3, 2), (4, 0), (0, 2), (2, 3), (0, 1), (1, 3), (2, 1), (2, 2), (1, 2)];
    assert(r@ =~= iso_desk_tiles_spec());
    r
}

/// Grids whose pixel arithmetic stays far inside `i32`.
pub open spec fn grid_in_range(g: IsoGrid) -> bool {
    &&& 1 <= g.columns <= 1000
    &&& 1 <= g.rows <= 1000
    &&& 1 <= g.tile_width <= 1_000_000
    &&& 1 <= g.tile_height
    &&& (g.columns + g.rows) * g.tile_height <= 3_000_000
    &&& -300_000_000 <= g.origin_x <= 300_000_000
    &&& -300_000_000 <= g.origin_y <= 300_000_000
}

/// The measures of a room grid: tiles 1.8 times as wide as the floor's
/// share of the canvas (at least five cells), as tall as the cell shape
/// makes them look square but fitting the height left under the title band
/// and wall, and the whole room centred below the title band.
pub open spec fn iso_grid_measures(width: int, height: int, columns: int, rows: int, px: int, py: int) -> (int, int, int, int, int) {
    let c = max(columns, 1);
    let r = max(rows, 1);
    let span = max(c + r, 2);
    let title_band = py * 5;
    let wall = min(max(height / 5, py * 4), py * 12);
    let available = sat_sub(height, title_band + wall + py * 2);
    let tile_width = max(width * 18 / (span * 10), px * 5);
    let ideal = tile_width * py / max(px * 5, 1);
    let tile_height = max(min(ideal, available * 2 / span), py * 2);
    let room_height = wall + span * tile_height / 2;
    let origin_y = title_band + max(height - title_band - room_height, 0) / 2 + wall + tile_height / 2;
    let origin_x = width / 2 - trunc_div((c - r) * tile_width, 4);
    (tile_width, tile_height, origin_x, origin_y, wall)
}

/// The grid `make_grid_with_encoding` makes, with the given desk seats.
pub open spec fn iso_grid_spec(
    width: int,
    height: int,
    columns: int,
    rows: int,
    encoding: PixelEncoding,
    pixels_per_cell: (usize, usize),
    desk_tiles: [(usize, usize); 10],
) -> IsoGrid {
    let m = iso_grid_measures(width, height, columns, rows, pixels_per_cell.0 as int, pixels_per_cell.1 as int);
    IsoGrid {
        columns: max(columns, 1) as usize,
        rows: max(rows, 1) as usize,
        tile_width: m.0 as i32,
        tile_height: m.1 as i32,
        origin_x: m.2 as i32,
        origin_y: m.3 as i32,
        encoding,
        pixels_per_cell,
        desk_tiles,
        wall_height: m.4 as i32,
        animation_now: None,
    }
}

fn tile_size(width: usize, span: usize, available: usize, px: usize, py: usize) -> (r: (usize, usize))
    requires
        width <= 0xffff * 16,
        available <= 0xffff * 16,
        2 <= span <= 2000,
        1 <= px <= 16,
        1 <= py <= 16,
    ensures
        r.0 as int == max(width * 18 / (span * 10), px * 5),
        r.1 as int == max(min(r.0 * py / max(px * 5, 1), available * 2 / span as int), py * 2),
        1 <= r.0 <= 1_000_000,
        1 <= r.1,
        span * r.1 <= 3_000_000,
{
    let share = width * 18 / (span * 10);
    assert(share <= 0xffff * 16 * 18 / 20) by (nonlinear_arith)
        requires
            share == (width * 18) as int / (span * 10) as int,
            span >= 2,
            width <= 0xffff * 16,
    ;
    let tile_width: usize = if share > px * 5 {
        share
    } else {
        px * 5
    };
    assert(tile_width * py <= 16_000_000) by (nonlinear_arith)
        requires
            tile_width <= 1_000_000,
            py <= 16,
    ;
    let ideal = tile_width * py / (px * 5);
    let fit = available * 2 / span;
    let low = if ideal < fit {
        ideal
    } else {
        fit
    };
    let tile_height: usize = if low > py * 2 {
        low
    } else {
        py * 2
    };
    assert(span * tile_height <= 3_000_000) by (nonlinear_arith)
        requires
            tile_height == py * 2 || tile_height <= fit,
            fit == (available * 2) as int / span as int,
            available <= 0xffff * 16,
            2 <= span <= 2000,
            py <= 16,
    ;
    (tile_width, tile_height)
}

fn grid_origin(
    width: usize,
    height: usize,
    c: usize,
    r: usize,
    span: usize,
    tile_width: usize,
    tile_height: usize,
    wall: usize,
    title_band: usize,
) -> (o: (i32, i32))
    requires
        width <= 0xffff * 16,
        height <= 0xffff * 16,
        1 <= c <= 1000,
        1 <= r <= 1000,
        2 <= span <= 2000,
        1 <= tile_width <= 1_000_000,
        span * tile_height <= 3_000_000,
        wall <= 192,
        title_band <= 80,
    ensures
        o.0 as int == width / 2 - trunc_div((c - r) * tile_width, 4),
        o.1 as int == title_band + max(height - title_band - (wall + span * tile_height / 2), 0) / 2 + wall + tile_height / 2,
        -300_000_000 <= o.0 <= 300_000_000,
        -300_000_000 <= o.1 <= 300_000_000,
{
    assert(tile_height <= 1_500_000) by (nonlinear_arith)
        requires
            span * tile_height <= 3_000_000,
            span >= 2,
    ;
    let floor_depth = span * tile_height / 2;
    let room_height = wall + floor_depth;
    let free: usize = if height > title_band + room_height {
        height - title_band - room_height
    } else {
        0
    };
    let origin_y = (title_band + free / 2 + wall + tile_height / 2) as i32;
    assert(-1_000_000_000 <= (c - r) * tile_width <= 1_000_000_000) by (nonlinear_arith)
        requires
            1 <= c <= 1000,
            1 <= r <= 1000,
            tile_width <= 1_000_000,
    ;
    let skew: i64 = (c as i64 - r as i64) * tile_width as i64;
    let origin_x = (width / 2) as i32 - (skew / 4) as i32;
    (origin_x, origin_y)
}

/// The grid of a room of `columns` by `rows` tiles on a canvas of `width`
/// by `height` pixels.
pub fn make_grid_with_encoding(
    width: usize,
    height: usize,
    columns: usize,
    rows: usize,
    encoding: PixelEncoding,
    pixels_per_cell: (usize, usize),
) -> (g: IsoGrid)
    requires
        width <= 0xffff * 16,
        height <= 0xffff * 16,
        columns <= 1000,
        rows <= 1000,
        1 <= pixels_per_cell.0 <= 16,
        1 <= pixels_per_cell.1 <= 16,
    ensures
        g == iso_grid_spec(width as int, height as int, columns as int, rows as int, encoding, pixels_per_cell, g.desk_tiles),
        g.desk_tiles@ == iso_desk_tiles_spec(),
        grid_in_range(g),
{
    let (px, py) = pixels_per_cell;
    let c: usize = if columns < 1 {
        1
    } else {
        columns
    };
    let r: usize = if rows < 1 {
        1
    } else {
        rows
    };
    let span: usize = if c + r < 2 {
        2
    } else {
        c + r
    };
    let title_band = py * 5;
    let fifth = if height / 5 > py * 4 {
        height / 5
    } else {
        py * 4
    };
    let wall: usize = if fifth < py * 12 {
        fifth
    } else {
        py * 12
    };
    let available = height.saturating_sub(title_band + wall + py * 2);
    let (tile_width, tile_height) = tile_size(width, span, available, px, py);
    let (origin_x, origin_y) = grid_origin(width, height, c, r, span, tile_width, tile_height, wall, title_band);
    IsoGrid {
        columns: c,
        rows: r,
        tile_width: tile_width as i32,
        tile_height: tile_height as i32,
        origin_x,
        origin_y,
        encoding,
        pixels_per_cell,
        desk_tiles: iso_desk_tiles(),
        wall_height: wall as i32,
        animation_now: None,
    }
}

/// The centre of a tile: columns run down to the right, rows down to the left.
pub open spec fn tile_center(g: IsoGrid, tile_x: int, tile_y: int) -> (int, int) {
    (
        g.origin_x + trunc_div((tile_x - tile_y) * g.tile_width, 2),
        g.origin_y + trunc_div((tile_x + tile_y) * g.tile_height, 2),
    )
}

impl IsoGrid {
    pub fn center(self, tile_x: usize, tile_y: usize) -> (r: (i32, i32))
        requires
            grid_in_range(self),
            tile_x < self.columns,
            tile_y < self.rows,
        ensures
            (r.0 as int, r.1 as int) == tile_center(self, tile_x as int, tile_y as int),
            -900_000_000 <= r.0 <= 900_000_000,
            -400_000_000 <= r.1 <= 400_000_000,
    {
        assert(-1_000_000_000 <= (tile_x - tile_y) * self.tile_width <= 1_000_000_000) by (nonlinear_arith)
            requires
                tile_x < self.columns <= 1000,
                tile_y < self.rows <= 1000,
                1 <= self.tile_width <= 1_000_000,
        ;
        assert(0 <= (tile_x + tile_y) * self.tile_height <= 3_000_000) by (nonlinear_arith)
            requires
                tile_x < self.columns,
                tile_y < self.rows,
                1 <= self.tile_height,
                (self.columns + self.rows) * self.tile_height <= 3_000_000,
        ;
        let dx = (tile_x as i32 - tile_y as i32) * self.tile_width / 2;
        let dy = (tile_x as i32 + tile_y as i32) * self.tile_height / 2;
        (self.origin_x + dx, self.origin_y + dy)
    }

    /// The tile of desk `slot`: its seat on the room plan, or the next tile
    /// in reading order past the plan, kept on the grid.
    pub open spec fn desk_tile_spec(self, slot: int) -> (usize, usize) {
        let (x, y) = if 0 <= slot < 10 {
            self.desk_tiles@[slot]
        } else {
            ((slot % self.columns as int) as usize, (slot / self.columns as int) as usize)
        };
        (min(x as int, self.columns - 1) as usize, min(y as int, self.rows - 1) as usize)
    }

    pub fn desk_tile(self, slot: usize) -> (r: (usize, usize))
        requires
            self.columns >= 1,
            self.rows >= 1,
        ensures
            r == self.desk_tile_spec(slot as int),
            r.0 < self.columns,
            r.1 < self.rows,
    {
        let (x, y) = if slot < 10 {
            self.desk_tiles[slot]
        } else {
            (slot % self.columns, slot / self.columns)
        };
        (
            if x < self.columns - 1 {
                x
            } else {
                self.columns - 1
            },
            if y < self.rows - 1 {
                y
            } else {
                self.rows - 1
            },
        )
    }
}


// ---------------------------------------------------------------------------
// Room measures derived from the grid
// ---------------------------------------------------------------------------

/// Half of `value` cell rows in pixels, rounded up; saturating.
pub open spec fn scale_half_height_spec(g: IsoGrid, value: int) -> int {
    let product = if value * g.pixels_per_cell.1 > usize::MAX {
        usize::MAX as int
    } else {
        value * g.pixels_per_cell.1
    };
    let bumped = if product + 1 > usize::MAX {
        usize::MAX as int
    } else {
        product + 1
    };
    bumped / 2
}

impl IsoGrid {
    pub fn scale_half_height(self, value: usize) -> (r: usize)
        ensures
            r as int == scale_half_height_spec(self, value as int),
    {
        let product = match value.checked_mul(self.pixels_per_cell.1) {
            Some(p) => p,
            None => usize::MAX,
        };
        product.saturating_add(1) / 2
    }
}

/// The four corners of the floor plate: back, right, front and left, each
/// half a tile beyond the centre of the corner tile.
pub open spec fn floor_corners_spec(g: IsoGrid) -> Seq<(int, int)> {
    let hw = g.tile_width / 2;
    let hh = g.tile_height / 2;
    let back = tile_center(g, 0, 0);
    let right = tile_center(g, g.columns - 1, 0);
    let front = tile_center(g, g.columns - 1, g.rows - 1);
    let left = tile_center(g, 0, g.rows - 1);
    seq![(back.0, back.1 - hh), (right.0 + hw, right.1), (front.0, front.1 + hh), (left.0 - hw, left.1)]
}

/// The floor's corners as canvas points.
pub open spec fn floor_points(g: IsoGrid) -> Seq<(i32, i32)> {
    let c = floor_corners_spec(g);
    seq![
        (c[0].0 as i32, c[0].1 as i32),
        (c[1].0 as i32, c[1].1 as i32),
        (c[2].0 as i32, c[2].1 as i32),
        (c[3].0 as i32, c[3].1 as i32),
    ]
}

pub fn floor_corners(grid: IsoGrid) -> (r: [(i32, i32); 4])
    requires
        grid_in_range(grid),
    ensures
        r@ == floor_points(grid),
        r@.len() == 4,
        forall|i: int| 0 <= i < 4 ==> (#[trigger] r@[i].0 as int, r@[i].1 as int) == floor_corners_spec(grid)[i],
        forall|i: int| 0 <= i < 4 ==> -901_000_000 <= #[trigger] r@[i].0 <= 901_000_000 && -401_000_000 <= r@[i].1 <= 401_000_000,
{
    let half_width = grid.tile_width / 2;
    let half_height = grid.tile_height / 2;
    assert(grid.tile_height <= 1_500_000) by (nonlinear_arith)
        requires
            (grid.columns + grid.rows) * grid.tile_height <= 3_000_000,
            grid.columns + grid.rows >= 2,
    ;
    let back = grid.center(0, 0);
    let right = grid.center(grid.columns - 1, 0);
    let front = grid.center(grid.columns - 1, grid.rows - 1);
    let left = grid.center(0, grid.rows - 1);
    let r = [
        (back.0, back.1 - half_height),
        (right.0 + half_width, right.1),
        (front.0, front.1 + half_height),
        (left.0 - half_width, left.1),
    ];
    assert forall|i: int| 0 <= i < 4 implies (#[trigger] r@[i].0 as int, r@[i].1 as int) == floor_corners_spec(grid)[i] by {
        if i == 0 {
        } else if i == 1 {
        } else if i == 2 {
        } else {
        }
    }
    assert(r@ =~= floor_points(grid));
    r
}

/// Where the marker under a worker sits, in terminal cells: the middle of
/// the near edge of its desk's tile.
pub open spec fn worker_marker_position_spec(g: IsoGrid, slot: int) -> (int, int) {
    let tile = g.desk_tile_spec(slot);
    let c = tile_center(g, tile.0 as int, tile.1 as int);
    (
        physical_to_cell_spec(c.0, density_spec(g.encoding).0 as int),
        physical_to_cell_spec(c.1 + g.tile_height / 2, density_spec(g.encoding).1 as int),
    )
}

pub fn worker_marker_position(grid: IsoGrid, slot: usize) -> (r: (i32, i32))
    requires
        grid_in_range(grid),
    ensures
        (r.0 as int, r.1 as int) == worker_marker_position_spec(grid, slot as int),
{
    let tile = grid.desk_tile(slot);
    let center = grid.center(tile.0, tile.1);
    assert(grid.tile_height <= 1_500_000) by (nonlinear_arith)
        requires
            (grid.columns + grid.rows) * grid.tile_height <= 3_000_000,
            grid.columns + grid.rows >= 2,
    ;
    let (dx, dy) = density(grid.encoding);
    (physical_to_cell(center.0, dx), physical_to_cell(center.1 + grid.tile_height / 2, dy))
}

/// Where a worker's name plate is anchored, in terminal cells: under the
/// middle of its desk, half a cell row below the desk's foot.
pub open spec fn worker_plate_position_spec(g: IsoGrid, slot: int) -> (int, int) {
    let tile = g.desk_tile_spec(slot);
    let c = tile_center(g, tile.0 as int, tile.1 as int);
    let desk = desk_bounds_spec(g, slot);
    let plate_y = desk.1 + desk.3 + scale_half_height_spec(g, 1);
    (
        physical_to_cell_spec(c.0, g.pixels_per_cell.0 as int),
        physical_to_cell_spec(plate_y, g.pixels_per_cell.1 as int),
    )
}

pub fn worker_plate_position(grid: IsoGrid, slot: usize) -> (r: (i32, i32))
    requires
        grid_in_range(grid),
        1 <= grid.pixels_per_cell.0 <= 16,
        1 <= grid.pixels_per_cell.1 <= 16,
    ensures
        (r.0 as int, r.1 as int) == worker_plate_position_spec(grid, slot as int),
{
    let tile = grid.desk_tile(slot);
    let center = grid.center(tile.0, tile.1);
    let desk = desk_bounds(grid, RoomScale::Floor, slot);
    let half = grid.scale_half_height(1);
    let plate_y = desk.1 + desk.3 as i32 + half as i32;
    (physical_to_cell(center.0, grid.pixels_per_cell.0), physical_to_cell(plate_y, grid.pixels_per_cell.1))
}

/// A grid of half-block pixels, as the room is planned in tests and
/// previews.
pub fn make_grid(width: usize, height: usize, columns: usize, rows: usize) -> (g: IsoGrid)
    requires
        width <= 0xffff * 16,
        height <= 0xffff * 16,
        columns <= 1000,
        rows <= 1000,
    ensures
        g == iso_grid_spec(width as int, height as int, columns as int, rows as int, PixelEncoding::HalfBlocks, (1, 2), g.desk_tiles),
        g.desk_tiles@ == iso_desk_tiles_spec(),
        grid_in_range(g),
{
    make_grid_with_encoding(width, height, columns, rows, PixelEncoding::HalfBlocks, (1, 2))
}

// ---------------------------------------------------------------------------
// Where the manager stands
// ---------------------------------------------------------------------------

/// Tiles apart along the grid's axes.
pub open spec fn tile_distance(a: (int, int), b: (int, int)) -> int {
    abs(a.0 - b.0) + abs(a.1 - b.1)
}

/// The tile of position `k` in reading order.
pub open spec fn tile_at(g: IsoGrid, k: int) -> (int, int) {
    (k % g.columns as int, k / g.columns as int)
}

/// Whether a desk of one of the first `count` workers stands on `tile`.
pub open spec fn occupied(g: IsoGrid, count: int, tile: (int, int)) -> bool {
    exists|s: int| 0 <= s < count && #[trigger] g.desk_tile_spec(s) == (tile.0 as usize, tile.1 as usize)
}

/// The tile beside the blocked worker's desk, towards the front row.
pub open spec fn preferred_tile(g: IsoGrid, blocked_slot: int) -> (int, int) {
    let blocked = g.desk_tile_spec(blocked_slot);
    (min(blocked.0 + 1, g.columns - 1), g.rows - 1)
}

/// How far a tile is from where the manager wants to stand, then from the
/// blocked desk.
pub open spec fn standing_key(g: IsoGrid, blocked_slot: int, tile: (int, int)) -> (int, int) {
    let blocked = g.desk_tile_spec(blocked_slot);
    (tile_distance(tile, preferred_tile(g, blocked_slot)), tile_distance(tile, (blocked.0 as int, blocked.1 as int)))
}

pub open spec fn key_less(a: (int, int), b: (int, int)) -> bool {
    a.0 < b.0 || (a.0 == b.0 && a.1 < b.1)
}

/// The first free tile with the smallest standing key among the first `n`
/// tiles in reading order.
pub open spec fn best_standing(g: IsoGrid, count: int, blocked_slot: int, n: nat) -> Option<int>
    decreases n,
{
    if n == 0 {
        None
    } else {
        let k = n - 1;
        let prev = best_standing(g, count, blocked_slot, (n - 1) as nat);
        if occupied(g, count, tile_at(g, k)) {
            prev
        } else {
            match prev {
                None => Some(k),
                Some(b) => if key_less(
                    standing_key(g, blocked_slot, tile_at(g, k)),
                    standing_key(g, blocked_slot, tile_at(g, b)),
                ) {
                    Some(k)
                } else {
                    prev
                },
            }
        }
    }
}

/// Where the manager goes to help the blocked worker: the free tile closest
/// to the spot beside its desk (then closest to the desk), the first in
/// reading order on ties; the desk itself when every tile is taken.
pub open spec fn manager_tile_spec(g: IsoGrid, count: int, blocked_slot: int) -> (int, int) {
    match best_standing(g, count, blocked_slot, (g.rows * g.columns) as nat) {
        Some(k) => tile_at(g, k),
        None => {
            let blocked = g.desk_tile_spec(blocked_slot);
            (blocked.0 as int, blocked.1 as int)
        },
    }
}

fn abs_diff(a: usize, b: usize) -> (r: usize)
    ensures
        r == abs(a - b),
{
    if a > b {
        a - b
    } else {
        b - a
    }
}

pub fn manager_tile(grid: IsoGrid, worker_count: usize, blocked_slot: usize) -> (r: (usize, usize))
    requires
        grid_in_range(grid),
    ensures
        (r.0 as int, r.1 as int) == manager_tile_spec(grid, worker_count as int, blocked_slot as int),
        r.0 < grid.columns,
        r.1 < grid.rows,
{
    let blocked = grid.desk_tile(blocked_slot);
    let preferred_x = if blocked.0 + 1 < grid.columns - 1 {
        blocked.0 + 1
    } else {
        grid.columns - 1
    };
    let preferred = (preferred_x, grid.rows - 1);
    let mut desks: Vec<(usize, usize)> = Vec::new();
    let mut s: usize = 0;
    while s < worker_count
        invariant
            grid_in_range(grid),
            s <= worker_count,
            desks@.len() == s,
            forall|j: int| 0 <= j < s ==> #[trigger] desks@[j] == grid.desk_tile_spec(j),
        decreases worker_count - s,
    {
        desks.push(grid.desk_tile(s));
        s += 1;
    }
    let ghost n = (grid.rows * grid.columns) as nat;
    let mut best: Option<(usize, usize, usize, usize, usize)> = None;
    let mut y: usize = 0;
    while y < grid.rows
        invariant
            grid_in_range(grid),
            y <= grid.rows,
            desks@.len() == worker_count,
            forall|j: int| 0 <= j < worker_count ==> #[trigger] desks@[j] == grid.desk_tile_spec(j),
            blocked == grid.desk_tile_spec(blocked_slot as int),
            (preferred.0 as int, preferred.1 as int) == preferred_tile(grid, blocked_slot as int),
            match best {
                None => best_standing(grid, worker_count as int, blocked_slot as int, (y * grid.columns) as nat) is None,
                Some((bx, by, k, d1, d2)) => {
                    &&& best_standing(grid, worker_count as int, blocked_slot as int, (y * grid.columns) as nat) == Some(k as int)
                    &&& (bx as int, by as int) == tile_at(grid, k as int)
                    &&& bx < grid.columns && by < grid.rows
                    &&& (d1 as int, d2 as int) == standing_key(grid, blocked_slot as int, tile_at(grid, k as int))
                },
            },
        decreases grid.rows - y,
    {
        let mut x: usize = 0;
        while x < grid.columns
            invariant
                grid_in_range(grid),
                y < grid.rows,
                x <= grid.columns,
                desks@.len() == worker_count,
                forall|j: int| 0 <= j < worker_count ==> #[trigger] desks@[j] == grid.desk_tile_spec(j),
                blocked == grid.desk_tile_spec(blocked_slot as int),
                (preferred.0 as int, preferred.1 as int) == preferred_tile(grid, blocked_slot as int),
                match best {
                    None => best_standing(grid, worker_count as int, blocked_slot as int, (y * grid.columns + x) as nat) is None,
                    Some((bx, by, k, d1, d2)) => {
                        &&& best_standing(grid, worker_count as int, blocked_slot as int, (y * grid.columns + x) as nat) == Some(k as int)
                        &&& (bx as int, by as int) == tile_at(grid, k as int)
                        &&& bx < grid.columns && by < grid.rows
                        &&& (d1 as int, d2 as int) == standing_key(grid, blocked_slot as int, tile_at(grid, k as int))
                    },
                },
            decreases grid.columns - x,
        {
            assert(y * grid.columns + x < 1_000_001) by (nonlinear_arith)
                requires
                    y < grid.rows <= 1000,
                    x < grid.columns <= 1000,
            ;
            let k = y * grid.columns + x;
            proof {
                vstd::arithmetic::div_mod::lemma_fundamental_div_mod_converse(
                    k as int,
                    grid.columns as int,
                    y as int,
                    x as int,
                );
            }
            let mut taken = false;
            let mut j: usize = 0;
            while j < worker_count
                invariant
                    j <= worker_count,
                    desks@.len() == worker_count,
                    forall|q: int| 0 <= q < worker_count ==> #[trigger] desks@[q] == grid.desk_tile_spec(q),
                    taken == exists|q: int| 0 <= q < j && #[trigger] grid.desk_tile_spec(q) == (x, y),
                decreases worker_count - j,
            {
                if desks[j].0 == x && desks[j].1 == y {
                    taken = true;
                }
                j += 1;
            }
            assert(taken == occupied(grid, worker_count as int, tile_at(grid, k as int)));
            if !taken {
                let d1 = abs_diff(x, preferred.0) + abs_diff(y, preferred.1);
                let d2 = abs_diff(x, blocked.0) + abs_diff(y, blocked.1);
                match best {
                    None => {
                        best = Some((x, y, k, d1, d2));
                    },
                    Some((_, _, _, b1, b2)) => {
                        if d1 < b1 || (d1 == b1 && d2 < b2) {
                            best = Some((x, y, k, d1, d2));
                        }
                    },
                }
            }
            x += 1;
        }
        assert(y * grid.columns + grid.columns == (y + 1) * grid.columns) by (nonlinear_arith);
        y += 1;
    }
    match best {
        Some((bx, by, _, _, _)) => (bx, by),
        None => blocked,
    }
}

/// A tile among the first `n` that is the standing place, or none when all
/// of them are taken.
proof fn lemma_best_standing(g: IsoGrid, count: int, blocked_slot: int, n: nat)
    ensures
        match best_standing(g, count, blocked_slot, n) {
            None => forall|k: int| 0 <= k < n ==> occupied(g, count, #[trigger] tile_at(g, k)),
            Some(b) => {
                &&& 0 <= b < n
                &&& !occupied(g, count, tile_at(g, b))
                &&& forall|k: int|
                    0 <= k < n && !occupied(g, count, #[trigger] tile_at(g, k)) ==> !key_less(
                        standing_key(g, blocked_slot, tile_at(g, k)),
                        standing_key(g, blocked_slot, tile_at(g, b)),
                    )
            },
        },
    decreases n,
{
    if n > 0 {
        lemma_best_standing(g, count, blocked_slot, (n - 1) as nat);
    }
}

/// The manager never stands on a worker's desk while a tile is free, and
/// no free tile is closer to the spot beside the blocked desk.
pub proof fn law_manager_takes_the_closest_free_tile(g: IsoGrid, count: int, blocked_slot: int, k: int)
    requires
        grid_in_range(g),
        0 <= k < g.rows * g.columns,
        !occupied(g, count, tile_at(g, k)),
    ensures
        !occupied(g, count, manager_tile_spec(g, count, blocked_slot)),
        !key_less(
            standing_key(g, blocked_slot, tile_at(g, k)),
            standing_key(g, blocked_slot, manager_tile_spec(g, count, blocked_slot)),
        ),
{
    lemma_best_standing(g, count, blocked_slot, (g.rows * g.columns) as nat);
}

// ---------------------------------------------------------------------------
// Room grids, sizes and positions
// ---------------------------------------------------------------------------

/// The desk seats of a room for `count` workers: one desk in the middle of
/// a small room, three around a table, else the full plan.
pub open spec fn room_desk_tiles(count: int) -> Seq<(usize, usize)> {
    if count <= 1 {
        iso_desk_tiles_spec().update(0, (2usize, 1usize))
    } else if count <= 3 {
        iso_desk_tiles_spec().update(0, (1usize, 0usize)).update(1, (3usize, 0usize)).update(2, (2usize, 2usize))
    } else {
        iso_desk_tiles_spec()
    }
}

/// The room size for `count` workers: 4 by 3 tiles for one, 5 by 4 for up
/// to three, else 6 by 4.
pub open spec fn room_size(count: int) -> (int, int) {
    if count <= 1 {
        (4, 3)
    } else if count <= 3 {
        (5, 4)
    } else {
        (6, 4)
    }
}

/// The grid of an isometric room for `count` workers on this canvas.
pub fn make_room_grid(canvas: &Canvas, count: usize) -> (g: IsoGrid)
    requires
        canvas.wf(),
    ensures
        g == iso_grid_spec(
            canvas.geometry_spec().width as int,
            canvas.geometry_spec().height as int,
            room_size(count as int).0,
            room_size(count as int).1,
            canvas.geometry_spec().encoding,
            (canvas.geometry_spec().cell_width, canvas.geometry_spec().cell_height),
            g.desk_tiles,
        ),
        g.desk_tiles@ == room_desk_tiles(count as int),
        grid_in_range(g),
{
    let geometry = canvas.geometry();
    let (columns, rows): (usize, usize) = if count <= 1 {
        (4, 3)
    } else if count <= 3 {
        (5, 4)
    } else {
        (6, 4)
    };
    let grid = make_grid_with_encoding(
        geometry.width,
        geometry.height,
        columns,
        rows,
        geometry.encoding,
        (geometry.cell_width, geometry.cell_height),
    );
    let desk_tiles: [(usize, usize); 10] = if count <= 1 {
        [(2, 1), (3, 2), (4, 0), (0, 2), (2, 3), (0, 1), (1, 3), (2, 1), (2, 2), (1, 2)]
    } else if count <= 3 {
        [(1, 0), (3, 0), (2, 2), (0, 2), (2, 3), (0, 1), (1, 3), (2, 1), (2, 2), (1, 2)]
    } else {
        iso_desk_tiles()
    };
    assert(desk_tiles@ =~= room_desk_tiles(count as int));
    IsoGrid { desk_tiles, ..grid }
}

fn at_least(value: usize, floor: usize) -> (r: usize)
    ensures
        r == max(value as int, floor as int),
{
    if value > floor {
        value
    } else {
        floor
    }
}

/// The scale at which room furniture is drawn.
#[derive(Debug, Clone, Copy, PartialEq, Eq, Structural)]
pub enum RoomScale {
    Floor,
}

/// A worker's figure on a grid: the largest that fits 9/20 of a tile
/// (seven pixels at least) and two tile heights (ten pixels at least).
pub open spec fn worker_size_spec(g: IsoGrid) -> (nat, nat) {
    figure_size(
        g.encoding,
        g.pixels_per_cell,
        max(g.tile_width * 9 / 20, 7) as nat,
        max(g.tile_height * 2, 10) as nat,
    )
}

/// A desk: twice a worker's width, within 4/5 of a tile and at least five
/// pixels; a third of a worker's height plus a cell row, at least three.
pub open spec fn desk_size_spec(g: IsoGrid) -> (int, int) {
    let (w, h) = worker_size_spec(g);
    (max(min((w * 2) as int, g.tile_width * 4 / 5), 5), max((h / 3) as int + g.pixels_per_cell.1, 3))
}

impl RoomScale {
    pub fn worker_size(self, grid: IsoGrid) -> (r: (usize, usize))
        requires
            grid_in_range(grid),
        ensures
            (r.0 as nat, r.1 as nat) == worker_size_spec(grid),
            r.0 <= 450_000,
            r.1 <= 3_000_000,
    {
        let w = if grid.tile_width * 9 / 20 > 7 {
            grid.tile_width * 9 / 20
        } else {
            7
        };
        assert(grid.tile_height <= 1_500_000) by (nonlinear_arith)
            requires
                (grid.columns + grid.rows) * grid.tile_height <= 3_000_000,
                grid.columns + grid.rows >= 2,
                grid.tile_height >= 1,
        ;
        let h = if grid.tile_height * 2 > 10 {
            grid.tile_height * 2
        } else {
            10
        };
        figure_dimensions(grid.encoding, grid.pixels_per_cell, w as usize, h as usize)
    }

    pub fn desk_size(self, grid: IsoGrid) -> (r: (usize, usize))
        requires
            grid_in_range(grid),
            grid.pixels_per_cell.1 <= 16,
        ensures
            (r.0 as int, r.1 as int) == desk_size_spec(grid),
            r.0 <= 900_000,
            r.1 <= 1_000_020,
    {
        let (width, height) = self.worker_size(grid);
        let wide = if width * 2 < grid.tile_width as usize * 4 / 5 {
            width * 2
        } else {
            grid.tile_width as usize * 4 / 5
        };
        (
            if wide > 5 {
                wide
            } else {
                5
            },
            if height / 3 + grid.pixels_per_cell.1 > 3 {
                height / 3 + grid.pixels_per_cell.1
            } else {
                3
            },
        )
    }

    /// A desk monitor: two thirds of a worker's width and a quarter of its
    /// height, four pixels at least each way.
    pub fn monitor_size(self, grid: IsoGrid) -> (r: (usize, usize))
        requires
            grid_in_range(grid),
        ensures
            r.0 as int == max((worker_size_spec(grid).0 * 2 / 3) as int, 4),
            r.1 as int == max((worker_size_spec(grid).1 / 4) as int, 4),
    {
        let (width, height) = self.worker_size(grid);
        (at_least(width * 2 / 3, 4), at_least(height / 4, 4))
    }

    /// A potted plant: three quarters of a worker's width and four fifths
    /// of its height, at least four by five pixels.
    pub fn plant_size(self, grid: IsoGrid) -> (r: (usize, usize))
        requires
            grid_in_range(grid),
        ensures
            r.0 as int == max((worker_size_spec(grid).0 * 3 / 4) as int, 4),
            r.1 as int == max((worker_size_spec(grid).1 * 4 / 5) as int, 5),
    {
        let (width, height) = self.worker_size(grid);
        (at_least(width * 3 / 4, 4), at_least(height * 4 / 5, 5))
    }

    /// A water cooler: two thirds of a worker's width and three quarters of
    /// its height, at least four by five pixels.
    pub fn cooler_size(self, grid: IsoGrid) -> (r: (usize, usize))
        requires
            grid_in_range(grid),
        ensures
            r.0 as int == max((worker_size_spec(grid).0 * 2 / 3) as int, 4),
            r.1 as int == max((worker_size_spec(grid).1 * 3 / 4) as int, 5),
    {
        let (width, height) = self.worker_size(grid);
        (at_least(width * 2 / 3, 4), at_least(height * 3 / 4, 5))
    }

    pub fn manager_size(self, grid: IsoGrid) -> (r: (usize, usize))
        requires
            grid_in_range(grid),
        ensures
            (r.0 as nat, r.1 as nat) == worker_size_spec(grid),
            r.0 <= 450_000,
            r.1 <= 3_000_000,
    {
        self.worker_size(grid)
    }
}

/// Where a desk is drawn: centred on its tile, its top a sixth of a
/// worker's height above the tile centre. `(x, y, width, height)`.
pub open spec fn desk_bounds_spec(g: IsoGrid, slot: int) -> (int, int, int, int) {
    let tile = g.desk_tile_spec(slot);
    let (cx, cy) = tile_center(g, tile.0 as int, tile.1 as int);
    let (w, h) = desk_size_spec(g);
    (cx - trunc_div(w, 2), cy - trunc_div(worker_size_spec(g).1 as int, 6), w, h)
}

pub fn desk_bounds(grid: IsoGrid, scale: RoomScale, slot: usize) -> (r: (i32, i32, usize, usize))
    requires
        grid_in_range(grid),
        grid.pixels_per_cell.1 <= 16,
    ensures
        (r.0 as int, r.1 as int, r.2 as int, r.3 as int) == desk_bounds_spec(grid, slot as int),
        -401_000_000 <= r.1 <= 400_000_000,
        r.3 <= 1_000_020,
{
    let tile = grid.desk_tile(slot);
    let (center_x, center_y) = grid.center(tile.0, tile.1);
    let (width, height) = scale.desk_size(grid);
    let worker_height = scale.worker_size(grid).1;
    (center_x - width as i32 / 2, center_y - worker_height as i32 / 6, width, height)
}

/// Where a seated worker is drawn: centred on its desk's tile, feet a
/// sixth of its height below the tile centre. `(x, y, width, height)`.
pub open spec fn worker_bounds_spec(g: IsoGrid, slot: int) -> (int, int, int, int) {
    let tile = g.desk_tile_spec(slot);
    let (cx, cy) = tile_center(g, tile.0 as int, tile.1 as int);
    let (w, h) = worker_size_spec(g);
    (cx - trunc_div(w as int, 2), cy - h + h / 6 + 1, w as int, h as int)
}

pub fn worker_bounds(grid: IsoGrid, scale: RoomScale, slot: usize) -> (r: (i32, i32, usize, usize))
    requires
        grid_in_range(grid),
    ensures
        (r.0 as int, r.1 as int, r.2 as int, r.3 as int) == worker_bounds_spec(grid, slot as int),
        -901_000_000 <= r.0 <= 900_000_000,
        -404_000_000 <= r.1 <= 400_000_001,
        r.2 <= 450_000,
        r.3 <= 3_000_000,
{
    let tile = grid.desk_tile(slot);
    let (center_x, center_y) = grid.center(tile.0, tile.1);
    let (width, height) = scale.worker_size(grid);
    let seated_drop = height / 6;
    (center_x - width as i32 / 2, center_y - height as i32 + seated_drop as i32 + 1, width, height)
}

/// How long the manager walks to a blocked desk, and how long it stays.
pub const MANAGER_TRAVEL_MS: u64 = 2_400;
pub const MANAGER_HOLD_MS: u64 = 1_800;

/// The manager's position at `now`: walking from the back corner to
/// `tile` for the travel time, then standing there for the hold time, over
/// and over; and whether it has arrived.
pub open spec fn manager_position_spec(g: IsoGrid, tile: (int, int), now: i64) -> (int, int, bool) {
    let origin = tile_center(g, 0, g.rows - 1);
    let target = tile_center(g, tile.0, tile.1);
    let phase = phase_spec(now, (MANAGER_TRAVEL_MS + MANAGER_HOLD_MS) as u64);
    let travel = min(phase as int, MANAGER_TRAVEL_MS as int);
    (
        origin.0 + trunc_div((target.0 - origin.0) * travel, MANAGER_TRAVEL_MS as int),
        origin.1 + trunc_div((target.1 - origin.1) * travel, MANAGER_TRAVEL_MS as int),
        phase >= MANAGER_TRAVEL_MS,
    )
}

pub fn manager_position(grid: IsoGrid, tile: (usize, usize), now: i64) -> (r: (i32, i32, bool))
    requires
        grid_in_range(grid),
        tile.0 < grid.columns,
        tile.1 < grid.rows,
    ensures
        (r.0 as int, r.1 as int, r.2) == manager_position_spec(grid, (tile.0 as int, tile.1 as int), now),
        -900_000_000 <= r.0 <= 900_000_000,
        -400_000_000 <= r.1 <= 400_000_000,
{
    let origin = grid.center(0, grid.rows - 1);
    let target = grid.center(tile.0, tile.1);
    let phase = phase_ms(now, MANAGER_TRAVEL_MS + MANAGER_HOLD_MS);
    let travel = if phase < MANAGER_TRAVEL_MS {
        phase
    } else {
        MANAGER_TRAVEL_MS
    };
    (walk(origin.0, target.0, travel), walk(origin.1, target.1, travel), phase >= MANAGER_TRAVEL_MS)
}

/// Where the manager is drawn at `now`, or at the grid's frozen animation
/// time when it has one: its figure centred on its position, feet on it.
/// `(x, y, width, height, attention)`.
pub open spec fn manager_bounds_spec(g: IsoGrid, tile: (int, int), now: i64) -> (int, int, int, int, bool) {
    let at = match g.animation_now {
        Some(t) => t,
        None => now,
    };
    let p = manager_position_spec(g, tile, at);
    let (w, h) = worker_size_spec(g);
    (p.0 - trunc_div(w as int, 2), p.1 - h + 1, w as int, h as int, p.2)
}

pub fn manager_bounds(grid: IsoGrid, scale: RoomScale, tile: (usize, usize), now: i64) -> (r: (i32, i32, usize, usize, bool))
    requires
        grid_in_range(grid),
        tile.0 < grid.columns,
        tile.1 < grid.rows,
    ensures
        (r.0 as int, r.1 as int, r.2 as int, r.3 as int, r.4) == manager_bounds_spec(grid, (tile.0 as int, tile.1 as int), now),
        -901_000_000 <= r.0 <= 900_000_000,
        -404_000_000 <= r.1 <= 400_000_001,
        r.2 <= 450_000,
        r.3 <= 3_000_000,
{
    let at = match grid.animation_now {
        Some(t) => t,
        None => now,
    };
    let (x, y, attention) = manager_position(grid, tile, at);
    let (width, height) = scale.manager_size(grid);
    (x - width as i32 / 2, y - height as i32 + 1, width, height, attention)
}

/// The point `travel` of the manager's travel time along from `from` to `to`.
fn walk(from: i32, to: i32, travel: u64) -> (r: i32)
    requires
        -900_000_000 <= from <= 900_000_000,
        -900_000_000 <= to <= 900_000_000,
        travel <= MANAGER_TRAVEL_MS,
    ensures
        r as int == from + trunc_div((to - from) * travel, MANAGER_TRAVEL_MS as int),
        min(from as int, to as int) <= r <= max(from as int, to as int),
{
    let d: i64 = to as i64 - from as i64;
    let t: i64 = travel as i64;
    assert(-1_800_000_000 * 2_400 <= d * t <= 1_800_000_000 * 2_400) by (nonlinear_arith)
        requires
            -1_800_000_000 <= d <= 1_800_000_000,
            0 <= t <= 2_400,
    ;
    let q: i64 = d * t / 2_400;
    proof {
        if d >= 0 {
            assert(0 <= (d * t) / 2_400 <= d) by (nonlinear_arith)
                requires
                    0 <= d,
                    0 <= t <= 2_400,
            ;
        } else {
            assert(0 <= (-(d * t)) / 2_400 <= -d) by (nonlinear_arith)
                requires
                    d < 0,
                    0 <= t <= 2_400,
            ;
            assert(d * t <= 0) by (nonlinear_arith)
                requires
                    d < 0,
                    0 <= t,
            ;
        }
    }
    (from as i64 + q) as i32
}

proof fn lemma_trunc_whole(d: int, n: int)
    requires
        n > 0,
    ensures
        trunc_div(d * n, n) == d,
        trunc_div(d * 0, n) == 0,
{
    if d >= 0 {
        assert((d * n) / n == d) by (nonlinear_arith)
            requires
                n > 0,
                d >= 0,
        ;
    } else {
        assert(d * n < 0) by (nonlinear_arith)
            requires
                n > 0,
                d < 0,
        ;
        assert((-(d * n)) / n == -d) by (nonlinear_arith)
            requires
                n > 0,
                d < 0,
        ;
    }
    assert(d * 0 == 0);
}

/// Once the travel time of a cycle has passed, the manager stands on its
/// tile in the attention pose; at the start of each cycle it is back at the
/// room's back corner.
pub proof fn law_manager_arrives_after_travel(g: IsoGrid, tile: (int, int), now: i64)
    ensures
        phase_spec(now, (MANAGER_TRAVEL_MS + MANAGER_HOLD_MS) as u64) >= MANAGER_TRAVEL_MS ==> manager_position_spec(g, tile, now)
            == (tile_center(g, tile.0, tile.1).0, tile_center(g, tile.0, tile.1).1, true),
        phase_spec(now, (MANAGER_TRAVEL_MS + MANAGER_HOLD_MS) as u64) == 0 ==> manager_position_spec(g, tile, now) == (
            tile_center(g, 0, g.rows - 1).0,
            tile_center(g, 0, g.rows - 1).1,
            false,
        ),
{
    let origin = tile_center(g, 0, g.rows - 1);
    let target = tile_center(g, tile.0, tile.1);
    lemma_trunc_whole(target.0 - origin.0, MANAGER_TRAVEL_MS as int);
    lemma_trunc_whole(target.1 - origin.1, MANAGER_TRAVEL_MS as int);
}

} // verus!
