//! Terminal rectangles, the camera wall, desk pages and roster windows.
use vstd::prelude::*;

verus! {

/// A rectangle of terminal cells.
#[derive(Debug, Clone, Copy, PartialEq, Eq, Structural)]
pub struct Rect {
    pub x: u16,
    pub y: u16,
    pub width: u16,
    pub height: u16,
}

pub open spec fn sat_sub(a: int, b: int) -> int {
    if a > b {
        a - b
    } else {
        0
    }
}

pub open spec fn sat_u16(v: int) -> int {
    if v > u16::MAX {
        u16::MAX as int
    } else {
        v
    }
}

pub open spec fn min(a: int, b: int) -> int {
    if a <= b {
        a
    } else {
        b
    }
}

pub open spec fn max(a: int, b: int) -> int {
    if a >= b {
        a
    } else {
        b
    }
}

/// Division rounding up, for a positive divisor.
pub open spec fn ceil_div(a: nat, b: nat) -> nat
    recommends
        b > 0,
{
    if a % b == 0 {
        a / b
    } else {
        a / b + 1
    }
}

pub fn div_ceil(a: usize, b: usize) -> (r: usize)
    requires
        b > 0,
    ensures
        r == ceil_div(a as nat, b as nat),
{
    if a % b == 0 {
        a / b
    } else {
        assert(a / b < usize::MAX) by (nonlinear_arith)
            requires
                b >= 2,
                a <= usize::MAX,
        ;
        a / b + 1
    }
}

/// A rectangle at `(x, y)` whose width and height are cut so that it ends
/// within the `u16` coordinate space.
pub open spec fn rect_spec(x: u16, y: u16, width: u16, height: u16) -> Rect {
    Rect {
        x,
        y,
        width: min(width as int, u16::MAX - x) as u16,
        height: min(height as int, u16::MAX - y) as u16,
    }
}

impl Rect {
    pub fn new(x: u16, y: u16, width: u16, height: u16) -> (r: Rect)
        ensures
            r == rect_spec(x, y, width, height),
    {
        let max_width = u16::MAX - x;
        let max_height = u16::MAX - y;
        Rect {
            x,
            y,
            width: if width > max_width {
                max_width
            } else {
                width
            },
            height: if height > max_height {
                max_height
            } else {
                height
            },
        }
    }
}

pub fn has_area(area: Rect) -> (r: bool)
    ensures
        r == (area.width > 0 && area.height > 0),
{
    area.width > 0 && area.height > 0
}

/// The area below the two-row tab bar.
pub fn below_tab_bar(area: Rect) -> (r: Rect)
    ensures
        r == rect_spec(area.x, sat_u16(area.y + 2) as u16, area.width, sat_sub(area.height as int, 2) as u16),
{
    Rect::new(area.x, area.y.saturating_add(2), area.width, area.height.saturating_sub(2))
}

/// A rectangle shrunk by `amount` cells on every side, never below empty.
pub open spec fn inset_spec(area: Rect, amount: u16) -> Rect {
    rect_spec(
        sat_u16(area.x + min(amount as int, area.width as int)) as u16,
        sat_u16(area.y + min(amount as int, area.height as int)) as u16,
        sat_sub(area.width as int, min(sat_u16(2 * amount), area.width as int)) as u16,
        sat_sub(area.height as int, min(sat_u16(2 * amount), area.height as int)) as u16,
    )
}

/// Shrink a rectangle by `amount` cells on every side, never below empty.
pub fn inset(area: Rect, amount: u16) -> (r: Rect)
    ensures
        r == inset_spec(area, amount),
        r == rect_spec(
            sat_u16(area.x + min(amount as int, area.width as int)) as u16,
            sat_u16(area.y + min(amount as int, area.height as int)) as u16,
            sat_sub(area.width as int, min(sat_u16(2 * amount), area.width as int)) as u16,
            sat_sub(area.height as int, min(sat_u16(2 * amount), area.height as int)) as u16,
        ),
{
    let double: u16 = if amount > 0x7fff {
        u16::MAX
    } else {
        amount * 2
    };
    let horizontal = if double < area.width {
        double
    } else {
        area.width
    };
    let vertical = if double < area.height {
        double
    } else {
        area.height
    };
    let dx = if amount < area.width {
        amount
    } else {
        area.width
    };
    let dy = if amount < area.height {
        amount
    } else {
        area.height
    };
    Rect::new(
        area.x.saturating_add(dx),
        area.y.saturating_add(dy),
        area.width.saturating_sub(horizontal),
        area.height.saturating_sub(vertical),
    )
}

/// The heights of the header, body and footer bands of an area: the
/// header first, then the footer from what is left, the body the rest.
pub open spec fn band_heights(height: int, header_height: int, footer_height: int) -> (int, int, int) {
    let header = min(header_height, height);
    let footer = min(footer_height, height - header);
    (header, height - header - footer, footer)
}

/// Split an area into header, body and footer bands, the header first.
pub fn vertical_bands(area: Rect, header_height: u16, footer_height: u16) -> (r: (Rect, Rect, Rect))
    ensures
        ({
            let (h, b, f) = band_heights(area.height as int, header_height as int, footer_height as int);
            &&& r.0 == rect_spec(area.x, area.y, area.width, h as u16)
            &&& r.1 == rect_spec(area.x, sat_u16(area.y + h) as u16, area.width, b as u16)
            &&& r.2 == rect_spec(area.x, sat_u16(sat_u16(area.y + h) + b) as u16, area.width, f as u16)
        }),
{
    let header_height = if header_height < area.height {
        header_height
    } else {
        area.height
    };
    let rest = area.height - header_height;
    let footer_height = if footer_height < rest {
        footer_height
    } else {
        rest
    };
    let body_height = area.height - (header_height + footer_height);
    let header = Rect::new(area.x, area.y, area.width, header_height);
    let body = Rect::new(area.x, area.y.saturating_add(header_height), area.width, body_height);
    let footer = Rect::new(
        area.x,
        area.y.saturating_add(header_height).saturating_add(body_height),
        area.width,
        footer_height,
    );
    (header, body, footer)
}

/// For an area inside the `u16` coordinate space, the three bands are
/// stacked without gaps, each as wide as the area, and together exactly as
/// tall as it.
pub proof fn law_bands_tile_the_area(area: Rect, header_height: u16, footer_height: u16)
    requires
        area.x + area.width <= u16::MAX,
        area.y + area.height <= u16::MAX,
    ensures
        ({
            let (h, b, f) = band_heights(area.height as int, header_height as int, footer_height as int);
            let header = rect_spec(area.x, area.y, area.width, h as u16);
            let body = rect_spec(area.x, sat_u16(area.y + h) as u16, area.width, b as u16);
            let footer = rect_spec(area.x, sat_u16(sat_u16(area.y + h) + b) as u16, area.width, f as u16);
            &&& header.y == area.y
            &&& body.y == header.y + header.height
            &&& footer.y == body.y + body.height
            &&& header.height + body.height + footer.height == area.height
            &&& header.width == area.width && body.width == area.width && footer.width == area.width
        }),
{
}

pub open spec fn overlap(first: Rect, second: Rect) -> bool {
    &&& first.x < sat_u16(second.x + second.width)
    &&& second.x < sat_u16(first.x + first.width)
    &&& first.y < sat_u16(second.y + second.height)
    &&& second.y < sat_u16(first.y + first.height)
}

pub fn rects_overlap(first: Rect, second: Rect) -> (r: bool)
    ensures
        r == overlap(first, second),
{
    first.x < second.x.saturating_add(second.width) && second.x < first.x.saturating_add(
        first.width,
    ) && first.y < second.y.saturating_add(second.height) && second.y < first.y.saturating_add(
        first.height,
    )
}

/// Overlap is symmetric.
pub proof fn law_overlap_is_symmetric(first: Rect, second: Rect)
    ensures
        overlap(first, second) == overlap(second, first),
{
}

/// A rectangle grown by a margin on every side, clipped to `body`.
pub open spec fn expanded_rect_spec(rect: Rect, body: Rect, margin: u16) -> Rect {
    let left = max(sat_sub(rect.x as int, margin as int), body.x as int);
    let top = max(sat_sub(rect.y as int, margin as int), body.y as int);
    let right = min(sat_u16(sat_u16(rect.x + rect.width) + margin), sat_u16(body.x + body.width));
    let bottom = min(sat_u16(sat_u16(rect.y + rect.height) + margin), sat_u16(body.y + body.height));
    rect_spec(left as u16, top as u16, sat_sub(right, left) as u16, sat_sub(bottom, top) as u16)
}

/// Grow a rectangle by a margin on every side, clipped to `body`.
pub fn expanded_rect(rect: Rect, body: Rect, margin: u16) -> (r: Rect)
    ensures
        r == expanded_rect_spec(rect, body, margin),
{
    let l = rect.x.saturating_sub(margin);
    let left = if l > body.x {
        l
    } else {
        body.x
    };
    let t = rect.y.saturating_sub(margin);
    let top = if t > body.y {
        t
    } else {
        body.y
    };
    let r0 = rect.x.saturating_add(rect.width).saturating_add(margin);
    let r1 = body.x.saturating_add(body.width);
    let right = if r0 < r1 {
        r0
    } else {
        r1
    };
    let b0 = rect.y.saturating_add(rect.height).saturating_add(margin);
    let b1 = body.y.saturating_add(body.height);
    let bottom = if b0 < b1 {
        b0
    } else {
        b1
    };
    Rect::new(left, top, right.saturating_sub(left), bottom.saturating_sub(top))
}

// ---------------------------------------------------------------------------
// The camera wall
// ---------------------------------------------------------------------------

/// The dimensions of a camera grid after taking count and terminal space into account.
#[derive(Debug, Clone, Copy, PartialEq, Eq, Structural)]
pub struct GridLayout {
    pub columns: usize,
    pub rows: usize,
}

pub open spec fn camera_max_rows(height: nat) -> nat {
    if height / 10 >= 1 {
        height / 10
    } else {
        1
    }
}

/// The widest grid considered: one 26-cell feed per column, no more columns
/// than offices, and two balanced rows once there is room for them.
pub open spec fn camera_max_columns(count: nat, width: nat, height: nat) -> nat {
    let balanced = if camera_max_rows(height) >= 2 && count >= 4 {
        ceil_div(count, 2)
    } else {
        count
    };
    let by_width = if width / 26 >= 1 {
        width / 26
    } else {
        1
    };
    min(min(by_width as int, count as int), balanced as int) as nat
}

/// How badly `columns` fits: rows beyond the screen dominate, then distance
/// from the 26x10 camera aspect, then empty cells.
pub open spec fn camera_score(count: nat, height: nat, columns: nat) -> int {
    let rows = ceil_div(count, columns);
    let aspect_error = if columns * 10 >= rows * 26 {
        columns * 10 - rows * 26
    } else {
        rows * 26 - columns * 10
    };
    let overflow = sat_sub(rows as int, camera_max_rows(height) as int);
    let empty = sat_sub((columns * rows) as int, count as int);
    overflow * 1_000_000 + aspect_error * 10 + empty
}

/// The camera grid for `count` feeds: the fewest columns that reach the best
/// score among 1 ..= `camera_max_columns`, with just enough rows.
pub open spec fn is_camera_grid(count: nat, width: nat, height: nat, g: GridLayout) -> bool {
    if count == 0 || width == 0 || height == 0 {
        g == GridLayout { columns: 0, rows: 0 }
    } else {
        &&& 1 <= g.columns <= camera_max_columns(count, width, height)
        &&& g.rows == ceil_div(count, g.columns as nat)
        &&& forall|c: nat|
            1 <= c <= camera_max_columns(count, width, height) ==> camera_score(
                count,
                height,
                g.columns as nat,
            ) <= #[trigger] camera_score(count, height, c)
        &&& forall|c: nat|
            1 <= c < g.columns ==> camera_score(count, height, g.columns as nat)
                < #[trigger] camera_score(count, height, c)
    }
}

proof fn lemma_ceil_div_bounds(a: nat, b: nat)
    requires
        b > 0,
    ensures
        ceil_div(a, b) * b >= a,
        ceil_div(a, b) * b < a + b,
        b * ceil_div(a, b) >= a,
        ceil_div(a, b) <= a || a == 0,
        a > 0 ==> ceil_div(a, b) >= 1,
        ceil_div(a, b) <= a / b + 1,
{
    assert(a == (a / b) * b + a % b) by (nonlinear_arith)
        requires
            b > 0,
    ;
    assert(a / b <= a) by (nonlinear_arith)
        requires
            b > 0,
    ;
    assert(0 <= a % b < b);
    if a % b != 0 {
        assert((a / b + 1) * b == (a / b) * b + b) by (nonlinear_arith);
        if a / b == a {
            assert(a / b * b >= a) by (nonlinear_arith)
                requires
                    b > 0,
                    a / b == a,
            ;
        }
    } else if a > 0 {
        assert(a / b >= 1) by (nonlinear_arith)
            requires
                a == (a / b) * b,
                a > 0,
                b > 0,
        ;
    }
    assert(ceil_div(a, b) * b == b * ceil_div(a, b)) by (nonlinear_arith);
}

/// `ceil_div` bounds, for callers outside this module.
pub proof fn lemma_ceil_div_facts(a: nat, b: nat)
    requires
        b > 0,
    ensures
        ceil_div(a, b) * b >= a,
        ceil_div(a, b) * b < a + b,
        a > 0 ==> ceil_div(a, b) >= 1,
        ceil_div(a, b) <= a || a == 0,
{
    lemma_ceil_div_bounds(a, b);
}

fn camera_score_exec(count: usize, max_rows: usize, columns: usize) -> (s: u128)
    requires
        columns >= 1,
        max_rows == camera_max_rows(max_rows as nat * 10) || max_rows >= 1,
    ensures
        s as int == ({
            let rows = ceil_div(count as nat, columns as nat);
            let aspect_error = if columns * 10 >= rows * 26 {
                columns * 10 - rows * 26
            } else {
                rows * 26 - columns * 10
            };
            sat_sub(rows as int, max_rows as int) * 1_000_000 + aspect_error * 10 + sat_sub(
                (columns * rows) as int,
                count as int,
            )
        }),
{
    let rows = div_ceil(count, columns);
    proof {
        lemma_ceil_div_bounds(count as nat, columns as nat);
        assert(columns * rows == rows * columns) by (nonlinear_arith);
    }
    let wide = columns as u128 * 10;
    let tall = rows as u128 * 26;
    let aspect_error = if wide >= tall {
        wide - tall
    } else {
        tall - wide
    };
    let overflow: u128 = if rows > max_rows {
        (rows - max_rows) as u128
    } else {
        0
    };
    assert(columns * rows < count + columns);
    let cells = columns as u128 * rows as u128;
    let empty: u128 = if cells > count as u128 {
        cells - count as u128
    } else {
        0
    };
    assert(empty <= columns);
    assert(overflow <= rows && rows <= count + 1);
    overflow * 1_000_000 + aspect_error * 10 + empty
}

/// Pick a grid that fits the available space while retaining the broad CCTV-wall shape.
pub fn grid_layout(office_count: usize, width: u16, height: u16) -> (r: GridLayout)
    ensures
        is_camera_grid(office_count as nat, width as nat, height as nat, r),
{
    if office_count == 0 || width == 0 || height == 0 {
        return GridLayout { columns: 0, rows: 0 };
    }
    let max_rows: usize = if height as usize / 10 >= 1 {
        height as usize / 10
    } else {
        1
    };
    let balanced_columns = if max_rows >= 2 && office_count >= 4 {
        div_ceil(office_count, 2)
    } else {
        office_count
    };
    let by_width: usize = if width as usize / 26 >= 1 {
        width as usize / 26
    } else {
        1
    };
    let mut max_columns = if by_width < office_count {
        by_width
    } else {
        office_count
    };
    if balanced_columns < max_columns {
        max_columns = balanced_columns;
    }
    let ghost count = office_count as nat;
    let ghost h = height as nat;
    assert(max_columns == camera_max_columns(count, width as nat, h));
    proof {
        lemma_ceil_div_bounds(count, 2);
    }
    let mut best = GridLayout { columns: 1, rows: office_count };
    let mut best_score = camera_score_exec(office_count, max_rows, 1);
    assert(best_score == camera_score(count, h, 1));
    assert(ceil_div(count, 1) == count);
    let mut columns: usize = 2;
    while columns <= max_columns
        invariant
            2 <= columns <= max_columns + 1,
            max_columns >= 1,
            max_columns <= office_count,
            max_columns == camera_max_columns(count, width as nat, h),
            max_rows == camera_max_rows(h),
            count == office_count,
            1 <= best.columns < columns,
            best.rows == ceil_div(count, best.columns as nat),
            best_score == camera_score(count, h, best.columns as nat),
            forall|c: nat|
                1 <= c < columns ==> best_score <= #[trigger] camera_score(count, h, c),
            forall|c: nat|
                1 <= c < best.columns ==> best_score < #[trigger] camera_score(count, h, c),
        decreases max_columns + 1 - columns,
    {
        let rows = div_ceil(office_count, columns);
        let score = camera_score_exec(office_count, max_rows, columns);
        assert(score == camera_score(count, h, columns as nat));
        if score < best_score {
            best_score = score;
            best = GridLayout { columns, rows };
        }
        columns += 1;
    }
    best
}

/// The selected grid always has a cell for every office.
pub proof fn law_camera_grid_holds_every_office(count: nat, width: nat, height: nat, g: GridLayout)
    requires
        is_camera_grid(count, width, height, g),
    ensures
        width > 0 && height > 0 ==> g.columns * g.rows >= count,
{
    if count > 0 && width > 0 && height > 0 {
        lemma_ceil_div_bounds(count, g.columns as nat);
        let c = g.columns as nat;
        let r = g.rows as nat;
        assert(c * r >= count) by (nonlinear_arith)
            requires
                r == ceil_div(count, c),
                c * ceil_div(count, c) >= count,
        ;
    }
}

// ---------------------------------------------------------------------------
// Desk pages
// ---------------------------------------------------------------------------

/// The desk grid and pagination information for an office floor.
#[derive(Debug, Clone, Copy, PartialEq, Eq, Structural)]
pub struct OfficeLayout {
    pub columns: usize,
    pub rows: usize,
    pub page_size: usize,
    pub pages: usize,
}

/// The main floor shows at most this many desks.
pub const MAX_DESKS: usize = 10;

pub open spec fn desk_layout_spec(count: nat, width: nat, height: nat) -> OfficeLayout {
    if count == 0 || width == 0 || height == 0 {
        OfficeLayout { columns: 0, rows: 0, page_size: 0, pages: 0 }
    } else {
        let preferred = if count <= 5 {
            3nat
        } else if width >= 64 {
            5nat
        } else if width >= 42 {
            4nat
        } else {
            3nat
        };
        let columns = min(preferred as int, count as int) as nat;
        let rows = min(ceil_div(count, columns) as int, if height >= 14 { 2 } else { 1 }) as nat;
        let page_size = min(max((columns * rows) as int, 1), 10) as nat;
        OfficeLayout {
            columns: columns as usize,
            rows: rows as usize,
            page_size: page_size as usize,
            pages: ceil_div(count, page_size) as usize,
        }
    }
}

/// Calculate a bounded desk layout. The main floor shows at most ten desks;
/// additional workers are reachable on a clearly labelled overflow page.
pub fn desk_layout(worker_count: usize, width: u16, height: u16) -> (r: OfficeLayout)
    ensures
        r == desk_layout_spec(worker_count as nat, width as nat, height as nat),
{
    if worker_count == 0 || width == 0 || height == 0 {
        return OfficeLayout { columns: 0, rows: 0, page_size: 0, pages: 0 };
    }
    let preferred: usize = if worker_count <= 5 {
        3
    } else if width >= 64 {
        5
    } else if width >= 42 {
        4
    } else {
        3
    };
    let columns = if preferred < worker_count {
        preferred
    } else {
        worker_count
    };
    let all_rows = div_ceil(worker_count, columns);
    let cap: usize = if height >= 14 {
        2
    } else {
        1
    };
    let rows = if all_rows < cap {
        all_rows
    } else {
        cap
    };
    assert(columns * rows <= 10) by (nonlinear_arith)
        requires
            columns <= 5,
            rows <= 2,
    ;
    let cells = columns * rows;
    let page_size = if cells < 1 {
        1
    } else if cells > MAX_DESKS {
        MAX_DESKS
    } else {
        cells
    };
    let pages = div_ceil(worker_count, page_size);
    OfficeLayout { columns, rows, page_size, pages }
}

/// Every worker has a desk on some page, and no page holds more than ten.
pub proof fn law_desk_pages_reach_every_worker(count: nat, width: nat, height: nat)
    requires
        count <= usize::MAX,
    ensures
        ({
            let l = desk_layout_spec(count, width, height);
            &&& l.page_size <= MAX_DESKS
            &&& (width > 0 && height > 0) ==> l.pages * l.page_size >= count
            &&& l.columns <= count
            &&& (count > 0 && width > 0 && height > 0) ==> l.page_size >= 1 && l.columns >= 1
        }),
{
    let l = desk_layout_spec(count, width, height);
    if count > 0 && width > 0 && height > 0 {
        let preferred = if count <= 5 {
            3nat
        } else if width >= 64 {
            5nat
        } else if width >= 42 {
            4nat
        } else {
            3nat
        };
        let columns = min(preferred as int, count as int) as nat;
        lemma_ceil_div_bounds(count, columns);
        lemma_ceil_div_bounds(count, l.page_size as nat);
        let p = l.page_size as nat;
        let q = ceil_div(count, p);
        assert(q <= count);
        assert(l.pages == q);
        assert(q * p >= count);
    }
}

// ---------------------------------------------------------------------------
// Roster windows
// ---------------------------------------------------------------------------

/// Floors that fit in a tower of the given height: one per ten rows, one to five.
pub fn floor_capacity(height: u16) -> (r: usize)
    ensures
        r == min(max(height as int / 10, 1), 5),
{
    let floors = height as usize / 10;
    if floors < 1 {
        1
    } else if floors > 5 {
        5
    } else {
        floors
    }
}

/// Where a room of `room_width` pixels splits into two rooms that keep the
/// scene's character scale: the cell-aligned left half, when both halves
/// hold 280 authored pixels at `scale` (a studio, its circulation and two
/// seats). `None` without whole cells or when a half is too narrow.
pub fn readable_split_width(room_width: usize, cell_width: usize, scale: usize) -> (r: Option<usize>)
    requires
        scale * 280 <= usize::MAX,
    ensures
        cell_width == 0 ==> r is None,
        cell_width > 0 ==> ({
            let left = room_width as int / cell_width as int / 2 * cell_width as int;
            r == if left >= 280 * scale && room_width - left >= 280 * scale {
                Some(left as usize)
            } else {
                None::<usize>
            }
        }),
{
    if cell_width == 0 {
        return None;
    }
    let minimum = 280 * scale;
    let half = room_width / cell_width / 2;
    assert(half * cell_width <= room_width) by (nonlinear_arith)
        requires
            half == room_width as int / cell_width as int / 2,
            cell_width >= 1,
    ;
    let left = half * cell_width;
    if left >= minimum && room_width - left >= minimum {
        Some(left)
    } else {
        None
    }
}

/// The first index of a `visible`-long window centred on `selected` where possible.
pub fn window_start(selected: usize, total: usize, visible: usize) -> (r: usize)
    ensures
        r == min(sat_sub(selected as int, visible as int / 2), sat_sub(total as int, visible as int)),
{
    let a = selected.saturating_sub(visible / 2);
    let b = total.saturating_sub(visible);
    if a < b {
        a
    } else {
        b
    }
}

/// A window of `visible` positions starting at `window_start` shows the
/// selected item, and does not run past the end of a long enough list.
pub proof fn law_window_shows_selection(selected: nat, total: nat, visible: nat)
    requires
        selected < total,
        visible >= 1,
    ensures
        ({
            let start = min(
                sat_sub(selected as int, visible as int / 2),
                sat_sub(total as int, visible as int),
            );
            &&& start <= selected < start + visible
            &&& total >= visible ==> start + visible <= total
        }),
{
}

/// The page of people shown: an optionally pinned first person (the meeting
/// parent), then the page of `chunk` people holding the selected one.
pub open spec fn people_page(
    count: nat,
    capacity: nat,
    selected: Option<nat>,
    meeting: bool,
) -> (Seq<nat>, nat, nat) {
    let pinned = meeting && count > 1 && capacity > 1;
    let offset: nat = if pinned {
        1
    } else {
        0
    };
    let chunk = (capacity - offset) as nat;
    let page = match selected {
        Some(index) => (sat_sub(index as int, offset as int) as nat) / chunk,
        None => 0,
    };
    let pages = max(ceil_div(sat_sub(count as int, offset as int) as nat, chunk) as int, 1) as nat;
    let start = offset + page * chunk;
    let end = min(count as int, (start + chunk) as int);
    let body = Seq::new(sat_sub(end, start as int) as nat, |i: int| (start + i) as nat);
    (if pinned {
        seq![0nat] + body
    } else {
        body
    }, page, pages)
}

/// `i` is the first position holding `id`.
pub open spec fn first_at(ids: Seq<Seq<char>>, id: Seq<char>, i: int) -> bool {
    &&& 0 <= i < ids.len()
    &&& ids[i] == id
    &&& forall|j: int| 0 <= j < i ==> ids[j] != id
}

/// The position of the first worker with the selected identity.
pub open spec fn position_of(ids: Seq<Seq<char>>, selected: Option<Seq<char>>) -> Option<nat> {
    match selected {
        Some(id) => if ids.contains(id) {
            Some((choose|i: int| first_at(ids, id, i)) as nat)
        } else {
            None
        },
        None => None,
    }
}

/// Character-by-character equality of two texts.
pub fn same_text(a: &str, b: &str) -> (r: bool)
    ensures
        r == (a@ == b@),
{
    let x = crate::text::chars_of(a);
    let y = crate::text::chars_of(b);
    if x.len() != y.len() {
        return false;
    }
    let mut i: usize = 0;
    while i < x.len()
        invariant
            x.len() == y.len(),
            x@ == a@,
            y@ == b@,
            i <= x.len(),
            forall|k: int| 0 <= k < i ==> x@[k] == y@[k],
        decreases x.len() - i,
    {
        if x[i] != y[i] {
            return false;
        }
        i += 1;
    }
    assert(x@ =~= y@);
    true
}

fn find_id(ids: &Vec<String>, id: &str) -> (r: Option<usize>)
    ensures
        match r {
            Some(i) => position_of(ids@.map_values(|s: String| s@), Some(id@)) == Some(i as nat),
            None => position_of(ids@.map_values(|s: String| s@), Some(id@)) == None::<nat>,
        },
        r matches Some(i) ==> i < ids.len(),
{
    let ghost views = ids@.map_values(|s: String| s@);
    let mut i: usize = 0;
    while i < ids.len()
        invariant
            i <= ids.len(),
            views == ids@.map_values(|s: String| s@),
            forall|k: int| 0 <= k < i ==> views[k] != id@,
        decreases ids.len() - i,
    {
        if same_text(ids[i].as_str(), id) {
            proof {
                assert(views[i as int] == id@);
                assert(views.contains(id@));
                assert(first_at(views, id@, i as int));
                let j = choose|j: int| first_at(views, id@, j);
                assert(first_at(views, id@, j));
                if j < i {
                    assert(views[j] != id@);
                } else if j > i {
                    assert(views[i as int] != id@);
                }
            }
            return Some(i);
        }
        assert(views[i as int] != id@);
        i += 1;
    }
    None
}

proof fn lemma_positions_as_nat(prefix: Seq<usize>, start: int, n: nat)
    requires
        0 <= start,
        start + n <= usize::MAX,
    ensures
        (prefix + Seq::new(n, |i: int| (start + i) as usize)).map_values(|i: usize| i as nat)
            =~= prefix.map_values(|i: usize| i as nat) + Seq::new(n, |i: int| (start + i) as nat),
{
}

/// Appends the positions `start .. end`.
fn push_range(visible: &mut Vec<usize>, start: usize, end: usize)
    requires
        start <= end,
    ensures
        final(visible)@ == old(visible)@ + Seq::new((end - start) as nat, |i: int| (start + i) as usize),
{
    let mut k = start;
    while k < end
        invariant
            start <= k <= end,
            visible@ == old(visible)@ + Seq::new((k - start) as nat, |i: int| (start + i) as usize),
        decreases end - k,
    {
        visible.push(k);
        k += 1;
        assert(visible@ =~= old(visible)@ + Seq::new((k - start) as nat, |i: int| (start + i) as usize));
    }
}

/// The people on the selected page, by roster position, with the page number
/// and the page count.
pub fn page_people(ids: &Vec<String>, capacity: usize, selected: Option<&str>, meeting: bool) -> (r: (
    Vec<usize>,
    usize,
    usize,
))
    requires
        capacity >= 1,
    ensures
        ({
            let (shown, page, pages) = people_page(
                ids@.len(),
                capacity as nat,
                position_of(
                    ids@.map_values(|s: String| s@),
                    match selected {
                        Some(s) => Some(s@),
                        None => None,
                    },
                ),
                meeting,
            );
            &&& r.0@.map_values(|i: usize| i as nat) == shown
            &&& r.1 == page
            &&& r.2 == pages
        }),
{
    let count = ids.len();
    let pinned = meeting && count > 1 && capacity > 1;
    let offset: usize = if pinned {
        1
    } else {
        0
    };
    let chunk = capacity - offset;
    let ghost views = ids@.map_values(|s: String| s@);
    let ghost sel = match selected {
        Some(s) => Some(s@),
        None => None::<Seq<char>>,
    };
    let position = match selected {
        Some(id) => {
            let found = find_id(ids, id);
            assert(sel == Some(id@));
            found
        },
        None => None,
    };
    assert(position_of(views, sel) == match position {
        Some(i) => Some(i as nat),
        None => None::<nat>,
    });
    let page = match position {
        Some(index) => index.saturating_sub(offset) / chunk,
        None => 0,
    };
    let d = div_ceil(count - offset, chunk);
    let pages = if d < 1 {
        1
    } else {
        d
    };
    let mut visible: Vec<usize> = Vec::new();
    if pinned {
        visible.push(0);
    }
    let ghost prefix = visible@;
    match position {
        Some(index) => {
            let s = index.saturating_sub(offset);
            assert(page * chunk <= s) by (nonlinear_arith)
                requires
                    chunk >= 1,
                    page == s / chunk,
            ;
            if index >= offset {
                assert(offset + page * chunk <= index);
            } else {
                assert(page == 0);
            }
        },
        None => {},
    }
    assert(offset + page * chunk <= count);
    let start = offset + page * chunk;
    let end = if count - start < chunk {
        count
    } else {
        start + chunk
    };
    push_range(&mut visible, start, end);
    let ghost expected = people_page(
        count as nat,
        capacity as nat,
        position_of(ids@.map_values(|s: String| s@), sel),
        meeting,
    );
    proof {
        lemma_positions_as_nat(prefix, start as int, (end - start) as nat);
        assert(prefix.map_values(|i: usize| i as nat) =~= (if pinned {
            seq![0nat]
        } else {
            Seq::<nat>::empty()
        }));
    }
    assert(visible@.map_values(|i: usize| i as nat) =~= expected.0);
    (visible, page, pages)
}

/// The selected person is always on the page shown, and a page never holds
/// more people than its capacity.
pub proof fn law_page_shows_selected_person(count: nat, capacity: nat, selected: nat, meeting: bool)
    requires
        capacity >= 1,
        selected < count,
    ensures
        ({
            let (shown, _, _) = people_page(count, capacity, Some(selected), meeting);
            &&& shown.contains(selected)
            &&& shown.len() <= capacity
        }),
{
    let pinned = meeting && count > 1 && capacity > 1;
    let offset: nat = if pinned {
        1
    } else {
        0
    };
    let chunk = (capacity - offset) as nat;
    let page = (sat_sub(selected as int, offset as int) as nat) / chunk;
    let start = offset + page * chunk;
    let (shown, _, _) = people_page(count, capacity, Some(selected), meeting);
    let end = min(count as int, (start + chunk) as int);
    let body = Seq::new(sat_sub(end, start as int) as nat, |i: int| (start + i) as nat);
    let s = sat_sub(selected as int, offset as int) as nat;
    assert(page * chunk <= s < page * chunk + chunk) by (nonlinear_arith)
        requires
            chunk >= 1,
            page == s / chunk,
    ;
    if pinned && selected == 0 {
        assert(shown[0] == 0);
    } else {
        assert(start <= selected < end);
        let i = selected - start;
        assert(body[i] == selected);
        if pinned {
            assert(shown[i + 1] == selected);
        } else {
            assert(shown[i] == selected);
        }
    }
}

} // verus!
