//! Where worker name plates go on the isometric floor: under each desk,
//! clear of the figures painted in front of it.
use vstd::prelude::*;
use crate::canvas::{in_rect, Canvas};
use crate::color::Color;
use crate::iso::{
    abs, desk_bounds_spec, grid_in_range, key_le, key_le_exec, manager_bounds, manager_bounds_spec, manager_tile,
    manager_tile_spec, painter_key, painter_key_spec, physical_to_cell, worker_bounds, worker_bounds_spec,
    worker_plate_position, worker_plate_position_spec, IsoFootprint, IsoGrid, IsoItem, IsoKind, RoomScale,
};
use crate::layout::{
    expanded_rect, expanded_rect_spec, max, min, overlap, rect_spec, rects_overlap, sat_sub, sat_u16, Rect,
};

verus! {

/// Grids planned on a canvas: in range, one to sixteen pixels per cell
/// each way.
pub open spec fn plate_grid(g: IsoGrid) -> bool {
    &&& grid_in_range(g)
    &&& 1 <= g.pixels_per_cell.0 <= 16
    &&& 1 <= g.pixels_per_cell.1 <= 16
}

/// The last cell, exclusive, that a pixel span from `start` of `length`
/// pixels reaches, at `scale` pixels per cell.
pub open spec fn span_end_spec(start: int, length: int, scale: int) -> int {
    min(max(start + length, 0) + scale - 1, i32::MAX as int) / scale
}

fn span_end(start: i32, length: usize, scale: usize) -> (r: i32)
    requires
        1 <= scale <= 16,
        length <= i32::MAX,
        i32::MIN <= start + length <= i32::MAX,
    ensures
        r as int == span_end_spec(start as int, length as int, scale as int),
        r >= 0,
{
    let end: i32 = start + length as i32;
    let clipped: i64 = if end > 0 {
        end as i64
    } else {
        0
    };
    let bumped: i64 = clipped + scale as i64 - 1;
    let capped: i64 = if bumped > i32::MAX as i64 {
        i32::MAX as i64
    } else {
        bumped
    };
    (capped / scale as i64) as i32
}

/// The terminal cells, inside `body`, that cover a box of pixels: from the
/// cell holding its first pixel to the cell past its last, never left of
/// or above the body's corner.
pub open spec fn scene_cell_rect_spec(body: Rect, g: IsoGrid, x: int, y: int, width: int, height: int) -> Rect {
    let xs = g.pixels_per_cell.0 as int;
    let ys = g.pixels_per_cell.1 as int;
    let left = max(x / xs, 0) as u16;
    let top = max(y / ys, 0) as u16;
    let right = span_end_spec(x, width, xs) as u16;
    let bottom = span_end_spec(y, height, ys) as u16;
    rect_spec(
        sat_u16(body.x + left) as u16,
        sat_u16(body.y + top) as u16,
        sat_sub(right as int, left as int) as u16,
        sat_sub(bottom as int, top as int) as u16,
    )
}

pub fn scene_cell_rect(body: Rect, grid: IsoGrid, x: i32, y: i32, width: usize, height: usize) -> (r: Rect)
    requires
        1 <= grid.pixels_per_cell.0 <= 16,
        1 <= grid.pixels_per_cell.1 <= 16,
        width <= i32::MAX,
        height <= i32::MAX,
        i32::MIN <= x + width <= i32::MAX,
        i32::MIN <= y + height <= i32::MAX,
    ensures
        r == scene_cell_rect_spec(body, grid, x as int, y as int, width as int, height as int),
{
    let x_scale = grid.pixels_per_cell.0;
    let y_scale = grid.pixels_per_cell.1;
    let column = physical_to_cell(x, x_scale);
    let row = physical_to_cell(y, y_scale);
    let left = (if column > 0 {
        column
    } else {
        0
    }) as u16;
    let top = (if row > 0 {
        row
    } else {
        0
    }) as u16;
    let right = span_end(x, width, x_scale) as u16;
    let bottom = span_end(y, height, y_scale) as u16;
    Rect::new(
        body.x.saturating_add(left),
        body.y.saturating_add(top),
        right.saturating_sub(left),
        bottom.saturating_sub(top),
    )
}

/// A name plate's width in cells: half a tile (twelve cells at least, the
/// tile counted as at least twelve cells), never wider than the body.
pub open spec fn plate_width_spec(body: Rect, g: IsoGrid) -> u16 {
    let cells = max(g.tile_width as int / (g.pixels_per_cell.0 as int), 12) as u16;
    min(max((cells / 2) as int, 12), body.width as int) as u16
}

pub fn worker_plate_width(body: Rect, grid: IsoGrid) -> (r: u16)
    requires
        1 <= grid.pixels_per_cell.0 <= 16,
    ensures
        r == plate_width_spec(body, grid),
{
    let tile_cells = physical_to_cell(grid.tile_width, grid.pixels_per_cell.0);
    let cells = (if tile_cells > 12 {
        tile_cells
    } else {
        12
    }) as u16;
    let half = if cells / 2 > 12 {
        cells / 2
    } else {
        12
    };
    if half < body.width {
        half
    } else {
        body.width
    }
}

/// The cells a seated worker's figure covers, on an unbounded body.
pub fn worker_cell_rect(grid: IsoGrid, slot: usize) -> (r: Rect)
    requires
        plate_grid(grid),
    ensures
        ({
            let b = worker_bounds_spec(grid, slot as int);
            r == scene_cell_rect_spec(rect_spec(0, 0, u16::MAX, u16::MAX), grid, b.0, b.1, b.2, b.3)
        }),
{
    let (x, y, width, height) = worker_bounds(grid, RoomScale::Floor, slot);
    scene_cell_rect(Rect::new(0, 0, u16::MAX, u16::MAX), grid, x, y, width, height)
}

// ---------------------------------------------------------------------------
// Figures in front of a desk
// ---------------------------------------------------------------------------

/// A standing figure on `tile`: one tile, two tall.
pub open spec fn figure_item(tile: (usize, usize), kind: IsoKind) -> IsoItem {
    IsoItem { tile_x: tile.0, tile_y: tile.1, footprint: IsoFootprint { width: 1, depth: 1, height: 2 }, kind }
}

/// The painting key of the desk of worker `owner`.
pub open spec fn desk_key(g: IsoGrid, owner: int) -> (int, int, int) {
    let tile = g.desk_tile_spec(owner);
    painter_key_spec(
        IsoItem {
            tile_x: tile.0,
            tile_y: tile.1,
            footprint: IsoFootprint { width: 1, depth: 1, height: 1 },
            kind: IsoKind::Desk(owner as usize),
        },
    )
}

/// Whether `item` is painted after the desk of worker `owner`, and so
/// over the plate under it.
pub open spec fn paints_over_desk(g: IsoGrid, owner: int, item: IsoItem) -> bool {
    !key_le(painter_key_spec(item), desk_key(g, owner))
}

/// The cells a figure's pixel box blocks for plates: its cells and one
/// more all round, within the body.
pub open spec fn blocked_cells(body: Rect, g: IsoGrid, b: (int, int, int, int)) -> Rect {
    expanded_rect_spec(scene_cell_rect_spec(body, g, b.0, b.1, b.2, b.3), body, 1)
}

/// The cells blocked by the first `n` workers other than `owner` whose
/// figures are painted over its desk, in seating order.
pub open spec fn worker_obstacles(body: Rect, g: IsoGrid, owner: int, n: nat) -> Seq<Rect>
    decreases n,
{
    if n == 0 {
        seq![]
    } else {
        let front = n - 1;
        let before = worker_obstacles(body, g, owner, (n - 1) as nat);
        if front != owner && paints_over_desk(g, owner, figure_item(g.desk_tile_spec(front), IsoKind::Worker(front as usize))) {
            before.push(blocked_cells(body, g, worker_bounds_spec(g, front)))
        } else {
            before
        }
    }
}

/// The cells a plate under `owner`'s desk must avoid: the figures of the
/// other workers painted over the desk, then the manager's when it is
/// out helping a blocked worker and painted over the desk.
pub open spec fn plate_obstacles_spec(
    body: Rect,
    g: IsoGrid,
    owner: int,
    count: int,
    manager_for: Option<usize>,
    now: i64,
) -> Seq<Rect> {
    let workers = worker_obstacles(body, g, owner, count as nat);
    match manager_for {
        Some(blocked) => {
            let tile = manager_tile_spec(g, count, blocked as int);
            let item = figure_item((tile.0 as usize, tile.1 as usize), IsoKind::Manager);
            if paints_over_desk(g, owner, item) {
                let b = manager_bounds_spec(g, tile, now);
                workers.push(blocked_cells(body, g, (b.0, b.1, b.2, b.3)))
            } else {
                workers
            }
        },
        None => workers,
    }
}

pub fn plate_obstacles(
    body: Rect,
    grid: IsoGrid,
    owner: usize,
    worker_count: usize,
    manager_for: Option<usize>,
    now: i64,
) -> (r: Vec<Rect>)
    requires
        plate_grid(grid),
    ensures
        r@ == plate_obstacles_spec(body, grid, owner as int, worker_count as int, manager_for, now),
{
    let owner_tile = grid.desk_tile(owner);
    let owner_key = painter_key(
        IsoItem {
            tile_x: owner_tile.0,
            tile_y: owner_tile.1,
            footprint: IsoFootprint { width: 1, depth: 1, height: 1 },
            kind: IsoKind::Desk(owner),
        },
    );
    let mut obstacles: Vec<Rect> = Vec::new();
    let mut front: usize = 0;
    while front < worker_count
        invariant
            plate_grid(grid),
            front <= worker_count,
            (owner_key.0 as int, owner_key.1 as int, owner_key.2 as int) == desk_key(grid, owner as int),
            obstacles@ == worker_obstacles(body, grid, owner as int, front as nat),
        decreases worker_count - front,
    {
        if front != owner {
            let front_tile = grid.desk_tile(front);
            let front_key = painter_key(
                IsoItem {
                    tile_x: front_tile.0,
                    tile_y: front_tile.1,
                    footprint: IsoFootprint { width: 1, depth: 1, height: 2 },
                    kind: IsoKind::Worker(front),
                },
            );
            if !key_le_exec(front_key, owner_key) {
                let (x, y, width, height) = worker_bounds(grid, RoomScale::Floor, front);
                obstacles.push(expanded_rect(scene_cell_rect(body, grid, x, y, width, height), body, 1));
            }
        }
        front += 1;
    }
    if let Some(blocked) = manager_for {
        let tile = manager_tile(grid, worker_count, blocked);
        let manager_key = painter_key(
            IsoItem {
                tile_x: tile.0,
                tile_y: tile.1,
                footprint: IsoFootprint { width: 1, depth: 1, height: 2 },
                kind: IsoKind::Manager,
            },
        );
        if !key_le_exec(manager_key, owner_key) {
            let (x, y, width, height, _) = manager_bounds(grid, RoomScale::Floor, tile, now);
            obstacles.push(expanded_rect(scene_cell_rect(body, grid, x, y, width, height), body, 1));
        }
    }
    obstacles
}

// ---------------------------------------------------------------------------
// Choosing the plate's column
// ---------------------------------------------------------------------------

/// The one-row plate of width `width` at column `column` and row `row` of
/// the body.
pub open spec fn plate_at(body: Rect, width: u16, row: int, column: int) -> Rect {
    rect_spec(sat_u16(body.x + column) as u16, sat_u16(body.y + row) as u16, width, 1)
}

/// Whether a plate at `column` overlaps none of the obstacles.
pub open spec fn plate_is_clear(obstacles: Seq<Rect>, body: Rect, width: u16, row: int, column: int) -> bool {
    forall|i: int| 0 <= i < obstacles.len() ==> !overlap(plate_at(body, width, row, column), #[trigger] obstacles[i])
}

/// Whether `column` is where the plate goes: of the clear columns from 0
/// to `last`, the one nearest `preferred`, the leftmost of two equally
/// near; `preferred` itself when no column is clear.
pub open spec fn is_plate_column(
    obstacles: Seq<Rect>,
    body: Rect,
    width: u16,
    row: int,
    last: int,
    preferred: int,
    column: int,
) -> bool {
    if exists|c: int| 0 <= c <= last && #[trigger] plate_is_clear(obstacles, body, width, row, c) {
        &&& 0 <= column <= last
        &&& plate_is_clear(obstacles, body, width, row, column)
        &&& forall|c: int|
            0 <= c <= last && #[trigger] plate_is_clear(obstacles, body, width, row, c) ==> abs(column - preferred) < abs(c - preferred)
                || (abs(column - preferred) == abs(c - preferred) && column <= c)
    } else {
        column == preferred
    }
}

fn clear_of(obstacles: &Vec<Rect>, plate: Rect) -> (r: bool)
    ensures
        r == forall|i: int| 0 <= i < obstacles@.len() ==> !overlap(plate, #[trigger] obstacles@[i]),
{
    let mut i: usize = 0;
    while i < obstacles.len()
        invariant
            i <= obstacles@.len(),
            forall|k: int| 0 <= k < i ==> !overlap(plate, #[trigger] obstacles@[k]),
        decreases obstacles.len() - i,
    {
        if rects_overlap(plate, obstacles[i]) {
            return false;
        }
        i += 1;
    }
    true
}

fn distance(a: u16, b: u16) -> (r: u16)
    ensures
        r == abs(a - b),
{
    if a > b {
        a - b
    } else {
        b - a
    }
}

/// The column a plate goes to on `row`: the clear column from 0 to `last`
/// nearest `preferred`, the leftmost on ties, else `preferred`.
pub fn plate_column(obstacles: &Vec<Rect>, body: Rect, width: u16, row: u16, last: u16, preferred: u16) -> (r: u16)
    ensures
        is_plate_column(obstacles@, body, width, row as int, last as int, preferred as int, r as int),
{
    let mut best: Option<u16> = None;
    let mut column: u32 = 0;
    while column <= last as u32
        invariant
            column <= last + 1,
            match best {
                None => forall|c: int| 0 <= c < column ==> !#[trigger] plate_is_clear(obstacles@, body, width, row as int, c),
                Some(b) => {
                    &&& 0 <= b < column
                    &&& plate_is_clear(obstacles@, body, width, row as int, b as int)
                    &&& forall|c: int|
                        0 <= c < column && #[trigger] plate_is_clear(obstacles@, body, width, row as int, c) ==> abs(b - preferred) < abs(
                            c - preferred,
                        ) || (abs(b - preferred) == abs(c - preferred) && b <= c)
                },
            },
        decreases last + 1 - column,
    {
        let c = column as u16;
        let plate = Rect::new(body.x.saturating_add(c), body.y.saturating_add(row), width, 1);
        if clear_of(obstacles, plate) {
            assert(plate_is_clear(obstacles@, body, width, row as int, c as int));
            best = match best {
                None => Some(c),
                Some(b) => if distance(c, preferred) < distance(b, preferred) {
                    Some(c)
                } else {
                    Some(b)
                },
            };
        } else {
            proof {
                let i = choose|i: int| 0 <= i < obstacles@.len() && overlap(plate, #[trigger] obstacles@[i]);
                assert(!plate_is_clear(obstacles@, body, width, row as int, c as int));
            }
        }
        column += 1;
    }
    match best {
        Some(b) => b,
        None => preferred,
    }
}

// ---------------------------------------------------------------------------
// The plate
// ---------------------------------------------------------------------------

/// Where the plate of worker `slot` goes: `plate_width_spec` cells wide,
/// on the row under its desk kept inside the body, centred under the desk
/// where it can be and moved along the row to the nearest column clear of
/// the figures painted over the desk.
pub open spec fn is_worker_plate(
    body: Rect,
    g: IsoGrid,
    slot: int,
    count: int,
    manager_for: Option<usize>,
    now: i64,
    plate: Rect,
) -> bool {
    let width = plate_width_spec(body, g);
    let (center_x, y) = worker_plate_position_spec(g, slot);
    let last = sat_sub(body.width as int, width as int);
    let preferred = min(max(center_x - width / 2, 0), last);
    let row = min(max(y, 0), sat_sub(body.height as int, 1));
    let obstacles = plate_obstacles_spec(body, g, slot, count, manager_for, now);
    exists|column: int|
        is_plate_column(obstacles, body, width, row, last, preferred, column) && plate == plate_at(body, width, row, column)
}

pub fn worker_plate_rect(
    body: Rect,
    grid: IsoGrid,
    slot: usize,
    worker_count: usize,
    manager_for: Option<usize>,
    now: i64,
) -> (r: Rect)
    requires
        plate_grid(grid),
    ensures
        is_worker_plate(body, grid, slot as int, worker_count as int, manager_for, now, r),
{
    let width = worker_plate_width(body, grid);
    let (center_x, y) = worker_plate_position(grid, slot);
    let last = body.width.saturating_sub(width);
    let shifted: i64 = center_x as i64 - (width / 2) as i64;
    let preferred = (if shifted < 0 {
        0
    } else if shifted > last as i64 {
        last as i64
    } else {
        shifted
    }) as u16;
    let bottom_row = body.height.saturating_sub(1);
    let row = (if y < 0 {
        0
    } else if y > bottom_row as i32 {
        bottom_row as i32
    } else {
        y
    }) as u16;
    let obstacles = plate_obstacles(body, grid, slot, worker_count, manager_for, now);
    let column = plate_column(&obstacles, body, width, row, last, preferred);
    let plate = Rect::new(body.x.saturating_add(column), body.y.saturating_add(row), width, 1);
    proof {
        let (cx, py) = worker_plate_position_spec(grid, slot as int);
        assert(width == plate_width_spec(body, grid));
        assert(last as int == sat_sub(body.width as int, width as int));
        assert(preferred as int == min(max(cx - width / 2, 0), last as int));
        assert(row as int == min(max(py, 0), sat_sub(body.height as int, 1)));
        assert(plate == plate_at(body, width, row as int, column as int));
    }
    plate
}

/// A plate moves off its preferred column only to get clear of the
/// figures painted over its desk: whenever some column of its row is
/// clear, the plate is clear, and no clear column is nearer where it
/// wanted to be.
pub proof fn law_plates_avoid_figures_in_front(
    obstacles: Seq<Rect>,
    body: Rect,
    width: u16,
    row: int,
    last: int,
    preferred: int,
    column: int,
    other: int,
)
    requires
        is_plate_column(obstacles, body, width, row, last, preferred, column),
        0 <= other <= last,
        plate_is_clear(obstacles, body, width, row, other),
    ensures
        plate_is_clear(obstacles, body, width, row, column),
        0 <= column <= last,
        abs(column - preferred) <= abs(other - preferred),
{
}

/// The plate's column is determined: two columns that both fit the rule
/// are the same.
pub proof fn law_plate_column_is_unique(
    obstacles: Seq<Rect>,
    body: Rect,
    width: u16,
    row: int,
    last: int,
    preferred: int,
    first: int,
    second: int,
)
    requires
        is_plate_column(obstacles, body, width, row, last, preferred, first),
        is_plate_column(obstacles, body, width, row, last, preferred, second),
    ensures
        first == second,
{
    if exists|c: int| 0 <= c <= last && #[trigger] plate_is_clear(obstacles, body, width, row, c) {
        assert(plate_is_clear(obstacles, body, width, row, first));
        assert(plate_is_clear(obstacles, body, width, row, second));
        assert(abs(first - preferred) < abs(second - preferred) || (abs(first - preferred) == abs(second - preferred)
            && first <= second));
        assert(abs(second - preferred) < abs(first - preferred) || (abs(first - preferred) == abs(second - preferred)
            && second <= first));
    }
}

/// The body of terminal cells a canvas covers, each way at most `u16::MAX`.
pub open spec fn canvas_body(width: int, height: int, g: IsoGrid) -> Rect {
    rect_spec(
        0,
        0,
        min(width / (g.pixels_per_cell.0 as int), u16::MAX as int) as u16,
        min(height / (g.pixels_per_cell.1 as int), u16::MAX as int) as u16,
    )
}

/// The colour of a name plate's chip: highlighted when selected.
pub open spec fn chip_color(selected: bool) -> Color {
    if selected {
        Color::Rgb(48, 53, 59)
    } else {
        Color::Rgb(34, 37, 41)
    }
}

/// Paints the chip behind worker `slot`'s name plate: the plate's cells,
/// in canvas pixels, in the panel colour. `blocked` is the worker the
/// manager is helping, if any.
pub fn draw_nameplate_chip(
    canvas: &mut Canvas,
    grid: IsoGrid,
    slot: usize,
    worker_count: usize,
    blocked: Option<usize>,
    now: i64,
    selected: bool,
)
    requires
        old(canvas).wf(),
        plate_grid(grid),
        grid.pixels_per_cell == (old(canvas).geometry_spec().cell_width, old(canvas).geometry_spec().cell_height),
    ensures
        final(canvas).wf(),
        final(canvas).geometry_spec() == old(canvas).geometry_spec(),
        final(canvas).is_light() == old(canvas).is_light(),
        exists|plate: Rect|
            #[trigger] is_worker_plate(
                canvas_body(old(canvas).geometry_spec().width as int, old(canvas).geometry_spec().height as int, grid),
                grid,
                slot as int,
                worker_count as int,
                blocked,
                now,
                plate,
            ) && forall|a: int, b: int|
                #[trigger] final(canvas).at(a, b) == if in_rect(
                    plate.x * grid.pixels_per_cell.0,
                    plate.y * grid.pixels_per_cell.1,
                    plate.width * grid.pixels_per_cell.0,
                    plate.height * grid.pixels_per_cell.1,
                    a,
                    b,
                ) && old(canvas).inside(a, b) {
                    Some(chip_color(selected))
                } else {
                    old(canvas).at(a, b)
                },
{
    let geometry = canvas.geometry();
    let (px, py) = grid.pixels_per_cell;
    let columns = geometry.width / px;
    let rows = geometry.height / py;
    let body = Rect::new(
        0,
        0,
        (if columns < 0xffff {
            columns
        } else {
            0xffff
        }) as u16,
        (if rows < 0xffff {
            rows
        } else {
            0xffff
        }) as u16,
    );
    assert(body == canvas_body(geometry.width as int, geometry.height as int, grid));
    let plate = worker_plate_rect(body, grid, slot, worker_count, blocked, now);
    let color = if selected {
        Color::Rgb(48, 53, 59)
    } else {
        Color::Rgb(34, 37, 41)
    };
    assert(plate.x * px <= 0xffff * 16 && plate.y * py <= 0xffff * 16) by (nonlinear_arith)
        requires
            px <= 16,
            py <= 16,
            plate.x <= 0xffff,
            plate.y <= 0xffff,
    ;
    assert(plate.width * px <= 0xffff * 16 && plate.height * py <= 0xffff * 16) by (nonlinear_arith)
        requires
            px <= 16,
            py <= 16,
            plate.width <= 0xffff,
            plate.height <= 0xffff,
    ;
    canvas.fill_rect(
        plate.x as i32 * px as i32,
        plate.y as i32 * py as i32,
        plate.width as i32 * px as i32,
        plate.height as i32 * py as i32,
        color,
    );
    assert(is_worker_plate(
        canvas_body(geometry.width as int, geometry.height as int, grid),
        grid,
        slot as int,
        worker_count as int,
        blocked,
        now,
        plate,
    ));
}

} // verus!
