//! Room plans in canvas pixels: figure sizes and the flat (top-down and side)
//! office stations.
use vstd::prelude::*;
use crate::canvas::{Canvas, CanvasGeometry, PixelEncoding, geometry_in_range};
use crate::color::Color;
use crate::layout::{OfficeLayout, ceil_div, div_ceil, min, max, sat_sub};
use crate::views::Projection;

verus! {

/// The largest authored figure (24x34, 14x20 or 7x10 pixels) that fits,
/// enlarged by the greatest whole factor that still fits. Quadrant cells of
/// square density draw each figure pixel two pixels wide.
pub open spec fn figure_size(encoding: PixelEncoding, density: (usize, usize), width: nat, height: nat) -> (nat, nat) {
    let stretch: nat = if encoding == PixelEncoding::Quadrants && density == (2usize, 2usize) {
        2
    } else {
        1
    };
    let (sw, sh) = if 24 * stretch <= width && 34 <= height {
        (24nat, 34nat)
    } else if 14 * stretch <= width && 20 <= height {
        (14nat, 20nat)
    } else {
        (7nat, 10nat)
    };
    let zoom = max(min((width / (sw * stretch)) as int, (height / sh) as int), 1) as nat;
    (sw * stretch * zoom, sh * zoom)
}

pub fn figure_dimensions(encoding: PixelEncoding, density: (usize, usize), width: usize, height: usize) -> (r: (usize, usize))
    ensures
        (r.0 as nat, r.1 as nat) == figure_size(encoding, density, width as nat, height as nat),
        r.0 <= max(width as int, 48),
        r.1 <= max(height as int, 34),
{
    let stretch: usize = if encoding == PixelEncoding::Quadrants && density.0 == 2 && density.1 == 2 {
        2
    } else {
        1
    };
    let (sw, sh): (usize, usize) = if 24 * stretch <= width && 34 <= height {
        (24, 34)
    } else if 14 * stretch <= width && 20 <= height {
        (14, 20)
    } else {
        (7, 10)
    };
    let across = width / (sw * stretch);
    let down = height / sh;
    let fit = if across < down {
        across
    } else {
        down
    };
    let zoom = if fit < 1 {
        1
    } else {
        fit
    };
    assert(sw * stretch * zoom <= max(width as int, sw * stretch)) by (nonlinear_arith)
        requires
            zoom == 1 || zoom <= width as int / (sw * stretch) as int,
            sw * stretch >= 1,
    ;
    assert(sh * zoom <= max(height as int, sh as int)) by (nonlinear_arith)
        requires
            zoom == 1 || zoom <= height as int / sh as int,
            sh >= 1,
    ;
    (sw * stretch * zoom, sh * zoom)
}

/// A figure always fits the space it is given once that space holds the
/// smallest figure.
pub proof fn law_figures_fit_their_space(encoding: PixelEncoding, density: (usize, usize), width: nat, height: nat)
    requires
        width >= 14,
        height >= 10,
    ensures
        figure_size(encoding, density, width, height).0 <= width,
        figure_size(encoding, density, width, height).1 <= height,
{
    let stretch: nat = if encoding == PixelEncoding::Quadrants && density == (2usize, 2usize) {
        2
    } else {
        1
    };
    let (sw, sh) = if 24 * stretch <= width && 34 <= height {
        (24nat, 34nat)
    } else if 14 * stretch <= width && 20 <= height {
        (14nat, 20nat)
    } else {
        (7nat, 10nat)
    };
    let zoom = max(min((width / (sw * stretch)) as int, (height / sh) as int), 1) as nat;
    assert(sw * stretch <= width);
    assert(sh <= height);
    assert(width / (sw * stretch) >= 1) by (nonlinear_arith)
        requires
            sw * stretch <= width,
            sw * stretch >= 1,
    ;
    assert(height / sh >= 1) by (nonlinear_arith)
        requires
            sh <= height,
            sh >= 1,
    ;
    assert(sw * stretch * zoom <= width) by (nonlinear_arith)
        requires
            zoom <= width / (sw * stretch),
            sw * stretch >= 1,
    ;
    assert(sh * zoom <= height) by (nonlinear_arith)
        requires
            zoom <= height / sh,
            sh >= 1,
    ;
}


// ---------------------------------------------------------------------------
// Flat rooms
// ---------------------------------------------------------------------------

/// One desk of a flat room, in canvas pixels; the label row is in pixels too,
/// its width in cells.
#[derive(Debug, Clone, Copy, PartialEq, Eq, Structural)]
pub struct Station {
    pub center_x: usize,
    pub worker_y: usize,
    pub worker_width: usize,
    pub worker_height: usize,
    pub desk_y: usize,
    pub desk_width: usize,
    pub desk_height: usize,
    pub label_y: usize,
    pub label_width: usize,
}

/// The room-wide measures every station is placed by.
pub struct FlatFrame {
    pub top: int,
    pub height: int,
    pub wall_height: int,
    pub floor_line: int,
    pub side: bool,
    pub columns: int,
    pub lounge: bool,
    pub station_height: int,
    pub slot_width: int,
}

pub open spec fn clamp(v: int, lo: int, hi: int) -> int {
    max(min(v, hi), lo)
}

/// The room's band of the canvas: at most 28 to 48 cells tall (more on
/// wider canvases), centred vertically. Returns `(top, height)`.
pub open spec fn room_band(c: CanvasGeometry) -> (int, int) {
    let px = c.cell_width as int;
    let py = c.cell_height as int;
    let height = min(c.height as int, clamp(c.width as int / px / 3 + 16, 28, 48) * py);
    (sat_sub(c.height as int, height) / 2, height)
}

/// Desk columns and rows: one row of every worker from the side, else the
/// layout's columns, never more than there are workers.
pub open spec fn room_grid(count: nat, layout: OfficeLayout, side: bool) -> (int, int) {
    let n = max(count as int, 1);
    let columns = if side {
        n
    } else {
        min(max(layout.columns as int, 1), n)
    };
    (columns, ceil_div(n as nat, columns as nat) as int)
}

/// A seventh of the room, kept between two and six cells and under a third.
pub open spec fn wall_of(height: int, py: int) -> int {
    min(clamp(height / 7, py * 2, py * 6), height / 3)
}

pub open spec fn flat_frame(c: CanvasGeometry, count: nat, layout: OfficeLayout, projection: Projection) -> FlatFrame {
    let px = c.cell_width as int;
    let py = c.cell_height as int;
    let width = c.width as int;
    let (top, height) = room_band(c);
    let side = projection == Projection::Side;
    let (columns, rows) = room_grid(count, layout, side);
    let wall_height = wall_of(height, py);
    let floor_line = top + if side {
        sat_sub(height, max(height / 8, py * 2))
    } else {
        wall_height
    };
    let lounge = !side && rows == 1 && height / py >= 36;
    let floor_height = sat_sub(height, wall_height + py);
    let station_height = if side {
        sat_sub(floor_line, top + wall_height)
    } else if lounge {
        floor_height * 3 / 5
    } else {
        floor_height / rows
    };
    let margin = if width / px >= 110 {
        px * 5
    } else {
        px
    };
    FlatFrame {
        top,
        height,
        wall_height,
        floor_line,
        side,
        columns,
        lounge,
        station_height,
        slot_width: sat_sub(width, margin * 2) / columns,
    }
}

/// The centre of `slot`'s desk: rows fill left to right and each row is
/// centred as a group.
pub open spec fn station_center(width: int, f: FlatFrame, count: nat, slot: int) -> int {
    let row = slot / f.columns;
    let row_count = min(count - row * f.columns, f.columns);
    let row_width = f.slot_width * row_count;
    sat_sub(width, row_width) / 2 + (slot % f.columns) * f.slot_width + f.slot_width / 2
}

/// The figure of every station: the largest that fits half a slot and the
/// height budget of a station.
pub open spec fn station_figure(c: CanvasGeometry, f: FlatFrame) -> (nat, nat) {
    let px = c.cell_width as int;
    let py = c.cell_height as int;
    let budget_height = if f.side {
        min(f.station_height, f.height * 2 / 3) * 2 / 3
    } else {
        sat_sub(f.station_height, py * 2) * 4 / 5
    };
    figure_size(
        c.encoding,
        (c.cell_width, c.cell_height),
        (sat_sub(f.slot_width, px * 4) / 2) as nat,
        budget_height as nat,
    )
}

/// The label row of `slot`: just above the floor line from the side, at the
/// foot of its row from above, and never below the room's last cell.
pub open spec fn station_label_y(c: CanvasGeometry, f: FlatFrame, slot: int) -> int {
    let py = c.cell_height as int;
    min(
        if f.side {
            f.floor_line + py / 2
        } else {
            f.top + f.wall_height + (slot / f.columns + 1) * f.station_height - py
        },
        sat_sub(f.top + f.height, py),
    )
}

/// The desk of `slot`: its figure seated behind a desk just above the label.
pub open spec fn station_spec(c: CanvasGeometry, f: FlatFrame, count: nat, slot: int) -> Station {
    let px = c.cell_width as int;
    let py = c.cell_height as int;
    let figure = station_figure(c, f);
    let worker_width = figure.0 as int;
    let worker_height = figure.1 as int;
    let desk_width = max(min(worker_width * 5 / 2, sat_sub(f.slot_width, px * 2)), px * 6);
    let desk_height = max(worker_height / 3, py * 2);
    let label_y = station_label_y(c, f, slot);
    let desk_y = sat_sub(label_y, desk_height + py);
    Station {
        center_x: station_center(c.width as int, f, count, slot) as usize,
        worker_y: sat_sub(desk_y, worker_height * 2 / 3) as usize,
        worker_width: worker_width as usize,
        worker_height: worker_height as usize,
        desk_y: desk_y as usize,
        desk_width: desk_width as usize,
        desk_height: desk_height as usize,
        label_y: label_y as usize,
        label_width: min(sat_sub(f.slot_width / px, 2), 28) as usize,
    }
}

/// A flat room: its band of the canvas, wall, floor line, optional lounge and
/// one station per shown worker.
pub struct FlatRoom {
    pub top: usize,
    pub bottom: usize,
    pub wall_height: usize,
    pub floor_line: usize,
    pub lounge_y: Option<usize>,
    pub stations: Vec<Station>,
}

/// The plan cannot place a top-down label row above the canvas: the first
/// row's label base must lie at or below one cell.
pub open spec fn flat_room_defined(c: CanvasGeometry, count: nat, layout: OfficeLayout, projection: Projection) -> bool {
    let f = flat_frame(c, count, layout, projection);
    &&& geometry_in_range(c)
    &&& count <= 0xffff_ffff
    &&& (count > 0 && !f.side ==> f.top + f.wall_height + f.station_height >= c.cell_height)
}

fn clamp_usize(v: usize, lo: usize, hi: usize) -> (r: usize)
    requires
        lo <= hi,
    ensures
        r == clamp(v as int, lo as int, hi as int),
{
    if v > hi {
        hi
    } else if v < lo {
        lo
    } else {
        v
    }
}

/// The room-wide measures, computed.
struct FrameValues {
    top: usize,
    height: usize,
    wall_height: usize,
    floor_line: usize,
    side: bool,
    columns: usize,
    rows: usize,
    lounge: bool,
    station_height: usize,
    slot_width: usize,
}

fn band(canvas: CanvasGeometry) -> (r: (usize, usize))
    requires
        geometry_in_range(canvas),
    ensures
        (r.0 as int, r.1 as int) == room_band(canvas),
        r.0 + r.1 <= canvas.height,
        r.1 <= 48 * 16,
{
    let cap_rows = clamp_usize(canvas.width / canvas.cell_width / 3 + 16, 28, 48);
    assert(cap_rows * canvas.cell_height <= 48 * 16) by (nonlinear_arith)
        requires
            cap_rows <= 48,
            canvas.cell_height <= 16,
    ;
    let rows_cap = cap_rows * canvas.cell_height;
    let height = if canvas.height < rows_cap {
        canvas.height
    } else {
        rows_cap
    };
    ((canvas.height - height) / 2, height)
}

fn grid(count: usize, layout: OfficeLayout, side: bool) -> (r: (usize, usize))
    ensures
        (r.0 as int, r.1 as int) == room_grid(count as nat, layout, side),
        r.0 >= 1,
        r.1 >= 1,
        r.1 * r.0 >= count,
{
    let n: usize = if count < 1 {
        1
    } else {
        count
    };
    let columns: usize = if side {
        n
    } else {
        let lc: usize = if layout.columns < 1 {
            1
        } else {
            layout.columns
        };
        if lc < n {
            lc
        } else {
            n
        }
    };
    let rows = div_ceil(n, columns);
    proof {
        crate::layout::lemma_ceil_div_facts(n as nat, columns as nat);
    }
    (columns, rows)
}

fn wall(height: usize, py: usize) -> (r: usize)
    requires
        1 <= py <= 16,
    ensures
        r == wall_of(height as int, py as int),
        r <= height,
{
    let seventh = clamp_usize(height / 7, py * 2, py * 6);
    if seventh < height / 3 {
        seventh
    } else {
        height / 3
    }
}

fn frame_values(canvas: CanvasGeometry, count: usize, layout: OfficeLayout, projection: Projection) -> (v: FrameValues)
    requires
        flat_room_defined(canvas, count as nat, layout, projection),
    ensures
        frame_of(v) == flat_frame(canvas, count as nat, layout, projection),
        frame_fits(canvas, v, count as nat),
{
    let px = canvas.cell_width;
    let py = canvas.cell_height;
    let width = canvas.width;
    let (top, height) = band(canvas);
    let side = match projection {
        Projection::Side => true,
        _ => false,
    };
    let (columns, rows) = grid(count, layout, side);
    let wall_height = wall(height, py);
    let floor_line = top + if side {
        let eighth = if height / 8 > py * 2 {
            height / 8
        } else {
            py * 2
        };
        height.saturating_sub(eighth)
    } else {
        wall_height
    };
    let lounge = !side && rows == 1 && height / py >= 36;
    let floor_height = height.saturating_sub(wall_height + py);
    let station_height = if side {
        floor_line.saturating_sub(top + wall_height)
    } else if lounge {
        floor_height * 3 / 5
    } else {
        assert(floor_height / rows * rows <= floor_height) by (nonlinear_arith)
            requires
                rows >= 1,
        ;
        assert(floor_height / rows <= floor_height) by (nonlinear_arith)
            requires
                rows >= 1,
        ;
        floor_height / rows
    };
    let margin = if width / px >= 110 {
        px * 5
    } else {
        px
    };
    let slot_width = width.saturating_sub(margin * 2) / columns;
    assert(slot_width * columns <= width) by (nonlinear_arith)
        requires
            slot_width == (if width > margin * 2 { width - margin * 2 } else { 0 }) / columns as int,
            columns >= 1,
    ;
    FrameValues {
        top,
        height,
        wall_height,
        floor_line,
        side,
        columns,
        rows,
        lounge,
        station_height,
        slot_width,
    }
}

/// The frame the computed measures stand for.
spec fn frame_of(v: FrameValues) -> FlatFrame {
    FlatFrame {
        top: v.top as int,
        height: v.height as int,
        wall_height: v.wall_height as int,
        floor_line: v.floor_line as int,
        side: v.side,
        columns: v.columns as int,
        lounge: v.lounge,
        station_height: v.station_height as int,
        slot_width: v.slot_width as int,
    }
}

/// What the computed measures satisfy, beyond their values.
spec fn frame_fits(canvas: CanvasGeometry, v: FrameValues, count: nat) -> bool {
    &&& geometry_in_range(canvas)
    &&& count <= 0xffff_ffff
    &&& v.columns >= 1
    &&& v.rows >= 1
    &&& v.rows * v.columns >= count
    &&& (v.lounge ==> v.rows == 1)
    &&& v.top + v.height <= canvas.height
    &&& v.height <= 48 * 16
    &&& v.wall_height <= v.height
    &&& v.floor_line <= v.top + v.height
    &&& (!v.lounge && !v.side ==> v.station_height * v.rows <= v.height)
    &&& v.station_height <= v.height
    &&& v.slot_width * v.columns <= canvas.width
    &&& (count > 0 && !v.side ==> v.top + v.wall_height + v.station_height >= canvas.cell_height)
}

fn center_of(canvas: CanvasGeometry, v: &FrameValues, count: usize, slot: usize) -> (x: usize)
    requires
        frame_fits(canvas, *v, count as nat),
        slot < count,
    ensures
        x == station_center(canvas.width as int, frame_of(*v), count as nat, slot as int),
        x <= canvas.width,
{
    let width = canvas.width;
    let columns = v.columns;
    let slot_width = v.slot_width;
    let row = slot / columns;
    assert(row * columns <= slot) by (nonlinear_arith)
        requires
            row == slot / columns,
            columns >= 1,
    ;
    let left = count - row * columns;
    let row_count = if left < columns {
        left
    } else {
        columns
    };
    assert(slot_width * row_count <= width) by (nonlinear_arith)
        requires
            slot_width * columns <= width,
            row_count <= columns,
    ;
    let row_width = slot_width * row_count;
    let col = slot % columns;
    assert(col == slot - row * columns) by (nonlinear_arith)
        requires
            row == slot / columns,
            col == slot % columns,
            columns >= 1,
    ;
    assert(col * slot_width + slot_width <= row_width) by (nonlinear_arith)
        requires
            row_width == slot_width * row_count,
            col < row_count,
    ;
    (width - row_width) / 2 + col * slot_width + slot_width / 2
}

fn figure_of(canvas: CanvasGeometry, v: &FrameValues) -> (r: (usize, usize))
    requires
        frame_fits(canvas, *v, 0),
    ensures
        (r.0 as nat, r.1 as nat) == station_figure(canvas, frame_of(*v)),
        r.0 <= 0xffff * 16,
        r.1 <= 48 * 16,
{
    let px = canvas.cell_width;
    let py = canvas.cell_height;
    let budget_height = if v.side {
        let two_thirds = v.height * 2 / 3;
        let capped = if v.station_height < two_thirds {
            v.station_height
        } else {
            two_thirds
        };
        capped * 2 / 3
    } else {
        v.station_height.saturating_sub(py * 2) * 4 / 5
    };
    assert(v.slot_width <= canvas.width) by (nonlinear_arith)
        requires
            v.slot_width * v.columns <= canvas.width,
            v.columns >= 1,
    ;
    figure_dimensions(canvas.encoding, (px, py), v.slot_width.saturating_sub(px * 4) / 2, budget_height)
}

fn label_of(canvas: CanvasGeometry, v: &FrameValues, count: usize, slot: usize) -> (y: usize)
    requires
        frame_fits(canvas, *v, count as nat),
        slot < count,
    ensures
        y == station_label_y(canvas, frame_of(*v), slot as int),
{
    let py = canvas.cell_height;
    let row = slot / v.columns;
    let base = if v.side {
        v.floor_line + py / 2
    } else {
        assert(row < v.rows) by (nonlinear_arith)
            requires
                row == slot / v.columns,
                v.columns >= 1,
                v.rows * v.columns >= count,
                slot < count,
        ;
        assert((row + 1) * v.station_height <= v.height) by (nonlinear_arith)
            requires
                row < v.rows,
                !v.lounge ==> v.station_height * v.rows <= v.height,
                v.lounge ==> v.station_height <= v.height && v.rows == 1,
        ;
        assert((row + 1) * v.station_height >= v.station_height) by (nonlinear_arith)
            requires
                row >= 0,
        ;
        v.top + v.wall_height + (row + 1) * v.station_height - py
    };
    let bottom_limit = (v.top + v.height).saturating_sub(py);
    if base < bottom_limit {
        base
    } else {
        bottom_limit
    }
}

fn plan_station(canvas: CanvasGeometry, v: &FrameValues, count: usize, slot: usize) -> (st: Station)
    requires
        frame_fits(canvas, *v, count as nat),
        slot < count,
    ensures
        st == station_spec(canvas, frame_of(*v), count as nat, slot as int),
{
    let px = canvas.cell_width;
    let py = canvas.cell_height;
    let center_x = center_of(canvas, v, count, slot);
    let (worker_width, worker_height) = figure_of(canvas, v);
    let label_y = label_of(canvas, v, count, slot);
    let wide = worker_width * 5 / 2;
    let room = v.slot_width.saturating_sub(px * 2);
    let fitted = if wide < room {
        wide
    } else {
        room
    };
    let desk_width = if fitted > px * 6 {
        fitted
    } else {
        px * 6
    };
    let desk_height = if worker_height / 3 > py * 2 {
        worker_height / 3
    } else {
        py * 2
    };
    let desk_y = label_y.saturating_sub(desk_height + py);
    let worker_y = desk_y.saturating_sub(worker_height * 2 / 3);
    let columns_of_label = (v.slot_width / px).saturating_sub(2);
    let label_width = if columns_of_label < 28 {
        columns_of_label
    } else {
        28
    };
    Station {
        center_x,
        worker_y,
        worker_width,
        worker_height,
        desk_y,
        desk_width,
        desk_height,
        label_y,
        label_width,
    }
}

impl FlatRoom {
    pub fn new(canvas: CanvasGeometry, count: usize, layout: OfficeLayout, projection: Projection) -> (r: Self)
        requires
            flat_room_defined(canvas, count as nat, layout, projection),
        ensures
            ({
                let f = flat_frame(canvas, count as nat, layout, projection);
                &&& r.top == f.top
                &&& r.bottom == f.top + f.height
                &&& r.wall_height == f.wall_height
                &&& r.floor_line == f.floor_line
                &&& r.lounge_y == (if f.lounge {
                    Some((f.top + f.wall_height + f.station_height + canvas.cell_height * 2) as usize)
                } else {
                    None
                })
                &&& r.stations@.len() == count
                &&& forall|slot: int| 0 <= slot < count ==> #[trigger] r.stations@[slot] == station_spec(canvas, f, count as nat, slot)
            }),
    {
        let ghost f = flat_frame(canvas, count as nat, layout, projection);
        let v = frame_values(canvas, count, layout, projection);
        let mut stations: Vec<Station> = Vec::new();
        let mut slot: usize = 0;
        while slot < count
            invariant
                f == frame_of(v),
                frame_fits(canvas, v, count as nat),
                slot <= count,
                stations@.len() == slot,
                forall|k: int| 0 <= k < slot ==> #[trigger] stations@[k] == station_spec(canvas, f, count as nat, k),
            decreases count - slot,
        {
            stations.push(plan_station(canvas, &v, count, slot));
            slot += 1;
        }
        let lounge_y = if v.lounge {
            Some(v.top + v.wall_height + v.station_height + canvas.cell_height * 2)
        } else {
            None
        };
        FlatRoom {
            top: v.top,
            bottom: v.top + v.height,
            wall_height: v.wall_height,
            floor_line: v.floor_line,
            lounge_y,
            stations,
        }
    }
}

/// The figure size for a space on this canvas.
pub fn character_dimensions(canvas: &Canvas, width: usize, height: usize) -> (r: (usize, usize))
    ensures
        (r.0 as nat, r.1 as nat) == figure_size(
            canvas.geometry_spec().encoding,
            (canvas.geometry_spec().cell_width, canvas.geometry_spec().cell_height),
            width as nat,
            height as nat,
        ),
{
    figure_dimensions(canvas.encoding(), canvas.pixels_per_cell(), width, height)
}

/// The background colour of scenes.
pub open spec fn background_spec() -> Color {
    Color::Rgb(24, 26, 29)
}

/// The list view keeps its canvas quiet: the text rows carry identity and
/// status, and the room behind them is cleared to the background.
pub fn draw_list_scene(canvas: &mut Canvas)
    requires
        old(canvas).wf(),
    ensures
        final(canvas).wf(),
        final(canvas).geometry_spec() == old(canvas).geometry_spec(),
        forall|a: int, b: int|
            #[trigger] final(canvas).at(a, b) == if old(canvas).inside(a, b) {
                Some(background_spec())
            } else {
                None::<Color>
            },
{
    canvas.fill(Color::Rgb(24, 26, 29));
}

} // verus!
