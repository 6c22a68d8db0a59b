//! Room furniture drawn from canvas shapes: the meeting rug, the meeting
//! table and desk chairs.
use vstd::prelude::*;
use crate::canvas::{in_rect, Canvas};
use crate::color::Color;
use crate::iso::{diamond_contains_spec, grid_in_range, tile_center, worker_size_spec, IsoGrid, RoomScale};
use crate::layout::max;
use crate::shapes::{
    after_diamond, diamond_edges_fit, draw_diamond, draw_line, draw_rect_outline,
    fill_diamond, line_fits, on_border, on_line, outline_color, outline_color_spec, outline_fits,
};

verus! {

/// The rug's half extents: nine twentieths of a tile each way, at least
/// three by two pixels.
pub open spec fn rug_half(g: IsoGrid) -> (int, int) {
    (max(g.tile_width * 9 / 20, 3), max(g.tile_height * 9 / 20, 2))
}

/// Whether `(a, b)` lies on one of the rug's four edges.
pub open spec fn on_rug_edge(cx: int, cy: int, hw: int, hh: int, a: int, b: int) -> bool {
    ||| on_line(cx, cy - hh, cx - hw, cy, a, b)
    ||| on_line(cx, cy - hh, cx + hw, cy, a, b)
    ||| on_line(cx - hw, cy, cx, cy + hh, a, b)
    ||| on_line(cx + hw, cy, cx, cy + hh, a, b)
}

/// The pixel at `(a, b)` after the rug centred on `(cx, cy)` is drawn on
/// `before`: a red diamond with a darker border.
pub open spec fn after_rug(before: Canvas, g: IsoGrid, cx: int, cy: int, a: int, b: int) -> Option<Color> {
    let (hw, hh) = rug_half(g);
    if before.inside(a, b) && on_rug_edge(cx, cy, hw, hh, a, b) {
        Some(Color::Rgb(142, 58, 46))
    } else if before.inside(a, b) && diamond_contains_spec(a - cx, b - cy, hw, hh) {
        Some(Color::Rgb(194, 90, 74))
    } else {
        before.at(a, b)
    }
}

pub fn draw_rug(canvas: &mut Canvas, grid: IsoGrid, center_x: i32, center_y: i32)
    requires
        old(canvas).wf(),
        grid_in_range(grid),
        diamond_edges_fit(center_x as int, center_y as int, rug_half(grid).0, rug_half(grid).1),
    ensures
        final(canvas).wf(),
        final(canvas).geometry_spec() == old(canvas).geometry_spec(),
        final(canvas).is_light() == old(canvas).is_light(),
        forall|a: int, b: int|
            #[trigger] final(canvas).at(a, b) == after_rug(*old(canvas), grid, center_x as int, center_y as int, a, b),
{
    assert(grid.tile_height <= 1_500_000) by (nonlinear_arith)
        requires
            (grid.columns + grid.rows) * grid.tile_height <= 3_000_000,
            grid.columns + grid.rows >= 2,
    ;
    let w = grid.tile_width * 9 / 20;
    let half_width = if w > 3 {
        w
    } else {
        3
    };
    let h = grid.tile_height * 9 / 20;
    let half_height = if h > 2 {
        h
    } else {
        2
    };
    let rug = Color::Rgb(194, 90, 74);
    let border = Color::Rgb(142, 58, 46);
    fill_diamond(canvas, center_x, center_y, half_width, half_height, rug, rug);
    let top = (center_x, center_y - half_height);
    let right = (center_x + half_width, center_y);
    let bottom = (center_x, center_y + half_height);
    let left = (center_x - half_width, center_y);
    draw_line(canvas, top.0, top.1, left.0, left.1, border);
    draw_line(canvas, top.0, top.1, right.0, right.1, border);
    draw_line(canvas, left.0, left.1, bottom.0, bottom.1, border);
    draw_line(canvas, right.0, right.1, bottom.0, bottom.1, border);
}

/// The table top's half extents: a fifth of a tile wide (two pixels at
/// least), half a tile deep (one pixel at least).
pub open spec fn table_half(g: IsoGrid) -> (int, int) {
    (max(g.tile_width / 5, 2), max(g.tile_height / 2, 1))
}

/// Whether `(a, b)` lies on one of the table's two legs: from the table's
/// centre row down half a tile and one pixel, a quarter of the top's
/// width either side of its centre.
pub open spec fn on_table_leg(g: IsoGrid, cx: int, cy: int, a: int, b: int) -> bool {
    let hw = table_half(g).0;
    let foot = cy + g.tile_height / 2 + 1;
    on_line(cx - hw / 2, cy, cx - hw / 2, foot, a, b) || on_line(cx + hw / 2, cy, cx + hw / 2, foot, a, b)
}

/// Tables whose top and legs fit the pixel arithmetic.
pub open spec fn table_fits(g: IsoGrid, cx: int, cy: int) -> bool {
    let (hw, hh) = table_half(g);
    &&& i32::MIN <= cy - 1
    &&& diamond_edges_fit(cx, cy - 1, hw, hh)
    &&& cy + g.tile_height / 2 + 1 <= i32::MAX
    &&& line_fits(cx, cy, cx, cy + g.tile_height / 2 + 1)
}

/// The pixel at `(a, b)` after the meeting table centred on `(cx, cy)` is
/// drawn on `before`: a wooden floor diamond a pixel up, its legs in the
/// theme's outline colour.
pub open spec fn after_table(before: Canvas, g: IsoGrid, cx: int, cy: int, a: int, b: int) -> Option<Color> {
    let (hw, hh) = table_half(g);
    if before.inside(a, b) && on_table_leg(g, cx, cy, a, b) {
        Some(outline_color_spec(before.is_light()))
    } else {
        after_diamond(before, cx, cy - 1, hw, hh, Color::Rgb(107, 68, 41), Color::Rgb(138, 90, 56), a, b)
    }
}

pub fn draw_table(canvas: &mut Canvas, grid: IsoGrid, center_x: i32, center_y: i32)
    requires
        old(canvas).wf(),
        grid_in_range(grid),
        table_fits(grid, center_x as int, center_y as int),
    ensures
        final(canvas).wf(),
        final(canvas).geometry_spec() == old(canvas).geometry_spec(),
        final(canvas).is_light() == old(canvas).is_light(),
        forall|a: int, b: int|
            #[trigger] final(canvas).at(a, b) == after_table(*old(canvas), grid, center_x as int, center_y as int, a, b),
{
    let w = grid.tile_width / 5;
    let half_width = if w > 2 {
        w
    } else {
        2
    };
    let h = grid.tile_height / 2;
    let half_height = if h > 1 {
        h
    } else {
        1
    };
    let outline = outline_color(canvas);
    draw_diamond(
        canvas,
        center_x,
        center_y - 1,
        half_width,
        half_height,
        Color::Rgb(107, 68, 41),
        Color::Rgb(138, 90, 56),
    );
    let foot = center_y + grid.tile_height / 2 + 1;
    draw_line(canvas, center_x - half_width / 2, center_y, center_x - half_width / 2, foot, outline);
    draw_line(canvas, center_x + half_width / 2, center_y, center_x + half_width / 2, foot, outline);
}

/// A chair's back: two thirds of a worker's width, a third of its height
/// (three pixels at least each way), centred on the desk's tile, its top
/// two thirds of a worker's height above the tile's centre.
/// `(x, y, width, height)`.
pub open spec fn chair_box(g: IsoGrid, slot: int) -> (int, int, int, int) {
    let tile = g.desk_tile_spec(slot);
    let (cx, cy) = tile_center(g, tile.0 as int, tile.1 as int);
    let (ww, wh) = worker_size_spec(g);
    let width = max((ww * 2 / 3) as int, 3);
    let height = max((wh / 3) as int, 3);
    (cx - width / 2, cy - (wh * 2) as int / 3, width, height)
}

/// The row a chair's legs reach: a quarter tile below the tile's centre.
pub open spec fn chair_foot(g: IsoGrid, slot: int) -> int {
    let tile = g.desk_tile_spec(slot);
    tile_center(g, tile.0 as int, tile.1 as int).1 + g.tile_height / 4
}

/// Whether `(a, b)` lies on one of a chair's legs: from under the back,
/// one pixel in from either side, down to the chair's foot row.
pub open spec fn on_chair_leg(g: IsoGrid, slot: int, a: int, b: int) -> bool {
    let (x, y, w, h) = chair_box(g, slot);
    let foot = chair_foot(g, slot);
    on_line(x + 1, y + h, x + 1, foot, a, b) || on_line(x + w - 2, y + h, x + w - 2, foot, a, b)
}

/// Chairs whose back and legs fit the pixel arithmetic.
pub open spec fn chair_fits(g: IsoGrid, slot: int) -> bool {
    let (x, y, w, h) = chair_box(g, slot);
    let foot = chair_foot(g, slot);
    &&& outline_fits(x, y, w, h)
    &&& line_fits(x + 1, y + h, x + 1, foot)
}

/// The pixel at `(a, b)` after the chair of desk `slot` is drawn on
/// `before`: a filled back with an outline, and two legs, outlines and
/// legs in the theme's outline colour.
pub open spec fn after_chair(before: Canvas, g: IsoGrid, slot: int, a: int, b: int) -> Option<Color> {
    let (x, y, w, h) = chair_box(g, slot);
    if before.inside(a, b) && (on_chair_leg(g, slot, a, b) || on_border(x, y, w, h, a, b)) {
        Some(outline_color_spec(before.is_light()))
    } else if before.inside(a, b) && in_rect(x, y, w, h, a, b) {
        Some(Color::Rgb(65, 58, 91))
    } else {
        before.at(a, b)
    }
}

pub fn draw_chair(canvas: &mut Canvas, grid: IsoGrid, scale: RoomScale, slot: usize)
    requires
        old(canvas).wf(),
        grid_in_range(grid),
        chair_fits(grid, slot as int),
    ensures
        final(canvas).wf(),
        final(canvas).geometry_spec() == old(canvas).geometry_spec(),
        final(canvas).is_light() == old(canvas).is_light(),
        forall|a: int, b: int| #[trigger] final(canvas).at(a, b) == after_chair(*old(canvas), grid, slot as int, a, b),
{
    let tile = grid.desk_tile(slot);
    let (center_x, center_y) = grid.center(tile.0, tile.1);
    let (worker_width, worker_height) = scale.worker_size(grid);
    let w = worker_width * 2 / 3;
    let width = (if w > 3 {
        w
    } else {
        3
    }) as i32;
    let h = worker_height / 3;
    let height = (if h > 3 {
        h
    } else {
        3
    }) as i32;
    let x = center_x - width / 2;
    let y = center_y - worker_height as i32 * 2 / 3;
    let outline = outline_color(canvas);
    canvas.fill_rect(x, y, width, height, Color::Rgb(65, 58, 91));
    draw_rect_outline(canvas, x, y, width, height, outline);
    let foot = center_y + grid.tile_height / 4;
    draw_line(canvas, x + 1, y + height, x + 1, foot, outline);
    draw_line(canvas, x + width - 2, y + height, x + width - 2, foot, outline);
}

} // verus!
