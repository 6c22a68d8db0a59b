//! The isometric floor plate: its seams and its lit and shaded rims.
use vstd::prelude::*;
use crate::canvas::Canvas;
use crate::color::Color;
use crate::iso::{
    fits_i32, floor_corners, floor_corners_spec, floor_points, grid_in_range, lerp_fits, lerp_point, lerp_point_spec,
    IsoGrid,
};
use crate::polygon::{edge, fill_polygon, in_filled_row};
use crate::shapes::{draw_line, line_fits, on_line, outline_color, outline_color_spec};

verus! {

// ---------------------------------------------------------------------------
// Rims
// ---------------------------------------------------------------------------

/// Whether `(a, b)` lies on the floor's front rim: the two front edges
/// repeated one and two pixels lower.
pub open spec fn on_front_rim(g: IsoGrid, a: int, b: int) -> bool {
    let c = floor_corners_spec(g);
    let (right, front, left) = (c[1], c[2], c[3]);
    ||| on_line(left.0, left.1 + 1, front.0, front.1 + 1, a, b)
    ||| on_line(front.0, front.1 + 1, right.0, right.1 + 1, a, b)
    ||| on_line(left.0, left.1 + 2, front.0, front.1 + 2, a, b)
    ||| on_line(front.0, front.1 + 2, right.0, right.1 + 2, a, b)
}

/// Grids whose floor edges fit the line arithmetic.
pub open spec fn floor_edges_fit(g: IsoGrid) -> bool {
    let c = floor_corners_spec(g);
    let (back, right, front, left) = (c[0], c[1], c[2], c[3]);
    &&& line_fits(back.0, back.1, left.0, left.1)
    &&& line_fits(back.0, back.1, right.0, right.1)
    &&& line_fits(left.0, left.1, front.0, front.1)
    &&& line_fits(front.0, front.1, right.0, right.1)
}

/// The colour the floor's edges give `(a, b)`, if any: the back edges
/// lit, the front edges in the theme's outline colour, and a two-pixel
/// shaded rim below the front edges over everything.
pub open spec fn edge_paint(g: IsoGrid, light: bool, a: int, b: int) -> Option<Color> {
    let c = floor_corners_spec(g);
    let (back, right, front, left) = (c[0], c[1], c[2], c[3]);
    if on_front_rim(g, a, b) {
        Some(Color::Rgb(156, 135, 99))
    } else if on_line(left.0, left.1, front.0, front.1, a, b) || on_line(front.0, front.1, right.0, right.1, a, b) {
        Some(outline_color_spec(light))
    } else if on_line(back.0, back.1, left.0, left.1, a, b) || on_line(back.0, back.1, right.0, right.1, a, b) {
        Some(Color::Rgb(220, 201, 164))
    } else {
        None
    }
}

/// The pixel at `(a, b)` after the floor's edges are drawn on `before`.
pub open spec fn after_floor_edges(before: Canvas, g: IsoGrid, a: int, b: int) -> Option<Color> {
    if before.inside(a, b) && edge_paint(g, before.is_light(), a, b) is Some {
        edge_paint(g, before.is_light(), a, b)
    } else {
        before.at(a, b)
    }
}

proof fn lemma_line_shift(x0: int, y0: int, x1: int, y1: int, o: int)
    ensures
        line_fits(x0, y0 + o, x1, y1 + o) == line_fits(x0, y0, x1, y1),
{
    assert((y1 + o) - (y0 + o) == y1 - y0);
}

pub fn draw_floor_edges(canvas: &mut Canvas, grid: IsoGrid)
    requires
        old(canvas).wf(),
        grid_in_range(grid),
        floor_edges_fit(grid),
    ensures
        final(canvas).wf(),
        final(canvas).geometry_spec() == old(canvas).geometry_spec(),
        final(canvas).is_light() == old(canvas).is_light(),
        forall|a: int, b: int| #[trigger] final(canvas).at(a, b) == after_floor_edges(*old(canvas), grid, a, b),
{
    let ghost before = *canvas;
    let corners = floor_corners(grid);
    let back = corners[0];
    let right = corners[1];
    let front = corners[2];
    let left = corners[3];
    assert((back.0 as int, back.1 as int) == floor_corners_spec(grid)[0]);
    assert((right.0 as int, right.1 as int) == floor_corners_spec(grid)[1]);
    assert((front.0 as int, front.1 as int) == floor_corners_spec(grid)[2]);
    assert((left.0 as int, left.1 as int) == floor_corners_spec(grid)[3]);
    let outline = outline_color(canvas);
    draw_line(canvas, back.0, back.1, left.0, left.1, Color::Rgb(220, 201, 164));
    draw_line(canvas, back.0, back.1, right.0, right.1, Color::Rgb(220, 201, 164));
    draw_line(canvas, left.0, left.1, front.0, front.1, outline);
    draw_line(canvas, front.0, front.1, right.0, right.1, outline);
    proof {
        lemma_line_shift(left.0 as int, left.1 as int, front.0 as int, front.1 as int, 1);
        lemma_line_shift(front.0 as int, front.1 as int, right.0 as int, right.1 as int, 1);
        lemma_line_shift(left.0 as int, left.1 as int, front.0 as int, front.1 as int, 2);
        lemma_line_shift(front.0 as int, front.1 as int, right.0 as int, right.1 as int, 2);
    }
    let shade = Color::Rgb(156, 135, 99);
    draw_line(canvas, left.0, left.1 + 1, front.0, front.1 + 1, shade);
    draw_line(canvas, front.0, front.1 + 1, right.0, right.1 + 1, shade);
    draw_line(canvas, left.0, left.1 + 2, front.0, front.1 + 2, shade);
    draw_line(canvas, front.0, front.1 + 2, right.0, right.1 + 2, shade);
}

// ---------------------------------------------------------------------------
// Seams
// ---------------------------------------------------------------------------

/// The seam between column `i - 1` and column `i` of tiles: from the back
/// edge to the front edge, `i / columns` of the way along each.
pub open spec fn column_seam(g: IsoGrid, i: int) -> ((int, int), (int, int)) {
    let c = floor_corners_spec(g);
    (lerp_point_spec(c[0], c[1], i, g.columns as int), lerp_point_spec(c[3], c[2], i, g.columns as int))
}

/// The seam between row `j - 1` and row `j` of tiles.
pub open spec fn row_seam(g: IsoGrid, j: int) -> ((int, int), (int, int)) {
    let c = floor_corners_spec(g);
    (lerp_point_spec(c[0], c[3], j, g.rows as int), lerp_point_spec(c[1], c[2], j, g.rows as int))
}

pub open spec fn on_segment(s: ((int, int), (int, int)), a: int, b: int) -> bool {
    on_line(s.0.0, s.0.1, s.1.0, s.1.1, a, b)
}

/// Whether `(a, b)` lies on a seam between tiles.
pub open spec fn on_seam(g: IsoGrid, a: int, b: int) -> bool {
    ||| exists|i: int| 1 <= i < g.columns && #[trigger] on_segment(column_seam(g, i), a, b)
    ||| exists|j: int| 1 <= j < g.rows && #[trigger] on_segment(row_seam(g, j), a, b)
}

/// Grids whose seams fit the pixel arithmetic.
pub open spec fn seams_fit(g: IsoGrid) -> bool {
    let c = floor_corners_spec(g);
    &&& forall|i: int|
        1 <= i < g.columns ==> {
            &&& lerp_fits(c[0], c[1], i, g.columns as int)
            &&& lerp_fits(c[3], c[2], i, g.columns as int)
            &&& #[trigger] line_fits(column_seam(g, i).0.0, column_seam(g, i).0.1, column_seam(g, i).1.0, column_seam(g, i).1.1)
        }
    &&& forall|j: int|
        1 <= j < g.rows ==> {
            &&& lerp_fits(c[0], c[3], j, g.rows as int)
            &&& lerp_fits(c[1], c[2], j, g.rows as int)
            &&& #[trigger] line_fits(row_seam(g, j).0.0, row_seam(g, j).0.1, row_seam(g, j).1.0, row_seam(g, j).1.1)
        }
}

/// The pixel at `(a, b)` after the seams are drawn on `before`: on rooms
/// with tiles at least 18 pixels wide, every seam in the lit floor colour;
/// smaller rooms keep a plain floor.
pub open spec fn after_floor_grid(before: Canvas, g: IsoGrid, a: int, b: int) -> Option<Color> {
    if g.tile_width >= 18 && before.inside(a, b) && on_seam(g, a, b) {
        Some(Color::Rgb(192, 170, 130))
    } else {
        before.at(a, b)
    }
}

pub fn draw_floor_grid(canvas: &mut Canvas, grid: IsoGrid)
    requires
        old(canvas).wf(),
        grid_in_range(grid),
        seams_fit(grid),
    ensures
        final(canvas).wf(),
        final(canvas).geometry_spec() == old(canvas).geometry_spec(),
        final(canvas).is_light() == old(canvas).is_light(),
        forall|a: int, b: int| #[trigger] final(canvas).at(a, b) == after_floor_grid(*old(canvas), grid, a, b),
{
    if grid.tile_width < 18 {
        return;
    }
    let ghost before = *canvas;
    let ghost c = floor_corners_spec(grid);
    let corners = floor_corners(grid);
    let back = corners[0];
    let right = corners[1];
    let front = corners[2];
    let left = corners[3];
    assert((back.0 as int, back.1 as int) == c[0]);
    assert((right.0 as int, right.1 as int) == c[1]);
    assert((front.0 as int, front.1 as int) == c[2]);
    assert((left.0 as int, left.1 as int) == c[3]);
    let mut index: usize = 1;
    while index < grid.columns
        invariant
            1 <= index <= grid.columns,
            grid_in_range(grid),
            seams_fit(grid),
            c == floor_corners_spec(grid),
            (back.0 as int, back.1 as int) == c[0],
            (right.0 as int, right.1 as int) == c[1],
            (front.0 as int, front.1 as int) == c[2],
            (left.0 as int, left.1 as int) == c[3],
            canvas.wf(),
            canvas.geometry_spec() == before.geometry_spec(),
            canvas.is_light() == before.is_light(),
            forall|a: int, b: int|
                #[trigger] canvas.at(a, b) == if before.inside(a, b) && exists|i: int|
                    1 <= i < index && #[trigger] on_segment(column_seam(grid, i), a, b) {
                    Some(Color::Rgb(192, 170, 130))
                } else {
                    before.at(a, b)
                },
        decreases grid.columns - index,
    {
        assert(line_fits(
            column_seam(grid, index as int).0.0,
            column_seam(grid, index as int).0.1,
            column_seam(grid, index as int).1.0,
            column_seam(grid, index as int).1.1,
        ));
        let start = lerp_point(back, right, index, grid.columns);
        let end = lerp_point(left, front, index, grid.columns);
        draw_line(canvas, start.0, start.1, end.0, end.1, Color::Rgb(192, 170, 130));
        proof {
            assert forall|a: int, b: int| #[trigger]
                canvas.at(a, b) == if before.inside(a, b) && exists|i: int|
                    1 <= i < index + 1 && #[trigger] on_segment(column_seam(grid, i), a, b) {
                    Some(Color::Rgb(192, 170, 130))
                } else {
                    before.at(a, b)
                } by {
                if on_line(start.0 as int, start.1 as int, end.0 as int, end.1 as int, a, b) {
                    assert(on_segment(column_seam(grid, index as int), a, b));
                } else if exists|i: int| 1 <= i < index + 1 && #[trigger] on_segment(column_seam(grid, i), a, b) {
                    let i = choose|i: int| 1 <= i < index + 1 && #[trigger] on_segment(column_seam(grid, i), a, b);
                    assert(i != index);
                }
            }
        }
        index += 1;
    }
    let ghost seamed = *canvas;
    let mut index: usize = 1;
    while index < grid.rows
        invariant
            1 <= index <= grid.rows,
            grid_in_range(grid),
            seams_fit(grid),
            c == floor_corners_spec(grid),
            (back.0 as int, back.1 as int) == c[0],
            (right.0 as int, right.1 as int) == c[1],
            (front.0 as int, front.1 as int) == c[2],
            (left.0 as int, left.1 as int) == c[3],
            canvas.wf(),
            canvas.geometry_spec() == before.geometry_spec(),
            canvas.is_light() == before.is_light(),
            forall|a: int, b: int|
                #[trigger] canvas.at(a, b) == if before.inside(a, b) && exists|j: int|
                    1 <= j < index && #[trigger] on_segment(row_seam(grid, j), a, b) {
                    Some(Color::Rgb(192, 170, 130))
                } else {
                    seamed.at(a, b)
                },
        decreases grid.rows - index,
    {
        assert(line_fits(
            row_seam(grid, index as int).0.0,
            row_seam(grid, index as int).0.1,
            row_seam(grid, index as int).1.0,
            row_seam(grid, index as int).1.1,
        ));
        let start = lerp_point(back, left, index, grid.rows);
        let end = lerp_point(right, front, index, grid.rows);
        draw_line(canvas, start.0, start.1, end.0, end.1, Color::Rgb(192, 170, 130));
        proof {
            assert forall|a: int, b: int| #[trigger]
                canvas.at(a, b) == if before.inside(a, b) && exists|j: int|
                    1 <= j < index + 1 && #[trigger] on_segment(row_seam(grid, j), a, b) {
                    Some(Color::Rgb(192, 170, 130))
                } else {
                    seamed.at(a, b)
                } by {
                if on_line(start.0 as int, start.1 as int, end.0 as int, end.1 as int, a, b) {
                    assert(on_segment(row_seam(grid, index as int), a, b));
                } else if exists|j: int| 1 <= j < index + 1 && #[trigger] on_segment(row_seam(grid, j), a, b) {
                    let j = choose|j: int| 1 <= j < index + 1 && #[trigger] on_segment(row_seam(grid, j), a, b);
                    assert(j != index);
                }
            }
        }
        index += 1;
    }
}

// ---------------------------------------------------------------------------
// The plate
// ---------------------------------------------------------------------------

/// Grids whose whole floor plate fits the pixel arithmetic.
pub open spec fn floor_plate_fits(g: IsoGrid) -> bool {
    &&& grid_in_range(g)
    &&& seams_fit(g)
    &&& floor_edges_fit(g)
}

/// The pixel at `(a, b)` after the floor plate is drawn on `before`: the
/// quadrilateral filled once in the floor colour, its seams over it, its
/// edges over those.
pub open spec fn after_floor_plate(before: Canvas, g: IsoGrid, a: int, b: int) -> Option<Color> {
    if before.inside(a, b) && edge_paint(g, before.is_light(), a, b) is Some {
        edge_paint(g, before.is_light(), a, b)
    } else if g.tile_width >= 18 && before.inside(a, b) && on_seam(g, a, b) {
        Some(Color::Rgb(192, 170, 130))
    } else if before.inside(a, b) && in_filled_row(floor_points(g), b, a) {
        Some(Color::Rgb(189, 174, 150))
    } else {
        before.at(a, b)
    }
}

pub fn draw_floor_plate(canvas: &mut Canvas, grid: IsoGrid)
    requires
        old(canvas).wf(),
        floor_plate_fits(grid),
    ensures
        final(canvas).wf(),
        final(canvas).geometry_spec() == old(canvas).geometry_spec(),
        final(canvas).is_light() == old(canvas).is_light(),
        forall|a: int, b: int| #[trigger] final(canvas).at(a, b) == after_floor_plate(*old(canvas), grid, a, b),
{
    let corners = floor_corners(grid);
    proof {
        let p = corners@;
        assert forall|i: int| 0 <= i < p.len() && #[trigger] edge(p, i).0.1 != edge(p, i).1.1 implies {
            &&& fits_i32(edge(p, i).1.0 - edge(p, i).0.0)
            &&& fits_i32(edge(p, i).1.1 - edge(p, i).0.1)
        } by {
            assert(-901_000_000 <= p[i].0 <= 901_000_000 && -401_000_000 <= p[i].1 <= 401_000_000);
            let j = (i + 1) % (p.len() as int);
            assert(0 <= j < 4);
            assert(-901_000_000 <= p[j].0 <= 901_000_000 && -401_000_000 <= p[j].1 <= 401_000_000);
        }
    }
    fill_polygon(canvas, &corners, Color::Rgb(189, 174, 150));
    draw_floor_grid(canvas, grid);
    draw_floor_edges(canvas, grid);
}

} // verus!
