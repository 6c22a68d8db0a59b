//! Flat-room furniture and floors, drawn as lists of filled rectangles.
use vstd::prelude::*;
use crate::canvas::{Canvas, PaintRect, lemma_painted_in_turn, painted_by};
use crate::color::Color;
use crate::layout::{max, min, sat_sub};

verus! {

/// Coordinates small enough that a few of them add up inside `i32`.
pub open spec fn small(v: int) -> bool {
    0 <= v <= 0x0fff_ffff
}

pub open spec fn rect(x: int, y: int, width: int, height: int, color: Color) -> PaintRect {
    PaintRect { x: x as i32, y: y as i32, width: width as i32, height: height as i32, color }
}

fn make_rect(x: usize, y: usize, width: usize, height: usize, color: Color) -> (r: PaintRect)
    requires
        x <= i32::MAX,
        y <= i32::MAX,
        width <= i32::MAX,
        height <= i32::MAX,
    ensures
        r == rect(x as int, y as int, width as int, height as int, color),
        r.x == x && r.y == y && r.width == width && r.height == height,
{
    PaintRect { x: x as i32, y: y as i32, width: width as i32, height: height as i32, color }
}

// ---------------------------------------------------------------------------
// Bookcase
// ---------------------------------------------------------------------------

/// The spine colours of the five books on each shelf.
pub open spec fn book_color(book: int) -> Color {
    if book == 0 {
        Color::Rgb(194, 90, 74)
    } else if book == 1 {
        Color::Rgb(90, 169, 201)
    } else if book == 2 {
        Color::Rgb(192, 170, 130)
    } else if book == 3 {
        Color::Rgb(128, 185, 255)
    } else {
        Color::Rgb(65, 58, 91)
    }
}

fn book_color_exec(book: usize) -> (c: Color)
    ensures
        c == book_color(book as int),
{
    if book == 0 {
        Color::Rgb(194, 90, 74)
    } else if book == 1 {
        Color::Rgb(90, 169, 201)
    } else if book == 2 {
        Color::Rgb(192, 170, 130)
    } else if book == 3 {
        Color::Rgb(128, 185, 255)
    } else {
        Color::Rgb(65, 58, 91)
    }
}

/// Book `book` of shelf `row`: alternate books sit a pixel lower.
pub open spec fn book_rect(x: int, y: int, width: int, height: int, row: int, book: int) -> PaintRect {
    let shelf = max(height / 3, 2);
    let top = y + row * shelf + 1;
    let bw = max(sat_sub(width, 4) / 5, 1);
    rect(
        x + 2 + book * bw,
        top + book % 2,
        max(sat_sub(bw, 1), 1),
        max(sat_sub(shelf, 2 + book % 2), 1),
        book_color(book),
    )
}

/// A bookcase: a wooden case with three shelves of five books; nothing
/// when smaller than 5 by 6 pixels.
pub open spec fn bookcase_rects(x: int, y: int, width: int, height: int) -> Seq<PaintRect> {
    if width < 5 || height < 6 {
        seq![]
    } else {
        seq![rect(x, y, width, height, Color::Rgb(107, 68, 41))] + Seq::new(
            15,
            |k: int| book_rect(x, y, width, height, k / 5, k % 5),
        )
    }
}

fn bookcase_plan(x: usize, y: usize, width: usize, height: usize) -> (v: Vec<PaintRect>)
    requires
        small(x as int),
        small(y as int),
        small(width as int),
        small(height as int),
    ensures
        v@ == bookcase_rects(x as int, y as int, width as int, height as int),
{
    let mut v: Vec<PaintRect> = Vec::new();
    if width < 5 || height < 6 {
        assert(v@ =~= bookcase_rects(x as int, y as int, width as int, height as int));
        return v;
    }
    v.push(make_rect(x, y, width, height, Color::Rgb(107, 68, 41)));
    let shelf = if height / 3 > 2 {
        height / 3
    } else {
        2
    };
    let bw = if width.saturating_sub(4) / 5 > 1 {
        width.saturating_sub(4) / 5
    } else {
        1
    };
    let mut k: usize = 0;
    while k < 15
        invariant
            small(x as int),
            small(y as int),
            small(width as int),
            small(height as int),
            width >= 5,
            height >= 6,
            shelf == max(height as int / 3, 2),
            bw == max(sat_sub(width as int, 4) / 5, 1),
            k <= 15,
            v@ == seq![rect(x as int, y as int, width as int, height as int, Color::Rgb(107, 68, 41))] + Seq::new(
                k as nat,
                |j: int| book_rect(x as int, y as int, width as int, height as int, j / 5, j % 5),
            ),
        decreases 15 - k,
    {
        let row = k / 5;
        let book = k % 5;
        assert(row * shelf <= 2 * height) by (nonlinear_arith)
            requires
                row <= 2,
                shelf <= height,
        ;
        assert(book * bw <= 4 * width) by (nonlinear_arith)
            requires
                book <= 4,
                bw <= width,
        ;
        let top = y + row * shelf + 1;
        let r = make_rect(
            x + 2 + book * bw,
            top + book % 2,
            if bw.saturating_sub(1) > 1 {
                bw.saturating_sub(1)
            } else {
                1
            },
            if shelf.saturating_sub(2 + book % 2) > 1 {
                shelf.saturating_sub(2 + book % 2)
            } else {
                1
            },
            book_color_exec(book),
        );
        let ghost prev = v@;
        v.push(r);
        assert(v@ =~= seq![rect(x as int, y as int, width as int, height as int, Color::Rgb(107, 68, 41))] + Seq::new(
            (k + 1) as nat,
            |j: int| book_rect(x as int, y as int, width as int, height as int, j / 5, j % 5),
        ));
        k += 1;
    }
    v
}

/// Draws a bookcase at `(x, y)`, `width` by `height` pixels.
pub fn draw_bookcase(canvas: &mut Canvas, x: usize, y: usize, width: usize, height: usize)
    requires
        old(canvas).wf(),
        small(x as int),
        small(y as int),
        small(width as int),
        small(height as int),
    ensures
        final(canvas).wf(),
        final(canvas).geometry_spec() == old(canvas).geometry_spec(),
        forall|a: int, b: int|
            #[trigger] final(canvas).at(a, b) == painted_by(
                *old(canvas),
                bookcase_rects(x as int, y as int, width as int, height as int),
                a,
                b,
            ),
{
    let plan = bookcase_plan(x, y, width, height);
    canvas.paint_all(&plan);
}

// ---------------------------------------------------------------------------
// Potted plant
// ---------------------------------------------------------------------------

/// A potted plant: a stem, three alternating leaves and a pot.
pub open spec fn plant_rects(x: int, y: int, width: int, height: int) -> Seq<PaintRect> {
    let stem = max(width / 6, 1);
    let center = x + width / 2;
    let green = Color::Rgb(91, 185, 123);
    seq![
        rect(center, y, stem, height * 3 / 4, green),
        rect(sat_sub(center, width / 3), y + height * 1 / 6, width / 3 + stem, max(height / 6, 1), green),
        rect(center, y + height * 2 / 6, width / 3 + stem, max(height / 6, 1), green),
        rect(sat_sub(center, width / 3), y + height * 3 / 6, width / 3 + stem, max(height / 6, 1), green),
        rect(x + width / 4, y + height * 3 / 4, max(width / 2, 2), max(height / 4, 2), Color::Rgb(138, 90, 56)),
    ]
}

/// Draws a potted plant at `(x, y)`, `width` by `height` pixels.
pub fn draw_potted_plant(canvas: &mut Canvas, x: usize, y: usize, width: usize, height: usize)
    requires
        old(canvas).wf(),
        small(x as int),
        small(y as int),
        small(width as int),
        small(height as int),
    ensures
        final(canvas).wf(),
        final(canvas).geometry_spec() == old(canvas).geometry_spec(),
        forall|a: int, b: int|
            #[trigger] final(canvas).at(a, b) == painted_by(
                *old(canvas),
                plant_rects(x as int, y as int, width as int, height as int),
                a,
                b,
            ),
{
    let stem = if width / 6 > 1 {
        width / 6
    } else {
        1
    };
    let center = x + width / 2;
    let green = Color::Rgb(91, 185, 123);
    let leaf_height = if height / 6 > 1 {
        height / 6
    } else {
        1
    };
    let mut plan: Vec<PaintRect> = Vec::new();
    plan.push(make_rect(center, y, stem, height * 3 / 4, green));
    plan.push(make_rect(center.saturating_sub(width / 3), y + height * 1 / 6, width / 3 + stem, leaf_height, green));
    plan.push(make_rect(center, y + height * 2 / 6, width / 3 + stem, leaf_height, green));
    plan.push(make_rect(center.saturating_sub(width / 3), y + height * 3 / 6, width / 3 + stem, leaf_height, green));
    plan.push(
        make_rect(
            x + width / 4,
            y + height * 3 / 4,
            if width / 2 > 2 {
                width / 2
            } else {
                2
            },
            if height / 4 > 2 {
                height / 4
            } else {
                2
            },
            Color::Rgb(138, 90, 56),
        ),
    );
    assert(plan@ =~= plant_rects(x as int, y as int, width as int, height as int));
    canvas.paint_all(&plan);
}

// ---------------------------------------------------------------------------
// Lounge
// ---------------------------------------------------------------------------

/// The lounge's own rug, sofas and table, before its plant and bookcase.
pub open spec fn lounge_base_rects(canvas_width: int, px: int, py: int, top: int, bottom: int) -> Seq<PaintRect> {
    let height = sat_sub(bottom, top + py * 2);
    let width = min(canvas_width / 2, px * 62);
    let left = (canvas_width - width) / 2;
    let sofa_w = width / 3;
    let sofa_h = min(height / 2, py * 7);
    let y = top + (height - sofa_h) / 2;
    let right_sofa = left + width - sofa_w - px * 2;
    let table_w = width / 5;
    seq![
        rect(left, top, width, height, Color::Rgb(142, 58, 46)),
        rect(left + px, top + py / 2, sat_sub(width, px * 2), sat_sub(height, py), Color::Rgb(194, 90, 74)),
        rect(left + px * 2, y, sofa_w, sofa_h, Color::Rgb(65, 58, 91)),
        rect(left + px * 3, y + py, sat_sub(sofa_w, px * 2), sat_sub(sofa_h, py * 2), Color::Rgb(58, 51, 88)),
        rect(right_sofa, y, sofa_w, sofa_h, Color::Rgb(65, 58, 91)),
        rect(right_sofa + px, y + py, sat_sub(sofa_w, px * 2), sat_sub(sofa_h, py * 2), Color::Rgb(58, 51, 88)),
        rect(canvas_width / 2 - table_w / 2, y + sofa_h / 3, table_w, max(sofa_h / 2, 2), Color::Rgb(138, 90, 56)),
    ]
}

/// A lounge between `top` and `bottom`: a bordered rug, two sofas facing a
/// table, a plant to its left and a bookcase to its right. Nothing when the
/// space is under five cells tall once a cell of margin is left each side.
pub open spec fn lounge_rects(canvas_width: int, px: int, py: int, top: int, bottom: int) -> Seq<PaintRect> {
    let height = sat_sub(bottom, top + py * 2);
    let width = min(canvas_width / 2, px * 62);
    let left = (canvas_width - width) / 2;
    let sofa_h = min(height / 2, py * 7);
    let y = top + (height - sofa_h) / 2;
    if height < py * 5 {
        seq![]
    } else {
        lounge_base_rects(canvas_width, px, py, top, bottom) + plant_rects(sat_sub(left, px * 9), y, px * 6, max(sofa_h, py * 5))
            + bookcase_rects(min(left + width + px * 3, sat_sub(canvas_width, px * 9)), y, px * 7, sofa_h)
    }
}

/// The lounge fits its canvas: the right sofa does not start left of the
/// canvas edge.
pub open spec fn lounge_fits(canvas_width: int, px: int, py: int, top: int, bottom: int) -> bool {
    let height = sat_sub(bottom, top + py * 2);
    let width = min(canvas_width / 2, px * 62);
    let left = (canvas_width - width) / 2;
    height < py * 5 || left + width >= width / 3 + px * 2
}

#[verifier::rlimit(100)]
#[verifier::spinoff_prover]
fn lounge_base_plan(cw: usize, px: usize, py: usize, top: usize, bottom: usize) -> (v: Vec<PaintRect>)
    requires
        1 <= px <= 16,
        1 <= py <= 16,
        cw <= 0xffff * 16,
        small(top as int),
        small(bottom as int),
        sat_sub(bottom as int, top + py * 2) >= py * 5,
        lounge_fits(cw as int, px as int, py as int, top as int, bottom as int),
    ensures
        v@ == lounge_base_rects(cw as int, px as int, py as int, top as int, bottom as int),
{
    let height = bottom.saturating_sub(top + py * 2);
    let width = if cw / 2 < px * 62 {
        cw / 2
    } else {
        px * 62
    };
    let left = (cw - width) / 2;
    let sofa_w = width / 3;
    let sofa_h = if height / 2 < py * 7 {
        height / 2
    } else {
        py * 7
    };
    let y = top + (height - sofa_h) / 2;
    let right_sofa = left + width - sofa_w - px * 2;
    let table_w = width / 5;
    let mut plan: Vec<PaintRect> = Vec::new();
    plan.push(make_rect(left, top, width, height, Color::Rgb(142, 58, 46)));
    plan.push(make_rect(left + px, top + py / 2, width.saturating_sub(px * 2), height.saturating_sub(py), Color::Rgb(194, 90, 74)));
    plan.push(make_rect(left + px * 2, y, sofa_w, sofa_h, Color::Rgb(65, 58, 91)));
    plan.push(make_rect(left + px * 3, y + py, sofa_w.saturating_sub(px * 2), sofa_h.saturating_sub(py * 2), Color::Rgb(58, 51, 88)));
    plan.push(make_rect(right_sofa, y, sofa_w, sofa_h, Color::Rgb(65, 58, 91)));
    plan.push(make_rect(right_sofa + px, y + py, sofa_w.saturating_sub(px * 2), sofa_h.saturating_sub(py * 2), Color::Rgb(58, 51, 88)));
    plan.push(
        make_rect(
            cw / 2 - table_w / 2,
            y + sofa_h / 3,
            table_w,
            if sofa_h / 2 > 2 {
                sofa_h / 2
            } else {
                2
            },
            Color::Rgb(138, 90, 56),
        ),
    );
    assert(plan@ =~= lounge_base_rects(cw as int, px as int, py as int, top as int, bottom as int));
    plan
}

/// Draws the lounge of a flat room between rows `top` and `bottom`.
#[verifier::rlimit(60)]
pub fn draw_lounge(canvas: &mut Canvas, top: usize, bottom: usize)
    requires
        old(canvas).wf(),
        small(top as int),
        small(bottom as int),
        lounge_fits(
            old(canvas).geometry_spec().width as int,
            old(canvas).geometry_spec().cell_width as int,
            old(canvas).geometry_spec().cell_height as int,
            top as int,
            bottom as int,
        ),
    ensures
        final(canvas).wf(),
        final(canvas).geometry_spec() == old(canvas).geometry_spec(),
        forall|a: int, b: int|
            #[trigger] final(canvas).at(a, b) == painted_by(
                *old(canvas),
                lounge_rects(
                    old(canvas).geometry_spec().width as int,
                    old(canvas).geometry_spec().cell_width as int,
                    old(canvas).geometry_spec().cell_height as int,
                    top as int,
                    bottom as int,
                ),
                a,
                b,
            ),
{
    let ghost before = *canvas;
    let g = canvas.geometry();
    let (px, py) = (g.cell_width, g.cell_height);
    let cw = g.width;
    let height = bottom.saturating_sub(top + py * 2);
    if height < py * 5 {
        assert(lounge_rects(cw as int, px as int, py as int, top as int, bottom as int) =~= Seq::<PaintRect>::empty());
        return;
    }
    let plan = lounge_base_plan(cw, px, py, top, bottom);
    let ghost base = plan@;
    canvas.paint_all(&plan);
    let ghost first = *canvas;
    let width = if cw / 2 < px * 62 {
        cw / 2
    } else {
        px * 62
    };
    let left = (cw - width) / 2;
    let sofa_h = if height / 2 < py * 7 {
        height / 2
    } else {
        py * 7
    };
    let y = top + (height - sofa_h) / 2;
    let plant_x = left.saturating_sub(px * 9);
    let plant_h = if sofa_h > py * 5 {
        sofa_h
    } else {
        py * 5
    };
    draw_potted_plant(canvas, plant_x, y, px * 6, plant_h);
    let ghost second = *canvas;
    let ghost plant = plant_rects(plant_x as int, y as int, (px * 6) as int, plant_h as int);
    proof {
        assert forall|a: int, b: int| #[trigger] second.at(a, b) == painted_by(before, base + plant, a, b) by {
            lemma_painted_in_turn(before, first, base, plant, a, b);
        }
    }
    let shelf_x = if left + width + px * 3 < cw.saturating_sub(px * 9) {
        left + width + px * 3
    } else {
        cw.saturating_sub(px * 9)
    };
    draw_bookcase(canvas, shelf_x, y, px * 7, sofa_h);
    let ghost shelf = bookcase_rects(shelf_x as int, y as int, (px * 7) as int, sofa_h as int);
    proof {
        assert forall|a: int, b: int| #[trigger] canvas.at(a, b) == painted_by(before, base + plant + shelf, a, b) by {
            lemma_painted_in_turn(before, second, base + plant, shelf, a, b);
        }
        assert(lounge_rects(cw as int, px as int, py as int, top as int, bottom as int) == base + plant + shelf);
    }
}

// ---------------------------------------------------------------------------
// Flat floor
// ---------------------------------------------------------------------------

/// The one-pixel vertical seam at column `x` from row `y` down to the next
/// seam row or the floor's last row.
pub open spec fn vertical_seam(x: int, y: int, spacing: int, bottom: int) -> PaintRect {
    rect(x, y, 1, min(y + spacing, bottom - 1) - y + 1, Color::Rgb(192, 170, 130))
}

/// The vertical seams of the row at `y`, from column `x` on, `step` apart.
pub open spec fn vertical_seams(x: int, y: int, canvas_width: int, step: int, spacing: int, bottom: int) -> Seq<PaintRect>
    decreases sat_sub(canvas_width, x),
{
    if x >= canvas_width || step < 1 {
        seq![]
    } else {
        seq![vertical_seam(x, y, spacing, bottom)] + vertical_seams(x + step, y, canvas_width, step, spacing, bottom)
    }
}

/// The seams of every floor row from `y` on: a full-width line, then the
/// row's vertical seams, staggered by half a step on alternate rows.
pub open spec fn floor_seams(y: int, canvas_width: int, px: int, spacing: int, bottom: int) -> Seq<PaintRect>
    decreases sat_sub(bottom, y),
{
    if y >= bottom || spacing < 1 {
        seq![]
    } else {
        let offset = (y / spacing % 2) * px * 12;
        seq![rect(0, y, canvas_width, 1, Color::Rgb(192, 170, 130))] + vertical_seams(
            offset,
            y,
            canvas_width,
            max(px * 24, 1),
            spacing,
            bottom,
        ) + floor_seams(y + spacing, canvas_width, px, spacing, bottom)
    }
}

/// A flat floor from row `start` to `bottom`: a light surface, seams every
/// five cells with staggered joints, and a dark skirting row at the top.
pub open spec fn floor_rects(canvas_width: int, px: int, py: int, start: int, bottom: int) -> Seq<PaintRect> {
    seq![rect(0, start, canvas_width, sat_sub(bottom, start), Color::Rgb(220, 201, 164))] + floor_seams(
        start,
        canvas_width,
        px,
        max(py * 5, 4),
        bottom,
    ) + seq![rect(0, start, canvas_width, max(py, 1), Color::Rgb(156, 135, 99))]
}

fn floor_plan(cw: usize, px: usize, py: usize, start: usize, bottom: usize) -> (v: Vec<PaintRect>)
    requires
        1 <= px <= 16,
        1 <= py <= 16,
        cw <= 0xffff * 16,
        small(start as int),
        small(bottom as int),
    ensures
        v@ == floor_rects(cw as int, px as int, py as int, start as int, bottom as int),
{
    let spacing = if py * 5 > 4 {
        py * 5
    } else {
        4
    };
    let step = if px * 24 > 1 {
        px * 24
    } else {
        1
    };
    let ghost band = seq![rect(0, start as int, cw as int, max(py as int, 1), Color::Rgb(156, 135, 99))];
    let ghost whole = floor_rects(cw as int, px as int, py as int, start as int, bottom as int);
    let mut plan: Vec<PaintRect> = Vec::new();
    plan.push(make_rect(0, start, cw, bottom.saturating_sub(start), Color::Rgb(220, 201, 164)));
    let mut y = start;
    while y < bottom
        invariant
            1 <= px <= 16,
            1 <= py <= 16,
            cw <= 0xffff * 16,
            small(start as int),
            small(bottom as int),
            start <= y,
            y <= start || y <= bottom + spacing,
            spacing == max(py * 5, 4),
            step == max(px * 24, 1),
            whole == floor_rects(cw as int, px as int, py as int, start as int, bottom as int),
            band == seq![rect(0, start as int, cw as int, max(py as int, 1), Color::Rgb(156, 135, 99))],
            plan@ + floor_seams(y as int, cw as int, px as int, spacing as int, bottom as int) + band == whole,
        decreases sat_sub(bottom as int, y as int),
    {
        let ghost rest = floor_seams(y + spacing, cw as int, px as int, spacing as int, bottom as int);
        plan.push(make_rect(0, y, cw, 1, Color::Rgb(192, 170, 130)));
        let last = if y + spacing < bottom - 1 {
            y + spacing
        } else {
            bottom - 1
        };
        let parity = y / spacing % 2;
        assert(parity <= 1);
        assert(parity * px <= 16) by (nonlinear_arith)
            requires
                parity <= 1,
                px <= 16,
        ;
        let mut x = parity * px * 12;
        assert(x <= step) by (nonlinear_arith)
            requires
                x == parity * px * 12,
                parity <= 1,
                step == max(px * 24, 1),
                px >= 1,
        ;
        proof {
            assert(plan@.drop_last() + floor_seams(y as int, cw as int, px as int, spacing as int, bottom as int) + band == whole);
            assert(plan@ =~= plan@.drop_last().push(rect(0, y as int, cw as int, 1, Color::Rgb(192, 170, 130))));
            assert(plan@ + vertical_seams(x as int, y as int, cw as int, step as int, spacing as int, bottom as int) + rest + band
                =~= plan@.drop_last() + floor_seams(y as int, cw as int, px as int, spacing as int, bottom as int) + band);
        }
        while x < cw
            invariant
                1 <= px <= 16,
                cw <= 0xffff * 16,
                small(bottom as int),
                start <= y < bottom,
                x <= cw + step,
                step == max(px * 24, 1),
                last == min(y + spacing, bottom - 1),
                whole == floor_rects(cw as int, px as int, py as int, start as int, bottom as int),
                rest == floor_seams(y + spacing, cw as int, px as int, spacing as int, bottom as int),
                plan@ + vertical_seams(x as int, y as int, cw as int, step as int, spacing as int, bottom as int) + rest + band
                    == whole,
            decreases sat_sub(cw as int, x as int),
        {
            let ghost before = plan@;
            plan.push(make_rect(x, y, 1, last - y + 1, Color::Rgb(192, 170, 130)));
            proof {
                assert(vertical_seams(x as int, y as int, cw as int, step as int, spacing as int, bottom as int)
                    == seq![vertical_seam(x as int, y as int, spacing as int, bottom as int)] + vertical_seams(
                    x + step,
                    y as int,
                    cw as int,
                    step as int,
                    spacing as int,
                    bottom as int,
                ));
                assert(plan@ + vertical_seams(x + step, y as int, cw as int, step as int, spacing as int, bottom as int) =~= before
                    + vertical_seams(x as int, y as int, cw as int, step as int, spacing as int, bottom as int));
            }
            x = x + step;
        }
        proof {
            assert(plan@ + vertical_seams(x as int, y as int, cw as int, step as int, spacing as int, bottom as int) =~= plan@);
        }
        y = y + spacing;
    }
    plan.push(make_rect(0, start, cw, if py > 1 {
        py
    } else {
        1
    }, Color::Rgb(156, 135, 99)));
    assert(plan@ =~= whole);
    plan
}

/// Draws a flat room's floor from row `start` to `bottom`.
pub fn draw_flat_floor(canvas: &mut Canvas, start: usize, bottom: usize)
    requires
        old(canvas).wf(),
        small(start as int),
        small(bottom as int),
    ensures
        final(canvas).wf(),
        final(canvas).geometry_spec() == old(canvas).geometry_spec(),
        forall|a: int, b: int|
            #[trigger] final(canvas).at(a, b) == painted_by(
                *old(canvas),
                floor_rects(
                    old(canvas).geometry_spec().width as int,
                    old(canvas).geometry_spec().cell_width as int,
                    old(canvas).geometry_spec().cell_height as int,
                    start as int,
                    bottom as int,
                ),
                a,
                b,
            ),
{
    let g = canvas.geometry();
    let plan = floor_plan(g.width, g.cell_width, g.cell_height, start, bottom);
    canvas.paint_all(&plan);
}

} // verus!
