//! The project title painted on a room's wall: fixed lettering tiers, a
//! backing panel, and a band kept clear for the native attention banner.
use vstd::prelude::*;
use crate::canvas::{Canvas, in_rect};
use crate::color::Color;
use crate::layout::{max, min, sat_sub};
use crate::sign::{compact_glyph, compact_rows, glyph_5x7, glyph_rows};
use crate::text::chars_of;

verus! {

/// The lettering colour of wall titles.
pub open spec fn title_color_spec() -> Color {
    Color::Rgb(184, 231, 222)
}

/// The backing panel behind wall titles.
pub open spec fn panel_color_spec() -> Color {
    Color::Rgb(34, 37, 41)
}

pub fn title_color() -> (c: Color)
    ensures
        c == title_color_spec(),
{
    Color::Rgb(184, 231, 222)
}

pub fn panel_color() -> (c: Color)
    ensures
        c == panel_color_spec(),
{
    Color::Rgb(34, 37, 41)
}

/// Where a wall title goes: its top-left corner, the pixels per glyph
/// pixel, the lettering tier and how many letters are shown.
pub struct SignPlan {
    pub x: int,
    pub y: int,
    pub scale: int,
    pub compact: bool,
    pub count: int,
}

/// Glyph width and height of a tier: 3x5 compact letters or 5x7 letters.
pub open spec fn glyph_size(compact: bool) -> (int, int) {
    if compact {
        (3, 5)
    } else {
        (5, 7)
    }
}

/// The lettering of a wall title of `label_len` characters at `top` on a
/// wall `wall_height` pixels tall, on a canvas of `width` by `height`
/// pixels with cells of `px` by `py`. Type never grows past four cells or
/// an eighth of the canvas; a title that would touch the first 36 cells of
/// the second row (the attention banner) is not drawn.
pub open spec fn room_sign_plan(width: int, height: int, px: int, py: int, label_len: int, top: int, wall_height: int) -> Option<SignPlan> {
    let (available_height, available_width) = sign_space(width, height, px, py, wall_height);
    let compact = available_height < 7 || label_len * 6 > available_width;
    let (gw, gh) = glyph_size(compact);
    let count = min(label_len, (available_width + 1) / (gw + 1));
    let face_width = sat_sub(count * (gw + 1), 1);
    let scale = max(min(available_height / gh, available_width / face_width), 1);
    let x = (width - face_width * scale) / 2;
    let y = top + sat_sub(wall_height, gh * scale) / 2;
    if available_height < 5 || available_width < 3 || face_width == 0 {
        None
    } else if sat_sub(x, px * 2) < px * 36 && sat_sub(y, 1) < py * 2 && y + gh * scale + 1 > py {
        None
    } else {
        Some(SignPlan { x, y, scale, compact, count })
    }
}

/// The height and width a wall title may take: below a cell of margin, at
/// most four cells and an eighth of the canvas tall (five pixels at
/// least), and up to 64 cells wide with four cells free either side.
pub open spec fn sign_space(width: int, height: int, px: int, py: int, wall_height: int) -> (int, int) {
    (min(min(sat_sub(wall_height, py), py * 4), max(height * 12 / 100, 5)), min(sat_sub(width, px * 8), px * 64))
}

fn space_for_sign(width: usize, height: usize, px: usize, py: usize, wall_height: usize) -> (r: (usize, usize))
    requires
        1 <= px <= 16,
        1 <= py <= 16,
        width <= 0xffff * 16,
        height <= 0xffff * 16,
    ensures
        (r.0 as int, r.1 as int) == sign_space(width as int, height as int, px as int, py as int, wall_height as int),
        r.0 <= py * 4,
        r.0 <= wall_height,
        r.1 <= width,
{
    let tall = wall_height.saturating_sub(py);
    let cap = if tall < py * 4 {
        tall
    } else {
        py * 4
    };
    let share = if height * 12 / 100 > 5 {
        height * 12 / 100
    } else {
        5
    };
    let available_height = if cap < share {
        cap
    } else {
        share
    };
    let wide = width.saturating_sub(px * 8);
    let available_width = if wide < px * 64 {
        wide
    } else {
        px * 64
    };
    (available_height, available_width)
}

/// The width of the lettered face, in glyph pixels.
pub open spec fn face_width(p: SignPlan) -> int {
    p.count * (glyph_size(p.compact).0 + 1) - 1
}

/// The rows of a letter in a tier; compact letters have two blank rows
/// below their five.
pub open spec fn sign_glyph(compact: bool, c: char) -> Seq<u8> {
    if compact {
        compact_rows(c) + seq![0u8, 0u8]
    } else {
        glyph_rows(c)
    }
}

/// Whether column `column` of a glyph row of width `gw` is lit.
pub open spec fn lit(bits: u8, column: int, gw: int) -> bool {
    bits & (1u8 << ((gw - 1 - column) as u8)) != 0
}

/// Whether pixel `(a, b)` is in the block drawn for row `r`, column `c` of
/// letter `i`.
pub open spec fn in_block(p: SignPlan, i: int, r: int, c: int, a: int, b: int) -> bool {
    in_rect(p.x + (i * (glyph_size(p.compact).0 + 1) + c) * p.scale, p.y + r * p.scale, p.scale, p.scale, a, b)
}

/// A lit glyph pixel of a shown letter.
pub open spec fn lit_cell(p: SignPlan, letters: Seq<char>, i: int, r: int, c: int) -> bool {
    let (gw, gh) = glyph_size(p.compact);
    &&& 0 <= i < p.count
    &&& 0 <= r < gh
    &&& 0 <= c < gw
    &&& lit(sign_glyph(p.compact, letters[i])[r], c, gw)
}

/// Whether `(i, r, c)` comes before `(bi, br, bc)`, letters first, then
/// rows, then columns.
pub open spec fn drawn_before(i: int, r: int, c: int, bi: int, br: int, bc: int) -> bool {
    i < bi || (i == bi && (r < br || (r == br && c < bc)))
}

/// Whether `(a, b)` is a lettering pixel of a glyph cell before `(bi, br, bc)`.
pub open spec fn title_before(p: SignPlan, letters: Seq<char>, a: int, b: int, bi: int, br: int, bc: int) -> bool {
    exists|i: int, r: int, c: int|
        #![trigger in_block(p, i, r, c, a, b)]
        lit_cell(p, letters, i, r, c) && drawn_before(i, r, c, bi, br, bc) && in_block(p, i, r, c, a, b)
}

/// Whether `(a, b)` is a lettering pixel of the title.
pub open spec fn title_pixel(p: SignPlan, letters: Seq<char>, a: int, b: int) -> bool {
    title_before(p, letters, a, b, p.count, 0, 0)
}

/// Whether `(a, b)` is under the title's backing panel: two cells of
/// margin either side and one pixel above and below the lettering.
pub open spec fn panel_pixel(p: SignPlan, px: int, a: int, b: int) -> bool {
    in_rect(
        sat_sub(p.x, px * 2),
        sat_sub(p.y, 1),
        face_width(p) * p.scale + px * 4,
        glyph_size(p.compact).1 * p.scale + 2,
        a,
        b,
    )
}

/// The canvas after painting the panel and the lettering before `(bi, br, bc)`.
pub open spec fn painted(before: Canvas, p: SignPlan, letters: Seq<char>, px: int, bi: int, br: int, bc: int, a: int, b: int) -> Option<Color> {
    if title_before(p, letters, a, b, bi, br, bc) && before.inside(a, b) {
        Some(title_color_spec())
    } else if panel_pixel(p, px, a, b) && before.inside(a, b) {
        Some(panel_color_spec())
    } else {
        before.at(a, b)
    }
}

/// Two drawing positions that order every glyph cell alike paint the same.
proof fn lemma_same_progress(p: SignPlan, letters: Seq<char>, a: int, b: int, i1: int, r1: int, c1: int, i2: int, r2: int, c2: int)
    requires
        forall|i: int, r: int, c: int|
            lit_cell(p, letters, i, r, c) ==> (drawn_before(i, r, c, i1, r1, c1) == drawn_before(i, r, c, i2, r2, c2)),
    ensures
        title_before(p, letters, a, b, i1, r1, c1) == title_before(p, letters, a, b, i2, r2, c2),
{
    if title_before(p, letters, a, b, i1, r1, c1) {
        let (i, r, c) = choose|i: int, r: int, c: int|
            #![trigger in_block(p, i, r, c, a, b)]
            lit_cell(p, letters, i, r, c) && drawn_before(i, r, c, i1, r1, c1) && in_block(p, i, r, c, a, b);
        assert(in_block(p, i, r, c, a, b));
    }
    if title_before(p, letters, a, b, i2, r2, c2) {
        let (i, r, c) = choose|i: int, r: int, c: int|
            #![trigger in_block(p, i, r, c, a, b)]
            lit_cell(p, letters, i, r, c) && drawn_before(i, r, c, i2, r2, c2) && in_block(p, i, r, c, a, b);
        assert(in_block(p, i, r, c, a, b));
    }
}

/// Moving past one glyph cell adds exactly its block, if it is lit.
proof fn lemma_next_cell(p: SignPlan, letters: Seq<char>, a: int, b: int, i0: int, r0: int, c0: int)
    ensures
        title_before(p, letters, a, b, i0, r0, c0 + 1) == (title_before(p, letters, a, b, i0, r0, c0) || (lit_cell(
            p,
            letters,
            i0,
            r0,
            c0,
        ) && in_block(p, i0, r0, c0, a, b))),
{
    if title_before(p, letters, a, b, i0, r0, c0 + 1) {
        let (i, r, c) = choose|i: int, r: int, c: int|
            #![trigger in_block(p, i, r, c, a, b)]
            lit_cell(p, letters, i, r, c) && drawn_before(i, r, c, i0, r0, c0 + 1) && in_block(p, i, r, c, a, b);
        if !(i == i0 && r == r0 && c == c0) {
            assert(in_block(p, i, r, c, a, b));
        }
    }
    if title_before(p, letters, a, b, i0, r0, c0) {
        let (i, r, c) = choose|i: int, r: int, c: int|
            #![trigger in_block(p, i, r, c, a, b)]
            lit_cell(p, letters, i, r, c) && drawn_before(i, r, c, i0, r0, c0) && in_block(p, i, r, c, a, b);
        assert(in_block(p, i, r, c, a, b));
    }
    if lit_cell(p, letters, i0, r0, c0) && in_block(p, i0, r0, c0, a, b) {
        assert(in_block(p, i0, r0, c0, a, b));
    }
}

/// The rows of letter `c` in a tier.
fn sign_glyph_rows(compact: bool, c: char) -> (r: [u8; 7])
    ensures
        r@ == sign_glyph(compact, c),
{
    if compact {
        let short = compact_glyph(c);
        let rows = [short[0], short[1], short[2], short[3], short[4], 0, 0];
        assert(rows@ =~= sign_glyph(compact, c));
        rows
    } else {
        glyph_5x7(c)
    }
}

/// The plan of a wall title, computed.
struct SignValues {
    x: usize,
    y: usize,
    scale: usize,
    compact: bool,
    count: usize,
    face_width: usize,
}

fn plan_room_sign(width: usize, height: usize, px: usize, py: usize, label_len: usize, top: usize, wall_height: usize) -> (r: Option<SignValues>)
    requires
        1 <= px <= 16,
        1 <= py <= 16,
        width <= 0xffff * 16,
        height <= 0xffff * 16,
        top + wall_height <= 0x7fff_ffff,
    ensures
        match r {
            None => room_sign_plan(width as int, height as int, px as int, py as int, label_len as int, top as int, wall_height as int) is None,
            Some(v) => {
                &&& room_sign_plan(width as int, height as int, px as int, py as int, label_len as int, top as int, wall_height as int)
                    == Some(SignPlan { x: v.x as int, y: v.y as int, scale: v.scale as int, compact: v.compact, count: v.count as int })
                &&& v.face_width == v.count * (glyph_size(v.compact).0 + 1) - 1
                &&& v.face_width >= 1
                &&& v.scale >= 1
                &&& v.x + v.face_width * v.scale <= width
                &&& v.y + glyph_size(v.compact).1 * v.scale <= top + wall_height
                &&& glyph_size(v.compact).1 * v.scale <= py * 4
                &&& v.count <= label_len
            },
        },
{
    let (available_height, available_width) = space_for_sign(width, height, px, py, wall_height);
    let too_long = match label_len.checked_mul(6) {
        Some(n) => n > available_width,
        None => true,
    };
    let compact = available_height < 7 || too_long;
    let (gw, gh): (usize, usize) = if compact {
        (3, 5)
    } else {
        (5, 7)
    };
    let fit = (available_width + 1) / (gw + 1);
    let count = if label_len < fit {
        label_len
    } else {
        fit
    };
    assert(count * (gw + 1) <= available_width + 1) by (nonlinear_arith)
        requires
            count <= fit,
            fit == (available_width + 1) / (gw + 1),
            gw + 1 >= 1,
    ;
    let face_width = (count * (gw + 1)).saturating_sub(1);
    if available_height < 5 || available_width < 3 || face_width == 0 {
        return None;
    }
    let by_height = available_height / gh;
    let by_width = available_width / face_width;
    assert(by_width >= 1) by (nonlinear_arith)
        requires
            by_width == available_width / face_width,
            1 <= face_width <= available_width,
    ;
    let fitted = if by_height < by_width {
        by_height
    } else {
        by_width
    };
    let scale = if fitted > 1 {
        fitted
    } else {
        1
    };
    assert(face_width * scale <= available_width) by (nonlinear_arith)
        requires
            scale <= by_width,
            by_width == available_width / face_width,
            face_width >= 1,
    ;
    assert(gh <= available_height);
    assert(gh * scale <= available_height) by (nonlinear_arith)
        requires
            scale == 1 || scale <= by_height,
            by_height == available_height / gh,
            1 <= gh <= available_height,
    ;
    let x = (width - face_width * scale) / 2;
    let y = top + wall_height.saturating_sub(gh * scale) / 2;
    let sign_left = x.saturating_sub(px * 2);
    let sign_top = y.saturating_sub(1);
    let sign_bottom = y + gh * scale + 1;
    if sign_left < px * 36 && sign_top < py * 2 && sign_bottom > py {
        return None;
    }
    Some(SignValues { x, y, scale, compact, count, face_width })
}

/// Paints the project title on the wall at `top`, `wall_height` pixels
/// tall: a backing panel, then every lit glyph pixel as a square block.
/// Nothing is painted when the title has no room or would meet the
/// attention banner.
pub fn draw_room_project_sign(canvas: &mut Canvas, label: &str, top: usize, wall_height: usize)
    requires
        old(canvas).wf(),
        top + wall_height <= 0x7fff_ffff,
    ensures
        final(canvas).wf(),
        final(canvas).geometry_spec() == old(canvas).geometry_spec(),
        ({
            let g = old(canvas).geometry_spec();
            match room_sign_plan(g.width as int, g.height as int, g.cell_width as int, g.cell_height as int, label@.len() as int, top as int, wall_height as int) {
                None => forall|a: int, b: int| #[trigger] final(canvas).at(a, b) == old(canvas).at(a, b),
                Some(p) => forall|a: int, b: int|
                    #[trigger] final(canvas).at(a, b) == painted(*old(canvas), p, label@, g.cell_width as int, p.count, 0, 0, a, b),
            }
        }),
{
    let ghost before = *canvas;
    let g = canvas.geometry();
    let px = g.cell_width;
    let py = g.cell_height;
    let letters = chars_of(label);
    let plan = plan_room_sign(g.width, g.height, px, py, letters.len(), top, wall_height);
    let v = match plan {
        None => return,
        Some(v) => v,
    };
    let ghost p = SignPlan { x: v.x as int, y: v.y as int, scale: v.scale as int, compact: v.compact, count: v.count as int };
    let (gw, gh): (usize, usize) = if v.compact {
        (3, 5)
    } else {
        (5, 7)
    };
    canvas.fill_rect(
        v.x.saturating_sub(px * 2) as i32,
        v.y.saturating_sub(1) as i32,
        (v.face_width * v.scale + px * 4) as i32,
        (gh * v.scale + 2) as i32,
        panel_color(),
    );
    proof {
        assert forall|a: int, b: int| #[trigger] canvas.at(a, b) == painted(before, p, letters@, px as int, 0, 0, 0, a, b) by {
            lemma_nothing_before_start(p, letters@, a, b);
        }
    }
    let title = title_color();
    let mut index: usize = 0;
    while index < v.count
        invariant
            canvas.wf(),
            canvas.geometry_spec() == before.geometry_spec(),
            letters@ == label@,
            index <= v.count,
            v.count <= letters@.len(),
            (gw as int, gh as int) == glyph_size(v.compact),
            p == (SignPlan { x: v.x as int, y: v.y as int, scale: v.scale as int, compact: v.compact, count: v.count as int }),
            v.face_width == v.count * (gw + 1) - 1,
            v.scale >= 1,
            v.x + v.face_width * v.scale <= 0xffff * 16,
            v.y + gh * v.scale <= 0x7fff_ffff,
            gh * v.scale <= 64,
            title == title_color_spec(),
            forall|a: int, b: int| #[trigger] canvas.at(a, b) == painted(before, p, letters@, px as int, index as int, 0, 0, a, b),
        decreases v.count - index,
    {
        let rows = sign_glyph_rows(v.compact, letters[index]);
        let mut row: usize = 0;
        while row < gh
            invariant
                canvas.wf(),
                canvas.geometry_spec() == before.geometry_spec(),
                letters@ == label@,
                index < v.count,
                v.count <= letters@.len(),
                row <= gh,
                (gw as int, gh as int) == glyph_size(v.compact),
                p == (SignPlan { x: v.x as int, y: v.y as int, scale: v.scale as int, compact: v.compact, count: v.count as int }),
                v.face_width == v.count * (gw + 1) - 1,
                v.scale >= 1,
                v.x + v.face_width * v.scale <= 0xffff * 16,
                v.y + gh * v.scale <= 0x7fff_ffff,
                rows@ == sign_glyph(v.compact, letters@[index as int]),
                title == title_color_spec(),
                forall|a: int, b: int| #[trigger] canvas.at(a, b) == painted(before, p, letters@, px as int, index as int, row as int, 0, a, b),
            decreases gh - row,
        {
            let bits = rows[row];
            let mut column: usize = 0;
            while column < gw
                invariant
                    canvas.wf(),
                    canvas.geometry_spec() == before.geometry_spec(),
                    letters@ == label@,
                    index < v.count,
                    v.count <= letters@.len(),
                    row < gh,
                    column <= gw,
                    (gw as int, gh as int) == glyph_size(v.compact),
                    p == (SignPlan { x: v.x as int, y: v.y as int, scale: v.scale as int, compact: v.compact, count: v.count as int }),
                    v.face_width == v.count * (gw + 1) - 1,
                    v.scale >= 1,
                    v.x + v.face_width * v.scale <= 0xffff * 16,
                    v.y + gh * v.scale <= 0x7fff_ffff,
                    bits == sign_glyph(v.compact, letters@[index as int])[row as int],
                    title == title_color_spec(),
                    forall|a: int, b: int| #[trigger] canvas.at(a, b) == painted(before, p, letters@, px as int, index as int, row as int, column as int, a, b),
                decreases gw - column,
            {
                let ghost prior = *canvas;
                let shift = (gw - 1 - column) as u8;
                let on = bits & (1u8 << shift) != 0;
                if on {
                    assert(index * (gw + 1) + column < v.face_width) by (nonlinear_arith)
                        requires
                            index < v.count,
                            column < gw,
                            v.face_width == v.count * (gw + 1) - 1,
                    ;
                    let k = index * (gw + 1) + column;
                    assert(k * v.scale + v.scale <= v.face_width * v.scale) by (nonlinear_arith)
                        requires
                            k < v.face_width,
                            v.scale >= 1,
                    ;
                    assert(row * v.scale + v.scale <= gh * v.scale) by (nonlinear_arith)
                        requires
                            row < gh,
                            v.scale >= 1,
                    ;
                    let block_x = v.x + k * v.scale;
                    let block_y = v.y + row * v.scale;
                    canvas.fill_rect(block_x as i32, block_y as i32, v.scale as i32, v.scale as i32, title);
                }
                proof {
                    assert forall|a: int, b: int| #[trigger] canvas.at(a, b) == painted(before, p, letters@, px as int, index as int, row as int, column + 1, a, b) by {
                        lemma_next_cell(p, letters@, a, b, index as int, row as int, column as int);
                        assert(lit_cell(p, letters@, index as int, row as int, column as int) == on);
                    }
                }
                column += 1;
            }
            proof {
                assert forall|a: int, b: int| #[trigger] canvas.at(a, b) == painted(before, p, letters@, px as int, index as int, row + 1, 0, a, b) by {
                    lemma_same_progress(p, letters@, a, b, index as int, row as int, gw as int, index as int, row + 1, 0);
                }
            }
            row += 1;
        }
        proof {
            assert forall|a: int, b: int| #[trigger] canvas.at(a, b) == painted(before, p, letters@, px as int, index + 1, 0, 0, a, b) by {
                lemma_same_progress(p, letters@, a, b, index as int, gh as int, 0, index + 1, 0, 0);
            }
        }
        index += 1;
    }
}

proof fn lemma_nothing_before_start(p: SignPlan, letters: Seq<char>, a: int, b: int)
    ensures
        !title_before(p, letters, a, b, 0, 0, 0),
{
    if title_before(p, letters, a, b, 0, 0, 0) {
        let (i, r, c) = choose|i: int, r: int, c: int|
            #![trigger in_block(p, i, r, c, a, b)]
            lit_cell(p, letters, i, r, c) && drawn_before(i, r, c, 0, 0, 0) && in_block(p, i, r, c, a, b);
        assert(in_block(p, i, r, c, a, b));
    }
}

/// A title on a flat room's wall, which starts at the top of the canvas.
pub fn draw_flat_project_sign(canvas: &mut Canvas, label: &str, wall_height: usize)
    requires
        old(canvas).wf(),
        wall_height <= 0x7fff_ffff,
    ensures
        final(canvas).wf(),
        final(canvas).geometry_spec() == old(canvas).geometry_spec(),
        ({
            let g = old(canvas).geometry_spec();
            match room_sign_plan(g.width as int, g.height as int, g.cell_width as int, g.cell_height as int, label@.len() as int, 0, wall_height as int) {
                None => forall|a: int, b: int| #[trigger] final(canvas).at(a, b) == old(canvas).at(a, b),
                Some(p) => forall|a: int, b: int|
                    #[trigger] final(canvas).at(a, b) == painted(*old(canvas), p, label@, g.cell_width as int, p.count, 0, 0, a, b),
            }
        }),
{
    draw_room_project_sign(canvas, label, 0, wall_height);
}

/// What every wall-title plan satisfies.
proof fn lemma_plan_facts(width: int, height: int, px: int, py: int, label_len: int, top: int, wall_height: int)
    requires
        1 <= px,
        1 <= py,
        0 <= width,
        0 <= height,
        0 <= top,
        0 <= wall_height,
        0 <= label_len,
        room_sign_plan(width, height, px, py, label_len, top, wall_height) is Some,
    ensures
        ({
            let p = room_sign_plan(width, height, px, py, label_len, top, wall_height)->0;
            let (gw, gh) = glyph_size(p.compact);
            &&& p.scale >= 1
            &&& 1 <= p.count <= label_len
            &&& face_width(p) >= 1
            &&& 0 <= p.x
            &&& p.x + face_width(p) * p.scale <= width
            &&& top <= p.y
            &&& p.y + gh * p.scale <= top + wall_height
            &&& !(sat_sub(p.x, px * 2) < px * 36 && sat_sub(p.y, 1) < py * 2 && p.y + gh * p.scale + 1 > py)
        }),
{
    let (available_height, available_width) = sign_space(width, height, px, py, wall_height);
    let compact = available_height < 7 || label_len * 6 > available_width;
    let (gw, gh) = glyph_size(compact);
    let fit = (available_width + 1) / (gw + 1);
    let count = min(label_len, fit);
    let fw = sat_sub(count * (gw + 1), 1);
    assert(count * (gw + 1) <= available_width + 1) by (nonlinear_arith)
        requires
            0 <= count <= fit,
            fit == (available_width + 1) / (gw + 1),
            gw + 1 >= 1,
            available_width >= 0,
    ;
    let by_height = available_height / gh;
    let by_width = available_width / fw;
    assert(by_width >= 1) by (nonlinear_arith)
        requires
            by_width == available_width / fw,
            1 <= fw <= available_width,
    ;
    let scale = max(min(by_height, by_width), 1);
    assert(fw * scale <= available_width) by (nonlinear_arith)
        requires
            1 <= scale <= by_width,
            by_width == available_width / fw,
            fw >= 1,
    ;
    assert(gh * scale <= available_height) by (nonlinear_arith)
        requires
            scale == 1 || scale <= by_height,
            by_height == available_height / gh,
            1 <= gh <= available_height,
    ;
    assert(count >= 1) by (nonlinear_arith)
        requires
            fw == sat_sub(count * (gw + 1), 1),
            fw >= 1,
            count >= 0,
    ;
}

/// Where a lit glyph block lies: inside the lettered face.
proof fn lemma_title_pixel_bounds(p: SignPlan, letters: Seq<char>, a: int, b: int)
    requires
        p.scale >= 1,
        title_pixel(p, letters, a, b),
    ensures
        p.x <= a < p.x + face_width(p) * p.scale,
        p.y <= b < p.y + glyph_size(p.compact).1 * p.scale,
{
    let (i, r, c) = choose|i: int, r: int, c: int|
        #![trigger in_block(p, i, r, c, a, b)]
        lit_cell(p, letters, i, r, c) && drawn_before(i, r, c, p.count, 0, 0) && in_block(p, i, r, c, a, b);
    let (gw, gh) = glyph_size(p.compact);
    let k = i * (gw + 1) + c;
    assert(0 <= k < face_width(p)) by (nonlinear_arith)
        requires
            0 <= i < p.count,
            0 <= c < gw,
            gw >= 3,
            k == i * (gw + 1) + c,
            face_width(p) == p.count * (gw + 1) - 1,
    ;
    assert(0 <= k * p.scale && k * p.scale + p.scale <= face_width(p) * p.scale) by (nonlinear_arith)
        requires
            0 <= k < face_width(p),
            p.scale >= 1,
    ;
    assert(0 <= r * p.scale && r * p.scale + p.scale <= gh * p.scale) by (nonlinear_arith)
        requires
            0 <= r < gh,
            p.scale >= 1,
    ;
}

/// The lettering of a wall title stays on its wall: every title pixel is
/// on a row from `top` to the floor line below the wall, and inside the
/// canvas width.
pub proof fn law_wall_title_stays_on_its_wall(
    width: int,
    height: int,
    px: int,
    py: int,
    letters: Seq<char>,
    top: int,
    wall_height: int,
    a: int,
    b: int,
)
    requires
        1 <= px,
        1 <= py,
        0 <= width,
        0 <= height,
        0 <= top,
        0 <= wall_height,
        room_sign_plan(width, height, px, py, letters.len() as int, top, wall_height) matches Some(p) && title_pixel(
            p,
            letters,
            a,
            b,
        ),
    ensures
        top <= b < top + wall_height,
        0 <= a < width,
{
    let p = room_sign_plan(width, height, px, py, letters.len() as int, top, wall_height)->0;
    lemma_plan_facts(width, height, px, py, letters.len() as int, top, wall_height);
    lemma_title_pixel_bounds(p, letters, a, b);
}

/// The lettering of a wall title never meets the native attention banner:
/// no title pixel lies in the first 36 cells of the second cell row.
pub proof fn law_wall_title_clears_the_banner(
    width: int,
    height: int,
    px: int,
    py: int,
    letters: Seq<char>,
    top: int,
    wall_height: int,
    a: int,
    b: int,
)
    requires
        1 <= px,
        1 <= py,
        0 <= width,
        0 <= height,
        0 <= top,
        0 <= wall_height,
        room_sign_plan(width, height, px, py, letters.len() as int, top, wall_height) matches Some(p) && title_pixel(
            p,
            letters,
            a,
            b,
        ),
    ensures
        !(a < px * 36 && py <= b < py * 2),
{
    let p = room_sign_plan(width, height, px, py, letters.len() as int, top, wall_height)->0;
    lemma_plan_facts(width, height, px, py, letters.len() as int, top, wall_height);
    lemma_title_pixel_bounds(p, letters, a, b);
}

/// The lettering of a wall title lies on its backing panel.
pub proof fn law_wall_title_is_backed(
    width: int,
    height: int,
    px: int,
    py: int,
    letters: Seq<char>,
    top: int,
    wall_height: int,
    a: int,
    b: int,
)
    requires
        1 <= px,
        1 <= py,
        0 <= width,
        0 <= height,
        0 <= top,
        0 <= wall_height,
        room_sign_plan(width, height, px, py, letters.len() as int, top, wall_height) matches Some(p) && title_pixel(
            p,
            letters,
            a,
            b,
        ),
    ensures
        panel_pixel(room_sign_plan(width, height, px, py, letters.len() as int, top, wall_height)->0, px, a, b),
{
    let p = room_sign_plan(width, height, px, py, letters.len() as int, top, wall_height)->0;
    lemma_plan_facts(width, height, px, py, letters.len() as int, top, wall_height);
    lemma_title_pixel_bounds(p, letters, a, b);
}

} // verus!
