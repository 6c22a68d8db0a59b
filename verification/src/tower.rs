//! The office tower view: pixel boxes mapped to terminal cells, and the
//! quiet city around the building.
use vstd::prelude::*;
use crate::canvas::Canvas;
use crate::color::Color;
use crate::layout::{ceil_div, div_ceil, floor_capacity, max, min, rect_spec, sat_sub, window_start, Rect};

verus! {

/// A box of canvas pixels.
#[derive(Debug, Clone, Copy, Default, PartialEq, Eq, Structural)]
pub struct PixelRect {
    pub x: usize,
    pub y: usize,
    pub width: usize,
    pub height: usize,
}

// ---------------------------------------------------------------------------
// Pixel boxes as terminal cells
// ---------------------------------------------------------------------------

/// Whether the cell box of a pixel box is empty by construction: no cell
/// size or no pixels.
pub open spec fn no_cells(rect: PixelRect, cw: int, ch: int) -> bool {
    cw == 0 || ch == 0 || rect.width == 0 || rect.height == 0
}

/// The cells a name plate drawn in a pixel box may use: starting at the
/// first whole cell at or after the box's corner (so text never covers the
/// art above it), as many whole cells as the box holds, within `area`.
pub open spec fn native_plate_rect_spec(rect: PixelRect, area: Rect, cw: int, ch: int) -> Rect {
    if no_cells(rect, cw, ch) {
        rect_spec(area.x, area.y, 0, 0)
    } else {
        let x = min(ceil_div(rect.x as nat, cw as nat) as int, area.width as int);
        let y = min(ceil_div(rect.y as nat, ch as nat) as int, area.height as int);
        rect_spec(
            (area.x + x) as u16,
            (area.y + y) as u16,
            min(rect.width as int / cw, area.width - x) as u16,
            min(rect.height as int / ch, area.height - y) as u16,
        )
    }
}

/// Plate boxes whose cell arithmetic stays within `u16`.
pub open spec fn native_plate_fits(rect: PixelRect, area: Rect, cw: int, ch: int) -> bool {
    !no_cells(rect, cw, ch) ==> {
        &&& area.x + min(ceil_div(rect.x as nat, cw as nat) as int, area.width as int) <= u16::MAX
        &&& area.y + min(ceil_div(rect.y as nat, ch as nat) as int, area.height as int) <= u16::MAX
    }
}

pub fn native_plate_rect(rect: PixelRect, area: Rect, cw: usize, ch: usize) -> (r: Rect)
    requires
        native_plate_fits(rect, area, cw as int, ch as int),
    ensures
        r == native_plate_rect_spec(rect, area, cw as int, ch as int),
{
    if cw == 0 || ch == 0 || rect.width == 0 || rect.height == 0 {
        return Rect::new(area.x, area.y, 0, 0);
    }
    let cx = div_ceil(rect.x, cw);
    let cy = div_ceil(rect.y, ch);
    let x = (if cx < area.width as usize {
        cx
    } else {
        area.width as usize
    }) as u16;
    let y = (if cy < area.height as usize {
        cy
    } else {
        area.height as usize
    }) as u16;
    let columns = rect.width / cw;
    let rows = rect.height / ch;
    let free_columns = (area.width - x) as usize;
    let free_rows = (area.height - y) as usize;
    Rect::new(
        area.x + x,
        area.y + y,
        (if columns < free_columns {
            columns
        } else {
            free_columns
        }) as u16,
        (if rows < free_rows {
            rows
        } else {
            free_rows
        }) as u16,
    )
}

/// A name plate's cells never leave the area it is placed in.
pub proof fn law_plates_stay_in_their_area(rect: PixelRect, area: Rect, cw: int, ch: int)
    requires
        area.x + area.width <= u16::MAX,
        area.y + area.height <= u16::MAX,
        cw >= 0,
        ch >= 0,
    ensures
        ({
            let r = native_plate_rect_spec(rect, area, cw, ch);
            &&& area.x <= r.x && r.x + r.width <= area.x + area.width
            &&& area.y <= r.y && r.y + r.height <= area.y + area.height
        }),
{
}

/// The cells a pixel box touches, within `area`: from the cell holding its
/// corner to the cell past its far edge.
pub open spec fn native_rect_spec(rect: PixelRect, area: Rect, cw: int, ch: int) -> Rect {
    if no_cells(rect, cw, ch) {
        rect_spec(area.x, area.y, 0, 0)
    } else {
        let x = min(rect.x as int / cw, area.width as int);
        let y = min(rect.y as int / ch, area.height as int);
        let right_edge = min(rect.x + rect.width, usize::MAX as int);
        let bottom_edge = min(rect.y + rect.height, usize::MAX as int);
        let right = min(ceil_div(right_edge as nat, cw as nat) as int, area.width as int);
        let bottom = min(ceil_div(bottom_edge as nat, ch as nat) as int, area.height as int);
        rect_spec((area.x + x) as u16, (area.y + y) as u16, sat_sub(right, x) as u16, sat_sub(bottom, y) as u16)
    }
}

/// Boxes whose cell arithmetic stays within `u16`.
pub open spec fn native_rect_fits(rect: PixelRect, area: Rect, cw: int, ch: int) -> bool {
    !no_cells(rect, cw, ch) ==> {
        &&& area.x + min(rect.x as int / cw, area.width as int) <= u16::MAX
        &&& area.y + min(rect.y as int / ch, area.height as int) <= u16::MAX
    }
}

pub fn native_rect(rect: PixelRect, area: Rect, cw: usize, ch: usize) -> (r: Rect)
    requires
        native_rect_fits(rect, area, cw as int, ch as int),
    ensures
        r == native_rect_spec(rect, area, cw as int, ch as int),
{
    if cw == 0 || ch == 0 || rect.width == 0 || rect.height == 0 {
        return Rect::new(area.x, area.y, 0, 0);
    }
    let cx = rect.x / cw;
    let cy = rect.y / ch;
    let x = (if cx < area.width as usize {
        cx
    } else {
        area.width as usize
    }) as u16;
    let y = (if cy < area.height as usize {
        cy
    } else {
        area.height as usize
    }) as u16;
    let r = div_ceil(rect.x.saturating_add(rect.width), cw);
    let b = div_ceil(rect.y.saturating_add(rect.height), ch);
    let right = (if r < area.width as usize {
        r
    } else {
        area.width as usize
    }) as u16;
    let bottom = (if b < area.height as usize {
        b
    } else {
        area.height as usize
    }) as u16;
    Rect::new(area.x + x, area.y + y, right.saturating_sub(x), bottom.saturating_sub(y))
}

// ---------------------------------------------------------------------------
// The city around the tower
// ---------------------------------------------------------------------------

/// The outdoor colours: sky, distant buildings, ground and the building's
/// edge, pale on light terminals and dark at night otherwise.
pub open spec fn exterior_palette(light: bool) -> (Color, Color, Color, Color) {
    if light {
        (Color::Rgb(205, 220, 224), Color::Rgb(179, 197, 202), Color::Rgb(207, 210, 199), Color::Rgb(129, 153, 155))
    } else {
        (Color::Rgb(25, 34, 49), Color::Rgb(34, 46, 63), Color::Rgb(34, 44, 49), Color::Rgb(67, 85, 95))
    }
}

/// The skyline's base: a cell row above the building's top.
pub open spec fn skyline_base(building: PixelRect, cell_height: int) -> int {
    sat_sub(building.y as int, cell_height)
}

/// The top of the distant building in column `x`: each 64-pixel block
/// rises 12 to 84 pixels above the base.
pub open spec fn skyline_roof(building: PixelRect, cell_height: int, x: int) -> int {
    sat_sub(skyline_base(building, cell_height), 12 + (x / 64) * 37 % 73)
}

/// Whether column `x` is under the building.
pub open spec fn in_building_columns(building: PixelRect, x: int) -> bool {
    building.x <= x < building.x + building.width
}

/// The colour of pixel `(a, b)` around the building: a five-pixel edge
/// under the building over the ground below it, a four-pixel edge over
/// it, distant blocks (with ten-pixel gaps) behind, and sky elsewhere.
pub open spec fn exterior_color(building: PixelRect, cell_height: int, light: bool, height: int, a: int, b: int) -> Color {
    let (sky, distant, ground, edge) = exterior_palette(light);
    let top = building.y as int;
    let bottom = building.y + building.height;
    if in_building_columns(building, a) && bottom <= b < min(bottom + 5, height) {
        edge
    } else if bottom <= b {
        ground
    } else if in_building_columns(building, a) && sat_sub(top, 4) <= b < top {
        edge
    } else if a % 64 < 54 && skyline_roof(building, cell_height, a) <= b < skyline_base(building, cell_height) {
        distant
    } else {
        sky
    }
}

/// Buildings whose extent fits `usize`.
pub open spec fn exterior_fits(building: PixelRect) -> bool {
    &&& building.x + building.width <= usize::MAX
    &&& building.y + building.height + 5 <= usize::MAX
}

fn paint_column(canvas: &mut Canvas, x: usize, from: usize, to: usize, color: Color)
    requires
        old(canvas).wf(),
    ensures
        final(canvas).wf(),
        final(canvas).geometry_spec() == old(canvas).geometry_spec(),
        final(canvas).is_light() == old(canvas).is_light(),
        forall|a: int, b: int|
            #[trigger] final(canvas).at(a, b) == if old(canvas).inside(a, b) && a == x && from <= b < to {
                Some(color)
            } else {
                old(canvas).at(a, b)
            },
{
    let ghost before = *canvas;
    let mut y = from;
    while y < to
        invariant
            from <= y,
            y <= to || y == from,
            canvas.wf(),
            canvas.geometry_spec() == before.geometry_spec(),
            canvas.is_light() == before.is_light(),
            forall|a: int, b: int|
                #[trigger] canvas.at(a, b) == if before.inside(a, b) && a == x && from <= b < y {
                    Some(color)
                } else {
                    before.at(a, b)
                },
        decreases to - y,
    {
        canvas.set(x, y, color);
        y += 1;
    }
}

/// Paints the city around the building: the whole canvas is covered.
pub fn exterior(canvas: &mut Canvas, building: PixelRect, cell_height: usize, light: bool)
    requires
        old(canvas).wf(),
        exterior_fits(building),
    ensures
        final(canvas).wf(),
        final(canvas).geometry_spec() == old(canvas).geometry_spec(),
        final(canvas).is_light() == old(canvas).is_light(),
        forall|a: int, b: int|
            #[trigger] final(canvas).at(a, b) == if old(canvas).inside(a, b) {
                Some(exterior_color(building, cell_height as int, light, old(canvas).geometry_spec().height as int, a, b))
            } else {
                None::<Color>
            },
{
    let top = building.y;
    let (sky, distant, ground, edge) = if light {
        (Color::Rgb(205, 220, 224), Color::Rgb(179, 197, 202), Color::Rgb(207, 210, 199), Color::Rgb(129, 153, 155))
    } else {
        (Color::Rgb(25, 34, 49), Color::Rgb(34, 46, 63), Color::Rgb(34, 44, 49), Color::Rgb(67, 85, 95))
    };
    canvas.fill(sky);
    let ghost filled = *canvas;
    let base = top.saturating_sub(cell_height);
    let bottom = top + building.height;
    let geometry = canvas.geometry();
    let width = geometry.width;
    let height = geometry.height;
    let mut x: usize = 0;
    while x < width
        invariant
            x <= width,
            width == filled.geometry_spec().width,
            height == filled.geometry_spec().height,
            width <= 0xffff * 16,
            base as int == skyline_base(building, cell_height as int),
            bottom == building.y + building.height,
            top == building.y,
            exterior_fits(building),
            (sky, distant, ground, edge) == exterior_palette(light),
            forall|a: int, b: int| #[trigger] filled.at(a, b) == if filled.inside(a, b) {
                Some(sky)
            } else {
                None::<Color>
            },
            canvas.wf(),
            canvas.geometry_spec() == filled.geometry_spec(),
            canvas.is_light() == filled.is_light(),
            forall|a: int, b: int|
                #[trigger] canvas.at(a, b) == if filled.inside(a, b) && a < x {
                    Some(exterior_color(building, cell_height as int, light, height as int, a, b))
                } else {
                    filled.at(a, b)
                },
        decreases width - x,
    {
        let ghost start = *canvas;
        let block = x / 64;
        let roof = base.saturating_sub(12 + (block * 37 % 73));
        assert(roof as int == skyline_roof(building, cell_height as int, x as int));
        if x % 64 < 54 {
            paint_column(canvas, x, roof, base, distant);
        }
        let in_building = x >= building.x && x < building.x + building.width;
        if in_building {
            paint_column(canvas, x, top.saturating_sub(4), top, edge);
        }
        paint_column(canvas, x, bottom, height, ground);
        if in_building {
            let end = if bottom + 5 < height {
                bottom + 5
            } else {
                height
            };
            paint_column(canvas, x, bottom, end, edge);
        }
        proof {
            assert forall|a: int, b: int| #[trigger]
                canvas.at(a, b) == if filled.inside(a, b) && a < x + 1 {
                    Some(exterior_color(building, cell_height as int, light, height as int, a, b))
                } else {
                    filled.at(a, b)
                } by {
                if a == x && filled.inside(a, b) {
                    assert(start.at(a, b) == Some(sky));
                }
            }
        }
        x += 1;
    }
}


// ---------------------------------------------------------------------------
// The building
// ---------------------------------------------------------------------------

/// How the tower view uses its area.
pub enum TowerPlan {
    /// Too small, or without pixel images: the text view.
    Compact,
    /// The building drawn in pixels.
    Building {
        /// The building's cells, centred in the area.
        building: Rect,
        /// The building's pixels, when the city shows around it.
        exterior: Option<PixelRect>,
        /// The first floor shown.
        start: usize,
        /// The floors shown, top first, each a band of whole rows.
        floors: Vec<Rect>,
    },
}

/// The floors a view shows: as many as fit, or the selected one alone
/// outside the tower overview.
pub open spec fn floors_shown(height: u16, count: nat, tower: bool) -> nat {
    if tower {
        min(min(max(height as int / 10, 1), 5), count as int) as nat
    } else {
        1
    }
}

pub open spec fn building_width(area: Rect, cw: nat, tower: bool) -> int {
    if tower {
        min(area.width as int, max(1120int / cw as int, 1))
    } else {
        area.width as int
    }
}

pub open spec fn building_height(area: Rect, ch: nat, visible: nat, tower: bool) -> int {
    if tower {
        min(area.height as int, (visible * 11) as int)
    } else {
        min(area.height as int, max(512int / ch as int, 1))
    }
}

/// The building's cells in `area`.
pub open spec fn building_rect(area: Rect, cw: nat, ch: nat, visible: nat, tower: bool) -> Rect {
    let w = building_width(area, cw, tower);
    let h = building_height(area, ch, visible, tower);
    Rect {
        x: (area.x + (area.width - w) / 2) as u16,
        y: (if tower { area.y + (area.height - h) / 2 } else { area.y as int }) as u16,
        width: w as u16,
        height: h as u16,
    }
}

/// Floor `slot` of `visible`: whole rows from `h * slot / visible` to
/// `h * (slot + 1) / visible` of the building.
pub open spec fn floor_band(b: Rect, visible: nat, slot: nat) -> Rect {
    let top = b.y + (b.height * slot) as int / visible as int;
    let bottom = b.y + (b.height * (slot + 1)) as int / visible as int;
    rect_spec(b.x, top as u16, b.width, (bottom - top) as u16)
}

/// The plan of the tower view in `area`, for `count` floors with
/// `selected` chosen, on a canvas of `canvas_width` pixels with cells of
/// `cw` by `ch` pixels (zero when the canvas holds no images).
pub open spec fn tower_plan_spec(
    area: Rect,
    cw: nat,
    ch: nat,
    canvas_width: nat,
    count: nat,
    selected: nat,
    tower: bool,
    r: Option<TowerPlan>,
) -> bool {
    if selected >= count || area.width == 0 || area.height == 0 {
        r is None
    } else if area.width < 36 || area.height < 10 || cw == 0 || ch == 0 || canvas_width < 280 {
        r == Some(TowerPlan::Compact)
    } else {
        let visible = floors_shown(area.height, count, tower);
        let b = building_rect(area, cw, ch, visible, tower);
        match r {
            Some(TowerPlan::Building { building, exterior, start, floors }) => {
                &&& building == b
                &&& start == if tower {
                    min(sat_sub(selected as int, visible as int / 2), sat_sub(count as int, visible as int))
                } else {
                    selected as int
                }
                &&& exterior == if tower && (b.height < area.height || b.width < area.width) {
                    Some(
                        PixelRect {
                            x: ((b.x - area.x) * cw) as usize,
                            y: ((b.y - area.y) * ch) as usize,
                            width: (b.width * cw) as usize,
                            height: (b.height * ch) as usize,
                        },
                    )
                } else {
                    None::<PixelRect>
                }
                &&& floors@.len() == visible
                &&& forall|k: int| 0 <= k < visible ==> #[trigger] floors@[k] == floor_band(b, visible, k as nat)
            },
            _ => false,
        }
    }
}

proof fn lemma_cells_to_pixels(cells: int, size: int)
    by (nonlinear_arith)
    requires
        0 <= cells <= 0xffff,
        0 <= size <= 16,
    ensures
        0 <= cells * size <= 0xffff * 16,
{
}

/// The layout of the tower view. `cw` and `ch` are the canvas's cell size
/// in pixels once sized to the area, `canvas_width` its width in pixels.
pub fn tower_layout(
    area: Rect,
    cw: usize,
    ch: usize,
    canvas_width: usize,
    count: usize,
    selected: usize,
    tower: bool,
) -> (r: Option<TowerPlan>)
    requires
        area.x + area.width <= u16::MAX,
        area.y + area.height <= u16::MAX,
        cw <= 16,
        ch <= 16,
    ensures
        tower_plan_spec(area, cw as nat, ch as nat, canvas_width as nat, count as nat, selected as nat, tower, r),
{
    if selected >= count || area.width == 0 || area.height == 0 {
        return None;
    }
    if area.width < 36 || area.height < 10 || cw == 0 || ch == 0 || canvas_width < 280 {
        return Some(TowerPlan::Compact);
    }
    let visible: usize = if tower {
        let cap = floor_capacity(area.height);
        if cap < count { cap } else { count }
    } else {
        1
    };
    let start = if tower { window_start(selected, count, visible) } else { selected };
    let bw: u16 = if tower {
        let per = 1120 / cw;
        let most: u16 = if per > 1 { per as u16 } else { 1 };
        if area.width < most { area.width } else { most }
    } else {
        area.width
    };
    let bx = area.x + (area.width - bw) / 2;
    let bh: u16 = if tower {
        let tall = (visible * 11) as u16;
        if area.height < tall { area.height } else { tall }
    } else {
        let per = 512 / ch;
        let most: u16 = if per > 1 { per as u16 } else { 1 };
        if area.height < most { area.height } else { most }
    };
    let by = if tower { area.y + (area.height - bh) / 2 } else { area.y };
    let building = Rect { x: bx, y: by, width: bw, height: bh };
    assert(building == building_rect(area, cw as nat, ch as nat, visible as nat, tower));
    proof {
        lemma_cells_to_pixels((bx - area.x) as int, cw as int);
        lemma_cells_to_pixels((by - area.y) as int, ch as int);
        lemma_cells_to_pixels(bw as int, cw as int);
        lemma_cells_to_pixels(bh as int, ch as int);
    }
    let exterior = if tower && (bh < area.height || bw < area.width) {
        Some(PixelRect {
            x: (bx - area.x) as usize * cw,
            y: (by - area.y) as usize * ch,
            width: bw as usize * cw,
            height: bh as usize * ch,
        })
    } else {
        None
    };
    let mut floors: Vec<Rect> = Vec::new();
    let mut slot: usize = 0;
    while slot < visible
        invariant
            1 <= visible <= 5,
            slot <= visible,
            building == building_rect(area, cw as nat, ch as nat, visible as nat, tower),
            by + bh <= u16::MAX,
            building.y == by && building.height == bh && building.x == bx && building.width == bw,
            floors@.len() == slot,
            forall|k: int| 0 <= k < slot ==> #[trigger] floors@[k] == floor_band(building, visible as nat, k as nat),
        decreases visible - slot,
    {
        let h = bh as usize;
        assert(h * slot <= 0xffff * 5 && h * (slot + 1) <= 0xffff * 6) by (nonlinear_arith)
            requires
                h <= 0xffff,
                slot < visible,
                visible <= 5,
        ;
        let lo = h * slot / visible;
        let hi = h * (slot + 1) / visible;
        assert(lo <= hi && hi <= h) by (nonlinear_arith)
            requires
                lo == (h * slot) as int / visible as int,
                hi == (h * (slot + 1)) as int / visible as int,
                slot < visible,
                visible >= 1,
        ;
        let top = by + lo as u16;
        let bottom = by + hi as u16;
        floors.push(Rect::new(bx, top, bw, bottom - top));
        slot += 1;
    }
    Some(TowerPlan::Building { building, exterior, start, floors })
}
} // verus!
