//! The pixel canvas scenes are painted on: a grid of optional colours, each
//! terminal cell covering a fixed block of pixels.
use vstd::prelude::*;
use crate::color::Color;

verus! {

/// How terminal cells are divided into pixels.
#[derive(Debug, Clone, Copy, PartialEq, Eq, Structural)]
pub enum PixelEncoding {
    HalfBlocks,
    Quadrants,
    Sextants,
}

/// Pixels per cell of an encoding: half blocks split a cell in two rows,
/// quadrants in two by two, sextants in two columns of three.
pub open spec fn density_spec(encoding: PixelEncoding) -> (usize, usize) {
    match encoding {
        PixelEncoding::HalfBlocks => (1, 2),
        PixelEncoding::Quadrants => (2, 2),
        PixelEncoding::Sextants => (2, 3),
    }
}

pub fn density(encoding: PixelEncoding) -> (r: (usize, usize))
    ensures
        r == density_spec(encoding),
{
    match encoding {
        PixelEncoding::HalfBlocks => (1, 2),
        PixelEncoding::Quadrants => (2, 2),
        PixelEncoding::Sextants => (2, 3),
    }
}

/// The pixel grid a scene is planned on.
#[derive(Debug, Clone, Copy, PartialEq, Eq, Structural)]
pub struct CanvasGeometry {
    pub width: usize,
    pub height: usize,
    pub encoding: PixelEncoding,
    /// Pixels per terminal cell, horizontally.
    pub cell_width: usize,
    /// Pixels per terminal cell, vertically.
    pub cell_height: usize,
}

/// Canvas sizes scenes are defined on: a terminal of at most `u16::MAX`
/// cells each way, each cell one to sixteen pixels wide and tall.
pub open spec fn geometry_in_range(c: CanvasGeometry) -> bool {
    &&& 1 <= c.cell_width <= 16
    &&& 1 <= c.cell_height <= 16
    &&& c.width <= 0xffff * 16
    &&& c.height <= 0xffff * 16
}

/// A pixel canvas. A pixel is `None` until something is painted on it.
pub struct Canvas {
    width: usize,
    height: usize,
    encoding: PixelEncoding,
    cell_width: usize,
    cell_height: usize,
    light: bool,
    pixels: Vec<Option<Color>>,
}

/// The position of pixel `(x, y)` in row-major order.
pub open spec fn pixel_index(width: int, x: int, y: int) -> int {
    y * width + x
}

proof fn lemma_index_in_bounds(width: int, height: int, x: int, y: int)
    requires
        0 <= x < width,
        0 <= y < height,
    ensures
        0 <= pixel_index(width, x, y) < width * height,
{
    assert(0 <= y * width + x < width * height) by (nonlinear_arith)
        requires
            0 <= x < width,
            0 <= y < height,
    ;
}

proof fn lemma_index_unique(width: int, x1: int, y1: int, x2: int, y2: int)
    requires
        0 <= x1 < width,
        0 <= x2 < width,
        0 <= y1,
        0 <= y2,
        pixel_index(width, x1, y1) == pixel_index(width, x2, y2),
    ensures
        x1 == x2,
        y1 == y2,
{
    assert(y1 == y2) by (nonlinear_arith)
        requires
            0 <= x1 < width,
            0 <= x2 < width,
            0 <= y1,
            0 <= y2,
            y1 * width + x1 == y2 * width + x2,
    ;
}

/// Whether `(a, b)` lies in the rectangle at `(x, y)` of `w` by `h` pixels.
pub open spec fn in_rect(x: int, y: int, w: int, h: int, a: int, b: int) -> bool {
    x <= a < x + w && y <= b < y + h
}

/// One filled rectangle of a drawing.
#[derive(Debug, Clone, Copy, PartialEq, Eq, Structural)]
pub struct PaintRect {
    pub x: i32,
    pub y: i32,
    pub width: i32,
    pub height: i32,
    pub color: Color,
}

/// Whether `(a, b)` lies in a paint rectangle.
pub open spec fn covers(r: PaintRect, a: int, b: int) -> bool {
    in_rect(r.x as int, r.y as int, r.width as int, r.height as int, a, b)
}

/// The pixel at `(a, b)` after filling `rects` in order on `before`: the
/// colour of the last rectangle over it, else what was there.
pub open spec fn painted_by(before: Canvas, rects: Seq<PaintRect>, a: int, b: int) -> Option<Color>
    decreases rects.len(),
{
    if rects.len() == 0 {
        before.at(a, b)
    } else if covers(rects.last(), a, b) && before.inside(a, b) {
        Some(rects.last().color)
    } else {
        painted_by(before, rects.drop_last(), a, b)
    }
}

/// Painting one list of rectangles and then another is painting both.
pub proof fn lemma_painted_in_turn(first: Canvas, second: Canvas, earlier: Seq<PaintRect>, later: Seq<PaintRect>, a: int, b: int)
    requires
        second.geometry_spec() == first.geometry_spec(),
        forall|x: int, y: int| #[trigger] second.at(x, y) == painted_by(first, earlier, x, y),
    ensures
        painted_by(second, later, a, b) == painted_by(first, earlier + later, a, b),
    decreases later.len(),
{
    if later.len() == 0 {
        assert(earlier + later =~= earlier);
    } else {
        lemma_painted_in_turn(first, second, earlier, later.drop_last(), a, b);
        assert((earlier + later).drop_last() =~= earlier + later.drop_last());
        assert((earlier + later).last() == later.last());
    }
}

impl Canvas {
    /// A canvas whose buffer holds no colour has no painted pixel.
    proof fn lemma_blank(&self)
        requires
            self.wf(),
            forall|i: int| 0 <= i < self.pixels@.len() ==> #[trigger] self.pixels@[i] == None::<Color>,
        ensures
            forall|x: int, y: int| #[trigger] self.at(x, y) == None::<Color>,
    {
        assert forall|x: int, y: int| #[trigger] self.at(x, y) == None::<Color> by {
            if self.inside(x, y) {
                lemma_index_in_bounds(self.width as int, self.height as int, x, y);
            }
        }
    }

    /// The pixel buffer holds exactly one entry per pixel, and the sizes
    /// are in range.
    pub closed spec fn wf(&self) -> bool {
        &&& geometry_in_range(self.geometry_spec())
        &&& self.pixels@.len() == self.width * self.height
    }

    pub closed spec fn geometry_spec(&self) -> CanvasGeometry {
        CanvasGeometry {
            width: self.width,
            height: self.height,
            encoding: self.encoding,
            cell_width: self.cell_width,
            cell_height: self.cell_height,
        }
    }

    /// Whether `(x, y)` is on the canvas.
    pub open spec fn inside(&self, x: int, y: int) -> bool {
        0 <= x < self.geometry_spec().width && 0 <= y < self.geometry_spec().height
    }

    /// The pixel at `(x, y)`; `None` off the canvas.
    pub closed spec fn at(&self, x: int, y: int) -> Option<Color> {
        if self.inside(x, y) {
            self.pixels@[pixel_index(self.width as int, x, y)]
        } else {
            None
        }
    }

    /// An empty canvas of `width` by `height` pixels with the encoding's
    /// own cell density.
    pub fn with_encoding(width: usize, height: usize, encoding: PixelEncoding) -> (c: Canvas)
        requires
            width <= 0xffff * 16,
            height <= 0xffff * 16,
            width * height <= usize::MAX,
        ensures
            c.wf(),
            c.geometry_spec() == (CanvasGeometry {
                width,
                height,
                encoding,
                cell_width: density_spec(encoding).0,
                cell_height: density_spec(encoding).1,
            }),
            forall|x: int, y: int| #[trigger] c.at(x, y) == None::<Color>,
            !c.is_light(),
    {
        let (cell_width, cell_height) = density(encoding);
        let pixels = blank(width, height);
        let c = Canvas { width, height, encoding, cell_width, cell_height, light: false, pixels };
        proof {
            c.lemma_blank();
        }
        c
    }

    /// Sets the pixels per cell of an image-capable terminal, or returns to
    /// the encoding's own density. The pixels are kept.
    pub fn set_cell_pixel_size(&mut self, size: Option<(usize, usize)>)
        requires
            old(self).wf(),
            match size {
                Some((w, h)) => 1 <= w <= 16 && 1 <= h <= 16,
                None => true,
            },
        ensures
            final(self).is_light() == old(self).is_light(),
            final(self).wf(),
            final(self).geometry_spec() == (CanvasGeometry {
                cell_width: match size {
                    Some((w, _)) => w,
                    None => density_spec(old(self).geometry_spec().encoding).0,
                },
                cell_height: match size {
                    Some((_, h)) => h,
                    None => density_spec(old(self).geometry_spec().encoding).1,
                },
                ..old(self).geometry_spec()
            }),
            forall|x: int, y: int| #[trigger] final(self).at(x, y) == old(self).at(x, y),
    {
        let (w, h) = match size {
            Some(pair) => pair,
            None => density(self.encoding),
        };
        self.cell_width = w;
        self.cell_height = h;
    }

    /// Resizes to `columns` by `rows` terminal cells and clears every pixel.
    pub fn resize_for_cells(&mut self, columns: usize, rows: usize)
        requires
            old(self).wf(),
            columns <= 0xffff,
            rows <= 0xffff,
            (columns * old(self).geometry_spec().cell_width) * (rows * old(self).geometry_spec().cell_height)
                <= usize::MAX,
        ensures
            final(self).wf(),
            final(self).geometry_spec() == (CanvasGeometry {
                width: (columns * old(self).geometry_spec().cell_width) as usize,
                height: (rows * old(self).geometry_spec().cell_height) as usize,
                ..old(self).geometry_spec()
            }),
            forall|x: int, y: int| #[trigger] final(self).at(x, y) == None::<Color>,
            final(self).is_light() == old(self).is_light(),
    {
        assert(columns * self.cell_width <= 0xffff * 16) by (nonlinear_arith)
            requires
                columns <= 0xffff,
                self.cell_width <= 16,
        ;
        assert(rows * self.cell_height <= 0xffff * 16) by (nonlinear_arith)
            requires
                rows <= 0xffff,
                self.cell_height <= 16,
        ;
        let width = columns * self.cell_width;
        let height = rows * self.cell_height;
        let pixels = blank(width, height);
        *self = Canvas {
            width,
            height,
            encoding: self.encoding,
            cell_width: self.cell_width,
            cell_height: self.cell_height,
            light: self.light,
            pixels,
        };
        proof {
            self.lemma_blank();
        }
    }

    /// Whether the canvas is drawn for a light terminal theme.
    pub closed spec fn is_light(&self) -> bool {
        self.light
    }

    pub fn is_light_mode(&self) -> (r: bool)
        ensures
            r == self.is_light(),
    {
        self.light
    }

    /// Switches between the dark and the light theme; pixels and sizes
    /// are kept.
    pub fn set_light_mode(&mut self, light: bool)
        requires
            old(self).wf(),
        ensures
            final(self).wf(),
            final(self).is_light() == light,
            final(self).geometry_spec() == old(self).geometry_spec(),
            forall|x: int, y: int| #[trigger] final(self).at(x, y) == old(self).at(x, y),
    {
        self.light = light;
    }

    pub fn width(&self) -> (r: usize)
        ensures
            r == self.geometry_spec().width,
    {
        self.width
    }

    pub fn height(&self) -> (r: usize)
        ensures
            r == self.geometry_spec().height,
    {
        self.height
    }

    pub fn encoding(&self) -> (r: PixelEncoding)
        ensures
            r == self.geometry_spec().encoding,
    {
        self.encoding
    }

    pub fn pixels_per_cell(&self) -> (r: (usize, usize))
        ensures
            r == (self.geometry_spec().cell_width, self.geometry_spec().cell_height),
    {
        (self.cell_width, self.cell_height)
    }

    pub fn geometry(&self) -> (r: CanvasGeometry)
        requires
            self.wf(),
        ensures
            r == self.geometry_spec(),
            geometry_in_range(r),
    {
        CanvasGeometry {
            width: self.width,
            height: self.height,
            encoding: self.encoding,
            cell_width: self.cell_width,
            cell_height: self.cell_height,
        }
    }

    /// The pixel at `(x, y)`, `None` when unpainted or off the canvas.
    pub fn pixel(&self, x: usize, y: usize) -> (r: Option<Color>)
        requires
            self.wf(),
        ensures
            r == self.at(x as int, y as int),
    {
        if x < self.width && y < self.height {
            let n = self.pixels.len();
            proof {
                lemma_index_in_bounds(self.width as int, self.height as int, x as int, y as int);
            }
            assert(y * self.width + x < n);
            self.pixels[y * self.width + x]
        } else {
            None
        }
    }

    /// Paints one pixel; a position off the canvas is ignored.
    pub fn set(&mut self, x: usize, y: usize, color: Color)
        requires
            old(self).wf(),
        ensures
            final(self).is_light() == old(self).is_light(),
            final(self).wf(),
            final(self).geometry_spec() == old(self).geometry_spec(),
            forall|a: int, b: int|
                #[trigger] final(self).at(a, b) == if a == x && b == y && old(self).inside(a, b) {
                    Some(color)
                } else {
                    old(self).at(a, b)
                },
    {
        if x < self.width && y < self.height {
            let n = self.pixels.len();
            proof {
                lemma_index_in_bounds(self.width as int, self.height as int, x as int, y as int);
            }
            assert(y * self.width + x < n);
            let ghost before = *self;
            let index = y * self.width + x;
            self.pixels.set(index, Some(color));
            proof {
                assert forall|a: int, b: int| #[trigger]
                    self.at(a, b) == if a == x && b == y && before.inside(a, b) {
                        Some(color)
                    } else {
                        before.at(a, b)
                    } by {
                    if self.inside(a, b) {
                        lemma_index_in_bounds(self.width as int, self.height as int, a, b);
                        if pixel_index(self.width as int, a, b) == index {
                            lemma_index_unique(self.width as int, a, b, x as int, y as int);
                        }
                    }
                }
            }
        }
    }

    /// Paints every pixel of the canvas.
    pub fn fill(&mut self, color: Color)
        requires
            old(self).wf(),
        ensures
            final(self).is_light() == old(self).is_light(),
            final(self).wf(),
            final(self).geometry_spec() == old(self).geometry_spec(),
            forall|a: int, b: int|
                #[trigger] final(self).at(a, b) == if old(self).inside(a, b) {
                    Some(color)
                } else {
                    None::<Color>
                },
    {
        let n = self.pixels.len();
        let mut pixels: Vec<Option<Color>> = Vec::new();
        let mut i: usize = 0;
        while i < n
            invariant
                i <= n,
                pixels@.len() == i,
                forall|k: int| 0 <= k < i ==> #[trigger] pixels@[k] == Some(color),
            decreases n - i,
        {
            pixels.push(Some(color));
            i += 1;
        }
        self.pixels = pixels;
        proof {
            assert forall|a: int, b: int| #[trigger]
                self.at(a, b) == if self.inside(a, b) {
                    Some(color)
                } else {
                    None::<Color>
                } by {
                if self.inside(a, b) {
                    lemma_index_in_bounds(self.width as int, self.height as int, a, b);
                }
            }
        }
    }

    /// Paints every on-canvas pixel of the rectangle at `(x, y)` of
    /// `width` by `height` pixels; an empty rectangle paints nothing.
    pub fn fill_rect(&mut self, x: i32, y: i32, width: i32, height: i32, color: Color)
        requires
            old(self).wf(),
        ensures
            final(self).is_light() == old(self).is_light(),
            final(self).wf(),
            final(self).geometry_spec() == old(self).geometry_spec(),
            forall|a: int, b: int|
                #[trigger] final(self).at(a, b) == if in_rect(x as int, y as int, width as int, height as int, a, b)
                    && old(self).inside(a, b) {
                    Some(color)
                } else {
                    old(self).at(a, b)
                },
    {
        let ghost before = *self;
        if width <= 0 || height <= 0 {
            return;
        }
        let canvas_width = self.width;
        let canvas_height = self.height;
        let x0: usize = if x < 0 {
            0
        } else {
            x as usize
        };
        let y0: usize = if y < 0 {
            0
        } else {
            y as usize
        };
        let right: i64 = x as i64 + width as i64;
        let bottom: i64 = y as i64 + height as i64;
        let x1: usize = if right <= 0 {
            0
        } else if right as u64 >= canvas_width as u64 {
            canvas_width
        } else {
            right as usize
        };
        let y1: usize = if bottom <= 0 {
            0
        } else if bottom as u64 >= canvas_height as u64 {
            canvas_height
        } else {
            bottom as usize
        };
        let mut row = y0;
        while row < y1
            invariant
                y0 <= row,
                y1 <= canvas_height,
                x1 <= canvas_width,
                self.wf(),
                canvas_width == self.geometry_spec().width,
                canvas_height == self.geometry_spec().height,
                self.geometry_spec() == before.geometry_spec(),
                self.is_light() == before.is_light(),
                x0 as int == (if x < 0 { 0 } else { x as int }),
                y0 as int == (if y < 0 { 0 } else { y as int }),
                x1 as int == (if x + width <= 0 { 0 } else if x + width >= canvas_width { canvas_width as int } else { x + width }),
                y1 as int == (if y + height <= 0 { 0 } else if y + height >= canvas_height { canvas_height as int } else { y + height }),
                forall|a: int, b: int|
                    #[trigger] self.at(a, b) == if in_rect(x as int, y as int, width as int, height as int, a, b)
                        && before.inside(a, b) && b < row {
                        Some(color)
                    } else {
                        before.at(a, b)
                    },
            decreases y1 - row,
        {
            let mut column = x0;
            while column < x1
                invariant
                    y0 <= row < y1,
                    x0 <= column,
                    y1 <= canvas_height,
                    x1 <= canvas_width,
                    self.wf(),
                    canvas_width == self.geometry_spec().width,
                    canvas_height == self.geometry_spec().height,
                    self.geometry_spec() == before.geometry_spec(),
                    self.is_light() == before.is_light(),
                    x0 as int == (if x < 0 { 0 } else { x as int }),
                    y0 as int == (if y < 0 { 0 } else { y as int }),
                    x1 as int == (if x + width <= 0 { 0 } else if x + width >= canvas_width { canvas_width as int } else { x + width }),
                    y1 as int == (if y + height <= 0 { 0 } else if y + height >= canvas_height { canvas_height as int } else { y + height }),
                    forall|a: int, b: int|
                        #[trigger] self.at(a, b) == if in_rect(x as int, y as int, width as int, height as int, a, b)
                            && before.inside(a, b) && (b < row || (b == row && a < column)) {
                            Some(color)
                        } else {
                            before.at(a, b)
                        },
                decreases x1 - column,
            {
                self.set(column, row, color);
                column += 1;
            }
            row += 1;
        }
    }
}

impl Canvas {
    /// Fills each rectangle of `rects` in turn.
    pub fn paint_all(&mut self, rects: &Vec<PaintRect>)
        requires
            old(self).wf(),
        ensures
            final(self).is_light() == old(self).is_light(),
            final(self).wf(),
            final(self).geometry_spec() == old(self).geometry_spec(),
            forall|a: int, b: int| #[trigger] final(self).at(a, b) == painted_by(*old(self), rects@, a, b),
    {
        let ghost before = *self;
        let mut i: usize = 0;
        while i < rects.len()
            invariant
                self.wf(),
                self.geometry_spec() == before.geometry_spec(),
                self.is_light() == before.is_light(),
                i <= rects.len(),
                forall|a: int, b: int| #[trigger] self.at(a, b) == painted_by(before, rects@.take(i as int), a, b),
            decreases rects.len() - i,
        {
            let r = rects[i];
            self.fill_rect(r.x, r.y, r.width, r.height, r.color);
            proof {
                assert(rects@.take(i + 1).drop_last() =~= rects@.take(i as int));
                assert(rects@.take(i + 1).last() == r);
            }
            i += 1;
        }
        assert(rects@.take(rects.len() as int) =~= rects@);
    }
}

/// `width * height` unpainted pixels.
fn blank(width: usize, height: usize) -> (v: Vec<Option<Color>>)
    requires
        width * height <= usize::MAX,
    ensures
        v@.len() == width * height,
        forall|i: int| 0 <= i < v@.len() ==> #[trigger] v@[i] == None::<Color>,
{
    let total = width * height;
    let mut v: Vec<Option<Color>> = Vec::new();
    let mut i: usize = 0;
    while i < total
        invariant
            i <= total,
            v@.len() == i,
            forall|k: int| 0 <= k < v@.len() ==> #[trigger] v@[k] == None::<Color>,
        decreases total - i,
    {
        v.push(None);
        i += 1;
    }
    v
}

} // verus!
