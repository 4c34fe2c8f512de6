use vstd::prelude::*;

use crate::color::{rgb_eq, Rgba};
use vstd::arithmetic::div_mod::{lemma_fundamental_div_mod, lemma_mod_bound};
use crate::geometry::{
    in_world, pixel_index_exec, round_pixel, trunc_pixel, trunc_pixel_exec, Point, SUBPIXELS,
};

verus! {

/// Why a canvas operation was refused.
#[derive(Debug, Clone, Copy, PartialEq, Eq, Structural)]
pub enum CanvasError {
    /// A pixel coordinate lies outside the canvas.
    OutOfBounds,
}

/// The colour every pixel holds before anything is painted: opaque black.
pub open spec fn background() -> Rgba {
    Rgba { r: 0, g: 0, b: 0, a: 255 }
}

/// A colour whose red, green and blue channels are all zero: a pixel that
/// holds it counts as unpainted, whatever its alpha.
pub open spec fn is_blank(c: Rgba) -> bool {
    rgb_eq(c, Rgba { r: 0, g: 0, b: 0, a: 0 })
}

/// Column `i`, row `j` lies in the box of the given corner and size.
pub open spec fn in_rect(i: int, j: int, x: int, y: int, w: int, h: int) -> bool {
    x <= i < x + w && y <= j < y + h
}

/// Column `i`, row `j` lies in the bounding box scanned for a circle of
/// radius `r` pixels centred on world point (`cx`, `cy`).
pub open spec fn in_circle_box(i: int, j: int, cx: int, cy: int, r: int) -> bool {
    &&& round_pixel(cx - r * SUBPIXELS) <= i < round_pixel(cx + r * SUBPIXELS)
    &&& round_pixel(cy - r * SUBPIXELS) <= j < round_pixel(cy + r * SUBPIXELS)
}

/// Column `i`, row `j` is strictly inside the circle of radius `r` pixels about
/// the pixel that holds world point (`cx`, `cy`).
pub open spec fn in_disc(i: int, j: int, cx: int, cy: int, r: int) -> bool {
    let dx = i - trunc_pixel(cx);
    let dy = j - trunc_pixel(cy);
    dx * dx + dy * dy < r * r
}

/// Column `i`, row `j` is painted by `draw_circle(cx, cy, r, _)`.
pub open spec fn circle_covers(i: int, j: int, cx: int, cy: int, r: int) -> bool {
    in_circle_box(i, j, cx, cy, r) && in_disc(i, j, cx, cy, r)
}

/// A fixed-size raster of RGBA pixels, row-major, origin at the top left.
#[derive(Debug)]
pub struct GameCanvas {
    width: usize,
    height: usize,
    pixels: Vec<Rgba>,
}

proof fn lemma_index_in_range(w: int, h: int, x: int, y: int)
    requires
        0 <= x < w,
        0 <= y < h,
    ensures
        0 <= y * w + x < w * h,
{
    assert(0 <= y * w + x < w * h) by (nonlinear_arith)
        requires
            0 <= x < w,
            0 <= y < h,
    ;
}

proof fn lemma_index_unique(w: int, x: int, y: int, x2: int, y2: int)
    requires
        0 <= x < w,
        0 <= x2 < w,
        0 <= y,
        0 <= y2,
        y * w + x == y2 * w + x2,
    ensures
        x == x2,
        y == y2,
{
    if y < y2 {
        assert(y * w + x < y2 * w + x2) by (nonlinear_arith)
            requires
                0 <= x < w,
                0 <= x2,
                y < y2,
        ;
    } else if y2 < y {
        assert(y2 * w + x2 < y * w + x) by (nonlinear_arith)
            requires
                0 <= x2 < w,
                0 <= x,
                y2 < y,
        ;
    }
}

impl GameCanvas {
    /// Width in pixels.
    pub closed spec fn width_spec(&self) -> int {
        self.width as int
    }

    /// Height in pixels.
    pub closed spec fn height_spec(&self) -> int {
        self.height as int
    }

    /// The colour stored at column `x`, row `y`.
    pub closed spec fn pixel(&self, x: int, y: int) -> Rgba {
        self.pixels@[y * self.width + x]
    }

    pub closed spec fn wf(&self) -> bool {
        &&& self.width <= u16::MAX
        &&& self.height <= u16::MAX
        &&& self.width * self.height <= usize::MAX
        &&& self.pixels@.len() == self.width * self.height
    }

    /// Column `x`, row `y` is a pixel of this canvas.
    pub open spec fn contains(&self, x: int, y: int) -> bool {
        0 <= x < self.width_spec() && 0 <= y < self.height_spec()
    }

    /// Every pixel agrees with `f`.
    pub open spec fn paints(&self, f: spec_fn(int, int) -> Rgba) -> bool {
        forall|i: int, j: int| #[trigger] self.contains(i, j) ==> self.pixel(i, j) == f(i, j)
    }

    /// A canvas of the given size with every pixel set to the background colour.
    pub fn new(width: u16, height: u16) -> (c: GameCanvas)
        ensures
            c.wf(),
            c.width_spec() == width as int,
            c.height_spec() == height as int,
            forall|i: int, j: int| #[trigger] c.contains(i, j) ==> c.pixel(i, j) == background(),
    {
        proof {
            assert(width as int * height as int <= 0xffff * 0xffff) by (nonlinear_arith)
                requires
                    width <= 0xffff,
                    height <= 0xffff,
            ;
        }
        let n: usize = width as usize * height as usize;
        let mut pixels: Vec<Rgba> = Vec::with_capacity(n);
        let mut k: usize = 0;
        while k < n
            invariant
                k <= n,
                n == width * height,
                pixels@.len() == k,
                forall|m: int| 0 <= m < k ==> #[trigger] pixels@[m] == background(),
            decreases n - k,
        {
            pixels.push(Rgba { r: 0, g: 0, b: 0, a: 255 });
            k = k + 1;
        }
        let c = GameCanvas { width: width as usize, height: height as usize, pixels };
        assert forall|i: int, j: int| #[trigger] c.contains(i, j) implies c.pixel(i, j)
            == background() by {
            lemma_index_in_range(c.width as int, c.height as int, i, j);
        }
        c
    }

    pub fn width(&self) -> (w: usize)
        ensures
            w == self.width_spec(),
    {
        self.width
    }

    pub fn height(&self) -> (h: usize)
        ensures
            h == self.height_spec(),
    {
        self.height
    }

    /// Sets one pixel. Fails, leaving the canvas as it was, when the pixel lies
    /// outside the canvas.
    pub fn fill_pixel(&mut self, x: usize, y: usize, color: &Rgba) -> (res: Result<(), CanvasError>)
        requires
            old(self).wf(),
        ensures
            final(self).wf(),
            final(self).width_spec() == old(self).width_spec(),
            final(self).height_spec() == old(self).height_spec(),
            res is Ok <==> old(self).contains(x as int, y as int),
            res is Err ==> res == Err::<(), CanvasError>(CanvasError::OutOfBounds),
            res is Ok ==> pixel_written(*old(self), *final(self), x as int, y as int, *color),
            res is Err ==> *final(self) == *old(self),
    {
        if x >= self.width || y >= self.height {
            return Err(CanvasError::OutOfBounds);
        }
        proof {
            lemma_index_in_range(self.width as int, self.height as int, x as int, y as int);
        }
        let idx: usize = y * self.width + x;
        self.pixels.set(idx, *color);
        proof {
            assert forall|i: int, j: int| #[trigger] self.contains(i, j) implies self.pixel(i, j)
                == if i == x && j == y {
                *color
            } else {
                old(self).pixel(i, j)
            } by {
                lemma_index_in_range(self.width as int, self.height as int, i, j);
                if i != x || j != y {
                    if j * self.width + i == idx {
                        lemma_index_unique(self.width as int, i, j, x as int, y as int);
                    }
                }
            }
        }
        Ok(())
    }

    /// Reads one pixel. Fails when the pixel lies outside the canvas.
    pub fn at(&self, loc: &Point<usize>) -> (res: Result<Rgba, CanvasError>)
        requires
            self.wf(),
        ensures
            match res {
                Ok(c) => self.contains(loc.x as int, loc.y as int) && c == self.pixel(
                    loc.x as int,
                    loc.y as int,
                ),
                Err(e) => !self.contains(loc.x as int, loc.y as int) && e == CanvasError::OutOfBounds,
            },
    {
        if loc.x >= self.width || loc.y >= self.height {
            return Err(CanvasError::OutOfBounds);
        }
        proof {
            lemma_index_in_range(self.width as int, self.height as int, loc.x as int, loc.y as int);
        }
        Ok(self.pixels[loc.y * self.width + loc.x])
    }

    /// Every pixel of the box lies on the canvas (an empty box always does).
    pub open spec fn holds_rect(&self, x: int, y: int, w: int, h: int) -> bool {
        w == 0 || h == 0 || (x + w <= self.width_spec() && y + h <= self.height_spec())
    }

    /// Fills the box `[x, x + width) x [y, y + height)`. Fails, leaving the
    /// canvas as it was, when part of the box lies outside the canvas.
    pub fn draw_rectangle(&mut self, x: usize, y: usize, width: usize, height: usize, color: Rgba) -> (res:
        Result<(), CanvasError>)
        requires
            old(self).wf(),
        ensures
            final(self).wf(),
            final(self).width_spec() == old(self).width_spec(),
            final(self).height_spec() == old(self).height_spec(),
            res is Ok <==> old(self).holds_rect(x as int, y as int, width as int, height as int),
            res is Err ==> res == Err::<(), CanvasError>(CanvasError::OutOfBounds),
            forall|i: int, j: int| #[trigger]
                final(self).contains(i, j) ==> final(self).pixel(i, j) == if res is Ok && in_rect(
                    i,
                    j,
                    x as int,
                    y as int,
                    width as int,
                    height as int,
                ) {
                    color
                } else {
                    old(self).pixel(i, j)
                },
    {
        if width == 0 || height == 0 {
            return Ok(());
        }
        if x > self.width || width > self.width - x || y > self.height || height > self.height - y {
            return Err(CanvasError::OutOfBounds);
        }
        let ghost before = *self;
        let mut row: usize = y;
        while row < y + height
            invariant
                self.wf(),
                self.width_spec() == before.width_spec(),
                self.height_spec() == before.height_spec(),
                y <= row <= y + height,
                x + width <= self.width_spec(),
                y + height <= self.height_spec(),
                forall|i: int, j: int| #[trigger]
                    self.contains(i, j) ==> self.pixel(i, j) == if in_rect(
                        i,
                        j,
                        x as int,
                        y as int,
                        width as int,
                        row - y,
                    ) {
                        color
                    } else {
                        before.pixel(i, j)
                    },
            decreases y + height - row,
        {
            let mut col: usize = x;
            while col < x + width
                invariant
                    self.wf(),
                    self.width_spec() == before.width_spec(),
                    self.height_spec() == before.height_spec(),
                    y <= row < y + height,
                    x <= col <= x + width,
                    x + width <= self.width_spec(),
                    y + height <= self.height_spec(),
                    forall|i: int, j: int| #[trigger]
                        self.contains(i, j) ==> self.pixel(i, j) == if in_rect(
                            i,
                            j,
                            x as int,
                            y as int,
                            width as int,
                            row - y,
                        ) || (j == row && x <= i < col) {
                            color
                        } else {
                            before.pixel(i, j)
                        },
                decreases x + width - col,
            {
                let ghost prev = *self;
                let r = self.fill_pixel(col, row, &color);
                assert(r is Ok);
                assert forall|i: int, j: int| #[trigger] self.contains(i, j) implies self.pixel(i, j)
                    == if in_rect(i, j, x as int, y as int, width as int, row - y) || (j == row && x
                    <= i < col + 1) {
                    color
                } else {
                    before.pixel(i, j)
                } by {
                    assert(prev.contains(i, j));
                }
                col = col + 1;
            }
            row = row + 1;
        }
        Ok(())
    }

    /// Whether some pixel of the box `[x, x + width) x [y, y + height)` has a
    /// non-zero red, green or blue channel. Fails when part of the box lies
    /// outside the canvas.
    pub fn rectangle_has_any_color(&self, x: usize, y: usize, width: usize, height: usize) -> (res:
        Result<bool, CanvasError>)
        requires
            self.wf(),
        ensures
            match res {
                Ok(b) => self.holds_rect(x as int, y as int, width as int, height as int) && b == (
                exists|i: int, j: int|
                    in_rect(i, j, x as int, y as int, width as int, height as int) && !is_blank(
                        #[trigger] self.pixel(i, j),
                    )),
                Err(e) => !self.holds_rect(x as int, y as int, width as int, height as int) && e
                    == CanvasError::OutOfBounds,
            },
    {
        if width == 0 || height == 0 {
            return Ok(false);
        }
        if x > self.width || width > self.width - x || y > self.height || height > self.height - y {
            return Err(CanvasError::OutOfBounds);
        }
        let mut row: usize = y;
        while row < y + height
            invariant
                self.wf(),
                y <= row <= y + height,
                x + width <= self.width_spec(),
                y + height <= self.height_spec(),
                forall|i: int, j: int|
                    in_rect(i, j, x as int, y as int, width as int, row - y) ==> is_blank(
                        #[trigger] self.pixel(i, j),
                    ),
            decreases y + height - row,
        {
            let mut col: usize = x;
            while col < x + width
                invariant
                    self.wf(),
                    y <= row < y + height,
                    x <= col <= x + width,
                    x + width <= self.width_spec(),
                    y + height <= self.height_spec(),
                    forall|i: int, j: int|
                        in_rect(i, j, x as int, y as int, width as int, row - y) || (j == row && x
                            <= i < col) ==> is_blank(#[trigger] self.pixel(i, j)),
                decreases x + width - col,
            {
                let c = self.at(&Point { x: col, y: row });
                match c {
                    Ok(c) => {
                        if c.r != 0 || c.g != 0 || c.b != 0 {
                            return Ok(true);
                        }
                    },
                    Err(_) => {},
                }
                col = col + 1;
            }
            row = row + 1;
        }
        Ok(false)
    }

    /// Paints, in `color`, every pixel of the canvas that lies in the circle's
    /// bounding box and strictly inside the circle of radius `radius` pixels
    /// about world point (`x`, `y`). Pixels off the canvas are skipped.
    pub fn draw_circle(&mut self, x: i64, y: i64, radius: u16, color: &Rgba)
        requires
            old(self).wf(),
            in_world(x as int),
            in_world(y as int),
        ensures
            final(self).wf(),
            circle_drawn(*old(self), *final(self), x as int, y as int, radius as int, *color),
    {
        let ghost before = *self;
        let reach: i64 = radius as i64 * SUBPIXELS;
        let half: i64 = SUBPIXELS / 2;
        let col_lo: usize = pixel_index_exec(x - reach + half);
        let col_hi: usize = pixel_index_exec(x + reach + half);
        let row_lo: usize = pixel_index_exec(y - reach + half);
        let row_hi: usize = pixel_index_exec(y + reach + half);
        let col_end: usize = if col_hi < self.width { col_hi } else { self.width };
        let row_end: usize = if row_hi < self.height { row_hi } else { self.height };
        let cx: i64 = trunc_pixel_exec(x);
        let cy: i64 = trunc_pixel_exec(y);
        proof {
            assert(0 <= radius * radius <= 0xffff * 0xffff) by (nonlinear_arith)
                requires
                    radius <= 0xffff,
            ;
        }
        let rr: i64 = radius as i64 * radius as i64;
        assert(x - reach + half == x - radius * SUBPIXELS + SUBPIXELS / 2);
        let mut row: usize = row_lo;
        while row < row_end
            invariant
                self.wf(),
                self.width_spec() == before.width_spec(),
                self.height_spec() == before.height_spec(),
                row_lo <= row,
                row_end <= self.height_spec(),
                row_end <= row_hi,
                col_end <= self.width_spec(),
                col_end <= col_hi,
                col_end == col_hi || col_end == self.width_spec(),
                row_end == row_hi || row_end == self.height_spec(),
                col_lo == round_pixel(x - radius * SUBPIXELS),
                col_hi == round_pixel(x + radius * SUBPIXELS),
                row_lo == round_pixel(y - radius * SUBPIXELS),
                row_hi == round_pixel(y + radius * SUBPIXELS),
                cx == trunc_pixel(x as int),
                cy == trunc_pixel(y as int),
                -0x40_0000 <= cx <= 0x40_0000,
                -0x40_0000 <= cy <= 0x40_0000,
                rr == radius * radius,
                forall|i: int, j: int| #[trigger]
                    self.contains(i, j) ==> self.pixel(i, j) == if circle_covers(
                        i,
                        j,
                        x as int,
                        y as int,
                        radius as int,
                    ) && j < row {
                        *color
                    } else {
                        before.pixel(i, j)
                    },
            decreases row_end - row,
        {
            let mut col: usize = col_lo;
            while col < col_end
                invariant
                    self.wf(),
                    self.width_spec() == before.width_spec(),
                    self.height_spec() == before.height_spec(),
                    row_lo <= row < row_end,
                    col_lo <= col,
                    row_end <= self.height_spec(),
                    row_end <= row_hi,
                    col_end <= self.width_spec(),
                    col_end <= col_hi,
                    col_end == col_hi || col_end == self.width_spec(),
                    row_end == row_hi || row_end == self.height_spec(),
                col_end == col_hi || col_end == self.width_spec(),
                row_end == row_hi || row_end == self.height_spec(),
                    col_lo == round_pixel(x - radius * SUBPIXELS),
                    col_hi == round_pixel(x + radius * SUBPIXELS),
                    row_lo == round_pixel(y - radius * SUBPIXELS),
                    row_hi == round_pixel(y + radius * SUBPIXELS),
                    cx == trunc_pixel(x as int),
                    cy == trunc_pixel(y as int),
                    -0x40_0000 <= cx <= 0x40_0000,
                    -0x40_0000 <= cy <= 0x40_0000,
                    rr == radius * radius,
                    forall|i: int, j: int| #[trigger]
                        self.contains(i, j) ==> self.pixel(i, j) == if circle_covers(
                            i,
                            j,
                            x as int,
                            y as int,
                            radius as int,
                        ) && (j < row || (j == row && i < col)) {
                            *color
                        } else {
                            before.pixel(i, j)
                        },
                decreases col_end - col,
            {
                let dx: i64 = col as i64 - cx;
                let dy: i64 = row as i64 - cy;
                assert(0 <= dx * dx <= 0x100_0000_0000_0000) by (nonlinear_arith)
                    requires
                        -0x80_0000 <= dx <= 0x80_0000,
                ;
                assert(0 <= dy * dy <= 0x100_0000_0000_0000) by (nonlinear_arith)
                    requires
                        -0x80_0000 <= dy <= 0x80_0000,
                ;
                if dx * dx + dy * dy < rr {
                    let ghost prev = *self;
                    let r = self.fill_pixel(col, row, color);
                    assert(r is Ok);
                    assert forall|i: int, j: int| #[trigger] self.contains(i, j) implies self.pixel(
                        i,
                        j,
                    ) == if circle_covers(i, j, x as int, y as int, radius as int) && (j < row || (j
                        == row && i < col + 1)) {
                        *color
                    } else {
                        before.pixel(i, j)
                    } by {
                        assert(prev.contains(i, j));
                    }
                }
                col = col + 1;
            }
            row = row + 1;
        }
    }

    /// The pixels as bytes, four per pixel in the order red, green, blue,
    /// alpha, row after row.
    pub fn rgba8(&self) -> (bytes: Vec<u8>)
        requires
            self.wf(),
        ensures
            bytes@.len() == 4 * self.width_spec() * self.height_spec(),
            forall|i: int, j: int, k: int|
                #![trigger self.pixel(i, j), bytes@[4 * (j * self.width_spec() + i) + k]]
                self.contains(i, j) && 0 <= k < 4 ==> bytes@[4 * (j * self.width_spec() + i) + k]
                    == channel(self.pixel(i, j), k),
    {
        let n: usize = self.pixels.len();
        let mut bytes: Vec<u8> = Vec::new();
        let mut m: usize = 0;
        while m < n
            invariant
                self.wf(),
                n == self.pixels@.len(),
                m <= n,
                bytes@.len() == 4 * m,
                forall|p: int, k: int|
                    0 <= p < m && 0 <= k < 4 ==> #[trigger] bytes@[4 * p + k] == channel(
                        self.pixels@[p],
                        k,
                    ),
            decreases n - m,
        {
            let c = self.pixels[m];
            bytes.push(c.r);
            bytes.push(c.g);
            bytes.push(c.b);
            bytes.push(c.a);
            m = m + 1;
        }
        proof {
            assert(4 * (self.width_spec() * self.height_spec()) == 4 * self.width_spec()
                * self.height_spec()) by (nonlinear_arith);
            assert forall|i: int, j: int, k: int|
                self.contains(i, j) && 0 <= k < 4 implies #[trigger] bytes@[4 * (j
                * self.width_spec() + i) + k] == channel(#[trigger] self.pixel(i, j), k) by {
                lemma_index_in_range(self.width as int, self.height as int, i, j);
            }
        }
        bytes
    }
}

/// Channel `k` of a colour: red, green, blue, then alpha.
pub open spec fn channel(c: Rgba, k: int) -> u8 {
    if k == 0 {
        c.r
    } else if k == 1 {
        c.g
    } else if k == 2 {
        c.b
    } else {
        c.a
    }
}

/// Every pixel of `after` holds what `before` holds there, but pixel (`x`,
/// `y`), which holds `color`: what a successful `fill_pixel` leaves.
pub open spec fn pixel_written(before: GameCanvas, after: GameCanvas, x: int, y: int, color: Rgba) -> bool {
    &&& after.width_spec() == before.width_spec()
    &&& after.height_spec() == before.height_spec()
    &&& forall|i: int, j: int| #[trigger]
        after.contains(i, j) ==> after.pixel(i, j) == if i == x && j == y {
            color
        } else {
            before.pixel(i, j)
        }
}

/// What `draw_circle(cx, cy, r, color)` leaves: the covered pixels hold
/// `color`, all others what they held before.
pub open spec fn circle_drawn(
    before: GameCanvas,
    after: GameCanvas,
    cx: int,
    cy: int,
    r: int,
    color: Rgba,
) -> bool {
    &&& after.width_spec() == before.width_spec()
    &&& after.height_spec() == before.height_spec()
    &&& forall|i: int, j: int| #[trigger]
        after.contains(i, j) ==> after.pixel(i, j) == if circle_covers(i, j, cx, cy, r) {
            color
        } else {
            before.pixel(i, j)
        }
}

/// Writing a pixel of the canvas and then reading it gives back the colour
/// written, channel for channel, alpha included; every other pixel reads as
/// before.
pub proof fn lemma_fill_then_at(before: GameCanvas, after: GameCanvas, x: int, y: int, color: Rgba)
    requires
        before.contains(x, y),
        pixel_written(before, after, x, y, color),
    ensures
        after.contains(x, y),
        after.pixel(x, y) == color,
        forall|i: int, j: int|
            #![trigger after.pixel(i, j)]
            after.contains(i, j) && (i != x || j != y) ==> after.pixel(i, j) == before.pixel(i, j),
{
    assert(after.contains(x, y));
}

proof fn lemma_square_bound(d: int, r: int)
    requires
        0 <= r,
        d * d < r * r,
    ensures
        -r < d < r,
{
    if d >= r {
        assert(d * d >= r * r) by (nonlinear_arith)
            requires
                d >= r,
                r >= 0,
        ;
    }
    if d <= -r {
        assert(d * d >= r * r) by (nonlinear_arith)
            requires
                d <= -r,
                r >= 0,
        ;
    }
}

/// Along one axis, a pixel within `r` pixels of the pixel holding `c` lies
/// in the span that `draw_circle` scans, for a centre at or right of zero.
proof fn lemma_span_holds(i: int, c: int, r: int)
    requires
        0 <= c,
        0 <= r,
        0 <= i,
        -r < i - trunc_pixel(c) < r,
    ensures
        round_pixel(c - r * SUBPIXELS) <= i < round_pixel(c + r * SUBPIXELS),
{
    let s = SUBPIXELS as int;
    let t = c / s;
    let a = c + s / 2;
    lemma_fundamental_div_mod(c, s);
    lemma_mod_bound(c, s);
    lemma_fundamental_div_mod(a, s);
    lemma_mod_bound(a, s);
    assert(t <= a / s <= t + 1);
    let lo = a - r * s;
    let hi = a + r * s;
    lemma_fundamental_div_mod(hi, s);
    lemma_mod_bound(hi, s);
    assert(hi / s == a / s + r);
    if lo >= 0 {
        lemma_fundamental_div_mod(lo, s);
        lemma_mod_bound(lo, s);
        assert(lo / s == a / s - r);
    }
}

/// A pixel of the canvas strictly inside the circle holds `color` after
/// `draw_circle`, for a centre with non-negative coordinates; a pixel outside
/// the circle's bounding box is left as it was.
pub proof fn lemma_circle_fills_disc(
    before: GameCanvas,
    after: GameCanvas,
    cx: int,
    cy: int,
    r: int,
    color: Rgba,
)
    requires
        0 <= cx,
        0 <= cy,
        0 <= r,
        circle_drawn(before, after, cx, cy, r, color),
    ensures
        forall|i: int, j: int|
            #![trigger after.pixel(i, j)]
            after.contains(i, j) && in_disc(i, j, cx, cy, r) ==> after.pixel(i, j) == color,
        forall|i: int, j: int|
            #![trigger after.pixel(i, j)]
            after.contains(i, j) && !in_circle_box(i, j, cx, cy, r) ==> after.pixel(i, j)
                == before.pixel(i, j),
{
    assert forall|i: int, j: int|
        #![trigger after.pixel(i, j)]
        after.contains(i, j) && in_disc(i, j, cx, cy, r) implies after.pixel(i, j) == color by {
        let dx = i - trunc_pixel(cx);
        let dy = j - trunc_pixel(cy);
        assert(dx * dx < r * r && dy * dy < r * r) by (nonlinear_arith)
            requires
                dx * dx + dy * dy < r * r,
        ;
        lemma_square_bound(dx, r);
        lemma_square_bound(dy, r);
        lemma_span_holds(i, cx, r);
        lemma_span_holds(j, cy, r);
    }
    assert forall|i: int, j: int|
        #![trigger after.pixel(i, j)]
        after.contains(i, j) && !in_circle_box(i, j, cx, cy, r) implies after.pixel(i, j)
        == before.pixel(i, j) by {
        assert(after.contains(i, j));
    }
}

} // verus!
