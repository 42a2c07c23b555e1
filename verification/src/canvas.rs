//! Packed monochrome framebuffer: a `width x height` grid of one-byte cells
//! holding 0 or 1, with shape primitives and an MSB-first bit-packing
//! serializer. Out-of-bounds writes are silent no-ops, so shape code stays
//! branch-free at the edges.

use vstd::prelude::*;

verus! {

/// Largest coordinate magnitude the drawing primitives accept; keeps all
/// intermediate pixel arithmetic far away from `i32` overflow.
pub const COORD_LIMIT: i32 = 1000000;

pub struct Canvas {
    width: usize,
    height: usize,
    pixels: Vec<u8>,
}

impl Canvas {
    pub closed spec fn w(&self) -> int {
        self.width as int
    }

    pub closed spec fn h(&self) -> int {
        self.height as int
    }

    /// The pixel grid, row-major, one byte per pixel.
    pub closed spec fn grid(&self) -> Seq<u8> {
        self.pixels@
    }

    pub open spec fn wf(&self) -> bool {
        &&& self.grid().len() == self.w() * self.h()
        &&& forall|i: int| 0 <= i < self.grid().len() ==> self.grid()[i] <= 1
    }

    pub open spec fn in_bounds(&self, x: int, y: int) -> bool {
        0 <= x < self.w() && 0 <= y < self.h()
    }

    /// Row-major cell index of an in-bounds coordinate.
    pub open spec fn idx(&self, x: int, y: int) -> int {
        y * self.w() + x
    }

    pub open spec fn pix(&self, x: int, y: int) -> u8 {
        self.grid()[self.idx(x, y)]
    }

    pub open spec fn same_dims(&self, other: &Canvas) -> bool {
        self.w() == other.w() && self.h() == other.h()
    }

    pub fn width(&self) -> (r: usize)
        ensures
            r == self.w(),
    {
        self.width
    }

    pub fn height(&self) -> (r: usize)
        ensures
            r == self.h(),
    {
        self.height
    }

    pub fn new(width: usize, height: usize) -> (r: Canvas)
        requires
            width * height <= usize::MAX,
        ensures
            r.wf(),
            r.w() == width,
            r.h() == height,
            forall|i: int| 0 <= i < r.grid().len() ==> r.grid()[i] == 0u8,
    {
        Canvas { width, height, pixels: vec![0u8; width * height] }
    }

    pub fn clear(&mut self, on: bool)
        requires
            old(self).wf(),
        ensures
            final(self).wf(),
            final(self).same_dims(old(self)),
            forall|i: int|
                0 <= i < final(self).grid().len() ==> final(self).grid()[i] == (
                if on {
                    1u8
                } else {
                    0u8
                }),
    {
        let v: u8 = if on {
            1
        } else {
            0
        };
        let n = self.pixels.len();
        let mut i: usize = 0;
        while i < n
            invariant
                n == self.pixels@.len(),
                i <= n,
                self.width == old(self).width,
                self.height == old(self).height,
                forall|j: int| 0 <= j < i ==> self.pixels@[j] == v,
                v <= 1,
            decreases n - i,
        {
            self.pixels[i] = v;
            i = i + 1;
        }
    }

    /// Sets the pixel at `(x, y)` to `on`; a coordinate off the canvas is
    /// silently dropped.
    pub fn set(&mut self, x: i32, y: i32, on: bool)
        requires
            old(self).wf(),
        ensures
            final(self).wf(),
            final(self).same_dims(old(self)),
            old(self).in_bounds(x as int, y as int) ==> final(self).grid() == old(
                self,
            ).grid().update(old(self).idx(x as int, y as int), if on { 1u8 } else { 0u8 }),
            !old(self).in_bounds(x as int, y as int) ==> final(self).grid() == old(self).grid(),
            final(self).grid() == plot(old(self).grid(), old(self).w(), old(self).h(), x as int, y as int, if on { 1u8 } else { 0u8 }, false),
    {
        if x < 0 || y < 0 {
            return ;
        }
        let ux = x as usize;
        let uy = y as usize;
        if ux >= self.width || uy >= self.height {
            return ;
        }
        let n = self.pixels.len();
        proof {
            lemma_idx_in_range(self.w(), self.h(), ux as int, uy as int);
        }
        let i = uy * self.width + ux;
        self.pixels[i] = if on {
            1
        } else {
            0
        };
    }

    /// Flips the pixel at `(x, y)` between 0 and 1; a coordinate off the
    /// canvas is silently dropped.
    pub fn invert(&mut self, x: i32, y: i32)
        requires
            old(self).wf(),
        ensures
            final(self).wf(),
            final(self).same_dims(old(self)),
            old(self).in_bounds(x as int, y as int) ==> final(self).grid() == old(
                self,
            ).grid().update(
                old(self).idx(x as int, y as int),
                (1 - old(self).pix(x as int, y as int)) as u8,
            ),
            !old(self).in_bounds(x as int, y as int) ==> final(self).grid() == old(self).grid(),
            final(self).grid() == plot(old(self).grid(), old(self).w(), old(self).h(), x as int, y as int, 0u8, true),
    {
        if x < 0 || y < 0 {
            return ;
        }
        let ux = x as usize;
        let uy = y as usize;
        if ux >= self.width || uy >= self.height {
            return ;
        }
        let n = self.pixels.len();
        proof {
            lemma_idx_in_range(self.w(), self.h(), ux as int, uy as int);
        }
        let i = uy * self.width + ux;
        let p = self.pixels[i];
        assert(p <= 1 ==> p ^ 1 == 1 - p) by (bit_vector);
        self.pixels[i] = p ^ 1;
    }
}

/// Membership of `(a, b)` in the half-open rectangle at `(x, y)` of size
/// `w x h`.
pub open spec fn in_rect(x: int, y: int, w: int, h: int, a: int, b: int) -> bool {
    x <= a < x + w && y <= b < y + h
}

/// The pixels the one-pixel border of the rectangle at `(x, y)` of size
/// `w x h` touches: its top and bottom rows and its left and right columns.
pub open spec fn border_hits(x: int, y: int, w: int, h: int, a: int, b: int) -> bool {
    (x <= a < x + w && (b == y || b == y + h - 1)) || (y <= b < y + h && (a == x || a == x + w
        - 1))
}

impl Canvas {
    /// Fills the rectangle at `(x, y)` of size `w x h` with `on`, clipped to
    /// the canvas.
    pub fn rect_fill(&mut self, x: i32, y: i32, w: i32, h: i32, on: bool)
        requires
            old(self).wf(),
            -COORD_LIMIT <= x <= COORD_LIMIT,
            -COORD_LIMIT <= y <= COORD_LIMIT,
            -COORD_LIMIT <= w <= COORD_LIMIT,
            -COORD_LIMIT <= h <= COORD_LIMIT,
        ensures
            final(self).wf(),
            final(self).same_dims(old(self)),
            forall|a: int, b: int|
                #![trigger final(self).pix(a, b)]
                final(self).in_bounds(a, b) ==> final(self).pix(a, b) == (if in_rect(
                    x as int,
                    y as int,
                    w as int,
                    h as int,
                    a,
                    b,
                ) {
                    if on {
                        1u8
                    } else {
                        0u8
                    }
                } else {
                    old(self).pix(a, b)
                }),
    {
        let v: u8 = if on {
            1
        } else {
            0
        };
        let x_end = x + w;
        let y_end = y + h;
        let mut py = y;
        while py < y_end
            invariant
                old(self).wf(),
                self.wf(),
                self.same_dims(old(self)),
                x_end == x + w,
                y_end == y + h,
                -COORD_LIMIT <= x <= COORD_LIMIT,
                -COORD_LIMIT <= y <= COORD_LIMIT,
                x_end <= 2 * COORD_LIMIT,
                y_end <= 2 * COORD_LIMIT,
                py == y || (y < py <= y_end),
                v == (if on {
                    1u8
                } else {
                    0u8
                }),
                forall|a: int, b: int|
                    #![trigger self.pix(a, b)]
                    self.in_bounds(a, b) ==> self.pix(a, b) == (if x <= a < x_end && y <= b < py {
                        v
                    } else {
                        old(self).pix(a, b)
                    }),
            decreases y_end - py,
        {
            let mut px = x;
            while px < x_end
                invariant
                    old(self).wf(),
                    self.wf(),
                    self.same_dims(old(self)),
                    x_end == x + w,
                    -COORD_LIMIT <= x <= COORD_LIMIT,
                    x_end <= 2 * COORD_LIMIT,
                    -2 * COORD_LIMIT <= py <= 2 * COORD_LIMIT,
                    px == x || (x < px <= x_end),
                    v == (if on {
                        1u8
                    } else {
                        0u8
                    }),
                    forall|a: int, b: int|
                        #![trigger self.pix(a, b)]
                        self.in_bounds(a, b) ==> self.pix(a, b) == (if (x <= a < x_end && y <= b
                            < py) || (x <= a < px && b == py) {
                            v
                        } else {
                            old(self).pix(a, b)
                        }),
                decreases x_end - px,
            {
                let ghost prev = *self;
                self.set(px, py, on);
                proof {
                    lemma_plot_pix(prev, *self, px as int, py as int, v, false);
                }
                px = px + 1;
            }
            py = py + 1;
        }
    }

    /// Inverts every pixel of the rectangle at `(x, y)` of size `w x h`,
    /// clipped to the canvas; each covered pixel is flipped exactly once.
    pub fn rect_fill_invert(&mut self, x: i32, y: i32, w: i32, h: i32)
        requires
            old(self).wf(),
            -COORD_LIMIT <= x <= COORD_LIMIT,
            -COORD_LIMIT <= y <= COORD_LIMIT,
            -COORD_LIMIT <= w <= COORD_LIMIT,
            -COORD_LIMIT <= h <= COORD_LIMIT,
        ensures
            final(self).wf(),
            final(self).same_dims(old(self)),
            forall|a: int, b: int|
                #![trigger final(self).pix(a, b)]
                final(self).in_bounds(a, b) ==> final(self).pix(a, b) as int == (if in_rect(
                    x as int,
                    y as int,
                    w as int,
                    h as int,
                    a,
                    b,
                ) {
                    1 - old(self).pix(a, b)
                } else {
                    old(self).pix(a, b) as int
                }),
    {
        let x_end = x + w;
        let y_end = y + h;
        let mut py = y;
        while py < y_end
            invariant
                old(self).wf(),
                self.wf(),
                self.same_dims(old(self)),
                x_end == x + w,
                y_end == y + h,
                -COORD_LIMIT <= x <= COORD_LIMIT,
                -COORD_LIMIT <= y <= COORD_LIMIT,
                x_end <= 2 * COORD_LIMIT,
                y_end <= 2 * COORD_LIMIT,
                py == y || (y < py <= y_end),
                forall|a: int, b: int|
                    #![trigger self.pix(a, b)]
                    self.in_bounds(a, b) ==> self.pix(a, b) as int == (if x <= a < x_end && y <= b
                        < py {
                        1 - old(self).pix(a, b)
                    } else {
                        old(self).pix(a, b) as int
                    }),
            decreases y_end - py,
        {
            let mut px = x;
            while px < x_end
                invariant
                    old(self).wf(),
                    self.wf(),
                    self.same_dims(old(self)),
                    x_end == x + w,
                    -COORD_LIMIT <= x <= COORD_LIMIT,
                    x_end <= 2 * COORD_LIMIT,
                    -2 * COORD_LIMIT <= py <= 2 * COORD_LIMIT,
                    px == x || (x < px <= x_end),
                    forall|a: int, b: int|
                        #![trigger self.pix(a, b)]
                        self.in_bounds(a, b) ==> self.pix(a, b) as int == (if (x <= a < x_end && y
                            <= b < py) || (x <= a < px && b == py) {
                            1 - old(self).pix(a, b)
                        } else {
                            old(self).pix(a, b) as int
                        }),
                decreases x_end - px,
            {
                let ghost prev = *self;
                self.invert(px, py);
                proof {
                    lemma_plot_pix(prev, *self, px as int, py as int, 0u8, true);
                }
                px = px + 1;
            }
            py = py + 1;
        }
    }

    /// Draws the four one-pixel edges of the rectangle at `(x, y)` of size
    /// `w x h` in `on`, clipped to the canvas.
    pub fn rect_border(&mut self, x: i32, y: i32, w: i32, h: i32, on: bool)
        requires
            old(self).wf(),
            -COORD_LIMIT <= x <= COORD_LIMIT,
            -COORD_LIMIT <= y <= COORD_LIMIT,
            -COORD_LIMIT <= w <= COORD_LIMIT,
            -COORD_LIMIT <= h <= COORD_LIMIT,
        ensures
            final(self).wf(),
            final(self).same_dims(old(self)),
            forall|a: int, b: int|
                #![trigger final(self).pix(a, b)]
                final(self).in_bounds(a, b) ==> final(self).pix(a, b) == (if border_hits(
                    x as int,
                    y as int,
                    w as int,
                    h as int,
                    a,
                    b,
                ) {
                    if on {
                        1u8
                    } else {
                        0u8
                    }
                } else {
                    old(self).pix(a, b)
                }),
    {
        let v: u8 = if on {
            1
        } else {
            0
        };
        let x_end = x + w;
        let y_end = y + h;
        let mut px = x;
        while px < x_end
            invariant
                old(self).wf(),
                self.wf(),
                self.same_dims(old(self)),
                x_end == x + w,
                y_end == y + h,
                -COORD_LIMIT <= x <= COORD_LIMIT,
                -COORD_LIMIT <= y <= COORD_LIMIT,
                -COORD_LIMIT <= h <= COORD_LIMIT,
                x_end <= 2 * COORD_LIMIT,
                y_end <= 2 * COORD_LIMIT,
                px == x || (x < px <= x_end),
                v == (if on {
                    1u8
                } else {
                    0u8
                }),
                forall|a: int, b: int|
                    #![trigger self.pix(a, b)]
                    self.in_bounds(a, b) ==> self.pix(a, b) == (if x <= a < px && (b == y || b == y
                        + h - 1) {
                        v
                    } else {
                        old(self).pix(a, b)
                    }),
            decreases x_end - px,
        {
            let ghost prev0 = *self;
            self.set(px, y, on);
            proof {
                lemma_plot_pix(prev0, *self, px as int, y as int, v, false);
            }
            let ghost prev1 = *self;
            self.set(px, y + h - 1, on);
            proof {
                lemma_plot_pix(prev1, *self, px as int, y as int + h as int - 1, v, false);
            }
            px = px + 1;
        }
        let mut py = y;
        while py < y_end
            invariant
                old(self).wf(),
                self.wf(),
                self.same_dims(old(self)),
                x_end == x + w,
                y_end == y + h,
                -COORD_LIMIT <= x <= COORD_LIMIT,
                -COORD_LIMIT <= y <= COORD_LIMIT,
                -COORD_LIMIT <= w <= COORD_LIMIT,
                -COORD_LIMIT <= h <= COORD_LIMIT,
                x_end <= 2 * COORD_LIMIT,
                y_end <= 2 * COORD_LIMIT,
                py == y || (y < py <= y_end),
                v == (if on {
                    1u8
                } else {
                    0u8
                }),
                forall|a: int, b: int|
                    #![trigger self.pix(a, b)]
                    self.in_bounds(a, b) ==> self.pix(a, b) == (if (x <= a < x_end && (b == y || b
                        == y + h - 1)) || (y <= b < py && (a == x || a == x + w - 1)) {
                        v
                    } else {
                        old(self).pix(a, b)
                    }),
            decreases y_end - py,
        {
            let ghost prev0 = *self;
            self.set(x, py, on);
            proof {
                lemma_plot_pix(prev0, *self, x as int, py as int, v, false);
            }
            let ghost prev1 = *self;
            self.set(x + w - 1, py, on);
            proof {
                lemma_plot_pix(prev1, *self, x as int + w as int - 1, py as int, v, false);
            }
            py = py + 1;
        }
    }
}

/// The effect of one plotted point on the pixel grid, coordinate by
/// coordinate: the plotted cell takes its new value, every other cell keeps
/// its old one, and an out-of-bounds plot leaves the grid whole.
pub proof fn lemma_plot_pix(c0: Canvas, c1: Canvas, x: int, y: int, v: u8, inv: bool)
    requires
        c0.wf(),
        v <= 1,
        c1.w() == c0.w(),
        c1.h() == c0.h(),
        c1.grid() == plot(c0.grid(), c0.w(), c0.h(), x, y, v, inv),
    ensures
        c1.wf(),
        forall|a: int, b: int|
            #![trigger c1.pix(a, b)]
            c0.in_bounds(a, b) && !(a == x && b == y) ==> c1.pix(a, b) == c0.pix(a, b),
        c0.in_bounds(x, y) ==> c1.pix(x, y) == (if inv {
            (1 - c0.pix(x, y)) as u8
        } else {
            v
        }),
        c0.in_bounds(x, y) ==> c0.pix(x, y) <= 1,
        !c0.in_bounds(x, y) ==> c1.grid() == c0.grid(),
{
    if c0.in_bounds(x, y) {
        lemma_idx_in_range(c0.w(), c0.h(), x, y);
        assert forall|a: int, b: int|
            c0.in_bounds(a, b) && !(a == x && b == y) implies #[trigger] c1.pix(a, b) == c0.pix(
            a,
            b,
        ) by {
            lemma_idx_in_range(c0.w(), c0.h(), a, b);
            if c0.idx(a, b) == c0.idx(x, y) {
                lemma_idx_injective(c0.w(), c0.h(), a, b, x, y);
            }
        }
    }
}

/// The effect of one plotted point: in bounds, the cell is overwritten with
/// `v` (or flipped, when `inv` is set); out of bounds, nothing changes.
pub open spec fn plot(g: Seq<u8>, w: int, h: int, x: int, y: int, v: u8, inv: bool) -> Seq<u8> {
    if 0 <= x < w && 0 <= y < h && g.len() == w * h {
        let i = y * w + x;
        if inv {
            g.update(i, (1 - g[i]) as u8)
        } else {
            g.update(i, v)
        }
    } else {
        g
    }
}

/// A row-major index of an in-bounds coordinate lies inside the grid.
pub proof fn lemma_idx_in_range(w: int, h: int, x: int, y: int)
    requires
        0 <= x < w,
        0 <= y < h,
    ensures
        0 <= y * w + x < w * h,
{
    assert(0 <= y * w + x < w * h) by (nonlinear_arith)
        requires
            0 <= x < w,
            0 <= y < h,
    ;
}

/// Row-major indexing is injective over in-bounds coordinates.
pub proof fn lemma_idx_injective(w: int, h: int, x1: int, y1: int, x2: int, y2: int)
    requires
        0 <= x1 < w,
        0 <= y1 < h,
        0 <= x2 < w,
        0 <= y2 < h,
        y1 * w + x1 == y2 * w + x2,
    ensures
        x1 == x2,
        y1 == y2,
{
    assert(x1 == x2 && y1 == y2) by (nonlinear_arith)
        requires
            0 <= x1 < w,
            0 <= y1 < h,
            0 <= x2 < w,
            0 <= y2 < h,
            y1 * w + x1 == y2 * w + x2,
    ;
}

pub open spec fn abs_i(a: int) -> int {
    if a >= 0 {
        a
    } else {
        -a
    }
}

/// One step of the integer line walk: plot the current point, stop when the
/// end point is reached (or the step budget runs out), otherwise advance the
/// error accumulator and step toward the end point, in x when `2*err >= dy`,
/// in y when `2*err <= dx`.
pub open spec fn line_walk(
    g: Seq<u8>,
    w: int,
    h: int,
    x0: int,
    y0: int,
    x1: int,
    y1: int,
    dx: int,
    dy: int,
    err: int,
    sx: int,
    sy: int,
    v: u8,
    inv: bool,
    fuel: nat,
) -> Seq<u8>
    decreases fuel,
{
    let g1 = plot(g, w, h, x0, y0, v, inv);
    if (x0 == x1 && y0 == y1) || fuel == 0 {
        g1
    } else {
        let e2 = 2 * err;
        let nx = if e2 >= dy {
            x0 + sx
        } else {
            x0
        };
        let ny = if e2 <= dx {
            y0 + sy
        } else {
            y0
        };
        let nerr = err + (if e2 >= dy {
            dy
        } else {
            0
        }) + (if e2 <= dx {
            dx
        } else {
            0
        });
        line_walk(g1, w, h, nx, ny, x1, y1, dx, dy, nerr, sx, sy, v, inv, (fuel - 1) as nat)
    }
}

/// The grid that results from drawing the line from `(x0, y0)` to `(x1, y1)`
/// on `g`: the line walk started with `dx = |x1-x0|`, `dy = -|y1-y0|`,
/// `err = dx+dy` and a step budget of `dx - dy`, which the walk never
/// exhausts before reaching the end point.
pub open spec fn line_spec(
    g: Seq<u8>,
    w: int,
    h: int,
    x0: int,
    y0: int,
    x1: int,
    y1: int,
    v: u8,
    inv: bool,
) -> Seq<u8> {
    let dx = abs_i(x1 - x0);
    let dy = -abs_i(y1 - y0);
    let sx: int = if x0 < x1 {
        1
    } else {
        -1
    };
    let sy: int = if y0 < y1 {
        1
    } else {
        -1
    };
    line_walk(g, w, h, x0, y0, x1, y1, dx, dy, dx + dy, sx, sy, v, inv, (dx - dy) as nat)
}

impl Canvas {
    /// Integer Bresenham walk shared by `line` and `line_invert`: plots with
    /// `set(.., on)` or with `invert`, depending on `inv`.
    fn line_core(&mut self, x0: i32, y0: i32, x1: i32, y1: i32, on: bool, inv: bool)
        requires
            old(self).wf(),
            -COORD_LIMIT <= x0 <= COORD_LIMIT,
            -COORD_LIMIT <= y0 <= COORD_LIMIT,
            -COORD_LIMIT <= x1 <= COORD_LIMIT,
            -COORD_LIMIT <= y1 <= COORD_LIMIT,
        ensures
            final(self).wf(),
            final(self).same_dims(old(self)),
            final(self).grid() == line_spec(
                old(self).grid(),
                old(self).w(),
                old(self).h(),
                x0 as int,
                y0 as int,
                x1 as int,
                y1 as int,
                if on {
                    1u8
                } else {
                    0u8
                },
                inv,
            ),
    {
        let ghost target = line_spec(
            self.grid(),
            self.w(),
            self.h(),
            x0 as int,
            y0 as int,
            x1 as int,
            y1 as int,
            if on {
                1u8
            } else {
                0u8
            },
            inv,
        );
        let dx: i32 = if x1 >= x0 {
            x1 - x0
        } else {
            x0 - x1
        };
        let sx: i32 = if x0 < x1 {
            1
        } else {
            -1
        };
        let dy: i32 = if y1 >= y0 {
            -(y1 - y0)
        } else {
            -(y0 - y1)
        };
        let sy: i32 = if y0 < y1 {
            1
        } else {
            -1
        };
        let mut err: i64 = dx as i64 + dy as i64;
        let mut fuel: i32 = dx - dy;
        let mut cx = x0;
        let mut cy = y0;
        let v: u8 = if on {
            1
        } else {
            0
        };
        loop
            invariant_except_break
                line_walk(
                    self.grid(),
                    self.w(),
                    self.h(),
                    cx as int,
                    cy as int,
                    x1 as int,
                    y1 as int,
                    dx as int,
                    dy as int,
                    err as int,
                    sx as int,
                    sy as int,
                    v,
                    inv,
                    fuel as nat,
                ) == target,
            invariant
                self.wf(),
                self.same_dims(old(self)),
                dx == abs_i(x1 as int - x0 as int),
                dy == -abs_i(y1 as int - y0 as int),
                sx == (if x0 < x1 {
                    1int
                } else {
                    -1int
                }),
                sy == (if y0 < y1 {
                    1int
                } else {
                    -1int
                }),
                v == (if on {
                    1u8
                } else {
                    0u8
                }),
                0 <= fuel <= dx - dy,
                -COORD_LIMIT <= x0 <= COORD_LIMIT,
                -COORD_LIMIT <= y0 <= COORD_LIMIT,
                -COORD_LIMIT <= x1 <= COORD_LIMIT,
                -COORD_LIMIT <= y1 <= COORD_LIMIT,
                abs_i(cx as int - x0 as int) <= dx - dy - fuel,
                abs_i(cy as int - y0 as int) <= dx - dy - fuel,
                2 * (dy as int - dx as int) <= err <= 2 * (dx as int - dy as int),
            ensures
                self.wf(),
                self.same_dims(old(self)),
                self.grid() == target,
            decreases fuel,
        {
            let ghost prev = *self;
            if inv {
                self.invert(cx, cy);
            } else {
                self.set(cx, cy, on);
            }
            proof {
                assert(self.grid() == plot(
                    prev.grid(),
                    prev.w(),
                    prev.h(),
                    cx as int,
                    cy as int,
                    v,
                    inv,
                ));
            }
            if cx == x1 && cy == y1 {
                break ;
            }
            if fuel == 0 {
                break ;
            }
            fuel = fuel - 1;
            let e2: i64 = 2 * err;
            if e2 >= dy as i64 {
                err = err + dy as i64;
                cx = cx + sx;
            }
            if e2 <= dx as i64 {
                err = err + dx as i64;
                cy = cy + sy;
            }
        }
    }

    /// Draws the line from `(x0, y0)` to `(x1, y1)` in `on`, both endpoints
    /// included, clipped to the canvas.
    pub fn line(&mut self, x0: i32, y0: i32, x1: i32, y1: i32, on: bool)
        requires
            old(self).wf(),
            -COORD_LIMIT <= x0 <= COORD_LIMIT,
            -COORD_LIMIT <= y0 <= COORD_LIMIT,
            -COORD_LIMIT <= x1 <= COORD_LIMIT,
            -COORD_LIMIT <= y1 <= COORD_LIMIT,
        ensures
            final(self).wf(),
            final(self).same_dims(old(self)),
            final(self).grid() == line_spec(
                old(self).grid(),
                old(self).w(),
                old(self).h(),
                x0 as int,
                y0 as int,
                x1 as int,
                y1 as int,
                if on {
                    1u8
                } else {
                    0u8
                },
                false,
            ),
    {
        self.line_core(x0, y0, x1, y1, on, false)
    }

    /// Draws the line from `(x0, y0)` to `(x1, y1)` by inverting the pixels
    /// it passes, both endpoints included, clipped to the canvas.
    pub fn line_invert(&mut self, x0: i32, y0: i32, x1: i32, y1: i32)
        requires
            old(self).wf(),
            -COORD_LIMIT <= x0 <= COORD_LIMIT,
            -COORD_LIMIT <= y0 <= COORD_LIMIT,
            -COORD_LIMIT <= x1 <= COORD_LIMIT,
            -COORD_LIMIT <= y1 <= COORD_LIMIT,
        ensures
            final(self).wf(),
            final(self).same_dims(old(self)),
            final(self).grid() == line_spec(
                old(self).grid(),
                old(self).w(),
                old(self).h(),
                x0 as int,
                y0 as int,
                x1 as int,
                y1 as int,
                0u8,
                true,
            ),
    {
        self.line_core(x0, y0, x1, y1, false, true)
    }
}

/// Pack round trip, coordinate form: in a packed frame that satisfies the
/// serializer's contract, bit `7 - (k % 8)` of byte `k / 8`, for
/// `k = y*width + x`, decodes to exactly the pixel at `(x, y)`.
pub proof fn lemma_pack_decodes_pixel(c: Canvas, out: Seq<u8>, x: int, y: int)
    requires
        c.wf(),
        c.in_bounds(x, y),
        forall|k: int|
            0 <= k < c.w() * c.h() ==> (bit_of(#[trigger] out[k / 8], 7 - (k % 8)) <==> c.grid()[k]
                == 1),
    ensures
        bit_of(out[c.idx(x, y) / 8], 7 - (c.idx(x, y) % 8)) <==> c.pix(x, y) == 1,
{
    lemma_idx_in_range(c.w(), c.h(), x, y);
}

/// Inverting the same in-bounds pixel twice restores the original grid: the
/// grids before the pair of flips and after them are equal.
pub proof fn lemma_invert_twice_restores(c0: Canvas, c1: Canvas, c2: Canvas, x: int, y: int)
    requires
        c0.wf(),
        c0.same_dims(&c1),
        c1.same_dims(&c2),
        c0.in_bounds(x, y),
        c1.grid() == c0.grid().update(c0.idx(x, y), (1 - c0.pix(x, y)) as u8),
        c2.grid() == c1.grid().update(c1.idx(x, y), (1 - c1.pix(x, y)) as u8),
    ensures
        c2.grid() == c0.grid(),
{
    lemma_idx_in_range(c0.w(), c0.h(), x, y);
    assert(c2.grid() =~= c0.grid());
}


/// The built-in 4-wide x 5-tall bitmap font, one glyph packed into a `u32`:
/// four bits per row, row 0 in the low nibble, bit 0 of a row its leftmost
/// column. Letters are case-folded; unmapped characters have no glyph.
pub open spec fn spec_glyph(c: char) -> Option<u32> {
    match c {
        '0' => Some(0x69996),
        '1' => Some(0x72232),
        '2' => Some(0xf2486),
        '3' => Some(0x68686),
        '4' => Some(0x88f99),
        '5' => Some(0x7871f),
        '6' => Some(0x69716),
        '7' => Some(0x2248f),
        '8' => Some(0x69696),
        '9' => Some(0x68e96),
        'A' | 'a' => Some(0x99f96),
        'B' | 'b' => Some(0x79797),
        'C' | 'c' => Some(0x61116),
        'D' | 'd' => Some(0x79997),
        'E' | 'e' => Some(0xf171f),
        'F' | 'f' => Some(0x1171f),
        'G' | 'g' => Some(0x69d16),
        'H' | 'h' => Some(0x99f99),
        'I' | 'i' => Some(0x72227),
        'J' | 'j' => Some(0x6988c),
        'K' | 'k' => Some(0x95359),
        'L' | 'l' => Some(0xf1111),
        'M' | 'm' => Some(0x995f9),
        'N' | 'n' => Some(0x99db9),
        'O' | 'o' => Some(0x69996),
        'P' | 'p' => Some(0x11797),
        'Q' | 'q' => Some(0xe5996),
        'R' | 'r' => Some(0x95797),
        'S' | 's' => Some(0x68616),
        'T' | 't' => Some(0x2222f),
        'U' | 'u' => Some(0x69999),
        'V' | 'v' => Some(0x66999),
        'W' | 'w' => Some(0x9f599),
        'X' | 'x' => Some(0x99699),
        'Y' | 'y' => Some(0x22699),
        'Z' | 'z' => Some(0xf248f),
        '.' => Some(0x20000),
        '/' => Some(0x12648),
        ':' => Some(0x02020),
        '-' => Some(0x00f00),
        '%' => Some(0x92649),
        ' ' => Some(0x00000),
        _ => None,
    }
}

/// Looks a character up in the built-in 4x5 font; letters are case-folded,
/// unmapped characters yield `None`.
pub fn tiny_glyph(c: char) -> (r: Option<u32>)
    ensures
        r == spec_glyph(c),
{
    match c {
        '0' => Some(0x69996),
        '1' => Some(0x72232),
        '2' => Some(0xf2486),
        '3' => Some(0x68686),
        '4' => Some(0x88f99),
        '5' => Some(0x7871f),
        '6' => Some(0x69716),
        '7' => Some(0x2248f),
        '8' => Some(0x69696),
        '9' => Some(0x68e96),
        'A' | 'a' => Some(0x99f96),
        'B' | 'b' => Some(0x79797),
        'C' | 'c' => Some(0x61116),
        'D' | 'd' => Some(0x79997),
        'E' | 'e' => Some(0xf171f),
        'F' | 'f' => Some(0x1171f),
        'G' | 'g' => Some(0x69d16),
        'H' | 'h' => Some(0x99f99),
        'I' | 'i' => Some(0x72227),
        'J' | 'j' => Some(0x6988c),
        'K' | 'k' => Some(0x95359),
        'L' | 'l' => Some(0xf1111),
        'M' | 'm' => Some(0x995f9),
        'N' | 'n' => Some(0x99db9),
        'O' | 'o' => Some(0x69996),
        'P' | 'p' => Some(0x11797),
        'Q' | 'q' => Some(0xe5996),
        'R' | 'r' => Some(0x95797),
        'S' | 's' => Some(0x68616),
        'T' | 't' => Some(0x2222f),
        'U' | 'u' => Some(0x69999),
        'V' | 'v' => Some(0x66999),
        'W' | 'w' => Some(0x9f599),
        'X' | 'x' => Some(0x99699),
        'Y' | 'y' => Some(0x22699),
        'Z' | 'z' => Some(0xf248f),
        '.' => Some(0x20000),
        '/' => Some(0x12648),
        ':' => Some(0x02020),
        '-' => Some(0x00f00),
        '%' => Some(0x92649),
        ' ' => Some(0x00000),
        _ => None,
    }
}

/// Whether the packed glyph `g` has its pixel at `(col, row)` set.
pub open spec fn glyph_bit(g: u32, row: int, col: int) -> bool {
    (g >> ((4 * row + col) as u32)) & 1 == 1
}

/// Scale in effect for text drawing: scales below one draw at one.
pub open spec fn eff_scale(scale: int) -> int {
    if scale < 1 {
        1
    } else {
        scale
    }
}

/// Whether the blit of packed glyph `g` at `(x, y)` with integer scale `s`
/// covers the pixel `(a, b)`: every set font bit expands to an `s x s` block.
pub open spec fn glyph_hits(g: u32, x: int, y: int, s: int, a: int, b: int) -> bool {
    x <= a < x + 4 * s && y <= b < y + 5 * s && glyph_bit(g, (b - y) / s, (a - x) / s)
}

/// Whether drawing character `c` at `(x, y)` with scale `s` covers `(a, b)`;
/// an unmapped character covers nothing.
pub open spec fn char_hits(c: char, x: int, y: int, s: int, a: int, b: int) -> bool {
    &&& spec_glyph(c) is Some
    &&& glyph_hits(spec_glyph(c).unwrap(), x, y, s, a, b)
}

/// Whether drawing the text `t` at `(x, y)` with scale `s` covers `(a, b)`:
/// each character advances the cursor by `5 * s` pixels.
pub open spec fn text_hits(t: Seq<char>, x: int, y: int, s: int, a: int, b: int) -> bool
    decreases t.len(),
{
    if t.len() == 0 {
        false
    } else {
        char_hits(t[0], x, y, s, a, b) || text_hits(t.drop_first(), x + 5 * s, y, s, a, b)
    }
}

/// A text hit lies within the text's horizontal extent, and stays one scale
/// unit clear of the next cursor position: glyphs are 4 columns wide but
/// advance by 5, so consecutive characters never overlap.
pub proof fn lemma_text_hits_extent(t: Seq<char>, x: int, y: int, s: int, a: int, b: int)
    requires
        s >= 1,
        text_hits(t, x, y, s, a, b),
    ensures
        x <= a < x + 5 * s * t.len() - s,
    decreases t.len(),
{
    if t.len() > 0 {
        if char_hits(t[0], x, y, s, a, b) {
            assert(4 * s <= 5 * s * t.len() - s) by (nonlinear_arith)
                requires
                    s >= 1,
                    t.len() >= 1,
            ;
        } else {
            lemma_text_hits_extent(t.drop_first(), x + 5 * s, y, s, a, b);
            assert(5 * s + 5 * s * (t.len() - 1) == 5 * s * t.len()) by (nonlinear_arith);
        }
    }
}

/// Appending one character to a text adds exactly the hits of that character
/// drawn at the cursor position the existing text ends at.
pub proof fn lemma_text_hits_push(t: Seq<char>, c: char, x: int, y: int, s: int, a: int, b: int)
    ensures
        text_hits(t.push(c), x, y, s, a, b) == (text_hits(t, x, y, s, a, b) || char_hits(
            c,
            x + 5 * s * t.len(),
            y,
            s,
            a,
            b,
        )),
    decreases t.len(),
{
    if t.len() == 0 {
        assert(t.push(c)[0] == c);
        assert(t.push(c).drop_first() =~= Seq::<char>::empty());
        assert(5 * s * t.len() == 0) by (nonlinear_arith)
            requires
                t.len() == 0,
        ;
        assert(!text_hits(t.push(c).drop_first(), x + 5 * s, y, s, a, b));
        assert(text_hits(t.push(c), x, y, s, a, b) == char_hits(c, x, y, s, a, b));
        assert(!text_hits(t, x, y, s, a, b));
    } else {
        assert(t.push(c)[0] == t[0]);
        assert(t.push(c).drop_first() =~= t.drop_first().push(c));
        lemma_text_hits_push(t.drop_first(), c, x + 5 * s, y, s, a, b);
        assert(5 * s + 5 * s * (t.len() - 1) == 5 * s * t.len()) by (nonlinear_arith);
        assert(text_hits(t.push(c), x, y, s, a, b) == (char_hits(t[0], x, y, s, a, b)
            || text_hits(t.drop_first().push(c), x + 5 * s, y, s, a, b)));
        assert(text_hits(t, x, y, s, a, b) == (char_hits(t[0], x, y, s, a, b) || text_hits(
            t.drop_first(),
            x + 5 * s,
            y,
            s,
            a,
            b,
        )));
    }
}

impl Canvas {
    /// Blits one packed glyph at `(x, y)` with scale `s`, every plotted pixel
    /// intersected with the clip rectangle; plots with `invert` when `inv` is
    /// set, with `set(.., true)` otherwise.
    fn draw_glyph_core(
        &mut self,
        x: i32,
        y: i32,
        g: u32,
        s: i32,
        inv: bool,
        clip_x: i32,
        clip_y: i32,
        clip_w: i32,
        clip_h: i32,
    )
        requires
            old(self).wf(),
            1 <= s <= 10000,
            -COORD_LIMIT <= x <= COORD_LIMIT,
            -COORD_LIMIT <= y <= COORD_LIMIT,
            -COORD_LIMIT <= clip_x <= COORD_LIMIT,
            -COORD_LIMIT <= clip_y <= COORD_LIMIT,
            -COORD_LIMIT <= clip_w <= COORD_LIMIT,
            -COORD_LIMIT <= clip_h <= COORD_LIMIT,
        ensures
            final(self).wf(),
            final(self).same_dims(old(self)),
            forall|a: int, b: int|
                #![trigger final(self).pix(a, b)]
                final(self).in_bounds(a, b) ==> final(self).pix(a, b) as int == (if glyph_hits(
                    g,
                    x as int,
                    y as int,
                    s as int,
                    a,
                    b,
                ) && in_rect(clip_x as int, clip_y as int, clip_w as int, clip_h as int, a, b) {
                    if inv {
                        1 - old(self).pix(a, b)
                    } else {
                        1
                    }
                } else {
                    old(self).pix(a, b) as int
                }),
    {
        let s5 = 5 * s;
        let s4 = 4 * s;
        let mut oy: i32 = 0;
        while oy < s5
            invariant
                old(self).wf(),
                self.wf(),
                self.same_dims(old(self)),
                1 <= s <= 10000,
                s5 == 5 * s,
                s4 == 4 * s,
                0 <= oy <= s5,
                -COORD_LIMIT <= x <= COORD_LIMIT,
                -COORD_LIMIT <= y <= COORD_LIMIT,
                -COORD_LIMIT <= clip_x <= COORD_LIMIT,
                -COORD_LIMIT <= clip_y <= COORD_LIMIT,
                -COORD_LIMIT <= clip_w <= COORD_LIMIT,
                -COORD_LIMIT <= clip_h <= COORD_LIMIT,
                forall|a: int, b: int|
                    #![trigger self.pix(a, b)]
                    self.in_bounds(a, b) ==> self.pix(a, b) as int == (if y <= b < y + oy
                        && glyph_hits(g, x as int, y as int, s as int, a, b) && in_rect(
                        clip_x as int,
                        clip_y as int,
                        clip_w as int,
                        clip_h as int,
                        a,
                        b,
                    ) {
                        if inv {
                            1 - old(self).pix(a, b)
                        } else {
                            1
                        }
                    } else {
                        old(self).pix(a, b) as int
                    }),
            decreases s5 - oy,
        {
            let mut ox: i32 = 0;
            while ox < s4
                invariant
                    old(self).wf(),
                    self.wf(),
                    self.same_dims(old(self)),
                    1 <= s <= 10000,
                    s5 == 5 * s,
                    s4 == 4 * s,
                    0 <= oy < s5,
                    0 <= ox <= s4,
                    -COORD_LIMIT <= x <= COORD_LIMIT,
                    -COORD_LIMIT <= y <= COORD_LIMIT,
                    -COORD_LIMIT <= clip_x <= COORD_LIMIT,
                    -COORD_LIMIT <= clip_y <= COORD_LIMIT,
                    -COORD_LIMIT <= clip_w <= COORD_LIMIT,
                    -COORD_LIMIT <= clip_h <= COORD_LIMIT,
                    forall|a: int, b: int|
                        #![trigger self.pix(a, b)]
                        self.in_bounds(a, b) ==> self.pix(a, b) as int == (if ((y <= b < y + oy)
                            || (b == y + oy && x <= a < x + ox)) && glyph_hits(
                            g,
                            x as int,
                            y as int,
                            s as int,
                            a,
                            b,
                        ) && in_rect(
                            clip_x as int,
                            clip_y as int,
                            clip_w as int,
                            clip_h as int,
                            a,
                            b,
                        ) {
                            if inv {
                                1 - old(self).pix(a, b)
                            } else {
                                1
                            }
                        } else {
                            old(self).pix(a, b) as int
                        }),
                decreases s4 - ox,
            {
                let row = oy / s;
                let col = ox / s;
                proof {
                    assert(0 <= oy / s <= 4 && 0 <= ox / s <= 3) by (nonlinear_arith)
                        requires
                            s >= 1,
                            0 <= oy < 5 * s,
                            0 <= ox < 4 * s,
                    ;
                }
                let sh: u32 = (4 * row + col) as u32;
                let px = x + ox;
                let py = y + oy;
                if (g >> sh) & 1 == 1 && px >= clip_x && py >= clip_y && px < clip_x + clip_w && py
                    < clip_y + clip_h {
                    let ghost prev = *self;
                    if inv {
                        self.invert(px, py);
                    } else {
                        self.set(px, py, true);
                    }
                    proof {
                        lemma_plot_pix(
                            prev,
                            *self,
                            px as int,
                            py as int,
                            if inv {
                                0u8
                            } else {
                                1u8
                            },
                            inv,
                        );
                    }
                }
                ox = ox + 1;
            }
            oy = oy + 1;
        }
    }

    /// Draws one character of the built-in font at `(x, y)`, scale
    /// `max(scale, 1)`, by inverting pixels, with every plotted pixel clipped
    /// to the given rectangle; an unmapped character draws nothing.
    pub fn draw_char_scaled_invert_clipped(
        &mut self,
        x: i32,
        y: i32,
        ch: char,
        scale: i32,
        clip_x: i32,
        clip_y: i32,
        clip_w: i32,
        clip_h: i32,
    )
        requires
            old(self).wf(),
            scale <= 10000,
            -COORD_LIMIT <= x <= COORD_LIMIT,
            -COORD_LIMIT <= y <= COORD_LIMIT,
            -COORD_LIMIT <= clip_x <= COORD_LIMIT,
            -COORD_LIMIT <= clip_y <= COORD_LIMIT,
            -COORD_LIMIT <= clip_w <= COORD_LIMIT,
            -COORD_LIMIT <= clip_h <= COORD_LIMIT,
        ensures
            final(self).wf(),
            final(self).same_dims(old(self)),
            forall|a: int, b: int|
                #![trigger final(self).pix(a, b)]
                final(self).in_bounds(a, b) ==> final(self).pix(a, b) as int == (if char_hits(
                    ch,
                    x as int,
                    y as int,
                    eff_scale(scale as int),
                    a,
                    b,
                ) && in_rect(clip_x as int, clip_y as int, clip_w as int, clip_h as int, a, b) {
                    1 - old(self).pix(a, b)
                } else {
                    old(self).pix(a, b) as int
                }),
    {
        let s = if scale < 1 {
            1
        } else {
            scale
        };
        match tiny_glyph(ch) {
            Some(g) => self.draw_glyph_core(x, y, g, s, true, clip_x, clip_y, clip_w, clip_h),
            None => (),
        }
    }

    /// Shared text loop: draws `text` left to right from `(x, y)` at scale
    /// `max(scale, 1)`, advancing the cursor five scaled columns per
    /// character; plots by inverting when `inv` is set.
    fn draw_text_core(&mut self, x: i32, y: i32, text: &str, scale: i32, inv: bool)
        requires
            old(self).wf(),
            scale <= 10000,
            -COORD_LIMIT <= x <= COORD_LIMIT,
            -COORD_LIMIT <= y <= COORD_LIMIT,
            x + 5 * eff_scale(scale as int) * text@.len() <= COORD_LIMIT,
        ensures
            final(self).wf(),
            final(self).same_dims(old(self)),
            forall|a: int, b: int|
                #![trigger final(self).pix(a, b)]
                final(self).in_bounds(a, b) ==> final(self).pix(a, b) as int == (if text_hits(
                    text@,
                    x as int,
                    y as int,
                    eff_scale(scale as int),
                    a,
                    b,
                ) {
                    if inv {
                        1 - old(self).pix(a, b)
                    } else {
                        1
                    }
                } else {
                    old(self).pix(a, b) as int
                }),
    {
        let s = if scale < 1 {
            1
        } else {
            scale
        };
        let advance = 5 * s;
        let n = text.unicode_len();
        let mut i: usize = 0;
        let mut cursor: i32 = x;
        while i < n
            invariant
                old(self).wf(),
                self.wf(),
                self.same_dims(old(self)),
                n == text@.len(),
                0 <= i <= n,
                1 <= s <= 10000,
                s == eff_scale(scale as int),
                advance == 5 * s,
                -COORD_LIMIT <= x <= COORD_LIMIT,
                -COORD_LIMIT <= y <= COORD_LIMIT,
                x + 5 * (s as int) * (n as int) <= COORD_LIMIT,
                cursor == x + 5 * (s as int) * (i as int),
                forall|a: int, b: int|
                    #![trigger self.pix(a, b)]
                    self.in_bounds(a, b) ==> self.pix(a, b) as int == (if text_hits(
                        text@.take(i as int),
                        x as int,
                        y as int,
                        s as int,
                        a,
                        b,
                    ) {
                        if inv {
                            1 - old(self).pix(a, b)
                        } else {
                            1
                        }
                    } else {
                        old(self).pix(a, b) as int
                    }),
            decreases n - i,
        {
            proof {
                assert(5 * (s as int) * (i as int) + 5 * (s as int) <= 5 * (s as int) * (
                n as int)) by (nonlinear_arith)
                    requires
                        s >= 1,
                        0 <= i < n,
                ;
                assert(5 * (s as int) * (i as int) >= 0) by (nonlinear_arith)
                    requires
                        s >= 1,
                        i >= 0,
                ;
                assert(5 * (s as int) * ((i + 1) as int) == 5 * (s as int) * (i as int) + 5 * (
                s as int)) by (nonlinear_arith);
            }
            let c = text.get_char(i);
            let ghost prev = *self;
            let ghost smax = s as int;
            match tiny_glyph(c) {
                Some(g) => self.draw_glyph_core(cursor, y, g, s, inv, cursor, y, 4 * s, 5 * s),
                None => (),
            }
            proof {
                assert(text@.take(i + 1) =~= text@.take(i as int).push(text@[i as int]));
                assert forall|a: int, b: int|
                    self.in_bounds(a, b) implies #[trigger] self.pix(a, b) as int == (
                if text_hits(text@.take(i + 1), x as int, y as int, smax, a, b) {
                    if inv {
                        1 - old(self).pix(a, b)
                    } else {
                        1
                    }
                } else {
                    old(self).pix(a, b) as int
                }) by {
                    lemma_text_hits_push(
                        text@.take(i as int),
                        text@[i as int],
                        x as int,
                        y as int,
                        smax,
                        a,
                        b,
                    );
                    if text_hits(text@.take(i as int), x as int, y as int, smax, a, b) {
                        lemma_text_hits_extent(text@.take(i as int), x as int, y as int, smax, a, b);
                    }
                }
            }
            cursor = cursor + advance;
            i = i + 1;
        }
        proof {
            assert(text@.take(n as int) =~= text@);
        }
    }

    /// Draws text with the built-in 4x5 font at the given integer scale:
    /// four scaled columns of glyph and one of spacing per character.
    pub fn draw_text_scaled(&mut self, x: i32, y: i32, text: &str, scale: i32)
        requires
            old(self).wf(),
            scale <= 10000,
            -COORD_LIMIT <= x <= COORD_LIMIT,
            -COORD_LIMIT <= y <= COORD_LIMIT,
            x + 5 * eff_scale(scale as int) * text@.len() <= COORD_LIMIT,
        ensures
            final(self).wf(),
            final(self).same_dims(old(self)),
            forall|a: int, b: int|
                #![trigger final(self).pix(a, b)]
                final(self).in_bounds(a, b) ==> final(self).pix(a, b) == (if text_hits(
                    text@,
                    x as int,
                    y as int,
                    eff_scale(scale as int),
                    a,
                    b,
                ) {
                    1u8
                } else {
                    old(self).pix(a, b)
                }),
    {
        self.draw_text_core(x, y, text, scale, false)
    }

    /// Draws text as `draw_text_scaled` does, but inverts every covered
    /// pixel instead of setting it.
    pub fn draw_text_scaled_invert(&mut self, x: i32, y: i32, text: &str, scale: i32)
        requires
            old(self).wf(),
            scale <= 10000,
            -COORD_LIMIT <= x <= COORD_LIMIT,
            -COORD_LIMIT <= y <= COORD_LIMIT,
            x + 5 * eff_scale(scale as int) * text@.len() <= COORD_LIMIT,
        ensures
            final(self).wf(),
            final(self).same_dims(old(self)),
            forall|a: int, b: int|
                #![trigger final(self).pix(a, b)]
                final(self).in_bounds(a, b) ==> final(self).pix(a, b) as int == (if text_hits(
                    text@,
                    x as int,
                    y as int,
                    eff_scale(scale as int),
                    a,
                    b,
                ) {
                    1 - old(self).pix(a, b)
                } else {
                    old(self).pix(a, b) as int
                }),
    {
        self.draw_text_core(x, y, text, scale, true)
    }

    /// Draws text at scale 1, the font's native 4x5 size.
    pub fn draw_text_tiny(&mut self, x: i32, y: i32, text: &str)
        requires
            old(self).wf(),
            -COORD_LIMIT <= x <= COORD_LIMIT,
            -COORD_LIMIT <= y <= COORD_LIMIT,
            x + 5 * text@.len() <= COORD_LIMIT,
        ensures
            final(self).wf(),
            final(self).same_dims(old(self)),
            forall|a: int, b: int|
                #![trigger final(self).pix(a, b)]
                final(self).in_bounds(a, b) ==> final(self).pix(a, b) == (if text_hits(
                    text@,
                    x as int,
                    y as int,
                    1,
                    a,
                    b,
                ) {
                    1u8
                } else {
                    old(self).pix(a, b)
                }),
    {
        self.draw_text_core(x, y, text, 1, false)
    }
}


/// Whether bit `j` (0 = least significant) of `byte` is set.
pub open spec fn bit_of(byte: u8, j: int) -> bool {
    (byte >> (j as u8)) & 1 == 1
}

proof fn lemma_u8_set_bit(c: u8, sh: u8, j: u8)
    requires
        sh < 8,
        j < 8,
    ensures
        ((c | (1u8 << sh)) >> sh) & 1 == 1,
        j != sh ==> ((c | (1u8 << sh)) >> j) & 1 == (c >> j) & 1,
{
    assert(sh < 8 ==> ((c | (1u8 << sh)) >> sh) & 1 == 1) by (bit_vector);
    assert(sh < 8 && j < 8 && j != sh ==> ((c | (1u8 << sh)) >> j) & 1 == (c >> j) & 1)
        by (bit_vector);
}

proof fn lemma_u8_zero_bit(j: u8)
    requires
        j < 8,
    ensures
        (0u8 >> j) & 1 == 0,
{
    assert(j < 8 ==> (0u8 >> j) & 1 == 0) by (bit_vector);
}

impl Canvas {
    /// Serializes the grid row-major, most-significant-bit-first, eight
    /// pixels per byte, the final partial byte zero-padded: bit `7 - (k % 8)`
    /// of output byte `k / 8` is pixel `k` in row-major order, so the output
    /// holds `ceil(width * height / 8)` bytes.
    pub fn to_packed_bytes(&self) -> (out: Vec<u8>)
        requires
            self.wf(),
        ensures
            out@.len() == (self.w() * self.h() + 7) / 8,
            forall|k: int|
                0 <= k < self.w() * self.h() ==> (bit_of(#[trigger] out@[k / 8], 7 - (k % 8))
                    <==> self.grid()[k] == 1),
            forall|k: int|
                self.w() * self.h() <= k < 8 * out@.len() ==> !bit_of(
                    #[trigger] out@[k / 8],
                    7 - (k % 8),
                ),
    {
        let total = self.pixels.len();
        let cap = total / 8 + (if total % 8 > 0 {
            1
        } else {
            0
        });
        let mut out: Vec<u8> = vec![0u8; cap];
        let mut byte_index: usize = 0;
        let mut bit_index: usize = 0;
        let mut current: u8 = 0;
        let mut k: usize = 0;
        proof {
            assert forall|j: int| 0 <= j < 8 implies !bit_of(0u8, j) by {
                lemma_u8_zero_bit(j as u8);
            }
        }
        while k < total
            invariant
                self.wf(),
                total == self.grid().len(),
                cap == (total + 7) / 8,
                out@.len() == cap,
                0 <= k <= total,
                byte_index == k / 8,
                bit_index == k % 8,
                forall|k2: int|
                    0 <= k2 < byte_index * 8 ==> (bit_of(#[trigger] out@[k2 / 8], 7 - (k2 % 8))
                        <==> self.grid()[k2] == 1),
                forall|j: int| byte_index <= j < cap ==> out@[j] == 0,
                forall|j: int|
                    8 - bit_index <= j < 8 ==> (#[trigger] bit_of(current, j) <==> self.grid()[
                    byte_index * 8 + 7 - j] == 1),
                forall|j: int| 0 <= j < 8 - bit_index ==> !(#[trigger] bit_of(current, j)),
            decreases total - k,
        {
            let ghost prev_current = current;
            if self.pixels[k] > 0 {
                let sh: u32 = (7 - bit_index) as u32;
                current = current | (1u8 << sh);
                proof {
                    assert forall|j: int| 0 <= j < 8 implies #[trigger] bit_of(current, j) == (if j
                        == 7 - bit_index {
                        true
                    } else {
                        bit_of(prev_current, j)
                    }) by {
                        lemma_u8_set_bit(prev_current, (7 - bit_index) as u8, j as u8);
                    }
                }
            }
            k = k + 1;
            bit_index = bit_index + 1;
            if bit_index == 8 {
                out[byte_index] = current;
                byte_index = byte_index + 1;
                bit_index = 0;
                current = 0;
                proof {
                    assert forall|j: int| 0 <= j < 8 implies !bit_of(0u8, j) by {
                        lemma_u8_zero_bit(j as u8);
                    }
                    assert forall|k2: int|
                        0 <= k2 < byte_index * 8 implies (bit_of(
                        #[trigger] out@[k2 / 8],
                        7 - (k2 % 8),
                    ) <==> self.grid()[k2] == 1) by {
                        if k2 >= (byte_index - 1) * 8 {
                            assert(k2 / 8 == byte_index - 1);
                            assert(k2 % 8 == k2 - (byte_index - 1) * 8);
                        }
                    }
                }
            }
        }
        if bit_index > 0 {
            out[byte_index] = current;
        }
        proof {
            assert forall|k2: int|
                0 <= k2 < total implies (bit_of(#[trigger] out@[k2 / 8], 7 - (k2 % 8))
                <==> self.grid()[k2] == 1) by {
                if k2 >= byte_index * 8 {
                    assert(k2 / 8 == byte_index);
                    assert(k2 % 8 == k2 - byte_index * 8);
                }
            }
            assert forall|k2: int|
                total <= k2 < 8 * out@.len() implies !bit_of(
                #[trigger] out@[k2 / 8],
                7 - (k2 % 8),
            ) by {
                assert(k2 / 8 == byte_index);
                assert(k2 % 8 == k2 - byte_index * 8);
            }
        }
        out
    }
}


/// A grid of `len` cells all cleared to the background value.
pub open spec fn clear_grid(len: nat, on: bool) -> Seq<u8> {
    Seq::new(
        len,
        |i: int|
            if on {
                1u8
            } else {
                0u8
            },
    )
}

/// The grid after filling the rectangle at `(x, y)` of size `rw x rh` with
/// `v`, clipped to a `w x h` canvas.
pub open spec fn rect_fill_grid(
    g: Seq<u8>,
    w: int,
    h: int,
    x: int,
    y: int,
    rw: int,
    rh: int,
    v: u8,
) -> Seq<u8> {
    Seq::new(
        g.len(),
        |i: int|
            if w > 0 && in_rect(x, y, rw, rh, i % w, i / w) {
                v
            } else {
                g[i]
            },
    )
}

/// The grid after inverting every pixel of the rectangle at `(x, y)` of size
/// `rw x rh`, clipped to a `w x h` canvas.
pub open spec fn rect_inv_grid(g: Seq<u8>, w: int, h: int, x: int, y: int, rw: int, rh: int) -> Seq<
    u8,
> {
    Seq::new(
        g.len(),
        |i: int|
            if w > 0 && in_rect(x, y, rw, rh, i % w, i / w) {
                (1 - g[i]) as u8
            } else {
                g[i]
            },
    )
}

/// The grid after drawing the one-pixel border of the rectangle at `(x, y)`
/// of size `rw x rh` in `v`, clipped to a `w x h` canvas.
pub open spec fn rect_border_grid(
    g: Seq<u8>,
    w: int,
    h: int,
    x: int,
    y: int,
    rw: int,
    rh: int,
    v: u8,
) -> Seq<u8> {
    Seq::new(
        g.len(),
        |i: int|
            if w > 0 && border_hits(x, y, rw, rh, i % w, i / w) {
                v
            } else {
                g[i]
            },
    )
}

/// The grid after inverting one font character at `(x, y)` with scale `s`,
/// every plotted pixel intersected with the clip rectangle.
pub open spec fn char_inv_grid(
    g: Seq<u8>,
    w: int,
    h: int,
    c: char,
    x: int,
    y: int,
    s: int,
    clip_x: int,
    clip_y: int,
    clip_w: int,
    clip_h: int,
) -> Seq<u8> {
    Seq::new(
        g.len(),
        |i: int|
            if w > 0 && char_hits(c, x, y, s, i % w, i / w) && in_rect(
                clip_x,
                clip_y,
                clip_w,
                clip_h,
                i % w,
                i / w,
            ) {
                (1 - g[i]) as u8
            } else {
                g[i]
            },
    )
}

/// Positive dimensions, row index and column index of a cell index: the
/// facts every grid-form bridge below needs about `i`, `i % w` and `i / w`.
pub(crate) proof fn lemma_cell_of_index(c0: Canvas, c1: Canvas, i: int)
    requires
        c0.wf(),
        c1.wf(),
        c1.same_dims(&c0),
        0 <= i < c1.grid().len(),
    ensures
        c0.w() > 0,
        c0.in_bounds(i % c0.w(), i / c0.w()),
        c1.in_bounds(i % c0.w(), i / c0.w()),
        c1.pix(i % c0.w(), i / c0.w()) == c1.grid()[i],
        c0.pix(i % c0.w(), i / c0.w()) == c0.grid()[i],
        c0.grid().len() == c1.grid().len(),
{
    let w = c0.w();
    let h = c0.h();
    assert(w > 0 && h > 0) by (nonlinear_arith)
        requires
            w >= 0,
            h >= 0,
            w * h > 0,
    ;
    vstd::arithmetic::div_mod::lemma_fundamental_div_mod(i, w);
    vstd::arithmetic::div_mod::lemma_mod_bound(i, w);
    let a = i % w;
    let b = i / w;
    assert(0 <= b < h) by (nonlinear_arith)
        requires
            w * b + a == i,
            0 <= a < w,
            0 <= i < w * h,
            w > 0,
            h > 0,
    ;
    assert(c1.idx(a, b) == i);
    assert(c0.idx(a, b) == i);
}

/// Bridges `rect_fill`'s pixel-by-pixel contract to its grid equation.
pub proof fn lemma_rect_fill_grid(c0: Canvas, c1: Canvas, x: int, y: int, rw: int, rh: int, v: u8)
    requires
        c0.wf(),
        c1.wf(),
        c1.same_dims(&c0),
        forall|a: int, b: int|
            #![trigger c1.pix(a, b)]
            c1.in_bounds(a, b) ==> c1.pix(a, b) == (if in_rect(x, y, rw, rh, a, b) {
                v
            } else {
                c0.pix(a, b)
            }),
    ensures
        c1.grid() == rect_fill_grid(c0.grid(), c0.w(), c0.h(), x, y, rw, rh, v),
{
    let target = rect_fill_grid(c0.grid(), c0.w(), c0.h(), x, y, rw, rh, v);
    assert forall|i: int| 0 <= i < c1.grid().len() implies c1.grid()[i] == target[i] by {
        lemma_cell_of_index(c0, c1, i);
    }
    assert(c1.grid() =~= target);
}

/// Bridges `rect_fill_invert`'s pixel-by-pixel contract to its grid equation.
pub proof fn lemma_rect_inv_grid(c0: Canvas, c1: Canvas, x: int, y: int, rw: int, rh: int)
    requires
        c0.wf(),
        c1.wf(),
        c1.same_dims(&c0),
        forall|a: int, b: int|
            #![trigger c1.pix(a, b)]
            c1.in_bounds(a, b) ==> c1.pix(a, b) as int == (if in_rect(x, y, rw, rh, a, b) {
                1 - c0.pix(a, b)
            } else {
                c0.pix(a, b) as int
            }),
    ensures
        c1.grid() == rect_inv_grid(c0.grid(), c0.w(), c0.h(), x, y, rw, rh),
{
    let target = rect_inv_grid(c0.grid(), c0.w(), c0.h(), x, y, rw, rh);
    assert forall|i: int| 0 <= i < c1.grid().len() implies c1.grid()[i] == target[i] by {
        lemma_cell_of_index(c0, c1, i);
    }
    assert(c1.grid() =~= target);
}

/// Bridges `rect_border`'s pixel-by-pixel contract to its grid equation.
pub proof fn lemma_rect_border_grid(c0: Canvas, c1: Canvas, x: int, y: int, rw: int, rh: int, v: u8)
    requires
        c0.wf(),
        c1.wf(),
        c1.same_dims(&c0),
        forall|a: int, b: int|
            #![trigger c1.pix(a, b)]
            c1.in_bounds(a, b) ==> c1.pix(a, b) == (if border_hits(x, y, rw, rh, a, b) {
                v
            } else {
                c0.pix(a, b)
            }),
    ensures
        c1.grid() == rect_border_grid(c0.grid(), c0.w(), c0.h(), x, y, rw, rh, v),
{
    let target = rect_border_grid(c0.grid(), c0.w(), c0.h(), x, y, rw, rh, v);
    assert forall|i: int| 0 <= i < c1.grid().len() implies c1.grid()[i] == target[i] by {
        lemma_cell_of_index(c0, c1, i);
    }
    assert(c1.grid() =~= target);
}

/// Bridges `draw_char_scaled_invert_clipped`'s pixel-by-pixel contract to
/// its grid equation.
pub proof fn lemma_char_inv_grid(
    c0: Canvas,
    c1: Canvas,
    c: char,
    x: int,
    y: int,
    s: int,
    clip_x: int,
    clip_y: int,
    clip_w: int,
    clip_h: int,
)
    requires
        c0.wf(),
        c1.wf(),
        c1.same_dims(&c0),
        forall|a: int, b: int|
            #![trigger c1.pix(a, b)]
            c1.in_bounds(a, b) ==> c1.pix(a, b) as int == (if char_hits(c, x, y, s, a, b)
                && in_rect(clip_x, clip_y, clip_w, clip_h, a, b) {
                1 - c0.pix(a, b)
            } else {
                c0.pix(a, b) as int
            }),
    ensures
        c1.grid() == char_inv_grid(
            c0.grid(),
            c0.w(),
            c0.h(),
            c,
            x,
            y,
            s,
            clip_x,
            clip_y,
            clip_w,
            clip_h,
        ),
{
    let target = char_inv_grid(
        c0.grid(),
        c0.w(),
        c0.h(),
        c,
        x,
        y,
        s,
        clip_x,
        clip_y,
        clip_w,
        clip_h,
    );
    assert forall|i: int| 0 <= i < c1.grid().len() implies c1.grid()[i] == target[i] by {
        lemma_cell_of_index(c0, c1, i);
    }
    assert(c1.grid() =~= target);
}

} // verus!
