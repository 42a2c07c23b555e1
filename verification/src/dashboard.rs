//! Dashboard orchestrator: owns the framebuffer and every widget's animation
//! state across frames, dispatches each configured, enabled widget to its
//! renderer in configuration order, and emits the packed frame. While the
//! boot sequence runs, only it draws; the hard cutover to widgets happens the
//! first frame at or past the boot duration.

use vstd::arithmetic::div_mod::lemma_div_is_ordered;
use vstd::arithmetic::mul::lemma_mul_inequality;
use vstd::prelude::*;
use crate::boot;
use crate::canvas::Canvas;
use crate::canvas::bit_of;
use crate::canvas::border_hits;
use crate::canvas::in_rect;
use crate::canvas::lemma_char_inv_grid;
use crate::canvas::lemma_rect_border_grid;
use crate::canvas::lemma_rect_fill_grid;
use crate::canvas::lemma_rect_inv_grid;
use crate::canvas::text_hits;
use crate::config::BarConfig;
use crate::config::BarDirection;
use crate::config::DashboardConfig;
use crate::config::MetricsSample;
use crate::config::Position;
use crate::config::Widget;
use crate::config::WidgetKind;
use crate::history::SampleHistory;
use crate::history::recent;
use crate::transition::ToggleTransition;
use crate::transition::VolumeRoll;

verus! {

/// How long the boot sequence owns the display, in milliseconds.
pub const BOOT_DURATION_MS: u64 = 2100;

/// Largest coordinate or size a widget rectangle may have and still be
/// drawn; beyond it the widget is skipped as malformed.
pub const POS_LIMIT: i32 = 100000;

/// Whether a frame at `elapsed_ms` since startup still belongs to the boot
/// sequence.
pub open spec fn boot_active(elapsed_ms: u64) -> bool {
    elapsed_ms < BOOT_DURATION_MS
}

/// A widget rectangle the renderer accepts: positive size, everything within
/// the coordinate limit (an arithmetic bound far beyond any display, not a
/// clipping rule). Whatever fails this is silently skipped; rendering must
/// continue for the other widgets.
pub open spec fn spec_pos_ok(pos: Position) -> bool {
    &&& -POS_LIMIT <= pos.x <= POS_LIMIT
    &&& -POS_LIMIT <= pos.y <= POS_LIMIT
    &&& 0 < pos.w <= POS_LIMIT
    &&& 0 < pos.h <= POS_LIMIT
}

/// Clamps a metric value (hundredths of a percent) to 0..=10000.
pub open spec fn spec_clamp_pm(pm: int) -> int {
    if pm > 10000 {
        10000
    } else if pm < 0 {
        0
    } else {
        pm
    }
}

/// Fill length of a bar of inner extent `extent` at `pm` hundredths of a
/// percent: the extent scaled by the clamped percentage, rounded to the
/// nearest pixel.
pub open spec fn spec_fill_len(extent: int, pm: int) -> int {
    (extent * spec_clamp_pm(pm) + 5000) / 10000
}

/// Bar fill monotonicity: for a fixed extent, the fill length never
/// decreases as the percentage grows, it is zero at 0% and the full inner
/// extent at 100%.
pub proof fn lemma_fill_len_monotonic(extent: int, pm1: int, pm2: int)
    requires
        extent >= 0,
        pm1 <= pm2,
    ensures
        spec_fill_len(extent, pm1) <= spec_fill_len(extent, pm2),
        spec_fill_len(extent, 0) == 0,
        spec_fill_len(extent, 10000) == extent,
{
    lemma_mul_inequality(spec_clamp_pm(pm1), spec_clamp_pm(pm2), extent);
    lemma_div_is_ordered(
        extent * spec_clamp_pm(pm1) + 5000,
        extent * spec_clamp_pm(pm2) + 5000,
        10000,
    );
    assert(extent * 0 == 0) by (nonlinear_arith);
    assert((extent * 10000 + 5000) / 10000 == extent) by (nonlinear_arith)
        requires
            extent >= 0,
    ;
}

/// Whether the blit of the packed `cols`-wide, `rows`-tall bitmap `bits` at
/// `(x, y)` covers the pixel `(a, b)`; bit `r * cols + c` of `bits` is the
/// bitmap's pixel at column `c` of row `r`.
pub open spec fn bits_hit(bits: u128, cols: int, rows: int, x: int, y: int, a: int, b: int) -> bool {
    &&& x <= a < x + cols
    &&& y <= b < y + rows
    &&& (bits >> (((b - y) * cols + (a - x)) as u128)) & 1 == 1
}

/// The dashboard renderer: the framebuffer plus all per-widget animation
/// state that persists across frames.
pub struct DashboardRenderer {
    canvas: Canvas,
    width: usize,
    height: usize,
    mem_history: SampleHistory,
    volume: VolumeRoll,
    caps: ToggleTransition,
    num: ToggleTransition,
    scroll: ToggleTransition,
}

impl DashboardRenderer {
    pub closed spec fn w(&self) -> int {
        self.width as int
    }

    pub closed spec fn h(&self) -> int {
        self.height as int
    }

    /// The framebuffer, with its contents and dimensions.
    pub closed spec fn canvas_view(&self) -> Canvas {
        self.canvas
    }

    /// The framebuffer contents, row-major.
    pub open spec fn frame_grid(&self) -> Seq<u8> {
        self.canvas_view().grid()
    }

    pub closed spec fn history_state(&self) -> Seq<u32> {
        self.mem_history.view_seq()
    }

    pub closed spec fn volume_state(&self) -> VolumeRoll {
        self.volume
    }

    pub closed spec fn caps_state(&self) -> ToggleTransition {
        self.caps
    }

    pub closed spec fn num_state(&self) -> ToggleTransition {
        self.num
    }

    pub closed spec fn scroll_state(&self) -> ToggleTransition {
        self.scroll
    }

    pub open spec fn wf(&self) -> bool {
        &&& self.canvas_view().wf()
        &&& self.canvas_view().w() == self.w()
        &&& self.canvas_view().h() == self.h()
        &&& 0 <= self.w() <= 100000
        &&& 0 <= self.h() <= 100000
        &&& self.volume_state().wf()
        &&& self.caps_state().wf()
        &&& self.num_state().wf()
        &&& self.scroll_state().wf()
    }

    pub open spec fn same_dims(&self, other: &DashboardRenderer) -> bool {
        self.w() == other.w() && self.h() == other.h()
    }

    /// A fresh renderer: an all-dark framebuffer, an empty memory history, a
    /// volume roll of ten frames per unit step, and six-frame lock-key
    /// transitions.
    pub fn new(width: usize, height: usize) -> (r: DashboardRenderer)
        requires
            width * height <= usize::MAX,
            width <= 100000,
            height <= 100000,
        ensures
            r.wf(),
            r.w() == width,
            r.h() == height,
            r.frame_grid().len() == r.w() * r.h(),
            forall|i: int| 0 <= i < r.frame_grid().len() ==> r.frame_grid()[i] == 0u8,
            r.history_state() == Seq::<u32>::empty(),
            r.volume_state() == (VolumeRoll {
                display: None,
                target: 0,
                step_from: 0,
                step_to: 0,
                step: 10,
                len: 10,
                speed: 1,
            }),
            r.caps_state() == (ToggleTransition {
                prev: None,
                from: false,
                to: false,
                step: 0,
                len: 6,
            }),
            r.num_state() == r.caps_state(),
            r.scroll_state() == r.caps_state(),
    {
        DashboardRenderer {
            canvas: Canvas::new(width, height),
            width,
            height,
            mem_history: SampleHistory::new(),
            volume: VolumeRoll::new(10, 1),
            caps: ToggleTransition::new(6),
            num: ToggleTransition::new(6),
            scroll: ToggleTransition::new(6),
        }
    }

    /// Blits the packed `cols` x `rows` bitmap `bits` at `(x, y)`: each set
    /// bit is drawn (or inverted, when `inv` is set), clear bits leave the
    /// canvas alone.
    fn blit_bits(&mut self, x: i32, y: i32, cols: i32, rows: i32, bits: u128, inv: bool)
        requires
            old(self).wf(),
            1 <= cols,
            1 <= rows,
            cols * rows <= 128,
            -500000 <= x <= 500000,
            -500000 <= y <= 500000,
        ensures
            final(self).wf(),
            final(self).same_dims(old(self)),
            final(self).history_state() == old(self).history_state(),
            final(self).volume_state() == old(self).volume_state(),
            final(self).caps_state() == old(self).caps_state(),
            final(self).num_state() == old(self).num_state(),
            final(self).scroll_state() == old(self).scroll_state(),
            forall|a: int, b: int|
                #![trigger final(self).canvas.pix(a, b)]
                final(self).canvas.in_bounds(a, b) ==> final(self).canvas.pix(a, b) as int == (
                if bits_hit(bits, cols as int, rows as int, x as int, y as int, a, b) {
                    if inv {
                        1 - old(self).canvas.pix(a, b)
                    } else {
                        1
                    }
                } else {
                    old(self).canvas.pix(a, b) as int
                }),
    {
        proof {
            assert(rows <= 128 && cols <= 128) by (nonlinear_arith)
                requires
                    1 <= cols,
                    1 <= rows,
                    cols * rows <= 128,
            ;
        }
        let mut oy: i32 = 0;
        while oy < rows
            invariant
                old(self).wf(),
                self.wf(),
                self.canvas.same_dims(&old(self).canvas),
                self.mem_history == old(self).mem_history,
                self.volume == old(self).volume,
                self.caps == old(self).caps,
                self.num == old(self).num,
                self.scroll == old(self).scroll,
                self.width == old(self).width,
                self.height == old(self).height,
                1 <= cols <= 128,
                1 <= rows <= 128,
                cols * rows <= 128,
                0 <= oy <= rows,
                -500000 <= x <= 500000,
                -500000 <= y <= 500000,
                forall|a: int, b: int|
                    #![trigger self.canvas.pix(a, b)]
                    self.canvas.in_bounds(a, b) ==> self.canvas.pix(a, b) as int == (if y <= b < y
                        + oy && bits_hit(bits, cols as int, rows as int, x as int, y as int, a, b) {
                        if inv {
                            1 - old(self).canvas.pix(a, b)
                        } else {
                            1
                        }
                    } else {
                        old(self).canvas.pix(a, b) as int
                    }),
            decreases rows - oy,
        {
            let mut ox: i32 = 0;
            proof {
                lemma_mul_inequality(oy as int + 1, rows as int, cols as int);
            }
            while ox < cols
                invariant
                    old(self).wf(),
                    self.wf(),
                    self.canvas.same_dims(&old(self).canvas),
                    self.mem_history == old(self).mem_history,
                    self.volume == old(self).volume,
                    self.caps == old(self).caps,
                    self.num == old(self).num,
                    self.scroll == old(self).scroll,
                    self.width == old(self).width,
                    self.height == old(self).height,
                    1 <= cols <= 128,
                    1 <= rows <= 128,
                    cols * rows <= 128,
                    0 <= oy < rows,
                    0 <= ox <= cols,
                    (oy + 1) * cols <= 128,
                    -500000 <= x <= 500000,
                    -500000 <= y <= 500000,
                    forall|a: int, b: int|
                        #![trigger self.canvas.pix(a, b)]
                        self.canvas.in_bounds(a, b) ==> self.canvas.pix(a, b) as int == (if ((y <= b
                            < y + oy) || (b == y + oy && x <= a < x + ox)) && bits_hit(
                            bits,
                            cols as int,
                            rows as int,
                            x as int,
                            y as int,
                            a,
                            b,
                        ) {
                            if inv {
                                1 - old(self).canvas.pix(a, b)
                            } else {
                                1
                            }
                        } else {
                            old(self).canvas.pix(a, b) as int
                        }),
                decreases cols - ox,
            {
                proof {
                    assert(0 <= oy * cols + ox < (oy + 1) * cols) by (nonlinear_arith)
                        requires
                            0 <= oy,
                            1 <= cols,
                            0 <= ox < cols,
                    ;
                }
                let sh: u128 = (oy * cols + ox) as u128;
                if (bits >> sh) & 1 == 1 {
                    let ghost prev = self.canvas;
                    if inv {
                        self.canvas.invert(x + ox, y + oy);
                    } else {
                        self.canvas.set(x + ox, y + oy, true);
                    }
                    proof {
                        crate::canvas::lemma_plot_pix(
                            prev,
                            self.canvas,
                            (x + ox) as int,
                            (y + oy) as int,
                            if inv {
                                0u8
                            } else {
                                1u8
                            },
                            inv,
                        );
                    }
                }
                ox = ox + 1;
            }
            oy = oy + 1;
        }
    }

    /// Shared bar widget drawing: clamps the percentage, draws the optional
    /// one-pixel border, and fills the inner rectangle proportionally —
    /// vertical bars from the bottom up, horizontal bars from the left.
    fn draw_bar(&mut self, pos: &Position, percent_pm: u32, direction: BarDirection, border: bool)
        requires
            old(self).wf(),
            spec_pos_ok(*pos),
        ensures
            final(self).wf(),
            final(self).same_dims(old(self)),
            final(self).history_state() == old(self).history_state(),
            final(self).volume_state() == old(self).volume_state(),
            final(self).caps_state() == old(self).caps_state(),
            final(self).num_state() == old(self).num_state(),
            final(self).scroll_state() == old(self).scroll_state(),
            forall|a: int, b: int|
                #![trigger final(self).canvas.pix(a, b)]
                final(self).canvas.in_bounds(a, b) ==> final(self).canvas.pix(a, b) == (
                if spec_bar_hits(*pos, percent_pm as int, direction, border, a, b) {
                    1u8
                } else {
                    old(self).canvas.pix(a, b)
                }),
    {
        if border {
            self.canvas.rect_border(pos.x, pos.y, pos.w, pos.h, true);
        }
        let inner_x = if border {
            pos.x + 1
        } else {
            pos.x
        };
        let inner_y = if border {
            pos.y + 1
        } else {
            pos.y
        };
        let inner_w = if border {
            pos.w - 2
        } else {
            pos.w
        };
        let inner_h = if border {
            pos.h - 2
        } else {
            pos.h
        };
        if inner_w <= 0 || inner_h <= 0 {
            return ;
        }
        let pm: u32 = if percent_pm > 10000 {
            10000
        } else {
            percent_pm
        };
        proof {
            assert(0 <= (inner_h as int) * (pm as int) <= 100000 * 10000) by (nonlinear_arith)
                requires
                    0 <= inner_h <= 100000,
                    0 <= pm <= 10000,
            ;
            assert(0 <= (inner_w as int) * (pm as int) <= 100000 * 10000) by (nonlinear_arith)
                requires
                    0 <= inner_w <= 100000,
                    0 <= pm <= 10000,
            ;
        }
        match direction {
            BarDirection::Vertical => {
                let fill_h = (((inner_h as i64) * (pm as i64) + 5000) / 10000) as i32;
                proof {
                    assert(0 <= ((inner_h as int) * (pm as int) + 5000) / 10000 <= inner_h as int)
                        by (nonlinear_arith)
                        requires
                            0 <= inner_h <= 100000,
                            0 <= pm <= 10000,
                    ;
                }
                let fy = inner_y + (inner_h - fill_h);
                self.canvas.rect_fill(inner_x, fy, inner_w, fill_h, true);
            },
            BarDirection::Horizontal => {
                let fill_w = (((inner_w as i64) * (pm as i64) + 5000) / 10000) as i32;
                proof {
                    assert(0 <= ((inner_w as int) * (pm as int) + 5000) / 10000 <= inner_w as int)
                        by (nonlinear_arith)
                        requires
                            0 <= inner_w <= 100000,
                            0 <= pm <= 10000,
                    ;
                }
                self.canvas.rect_fill(inner_x, inner_y, fill_w, inner_h, true);
            },
        }
    }
}

/// The inner rectangle of a bar: the widget rectangle, inset by one pixel on
/// every side when bordered.
pub open spec fn spec_bar_inner(pos: Position, border: bool) -> Position {
    if border {
        Position {
            x: (pos.x + 1) as i32,
            y: (pos.y + 1) as i32,
            w: (pos.w - 2) as i32,
            h: (pos.h - 2) as i32,
        }
    } else {
        pos
    }
}

/// Whether drawing the bar covers pixel `(a, b)`: the border when asked for,
/// plus the proportional fill — bottom-up for vertical bars, left-aligned
/// for horizontal ones. A bar with no inner room draws only its border.
pub open spec fn spec_bar_hits(
    pos: Position,
    pm: int,
    direction: BarDirection,
    border: bool,
    a: int,
    b: int,
) -> bool {
    let inner = spec_bar_inner(pos, border);
    let fill = if inner.w <= 0 || inner.h <= 0 {
        false
    } else {
        match direction {
            BarDirection::Vertical => {
                let fh = spec_fill_len(inner.h as int, pm);
                in_rect(inner.x as int, inner.y + inner.h - fh, inner.w as int, fh, a, b)
            },
            BarDirection::Horizontal => {
                let fw = spec_fill_len(inner.w as int, pm);
                in_rect(inner.x as int, inner.y as int, fw, inner.h as int, a, b)
            },
        }
    };
    fill || (border && border_hits(pos.x as int, pos.y as int, pos.w as int, pos.h as int, a, b))
}


/// Truncating division (toward zero), the semantics of the host language's
/// integer division.
pub open spec fn spec_div_trunc(n: int, d: int) -> int
    recommends
        d >= 1,
{
    if n >= 0 {
        n / d
    } else {
        -((-n) / d)
    }
}

/// Truncating division of bounded values.
fn div_trunc(n: i32, d: i32) -> (r: i32)
    requires
        1 <= d,
        -1000000 <= n <= 1000000,
    ensures
        r == spec_div_trunc(n as int, d as int),
        n >= 0 ==> 0 <= r <= n,
        n < 0 ==> n <= r <= 0,
{
    if n >= 0 {
        let r = n / d;
        proof {
            assert(0 <= (n as int) / (d as int) <= n as int) by (nonlinear_arith)
                requires
                    d as int >= 1,
                    n as int >= 0,
            ;
        }
        r
    } else {
        let r = -((-n) / d);
        proof {
            assert(0 <= (-(n as int)) / (d as int) <= -(n as int)) by (nonlinear_arith)
                requires
                    d as int >= 1,
                    (n as int) < 0,
            ;
        }
        r
    }
}

/// Rounded division of nonnegative bounded values, halves away from zero.
fn round_div(n: i32, d: i32) -> (r: i32)
    requires
        1 <= d <= 1000000,
        0 <= n <= 1000000,
    ensures
        r == crate::spec_round_div(n as int, d as int),
        0 <= r <= n,
{
    let r = (n + d / 2) / d;
    proof {
        assert(0 <= (n as int + d as int / 2) / (d as int) <= n as int) by (nonlinear_arith)
            requires
                d as int >= 1,
                n as int >= 0,
        ;
    }
    r
}

/// The 8-wide, 9-tall CPU chip icon, packed like a blit bitmap: pins on all
/// four sides around a bordered body with a die mark.
pub const CHIP_BITS: u128 = 0x247e42c35ac3427e24;

/// The 9-wide, 10-tall lock-key arrow bitmap: an up or down arrow, solid
/// when the lock is on, outlined when it is off.
pub open spec fn spec_chevron_bitmap(up: bool, on: bool) -> u128 {
    if up {
        if on {
            0x70381c0e071ff7f1f07010
        } else {
            0x7028140a051ef411105010
        }
    } else {
        if on {
            0x20383e3fbfe381c0e07038
        } else {
            0x20282220bde28140a05038
        }
    }
}

/// Arrow bitmap lookup; see `spec_chevron_bitmap`.
pub fn chevron_bitmap(up: bool, on: bool) -> (r: u128)
    ensures
        r == spec_chevron_bitmap(up, on),
{
    if up {
        if on {
            0x70381c0e071ff7f1f07010
        } else {
            0x7028140a051ef411105010
        }
    } else {
        if on {
            0x20383e3fbfe381c0e07038
        } else {
            0x20282220bde28140a05038
        }
    }
}

/// Rows of a blended arrow within this distance of the bitmap's vertical
/// center show the target state already; the rest still show the old one.
/// The reveal widens from the center outward as the transition progresses.
pub open spec fn spec_chevron_radius(step: u8, len: u8) -> int {
    if len == 0 {
        5
    } else {
        let r = crate::spec_round_div(5 * step, len as int);
        if r < 0 {
            0
        } else if r > 5 {
            5
        } else {
            r
        }
    }
}

/// Vertical settle offset of a mid-transition arrow, decaying to zero as the
/// transition completes: turning off bounces downward, turning on glides in
/// the arrow's own direction.
pub open spec fn spec_chevron_shift(up: bool, to_on: bool, step: u8, len: u8) -> int {
    let mag = if len == 0 {
        0
    } else {
        crate::spec_round_div(3 * (len - step), len as int)
    };
    if !to_on {
        mag
    } else if up {
        -mag
    } else {
        mag
    }
}

/// The 9-bit row `row` of the arrow as drawn: the static bitmap when no
/// transition runs, otherwise the center-outward blend of the two states.
pub open spec fn spec_chevron_row(
    up: bool,
    on: bool,
    anim: Option<(bool, bool, u8, u8)>,
    row: int,
) -> u128 {
    match anim {
        None => (spec_chevron_bitmap(up, on) >> ((9 * row) as u128)) & 0x1ff,
        Some((from_on, to_on, step, len)) => {
            let radius = spec_chevron_radius(step, len);
            let src = if -radius <= row - 4 <= radius {
                spec_chevron_bitmap(up, to_on)
            } else {
                spec_chevron_bitmap(up, from_on)
            };
            (src >> ((9 * row) as u128)) & 0x1ff
        },
    }
}

/// Whether the arrow drawn at `(x, y)` covers pixel `(a, b)`, its vertical
/// settle offset included.
pub open spec fn spec_chevron_hits(
    up: bool,
    on: bool,
    anim: Option<(bool, bool, u8, u8)>,
    x: int,
    y: int,
    a: int,
    b: int,
) -> bool {
    let shift = match anim {
        None => 0int,
        Some((from_on, to_on, step, len)) => spec_chevron_shift(up, to_on, step, len),
    };
    let row = b - (y + shift);
    &&& 0 <= row < 10
    &&& x <= a < x + 9
    &&& (spec_chevron_row(up, on, anim, row) >> ((a - x) as u128)) & 1 == 1
}

impl DashboardRenderer {
    /// Draws a lock-key arrow at `(x, y)`: the static bitmap when settled, a
    /// center-outward blend of old and new state with a decaying vertical
    /// offset while a transition runs.
    fn draw_chevron(&mut self, x: i32, y: i32, up: bool, on: bool, anim: Option<(bool, bool, u8, u8)>)
        requires
            old(self).wf(),
            -400000 <= x <= 400000,
            -400000 <= y <= 400000,
            anim matches Some((f, t, s, l)) ==> s <= l,
        ensures
            final(self).wf(),
            final(self).same_dims(old(self)),
            final(self).history_state() == old(self).history_state(),
            final(self).volume_state() == old(self).volume_state(),
            final(self).caps_state() == old(self).caps_state(),
            final(self).num_state() == old(self).num_state(),
            final(self).scroll_state() == old(self).scroll_state(),
            forall|a: int, b: int|
                #![trigger final(self).canvas_view().pix(a, b)]
                final(self).canvas_view().in_bounds(a, b) ==> final(self).canvas_view().pix(a, b)
                    == (if spec_chevron_hits(up, on, anim, x as int, y as int, a, b) {
                    1u8
                } else {
                    old(self).canvas_view().pix(a, b)
                }),
    {
        let (bfrom, bto, radius, shift): (u128, u128, i32, i32) = match anim {
            Some((from_on, to_on, step, len)) => {
                let radius: i32 = if len == 0 {
                    5
                } else {
                    let r = round_div(5 * (step as i32), len as i32);
                    if r > 5 {
                        5
                    } else {
                        r
                    }
                };
                let mag: i32 = if len == 0 {
                    0
                } else {
                    let m = round_div(3 * ((len - step) as i32), len as i32);
                    proof {
                        assert((3 * (len as int - step as int) + len as int / 2) / (len as int)
                            <= 3) by (nonlinear_arith)
                            requires
                                1 <= len as int,
                                0 <= step as int <= len as int,
                        ;
                    }
                    m
                };
                let shift = if !to_on {
                    mag
                } else if up {
                    -mag
                } else {
                    mag
                };
                (chevron_bitmap(up, from_on), chevron_bitmap(up, to_on), radius, shift)
            },
            None => (chevron_bitmap(up, on), chevron_bitmap(up, on), 5, 0),
        };
        let mut row: i32 = 0;
        while row < 10
            invariant
                old(self).wf(),
                self.wf(),
                self.canvas_view().same_dims(&old(self).canvas_view()),
                self.history_state() == old(self).history_state(),
                self.volume_state() == old(self).volume_state(),
                self.caps_state() == old(self).caps_state(),
                self.num_state() == old(self).num_state(),
                self.scroll_state() == old(self).scroll_state(),
                0 <= row <= 10,
                -400000 <= x <= 400000,
                -400000 <= y <= 400000,
                -3 <= shift <= 3,
                shift == (match anim {
                    None => 0int,
                    Some((f, t, sp, l)) => spec_chevron_shift(up, t, sp, l),
                }),
                forall|r2: int|
                    0 <= r2 < 10 ==> spec_chevron_row(up, on, anim, r2) == (((if (match anim {
                        None => true,
                        Some((f, t, sp, l)) => -spec_chevron_radius(sp, l) <= r2 - 4
                            <= spec_chevron_radius(sp, l),
                    }) {
                        bto
                    } else {
                        bfrom
                    }) >> ((9 * r2) as u128)) & 0x1ff),
                anim matches Some((f, t, sp, l)) ==> radius == spec_chevron_radius(sp, l),
                0 <= radius <= 5,
                anim is None ==> bfrom == bto,
                forall|a: int, b: int|
                    #![trigger self.canvas_view().pix(a, b)]
                    self.canvas_view().in_bounds(a, b) ==> self.canvas_view().pix(a, b) == (
                    if spec_chevron_hits(up, on, anim, x as int, y as int, a, b) && b < y + shift
                        + row {
                        1u8
                    } else {
                        old(self).canvas_view().pix(a, b)
                    }),
            decreases 10 - row,
        {
            let src: u128 = if row - 4 >= -radius && row - 4 <= radius {
                bto
            } else {
                bfrom
            };
            let sh: u128 = (9 * row) as u128;
            let row_bits: u128 = (src >> sh) & 0x1ff;
            let ghost prev = *self;
            self.blit_bits(x, y + shift + row, 9, 1, row_bits, false);
            proof {
                assert forall|a: int, b: int|
                    self.canvas_view().in_bounds(a, b) implies #[trigger] self.canvas_view().pix(
                    a,
                    b,
                ) == (if spec_chevron_hits(up, on, anim, x as int, y as int, a, b) && b < y + shift
                    + row + 1 {
                    1u8
                } else {
                    old(self).canvas_view().pix(a, b)
                }) by {
                    assert(self.canvas_view().pix(a, b) as int == (if bits_hit(
                        row_bits,
                        9,
                        1,
                        x as int,
                        (y + shift + row) as int,
                        a,
                        b,
                    ) {
                        1int
                    } else {
                        prev.canvas_view().pix(a, b) as int
                    }));
                    if b == y + shift + row {
                        assert(bits_hit(row_bits, 9, 1, x as int, (y + shift + row) as int, a, b)
                            == (x <= a < x + 9 && (row_bits >> ((a - x) as u128)) & 1 == 1));
                        if x <= a < x + 9 {
                            assert(row_bits == spec_chevron_row(up, on, anim, row as int));
                        }
                    }
                }
            }
            row = row + 1;
        }
    }
}



/// Where the CPU chip icon's top-left corner sits: horizontally centered in
/// the widget, two pixels below its top edge.
pub open spec fn spec_chip_x(pos: Position) -> int {
    pos.x + spec_div_trunc(pos.w - 8, 2)
}

/// Shackle openness of the padlock: 0 closed (lock on), 3 fully open (lock
/// off), linearly interpolated and rounded while a transition runs.
pub open spec fn spec_padlock_openness(on: bool, st: ToggleTransition) -> int {
    if st.spec_active() {
        let from: int = if st.from {
            0
        } else {
            3
        };
        let to: int = if st.to {
            0
        } else {
            3
        };
        (from * st.len + (to - from) * st.step + st.len as int / 2) / (st.len as int)
    } else if on {
        0
    } else {
        3
    }
}

impl DashboardRenderer {
    /// CPU widget: a bar (vertical and borderless by default) plus a chip
    /// icon inverted over it, centered two pixels below the widget's top.
    fn draw_cpu(&mut self, widget: &Widget, sample: &MetricsSample)
        requires
            old(self).wf(),
            spec_pos_ok(widget.position),
        ensures
            final(self).wf(),
            final(self).same_dims(old(self)),
            final(self).history_state() == old(self).history_state(),
            final(self).volume_state() == old(self).volume_state(),
            final(self).caps_state() == old(self).caps_state(),
            final(self).num_state() == old(self).num_state(),
            final(self).scroll_state() == old(self).scroll_state(),
            forall|a: int, b: int|
                #![trigger final(self).canvas_view().pix(a, b)]
                final(self).canvas_view().in_bounds(a, b) ==> final(self).canvas_view().pix(
                    a,
                    b,
                ) as int == ({
                    let dir = match widget.bar {
                        Some(bc) => bc.direction,
                        None => BarDirection::Vertical,
                    };
                    let bordered = match widget.bar {
                        Some(bc) => bc.border,
                        None => false,
                    };
                    let mid: int = if spec_bar_hits(
                        widget.position,
                        sample.cpu_percent as int,
                        dir,
                        bordered,
                        a,
                        b,
                    ) {
                        1
                    } else {
                        old(self).canvas_view().pix(a, b) as int
                    };
                    if bits_hit(
                        CHIP_BITS,
                        8,
                        9,
                        spec_chip_x(widget.position),
                        widget.position.y + 2,
                        a,
                        b,
                    ) {
                        1 - mid
                    } else {
                        mid
                    }
                }),
    {
        let pos = &widget.position;
        let direction = match &widget.bar {
            Some(bc) => bc.direction,
            None => BarDirection::Vertical,
        };
        let bordered = match &widget.bar {
            Some(bc) => bc.border,
            None => false,
        };
        self.draw_bar(pos, sample.cpu_percent, direction, bordered);
        let ox = pos.x + div_trunc(pos.w - 8, 2);
        let oy = pos.y + 2;
        self.blit_bits(ox, oy, 8, 9, CHIP_BITS, true);
    }

    /// Num-lock padlock at `(x, y)`, `w` pixels wide: a filled body with a
    /// keyhole when on, a bordered body when off, and a shackle whose
    /// openness animates between closed (0) and open (3); advances the
    /// num-lock transition by one frame.
    fn draw_padlock(&mut self, x: i32, y: i32, w: i32, on: bool)
        requires
            old(self).wf(),
            -400000 <= x <= 400000,
            -400000 <= y <= 400000,
            3 <= w <= 100,
        ensures
            final(self).wf(),
            final(self).same_dims(old(self)),
            final(self).history_state() == old(self).history_state(),
            final(self).volume_state() == old(self).volume_state(),
            final(self).caps_state() == old(self).caps_state(),
            final(self).num_state() == crate::transition::spec_toggle_advance(
                old(self).num_state(),
            ),
            final(self).scroll_state() == old(self).scroll_state(),
            final(self).canvas_view().grid() == spec_padlock_grid(
                old(self).canvas_view().grid(),
                old(self).w(),
                old(self).h(),
                x as int,
                y as int,
                w as int,
                on,
                spec_padlock_openness(on, old(self).num_state()),
            ),
    {
        let ghost g0 = self.canvas.grid();
        let mut openness: i32 = if on {
            0
        } else {
            3
        };
        if self.num.is_active() {
            let from: i32 = if self.num.from {
                0
            } else {
                3
            };
            let to: i32 = if self.num.to {
                0
            } else {
                3
            };
            let st = self.num.step as i32;
            let ln = self.num.len as i32;
            proof {
                assert(0 <= (from as int) * (ln as int) + (to as int - from as int) * (st as int)
                    <= 3 * (ln as int) && -765 <= (from as int) * (ln as int) <= 765 && -765 <= (
                to as int - from as int) * (st as int) <= 765) by (nonlinear_arith)
                    requires
                        1 <= ln as int <= 255,
                        0 <= st as int <= ln as int,
                        (from == 0 && to == 3) || (from == 3 && to == 0) || (from == to && (from
                            == 0 || from == 3)),
                ;
                assert(((from as int) * (ln as int) + (to as int - from as int) * (st as int)
                    + ln as int / 2) / (ln as int) <= 3) by (nonlinear_arith)
                    requires
                        1 <= ln as int <= 255,
                        0 <= (from as int) * (ln as int) + (to as int - from as int) * (st as int)
                            <= 3 * (ln as int),
                ;
            }
            let numerator = from * ln + (to - from) * st;
            openness = (numerator + ln / 2) / ln;
        }
        proof {
            assert(openness as int == spec_padlock_openness(on, old(self).num_state()));
        }
        self.num.advance();

        let body_x = x + 1;
        let body_y = y + 6;
        let body_w = w - 2;
        let body_h: i32 = 5;

        if on {
            let ghost pre_fill = self.canvas;
            self.canvas.rect_fill(body_x, body_y, body_w, body_h, true);
            proof {
                lemma_rect_fill_grid(
                    pre_fill,
                    self.canvas,
                    body_x as int,
                    body_y as int,
                    body_w as int,
                    body_h as int,
                    1u8,
                );
            }
            // Keyhole: one dark pixel in the filled body.
            self.canvas.set(x + w / 2, body_y + 2, false);
        } else {
            let ghost pre_border = self.canvas;
            self.canvas.rect_border(body_x, body_y, body_w, body_h, true);
            proof {
                lemma_rect_border_grid(
                    pre_border,
                    self.canvas,
                    body_x as int,
                    body_y as int,
                    body_w as int,
                    body_h as int,
                    1u8,
                );
            }
        }

        // Shackle: a U shape above the body, its top arc lifted by the
        // openness.
        let shackle_top = y + 2 - openness;
        let left = x + 2;
        let right = x + w - 3;
        self.canvas.line(left, body_y, left, shackle_top + 1, true);
        self.canvas.line(left + 1, shackle_top, right - 1, shackle_top, true);
        if openness <= 1 {
            // Closed or closing: the right side reaches the body.
            self.canvas.line(right, shackle_top + 1, right, body_y, true);
        } else {
            // Opening: only a short stub of the right side remains.
            self.canvas.line(right, shackle_top + openness, right, shackle_top + openness + 1, true);
        }
        proof {
            assert(self.canvas.grid() == spec_padlock_grid(
                g0,
                old(self).w(),
                old(self).h(),
                x as int,
                y as int,
                w as int,
                on,
                openness as int,
            ));
        }
    }

    /// Keyboard widget: caps-lock up arrow, num-lock padlock and scroll-lock
    /// down arrow, right-aligned; observes all three lock signals and
    /// advances each transition one frame.
    fn draw_keyboard(&mut self, widget: &Widget, sample: &MetricsSample)
        requires
            old(self).wf(),
        ensures
            final(self).wf(),
            final(self).same_dims(old(self)),
            final(self).history_state() == old(self).history_state(),
            final(self).volume_state() == old(self).volume_state(),
            final(self).caps_state() == crate::transition::spec_toggle_tick(
                old(self).caps_state(),
                sample.caps_lock,
            ),
            final(self).num_state() == crate::transition::spec_toggle_tick(
                old(self).num_state(),
                sample.num_lock,
            ),
            final(self).scroll_state() == crate::transition::spec_toggle_tick(
                old(self).scroll_state(),
                sample.scroll_lock,
            ),
            final(self).canvas_view().grid() == spec_keyboard_grid(
                old(self).canvas_view().grid(),
                old(self).w(),
                old(self).h(),
                old(self).caps_state(),
                old(self).num_state(),
                old(self).scroll_state(),
                sample.caps_lock,
                sample.num_lock,
                sample.scroll_lock,
            ),
    {
        let _ = widget;
        self.caps.observe(sample.caps_lock);
        self.num.observe(sample.num_lock);
        self.scroll.observe(sample.scroll_lock);

        let icon_w: i32 = 9;
        let gap: i32 = 1;
        let total_w = icon_w * 3 + gap * 2;
        let sx = self.width as i32 - total_w - 1;
        let start_x = if sx >= 0 {
            sx
        } else {
            0
        };
        let y: i32 = 1;

        let caps_anim: Option<(bool, bool, u8, u8)> = if self.caps.is_active() {
            Some((self.caps.from, self.caps.to, self.caps.step, self.caps.len))
        } else {
            None
        };
        let ghost pre_caps = self.canvas;
        self.draw_chevron(start_x, y, true, sample.caps_lock, caps_anim);
        proof {
            lemma_chevron_grid(
                pre_caps,
                self.canvas,
                true,
                sample.caps_lock,
                caps_anim,
                start_x as int,
                y as int,
            );
        }
        self.caps.advance();

        let num_x = start_x + icon_w + gap;
        self.draw_padlock(num_x, y, icon_w, sample.num_lock);

        let scrl_x = num_x + icon_w + gap;
        let scroll_anim: Option<(bool, bool, u8, u8)> = if self.scroll.is_active() {
            Some((self.scroll.from, self.scroll.to, self.scroll.step, self.scroll.len))
        } else {
            None
        };
        let ghost pre_scroll = self.canvas;
        self.draw_chevron(scrl_x, y, false, sample.scroll_lock, scroll_anim);
        proof {
            lemma_chevron_grid(
                pre_scroll,
                self.canvas,
                false,
                sample.scroll_lock,
                scroll_anim,
                scrl_x as int,
                y as int,
            );
        }
        self.scroll.advance();
    }
}


/// The two network readout lines: value texts left-aligned one pixel in,
/// unit letters right-aligned at a fixed column; the upload line sits one
/// pixel below the widget top, the download line nine pixels further down.
pub open spec fn spec_network_hits(
    pos: Position,
    up_bps: int,
    down_bps: int,
    a: int,
    b: int,
) -> bool {
    let right_edge = pos.x + pos.w - 5;
    ||| text_hits(
        seq!['U', ' '] + crate::numfmt::spec_speed_value(up_bps),
        pos.x + 1,
        pos.y + 1,
        1,
        a,
        b,
    )
    ||| text_hits(
        seq![crate::numfmt::spec_speed_unit(up_bps)],
        right_edge,
        pos.y + 1,
        1,
        a,
        b,
    )
    ||| text_hits(
        seq!['D', ' '] + crate::numfmt::spec_speed_value(down_bps),
        pos.x + 1,
        pos.y + 10,
        1,
        a,
        b,
    )
    ||| text_hits(
        seq![crate::numfmt::spec_speed_unit(down_bps)],
        right_edge,
        pos.y + 10,
        1,
        a,
        b,
    )
}

impl DashboardRenderer {
    /// Network widget: two tiny-font lines, `U <value>` and `D <value>`,
    /// with each line's unit letter right-aligned independently of the value
    /// width.
    fn draw_network(&mut self, widget: &Widget, sample: &MetricsSample)
        requires
            old(self).wf(),
            spec_pos_ok(widget.position),
        ensures
            final(self).wf(),
            final(self).same_dims(old(self)),
            final(self).history_state() == old(self).history_state(),
            final(self).volume_state() == old(self).volume_state(),
            final(self).caps_state() == old(self).caps_state(),
            final(self).num_state() == old(self).num_state(),
            final(self).scroll_state() == old(self).scroll_state(),
            forall|a: int, b: int|
                #![trigger final(self).canvas_view().pix(a, b)]
                final(self).canvas_view().in_bounds(a, b) ==> final(self).canvas_view().pix(a, b)
                    == (if spec_network_hits(
                    widget.position,
                    sample.net_up_bps as int,
                    sample.net_down_bps as int,
                    a,
                    b,
                ) {
                    1u8
                } else {
                    old(self).canvas_view().pix(a, b)
                }),
    {
        let pos = &widget.position;
        let char_w: i32 = 5;
        let right_edge = pos.x + pos.w - char_w;

        let up_val = crate::numfmt::speed_value_text(sample.net_up_bps);
        let dn_val = crate::numfmt::speed_value_text(sample.net_down_bps);

        let mut up_line = String::new();
        up_line.push('U');
        up_line.push(' ');
        up_line.append(up_val.as_str());
        let mut dn_line = String::new();
        dn_line.push('D');
        dn_line.push(' ');
        dn_line.append(dn_val.as_str());

        let mut up_unit = String::new();
        up_unit.push(crate::numfmt::speed_unit_char(sample.net_up_bps));
        let mut dn_unit = String::new();
        dn_unit.push(crate::numfmt::speed_unit_char(sample.net_down_bps));

        proof {
            assert(up_line@ =~= seq!['U', ' '] + crate::numfmt::spec_speed_value(
                sample.net_up_bps as int,
            ));
            assert(dn_line@ =~= seq!['D', ' '] + crate::numfmt::spec_speed_value(
                sample.net_down_bps as int,
            ));
            assert(up_unit@ =~= seq![crate::numfmt::spec_speed_unit(sample.net_up_bps as int)]);
            assert(dn_unit@ =~= seq![crate::numfmt::spec_speed_unit(sample.net_down_bps as int)]);
        }

        self.canvas.draw_text_tiny(pos.x + 1, pos.y + 1, up_line.as_str());
        self.canvas.draw_text_tiny(right_edge, pos.y + 1, up_unit.as_str());
        self.canvas.draw_text_tiny(pos.x + 1, pos.y + 10, dn_line.as_str());
        self.canvas.draw_text_tiny(right_edge, pos.y + 10, dn_unit.as_str());
    }
}


/// The column heights as mathematical integers.
pub open spec fn cols_ints(s: Seq<i32>) -> Seq<int> {
    s.map_values(|v: i32| v as int)
}

/// Vertical pixel of one sample in the graph: the widget's bottom row,
/// lifted by the clamped sample's share of the inner height (truncated).
pub open spec fn spec_graph_vy(pos: Position, v: u32) -> int {
    pos.y + pos.h - 1 - (spec_clamp_pm(v as int) * (pos.h - 1)) / 10000
}

/// Column heights of the graph after the first `i` samples, along with the
/// next free column and the previous sample's height: one segment per
/// consecutive sample pair, each segment ending at the column its sample
/// maps to across the widget width, with the columns in between linearly
/// interpolated between the two heights and rounded to the nearest pixel.
pub open spec fn spec_graph_state(hist: Seq<u32>, pos: Position, i: int) -> (Seq<int>, int, int)
    decreases i,
{
    if i <= 1 {
        (Seq::<int>::empty(), pos.x as int, spec_graph_vy(pos, hist[0]))
    } else {
        let prev = spec_graph_state(hist, pos, i - 1);
        let cols = prev.0;
        let px = prev.1;
        let pvy = prev.2;
        let xi = pos.x + (i - 1) * (pos.w - 1) / (hist.len() - 1);
        let vy = spec_graph_vy(pos, hist[i - 1]);
        let dx = xi - px;
        let seg = if dx < 0 {
            Seq::<int>::empty()
        } else {
            Seq::new(
                (dx + 1) as nat,
                |j: int|
                    pvy + crate::spec_round_div(
                        j * (vy - pvy),
                        if dx == 0 {
                            1
                        } else {
                            dx
                        },
                    ),
            )
        };
        (cols + seg, xi + 1, vy)
    }
}

/// The column heights of the whole graph.
pub open spec fn spec_graph_cols(hist: Seq<u32>, pos: Position) -> Seq<int> {
    spec_graph_state(hist, pos, hist.len() as int).0
}

/// Whether the graph covers pixel `(a, b)`: within a graph column, either
/// the solid pixel at the interpolated height, or, below it down to the
/// widget's bottom row, the checkerboard dither of even-parity pixels.
pub open spec fn spec_graph_hits(cols: Seq<int>, pos: Position, a: int, b: int) -> bool {
    let k = a - pos.x;
    &&& 0 <= k < cols.len()
    &&& {
        let ly = cols[k];
        b == ly || (ly + 1 <= b <= pos.y + pos.h - 1 && (a + b) % 2 == 0)
    }
}

/// One sample's height on the graph.
fn graph_vy(pos: &Position, v: u32) -> (r: i32)
    requires
        spec_pos_ok(*pos),
        pos.h >= 2,
    ensures
        r == spec_graph_vy(*pos, v),
        pos.y <= r <= pos.y + pos.h - 1,
{
    let c: u32 = if v > 10000 {
        10000
    } else {
        v
    };
    proof {
        assert(0 <= (c as int) * (pos.h - 1) && (c as int) * (pos.h - 1) <= 1000000000 && 0 <= (
        c as int) * (pos.h - 1) / 10000 <= pos.h - 1) by (nonlinear_arith)
            requires
                0 <= c as int <= 10000,
                1 <= (pos.h as int) - 1 <= 100000,
        ;
    }
    let lift = ((c as u64) * ((pos.h - 1) as u64) / 10000) as i32;
    pos.y + pos.h - 1 - lift
}

/// The interpolated column heights of the graph over the history.
fn graph_columns(pos: &Position, hist: &SampleHistory) -> (r: Vec<i32>)
    requires
        spec_pos_ok(*pos),
        pos.w >= 2,
        pos.h >= 2,
        2 <= hist.view_seq().len() <= 1000000,
    ensures
        cols_ints(r@) == spec_graph_cols(hist.view_seq(), *pos),
        forall|k: int| 0 <= k < r@.len() ==> pos.y <= #[trigger] r@[k] <= pos.y + pos.h - 1,
        r@.len() <= pos.w,
    decreases 0int,
{
    let ghost hseq = hist.view_seq();
    let n = hist.len();
    let mut cols: Vec<i32> = Vec::new();
    let mut prev_x: i32 = pos.x;
    let mut prev_vy: i32 = graph_vy(pos, hist.get(0));
    let mut i: usize = 1;
    while i < n
        invariant
            spec_pos_ok(*pos),
            pos.w >= 2,
            pos.h >= 2,
            hseq == hist.view_seq(),
            2 <= n <= 1000000,
            n == hseq.len(),
            1 <= i <= n,
            cols_ints(cols@) == spec_graph_state(hseq, *pos, i as int).0,
            prev_x as int == spec_graph_state(hseq, *pos, i as int).1,
            prev_vy as int == spec_graph_state(hseq, *pos, i as int).2,
            pos.y <= prev_vy <= pos.y + pos.h - 1,
            pos.x <= prev_x <= pos.x + pos.w,
            cols@.len() == prev_x - pos.x,
            forall|k: int| 0 <= k < cols@.len() ==> pos.y <= #[trigger] cols@[k] <= pos.y + pos.h
                - 1,
        decreases n - i,
    {
        proof {
            assert((i as int) * (pos.w as int - 1) <= (n as int - 1) * (pos.w as int - 1)) by (
            nonlinear_arith)
                requires
                    1 <= i as int <= n as int - 1,
                    pos.w as int - 1 >= 1,
            ;
            assert(0 <= (i as int) * (pos.w as int - 1) / (n as int - 1) <= pos.w as int - 1) by (
            nonlinear_arith)
                requires
                    0 <= (i as int) * (pos.w as int - 1) <= (n as int - 1) * (pos.w as int - 1),
                    n as int - 1 >= 1,
            ;
        }
        proof {
            if i >= 2 {
                lemma_mul_inequality(i as int - 1, i as int, pos.w as int - 1);
                lemma_div_is_ordered(
                    (i as int - 1) * (pos.w as int - 1),
                    (i as int) * (pos.w as int - 1),
                    n as int - 1,
                );
                assert(0 <= (i as int - 1) * (pos.w as int - 1)) by (nonlinear_arith)
                    requires
                        i as int >= 2,
                        pos.w as int >= 2,
                ;
            }
        }
        proof {
            assert(0 <= (i as int) * (pos.w as int - 1) <= 1000000 * 100000) by (nonlinear_arith)
                requires
                    0 <= i as int <= 1000000,
                    1 <= pos.w as int - 1 <= 100000,
            ;
        }
        let xi64: i64 = (pos.x as i64) + ((i as i64) * ((pos.w - 1) as i64)) / ((n - 1) as i64);
        let xi: i32 = xi64 as i32;
        let vy = graph_vy(pos, hist.get(i));
        let ghost st_next = spec_graph_state(hseq, *pos, i as int + 1);
        let dx64: i64 = (xi as i64) - (prev_x as i64);
        if dx64 >= 0 {
            let dx: i32 = dx64 as i32;
            let dd: i32 = vy - prev_vy;
            let ghost seg = Seq::new(
                (dx + 1) as nat,
                |j: int|
                    (prev_vy as int) + crate::spec_round_div(
                        j * (vy as int - prev_vy as int),
                        if dx == 0 {
                            1int
                        } else {
                            dx as int
                        },
                    ),
            );
            let ghost cols0 = cols@;
            let mut j: i32 = 0;
            while j <= dx
                invariant
                    0 <= j <= dx + 1,
                    0 <= dx <= 100000,
                    -100000 <= dd <= 100000,
                    dd == vy - prev_vy,
                    -100000 <= pos.y <= 100000,
                    2 <= pos.h <= 100000,
                    pos.y <= prev_vy <= pos.y + pos.h - 1,
                    pos.y <= vy <= pos.y + pos.h - 1,
                    seg == Seq::new(
                        (dx + 1) as nat,
                        |j2: int|
                            (prev_vy as int) + crate::spec_round_div(
                                j2 * (dd as int),
                                if dx == 0 {
                                    1int
                                } else {
                                    dx as int
                                },
                            ),
                    ),
                    cols_ints(cols@) == cols_ints(cols0)
                        + seg.take(j as int),
                    cols@.len() == cols0.len() + j,
                    forall|k: int| 0 <= k < cols@.len() ==> pos.y <= #[trigger] cols@[k] <= pos.y
                        + pos.h - 1,
                decreases dx + 1 - j,
            {
                let den: i32 = if dx == 0 {
                    1
                } else {
                    dx
                };
                proof {
                    assert(-20000000000 <= (j as int) * (dd as int) <= 20000000000) by (
                    nonlinear_arith)
                        requires
                            0 <= j as int <= 100000,
                            -100000 <= dd as int <= 100000,
                    ;
                }
                let num: i64 = (j as i64) * (dd as i64);
                let off64 = crate::boot::round_div_i64(num, den as i64);
                proof {
                    if dd >= 0 {
                        assert(0 <= (j as int) * (dd as int) && ((j as int) * (dd as int)
                            + den as int / 2) / (den as int) <= dd as int) by (nonlinear_arith)
                            requires
                                1 <= den as int,
                                0 <= j as int <= den as int,
                                0 <= dd as int,
                        ;
                        assert(0 <= off64 <= dd as int);
                    } else {
                        assert((j as int) * (dd as int) <= 0 && (-((j as int) * (dd as int))
                            + den as int / 2) / (den as int) <= -(dd as int)) by (nonlinear_arith)
                            requires
                                1 <= den as int,
                                0 <= j as int <= den as int,
                                (dd as int) < 0,
                        ;
                        assert(dd as int <= off64 <= 0);
                    }
                }
                let off: i32 = off64 as i32;
                let ly: i32 = prev_vy + off;
                let ghost cols_prev = cols@;
                cols.push(ly);
                proof {
                    assert(ly as int == seg[j as int]);
                    assert(cols@ == cols_prev.push(ly));
                    assert(seg.take(j as int + 1) =~= seg.take(j as int).push(seg[j as int]));
                    assert(cols_ints(cols_prev) == cols_ints(cols0) + seg.take(j as int));
                    assert(cols_ints(cols@).len() == cols_ints(cols0).len() + j + 1);
                    assert forall|ii: int| 0 <= ii < cols_ints(cols@).len() implies cols_ints(
                        cols@,
                    )[ii] == (cols_ints(cols0) + seg.take(j as int + 1))[ii] by {
                        assert(cols_ints(cols@)[ii] == cols@[ii] as int);
                        if ii < cols_prev.len() {
                            assert(cols@[ii] == cols_prev[ii]);
                            assert(cols_ints(cols_prev)[ii] == cols_prev[ii] as int);
                            assert(cols_ints(cols_prev)[ii] == (cols_ints(cols0) + seg.take(
                                j as int,
                            ))[ii]);
                        } else {
                            assert(cols@[ii] == ly);
                        }
                    }
                    assert(cols_ints(cols@) =~= cols_ints(cols0) + seg.take(j as int + 1));
                }
                j = j + 1;
            }
            proof {
                assert(seg.take(dx as int + 1) =~= seg);
            }
        }
        proof {
            assert(st_next.0 =~= spec_graph_state(hseq, *pos, i as int).0 + (if (xi as int)
                - spec_graph_state(hseq, *pos, i as int).1 < 0 {
                Seq::<int>::empty()
            } else {
                Seq::new(
                    ((xi as int) - spec_graph_state(hseq, *pos, i as int).1 + 1) as nat,
                    |j2: int|
                        (prev_vy as int) + crate::spec_round_div(
                            j2 * (vy as int - prev_vy as int),
                            if (xi as int) - spec_graph_state(hseq, *pos, i as int).1 == 0 {
                                1int
                            } else {
                                (xi as int) - spec_graph_state(hseq, *pos, i as int).1
                            },
                        ),
                )
            }));
            if dx64 < 0 {
                assert(cols_ints(cols@) =~= st_next.0);
            }
        }
        prev_x = xi + 1;
        prev_vy = vy;
        i = i + 1;
    }
    proof {
        assert(cols_ints(cols@).len() == cols@.len());
    }
    cols
}

/// Memory graph: a dithered area chart of the history over the widget
/// rectangle, column heights linearly interpolated between the sample
/// points, a solid one-pixel line at the interpolated height, even-parity
/// checkerboard fill below it. Fewer than two samples, or a degenerate
/// rectangle, draw nothing.
fn draw_graph_canvas(canvas: &mut Canvas, pos: &Position, hist: &SampleHistory)
    requires
        old(canvas).wf(),
        spec_pos_ok(*pos),
        hist.view_seq().len() <= 1000000,
    ensures
        final(canvas).wf(),
        final(canvas).same_dims(old(canvas)),
        hist.view_seq().len() < 2 || pos.w <= 1 || pos.h <= 1 ==> final(canvas).grid() == old(
            canvas,
        ).grid(),
        hist.view_seq().len() >= 2 && pos.w >= 2 && pos.h >= 2 ==> forall|a: int, b: int|
            #![trigger final(canvas).pix(a, b)]
            final(canvas).in_bounds(a, b) ==> final(canvas).pix(a, b) == (if spec_graph_hits(
                spec_graph_cols(hist.view_seq(), *pos),
                *pos,
                a,
                b,
            ) {
                1u8
            } else {
                old(canvas).pix(a, b)
            }),
{
    if hist.len() < 2 || pos.w <= 1 || pos.h <= 1 {
        return ;
    }
    let cols = graph_columns(pos, hist);
    let ghost gcols = spec_graph_cols(hist.view_seq(), *pos);
    let bottom = pos.y + pos.h - 1;
    let count = cols.len();
    let mut ci: usize = 0;
    while ci < count
        invariant
            old(canvas).wf(),
            canvas.wf(),
            canvas.same_dims(old(canvas)),
            spec_pos_ok(*pos),
            pos.w >= 2,
            pos.h >= 2,
            bottom == pos.y + pos.h - 1,
            count == cols@.len(),
            count <= pos.w,
            0 <= ci <= count,
            cols_ints(cols@) == gcols,
            gcols.len() == count,
            forall|k: int| 0 <= k < count ==> pos.y <= #[trigger] cols@[k] <= bottom,
            forall|a: int, b: int|
                #![trigger canvas.pix(a, b)]
                canvas.in_bounds(a, b) ==> canvas.pix(a, b) == (if spec_graph_hits(
                    gcols,
                    *pos,
                    a,
                    b,
                ) && a < pos.x + ci {
                    1u8
                } else {
                    old(canvas).pix(a, b)
                }),
        decreases count - ci,
    {
        let cx = pos.x + (ci as i32);
        let ly = cols[ci];
        let mut fy: i32 = ly + 1;
        while fy <= bottom
            invariant
                old(canvas).wf(),
                canvas.wf(),
                canvas.same_dims(old(canvas)),
                spec_pos_ok(*pos),
                bottom == pos.y + pos.h - 1,
                count == cols@.len(),
                count <= pos.w,
                0 <= ci < count,
                cx == pos.x + ci,
                cols_ints(cols@) == gcols,
                gcols.len() == count,
                ly == cols@[ci as int],
                pos.y <= ly <= bottom,
                ly + 1 <= fy <= bottom + 1,
                forall|a: int, b: int|
                    #![trigger canvas.pix(a, b)]
                    canvas.in_bounds(a, b) ==> canvas.pix(a, b) == (if spec_graph_hits(
                        gcols,
                        *pos,
                        a,
                        b,
                    ) && (a < pos.x + ci || (a == cx && ly + 1 <= b < fy)) {
                        1u8
                    } else {
                        old(canvas).pix(a, b)
                    }),
            decreases bottom + 1 - fy,
        {
            let sum = cx + fy;
            let even: bool = if sum >= 0 {
                sum % 2 == 0
            } else {
                (-sum) % 2 == 0
            };
            proof {
                assert((((sum as int) % 2) == 0) == (((-(sum as int)) % 2) == 0)) by (
                nonlinear_arith);
            }
            if even {
                let ghost prev = *canvas;
                canvas.set(cx, fy, true);
                proof {
                    crate::canvas::lemma_plot_pix(
                        prev,
                        *canvas,
                        cx as int,
                        fy as int,
                        1u8,
                        false,
                    );
                }
            }
            fy = fy + 1;
        }
        let ghost prev = *canvas;
        canvas.set(cx, ly, true);
        proof {
            crate::canvas::lemma_plot_pix(prev, *canvas, cx as int, ly as int, 1u8, false);
        }
        ci = ci + 1;
    }
    proof {
        assert forall|a: int, b: int|
            canvas.in_bounds(a, b) implies #[trigger] canvas.pix(a, b) == (if spec_graph_hits(
            gcols,
            *pos,
            a,
            b,
        ) {
            1u8
        } else {
            old(canvas).pix(a, b)
        }) by {
            if spec_graph_hits(gcols, *pos, a, b) {
                assert(a - pos.x < gcols.len());
                assert(a < pos.x + count);
            }
        }
    }
}


/// Samples the memory graph's history keeps: the configured length, or the
/// widget width when none is configured, at least 2 and, as a machine limit
/// on the graph arithmetic, at most a million.
pub open spec fn spec_history_cap(w: Widget) -> int {
    let base: int = match w.graph {
        Some(g) => g.history as int,
        None => if w.position.w >= 1 {
            w.position.w as int
        } else {
            1
        },
    };
    let c = if base < 2 {
        2
    } else {
        base
    };
    if c > 1000000 {
        1000000
    } else {
        c
    }
}

/// The memory readout: the percentage rounded to whole percent, right-aligned
/// to three characters, with a percent sign appended.
pub open spec fn spec_memory_text(mem_pm: int) -> Seq<char> {
    crate::numfmt::spec_volume_digits((spec_clamp_pm(mem_pm) + 50) / 100).push('%')
}

/// The volume value a tick observes: the snapshot's percentage rounded to
/// whole percent, clamped to 0..=100.
pub open spec fn spec_volume_now(pm: int) -> int {
    (spec_clamp_pm(pm) + 50) / 100
}

impl DashboardRenderer {
    /// Memory widget: pushes the sample into the bounded history, draws the
    /// dithered area graph over it, and a right-aligned percent readout one
    /// pixel below the widget top.
    fn draw_memory(&mut self, widget: &Widget, sample: &MetricsSample)
        requires
            old(self).wf(),
            spec_pos_ok(widget.position),
        ensures
            final(self).wf(),
            final(self).same_dims(old(self)),
            final(self).volume_state() == old(self).volume_state(),
            final(self).caps_state() == old(self).caps_state(),
            final(self).num_state() == old(self).num_state(),
            final(self).scroll_state() == old(self).scroll_state(),
            final(self).history_state() == recent(
                old(self).history_state().push(sample.mem_percent),
                spec_history_cap(*widget),
            ),
            forall|a: int, b: int|
                #![trigger final(self).canvas_view().pix(a, b)]
                final(self).canvas_view().in_bounds(a, b) ==> final(self).canvas_view().pix(a, b)
                    == (if (final(self).history_state().len() >= 2 && widget.position.w >= 2
                    && widget.position.h >= 2 && spec_graph_hits(
                    spec_graph_cols(final(self).history_state(), widget.position),
                    widget.position,
                    a,
                    b,
                )) || text_hits(
                    spec_memory_text(sample.mem_percent as int),
                    widget.position.x + widget.position.w - 21,
                    widget.position.y + 1,
                    1,
                    a,
                    b,
                ) {
                    1u8
                } else {
                    old(self).canvas_view().pix(a, b)
                }),
    {
        let pos = &widget.position;
        let base: usize = match &widget.graph {
            Some(g) => g.history,
            None => if pos.w >= 1 {
                pos.w as usize
            } else {
                1
            },
        };
        let c0: usize = if base < 2 {
            2
        } else {
            base
        };
        let cap: usize = if c0 > 1000000 {
            1000000
        } else {
            c0
        };
        self.mem_history.push(sample.mem_percent, cap);
        draw_graph_canvas(&mut self.canvas, pos, &self.mem_history);

        let clamped: u32 = if sample.mem_percent > 10000 {
            10000
        } else {
            sample.mem_percent
        };
        let rounded: i32 = ((clamped + 50) / 100) as i32;
        let digits = crate::numfmt::volume_digits(rounded);
        let mut text = String::new();
        text.push(digits[0]);
        text.push(digits[1]);
        text.push(digits[2]);
        text.push('%');
        proof {
            assert(text@ =~= spec_memory_text(sample.mem_percent as int));
        }
        let text_x = pos.x + pos.w - 21;
        self.canvas.draw_text_tiny(text_x, pos.y + 1, text.as_str());
    }

    /// Volume widget: observes the rounded volume, draws the bar (horizontal
    /// and bordered by default), the optional speaker icon with 0-3 wave
    /// arcs, and the right-aligned three-digit percent readout, whose digits
    /// slide out and in while a unit step of the counter is mid-flight; then
    /// advances the counter by this tick's unit budget.
    /// Speaker icon of the volume widget; see `spec_speaker_grid`.
    #[verifier::rlimit(100)]
    fn draw_speaker(&mut self, pos: &Position, pm: u32)
        requires
            old(self).wf(),
            spec_pos_ok(*pos),
        ensures
            final(self).wf(),
            final(self).same_dims(old(self)),
            final(self).history_state() == old(self).history_state(),
            final(self).volume_state() == old(self).volume_state(),
            final(self).caps_state() == old(self).caps_state(),
            final(self).num_state() == old(self).num_state(),
            final(self).scroll_state() == old(self).scroll_state(),
            final(self).canvas_view().grid() == spec_speaker_grid(
                old(self).canvas_view().grid(),
                old(self).w(),
                old(self).h(),
                *pos,
                pm as int,
            ),
    {
        let cx = pos.x + 2;
        let top = pos.y + 3;
        let bot = pos.y + pos.h - 4;
        let cy = pos.y + pos.h / 2;
        let half = div_trunc(bot - top, 2);
        let body_w: i32 = 3;
        let body_half = div_trunc(half * 2, 3);

        // Speaker driver: a small filled rectangle.
        let ghost pre_body = self.canvas;
        self.canvas.rect_fill_invert(cx, cy - body_half, body_w, body_half * 2 + 1);
        proof {
            lemma_rect_inv_grid(
                pre_body,
                self.canvas,
                cx as int,
                (cy - body_half) as int,
                3,
                (body_half * 2 + 1) as int,
            );
        }
        // Cone: a triangle expanding right from the driver.
        self.canvas.line_invert(cx + body_w, cy - body_half, cx + body_w + 3, top);
        self.canvas.line_invert(cx + body_w, cy + body_half, cx + body_w + 3, bot);
        self.canvas.line_invert(cx + body_w + 3, top, cx + body_w + 3, bot);

        // Sound wave arcs: none when muted, one up to a third, two up to
        // two thirds, three above that.
        let wave_count: i32 = if pm == 0 {
            0
        } else if pm <= 3300 {
            1
        } else if pm <= 6600 {
            2
        } else {
            3
        };
        if wave_count >= 1 {
            let w1_x = cx + body_w + 5;
            let w1_h = div_trunc(half, 3);
            let ghost pre_w1 = self.canvas;
            self.canvas.rect_fill_invert(w1_x, cy - w1_h, 1, 2 * w1_h + 1);
            proof {
                lemma_rect_inv_grid(
                    pre_w1,
                    self.canvas,
                    w1_x as int,
                    (cy - w1_h) as int,
                    1,
                    (2 * w1_h + 1) as int,
                );
            }
        }
        if wave_count >= 2 {
            let w2_x = cx + body_w + 7;
            let w2_h = div_trunc(half * 2, 3);
            let ghost pre_w2 = self.canvas;
            self.canvas.rect_fill_invert(w2_x, cy - w2_h, 1, 2 * w2_h + 1);
            proof {
                lemma_rect_inv_grid(
                    pre_w2,
                    self.canvas,
                    w2_x as int,
                    (cy - w2_h) as int,
                    1,
                    (2 * w2_h + 1) as int,
                );
            }
        }
        if wave_count >= 3 {
            let w3_x = cx + body_w + 9;
            let ghost pre_w3 = self.canvas;
            self.canvas.rect_fill_invert(w3_x, cy - half, 1, 2 * half + 1);
            proof {
                lemma_rect_inv_grid(
                    pre_w3,
                    self.canvas,
                    w3_x as int,
                    (cy - half) as int,
                    1,
                    (2 * half + 1) as int,
                );
            }
        }
    }

    /// Right-aligned volume readout; see `spec_volume_readout_grid`.
    #[verifier::rlimit(100)]
    fn draw_volume_readout(&mut self, pos: &Position, show_icon: bool, bordered: bool, now: i32)
        requires
            old(self).wf(),
            spec_pos_ok(*pos),
            0 <= now <= 100,
        ensures
            final(self).wf(),
            final(self).same_dims(old(self)),
            final(self).history_state() == old(self).history_state(),
            final(self).volume_state() == old(self).volume_state(),
            final(self).caps_state() == old(self).caps_state(),
            final(self).num_state() == old(self).num_state(),
            final(self).scroll_state() == old(self).scroll_state(),
            final(self).canvas_view().grid() == spec_volume_readout_grid(
                old(self).canvas_view().grid(),
                old(self).w(),
                old(self).h(),
                *pos,
                show_icon,
                bordered,
                old(self).volume_state(),
                now as int,
            ),
    {
        let ghost shown_spec: int = if old(self).volume_state().display is Some {
            old(self).volume_state().display.unwrap() as int
        } else {
            now as int
        };
        let scale: i32 = 2;
        let char_w: i32 = 10;
        let text_px: i32 = 40;
        let text_h: i32 = 10;
        let left_bound = pos.x + (if show_icon {
            14
        } else {
            1
        });
        let right_bound = pos.x + pos.w - 2;
        let mut text_x = right_bound - text_px + 1;
        if text_x < left_bound {
            text_x = left_bound;
        }
        let hdiff = div_trunc(pos.h - text_h, 2);
        let base_y = pos.y + (if hdiff >= 0 {
            hdiff
        } else {
            0
        });
        let clip_x = if bordered {
            pos.x + 1
        } else {
            pos.x
        };
        let clip_y = if bordered {
            pos.y + 1
        } else {
            pos.y
        };
        let clip_w = if bordered {
            pos.w - 2
        } else {
            pos.w
        };
        let clip_h = if bordered {
            pos.h - 2
        } else {
            pos.h
        };
        let text_clip_y = if base_y >= clip_y {
            base_y
        } else {
            clip_y
        };
        let tcb0 = base_y + text_h - 1;
        let tcb1 = clip_y + clip_h - 1;
        let text_clip_bottom = if tcb0 <= tcb1 {
            tcb0
        } else {
            tcb1
        };
        let tch = text_clip_bottom - text_clip_y + 1;
        let text_clip_h = if tch >= 0 {
            tch
        } else {
            0
        };

        if self.volume.is_animating() {
            let increasing = self.volume.step_to > self.volume.step_from;
            let dir: i32 = if increasing {
                -1
            } else {
                1
            };
            let old_digits = crate::numfmt::volume_digits(self.volume.step_from);
            let new_digits = crate::numfmt::volume_digits(self.volume.step_to);
            let len = self.volume.len;
            let leave_frames: i32 = if (len / 2) as i32 >= 1 {
                (len / 2) as i32
            } else {
                1
            };
            let mut enter_frames: i32 = len as i32 - leave_frames - 1;
            if enter_frames < 1 {
                enter_frames = 1;
            }
            let step_now: i32 = self.volume.step as i32;

            let mut slot: usize = 0;
            while slot < 3
                invariant
                    self.wf(),
                    self.same_dims(old(self)),
                    self.history_state() == old(self).history_state(),
                    self.caps_state() == old(self).caps_state(),
                    self.num_state() == old(self).num_state(),
                    self.scroll_state() == old(self).scroll_state(),
                    self.volume == old(self).volume_state(),
                    old(self).volume_state().wf(),
                    old(self).volume_state().spec_animating(),
                    0 <= slot <= 3,
                    -400000 <= text_x <= 400000,
                    -400000 <= base_y <= 400000,
                    -400000 <= clip_x <= 400000,
                    -400000 <= text_clip_y <= 400000,
                    -400000 <= clip_w <= 400000,
                    0 <= text_clip_h <= 400000,
                    1 <= leave_frames <= 255,
                    1 <= enter_frames <= 255,
                    0 <= step_now <= 255,
                    dir == 1 || dir == -1,
                    old_digits@ == crate::numfmt::spec_volume_digits(old(self).volume_state().step_from as int),
                    new_digits@ == crate::numfmt::spec_volume_digits(old(self).volume_state().step_to as int),
                    dir as int == (if old(self).volume_state().step_to > old(self).volume_state().step_from {
                        -1int
                    } else {
                        1int
                    }),
                    leave_frames as int == (if old(self).volume_state().len as int / 2 >= 1 {
                        old(self).volume_state().len as int / 2
                    } else {
                        1int
                    }),
                    enter_frames as int == ({
                        let e0 = old(self).volume_state().len - leave_frames as int - 1;
                        if e0 < 1 {
                            1int
                        } else {
                            e0
                        }
                    }),
                    step_now == old(self).volume_state().step,
                    self.canvas_view().grid() == spec_volume_slots(
                        old(self).canvas_view().grid(),
                        old(self).w(),
                        old(self).h(),
                        slot as int,
                        text_x as int,
                        base_y as int,
                        clip_x as int,
                        clip_w as int,
                        text_clip_y as int,
                        text_clip_h as int,
                        old(self).volume_state(),
                        shown_spec,
                    ),
                decreases 3 - slot,
            {
                let slot_x = text_x + (slot as i32) * 10;
                let slot_clip_x = if slot_x >= clip_x {
                    slot_x
                } else {
                    clip_x
                };
                let scr0 = slot_x + 9;
                let scr1 = clip_x + clip_w - 1;
                let slot_clip_right = if scr0 <= scr1 {
                    scr0
                } else {
                    scr1
                };
                let scw = slot_clip_right - slot_clip_x + 1;
                let slot_clip_w = if scw >= 0 {
                    scw
                } else {
                    0
                };
                let from_ch = old_digits[slot];
                let to_ch = new_digits[slot];

                let ghost pre_slot = self.canvas;
                if from_ch == to_ch {
                    self.canvas.draw_char_scaled_invert_clipped(
                        slot_x,
                        base_y,
                        to_ch,
                        2,
                        slot_clip_x,
                        text_clip_y,
                        slot_clip_w,
                        text_clip_h,
                    );
                    proof {
                        lemma_char_inv_grid(
                            pre_slot,
                            self.canvas,
                            to_ch,
                            slot_x as int,
                            base_y as int,
                            2,
                            slot_clip_x as int,
                            text_clip_y as int,
                            slot_clip_w as int,
                            text_clip_h as int,
                        );
                    }
                } else if step_now < leave_frames {
                    let stp = step_now + 1;
                    let offset = (stp * 10) / leave_frames;
                    proof {
                        assert(0 <= (step_now as int + 1) * 10 / (leave_frames as int) <= 2560)
                            by (nonlinear_arith)
                            requires
                                1 <= leave_frames as int <= 255,
                                0 <= step_now as int <= 255,
                        ;
                    }
                    let shift_amt = if dir >= 0 {
                        offset
                    } else {
                        -offset
                    };
                    self.canvas.draw_char_scaled_invert_clipped(
                        slot_x,
                        base_y + shift_amt,
                        from_ch,
                        2,
                        slot_clip_x,
                        text_clip_y,
                        slot_clip_w,
                        text_clip_h,
                    );
                    proof {
                        lemma_char_inv_grid(
                            pre_slot,
                            self.canvas,
                            from_ch,
                            slot_x as int,
                            (base_y + shift_amt) as int,
                            2,
                            slot_clip_x as int,
                            text_clip_y as int,
                            slot_clip_w as int,
                            text_clip_h as int,
                        );
                    }
                } else if step_now < leave_frames + 1 {
                    // Handoff frame: nothing drawn, avoids overlap flicker.
                } else {
                    let stp = step_now - leave_frames - 1 + 1;
                    let offset0 = (stp * 10) / enter_frames;
                    proof {
                        assert(0 <= (step_now as int - leave_frames as int) * 10 / (
                        enter_frames as int) <= 2560) by (nonlinear_arith)
                            requires
                                1 <= enter_frames as int <= 255,
                                0 <= step_now as int - leave_frames as int <= 255,
                        ;
                    }
                    let offset = 10 - offset0;
                    let shift_amt = if dir >= 0 {
                        offset
                    } else {
                        -offset
                    };
                    self.canvas.draw_char_scaled_invert_clipped(
                        slot_x,
                        base_y - shift_amt,
                        to_ch,
                        2,
                        slot_clip_x,
                        text_clip_y,
                        slot_clip_w,
                        text_clip_h,
                    );
                    proof {
                        lemma_char_inv_grid(
                            pre_slot,
                            self.canvas,
                            to_ch,
                            slot_x as int,
                            (base_y - shift_amt) as int,
                            2,
                            slot_clip_x as int,
                            text_clip_y as int,
                            slot_clip_w as int,
                            text_clip_h as int,
                        );
                    }
                }
                proof {
                    assert(self.canvas_view().grid() == spec_volume_slots(
                        old(self).canvas_view().grid(),
                        old(self).w(),
                        old(self).h(),
                        slot as int + 1,
                        text_x as int,
                        base_y as int,
                        clip_x as int,
                        clip_w as int,
                        text_clip_y as int,
                        text_clip_h as int,
                        old(self).volume_state(),
                        shown_spec,
                    ));
                }
                slot = slot + 1;
            }

            // The percent sign is never animated.
            let percent_x = text_x + 30;
            let percent_clip_x = if percent_x >= clip_x {
                percent_x
            } else {
                clip_x
            };
            let pcr0 = percent_x + 9;
            let pcr1 = clip_x + clip_w - 1;
            let percent_clip_right = if pcr0 <= pcr1 {
                pcr0
            } else {
                pcr1
            };
            let pcw = percent_clip_right - percent_clip_x + 1;
            let percent_clip_w = if pcw >= 0 {
                pcw
            } else {
                0
            };
            let ghost pre_pct = self.canvas;
            self.canvas.draw_char_scaled_invert_clipped(
                percent_x,
                base_y,
                '%',
                scale,
                percent_clip_x,
                text_clip_y,
                percent_clip_w,
                text_clip_h,
            );
            proof {
                lemma_char_inv_grid(
                    pre_pct,
                    self.canvas,
                    '%',
                    percent_x as int,
                    base_y as int,
                    2,
                    percent_clip_x as int,
                    text_clip_y as int,
                    percent_clip_w as int,
                    text_clip_h as int,
                );
            }
        } else {
            let shown = match self.volume.display {
                Some(v) => v,
                None => now,
            };
            let digits = crate::numfmt::volume_digits(shown);
            let mut slot: usize = 0;
            while slot < 3
                invariant
                    self.wf(),
                    self.same_dims(old(self)),
                    self.history_state() == old(self).history_state(),
                    self.caps_state() == old(self).caps_state(),
                    self.num_state() == old(self).num_state(),
                    self.scroll_state() == old(self).scroll_state(),
                    self.volume == old(self).volume_state(),
                    !old(self).volume_state().spec_animating(),
                    0 <= slot <= 3,
                    -400000 <= text_x <= 400000,
                    -400000 <= base_y <= 400000,
                    -400000 <= clip_x <= 400000,
                    -400000 <= text_clip_y <= 400000,
                    -400000 <= clip_w <= 400000,
                    0 <= text_clip_h <= 400000,
                    digits@ == crate::numfmt::spec_volume_digits(shown_spec),
                    self.canvas_view().grid() == spec_volume_slots(
                        old(self).canvas_view().grid(),
                        old(self).w(),
                        old(self).h(),
                        slot as int,
                        text_x as int,
                        base_y as int,
                        clip_x as int,
                        clip_w as int,
                        text_clip_y as int,
                        text_clip_h as int,
                        old(self).volume_state(),
                        shown_spec,
                    ),
                decreases 3 - slot,
            {
                let slot_x = text_x + (slot as i32) * 10;
                let slot_clip_x = if slot_x >= clip_x {
                    slot_x
                } else {
                    clip_x
                };
                let scr0 = slot_x + 9;
                let scr1 = clip_x + clip_w - 1;
                let slot_clip_right = if scr0 <= scr1 {
                    scr0
                } else {
                    scr1
                };
                let scw = slot_clip_right - slot_clip_x + 1;
                let slot_clip_w = if scw >= 0 {
                    scw
                } else {
                    0
                };
                let ghost pre_slot = self.canvas;
                self.canvas.draw_char_scaled_invert_clipped(
                    slot_x,
                    base_y,
                    digits[slot],
                    2,
                    slot_clip_x,
                    text_clip_y,
                    slot_clip_w,
                    text_clip_h,
                );
                proof {
                    lemma_char_inv_grid(
                        pre_slot,
                        self.canvas,
                        digits@[slot as int],
                        slot_x as int,
                        base_y as int,
                        2,
                        slot_clip_x as int,
                        text_clip_y as int,
                        slot_clip_w as int,
                        text_clip_h as int,
                    );
                    assert(self.canvas_view().grid() == spec_volume_slots(
                        old(self).canvas_view().grid(),
                        old(self).w(),
                        old(self).h(),
                        slot as int + 1,
                        text_x as int,
                        base_y as int,
                        clip_x as int,
                        clip_w as int,
                        text_clip_y as int,
                        text_clip_h as int,
                        old(self).volume_state(),
                        shown_spec,
                    ));
                }
                slot = slot + 1;
            }
            let percent_x = text_x + 30;
            let percent_clip_x = if percent_x >= clip_x {
                percent_x
            } else {
                clip_x
            };
            let pcr0 = percent_x + 9;
            let pcr1 = clip_x + clip_w - 1;
            let percent_clip_right = if pcr0 <= pcr1 {
                pcr0
            } else {
                pcr1
            };
            let pcw = percent_clip_right - percent_clip_x + 1;
            let percent_clip_w = if pcw >= 0 {
                pcw
            } else {
                0
            };
            let ghost pre_pct = self.canvas;
            self.canvas.draw_char_scaled_invert_clipped(
                percent_x,
                base_y,
                '%',
                scale,
                percent_clip_x,
                text_clip_y,
                percent_clip_w,
                text_clip_h,
            );
            proof {
                lemma_char_inv_grid(
                    pre_pct,
                    self.canvas,
                    '%',
                    percent_x as int,
                    base_y as int,
                    2,
                    percent_clip_x as int,
                    text_clip_y as int,
                    percent_clip_w as int,
                    text_clip_h as int,
                );
            }
        }
        proof {
            assert(self.canvas_view().grid() == spec_volume_readout_grid(
                old(self).canvas_view().grid(),
                old(self).w(),
                old(self).h(),
                *pos,
                show_icon,
                bordered,
                old(self).volume_state(),
                now as int,
            ));
        }
    }

    fn draw_volume(&mut self, widget: &Widget, sample: &MetricsSample)
        requires
            old(self).wf(),
            spec_pos_ok(widget.position),
        ensures
            final(self).wf(),
            final(self).same_dims(old(self)),
            final(self).history_state() == old(self).history_state(),
            final(self).caps_state() == old(self).caps_state(),
            final(self).num_state() == old(self).num_state(),
            final(self).scroll_state() == old(self).scroll_state(),
            final(self).volume_state() == ({
                let st1 = crate::transition::spec_roll_observe(
                    old(self).volume_state(),
                    spec_volume_now(sample.volume_percent as int),
                );
                crate::transition::spec_roll_step_n(
                    st1,
                    crate::transition::spec_roll_speed(st1) as nat,
                )
            }),
            final(self).canvas_view().grid() == spec_volume_grid(
                old(self).canvas_view().grid(),
                old(self).w(),
                old(self).h(),
                widget.position,
                widget.show_icon,
                widget.bar,
                sample.volume_percent as int,
                crate::transition::spec_roll_observe(
                    old(self).volume_state(),
                    spec_volume_now(sample.volume_percent as int),
                ),
                spec_volume_now(sample.volume_percent as int),
            ),
    {
        let ghost g0 = self.canvas.grid();
        let pos = &widget.position;
        let clamped: u32 = if sample.volume_percent > 10000 {
            10000
        } else {
            sample.volume_percent
        };
        let now: i32 = ((clamped + 50) / 100) as i32;
        self.volume.observe(now);
        let ghost st1 = self.volume;

        let direction = match &widget.bar {
            Some(bc) => bc.direction,
            None => BarDirection::Horizontal,
        };
        let bordered = match &widget.bar {
            Some(bc) => bc.border,
            None => true,
        };
        let ghost pre_bar = self.canvas;
        self.draw_bar(pos, sample.volume_percent, direction, bordered);
        proof {
            lemma_bar_grid(
                pre_bar,
                self.canvas,
                widget.position,
                sample.volume_percent as int,
                direction,
                bordered,
            );
        }

        if widget.show_icon {
            self.draw_speaker(pos, sample.volume_percent);
        }
        let ghost g2v = self.canvas.grid();
        proof {
            assert(g2v == ({
                let g1 = bar_grid(
                    g0,
                    old(self).w(),
                    old(self).h(),
                    widget.position,
                    sample.volume_percent as int,
                    direction,
                    bordered,
                );
                if widget.show_icon {
                    spec_speaker_grid(
                        g1,
                        old(self).w(),
                        old(self).h(),
                        widget.position,
                        sample.volume_percent as int,
                    )
                } else {
                    g1
                }
            }));
        }
        self.draw_volume_readout(pos, widget.show_icon, bordered, now);
        proof {
            assert(self.canvas_view().grid() == spec_volume_grid(
                g0,
                old(self).w(),
                old(self).h(),
                widget.position,
                widget.show_icon,
                widget.bar,
                sample.volume_percent as int,
                st1,
                now as int,
            ));
        }
        self.volume.advance();
    }
}

/// Whether a widget rectangle is drawable; see `spec_pos_ok`.
fn pos_ok(pos: &Position) -> (r: bool)
    ensures
        r == spec_pos_ok(*pos),
{
    -POS_LIMIT <= pos.x && pos.x <= POS_LIMIT && -POS_LIMIT <= pos.y && pos.y <= POS_LIMIT && 0
        < pos.w && pos.w <= POS_LIMIT && 0 < pos.h && pos.h <= POS_LIMIT
}

impl DashboardRenderer {
    /// Renders one frame: clears to the configured background, draws the
    /// boot sequence alone while `elapsed_ms` is inside the boot duration
    /// (leaving every widget's animation state untouched), and after that
    /// hard cutover dispatches each enabled, well-formed widget in
    /// configuration order; returns the packed frame, which encodes the
    /// final framebuffer bit for bit.
    pub fn render(&mut self, config: &DashboardConfig, sample: &MetricsSample, elapsed_ms: u64) -> (out: Vec<u8>)
        requires
            old(self).wf(),
        ensures
            final(self).wf(),
            final(self).same_dims(old(self)),
            out@.len() == (final(self).w() * final(self).h() + 7) / 8,
            forall|k: int|
                0 <= k < final(self).w() * final(self).h() ==> (bit_of(
                    #[trigger] out@[k / 8],
                    7 - (k % 8),
                ) <==> final(self).frame_grid()[k] == 1),
            forall|k: int|
                final(self).w() * final(self).h() <= k < 8 * out@.len() ==> !bit_of(
                    #[trigger] out@[k / 8],
                    7 - (k % 8),
                ),
            boot_active(elapsed_ms) ==> final(self).frame_grid() == crate::boot::spec_boot_grid(
                crate::canvas::clear_grid(
                    (final(self).w() * final(self).h()) as nat,
                    config.display.background > 0,
                ),
                final(self).w(),
                final(self).h(),
                ((elapsed_ms * 10000) / (BOOT_DURATION_MS as int)) as int,
            ),
            boot_active(elapsed_ms) ==> final(self).history_state() == old(self).history_state()
                && final(self).volume_state() == old(self).volume_state() && final(self).caps_state()
                == old(self).caps_state() && final(self).num_state() == old(self).num_state()
                && final(self).scroll_state() == old(self).scroll_state(),
            !boot_active(elapsed_ms) ==> ({
                let r = spec_widgets_fold(
                    crate::canvas::clear_grid(
                        (old(self).w() * old(self).h()) as nat,
                        config.display.background > 0,
                    ),
                    old(self).w(),
                    old(self).h(),
                    old(self).history_state(),
                    old(self).volume_state(),
                    old(self).caps_state(),
                    old(self).num_state(),
                    old(self).scroll_state(),
                    config.widgets@,
                    *sample,
                    config.widgets@.len() as int,
                );
                &&& final(self).frame_grid() == r.0
                &&& final(self).history_state() == r.1
                &&& final(self).volume_state() == r.2
                &&& final(self).caps_state() == r.3
                &&& final(self).num_state() == r.4
                &&& final(self).scroll_state() == r.5
            }),
    {
        self.canvas.clear(config.display.background > 0);
        proof {
            assert(self.canvas.grid() =~= crate::canvas::clear_grid(
                (old(self).w() * old(self).h()) as nat,
                config.display.background > 0,
            ));
        }

        if elapsed_ms < BOOT_DURATION_MS {
            let progress: u32 = ((elapsed_ms * 10000) / BOOT_DURATION_MS) as u32;
            boot::draw_boot_logo(&mut self.canvas, progress);
            return self.canvas.to_packed_bytes();
        }
        let ghost g_clear = self.canvas.grid();
        let n = config.widgets.len();
        let mut i: usize = 0;
        while i < n
            invariant
                self.wf(),
                self.same_dims(old(self)),
                n == config.widgets@.len(),
                0 <= i <= n,
                ({
                    let r = spec_widgets_fold(
                        g_clear,
                        old(self).w(),
                        old(self).h(),
                        old(self).history_state(),
                        old(self).volume_state(),
                        old(self).caps_state(),
                        old(self).num_state(),
                        old(self).scroll_state(),
                        config.widgets@,
                        *sample,
                        i as int,
                    );
                    &&& self.frame_grid() == r.0
                    &&& self.history_state() == r.1
                    &&& self.volume_state() == r.2
                    &&& self.caps_state() == r.3
                    &&& self.num_state() == r.4
                    &&& self.scroll_state() == r.5
                }),
            decreases n - i,
        {
            let wdg = &config.widgets[i];
            if wdg.enabled && pos_ok(&wdg.position) {
                match wdg.kind {
                    WidgetKind::Cpu => {
                        let ghost pre = self.canvas;
                        self.draw_cpu(wdg, sample);
                        proof {
                            lemma_cpu_grid(
                                pre,
                                self.canvas,
                                wdg.position,
                                sample.cpu_percent as int,
                                wdg.bar,
                            );
                        }
                    },
                    WidgetKind::Volume => self.draw_volume(wdg, sample),
                    WidgetKind::Memory => {
                        let ghost pre = self.canvas;
                        self.draw_memory(wdg, sample);
                        proof {
                            lemma_memory_grid(
                                pre,
                                self.canvas,
                                wdg.position,
                                self.history_state(),
                                sample.mem_percent as int,
                            );
                        }
                    },
                    WidgetKind::Network => {
                        let ghost pre = self.canvas;
                        self.draw_network(wdg, sample);
                        proof {
                            lemma_network_grid(
                                pre,
                                self.canvas,
                                wdg.position,
                                sample.net_up_bps as int,
                                sample.net_down_bps as int,
                            );
                        }
                    },
                    WidgetKind::Keyboard => self.draw_keyboard(wdg, sample),
                    WidgetKind::Other => {},
                }
            }
            i = i + 1;
        }
        self.canvas.to_packed_bytes()
    }
}


/// The grid after drawing a bar widget: border (when asked for) and
/// proportional fill, on a `w x h` canvas.
pub open spec fn bar_grid(
    g: Seq<u8>,
    w: int,
    h: int,
    pos: Position,
    pm: int,
    direction: BarDirection,
    border: bool,
) -> Seq<u8> {
    Seq::new(
        g.len(),
        |i: int|
            if w > 0 && spec_bar_hits(pos, pm, direction, border, i % w, i / w) {
                1u8
            } else {
                g[i]
            },
    )
}

/// Bridges `draw_bar`'s pixel-by-pixel contract to its grid equation.
proof fn lemma_bar_grid(
    c0: Canvas,
    c1: Canvas,
    pos: Position,
    pm: int,
    direction: BarDirection,
    border: bool,
)
    requires
        c0.wf(),
        c1.wf(),
        c1.same_dims(&c0),
        forall|a: int, b: int|
            #![trigger c1.pix(a, b)]
            c1.in_bounds(a, b) ==> c1.pix(a, b) == (if spec_bar_hits(
                pos,
                pm,
                direction,
                border,
                a,
                b,
            ) {
                1u8
            } else {
                c0.pix(a, b)
            }),
    ensures
        c1.grid() == bar_grid(c0.grid(), c0.w(), c0.h(), pos, pm, direction, border),
{
    let target = bar_grid(c0.grid(), c0.w(), c0.h(), pos, pm, direction, border);
    assert forall|i: int| 0 <= i < c1.grid().len() implies c1.grid()[i] == target[i] by {
        crate::canvas::lemma_cell_of_index(c0, c1, i);
    }
    assert(c1.grid() =~= target);
}

/// The grid after drawing one lock-key arrow at `(x, y)`.
pub open spec fn chevron_grid(
    g: Seq<u8>,
    w: int,
    h: int,
    up: bool,
    on: bool,
    anim: Option<(bool, bool, u8, u8)>,
    x: int,
    y: int,
) -> Seq<u8> {
    Seq::new(
        g.len(),
        |i: int|
            if w > 0 && spec_chevron_hits(up, on, anim, x, y, i % w, i / w) {
                1u8
            } else {
                g[i]
            },
    )
}

/// Bridges `draw_chevron`'s pixel-by-pixel contract to its grid equation.
proof fn lemma_chevron_grid(
    c0: Canvas,
    c1: Canvas,
    up: bool,
    on: bool,
    anim: Option<(bool, bool, u8, u8)>,
    x: int,
    y: int,
)
    requires
        c0.wf(),
        c1.wf(),
        c1.same_dims(&c0),
        forall|a: int, b: int|
            #![trigger c1.pix(a, b)]
            c1.in_bounds(a, b) ==> c1.pix(a, b) == (if spec_chevron_hits(up, on, anim, x, y, a, b) {
                1u8
            } else {
                c0.pix(a, b)
            }),
    ensures
        c1.grid() == chevron_grid(c0.grid(), c0.w(), c0.h(), up, on, anim, x, y),
{
    let target = chevron_grid(c0.grid(), c0.w(), c0.h(), up, on, anim, x, y);
    assert forall|i: int| 0 <= i < c1.grid().len() implies c1.grid()[i] == target[i] by {
        crate::canvas::lemma_cell_of_index(c0, c1, i);
    }
    assert(c1.grid() =~= target);
}

/// The blend tuple a transition hands the arrow blitter: its endpoints and
/// progress while it is active, nothing once it has settled.
pub open spec fn spec_chevron_anim(st: ToggleTransition) -> Option<(bool, bool, u8, u8)> {
    if st.spec_active() {
        Some((st.from, st.to, st.step, st.len))
    } else {
        None
    }
}

/// The grid after drawing the padlock at `(x, y)`, `pw` pixels wide, with
/// the given shackle openness: a filled body with one cleared keyhole pixel
/// when the lock is on, a bordered body when off; then the shackle's left
/// side, its top arc lifted by the openness, and its right side — full
/// height when closed or nearly closed, a two-pixel stub while open.
pub open spec fn spec_padlock_grid(
    g: Seq<u8>,
    w: int,
    h: int,
    x: int,
    y: int,
    pw: int,
    on: bool,
    openness: int,
) -> Seq<u8> {
    let body = if on {
        crate::canvas::plot(
            crate::canvas::rect_fill_grid(g, w, h, x + 1, y + 6, pw - 2, 5, 1),
            w,
            h,
            x + pw / 2,
            y + 8,
            0,
            false,
        )
    } else {
        crate::canvas::rect_border_grid(g, w, h, x + 1, y + 6, pw - 2, 5, 1)
    };
    let stop = y + 2 - openness;
    let left = x + 2;
    let right = x + pw - 3;
    let g1 = crate::canvas::line_spec(body, w, h, left, y + 6, left, stop + 1, 1, false);
    let g2 = crate::canvas::line_spec(g1, w, h, left + 1, stop, right - 1, stop, 1, false);
    if openness <= 1 {
        crate::canvas::line_spec(g2, w, h, right, stop + 1, right, y + 6, 1, false)
    } else {
        crate::canvas::line_spec(g2, w, h, right, stop + openness, right, stop + openness + 1, 1, false)
    }
}


/// The grid after drawing the speaker icon into a volume widget: the driver
/// rectangle and the cone's three lines, all inverted, then zero to three
/// vertical wave arcs by loudness — one up to a third, two up to two thirds,
/// three above that, none when muted.
pub open spec fn spec_speaker_grid(g: Seq<u8>, w: int, h: int, pos: Position, pm: int) -> Seq<u8> {
    let cx = pos.x as int + 2;
    let top = pos.y as int + 3;
    let bot = pos.y + pos.h - 4;
    let cy = pos.y + pos.h as int / 2;
    let half = spec_div_trunc(bot - top, 2);
    let body_half = spec_div_trunc(half * 2, 3);
    let ga = crate::canvas::rect_inv_grid(g, w, h, cx, cy - body_half, 3, body_half * 2 + 1);
    let gb = crate::canvas::line_spec(ga, w, h, cx + 3, cy - body_half, cx + 6, top, 0, true);
    let gc = crate::canvas::line_spec(gb, w, h, cx + 3, cy + body_half, cx + 6, bot, 0, true);
    let gd = crate::canvas::line_spec(gc, w, h, cx + 6, top, cx + 6, bot, 0, true);
    let wave_count: int = if pm == 0 {
        0
    } else if pm <= 3300 {
        1
    } else if pm <= 6600 {
        2
    } else {
        3
    };
    let w1h = spec_div_trunc(half, 3);
    let w2h = spec_div_trunc(half * 2, 3);
    let ge = if wave_count >= 1 {
        crate::canvas::rect_inv_grid(gd, w, h, cx + 8, cy - w1h, 1, 2 * w1h + 1)
    } else {
        gd
    };
    let gf = if wave_count >= 2 {
        crate::canvas::rect_inv_grid(ge, w, h, cx + 10, cy - w2h, 1, 2 * w2h + 1)
    } else {
        ge
    };
    if wave_count >= 3 {
        crate::canvas::rect_inv_grid(gf, w, h, cx + 12, cy - half, 1, 2 * half + 1)
    } else {
        gf
    }
}

/// The grid after drawing readout slot `k` (0-based): while a unit step is
/// mid-flight, a changed digit leaves during the first half of the frames,
/// yields one blank handoff frame, then the new digit enters from the
/// opposite edge; unchanged digits, and every digit of a settled counter,
/// draw statically. Every plotted pixel is clipped to the given rectangle.
pub open spec fn spec_volume_slot_stage(
    g: Seq<u8>,
    w: int,
    h: int,
    k: int,
    text_x: int,
    base_y: int,
    clip_x: int,
    clip_w: int,
    tcy: int,
    tch: int,
    st: VolumeRoll,
    shown: int,
) -> Seq<u8> {
    let sx = text_x + k * 10;
    let scx = if sx >= clip_x {
        sx
    } else {
        clip_x
    };
    let scr0 = sx + 9;
    let scr1 = clip_x + clip_w - 1;
    let scr = if scr0 <= scr1 {
        scr0
    } else {
        scr1
    };
    let scw0 = scr - scx + 1;
    let scw = if scw0 >= 0 {
        scw0
    } else {
        0
    };
    if st.spec_animating() {
        let from_ch = crate::numfmt::spec_volume_digits(st.step_from as int)[k];
        let to_ch = crate::numfmt::spec_volume_digits(st.step_to as int)[k];
        let dir: int = if st.step_to > st.step_from {
            -1
        } else {
            1
        };
        let leave = if st.len as int / 2 >= 1 {
            st.len as int / 2
        } else {
            1
        };
        let enter0 = st.len - leave - 1;
        let enter = if enter0 < 1 {
            1
        } else {
            enter0
        };
        let step = st.step as int;
        if from_ch == to_ch {
            crate::canvas::char_inv_grid(g, w, h, to_ch, sx, base_y, 2, scx, tcy, scw, tch)
        } else if step < leave {
            let off = (step + 1) * 10 / leave;
            let sh = if dir >= 0 {
                off
            } else {
                -off
            };
            crate::canvas::char_inv_grid(g, w, h, from_ch, sx, base_y + sh, 2, scx, tcy, scw, tch)
        } else if step < leave + 1 {
            g
        } else {
            let off = 10 - (step - leave) * 10 / enter;
            let sh = if dir >= 0 {
                off
            } else {
                -off
            };
            crate::canvas::char_inv_grid(g, w, h, to_ch, sx, base_y - sh, 2, scx, tcy, scw, tch)
        }
    } else {
        crate::canvas::char_inv_grid(
            g,
            w,
            h,
            crate::numfmt::spec_volume_digits(shown)[k],
            sx,
            base_y,
            2,
            scx,
            tcy,
            scw,
            tch,
        )
    }
}

/// The first `n` readout slots drawn left to right.
pub open spec fn spec_volume_slots(
    g: Seq<u8>,
    w: int,
    h: int,
    n: int,
    text_x: int,
    base_y: int,
    clip_x: int,
    clip_w: int,
    tcy: int,
    tch: int,
    st: VolumeRoll,
    shown: int,
) -> Seq<u8>
    decreases n,
{
    if n <= 0 {
        g
    } else {
        spec_volume_slot_stage(
            spec_volume_slots(g, w, h, n - 1, text_x, base_y, clip_x, clip_w, tcy, tch, st, shown),
            w,
            h,
            n - 1,
            text_x,
            base_y,
            clip_x,
            clip_w,
            tcy,
            tch,
            st,
            shown,
        )
    }
}

/// The grid after the whole right-aligned readout: three digit slots and the
/// percent sign, which sits in the fourth slot and is never animated. The
/// readout's left edge is clamped right of the speaker icon (or one pixel in
/// without it), its pixels clipped to the widget's inner rectangle.
pub open spec fn spec_volume_readout_grid(
    g: Seq<u8>,
    w: int,
    h: int,
    pos: Position,
    show_icon: bool,
    bordered: bool,
    st: VolumeRoll,
    now: int,
) -> Seq<u8> {
    let left_bound = pos.x as int + (if show_icon {
        14int
    } else {
        1int
    });
    let right_bound = pos.x + pos.w - 2;
    let tx0 = right_bound - 40 + 1;
    let text_x = if tx0 < left_bound {
        left_bound
    } else {
        tx0
    };
    let hdiff = spec_div_trunc(pos.h - 10, 2);
    let base_y = pos.y as int + (if hdiff >= 0 {
        hdiff
    } else {
        0int
    });
    let clip_x: int = if bordered {
        pos.x + 1
    } else {
        pos.x as int
    };
    let clip_y: int = if bordered {
        pos.y + 1
    } else {
        pos.y as int
    };
    let clip_w: int = if bordered {
        pos.w - 2
    } else {
        pos.w as int
    };
    let clip_h: int = if bordered {
        pos.h - 2
    } else {
        pos.h as int
    };
    let tcy = if base_y >= clip_y {
        base_y
    } else {
        clip_y
    };
    let tcb0 = base_y + 9;
    let tcb1 = clip_y + clip_h - 1;
    let tcb = if tcb0 <= tcb1 {
        tcb0
    } else {
        tcb1
    };
    let tch0 = tcb - tcy + 1;
    let tch = if tch0 >= 0 {
        tch0
    } else {
        0int
    };
    let shown: int = if st.display is Some {
        st.display.unwrap() as int
    } else {
        now
    };
    let g3 = spec_volume_slots(g, w, h, 3, text_x, base_y, clip_x, clip_w, tcy, tch, st, shown);
    let px = text_x + 30;
    let pcx = if px >= clip_x {
        px
    } else {
        clip_x
    };
    let pcr0 = px + 9;
    let pcr1 = clip_x + clip_w - 1;
    let pcr = if pcr0 <= pcr1 {
        pcr0
    } else {
        pcr1
    };
    let pcw0 = pcr - pcx + 1;
    let pcw = if pcw0 >= 0 {
        pcw0
    } else {
        0int
    };
    crate::canvas::char_inv_grid(g3, w, h, '%', px, base_y, 2, pcx, tcy, pcw, tch)
}

/// The grid after the whole volume widget: the bar (horizontal and bordered
/// by default), the optional speaker icon, and the animated readout drawn
/// for the post-observation counter state `st`.
pub open spec fn spec_volume_grid(
    g: Seq<u8>,
    w: int,
    h: int,
    pos: Position,
    show_icon: bool,
    bar: Option<BarConfig>,
    pm: int,
    st: VolumeRoll,
    now: int,
) -> Seq<u8> {
    let direction = match bar {
        Some(bc) => bc.direction,
        None => BarDirection::Horizontal,
    };
    let bordered = match bar {
        Some(bc) => bc.border,
        None => true,
    };
    let g1 = bar_grid(g, w, h, pos, pm, direction, bordered);
    let g2 = if show_icon {
        spec_speaker_grid(g1, w, h, pos, pm)
    } else {
        g1
    };
    spec_volume_readout_grid(g2, w, h, pos, show_icon, bordered, st, now)
}


/// The grid after the keyboard widget: the caps-lock up arrow, the num-lock
/// padlock and the scroll-lock down arrow, right-aligned with a one-pixel
/// gap, each animated by its own freshly observed transition.
pub open spec fn spec_keyboard_grid(
    g: Seq<u8>,
    w: int,
    h: int,
    caps0: ToggleTransition,
    num0: ToggleTransition,
    scroll0: ToggleTransition,
    caps_lock: bool,
    num_lock: bool,
    scroll_lock: bool,
) -> Seq<u8> {
    let sx = w - 30;
    let start_x = if sx >= 0 {
        sx
    } else {
        0
    };
    let caps1 = crate::transition::spec_toggle_observe(caps0, caps_lock);
    let num1 = crate::transition::spec_toggle_observe(num0, num_lock);
    let scroll1 = crate::transition::spec_toggle_observe(scroll0, scroll_lock);
    let g1 = chevron_grid(g, w, h, true, caps_lock, spec_chevron_anim(caps1), start_x, 1);
    let g2 = spec_padlock_grid(
        g1,
        w,
        h,
        start_x + 10,
        1,
        9,
        num_lock,
        spec_padlock_openness(num_lock, num1),
    );
    chevron_grid(g2, w, h, false, scroll_lock, spec_chevron_anim(scroll1), start_x + 20, 1)
}

/// The grid after the CPU widget: the bar, then the chip icon inverted over
/// it, centered two pixels below the widget's top.
pub open spec fn spec_cpu_grid(
    g: Seq<u8>,
    w: int,
    h: int,
    pos: Position,
    pm: int,
    bar: Option<BarConfig>,
) -> Seq<u8> {
    let dir = match bar {
        Some(bc) => bc.direction,
        None => BarDirection::Vertical,
    };
    let bordered = match bar {
        Some(bc) => bc.border,
        None => false,
    };
    Seq::new(
        g.len(),
        |i: int|
            if w > 0 {
                let mid: int = if spec_bar_hits(pos, pm, dir, bordered, i % w, i / w) {
                    1
                } else {
                    g[i] as int
                };
                (if bits_hit(CHIP_BITS, 8, 9, spec_chip_x(pos), pos.y + 2, i % w, i / w) {
                    1 - mid
                } else {
                    mid
                }) as u8
            } else {
                g[i]
            },
    )
}

/// Bridges `draw_cpu`'s pixel-by-pixel contract to its grid equation.
proof fn lemma_cpu_grid(
    c0: Canvas,
    c1: Canvas,
    pos: Position,
    pm: int,
    bar: Option<BarConfig>,
)
    requires
        c0.wf(),
        c1.wf(),
        c1.same_dims(&c0),
        forall|a: int, b: int|
            #![trigger c1.pix(a, b)]
            c1.in_bounds(a, b) ==> c1.pix(a, b) as int == ({
                let dir = match bar {
                    Some(bc) => bc.direction,
                    None => BarDirection::Vertical,
                };
                let bordered = match bar {
                    Some(bc) => bc.border,
                    None => false,
                };
                let mid: int = if spec_bar_hits(pos, pm, dir, bordered, a, b) {
                    1
                } else {
                    c0.pix(a, b) as int
                };
                if bits_hit(CHIP_BITS, 8, 9, spec_chip_x(pos), pos.y + 2, a, b) {
                    1 - mid
                } else {
                    mid
                }
            }),
    ensures
        c1.grid() == spec_cpu_grid(c0.grid(), c0.w(), c0.h(), pos, pm, bar),
{
    let target = spec_cpu_grid(c0.grid(), c0.w(), c0.h(), pos, pm, bar);
    assert forall|i: int| 0 <= i < c1.grid().len() implies c1.grid()[i] == target[i] by {
        crate::canvas::lemma_cell_of_index(c0, c1, i);
    }
    assert(c1.grid() =~= target);
}

/// The grid after the memory widget, drawn over the history as it stands
/// after this tick's sample was pushed: the dithered area graph (when at
/// least two samples and a two-by-two rectangle exist) and the right-aligned
/// percent readout.
pub open spec fn spec_memory_grid(
    g: Seq<u8>,
    w: int,
    h: int,
    pos: Position,
    hist: Seq<u32>,
    mem_pm: int,
) -> Seq<u8> {
    Seq::new(
        g.len(),
        |i: int|
            if w > 0 && ((hist.len() >= 2 && pos.w >= 2 && pos.h >= 2 && spec_graph_hits(
                spec_graph_cols(hist, pos),
                pos,
                i % w,
                i / w,
            )) || text_hits(
                spec_memory_text(mem_pm),
                pos.x + pos.w - 21,
                pos.y + 1,
                1,
                i % w,
                i / w,
            )) {
                1u8
            } else {
                g[i]
            },
    )
}

/// Bridges `draw_memory`'s pixel-by-pixel contract to its grid equation.
proof fn lemma_memory_grid(
    c0: Canvas,
    c1: Canvas,
    pos: Position,
    hist: Seq<u32>,
    mem_pm: int,
)
    requires
        c0.wf(),
        c1.wf(),
        c1.same_dims(&c0),
        forall|a: int, b: int|
            #![trigger c1.pix(a, b)]
            c1.in_bounds(a, b) ==> c1.pix(a, b) == (if (hist.len() >= 2 && pos.w >= 2 && pos.h >= 2
                && spec_graph_hits(spec_graph_cols(hist, pos), pos, a, b)) || text_hits(
                spec_memory_text(mem_pm),
                pos.x + pos.w - 21,
                pos.y + 1,
                1,
                a,
                b,
            ) {
                1u8
            } else {
                c0.pix(a, b)
            }),
    ensures
        c1.grid() == spec_memory_grid(c0.grid(), c0.w(), c0.h(), pos, hist, mem_pm),
{
    let target = spec_memory_grid(c0.grid(), c0.w(), c0.h(), pos, hist, mem_pm);
    assert forall|i: int| 0 <= i < c1.grid().len() implies c1.grid()[i] == target[i] by {
        crate::canvas::lemma_cell_of_index(c0, c1, i);
    }
    assert(c1.grid() =~= target);
}

/// The grid after the network widget: its two readout lines.
pub open spec fn spec_network_grid(
    g: Seq<u8>,
    w: int,
    h: int,
    pos: Position,
    up_bps: int,
    down_bps: int,
) -> Seq<u8> {
    Seq::new(
        g.len(),
        |i: int|
            if w > 0 && spec_network_hits(pos, up_bps, down_bps, i % w, i / w) {
                1u8
            } else {
                g[i]
            },
    )
}

/// Bridges `draw_network`'s pixel-by-pixel contract to its grid equation.
proof fn lemma_network_grid(
    c0: Canvas,
    c1: Canvas,
    pos: Position,
    up_bps: int,
    down_bps: int,
)
    requires
        c0.wf(),
        c1.wf(),
        c1.same_dims(&c0),
        forall|a: int, b: int|
            #![trigger c1.pix(a, b)]
            c1.in_bounds(a, b) ==> c1.pix(a, b) == (if spec_network_hits(
                pos,
                up_bps,
                down_bps,
                a,
                b,
            ) {
                1u8
            } else {
                c0.pix(a, b)
            }),
    ensures
        c1.grid() == spec_network_grid(c0.grid(), c0.w(), c0.h(), pos, up_bps, down_bps),
{
    let target = spec_network_grid(c0.grid(), c0.w(), c0.h(), pos, up_bps, down_bps);
    assert forall|i: int| 0 <= i < c1.grid().len() implies c1.grid()[i] == target[i] by {
        crate::canvas::lemma_cell_of_index(c0, c1, i);
    }
    assert(c1.grid() =~= target);
}


/// One widget's effect on the frame and the animation state: a disabled
/// widget, an unknown kind or a malformed rectangle changes nothing, and the
/// five known kinds draw as their grid specs say while stepping only their
/// own animation state.
pub open spec fn spec_widget_step(
    g: Seq<u8>,
    w: int,
    h: int,
    hist: Seq<u32>,
    vol: VolumeRoll,
    caps: ToggleTransition,
    num: ToggleTransition,
    scroll: ToggleTransition,
    wdg: Widget,
    sample: MetricsSample,
) -> (Seq<u8>, Seq<u32>, VolumeRoll, ToggleTransition, ToggleTransition, ToggleTransition) {
    if !(wdg.enabled && spec_pos_ok(wdg.position)) {
        (g, hist, vol, caps, num, scroll)
    } else {
        match wdg.kind {
            WidgetKind::Cpu => (
                spec_cpu_grid(g, w, h, wdg.position, sample.cpu_percent as int, wdg.bar),
                hist,
                vol,
                caps,
                num,
                scroll,
            ),
            WidgetKind::Volume => {
                let now = spec_volume_now(sample.volume_percent as int);
                let st1 = crate::transition::spec_roll_observe(vol, now);
                (
                    spec_volume_grid(
                        g,
                        w,
                        h,
                        wdg.position,
                        wdg.show_icon,
                        wdg.bar,
                        sample.volume_percent as int,
                        st1,
                        now,
                    ),
                    hist,
                    crate::transition::spec_roll_step_n(
                        st1,
                        crate::transition::spec_roll_speed(st1) as nat,
                    ),
                    caps,
                    num,
                    scroll,
                )
            },
            WidgetKind::Memory => {
                let hist2 = recent(hist.push(sample.mem_percent), spec_history_cap(wdg));
                (
                    spec_memory_grid(g, w, h, wdg.position, hist2, sample.mem_percent as int),
                    hist2,
                    vol,
                    caps,
                    num,
                    scroll,
                )
            },
            WidgetKind::Network => (
                spec_network_grid(
                    g,
                    w,
                    h,
                    wdg.position,
                    sample.net_up_bps as int,
                    sample.net_down_bps as int,
                ),
                hist,
                vol,
                caps,
                num,
                scroll,
            ),
            WidgetKind::Keyboard => (
                spec_keyboard_grid(
                    g,
                    w,
                    h,
                    caps,
                    num,
                    scroll,
                    sample.caps_lock,
                    sample.num_lock,
                    sample.scroll_lock,
                ),
                hist,
                vol,
                crate::transition::spec_toggle_tick(caps, sample.caps_lock),
                crate::transition::spec_toggle_tick(num, sample.num_lock),
                crate::transition::spec_toggle_tick(scroll, sample.scroll_lock),
            ),
            WidgetKind::Other => (g, hist, vol, caps, num, scroll),
        }
    }
}

/// The first `n` widgets of the configuration dispatched in order, starting
/// from a cleared frame and this tick's incoming animation state.
pub open spec fn spec_widgets_fold(
    g: Seq<u8>,
    w: int,
    h: int,
    hist: Seq<u32>,
    vol: VolumeRoll,
    caps: ToggleTransition,
    num: ToggleTransition,
    scroll: ToggleTransition,
    ws: Seq<Widget>,
    sample: MetricsSample,
    n: int,
) -> (Seq<u8>, Seq<u32>, VolumeRoll, ToggleTransition, ToggleTransition, ToggleTransition)
    decreases n,
{
    if n <= 0 {
        (g, hist, vol, caps, num, scroll)
    } else {
        let prev = spec_widgets_fold(g, w, h, hist, vol, caps, num, scroll, ws, sample, n - 1);
        spec_widget_step(
            prev.0,
            w,
            h,
            prev.1,
            prev.2,
            prev.3,
            prev.4,
            prev.5,
            ws[n - 1],
            sample,
        )
    }
}

} // verus!
