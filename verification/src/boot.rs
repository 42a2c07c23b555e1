//! Time-driven boot animation: a rotating dotted ring, a gear whose teeth
//! appear one by one, a pulsing center star, and a finale with a dissipating
//! ring, a spark burst and a shine sweep. All geometry is integer
//! fixed-point: angles in degrees, a rational sine scaled by 1024, radii in
//! hundredths of a pixel, and progress in hundredths of a percent. The
//! fade-out drops pixels by a deterministic hash of a per-element seed, so
//! identical timing always produces identical frames; the frame is a pure
//! function of progress and canvas size, pinned by `spec_boot_grid`.

use vstd::prelude::*;
use crate::canvas::Canvas;
use crate::canvas::line_spec;
use crate::canvas::plot;
use crate::dashboard::spec_div_trunc;
use crate::spec_round_div;

verus! {

/// Full progress, in hundredths of a percent.
pub const PROGRESS_FULL: u32 = 10000;

/// The rational sine approximation on 0..=180 degrees, scaled by 1024:
/// `4 d (180 - d) * 1024 / (40500 - d (180 - d))`, exact at 0, 90 and 180
/// and within a fraction of a percent in between.
pub open spec fn spec_sin_half(d: int) -> int {
    (4 * d * (180 - d) * 1024) / (40500 - d * (180 - d))
}

/// Fixed-point sine of an angle in degrees (0..360), scaled by 1024.
pub open spec fn spec_sin_fp(deg: int) -> int {
    if deg <= 180 {
        spec_sin_half(deg)
    } else {
        -spec_sin_half(deg - 180)
    }
}

/// Fixed-point cosine of an angle in degrees (0..360), scaled by 1024.
pub open spec fn spec_cos_fp(deg: int) -> int {
    spec_sin_fp((deg + 90) % 360)
}

/// Fixed-point sine, scaled by 1024, of an angle in whole degrees.
pub fn sin_fp(deg: i32) -> (r: i32)
    requires
        0 <= deg < 360,
    ensures
        r == spec_sin_fp(deg as int),
        -1024 <= r <= 1024,
{
    let d: u64 = if deg <= 180 {
        deg as u64
    } else {
        (deg - 180) as u64
    };
    proof {
        assert(0 <= (d as int) * (180 - d as int) <= 8100) by (nonlinear_arith)
            requires
                0 <= d as int <= 180,
        ;
    }
    let prod: u64 = d * (180 - d);
    let num: u64 = 4 * prod * 1024;
    let den: u64 = 40500 - prod;
    let s: u64 = num / den;
    proof {
        assert(0 <= (num as int) / (den as int) <= 1024) by (nonlinear_arith)
            requires
                0 <= num as int <= 4 * 8100 * 1024,
                den as int >= 32400,
        ;
        assert(4 * (d as int) * (180 - d as int) * 1024 == 4 * (prod as int) * 1024) by (
        nonlinear_arith)
            requires
                prod as int == (d as int) * (180 - d as int),
        ;
        assert(s as int == spec_sin_half(d as int));
    }
    if deg <= 180 {
        s as i32
    } else {
        -(s as i32)
    }
}

/// Fixed-point cosine, scaled by 1024, of an angle in whole degrees.
pub fn cos_fp(deg: i32) -> (r: i32)
    requires
        0 <= deg < 360,
    ensures
        r == spec_cos_fp(deg as int),
        -1024 <= r <= 1024,
{
    sin_fp((deg + 90) % 360)
}

/// Reduces any angle to 0..360 degrees.
pub fn ang_norm(deg: i64) -> (r: i32)
    requires
        -1000000000 <= deg <= 1000000000,
    ensures
        r as int == (deg as int) % 360,
        0 <= r < 360,
{
    // Shift by a multiple of a full turn so the remainder is nonnegative.
    let shifted = deg + 1080000000;
    let m = shifted % 360;
    proof {
        vstd::arithmetic::div_mod::lemma_mod_multiples_vanish(3000000, deg as int, 360);
    }
    m as i32
}

/// Whether a boot element's pixel survives the dissolve: its per-seed noise,
/// a deterministic hash into 0..100, must exceed the dissolve threshold
/// (in hundredths of a percent). A threshold of zero keeps everything.
pub open spec fn spec_keep(seed: int, dpm: int) -> bool {
    dpm == 0 || ((seed * 37 + 17) % 100) * 100 > dpm
}

/// Dissolve test; see `spec_keep`.
pub fn dissolve_keep(seed: u32, dissolve_pm: u32) -> (r: bool)
    requires
        seed <= 1000,
    ensures
        r == spec_keep(seed as int, dissolve_pm as int),
{
    if dissolve_pm == 0 {
        return true;
    }
    let noise = (seed * 37 + 17) % 100;
    noise * 100 > dissolve_pm
}

/// The pixel at angle `deg` and radius `r100` (hundredths of a pixel) from
/// `(cx, cy)`, each coordinate rounded to the nearest pixel.
pub open spec fn spec_polar(cx: int, cy: int, deg: int, r100: int) -> (int, int) {
    (
        cx + spec_round_div(spec_cos_fp(deg) * r100, 102400),
        cy + spec_round_div(spec_sin_fp(deg) * r100, 102400),
    )
}

/// Polar-to-pixel conversion; see `spec_polar`.
fn polar_point(cx: i32, cy: i32, deg: i32, r100: i32) -> (p: (i32, i32))
    requires
        0 <= deg < 360,
        0 <= r100 <= 10000,
        -100000 <= cx <= 100000,
        -100000 <= cy <= 100000,
    ensures
        p.0 as int == spec_polar(cx as int, cy as int, deg as int, r100 as int).0,
        p.1 as int == spec_polar(cx as int, cy as int, deg as int, r100 as int).1,
        -200000 <= p.0 <= 200000,
        -200000 <= p.1 <= 200000,
{
    let c = cos_fp(deg) as i64;
    let s = sin_fp(deg) as i64;
    proof {
        assert(-1024 * 10000 <= c * (r100 as int) <= 1024 * 10000) by (nonlinear_arith)
            requires
                -1024 <= c <= 1024,
                0 <= r100 as int <= 10000,
        ;
        assert(-1024 * 10000 <= s * (r100 as int) <= 1024 * 10000) by (nonlinear_arith)
            requires
                -1024 <= s <= 1024,
                0 <= r100 as int <= 10000,
        ;
    }
    let dx = round_div_i64(c * (r100 as i64), 102400);
    let dy = round_div_i64(s * (r100 as i64), 102400);
    (cx + dx as i32, cy + dy as i32)
}

/// Rounds `num / den` to the nearest integer, halves away from zero.
pub(crate) fn round_div_i64(num: i64, den: i64) -> (r: i64)
    requires
        den >= 1,
        -4000000000000 <= num <= 4000000000000,
    ensures
        r == crate::spec_round_div(num as int, den as int),
        num >= 0 ==> 0 <= r <= num,
        num < 0 ==> num <= r <= 0,
{
    if num >= 0 {
        let r = (num + den / 2) / den;
        proof {
            assert(0 <= (num as int + den as int / 2) / (den as int) <= num as int) by (
            nonlinear_arith)
                requires
                    den as int >= 1,
                    num as int >= 0,
            ;
        }
        r
    } else {
        let r = -((-num + den / 2) / den);
        proof {
            assert(0 <= (-(num as int) + den as int / 2) / (den as int) <= -(num as int)) by (
            nonlinear_arith)
                requires
                    den as int >= 1,
                    (num as int) < 0,
            ;
        }
        r
    }
}

/// The dissolve threshold for overall progress `p`: zero until the last
/// 16 percent of the boot, then rising linearly to full.
pub open spec fn spec_boot_dissolve(p: int) -> int {
    if p > 8400 {
        let d = ((p - 8400) * 10000) / 1600;
        if d > 10000 {
            10000
        } else {
            d
        }
    } else {
        0
    }
}

/// The grid after the first `n` dots of the inner ring: each surviving dot
/// sits at radius 10 (drifting out by up to 6 pixels with the dissolve),
/// counter-rotating at 0.4 of the gear rate.
pub open spec fn boot_dots_grid(
    g: Seq<u8>,
    w: int,
    h: int,
    cx: int,
    cy: int,
    p: int,
    dpm: int,
    n: int,
) -> Seq<u8>
    decreases n,
{
    if n <= 0 {
        g
    } else {
        let g1 = boot_dots_grid(g, w, h, cx, cy, p, dpm, n - 1);
        let i = n - 1;
        if spec_keep(100 + i, dpm) {
            let a = (i * 15 - (252 * p) / 10000) % 360;
            let pt = spec_polar(cx, cy, a, 1000 + (600 * dpm) / 10000);
            plot(g1, w, h, pt.0, pt.1, 1, false)
        } else {
            g1
        }
    }
}

/// The grid after the first `n` gear teeth: each surviving tooth is a spoke
/// from radius 13 to 18 (both drifting out with the dissolve) plus a short
/// perpendicular cap at the tip.
pub open spec fn boot_teeth_grid(
    g: Seq<u8>,
    w: int,
    h: int,
    cx: int,
    cy: int,
    rot: int,
    dpm: int,
    n: int,
) -> Seq<u8>
    decreases n,
{
    if n <= 0 {
        g
    } else {
        let g1 = boot_teeth_grid(g, w, h, cx, cy, rot, dpm, n - 1);
        let i = n - 1;
        if spec_keep(200 + i, dpm) {
            let a = (rot + i * 30) % 360;
            let r0 = 1300 + (480 * dpm) / 10000;
            let r1 = 1800 + (800 * dpm) / 10000;
            let p0 = spec_polar(cx, cy, a, r0);
            let p1 = spec_polar(cx, cy, a, r1);
            let g2 = line_spec(g1, w, h, p0.0, p0.1, p1.0, p1.1, 1, false);
            let px = -spec_round_div(spec_sin_fp(a), 1024);
            let py = spec_round_div(spec_cos_fp(a), 1024);
            line_spec(g2, w, h, p1.0 - px, p1.1 - py, p1.0 + px, p1.1 + py, 1, false)
        } else {
            g1
        }
    }
}

/// The grid after the first `n` rings of the star's inner taper: four
/// diagonal sparkle pixels at distance `d` for every `d` up to `n`.
pub open spec fn boot_taper_grid(g: Seq<u8>, w: int, h: int, cx: int, cy: int, n: int) -> Seq<u8>
    decreases n,
{
    if n <= 0 {
        g
    } else {
        let g1 = boot_taper_grid(g, w, h, cx, cy, n - 1);
        let d = n;
        plot(
            plot(
                plot(plot(g1, w, h, cx - d, cy - d, 1, false), w, h, cx + d, cy - d, 1, false),
                w,
                h,
                cx - d,
                cy + d,
                1,
                false,
            ),
            w,
            h,
            cx + d,
            cy + d,
            1,
            false,
        )
    }
}

/// The sine wave of the star's pulse, in hundredths of a percent (0..10000),
/// sampled three periods over the pre-dissolve span of the boot.
pub open spec fn spec_boot_wave(p: int) -> int {
    let pulse_t: int = if (p * 10000) / 8400 > 10000 {
        10000
    } else {
        (p * 10000) / 8400
    };
    let wave_angle = ((pulse_t * 1080) / 10000) % 360;
    spec_div_trunc(spec_sin_fp(wave_angle) * 5000, 1024) + 5000
}

/// The grid after the center star: a five-pixel core (thickened at pulse
/// peaks), four arms whose length breathes with the pulse, and the inner
/// taper.
pub open spec fn boot_star_grid(g: Seq<u8>, w: int, h: int, cx: int, cy: int, p: int) -> Seq<u8> {
    let base_arm: int = if p < 6000 {
        4
    } else {
        6
    };
    let wave_pm = spec_boot_wave(p);
    let arm = base_arm + (wave_pm * 2 + 5000) / 10000;
    let g1 = plot(g, w, h, cx, cy, 1, false);
    let g2 = plot(g1, w, h, cx - 1, cy, 1, false);
    let g3 = plot(g2, w, h, cx + 1, cy, 1, false);
    let g4 = plot(g3, w, h, cx, cy - 1, 1, false);
    let g5 = plot(g4, w, h, cx, cy + 1, 1, false);
    let g6 = if wave_pm > 8500 {
        plot(
            plot(
                plot(plot(g5, w, h, cx - 1, cy - 1, 1, false), w, h, cx + 1, cy - 1, 1, false),
                w,
                h,
                cx - 1,
                cy + 1,
                1,
                false,
            ),
            w,
            h,
            cx + 1,
            cy + 1,
            1,
            false,
        )
    } else {
        g5
    };
    let g7 = line_spec(g6, w, h, cx, cy - 1, cx, cy - arm, 1, false);
    let g8 = line_spec(g7, w, h, cx, cy + 1, cx, cy + arm, 1, false);
    let g9 = line_spec(g8, w, h, cx - 1, cy, cx - arm, cy, 1, false);
    let g10 = line_spec(g9, w, h, cx + 1, cy, cx + arm, cy, 1, false);
    let taper = if arm / 2 >= 2 {
        arm / 2
    } else {
        2
    };
    boot_taper_grid(g10, w, h, cx, cy, taper)
}

/// The grid after the first `n` dots of the finale's lock-in ring at radius
/// `ring_r` (hundredths of a pixel).
pub open spec fn boot_ring_grid(
    g: Seq<u8>,
    w: int,
    h: int,
    cx: int,
    cy: int,
    dpm: int,
    ring_r: int,
    n: int,
) -> Seq<u8>
    decreases n,
{
    if n <= 0 {
        g
    } else {
        let g1 = boot_ring_grid(g, w, h, cx, cy, dpm, ring_r, n - 1);
        let i = n - 1;
        if spec_keep(400 + i, dpm) {
            let pt = spec_polar(cx, cy, (i * 9) % 360, ring_r);
            plot(g1, w, h, pt.0, pt.1, 1, false)
        } else {
            g1
        }
    }
}

/// The grid after the first `n` sparks of the finale's burst, radial lines
/// from radius 21 outward by `burst_len` pixels.
pub open spec fn boot_burst_grid(
    g: Seq<u8>,
    w: int,
    h: int,
    cx: int,
    cy: int,
    burst_len: int,
    n: int,
) -> Seq<u8>
    decreases n,
{
    if n <= 0 {
        g
    } else {
        let g1 = boot_burst_grid(g, w, h, cx, cy, burst_len, n - 1);
        let i = n - 1;
        let a = (i * 45) % 360;
        let p0 = spec_polar(cx, cy, a, 2100);
        let p1 = spec_polar(cx, cy, a, 2100 + burst_len * 100);
        line_spec(g1, w, h, p0.0, p0.1, p1.0, p1.1, 1, false)
    }
}

/// The grid after the finale: the dissipating lock-in ring, the
/// expand-then-retract spark burst, and the vertical shine sweep.
pub open spec fn boot_finale_grid(g: Seq<u8>, w: int, h: int, cx: int, cy: int, p: int) -> Seq<
    u8,
> {
    let finale_t: int = if ((p - 7800) * 10000) / 2200 > 10000 {
        10000
    } else {
        ((p - 7800) * 10000) / 2200
    };
    let dpm = spec_boot_dissolve(p);
    let ring_dissipate: int = if finale_t > 4500 {
        let r = ((finale_t - 4500) * 10000) / 5500;
        if r > 10000 {
            10000
        } else {
            r
        }
    } else {
        0
    };
    let ring_r = 2100 + (1000 * ring_dissipate) / 10000;
    let g1 = boot_ring_grid(g, w, h, cx, cy, dpm, ring_r, 40);
    let burst_t: int = {
        let t = if finale_t < 5800 {
            (finale_t * 10000) / 5800
        } else {
            10000 - ((finale_t - 5800) * 10000) / 4200
        };
        if t < 0 {
            0
        } else if t > 10000 {
            10000
        } else {
            t
        }
    };
    let burst_len = (burst_t * 8 + 5000) / 10000;
    let g2 = boot_burst_grid(g1, w, h, cx, cy, burst_len, 8);
    let shine_x = cx - 14 + (finale_t * 28 + 5000) / 10000;
    line_spec(g2, w, h, shine_x, cy - 8, shine_x, cy + 8, 1, false)
}

/// The whole boot frame drawn over `g` for progress `p`: the dotted ring,
/// the gear with `min(ceil(12 p), 12)` teeth, the star unless the dissolve
/// dropped it, and, from 78 percent of the boot on, the finale.
pub open spec fn spec_boot_grid(g: Seq<u8>, w: int, h: int, p: int) -> Seq<u8> {
    let cx = w / 2;
    let cy = h / 2 - 2;
    let dpm = spec_boot_dissolve(p);
    let shown_teeth = (12 * p + 9999) / 10000;
    let shown_count = if shown_teeth < 12 {
        shown_teeth
    } else {
        12int
    };
    let rot = (630 * p) / 10000;
    let g1 = boot_dots_grid(g, w, h, cx, cy, p, dpm, 24);
    let g2 = boot_teeth_grid(g1, w, h, cx, cy, rot, dpm, shown_count);
    let g3 = if spec_keep(300, dpm) {
        boot_star_grid(g2, w, h, cx, cy, p)
    } else {
        g2
    };
    if p >= 7800 {
        boot_finale_grid(g3, w, h, cx, cy, p)
    } else {
        g3
    }
}

/// Draws one frame of the boot sequence for overall progress `progress_pm`
/// (hundredths of a percent of the boot duration) onto the canvas; the
/// resulting grid is exactly `spec_boot_grid` over the old one, a pure
/// function of progress and canvas size.
#[verifier::rlimit(100)]
pub fn draw_boot_logo(canvas: &mut Canvas, progress_pm: u32)
    requires
        old(canvas).wf(),
        progress_pm <= PROGRESS_FULL,
        old(canvas).w() <= 100000,
        old(canvas).h() <= 100000,
    ensures
        final(canvas).wf(),
        final(canvas).same_dims(old(canvas)),
        final(canvas).grid() == spec_boot_grid(
            old(canvas).grid(),
            old(canvas).w(),
            old(canvas).h(),
            progress_pm as int,
        ),
{
    let ghost g0 = canvas.grid();
    let p = progress_pm as i64;
    let cx = (canvas.width() as i32) / 2;
    let cy = (canvas.height() as i32) / 2 - 2;

    // The final section dissolves everything out before the handoff.
    let dissolve_pm: u32 = if p > 8400 {
        let d = ((p - 8400) * 10000) / 1600;
        if d > 10000 {
            10000
        } else {
            d as u32
        }
    } else {
        0
    };
    let dpm = dissolve_pm as i64;

    let teeth: i64 = 12;
    let shown_teeth: i64 = (teeth * p + 9999) / 10000;
    // 1.75 revolutions over the full progress, in degrees.
    let rotation_deg: i64 = (630 * p) / 10000;

    // Inner dotted ring, counter-rotating at 0.4 of the gear rate, drifting
    // outward as it dissolves.
    let mut i: i64 = 0;
    while i < 24
        invariant
            canvas.wf(),
            canvas.same_dims(old(canvas)),
            0 <= i <= 24,
            p == progress_pm as i64,
            0 <= p <= 10000,
            0 <= dpm <= 10000,
            dpm == spec_boot_dissolve(p as int),
            dissolve_pm == dpm,
            cx as int == old(canvas).w() / 2,
            cy as int == old(canvas).h() / 2 - 2,
            -100000 <= cx <= 100000,
            -100000 <= cy <= 100000,
            canvas.grid() == boot_dots_grid(
                g0,
                old(canvas).w(),
                old(canvas).h(),
                cx as int,
                cy as int,
                p as int,
                dpm as int,
                i as int,
            ),
        decreases 24 - i,
    {
        if dissolve_keep((100 + i) as u32, dissolve_pm) {
            let a = ang_norm(i * 15 - (252 * p) / 10000);
            let r100 = (1000 + (600 * dpm) / 10000) as i32;
            let pt = polar_point(cx, cy, a, r100);
            canvas.set(pt.0, pt.1, true);
        }
        i = i + 1;
    }

    // Tooth-by-tooth outer gear reveal, co-rotating, with a short cap stroke
    // across each tooth tip.
    let shown_count = if shown_teeth < teeth {
        shown_teeth
    } else {
        teeth
    };
    let ghost g_dots = canvas.grid();
    let mut i: i64 = 0;
    while i < shown_count
        invariant
            canvas.wf(),
            canvas.same_dims(old(canvas)),
            0 <= i <= shown_count <= 12,
            p == progress_pm as i64,
            0 <= p <= 10000,
            0 <= dpm <= 10000,
            dpm == spec_boot_dissolve(p as int),
            dissolve_pm == dpm,
            0 <= rotation_deg <= 630,
            rotation_deg == (630 * (p as int)) / 10000,
            -100000 <= cx <= 100000,
            -100000 <= cy <= 100000,
            canvas.grid() == boot_teeth_grid(
                g_dots,
                old(canvas).w(),
                old(canvas).h(),
                cx as int,
                cy as int,
                rotation_deg as int,
                dpm as int,
                i as int,
            ),
        decreases shown_count - i,
    {
        if dissolve_keep((200 + i) as u32, dissolve_pm) {
            let a = ang_norm(rotation_deg + i * 30);
            let r0 = (1300 + (480 * dpm) / 10000) as i32;
            let r1 = (1800 + (800 * dpm) / 10000) as i32;
            let p0 = polar_point(cx, cy, a, r0);
            let p1 = polar_point(cx, cy, a, r1);
            canvas.line(p0.0, p0.1, p1.0, p1.1, true);
            // Tooth cap, perpendicular to the spoke.
            let px = -(round_div_i64(sin_fp(a) as i64, 1024) as i32);
            let py = round_div_i64(cos_fp(a) as i64, 1024) as i32;
            canvas.line(p1.0 - px, p1.1 - py, p1.0 + px, p1.1 + py, true);
        }
        i = i + 1;
    }

    // Center mark: a four-pointed star pulsing three times until the
    // dissolve begins.
    let ghost g_teeth = canvas.grid();
    if dissolve_keep(300, dissolve_pm) {
        let base_arm: i32 = if p < 6000 {
            4
        } else {
            6
        };
        let pulse_t: i64 = if (p * 10000) / 8400 > 10000 {
            10000
        } else {
            (p * 10000) / 8400
        };
        let wave_angle = ang_norm((pulse_t * 1080) / 10000);
        let wave_sin: i64 = sin_fp(wave_angle) as i64;
        let scaled: i64 = if wave_sin >= 0 {
            (wave_sin * 5000) / 1024
        } else {
            -((-wave_sin * 5000) / 1024)
        };
        let wave_pm: i64 = scaled + 5000;
        proof {
            assert(wave_pm as int == spec_boot_wave(p as int));
            assert(-5000 <= spec_div_trunc(spec_sin_fp(wave_angle as int) * 5000, 1024) <= 5000)
                by (nonlinear_arith)
                requires
                    -1024 <= spec_sin_fp(wave_angle as int) <= 1024,
        ;
        }
        let arm: i32 = base_arm + (((wave_pm * 2 + 5000) / 10000) as i32);

        canvas.set(cx, cy, true);
        canvas.set(cx - 1, cy, true);
        canvas.set(cx + 1, cy, true);
        canvas.set(cx, cy - 1, true);
        canvas.set(cx, cy + 1, true);

        // Thicken the center at pulse peaks for a heartbeat feel.
        if wave_pm > 8500 {
            canvas.set(cx - 1, cy - 1, true);
            canvas.set(cx + 1, cy - 1, true);
            canvas.set(cx - 1, cy + 1, true);
            canvas.set(cx + 1, cy + 1, true);
        }

        canvas.line(cx, cy - 1, cx, cy - arm, true);
        canvas.line(cx, cy + 1, cx, cy + arm, true);
        canvas.line(cx - 1, cy, cx - arm, cy, true);
        canvas.line(cx + 1, cy, cx + arm, cy, true);

        // Slight inner taper for a sparkle feel.
        let taper: i32 = if arm / 2 >= 2 {
            arm / 2
        } else {
            2
        };
        let ghost g_arms = canvas.grid();
        let mut d: i32 = 1;
        while d <= taper
            invariant
                canvas.wf(),
                canvas.same_dims(old(canvas)),
                1 <= d <= taper + 1,
                2 <= taper <= 10,
                -100000 <= cx <= 100000,
                -100000 <= cy <= 100000,
                canvas.grid() == boot_taper_grid(
                    g_arms,
                    old(canvas).w(),
                    old(canvas).h(),
                    cx as int,
                    cy as int,
                    d as int - 1,
                ),
            decreases taper + 1 - d,
        {
            canvas.set(cx - d, cy - d, true);
            canvas.set(cx + d, cy - d, true);
            canvas.set(cx - d, cy + d, true);
            canvas.set(cx + d, cy + d, true);
            d = d + 1;
        }
        proof {
            assert(canvas.grid() == boot_star_grid(
                g_teeth,
                old(canvas).w(),
                old(canvas).h(),
                cx as int,
                cy as int,
                p as int,
            ));
        }
    }

    // Finale: a lock-in ring that dissipates outward, a spark burst that
    // expands then retracts, and a shine sweep through the center.
    let ghost g_star = canvas.grid();
    if p >= 7800 {
        let finale_t: i64 = if ((p - 7800) * 10000) / 2200 > 10000 {
            10000
        } else {
            ((p - 7800) * 10000) / 2200
        };

        let ring_dissipate: i64 = if finale_t > 4500 {
            let r = ((finale_t - 4500) * 10000) / 5500;
            if r > 10000 {
                10000
            } else {
                r
            }
        } else {
            0
        };
        let ring_r = (2100 + (1000 * ring_dissipate) / 10000) as i32;
        let mut i: i64 = 0;
        while i < 40
            invariant
                canvas.wf(),
                canvas.same_dims(old(canvas)),
                0 <= i <= 40,
                p == progress_pm as i64,
                0 <= dpm <= 10000,
                dpm == spec_boot_dissolve(p as int),
                dissolve_pm == dpm,
                2100 <= ring_r <= 3100,
                p >= 7800,
                finale_t == (if ((p as int - 7800) * 10000) / 2200 > 10000 {
                    10000int
                } else {
                    ((p as int - 7800) * 10000) / 2200
                }),
                ring_r as int == 2100 + (1000 * (if finale_t > 4500 {
                    let r = ((finale_t as int - 4500) * 10000) / 5500;
                    if r > 10000 {
                        10000int
                    } else {
                        r
                    }
                } else {
                    0int
                })) / 10000,
                -100000 <= cx <= 100000,
                -100000 <= cy <= 100000,
                canvas.grid() == boot_ring_grid(
                    g_star,
                    old(canvas).w(),
                    old(canvas).h(),
                    cx as int,
                    cy as int,
                    dpm as int,
                    ring_r as int,
                    i as int,
                ),
            decreases 40 - i,
        {
            if dissolve_keep((400 + i) as u32, dissolve_pm) {
                let a = ang_norm(i * 9);
                let pt = polar_point(cx, cy, a, ring_r);
                canvas.set(pt.0, pt.1, true);
            }
            i = i + 1;
        }

        let burst_t: i64 = {
            let t = if finale_t < 5800 {
                (finale_t * 10000) / 5800
            } else {
                10000 - ((finale_t - 5800) * 10000) / 4200
            };
            if t < 0 {
                0
            } else if t > 10000 {
                10000
            } else {
                t
            }
        };
        let burst_len = ((burst_t * 8 + 5000) / 10000) as i32;
        let ghost g_ring = canvas.grid();
        let mut i: i64 = 0;
        while i < 8
            invariant
                canvas.wf(),
                canvas.same_dims(old(canvas)),
                0 <= i <= 8,
                0 <= burst_len <= 8,
                -100000 <= cx <= 100000,
                -100000 <= cy <= 100000,
                canvas.grid() == boot_burst_grid(
                    g_ring,
                    old(canvas).w(),
                    old(canvas).h(),
                    cx as int,
                    cy as int,
                    burst_len as int,
                    i as int,
                ),
            decreases 8 - i,
        {
            let a = ang_norm(i * 45);
            let p0 = polar_point(cx, cy, a, 2100);
            let p1 = polar_point(cx, cy, a, 2100 + burst_len * 100);
            canvas.line(p0.0, p0.1, p1.0, p1.1, true);
            i = i + 1;
        }

        let shine_x = cx - 14 + (((finale_t * 28 + 5000) / 10000) as i32);
        canvas.line(shine_x, cy - 8, shine_x, cy + 8, true);
        proof {
            assert(canvas.grid() == boot_finale_grid(
                g_star,
                old(canvas).w(),
                old(canvas).h(),
                cx as int,
                cy as int,
                p as int,
            ));
        }
    }
    proof {
        assert(canvas.grid() == spec_boot_grid(
            g0,
            old(canvas).w(),
            old(canvas).h(),
            progress_pm as int,
        ));
    }
}

} // verus!
