//! Rendering and animation engine for a 1-bit auxiliary display.
//!
//! The library turns a metrics snapshot plus a widget layout into a packed
//! monochrome frame: a software rasterizer over a byte-per-pixel grid, a
//! bitmap-font blitter, per-widget transition state machines, and a
//! time-driven boot animation, composed by a dashboard orchestrator.

pub mod boot;
pub mod canvas;
pub mod config;
pub mod dashboard;
pub mod history;
pub mod metrics;
pub mod numfmt;
pub mod packet;
pub mod transition;

use vstd::prelude::*;

verus! {

/// Rounds `num / den` to the nearest integer, halves away from zero.
pub open spec fn spec_round_div(num: int, den: int) -> int
    recommends
        den > 0,
{
    if num >= 0 {
        (num + den / 2) / den
    } else {
        -((-num + den / 2) / den)
    }
}

} // verus!
