//! Configuration and snapshot model the renderer consumes: display geometry,
//! the ordered widget list with per-widget options, and the per-tick metrics
//! snapshot. Percentages are carried as integer hundredths of a percent so
//! that all rendering arithmetic is exact.

use vstd::prelude::*;

verus! {

/// One whole percent, in the hundredths-of-a-percent scale metric values use.
pub const PERCENT_UNIT: u32 = 100;

/// 100%, in hundredths of a percent.
pub const PERCENT_FULL: u32 = 10000;

/// The closed set of widget kinds; configurations may name others, which the
/// renderer ignores.
#[derive(Clone, Copy, PartialEq, Eq, Structural, Debug)]
pub enum WidgetKind {
    Cpu,
    Volume,
    Memory,
    Network,
    Keyboard,
    Other,
}

/// Bar fill direction; a configuration naming neither maps to `Horizontal`.
#[derive(Clone, Copy, PartialEq, Eq, Structural, Debug)]
pub enum BarDirection {
    Horizontal,
    Vertical,
}

/// Integer rectangle in pixel space; may be negative or exceed the display
/// bounds, the framebuffer clips implicitly.
#[derive(Clone, Copy, PartialEq, Eq, Structural, Debug)]
pub struct Position {
    pub x: i32,
    pub y: i32,
    pub w: i32,
    pub h: i32,
}

#[derive(Clone, Copy, PartialEq, Eq, Structural, Debug)]
pub struct BarConfig {
    pub direction: BarDirection,
    pub border: bool,
}

#[derive(Clone, Copy, PartialEq, Eq, Structural, Debug)]
pub struct GraphConfig {
    /// Number of samples the graph's history keeps; 0 means "use the widget
    /// width".
    pub history: usize,
}

/// Display geometry and background color (0 or 1).
pub struct Display {
    pub width: usize,
    pub height: usize,
    pub background: u8,
}

/// One configured unit of dashboard content bound to a metric kind.
pub struct Widget {
    pub kind: WidgetKind,
    pub enabled: bool,
    pub refresh_rate_ms: Option<u32>,
    pub position: Position,
    /// Preferred network interface; consumed by the metrics collector, not
    /// by the renderer.
    pub interface: Option<String>,
    pub show_icon: bool,
    pub bar: Option<BarConfig>,
    pub graph: Option<GraphConfig>,
}

pub struct DashboardConfig {
    pub config_name: String,
    pub refresh_rate_ms: u32,
    pub display: Display,
    pub widgets: Vec<Widget>,
}

/// Per-tick metrics snapshot, immutable input to every widget renderer.
/// The three percentages are in hundredths of a percent (0 to 10000);
/// out-of-range values are clamped by the consumers.
pub struct MetricsSample {
    pub cpu_percent: u32,
    pub mem_percent: u32,
    pub volume_percent: u32,
    pub net_up_bps: u64,
    pub net_down_bps: u64,
    pub caps_lock: bool,
    pub num_lock: bool,
    pub scroll_lock: bool,
}

/// Sampling intervals of the metrics collector, in milliseconds.
#[derive(Clone, Copy, Debug)]
pub struct MetricIntervals {
    pub cpu_ms: u32,
    pub memory_ms: u32,
    pub volume_ms: u32,
    pub audio_ms: u32,
    pub network_ms: u32,
    pub keyboard_ms: u32,
}

impl Default for MetricIntervals {
    /// Sample CPU and memory every tick, volume every 100 ms, raw audio
    /// every 25 ms, network once a second, and the lock-key LEDs every 50 ms.
    fn default() -> (r: MetricIntervals)
        ensures
            r.cpu_ms == 0,
            r.memory_ms == 0,
            r.volume_ms == 100,
            r.audio_ms == 25,
            r.network_ms == 1000,
            r.keyboard_ms == 50,
    {
        MetricIntervals {
            cpu_ms: 0,
            memory_ms: 0,
            volume_ms: 100,
            audio_ms: 25,
            network_ms: 1000,
            keyboard_ms: 50,
        }
    }
}

/// The interface named by the first enabled network widget, if any: `None`
/// both when no enabled network widget exists and when the first one names
/// no interface.
pub open spec fn spec_preferred_iface(ws: Seq<Widget>) -> Option<Seq<char>>
    decreases ws.len(),
{
    if ws.len() == 0 {
        None
    } else if ws[0].enabled && ws[0].kind == WidgetKind::Network {
        match ws[0].interface {
            Some(s) => Some(s@),
            None => None,
        }
    } else {
        spec_preferred_iface(ws.drop_first())
    }
}

/// The smaller of two optional refresh rates, absent values ignored.
pub open spec fn min_rate(a: Option<u32>, b: Option<u32>) -> Option<u32> {
    match (a, b) {
        (Some(x), Some(y)) => Some(
            if x <= y {
                x
            } else {
                y
            },
        ),
        (Some(x), None) => Some(x),
        (None, Some(y)) => Some(y),
        (None, None) => None,
    }
}

/// The smallest refresh rate any enabled widget of the given kind asks for.
pub open spec fn spec_min_rate(ws: Seq<Widget>, kind: WidgetKind) -> Option<u32>
    decreases ws.len(),
{
    if ws.len() == 0 {
        None
    } else {
        let head: Option<u32> = if ws[0].enabled && ws[0].kind == kind {
            ws[0].refresh_rate_ms
        } else {
            None
        };
        min_rate(head, spec_min_rate(ws.drop_first(), kind))
    }
}

impl DashboardConfig {
    /// The interface name of the first enabled network widget, if it has one.
    pub fn preferred_network_interface(&self) -> (r: Option<String>)
        ensures
            r is Some <==> spec_preferred_iface(self.widgets@) is Some,
            r is Some ==> r.unwrap()@ == spec_preferred_iface(self.widgets@).unwrap(),
    {
        let n = self.widgets.len();
        proof {
            assert(self.widgets@.skip(0) =~= self.widgets@);
        }
        let mut i: usize = 0;
        while i < n
            invariant
                n == self.widgets@.len(),
                0 <= i <= n,
                spec_preferred_iface(self.widgets@) == spec_preferred_iface(
                    self.widgets@.skip(i as int),
                ),
                forall|j: int|
                    0 <= j < i ==> !(#[trigger] self.widgets@[j].enabled && self.widgets@[j].kind
                        == WidgetKind::Network),
            decreases n - i,
        {
            proof {
                assert(self.widgets@.skip(i as int)[0] == self.widgets@[i as int]);
                assert(self.widgets@.skip(i as int).drop_first() =~= self.widgets@.skip(i + 1));
            }
            let wdg = &self.widgets[i];
            if wdg.enabled && matches!(wdg.kind, WidgetKind::Network) {
                return match &wdg.interface {
                    Some(s) => Some(s.clone()),
                    None => None,
                };
            }
            i = i + 1;
        }
        proof {
            assert(self.widgets@.skip(n as int) =~= Seq::<Widget>::empty());
        }
        None
    }

    /// The smallest per-widget refresh rate any enabled widget of `kind`
    /// requests, or `None` when none requests one.
    pub fn widget_refresh_rate_ms(&self, kind: WidgetKind) -> (r: Option<u32>)
        ensures
            r == spec_min_rate(self.widgets@, kind),
    {
        let n = self.widgets.len();
        proof {
            assert(self.widgets@.skip(0) =~= self.widgets@);
        }
        let mut best: Option<u32> = None;
        let mut i: usize = 0;
        while i < n
            invariant
                n == self.widgets@.len(),
                0 <= i <= n,
                min_rate(best, spec_min_rate(self.widgets@.skip(i as int), kind)) == spec_min_rate(
                    self.widgets@,
                    kind,
                ),
            decreases n - i,
        {
            proof {
                assert(self.widgets@.skip(i as int)[0] == self.widgets@[i as int]);
                assert(self.widgets@.skip(i as int).drop_first() =~= self.widgets@.skip(i + 1));
            }
            let wdg = &self.widgets[i];
            if wdg.enabled && wdg.kind == kind {
                if let Some(rate) = wdg.refresh_rate_ms {
                    best = match best {
                        Some(b) => Some(
                            if rate <= b {
                                rate
                            } else {
                                b
                            },
                        ),
                        None => Some(rate),
                    };
                }
            }
            i = i + 1;
        }
        proof {
            assert(self.widgets@.skip(n as int) =~= Seq::<Widget>::empty());
        }
        best
    }
}

} // verus!
