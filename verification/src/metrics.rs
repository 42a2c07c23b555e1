//! Numeric kernels of the metrics collector: the collector polls the host
//! for raw counters and hands the deltas here; these functions turn them
//! into the clamped integer values the snapshot carries.

use vstd::prelude::*;

verus! {

/// CPU load over a sampling window, in hundredths of a percent: the share of
/// elapsed jiffies not spent idle. A window with no elapsed jiffies reads as
/// idle; an idle delta beyond the total clamps to fully idle.
pub open spec fn spec_cpu_load_pm(delta_total: int, delta_idle: int) -> int {
    if delta_total <= 0 {
        0
    } else {
        let busy = if delta_idle > delta_total {
            0
        } else {
            delta_total - delta_idle
        };
        busy * 10000 / delta_total
    }
}

/// CPU load between two jiffy-counter snapshots; see `spec_cpu_load_pm`.
pub fn cpu_load_pm(delta_total: u64, delta_idle: u64) -> (r: u32)
    ensures
        r as int == spec_cpu_load_pm(delta_total as int, delta_idle as int),
        r <= 10000,
{
    if delta_total == 0 {
        return 0;
    }
    let busy: u64 = if delta_idle > delta_total {
        0
    } else {
        delta_total - delta_idle
    };
    proof {
        assert(0 <= (busy as int) * 10000 / (delta_total as int) <= 10000) by (nonlinear_arith)
            requires
                1 <= delta_total as int,
                0 <= busy as int <= delta_total as int,
        ;
    }
    (((busy as u128) * 10000) / (delta_total as u128)) as u32
}

/// Memory in use, in hundredths of a percent of the total: total minus
/// available, over the total. No total reads as empty; an available figure
/// beyond the total clamps to empty.
pub open spec fn spec_mem_used_pm(total_kib: int, avail_kib: int) -> int {
    if total_kib <= 0 {
        0
    } else {
        let used = if avail_kib > total_kib {
            0
        } else {
            total_kib - avail_kib
        };
        used * 10000 / total_kib
    }
}

/// Memory in use from the totals of the host's memory report; see
/// `spec_mem_used_pm`.
pub fn mem_used_pm(total_kib: u64, avail_kib: u64) -> (r: u32)
    ensures
        r as int == spec_mem_used_pm(total_kib as int, avail_kib as int),
        r <= 10000,
{
    if total_kib == 0 {
        return 0;
    }
    let used: u64 = if avail_kib > total_kib {
        0
    } else {
        total_kib - avail_kib
    };
    proof {
        assert(0 <= (used as int) * 10000 / (total_kib as int) <= 10000) by (nonlinear_arith)
            requires
                1 <= total_kib as int,
                0 <= used as int <= total_kib as int,
        ;
    }
    (((used as u128) * 10000) / (total_kib as u128)) as u32
}

/// Transfer rate in bytes per second from a byte-counter delta over a window
/// of `dt_ms` milliseconds, saturating at the counter type's maximum; an
/// empty window reads as no traffic.
pub open spec fn spec_rate_bps(delta_bytes: int, dt_ms: int) -> int {
    if dt_ms <= 0 {
        0
    } else {
        let r = delta_bytes * 1000 / dt_ms;
        if r > 0xffff_ffff_ffff_ffff {
            0xffff_ffff_ffff_ffff
        } else {
            r
        }
    }
}

/// Transfer rate from a byte-counter delta; see `spec_rate_bps`.
pub fn rate_bps(delta_bytes: u64, dt_ms: u64) -> (r: u64)
    ensures
        r as int == spec_rate_bps(delta_bytes as int, dt_ms as int),
{
    if dt_ms == 0 {
        return 0;
    }
    let wide: u128 = ((delta_bytes as u128) * 1000) / (dt_ms as u128);
    proof {
        assert((delta_bytes as int) * 1000 / (dt_ms as int) >= 0) by (nonlinear_arith)
            requires
                1 <= dt_ms as int,
                0 <= delta_bytes as int,
        ;
    }
    if wide > 0xffff_ffff_ffff_ffff {
        0xffff_ffff_ffff_ffff
    } else {
        wide as u64
    }
}

} // verus!
