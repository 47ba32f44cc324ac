//! Point-in-time readings handed over by the metrics source.
use vstd::prelude::*;

verus! {

/// Cumulative CPU time counters, in kernel ticks, summed over all modes.
#[derive(Clone, Copy, Debug, PartialEq, Eq, Structural)]
pub struct CpuTicks {
    /// Ticks spent idle or waiting for I/O.
    pub idle: u64,
    /// Ticks spent in every mode.
    pub total: u64,
}

/// Memory totals, in KiB.
#[derive(Clone, Copy, Debug, PartialEq, Eq, Structural)]
pub struct MemInfo {
    pub total_kib: u64,
    pub available_kib: u64,
}

/// One answer of the GPU query tool.
#[derive(Clone, Copy, Debug, PartialEq, Eq, Structural)]
pub struct GpuReading {
    /// Utilisation in percent.
    pub util_pct: u32,
    /// Memory in use, in MiB.
    pub mem_used_mb: u32,
    /// Memory installed, in MiB.
    pub mem_total_mb: u32,
}

/// Memory in use: total minus available, or zero if available exceeds total.
pub open spec fn used_kib(m: MemInfo) -> nat {
    if m.available_kib <= m.total_kib {
        (m.total_kib - m.available_kib) as nat
    } else {
        0
    }
}

impl MemInfo {
    /// Memory in use, in KiB.
    pub fn used_kib(&self) -> (r: u64)
        ensures
            r as nat == used_kib(*self),
    {
        self.total_kib.saturating_sub(self.available_kib)
    }
}

} // verus!
