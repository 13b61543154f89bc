//! The shapes of collected host metrics.
//!
//! The samplers that fill these live at the edge of the process: they read
//! the operating system and hand over plain values. Only the arithmetic on
//! those values is done here.
use vstd::prelude::*;

verus! {

/// One mounted filesystem's space figures.
pub struct DiskMount {
    pub name: String,
    pub total: u64,
    pub available: u64,
}

/// Space figures for every mount.
pub struct DiskStats {
    pub mounts: Vec<DiskMount>,
}

/// Memory totals in bytes.
pub struct MemStats {
    pub total: u64,
    pub used: u64,
    pub free: u64,
}

impl MemStats {
    /// Free memory is what remains of the total after use, and never
    /// underflows when a sampler reports more used than total.
    pub fn from_readings(total: u64, used: u64) -> (m: MemStats)
        ensures
            m.total == total,
            m.used == used,
            m.free == if used <= total {
                total - used
            } else {
                0
            },
    {
        let free = if used <= total {
            total - used
        } else {
            0
        };
        MemStats { total, used, free }
    }
}

/// One network interface's cumulative counters.
pub struct Iface {
    pub name: String,
    pub total_received: u64,
    pub total_transmitted: u64,
}

/// Counters for every interface.
pub struct NetStats {
    pub ifaces: Vec<Iface>,
}

/// Identity and uptime of the host.
pub struct OsStats {
    pub name: Option<String>,
    pub version: Option<String>,
    pub kernel_version: Option<String>,
    pub host_name: Option<String>,
    pub uptime_secs: u64,
    pub boot_time_secs: u64,
}

} // verus!
