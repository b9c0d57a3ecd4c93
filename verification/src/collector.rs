//! The integer part of the agent's CPU and network figures: the deltas
//! between two samples, from which the agent derives percentages and rates.
use vstd::prelude::*;

verus! {

/// Cumulative CPU time counters, as the system reports them.
#[derive(Debug, Clone, Copy)]
pub struct CpuSample {
    pub total: u64,
    pub idle: u64,
}

/// The CPU time spent between two samples, and how much of it was busy.
#[derive(Debug, Clone, Copy, PartialEq, Eq)]
pub struct CpuDelta {
    pub busy: u64,
    pub total: u64,
}

/// Cumulative byte counters of the network interfaces.
#[derive(Debug, Clone, Copy)]
pub struct NetworkTotals {
    pub rx_bytes: u64,
    pub tx_bytes: u64,
}

/// `a.saturating_sub(b)`.
pub open spec fn sat_sub(a: u64, b: u64) -> u64 {
    if a >= b {
        (a - b) as u64
    } else {
        0
    }
}

/// The busy and total CPU time between `previous` and `current`, each
/// counter taken as not going backwards; none where no time passed.
pub fn cpu_busy_delta(previous: CpuSample, current: CpuSample) -> (r: Option<CpuDelta>)
    ensures
        ({
            let total = sat_sub(current.total, previous.total);
            let idle = sat_sub(current.idle, previous.idle);
            &&& r is None <==> total == 0
            &&& r matches Some(d) ==> d.total == total && d.busy == sat_sub(total, idle)
        }),
        r matches Some(d) ==> d.busy <= d.total && d.total > 0,
{
    let total_delta = current.total.saturating_sub(previous.total);
    let idle_delta = current.idle.saturating_sub(previous.idle);
    if total_delta == 0 {
        return None;
    }
    let busy = total_delta.saturating_sub(idle_delta);
    Some(CpuDelta { busy, total: total_delta })
}

/// The bytes received and sent between two samples; a counter that went
/// backwards (an interface reset) gives none.
pub fn network_byte_deltas(previous: NetworkTotals, current: NetworkTotals) -> (r: (
    Option<u64>,
    Option<u64>,
))
    ensures
        r.0 is Some <==> current.rx_bytes >= previous.rx_bytes,
        r.0 matches Some(d) ==> d == current.rx_bytes - previous.rx_bytes,
        r.1 is Some <==> current.tx_bytes >= previous.tx_bytes,
        r.1 matches Some(d) ==> d == current.tx_bytes - previous.tx_bytes,
{
    let rx = if current.rx_bytes >= previous.rx_bytes {
        Some(current.rx_bytes - previous.rx_bytes)
    } else {
        None
    };
    let tx = if current.tx_bytes >= previous.tx_bytes {
        Some(current.tx_bytes - previous.tx_bytes)
    } else {
        None
    };
    (rx, tx)
}

} // verus!
