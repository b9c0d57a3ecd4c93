use nodelite::collector::{cpu_busy_delta, network_byte_deltas, CpuDelta, CpuSample, NetworkTotals};

#[test]
fn computes_cpu_usage_from_deltas() {
    let previous = CpuSample { total: 560, idle: 410 };
    let current = CpuSample { total: 680, idle: 440 };
    let delta = cpu_busy_delta(previous, current).unwrap();
    assert_eq!(delta, CpuDelta { busy: 90, total: 120 });
    // 90 of 120 is 75 percent, between 70 and 80.
    let usage = delta.busy as f64 / delta.total as f64 * 100.0;
    assert!(usage > 70.0 && usage < 80.0);
}

#[test]
fn cpu_delta_without_elapsed_time_is_none() {
    let s = CpuSample { total: 100, idle: 50 };
    assert!(cpu_busy_delta(s, s).is_none());
    assert!(cpu_busy_delta(s, CpuSample { total: 90, idle: 60 }).is_none());
}

#[test]
fn cpu_delta_saturates_when_idle_outgrows_total() {
    let previous = CpuSample { total: 100, idle: 0 };
    let current = CpuSample { total: 110, idle: 50 };
    assert_eq!(cpu_busy_delta(previous, current), Some(CpuDelta { busy: 0, total: 10 }));
}

#[test]
fn computes_network_rates_from_deltas() {
    let previous = NetworkTotals { rx_bytes: 100, tx_bytes: 40 };
    let current = NetworkTotals { rx_bytes: 220, tx_bytes: 100 };
    let (rx, tx) = network_byte_deltas(previous, current);
    assert_eq!((rx, tx), (Some(120), Some(60)));
    // Over two seconds these are 60 and 30 bytes per second.
    let elapsed = 2.0;
    assert!(rx.expect("rx rate should be reported") as f64 / elapsed > 50.0);
    assert!(tx.expect("tx rate should be reported") as f64 / elapsed > 20.0);
}

#[test]
fn network_counter_reset_gives_no_delta() {
    let previous = NetworkTotals { rx_bytes: 100, tx_bytes: 40 };
    let current = NetworkTotals { rx_bytes: 10, tx_bytes: 40 };
    assert_eq!(network_byte_deltas(previous, current), (None, Some(0)));
}
