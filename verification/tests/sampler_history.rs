use sysport::metrics::{cpu_mean, CounterReading, MetricsSampler, HISTORY_CAPACITY};

fn reading(ts: u64, rx: u64, tx: u64) -> CounterReading {
    CounterReading {
        timestamp: ts,
        cpu_usage: vec![1000, 2000, 3000],
        mem_total: 1024,
        mem_used: 512,
        disks: Vec::new(),
        net_rx_cumulative: rx,
        net_tx_cumulative: tx,
    }
}

#[test]
fn history_is_bounded_and_keeps_the_most_recent() {
    let mut sampler = MetricsSampler::new();
    for t in 0..(HISTORY_CAPACITY as u64 + 5) {
        sampler.tick(reading(t, 0, 0));
    }
    assert_eq!(sampler.history.len(), HISTORY_CAPACITY);
    // The oldest retained snapshot is the one from tick 5, the newest
    // the last tick: exactly the most recent 300 in arrival order.
    assert_eq!(sampler.history.get(0).timestamp, 5);
    assert_eq!(
        sampler.history.get(HISTORY_CAPACITY - 1).timestamp,
        HISTORY_CAPACITY as u64 + 4
    );
    for i in 1..HISTORY_CAPACITY {
        assert!(sampler.history.get(i - 1).timestamp < sampler.history.get(i).timestamp);
    }
}

#[test]
fn network_deltas_from_cumulative_counters() {
    let mut sampler = MetricsSampler::new();
    let cumulative = [0u64, 100, 250];
    let expected = [0u64, 100, 150];
    for (i, c) in cumulative.iter().enumerate() {
        sampler.tick(reading(i as u64, *c, *c));
        let latest = sampler.latest().unwrap();
        assert_eq!(latest.net_rx, expected[i]);
        assert_eq!(latest.net_tx, expected[i]);
    }
}

#[test]
fn first_delta_is_zero_even_for_nonzero_counter() {
    let mut sampler = MetricsSampler::new();
    sampler.tick(reading(0, 123456, 654321));
    let latest = sampler.latest().unwrap();
    assert_eq!(latest.net_rx, 0);
    assert_eq!(latest.net_tx, 0);
}

#[test]
fn delta_clamps_when_counter_runs_backwards() {
    let mut sampler = MetricsSampler::new();
    sampler.tick(reading(0, 100, 100));
    sampler.tick(reading(1, 50, 70));
    let latest = sampler.latest().unwrap();
    assert_eq!(latest.net_rx, 0);
    assert_eq!(latest.net_tx, 0);
}

#[test]
fn aggregate_cpu_is_the_mean_of_cores() {
    let mut sampler = MetricsSampler::new();
    sampler.tick(reading(0, 0, 0));
    assert_eq!(sampler.latest().unwrap().cpu_total, 2000);
}

#[test]
fn cpu_mean_of_no_cores_is_zero() {
    let empty: Vec<u32> = Vec::new();
    assert_eq!(cpu_mean(&empty), 0);
}

#[test]
fn cpu_mean_rounds_down() {
    let cores: Vec<u32> = vec![1, 2];
    assert_eq!(cpu_mean(&cores), 1);
}
