use geerpc::bench::{
    generate_large_payload, generate_medium_payload, generate_small_payload, LatencyStats,
    ThroughputCalculator,
};

#[test]
fn payloads_have_their_sizes() {
    assert_eq!(generate_small_payload(), "Hello, World! This is a small payload for benchmarking.");
    let medium = generate_medium_payload();
    assert_eq!(medium.len(), 5120);
    assert_eq!(medium[0], 0);
    assert_eq!(medium[255], 255);
    assert_eq!(medium[256], 0);
    assert_eq!(medium[5119], (5119 % 256) as u8);
    let (items, metadata) = generate_large_payload();
    assert_eq!(items.len(), 100);
    assert!(items.iter().all(|item| *item == medium));
    assert_eq!(metadata, "Large payload metadata for benchmarking");
}

#[test]
fn latency_stats_of_no_sample_are_zero() {
    let mut stats = LatencyStats::new();
    assert_eq!(stats.calculate_stats(), (0, 0, 0, 0));
}

#[test]
fn latency_stats_mean_and_percentiles() {
    let mut stats = LatencyStats::default();
    for nanos in (1..=100u128).rev() {
        stats.record(nanos * 1000);
    }
    let (mean, p50, p95, p99) = stats.calculate_stats();
    assert_eq!(mean, 50500);
    assert_eq!(p50, 50000);
    assert_eq!(p95, 95000);
    assert_eq!(p99, 99000);

    stats.clear();
    stats.record(7);
    stats.record(8);
    assert_eq!(stats.calculate_stats(), (7, 7, 7, 7));
}

#[test]
fn throughput_calculator_counts() {
    let mut calc = ThroughputCalculator::new();
    assert_eq!(calc.count(), 0);
    calc.increment();
    calc.increment();
    assert_eq!(calc.count(), 2);
    let before = calc.start();
    calc.reset();
    assert_eq!(calc.count(), 0);
    assert!(calc.start() >= before);
    assert_eq!(ThroughputCalculator::default().count(), 0);
}

#[test]
fn throughput_calculator_restarts_at_a_given_instant() {
    let t0 = std::time::Instant::now();
    let mut calc = ThroughputCalculator::starting_at(t0);
    assert_eq!(calc.start(), t0);
    calc.increment();
    assert_eq!(calc.start(), t0);
    let t1 = std::time::Instant::now();
    calc.restart_at(t1);
    assert_eq!(calc.start(), t1);
    assert_eq!(calc.count(), 0);
}
