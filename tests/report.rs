use ringbuf_throughput::{
    throughput_milli, ProbeContext, RingBufferBenchmark, RunError, Step, COMMIT_INDEX, DEFAULT_CAPACITY,
    EVENT_SIZE,
};

#[test]
fn throughput_is_count_over_duration() {
    assert_eq!(throughput_milli(1000, 1_000_000_000), 1_000_000);
    assert_eq!(throughput_milli(3, 2_000_000_000), 1_500);
    assert_eq!(throughput_milli(1, 3_000_000_000), 333);
    assert_eq!(throughput_milli(u64::MAX, 1), u64::MAX as u128 * 1_000_000_000_000);
}

#[test]
fn throughput_over_empty_window_is_zero() {
    assert_eq!(throughput_milli(0, 0), 0);
    assert_eq!(throughput_milli(5, 0), 0);
}

#[test]
fn zero_duration_with_no_events() {
    let mut b = RingBufferBenchmark::new(0, false);
    b.open_window();
    assert_eq!(b.poll(0), Step::Stop);
    let r = b.get_results().expect("window closed");
    assert_eq!(r.event_count, 0);
    assert_eq!(r.duration_ns, 0);
    assert_eq!(r.throughput_milli, 0);
    assert!(r.cpu_ids.is_empty());
    assert!(r.errors.is_empty());
    assert_eq!(r.memory_usage, 0);
    assert_eq!(r.name, "Ring Buffer Throughput");
    assert_eq!(r.language, "Rust");
    assert_eq!(r.program_type, "tracepoint");
    assert_eq!(r.data_mechanism, "ring_buffer");
    assert!(r.start_time.len() >= 19);
    assert!(r.end_time.len() >= 19);
}

#[test]
fn single_cpu_thousand_commits_drained() {
    let mut b = RingBufferBenchmark::new(1, false);
    b.open_window();
    for i in 0..1000u32 {
        let ctx = ProbeContext { timestamp: i as u64, pid_tgid: 9u64 << 32, cpu_id: 0, data: i };
        assert_eq!(b.fire(ctx), 0);
    }
    assert_eq!(b.poll(500_000_000), Step::Continue);
    assert_eq!(b.consumed_count(), 1000);
    assert_eq!(b.poll(1_000_000_000), Step::Stop);
    let r = b.get_results().unwrap();
    assert_eq!(r.event_count, 1000);
    assert_eq!(b.counters().get(COMMIT_INDEX), Some(1000));
    assert!(r.errors.is_empty());
    assert_eq!(r.cpu_ids, vec![0]);
    assert_eq!(r.throughput_milli, 1_000_000);
    assert_eq!(r.memory_usage, 1000 * EVENT_SIZE);
}

#[test]
fn cpu_ids_are_sorted_and_distinct() {
    let mut b = RingBufferBenchmark::new(1, false);
    b.open_window();
    for cpu in [5u32, 2, 5, 9, 0, 2, 9, 9] {
        let ctx = ProbeContext { timestamp: 0, pid_tgid: 0, cpu_id: cpu, data: 0 };
        assert_eq!(b.fire(ctx), 0);
    }
    assert_eq!(b.poll(2_000_000_000), Step::Stop);
    let r = b.get_results().unwrap();
    assert_eq!(r.cpu_ids, vec![0, 2, 5, 9]);
    assert_eq!(r.event_count, 8);
}

#[test]
fn simulated_tick_spreads_over_cpus() {
    let mut b = RingBufferBenchmark::new(1, false);
    b.open_window();
    assert_eq!(b.simulate_events(4, 10, 1234), 140);
    assert_eq!(b.ring().committed_count(), 140);
    assert_eq!(b.drain(), 140);
    assert_eq!(b.poll(1_000_000_000), Step::Stop);
    let r = b.get_results().unwrap();
    assert_eq!(r.cpu_ids, vec![0, 1, 2, 3]);
    assert_eq!(r.event_count, 140);
    assert!(r.errors.is_empty());
}

#[test]
fn simulated_tick_drops_when_transport_full() {
    let mut b = RingBufferBenchmark::with_capacity(1, false, 5 * EVENT_SIZE);
    assert_eq!(b.simulate_events(1, 0, 1), 5);
    assert_eq!(b.counters().get(COMMIT_INDEX), Some(5));
    assert_eq!(b.counters().get(1), Some(0));
    assert_eq!(b.drops(), 105);
    assert_eq!(b.simulate_events(1, 0, 1), 0);
    assert_eq!(b.drops(), 215);
    assert_eq!(b.ring().capacity(), 5 * EVENT_SIZE);
}

#[test]
fn results_twice_are_identical() {
    let mut b = RingBufferBenchmark::new(0, false);
    b.open_window();
    b.simulate_events(2, 1, 1);
    assert_eq!(b.poll(10), Step::Stop);
    let first = b.get_results().unwrap();
    let second = b.get_results().unwrap();
    assert_eq!(first, second);
    assert_eq!(first.duration_ns, 10);
    assert_eq!(first.throughput_milli, 120 * 1_000_000_000_000 / 10);
}

#[test]
fn no_result_while_window_open() {
    let mut b = RingBufferBenchmark::new(5, true);
    assert!(b.verbose());
    assert_eq!(b.duration_secs(), 5);
    assert_eq!(b.ring().capacity(), DEFAULT_CAPACITY);
    assert!(b.get_results().is_none());
    assert_eq!(b.poll(4_999_999_999), Step::Continue);
    assert!(b.get_results().is_none());
    assert_eq!(b.poll(5_000_000_000), Step::Stop);
    assert!(b.get_results().is_some());
    assert_eq!(b.poll(6_000_000_000), Step::Stop);
    assert_eq!(b.get_results().unwrap().duration_ns, 5_000_000_000);
}

#[test]
fn commit_after_close_is_reported_as_mismatch() {
    let mut b = RingBufferBenchmark::new(0, false);
    assert_eq!(b.poll(0), Step::Stop);
    let ctx = ProbeContext { timestamp: 0, pid_tgid: 0, cpu_id: 1, data: 0 };
    assert_eq!(b.fire(ctx), 0);
    let r = b.get_results().unwrap();
    assert_eq!(r.errors, vec![RunError::CounterMismatch { committed: 1, consumed: 0 }]);
}
