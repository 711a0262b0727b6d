use ringbuf_throughput::{
    ringbuf_throughput, try_ringbuf_throughput, CounterTable, Event, ProbeContext, RingBuffer, TransportError,
    COMMIT_INDEX, COUNTER_SLOTS, EVENT_SIZE, EVENT_TYPE_TRACEPOINT,
};

fn event(data: u32) -> Event {
    Event { timestamp: 7, pid: 1, cpu_id: 0, event_type: EVENT_TYPE_TRACEPOINT, data }
}

#[test]
fn capacity_holds_thirty_two_records_of_thirty_two_bytes() {
    let mut rb = RingBuffer::new(1024);
    let mut handles = Vec::new();
    for _ in 0..32 {
        handles.push(rb.reserve(32).expect("space for 32 records"));
    }
    assert_eq!(rb.used_bytes(), 1024);
    assert!(matches!(rb.reserve(32), Err(TransportError::BufferFull)));
    // committing does not free bytes; only consumption does
    for (i, h) in handles.into_iter().enumerate() {
        assert!(rb.commit(h, event(i as u32)));
    }
    assert!(matches!(rb.reserve(32), Err(TransportError::BufferFull)));
    assert_eq!(rb.try_consume(), Some(event(0)));
    assert!(rb.reserve(32).is_ok());
    assert!(matches!(rb.reserve(1), Err(TransportError::BufferFull)));
}

#[test]
fn reservation_over_free_bytes_is_refused_without_change() {
    let mut rb = RingBuffer::new(100);
    let h = rb.reserve(60).unwrap();
    assert!(matches!(rb.reserve(41), Err(TransportError::BufferFull)));
    assert_eq!(rb.used_bytes(), 60);
    assert_eq!(rb.reserved_count(), 1);
    assert!(rb.reserve(40).is_ok());
    assert!(rb.commit(h, event(1)));
    assert_eq!(rb.capacity(), 100);
}

#[test]
fn uncommitted_record_is_not_visible() {
    let mut rb = RingBuffer::new(256);
    let h = rb.reserve(24).unwrap();
    assert_eq!(rb.try_consume(), None);
    assert_eq!(rb.committed_count(), 0);
    assert!(rb.commit(h, event(5)));
    assert_eq!(rb.committed_count(), 1);
    assert_eq!(rb.try_consume(), Some(event(5)));
    assert_eq!(rb.try_consume(), None);
    assert_eq!(rb.used_bytes(), 0);
}

#[test]
fn consumption_follows_commit_order() {
    let mut rb = RingBuffer::new(256);
    let a = rb.reserve(24).unwrap();
    let b = rb.reserve(24).unwrap();
    let c = rb.reserve(24).unwrap();
    assert!(rb.commit(b, event(2)));
    assert!(rb.commit(a, event(1)));
    assert_eq!(rb.try_consume(), Some(event(2)));
    assert!(rb.commit(c, event(3)));
    assert_eq!(rb.try_consume(), Some(event(1)));
    assert_eq!(rb.try_consume(), Some(event(3)));
    assert_eq!(rb.try_consume(), None);
}

#[test]
fn handle_of_another_buffer_is_refused() {
    let mut one = RingBuffer::new(256);
    let mut two = RingBuffer::new(256);
    let _ = two.reserve(24).unwrap();
    let foreign = two.reserve(24).unwrap();
    let _ = one.reserve(24).unwrap();
    assert!(!one.commit(foreign, event(9)));
    assert_eq!(one.committed_count(), 0);
    assert_eq!(one.reserved_count(), 1);
}

#[test]
fn counter_table_starts_at_zero_and_counts() {
    let mut t = CounterTable::new();
    for i in 0..COUNTER_SLOTS {
        assert_eq!(t.get(i), Some(0));
    }
    assert_eq!(t.get(COUNTER_SLOTS), None);
    assert!(t.increment(3));
    assert!(t.increment(3));
    assert_eq!(t.get(3), Some(2));
    assert!(!t.increment(COUNTER_SLOTS));
}

#[test]
fn probe_publishes_one_record_and_counts_it() {
    let mut rb = RingBuffer::new(1024);
    let mut t = CounterTable::new();
    let ctx = ProbeContext { timestamp: 123, pid_tgid: (42u64 << 32) | 77, cpu_id: 3, data: 0 };
    assert_eq!(try_ringbuf_throughput(&mut rb, &mut t, ctx), Ok(0));
    assert_eq!(t.get(COMMIT_INDEX), Some(1));
    for i in 1..COUNTER_SLOTS {
        assert_eq!(t.get(i), Some(0));
    }
    assert_eq!(rb.used_bytes(), EVENT_SIZE);
    assert_eq!(rb.reserved_count(), 0);
    assert_eq!(
        rb.try_consume(),
        Some(Event { timestamp: 123, pid: 42, cpu_id: 3, event_type: EVENT_TYPE_TRACEPOINT, data: 0 })
    );
}

#[test]
fn probe_drops_when_full() {
    let mut rb = RingBuffer::new(2 * EVENT_SIZE);
    let mut t = CounterTable::new();
    let ctx = ProbeContext { timestamp: 1, pid_tgid: 1u64 << 32, cpu_id: 0, data: 0 };
    assert_eq!(ringbuf_throughput(&mut rb, &mut t, ctx), 0);
    assert_eq!(ringbuf_throughput(&mut rb, &mut t, ctx), 0);
    assert_eq!(ringbuf_throughput(&mut rb, &mut t, ctx), 1);
    assert_eq!(try_ringbuf_throughput(&mut rb, &mut t, ctx), Err(1));
    assert_eq!(t.get(COMMIT_INDEX), Some(2));
    // a drop leaves the whole table as it was
    for i in 1..COUNTER_SLOTS {
        assert_eq!(t.get(i), Some(0));
    }
    assert_eq!(rb.committed_count(), 2);
    assert!(rb.try_consume().is_some());
    assert_eq!(ringbuf_throughput(&mut rb, &mut t, ctx), 0);
    assert_eq!(t.get(COMMIT_INDEX), Some(3));
}

#[test]
fn commit_counter_equals_commits_whatever_the_draining() {
    let mut rb = RingBuffer::new(10 * EVENT_SIZE);
    let mut t = CounterTable::new();
    let ctx = ProbeContext { timestamp: 1, pid_tgid: 0, cpu_id: 0, data: 0 };
    let mut published = 0u64;
    for i in 0..50 {
        if ringbuf_throughput(&mut rb, &mut t, ctx) == 0 {
            published += 1;
        }
        if i % 3 == 0 {
            let _ = rb.try_consume();
        }
    }
    assert_eq!(t.get(COMMIT_INDEX), Some(published));
    assert!(published < 50);
}
