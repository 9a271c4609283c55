use raft_log::metrics::duration_micros;
use raft_log::metrics::update_max;
use raft_log::metrics::BatchMetrics;
use raft_log::metrics::FlushCounters;
use raft_log::metrics::FlushMetrics;

#[test]
fn test_batch_metrics_accumulate() {
    let mut m = BatchMetrics::new(3, 7);
    assert_eq!(3, m.batch_size);
    assert_eq!(7, m.group_wait_us);
    m.record_queued_write(5, 100, true);
    m.record_queued_write(9, 20, false);
    m.record_queued_write(2, 0, true);
    assert_eq!(16, m.queued_wait_us);
    assert_eq!(9, m.queued_wait_max_us);
    assert_eq!(120, m.write_bytes);
    assert_eq!(2, m.callback_count);
    m.record_write_time(30);
    assert!(!m.sync_batch);
    m.record_sync_time(40);
    assert!(m.sync_batch);
    m.record_batch_time(80);
    assert_eq!((30, 40, 80), (m.write_us, m.sync_us, m.batch_us));
}

#[test]
fn test_flush_counters_sum_and_max() {
    let mut c = FlushCounters::new();
    let mut a = BatchMetrics::new(2, 0);
    a.record_queued_write(4, 10, true);
    a.record_write_time(6);
    a.record_batch_time(8);
    c.record_batch(a);

    let mut b = BatchMetrics::new(5, 3);
    b.record_queued_write(1, 50, false);
    b.record_write_time(2);
    b.record_sync_time(9);
    b.record_batch_time(12);
    c.record_batch(b);

    let got = c.snapshot();
    let want = FlushMetrics {
        batch_count: 2,
        sync_batch_count: 1,
        write_request_count: 7,
        write_bytes: 60,
        callback_count: 1,
        group_wait_count: 1,
        group_wait_us: 3,
        group_wait_max_us: 3,
        queued_wait_us: 5,
        queued_wait_max_us: 4,
        write_us: 8,
        write_max_us: 6,
        sync_us: 9,
        sync_max_us: 9,
        batch_us: 20,
        batch_max_us: 12,
        batch_size_max: 5,
        batch_bytes_max: 50,
        last_batch_size: 5,
        last_batch_bytes: 50,
        last_callback_count: 0,
        last_sync_us: 9,
        last_queued_wait_max_us: 1,
    };
    assert_eq!(want, got);
}

#[test]
fn test_counters_wrap_and_micros_saturate() {
    assert_eq!(5, duration_micros(5));
    assert_eq!(u64::MAX, duration_micros(u64::MAX as u128 + 10));

    let mut x = 3u64;
    update_max(&mut x, 2);
    assert_eq!(3, x);
    update_max(&mut x, 8);
    assert_eq!(8, x);

    let mut c = FlushCounters::new();
    let mut b = BatchMetrics::new(1, 0);
    b.record_batch_time(u64::MAX);
    c.record_batch(b);
    let mut b = BatchMetrics::new(1, 0);
    b.record_batch_time(2);
    c.record_batch(b);
    assert_eq!(1, c.snapshot().batch_us);
    assert_eq!(u64::MAX, c.snapshot().batch_max_us);
}

#[test]
fn test_fits_queued_write() {
    let mut m = BatchMetrics::new(1, 0);
    assert!(m.fits_queued_write(5, 10, true));
    m.record_queued_write(u64::MAX - 5, 10, false);
    assert!(m.fits_queued_write(5, 10, true));
    assert!(!m.fits_queued_write(6, 10, false));
    assert!(!m.fits_queued_write(0, usize::MAX, false));
    m.callback_count = u64::MAX;
    assert!(!m.fits_queued_write(0, 0, true));
    assert!(m.fits_queued_write(0, 0, false));
}
