use ssl_proxy_manager::aggregator::Aggregator;
use ssl_proxy_manager::metrics::get_metrics;
use ssl_proxy_manager::percentile::{percentile, sorted_copy, tail_latencies};
use ssl_proxy_manager::window::{status_class, StatusClass, Window, RESERVOIR_CAPACITY};

#[test]
fn status_classes() {
    assert_eq!(status_class(200), StatusClass::Success);
    assert_eq!(status_class(299), StatusClass::Success);
    assert_eq!(status_class(301), StatusClass::Redirect);
    assert_eq!(status_class(403), StatusClass::ClientError);
    assert_eq!(status_class(502), StatusClass::ServerError);
    assert_eq!(status_class(599), StatusClass::ServerError);
    assert_eq!(status_class(0), StatusClass::Failure);
    assert_eq!(status_class(101), StatusClass::Failure);
    assert_eq!(status_class(600), StatusClass::Failure);
    assert_eq!(status_class(-1), StatusClass::Failure);
}

#[test]
fn samples_of_one_minute_share_a_bucket() {
    let mut w = Window::new(3600, 60);
    assert!(w.record(120, 200, 1000));
    assert!(w.record(179, 404, 3000));
    assert!(w.record(125, 500, 2000));
    assert_eq!(w.len(), 1);
    let s = w.series();
    assert_eq!(s.timestamps, vec![120]);
    assert_eq!(s.counts, vec![3]);
    assert_eq!(s.s2xx, vec![1]);
    assert_eq!(s.s3xx, vec![0]);
    assert_eq!(s.s4xx, vec![1]);
    assert_eq!(s.s5xx, vec![1]);
    assert_eq!(s.s0, vec![0]);
    assert_eq!(s.avg_latency, vec![2000]);
    assert_eq!(s.max_latency, vec![3000]);
    assert_eq!(s.p95, vec![3000]);
    assert_eq!(s.p99, vec![3000]);
}

#[test]
fn buckets_come_out_in_time_order_whatever_the_arrival() {
    let mut w = Window::new(3600, 60);
    for ts in [600, 60, 300, 61, 0, 659] {
        assert!(w.record(ts, 200, 10));
    }
    let s = w.series();
    assert_eq!(s.timestamps, vec![0, 60, 300, 600]);
    assert_eq!(s.counts, vec![1, 2, 1, 2]);
}

#[test]
fn arrival_order_does_not_change_totals() {
    let samples = [(30, 200, 5u64), (300, 500, 7), (3700, 404, 1), (61, 302, 9), (3800, 0, 2), (359, 200, 3)];
    let mut forward = Window::new(3600, 60);
    let mut backward = Window::new(3600, 60);
    for (ts, st, lat) in samples {
        forward.record(ts, st, lat);
    }
    for (ts, st, lat) in samples.iter().rev() {
        backward.record(*ts, *st, *lat);
    }
    let a = forward.series();
    let b = backward.series();
    assert_eq!(a.timestamps, b.timestamps);
    assert_eq!(a.counts, b.counts);
    assert_eq!(a.s2xx, b.s2xx);
    assert_eq!(a.s3xx, b.s3xx);
    assert_eq!(a.s4xx, b.s4xx);
    assert_eq!(a.s5xx, b.s5xx);
    assert_eq!(a.s0, b.s0);
    assert_eq!(a.avg_latency, b.avg_latency);
    assert_eq!(a.max_latency, b.max_latency);
    assert_eq!(a.timestamps, vec![300, 3660, 3780]);
    assert_eq!(a.counts, vec![2, 1, 1]);
    assert_eq!(a.s0, vec![0, 0, 1]);
}

#[test]
fn totals_equal_the_number_recorded() {
    let mut w = Window::new(3600, 60);
    let n = 5000;
    for i in 0..n {
        assert!(w.record(1_000_000 + (i * 7919) % 3000, 200 + (i % 4) as i32 * 100, 100));
    }
    let s = w.series();
    assert_eq!(s.counts.iter().sum::<i64>(), n);
    assert_eq!(
        s.s2xx.iter().sum::<i64>() + s.s3xx.iter().sum::<i64>() + s.s4xx.iter().sum::<i64>()
            + s.s5xx.iter().sum::<i64>(),
        n
    );
}

#[test]
fn old_buckets_are_evicted_on_the_next_write() {
    let mut w = Window::new(180, 60);
    w.record(0, 200, 1);
    w.record(60, 200, 1);
    w.record(120, 200, 1);
    assert_eq!(w.series().timestamps, vec![0, 60, 120]);
    w.record(180, 200, 1);
    assert_eq!(w.series().timestamps, vec![60, 120, 180]);
    w.record(10_000, 200, 1);
    assert_eq!(w.series().timestamps, vec![9960]);
    assert_eq!(w.len(), 1);
}

#[test]
fn a_sample_older_than_the_span_is_dropped() {
    let mut w = Window::new(180, 60);
    w.record(1000, 200, 1);
    assert!(w.record(100, 200, 1));
    assert_eq!(w.series().timestamps, vec![960]);
    assert!(w.record(840, 200, 1));
    assert_eq!(w.series().timestamps, vec![840, 960]);
    assert!(w.record(839, 200, 1));
    assert_eq!(w.series().timestamps, vec![840, 960]);
    assert_eq!(w.series().counts, vec![1, 1]);
}

#[test]
fn negative_time_stamps_are_not_counted() {
    let mut w = Window::new(180, 60);
    assert!(!w.can_record(-1, 0));
    assert!(!w.record(-1, 200, 1));
    assert_eq!(w.len(), 0);
    assert!(w.can_record(0, u64::MAX));
    assert!(w.record(0, 200, u64::MAX));
    assert!(!w.can_record(1, 1));
    assert!(!w.record(1, 200, 1));
    assert!(w.record(1, 200, 0));
    assert_eq!(w.series().counts, vec![2]);
}

#[test]
fn spans_and_steps_that_are_not_positive_count_as_one() {
    let mut w = Window::new(0, -5);
    w.record(7, 200, 1);
    w.record(8, 200, 1);
    assert_eq!(w.series().timestamps, vec![8]);
}

#[test]
fn reservoir_keeps_the_newest_samples() {
    let mut w = Window::new(60, 60);
    for i in 0..(RESERVOIR_CAPACITY as u64) {
        w.record(0, 200, 1_000_000 + i);
    }
    assert_eq!(w.series().p99, vec![1_000_000 + 506]);
    for _ in 0..(RESERVOIR_CAPACITY as u64) {
        w.record(0, 200, 5);
    }
    let s = w.series();
    assert_eq!(s.counts, vec![2 * RESERVOIR_CAPACITY as i64]);
    assert_eq!(s.p95, vec![5]);
    assert_eq!(s.p99, vec![5]);
    assert_eq!(s.max_latency, vec![1_000_000 + 511]);
}

#[test]
fn percentiles_by_nearest_rank() {
    let samples: Vec<u64> = (1..=100).rev().collect();
    assert_eq!(percentile(&samples, 95), 95);
    assert_eq!(percentile(&samples, 99), 99);
    assert_eq!(percentile(&samples, 100), 100);
    assert_eq!(percentile(&samples, 50), 50);
    assert_eq!(percentile(&samples, 1), 1);
    assert_eq!(percentile(&samples, 0), 1);
    assert_eq!(percentile(&samples, 200), 100);
    assert_eq!(percentile(&vec![7], 95), 7);
    assert_eq!(percentile(&vec![], 95), 0);
    assert_eq!(percentile(&vec![10, 20, 30, 40], 50), 20);
    assert_eq!(percentile(&vec![10, 20, 30, 40], 51), 30);
    assert_eq!(tail_latencies(&vec![3, 1, 2]), (3, 3));
    assert_eq!(tail_latencies(&vec![]), (0, 0));
    let twenty: Vec<u64> = (1..=20).collect();
    assert_eq!(tail_latencies(&twenty), (19, 20));
}

#[test]
fn sorted_copy_sorts() {
    assert_eq!(sorted_copy(&vec![5, 1, 4, 1, 9, 0]), vec![0, 1, 1, 4, 5, 9]);
    assert_eq!(sorted_copy(&vec![]), Vec::<u64>::new());
    assert_eq!(sorted_copy(&vec![u64::MAX, 0]), vec![0, u64::MAX]);
}

#[test]
fn aggregator_keeps_listeners_apart() {
    let mut agg = Aggregator::new(120, 60, 600, 60);
    assert!(agg.record(":443", 1000, 200, 10));
    assert!(agg.record(":8443", 1000, 500, 30));
    assert!(agg.record(":443", 1010, 404, 20));
    assert!(agg.record(":443", 1300, 200, 40));
    assert_eq!(agg.listener_count(), 2);
    let payload = get_metrics(&agg);
    assert_eq!(payload.window_seconds, 120);
    assert_eq!(payload.minute_window_seconds, 600);
    assert_eq!(payload.listen_addrs, vec![":443".to_string(), ":8443".to_string()]);
    assert_eq!(payload.by_listen_addr[0].timestamps, vec![1260]);
    assert_eq!(payload.by_listen_addr[0].counts, vec![1]);
    assert_eq!(payload.by_listen_minute[0].timestamps, vec![960, 1260]);
    assert_eq!(payload.by_listen_minute[0].counts, vec![2, 1]);
    assert_eq!(payload.by_listen_minute[0].s4xx, vec![1, 0]);
    assert_eq!(payload.by_listen_minute[0].avg_latency, vec![15, 40]);
    assert_eq!(payload.by_listen_addr[1].timestamps, vec![960]);
    assert_eq!(payload.by_listen_addr[1].s5xx, vec![1]);
    assert_eq!(payload.by_listen_minute[1].counts, vec![1]);
}

#[test]
fn aggregator_defaults() {
    let agg = Aggregator::new(0, 0, -1, 0);
    assert_eq!(agg.short_window_seconds(), 21600);
    assert_eq!(agg.long_window_seconds(), 86400);
    let payload = get_metrics(&agg);
    assert!(payload.listen_addrs.is_empty());
    assert!(payload.by_listen_addr.is_empty());
    assert!(payload.by_listen_minute.is_empty());
}

#[test]
fn aggregator_rejects_what_cannot_be_counted() {
    let mut agg = Aggregator::new(120, 60, 600, 60);
    assert!(!agg.record(":443", -5, 200, 10));
    assert_eq!(agg.listener_count(), 0);
    assert!(agg.record(":443", 5, 200, u64::MAX));
    assert!(!agg.record(":443", 6, 200, 1));
    assert_eq!(get_metrics(&agg).by_listen_addr[0].counts, vec![1]);
    assert_eq!(get_metrics(&agg).by_listen_minute[0].counts, vec![1]);
}
