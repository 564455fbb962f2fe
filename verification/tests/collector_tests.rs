use ssl_proxy_manager::aggregator::Aggregator;
use ssl_proxy_manager::collector::Collector;
use ssl_proxy_manager::metrics::{get_metrics, RequestLog};
use ssl_proxy_manager::queue::BoundedQueue;

#[test]
fn recorded_requests_wait_in_order() {
    let mut c = Collector::new(8);
    assert!(c.record(":443", 100, 200, 1500, "10.0.0.1", "GET", "/a").is_none());
    assert!(c.record(":443", 101, 404, 2500, "10.0.0.2", "POST", "/b").is_none());
    assert_eq!(c.len(), 2);
    let mut agg = Aggregator::new(600, 60, 3600, 60);
    let mut logs: BoundedQueue<RequestLog> = BoundedQueue::new(8);
    let report = c.flush(&mut agg, &mut logs, 10);
    assert_eq!((report.taken, report.counted, report.logged), (2, 2, 2));
    assert_eq!(c.len(), 0);
    let rows = logs.take_batch(10);
    assert_eq!(rows.len(), 2);
    assert_eq!(rows[0].id, 0);
    assert_eq!(rows[0].timestamp, 100);
    assert_eq!(rows[0].listen_addr, ":443");
    assert_eq!(rows[0].method, "GET");
    assert_eq!(rows[0].path, "/a");
    assert_eq!(rows[0].status, 200);
    assert_eq!(rows[0].latency_us, 1500);
    assert_eq!(rows[0].client_ip, "10.0.0.1");
    assert_eq!(rows[1].method, "POST");
    assert_eq!(rows[1].client_ip, "10.0.0.2");
    let payload = get_metrics(&agg);
    assert_eq!(payload.by_listen_addr[0].counts, vec![2]);
    assert_eq!(payload.by_listen_addr[0].s2xx, vec![1]);
    assert_eq!(payload.by_listen_addr[0].s4xx, vec![1]);
    assert_eq!(payload.by_listen_addr[0].avg_latency, vec![2000]);
}

#[test]
fn overload_drops_the_oldest_record() {
    let mut c = Collector::new(3);
    for i in 0..5 {
        let dropped = c.record(":443", 1000 + i, 200, 1, "ip", "GET", "/");
        if i < 3 {
            assert!(dropped.is_none());
        } else {
            assert_eq!(dropped.unwrap().timestamp, 1000 + i - 3);
        }
    }
    assert_eq!(c.len(), 3);
    let mut agg = Aggregator::new(600, 1, 3600, 1);
    let mut logs: BoundedQueue<RequestLog> = BoundedQueue::new(8);
    c.flush(&mut agg, &mut logs, 10);
    let kept: Vec<i64> = logs.take_batch(10).iter().map(|l| l.timestamp).collect();
    assert_eq!(kept, vec![1002, 1003, 1004]);
    assert_eq!(get_metrics(&agg).by_listen_addr[0].timestamps, vec![1002, 1003, 1004]);
}

#[test]
fn full_log_queue_keeps_what_waits() {
    let mut c = Collector::new(10);
    for i in 0..6 {
        c.record(":443", i, 200, 1, "ip", "GET", "/");
    }
    let mut agg = Aggregator::new(600, 60, 3600, 60);
    let mut logs: BoundedQueue<RequestLog> = BoundedQueue::new(4);
    let report = c.flush(&mut agg, &mut logs, 5);
    assert_eq!((report.taken, report.counted, report.logged), (5, 5, 4));
    assert_eq!(c.len(), 1);
    assert_eq!(logs.len(), 4);
    let report = c.flush(&mut agg, &mut logs, 5);
    assert_eq!((report.taken, report.counted, report.logged), (1, 1, 0));
    let kept: Vec<i64> = logs.take_batch(10).iter().map(|l| l.timestamp).collect();
    assert_eq!(kept, vec![0, 1, 2, 3]);
    assert_eq!(get_metrics(&agg).by_listen_minute[0].counts, vec![6]);
}

#[test]
fn what_cannot_be_counted_is_still_logged() {
    let mut c = Collector::new(10);
    c.record(":443", -1, 200, 1, "ip", "GET", "/");
    c.record(":443", 5, 200, 1, "ip", "GET", "/");
    let mut agg = Aggregator::new(600, 60, 3600, 60);
    let mut logs: BoundedQueue<RequestLog> = BoundedQueue::new(4);
    let report = c.flush(&mut agg, &mut logs, 0);
    assert_eq!((report.taken, report.counted, report.logged), (0, 0, 0));
    let report = c.flush(&mut agg, &mut logs, 9);
    assert_eq!((report.taken, report.counted, report.logged), (2, 1, 2));
    assert_eq!(get_metrics(&agg).by_listen_addr[0].counts, vec![1]);
}
