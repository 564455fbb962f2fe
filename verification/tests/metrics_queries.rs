use ssl_proxy_manager::config::MetricsStorage;
use ssl_proxy_manager::metrics::{
    configure_metrics_db, get_metrics_db_status, init_db, query_historical_metrics,
    query_request_logs, test_metrics_db_connection, MetricsDb, PathProbe, QueryError,
    QueryMetricsRequest, QueryRequestLogsRequest, RequestLog, StorageError,
};

fn log(id: i64, ts: i64, addr: &str, status: i32, latency_us: u64) -> RequestLog {
    RequestLog {
        id,
        timestamp: ts,
        listen_addr: addr.to_string(),
        method: "GET".to_string(),
        path: "/api".to_string(),
        status,
        latency_us,
        client_ip: "10.0.0.9".to_string(),
    }
}

fn sample_logs() -> Vec<RequestLog> {
    vec![
        log(1, 100, ":443", 200, 1000),
        log(2, 119, ":443", 404, 3000),
        log(3, 120, ":8443", 500, 500),
        log(4, 250, ":443", 302, 10),
        log(5, 301, ":443", 200, 20),
        log(6, 99, ":443", 200, 7),
    ]
}

fn history(start: i64, end: i64, addr: Option<&str>) -> QueryMetricsRequest {
    QueryMetricsRequest { start_time: start, end_time: end, listen_addr: addr.map(|s| s.to_string()) }
}

fn page(start: i64, end: i64, addr: Option<&str>, limit: i32, offset: i32) -> QueryRequestLogsRequest {
    QueryRequestLogsRequest {
        start_time: start,
        end_time: end,
        listen_addr: addr.map(|s| s.to_string()),
        limit,
        offset,
    }
}

#[test]
fn history_has_a_point_for_every_bucket() {
    let resp = query_historical_metrics(&sample_logs(), &history(100, 300, None), 60).unwrap();
    let ts: Vec<i64> = resp.data.iter().map(|p| p.timestamp).collect();
    assert_eq!(ts, vec![60, 120, 180, 240, 300]);
    let counts: Vec<i64> = resp.data.iter().map(|p| p.count).collect();
    assert_eq!(counts, vec![2, 1, 0, 1, 0]);
    assert_eq!(resp.data[0].status_2xx, 1);
    assert_eq!(resp.data[0].status_4xx, 1);
    assert_eq!(resp.data[0].avg_latency, 2000);
    assert_eq!(resp.data[1].status_5xx, 1);
    assert_eq!(resp.data[1].avg_latency, 500);
    assert_eq!(resp.data[2].avg_latency, 0);
    assert_eq!(resp.data[3].status_3xx, 1);
}

#[test]
fn history_counts_sum_to_the_rows_in_range() {
    let logs: Vec<RequestLog> =
        (0..1000).map(|i| log(i, 5_000 + (i * 37) % 900, ":443", 200, 1)).collect();
    let resp = query_historical_metrics(&logs, &history(5_100, 5_700, None), 60).unwrap();
    let in_range = logs.iter().filter(|l| l.timestamp >= 5_100 && l.timestamp <= 5_700).count();
    assert_eq!(resp.data.iter().map(|p| p.count).sum::<i64>(), in_range as i64);
    assert_eq!(resp.data.len(), 11);
    for (i, p) in resp.data.iter().enumerate() {
        assert_eq!(p.timestamp, 5_100 + 60 * i as i64);
    }
}

#[test]
fn history_of_one_listener() {
    let resp = query_historical_metrics(&sample_logs(), &history(0, 400, Some(":8443")), 100).unwrap();
    let counts: Vec<i64> = resp.data.iter().map(|p| p.count).collect();
    assert_eq!(counts, vec![0, 1, 0, 0, 0]);
}

#[test]
fn history_of_an_empty_store_is_all_zero() {
    let resp = query_historical_metrics(&Vec::new(), &history(0, 179, None), 60).unwrap();
    assert_eq!(resp.data.len(), 3);
    assert!(resp.data.iter().all(|p| p.count == 0 && p.avg_latency == 0));
}

#[test]
fn history_of_one_second() {
    let resp = query_historical_metrics(&sample_logs(), &history(119, 119, None), 60).unwrap();
    assert_eq!(resp.data.len(), 1);
    assert_eq!(resp.data[0].timestamp, 60);
    assert_eq!(resp.data[0].count, 1);
}

#[test]
fn history_rejects_bad_ranges() {
    let logs = sample_logs();
    assert_eq!(query_historical_metrics(&logs, &history(10, 9, None), 60).unwrap_err(), QueryError::InvalidRange);
    assert_eq!(query_historical_metrics(&logs, &history(0, 9, None), 0).unwrap_err(), QueryError::InvalidRange);
    assert_eq!(query_historical_metrics(&logs, &history(0, 9, None), -60).unwrap_err(), QueryError::InvalidRange);
    assert_eq!(
        query_historical_metrics(&logs, &history(i64::MIN, i64::MIN + 5, None), 60).unwrap_err(),
        QueryError::RangeTooLarge
    );
}

#[test]
fn history_of_a_long_range_is_answered_whole() {
    let logs = vec![log(1, 0, ":443", 200, 10), log(2, 6_000_000, ":443", 500, 30), log(3, 6_000_001, ":443", 200, 1)];
    let resp = query_historical_metrics(&logs, &history(0, 6_000_000, None), 60).unwrap();
    assert_eq!(resp.data.len(), 100_001);
    assert_eq!(resp.data.iter().map(|p| p.count).sum::<i64>(), 2);
    assert_eq!(resp.data[0].count, 1);
    assert_eq!(resp.data[100_000].timestamp, 6_000_000);
    assert_eq!(resp.data[100_000].count, 1);
    assert_eq!(resp.data[100_000].status_5xx, 1);
    for (i, p) in resp.data.iter().enumerate() {
        assert_eq!(p.timestamp, 60 * i as i64);
    }
    let by_second = query_historical_metrics(&logs, &history(0, 200_000, None), 1).unwrap();
    assert_eq!(by_second.data.len(), 200_001);
}

#[test]
fn history_may_start_before_the_epoch() {
    let logs = vec![log(1, -61, ":443", 200, 10), log(2, -1, ":443", 404, 30), log(3, 0, ":443", 200, 2), log(4, -130, ":443", 200, 2)];
    let resp = query_historical_metrics(&logs, &history(-100, 59, None), 60).unwrap();
    let ts: Vec<i64> = resp.data.iter().map(|p| p.timestamp).collect();
    assert_eq!(ts, vec![-120, -60, 0]);
    let counts: Vec<i64> = resp.data.iter().map(|p| p.count).collect();
    assert_eq!(counts, vec![1, 1, 1]);
    assert_eq!(resp.data[1].status_4xx, 1);
    let one = query_historical_metrics(&logs, &history(-1, -1, None), 60).unwrap();
    assert_eq!(one.data.len(), 1);
    assert_eq!((one.data[0].timestamp, one.data[0].count), (-60, 1));
}

#[test]
fn log_pages() {
    let logs = sample_logs();
    let all = query_request_logs(&logs, &page(0, 1000, None, 100, 0)).unwrap();
    assert_eq!(all.total, 6);
    assert_eq!(all.logs.iter().map(|l| l.id).collect::<Vec<_>>(), vec![1, 2, 3, 4, 5, 6]);
    let second = query_request_logs(&logs, &page(0, 1000, None, 2, 2)).unwrap();
    assert_eq!(second.total, 6);
    assert_eq!(second.logs.iter().map(|l| l.id).collect::<Vec<_>>(), vec![3, 4]);
    let last = query_request_logs(&logs, &page(0, 1000, None, 4, 4)).unwrap();
    assert_eq!(last.logs.iter().map(|l| l.id).collect::<Vec<_>>(), vec![5, 6]);
    let beyond = query_request_logs(&logs, &page(0, 1000, None, 4, 6)).unwrap();
    assert_eq!(beyond.total, 6);
    assert!(beyond.logs.is_empty());
}

#[test]
fn log_query_filters_by_range_and_listener() {
    let logs = sample_logs();
    let r = query_request_logs(&logs, &page(100, 250, Some(":443"), 10, 0)).unwrap();
    assert_eq!(r.total, 3);
    assert_eq!(r.logs.iter().map(|l| l.id).collect::<Vec<_>>(), vec![1, 2, 4]);
    assert_eq!(r.logs[1].status, 404);
    assert_eq!(r.logs[1].latency_us, 3000);
    assert_eq!(r.logs[1].client_ip, "10.0.0.9");
    let none = query_request_logs(&logs, &page(100, 250, Some(":80"), 10, 0)).unwrap();
    assert_eq!(none.total, 0);
    assert!(none.logs.is_empty());
    let empty_range = query_request_logs(&logs, &page(300, 100, None, 10, 0)).unwrap();
    assert_eq!(empty_range.total, 0);
}

#[test]
fn negative_limit_and_offset_count_as_zero() {
    let logs = sample_logs();
    let r = query_request_logs(&logs, &page(0, 1000, None, -1, 0)).unwrap();
    assert_eq!(r.total, 6);
    assert!(r.logs.is_empty());
    let r = query_request_logs(&logs, &page(0, 1000, None, 2, -7)).unwrap();
    assert_eq!(r.logs.iter().map(|l| l.id).collect::<Vec<_>>(), vec![1, 2]);
}

#[test]
fn db_status_of_a_new_store() {
    let db = MetricsDb::new();
    let status =
        get_metrics_db_status(&db, &PathProbe { file_exists: false, dir_exists: false, dir_writable: false });
    assert!(!status.enabled);
    assert!(!status.initialized);
    assert_eq!(status.path, "");
    assert!(status.error.is_none());
    assert!(!status.file_exists && !status.dir_exists && !status.dir_writable);
    assert!(status.message.is_none());
    assert!(!db.is_ready());
}

#[test]
fn configured_store_shows_in_the_status_also_when_switched_off() {
    let probe = PathProbe { file_exists: true, dir_exists: true, dir_writable: true };
    let mut db = MetricsDb::new();
    configure_metrics_db(&mut db, &Some(MetricsStorage { enabled: false, db_path: "data/m.db".to_string() }));
    let status = get_metrics_db_status(&db, &probe);
    assert!(!status.enabled);
    assert!(!status.initialized);
    assert_eq!(status.path, "data/m.db");
    assert!(status.file_exists && status.dir_exists && status.dir_writable);
    assert!(status.error.is_none());
    assert!(!db.is_ready());

    configure_metrics_db(&mut db, &Some(MetricsStorage { enabled: true, db_path: "other.db".to_string() }));
    let status = get_metrics_db_status(&db, &probe);
    assert!(status.enabled && !status.initialized);
    assert_eq!(status.path, "other.db");

    configure_metrics_db(&mut db, &None);
    let status = get_metrics_db_status(&db, &probe);
    assert!(!status.enabled);
    assert_eq!(status.path, "");
}

#[test]
fn init_db_records_the_outcome() {
    let mut db = MetricsDb::new();
    configure_metrics_db(&mut db, &Some(MetricsStorage { enabled: true, db_path: "data/m.db".to_string() }));
    assert_eq!(init_db(&mut db, "data/m.db".to_string(), None), Ok(()));
    assert!(db.is_ready());
    let probe = PathProbe { file_exists: true, dir_exists: true, dir_writable: false };
    let status = get_metrics_db_status(&db, &probe);
    assert!(status.enabled && status.initialized);
    assert_eq!(status.path, "data/m.db");
    assert!(status.file_exists && status.dir_exists && !status.dir_writable);

    assert_eq!(
        init_db(&mut db, "data/m.db".to_string(), Some("locked".to_string())),
        Err(StorageError::Unavailable)
    );
    assert!(!db.is_ready());
    let status = get_metrics_db_status(&db, &probe);
    assert!(status.enabled && !status.initialized);
    assert_eq!(status.error.as_deref(), Some("locked"));

    assert_eq!(init_db(&mut db, "  ".to_string(), None), Err(StorageError::MissingPath));
    assert!(!db.is_ready());
    assert!(get_metrics_db_status(&db, &probe).error.is_none());
}

#[test]
fn opening_does_not_switch_a_store_on() {
    let mut db = MetricsDb::new();
    assert_eq!(init_db(&mut db, "m.db".to_string(), None), Ok(()));
    assert!(!db.is_ready());
    let status = get_metrics_db_status(&db, &PathProbe { file_exists: true, dir_exists: true, dir_writable: true });
    assert!(!status.enabled && status.initialized);
}

#[test]
fn connection_test_messages() {
    assert_eq!(test_metrics_db_connection("m.db", &None), (true, "连接成功".to_string()));
    assert_eq!(
        test_metrics_db_connection("m.db", &Some("no such dir".to_string())),
        (false, "no such dir".to_string())
    );
    assert_eq!(test_metrics_db_connection("", &None), (false, "数据库路径为空".to_string()));
}
