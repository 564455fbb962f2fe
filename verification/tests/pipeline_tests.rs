use ssl_proxy_manager::access::Credentials;
use ssl_proxy_manager::aggregator::Aggregator;
use ssl_proxy_manager::blacklist::{ban_at, BlacklistStore};
use ssl_proxy_manager::config::{ListenRule, Route, Upstream, WhitelistEntry};
use ssl_proxy_manager::metrics::{get_metrics, query_request_logs, QueryRequestLogsRequest, RequestLog};
use ssl_proxy_manager::pipeline::{plan_request, Plan};
use ssl_proxy_manager::queue::BoundedQueue;
use ssl_proxy_manager::window::{status_class, StatusClass};

const NOW: i64 = 1_700_000_000;

fn api_route() -> Route {
    Route {
        id: Some("r1".to_string()),
        host: None,
        path: Some("/api".to_string()),
        proxy_pass_path: None,
        set_headers: None,
        static_dir: None,
        exclude_basic_auth: None,
        basic_auth_enable: None,
        basic_auth_username: None,
        basic_auth_password: None,
        basic_auth_forward_header: None,
        upstreams: vec![
            Upstream { url: "http://a:80".to_string(), weight: 3 },
            Upstream { url: "http://b:80".to_string(), weight: 1 },
        ],
    }
}

fn tls_rule(routes: Vec<Route>) -> ListenRule {
    ListenRule {
        id: Some("l1".to_string()),
        listen_addr: ":8443".to_string(),
        ssl_enable: true,
        cert_file: "c.pem".to_string(),
        key_file: "k.pem".to_string(),
        basic_auth_enable: false,
        basic_auth_username: String::new(),
        basic_auth_password: String::new(),
        basic_auth_forward_header: false,
        routes,
    }
}

fn status_of(plan: &Plan) -> Option<u16> {
    match plan {
        Plan::Respond { status } => Some(*status),
        _ => None,
    }
}

#[test]
fn thousand_requests_split_three_to_one() {
    let rule = tls_rule(vec![api_route()]);
    let blacklist = BlacklistStore::new();
    let mut agg = Aggregator::new(0, 0, 0, 0);
    let mut queue: BoundedQueue<RequestLog> = BoundedQueue::new(2000);
    let mut hits = [0u32; 2];
    let mut lcg: u64 = 0x2545_F491_4F6C_DD1D;
    let simulated = [200, 200, 500, 404];
    for i in 0..1000i64 {
        lcg = lcg.wrapping_mul(6364136223846793005).wrapping_add(1442695040888963407);
        let plan = plan_request(&Vec::new(), &blacklist, NOW + i, &rule, "10.1.1.1", "a.com", "/api/x", &None, lcg >> 33);
        let upstream = match plan {
            Plan::Forward { route, upstream, path, keep_credentials } => {
                assert_eq!(route, 0);
                assert_eq!(path, "/api/x");
                assert!(!keep_credentials);
                upstream
            }
            other => panic!("not forwarded: {:?}", other),
        };
        hits[upstream] += 1;
        let status = simulated[upstream * 2 + (i % 2) as usize];
        assert!(agg.record(":8443", NOW + i, status, 1500));
        let rejected = queue.push_or_reject(RequestLog {
            id: i + 1,
            timestamp: NOW + i,
            listen_addr: ":8443".to_string(),
            method: "GET".to_string(),
            path: "/api/x".to_string(),
            status,
            latency_us: 1500,
            client_ip: "10.1.1.1".to_string(),
        });
        assert!(rejected.is_none());
    }
    assert_eq!(hits[0] + hits[1], 1000);
    assert!((700..=800).contains(&hits[0]), "upstream A got {}", hits[0]);
    assert!((200..=300).contains(&hits[1]), "upstream B got {}", hits[1]);

    let stored = queue.take_batch(5000);
    let req = QueryRequestLogsRequest {
        start_time: NOW,
        end_time: NOW + 999,
        listen_addr: Some(":8443".to_string()),
        limit: 1000,
        offset: 0,
    };
    let resp = query_request_logs(&stored, &req).unwrap();
    assert_eq!(resp.total, 1000);
    assert_eq!(resp.logs.len(), 1000);
    let ok = resp.logs.iter().filter(|l| status_class(l.status) == StatusClass::Success).count();
    let client = resp.logs.iter().filter(|l| status_class(l.status) == StatusClass::ClientError).count();
    let server = resp.logs.iter().filter(|l| status_class(l.status) == StatusClass::ServerError).count();
    assert_eq!(ok + client + server, 1000);
    assert_eq!(ok + client + server, (hits[0] + hits[1]) as usize);

    let payload = get_metrics(&agg);
    let series = &payload.by_listen_minute[0];
    assert_eq!(series.counts.iter().sum::<i64>(), 1000);
    assert_eq!(series.s2xx.iter().sum::<i64>(), ok as i64);
    assert_eq!(series.s4xx.iter().sum::<i64>(), client as i64);
    assert_eq!(series.s5xx.iter().sum::<i64>(), server as i64);
}

#[test]
fn exact_split_over_a_full_cycle_of_draws() {
    let rule = tls_rule(vec![api_route()]);
    let blacklist = BlacklistStore::new();
    let mut hits = [0u32; 2];
    for d in 0..1000u64 {
        match plan_request(&Vec::new(), &blacklist, NOW, &rule, "10.1.1.1", "a.com", "/api", &None, d) {
            Plan::Forward { upstream, .. } => hits[upstream] += 1,
            other => panic!("not forwarded: {:?}", other),
        }
    }
    assert_eq!(hits, [750, 250]);
}

#[test]
fn banned_address_gets_403_and_is_metered() {
    let rule = tls_rule(vec![api_route()]);
    let mut blacklist = BlacklistStore::new();
    ban_at(&mut blacklist, "10.0.0.5".to_string(), "manual".to_string(), 1, NOW).unwrap();
    let mut agg = Aggregator::new(0, 0, 0, 0);
    let mut upstream_hits = 0;

    let plan = plan_request(&Vec::new(), &blacklist, NOW + 60, &rule, "10.0.0.5", "a.com", "/api", &None, 0);
    let status = match plan {
        Plan::Respond { status } => status,
        _ => {
            upstream_hits += 1;
            0
        }
    };
    assert_eq!(status, 403);
    assert_eq!(upstream_hits, 0);
    assert!(agg.record(&rule.listen_addr, NOW + 60, status as i32, 120));

    let payload = get_metrics(&agg);
    assert_eq!(payload.listen_addrs, vec![":8443".to_string()]);
    for series in [&payload.by_listen_addr[0], &payload.by_listen_minute[0]] {
        assert_eq!(series.counts, vec![1]);
        assert_eq!(series.s4xx, vec![1]);
        assert_eq!(series.s2xx, vec![0]);
        assert_eq!(series.s5xx, vec![0]);
    }

    let after = plan_request(&Vec::new(), &blacklist, NOW + 3600, &rule, "10.0.0.5", "a.com", "/api", &None, 0);
    assert!(matches!(after, Plan::Forward { upstream: 0, .. }));
}

#[test]
fn banned_address_is_denied_even_where_no_route_matches() {
    let rule = tls_rule(vec![api_route()]);
    let mut blacklist = BlacklistStore::new();
    ban_at(&mut blacklist, "10.0.0.5".to_string(), String::new(), 1, NOW).unwrap();
    let creds = Some(Credentials { username: "u".to_string(), password: "p".to_string() });
    let plan = plan_request(&Vec::new(), &blacklist, NOW, &rule, "10.0.0.5", "a.com", "/nope", &creds, 0);
    assert_eq!(status_of(&plan), Some(403));
    let white = vec![WhitelistEntry { ip: "10.0.0.5".to_string() }];
    let plan = plan_request(&white, &blacklist, NOW, &rule, "10.0.0.5", "a.com", "/nope", &None, 0);
    assert_eq!(status_of(&plan), Some(404));
    let plan = plan_request(&white, &blacklist, NOW, &rule, "10.0.0.5", "a.com", "/api", &None, 3);
    assert!(matches!(plan, Plan::Forward { upstream: 1, .. }));
}

#[test]
fn unmatched_request_gets_404() {
    let rule = tls_rule(vec![api_route()]);
    let plan = plan_request(&Vec::new(), &BlacklistStore::new(), NOW, &rule, "1.1.1.1", "a.com", "/", &None, 0);
    assert_eq!(status_of(&plan), Some(404));
}

#[test]
fn missing_credentials_get_401_before_any_upstream() {
    let mut rule = tls_rule(vec![api_route()]);
    rule.basic_auth_enable = true;
    rule.basic_auth_username = "admin".to_string();
    rule.basic_auth_password = "pw".to_string();
    rule.basic_auth_forward_header = true;
    let bl = BlacklistStore::new();
    let plan = plan_request(&Vec::new(), &bl, NOW, &rule, "1.1.1.1", "a.com", "/api", &None, 0);
    assert_eq!(status_of(&plan), Some(401));
    let wrong = Some(Credentials { username: "admin".to_string(), password: "no".to_string() });
    let plan = plan_request(&Vec::new(), &bl, NOW, &rule, "1.1.1.1", "a.com", "/api", &wrong, 0);
    assert_eq!(status_of(&plan), Some(401));
    let right = Some(Credentials { username: "admin".to_string(), password: "pw".to_string() });
    let plan = plan_request(&Vec::new(), &bl, NOW, &rule, "1.1.1.1", "a.com", "/api", &right, 0);
    assert!(matches!(plan, Plan::Forward { upstream: 0, keep_credentials: true, .. }));
    let white = vec![WhitelistEntry { ip: "1.1.1.1".to_string() }];
    let plan = plan_request(&white, &bl, NOW, &rule, "1.1.1.1", "a.com", "/api", &None, 0);
    assert!(matches!(plan, Plan::Forward { .. }));
}

#[test]
fn route_without_live_upstream_gets_502() {
    let mut route = api_route();
    route.upstreams[0].weight = 0;
    route.upstreams[1].weight = 0;
    let rule = tls_rule(vec![route]);
    let plan = plan_request(&Vec::new(), &BlacklistStore::new(), NOW, &rule, "1.1.1.1", "a.com", "/api", &None, 9);
    assert_eq!(status_of(&plan), Some(502));
    let mut empty = api_route();
    empty.upstreams.clear();
    let rule = tls_rule(vec![empty]);
    let plan = plan_request(&Vec::new(), &BlacklistStore::new(), NOW, &rule, "1.1.1.1", "a.com", "/api", &None, 9);
    assert_eq!(status_of(&plan), Some(502));
}

#[test]
fn static_route_serves_files_below_its_directory() {
    let mut route = api_route();
    route.path = Some("/static".to_string());
    route.upstreams.clear();
    route.static_dir = Some("/srv/www".to_string());
    let rule = tls_rule(vec![route]);
    let bl = BlacklistStore::new();
    match plan_request(&Vec::new(), &bl, NOW, &rule, "1.1.1.1", "a.com", "/static/css/a.css", &None, 0) {
        Plan::ServeFile { route, file } => {
            assert_eq!(route, 0);
            assert_eq!(file, "/srv/www/css/a.css");
        }
        other => panic!("not a file: {:?}", other),
    }
    let plan = plan_request(&Vec::new(), &bl, NOW, &rule, "1.1.1.1", "a.com", "/static/../../etc/passwd", &None, 0);
    assert_eq!(status_of(&plan), Some(403));
}

#[test]
fn forwarded_path_is_rewritten() {
    let mut route = api_route();
    route.proxy_pass_path = Some("/v2".to_string());
    let rule = tls_rule(vec![route]);
    match plan_request(&Vec::new(), &BlacklistStore::new(), NOW, &rule, "1.1.1.1", "a.com", "/api/users", &None, 3) {
        Plan::Forward { upstream, path, .. } => {
            assert_eq!(upstream, 1);
            assert_eq!(path, "/v2/users");
        }
        other => panic!("not forwarded: {:?}", other),
    }
}
