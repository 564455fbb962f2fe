use ssl_proxy_manager::config::{Route, Upstream};
use ssl_proxy_manager::router::{accepts, host_without_port, match_route};

fn route(host: Option<&str>, path: Option<&str>) -> Route {
    Route {
        id: None,
        host: host.map(|s| s.to_string()),
        path: path.map(|s| s.to_string()),
        proxy_pass_path: None,
        set_headers: None,
        static_dir: None,
        exclude_basic_auth: None,
        basic_auth_enable: None,
        basic_auth_username: None,
        basic_auth_password: None,
        basic_auth_forward_header: None,
        upstreams: vec![Upstream { url: "http://127.0.0.1:1".to_string(), weight: 1 }],
    }
}

#[test]
fn first_listed_route_wins() {
    let routes = vec![route(Some("a.com"), Some("/x")), route(Some("a.com"), Some("/"))];
    assert_eq!(match_route(&routes, "a.com", "/x/y"), Some(0));
    assert_eq!(match_route(&routes, "a.com", "/z"), Some(1));
}

#[test]
fn order_of_routes_matters() {
    let routes = vec![route(Some("a.com"), Some("/")), route(Some("a.com"), Some("/x"))];
    assert_eq!(match_route(&routes, "a.com", "/x/y"), Some(0));
}

#[test]
fn matching_is_repeatable() {
    let routes = vec![route(Some("a.com"), Some("/x")), route(None, Some("/"))];
    for _ in 0..10 {
        assert_eq!(match_route(&routes, "b.com", "/x"), Some(1));
    }
}

#[test]
fn no_route_no_match() {
    let routes = vec![route(Some("a.com"), Some("/x"))];
    assert_eq!(match_route(&routes, "b.com", "/x"), None);
    assert_eq!(match_route(&routes, "a.com", "/y"), None);
    assert_eq!(match_route(&Vec::new(), "a.com", "/"), None);
}

#[test]
fn route_without_host_matches_every_host() {
    let routes = vec![route(None, Some("/api"))];
    assert_eq!(match_route(&routes, "anything.example", "/api/v1"), Some(0));
    assert_eq!(match_route(&routes, "", "/api"), Some(0));
}

#[test]
fn route_without_path_matches_every_path() {
    let r = route(Some("a.com"), None);
    assert!(accepts(&r, "a.com", "/whatever"));
    assert!(accepts(&r, "a.com", ""));
    assert!(!accepts(&r, "A.com", "/whatever"));
}

#[test]
fn path_must_begin_with_the_prefix() {
    let r = route(None, Some("/api"));
    assert!(accepts(&r, "h", "/api"));
    assert!(accepts(&r, "h", "/apix"));
    assert!(!accepts(&r, "h", "/ap"));
    assert!(!accepts(&r, "h", "x/api"));
}

#[test]
fn port_is_taken_off_the_host() {
    assert_eq!(host_without_port("a.com:8443"), "a.com");
    assert_eq!(host_without_port("a.com"), "a.com");
    assert_eq!(host_without_port("a.com:"), "a.com:");
    assert_eq!(host_without_port("[::1]:443"), "[::1]");
    assert_eq!(host_without_port("[::1]"), "[::1]");
    assert_eq!(host_without_port(":80"), "");
    assert_eq!(host_without_port("8080"), "8080");
    assert_eq!(host_without_port("a:b:80"), "a:b");
    assert_eq!(host_without_port("a.com:80a"), "a.com:80a");
    assert_eq!(host_without_port(""), "");
}
