use ssl_proxy_manager::config::{Header, Route, Upstream};
use ssl_proxy_manager::forward::{
    apply_set_headers, failure_status, hop_by_hop, path_below_prefix, prepare_client_headers,
    prepare_upstream_headers, rewrite_path, route_target, strip_credentials, strip_hop_by_hop, upstream_url, RouteTarget,
    UpstreamFailure,
};
use ssl_proxy_manager::static_files::resolve_static_path;
use ssl_proxy_manager::text::{eq_ignore_case, starts_with, str_eq};

fn fwd_route(path: Option<&str>, pass: Option<&str>) -> Route {
    Route {
        id: None,
        host: None,
        path: path.map(|s| s.to_string()),
        proxy_pass_path: pass.map(|s| s.to_string()),
        set_headers: None,
        static_dir: None,
        exclude_basic_auth: None,
        basic_auth_enable: None,
        basic_auth_username: None,
        basic_auth_password: None,
        basic_auth_forward_header: None,
        upstreams: vec![],
    }
}

fn h(name: &str, value: &str) -> Header {
    Header { name: name.to_string(), value: value.to_string() }
}

fn pairs(hs: &[Header]) -> Vec<(&str, &str)> {
    hs.iter().map(|h| (h.name.as_str(), h.value.as_str())).collect()
}

#[test]
fn path_is_kept_without_a_pass_path() {
    assert_eq!(rewrite_path(&fwd_route(Some("/api"), None), "/api/users?x=1"), "/api/users?x=1");
}

#[test]
fn pass_path_replaces_the_route_prefix() {
    let r = fwd_route(Some("/api"), Some("/v2"));
    assert_eq!(rewrite_path(&r, "/api/users"), "/v2/users");
    assert_eq!(rewrite_path(&r, "/api"), "/v2");
    assert_eq!(rewrite_path(&fwd_route(Some("/api/"), Some("/")), "/api/a/b"), "/a/b");
    assert_eq!(rewrite_path(&fwd_route(None, Some("/base")), "/x"), "/base/x");
    assert_eq!(rewrite_path(&fwd_route(Some("/other"), Some("/base")), "/x"), "/base/x");
    assert_eq!(rewrite_path(&fwd_route(Some("/é"), Some("/ü")), "/é/ß"), "/ü/ß");
}

#[test]
fn path_below_the_prefix() {
    assert_eq!(path_below_prefix(&fwd_route(Some("/static"), None), "/static/css/a.css"), "/css/a.css");
    assert_eq!(path_below_prefix(&fwd_route(None, None), "/a"), "/a");
    assert_eq!(path_below_prefix(&fwd_route(Some("/b"), None), "/a"), "/a");
}

#[test]
fn set_headers_override_and_add() {
    let headers = vec![h("Host", "a.com"), h("X-Trace", "1"), h("x-trace", "2"), h("Accept", "*/*")];
    let set = vec![h("X-TRACE", "new"), h("X-Added", "yes")];
    let out = apply_set_headers(headers, &set);
    assert_eq!(
        pairs(&out),
        vec![("Host", "a.com"), ("Accept", "*/*"), ("X-TRACE", "new"), ("X-Added", "yes")]
    );
}

#[test]
fn later_set_header_of_the_same_name_stands() {
    let out = apply_set_headers(vec![], &vec![h("A", "1"), h("B", "2"), h("a", "3")]);
    assert_eq!(pairs(&out), vec![("B", "2"), ("a", "3")]);
    let same = apply_set_headers(vec![h("A", "1")], &vec![]);
    assert_eq!(pairs(&same), vec![("A", "1")]);
}

#[test]
fn hop_by_hop_headers_are_stripped() {
    let headers = vec![
        h("Content-Type", "text/html"),
        h("Connection", "keep-alive"),
        h("Keep-Alive", "timeout=5"),
        h("Proxy-Authenticate", "Basic"),
        h("Proxy-Authorization", "Basic x"),
        h("TE", "trailers"),
        h("Trailer", "Expires"),
        h("transfer-encoding", "chunked"),
        h("UPGRADE", "websocket"),
        h("Proxy-Connection", "close"),
        h("Set-Cookie", "a=b"),
    ];
    let out = strip_hop_by_hop(headers);
    assert_eq!(pairs(&out), vec![("Content-Type", "text/html"), ("Set-Cookie", "a=b")]);
    assert!(hop_by_hop("connection"));
    assert!(!hop_by_hop("connections"));
    assert!(!hop_by_hop("Content-Length"));
    assert!(!hop_by_hop(""));
}

#[test]
fn credential_header_is_stripped_unless_forwarded() {
    let headers = || vec![h("Authorization", "Basic abc"), h("Accept", "*/*"), h("authorization", "x")];
    assert_eq!(pairs(&strip_credentials(headers(), false)), vec![("Accept", "*/*")]);
    assert_eq!(strip_credentials(headers(), true).len(), 3);
}

#[test]
fn upstream_failures_become_502_or_504() {
    assert_eq!(failure_status(UpstreamFailure::ConnectionRefused), 502);
    assert_eq!(failure_status(UpstreamFailure::Timeout), 504);
    assert_eq!(failure_status(UpstreamFailure::MalformedResponse), 502);
}

#[test]
fn route_targets() {
    let mut r = fwd_route(None, None);
    assert_eq!(route_target(&r), RouteTarget::Nothing);
    r.static_dir = Some("/srv/www".to_string());
    assert_eq!(route_target(&r), RouteTarget::StaticFiles);
    r.upstreams.push(Upstream { url: "http://u".to_string(), weight: 0 });
    assert_eq!(route_target(&r), RouteTarget::Upstreams);
}

#[test]
fn static_paths_resolve_below_the_root() {
    assert_eq!(resolve_static_path("/srv/www", "/css/a.css").as_deref(), Some("/srv/www/css/a.css"));
    assert_eq!(resolve_static_path("/srv/www", "").as_deref(), Some("/srv/www"));
    assert_eq!(resolve_static_path("/srv/www", "/").as_deref(), Some("/srv/www"));
    assert_eq!(resolve_static_path("/srv/www", "//a///b/").as_deref(), Some("/srv/www/a/b"));
    assert_eq!(resolve_static_path("/srv/www", "/a/./b/../c").as_deref(), Some("/srv/www/a/c"));
    assert_eq!(resolve_static_path("/srv/www", "/a/b/../../c").as_deref(), Some("/srv/www/c"));
    assert_eq!(resolve_static_path("root", "a\\b").as_deref(), Some("root/a/b"));
    assert_eq!(resolve_static_path("/srv/www", "/..a/b..").as_deref(), Some("/srv/www/..a/b.."));
    assert_eq!(resolve_static_path("/srv/www", "/...").as_deref(), Some("/srv/www/..."));
    assert_eq!(resolve_static_path("/srv", "/文件/é.txt").as_deref(), Some("/srv/文件/é.txt"));
}

#[test]
fn static_paths_that_climb_out_are_refused() {
    assert_eq!(resolve_static_path("/srv/www", "/../etc/passwd"), None);
    assert_eq!(resolve_static_path("/srv/www", ".."), None);
    assert_eq!(resolve_static_path("/srv/www", "/a/../../b"), None);
    assert_eq!(resolve_static_path("/srv/www", "/a/../.."), None);
    assert_eq!(resolve_static_path("/srv/www", "..\\..\\windows"), None);
    assert_eq!(resolve_static_path("/srv/www", "/../www/index.html"), None);
    assert_eq!(resolve_static_path("/srv/www", "/a/../../a/b"), None);
}

#[test]
fn text_helpers() {
    assert!(str_eq("", ""));
    assert!(str_eq("héllo", "héllo"));
    assert!(!str_eq("a", "A"));
    assert!(!str_eq("ab", "abc"));
    assert!(starts_with("/api/x", "/api"));
    assert!(starts_with("/api", ""));
    assert!(!starts_with("/ap", "/api"));
    assert!(eq_ignore_case("Content-TYPE", "content-type"));
    assert!(!eq_ignore_case("É", "é"));
    assert!(!eq_ignore_case("[", "{"));
    assert!(!eq_ignore_case("@", "`"));
}

#[test]
fn upstream_url_joins_base_path_and_query() {
    assert_eq!(upstream_url("http://a:80", "/x", None), "http://a:80/x");
    assert_eq!(upstream_url("http://a:80/", "/x", None), "http://a:80/x");
    assert_eq!(upstream_url("http://a:80///", "/x/y", Some("q=1&r=2")), "http://a:80/x/y?q=1&r=2");
    assert_eq!(upstream_url("http://a/base", "", Some("")), "http://a/base?");
    assert_eq!(upstream_url("///", "/x", None), "/x");
    assert_eq!(upstream_url("", "", None), "");
}

#[test]
fn upstream_headers_are_prepared_in_order() {
    let mut route = fwd_route(None, None);
    let headers = || {
        vec![
            h("Host", "a.com"),
            h("Connection", "close"),
            h("Content-Length", "12"),
            h("Authorization", "Basic abc"),
            h("X-Real-IP", "1.1.1.1"),
        ]
    };
    assert_eq!(pairs(&prepare_upstream_headers(headers(), &route, false)), vec![("X-Real-IP", "1.1.1.1")]);
    assert_eq!(
        pairs(&prepare_upstream_headers(headers(), &route, true)),
        vec![("Authorization", "Basic abc"), ("X-Real-IP", "1.1.1.1")]
    );
    route.set_headers = Some(vec![h("x-real-ip", "9.9.9.9"), h("Host", "backend.internal")]);
    assert_eq!(
        pairs(&prepare_upstream_headers(headers(), &route, false)),
        vec![("x-real-ip", "9.9.9.9"), ("Host", "backend.internal")]
    );
}

#[test]
fn client_headers_lose_connection_headers_and_length() {
    let headers = vec![
        h("Content-Type", "text/html"),
        h("content-length", "120"),
        h("Transfer-Encoding", "chunked"),
        h("Host", "kept"),
        h("Set-Cookie", "a=b"),
    ];
    assert_eq!(
        pairs(&prepare_client_headers(headers)),
        vec![("Content-Type", "text/html"), ("Host", "kept"), ("Set-Cookie", "a=b")]
    );
}
