//! The way of one request through a listener: access control by address,
//! routing, authentication, and then an upstream or a static file. The plan
//! made here says what is to be done; the caller does it and records the
//! outcome.

use crate::access::{
    auth_exempt, authenticate, authentication, credentials_accepted, credentials_forwarded,
    forwards_credentials, is_whitelisted, whitelisted, Credentials, Decision,
};
use crate::balancer::{draw_of, falls_to, select_upstream, total_weight};
use crate::blacklist::{banned_in, is_banned, BlacklistStore};
use crate::config::{ListenRule, Route, WhitelistEntry};
use crate::forward::{
    path_below, path_below_prefix, rewrite_path, rewritten, route_target, target_of, RouteTarget,
};
use crate::router::{is_first_match, match_route, no_match};
use crate::static_files::{join_under, resolve_static_path, resolved};
use vstd::prelude::*;
use vstd::string::*;

verus! {

/// What is to be done with a request.
#[derive(Debug, Clone)]
pub enum Plan {
    /// Answer at once with this status; nothing goes upstream.
    Respond { status: u16 },
    /// Forward to the upstream at place `upstream` of the route at place
    /// `route`, with the path `path`, and with or without the credential header.
    Forward { route: usize, upstream: usize, path: String, keep_credentials: bool },
    /// Serve `file` for the route at place `route`; 404 where it does not exist.
    ServeFile { route: usize, file: String },
}

/// The plan answers at once with `status`.
pub open spec fn responds(plan: Plan, status: u16) -> bool {
    plan matches Plan::Respond { status: s } && s == status
}

/// The plan is the right one for a request that the route at place `i`
/// takes, after the address has passed both lists.
pub open spec fn fits_route(
    plan: Plan,
    on_whitelist: bool,
    rule: ListenRule,
    i: int,
    path: Seq<char>,
    presented: Option<Credentials>,
    random: u64,
) -> bool {
    let route = rule.routes@[i];
    if !on_whitelist && !auth_exempt(rule, route) && !credentials_accepted(rule, route, presented) {
        responds(plan, 401)
    } else {
        match target_of(route) {
            RouteTarget::Upstreams => if total_weight(route.upstreams@) == 0 {
                responds(plan, 502)
            } else {
                plan matches Plan::Forward { route: r, upstream, path: p, keep_credentials }
                    && r == i && falls_to(
                    route.upstreams@,
                    draw_of(route.upstreams@, random) as int,
                    upstream as int,
                ) && p@ == rewritten(route, path) && keep_credentials == credentials_forwarded(
                    rule,
                    route,
                )
            },
            RouteTarget::StaticFiles => match resolved(path_below(route, path)) {
                None => responds(plan, 403),
                Some(segments) => plan matches Plan::ServeFile { route: r, file } && r == i
                    && file@ == join_under(route.static_dir->0@, segments),
            },
            RouteTarget::Nothing => responds(plan, 502),
        }
    }
}

/// The plan is the right one for the request:
///
/// - 403 for a banned address that is not whitelisted, whatever else holds;
/// - 404 where no route takes the request;
/// - 401 where the first route that takes it asks for credentials and the
///   right ones were not presented;
/// - else the upstream that the draw falls to, or 502 where the route has no
///   upstream that can be selected; or the file of a static route, or 403
///   where the path leaves the route's directory.
pub open spec fn fits(
    plan: Plan,
    on_whitelist: bool,
    banned: bool,
    rule: ListenRule,
    host: Seq<char>,
    path: Seq<char>,
    presented: Option<Credentials>,
    random: u64,
) -> bool {
    if !on_whitelist && banned {
        responds(plan, 403)
    } else if no_match(rule.routes@, host, path) {
        responds(plan, 404)
    } else {
        forall|i: int|
            is_first_match(rule.routes@, host, path, i) ==> fits_route(
                plan,
                on_whitelist,
                rule,
                i,
                path,
                presented,
                random,
            )
    }
}

/// Plans the handling of one request to the listener of `rule`. Access by
/// address is decided before anything else, so that a banned address gets no
/// further; `random` stands for the draw of the upstream.
pub fn plan_request(
    whitelist: &Vec<WhitelistEntry>,
    blacklist: &BlacklistStore,
    now: i64,
    rule: &ListenRule,
    client_ip: &str,
    host: &str,
    path: &str,
    presented: &Option<Credentials>,
    random: u64,
) -> (plan: Plan)
    ensures
        fits(
            plan,
            whitelisted(whitelist@, client_ip@),
            banned_in(blacklist.rows(), client_ip@, now as int),
            *rule,
            host@,
            path@,
            *presented,
            random,
        ),
{
    let on_whitelist = is_whitelisted(whitelist, client_ip);
    if !on_whitelist && is_banned(blacklist, client_ip, now) {
        return Plan::Respond { status: 403 };
    }
    let i = match match_route(&rule.routes, host, path) {
        None => {
            return Plan::Respond { status: 404 };
        },
        Some(i) => i,
    };
    proof {
        assert forall|j: int| is_first_match(rule.routes@, host@, path@, j) implies j == i by {}
    }
    let route = &rule.routes[i];
    if !on_whitelist && !crate::access::is_exempt(rule, route) {
        match authenticate(rule, route, presented) {
            Decision::Allow => {},
            _ => {
                return Plan::Respond { status: 401 };
            },
        }
    }
    match route_target(route) {
        RouteTarget::Upstreams => match select_upstream(&route.upstreams, random) {
            Ok(upstream) => Plan::Forward {
                route: i,
                upstream,
                path: rewrite_path(route, path),
                keep_credentials: forwards_credentials(rule, route),
            },
            Err(_) => Plan::Respond { status: 502 },
        },
        RouteTarget::StaticFiles => {
            let dir = match &route.static_dir {
                Some(d) => d,
                None => {
                    return Plan::Respond { status: 502 };
                },
            };
            match resolve_static_path(dir.as_str(), path_below_prefix(route, path)) {
                Some(file) => Plan::ServeFile { route: i, file },
                None => Plan::Respond { status: 403 },
            }
        },
        RouteTarget::Nothing => Plan::Respond { status: 502 },
    }
}

/// A banned address reaches no upstream: whatever the routes and the
/// credentials are, its plan is the answer 403, unless it is whitelisted.
pub proof fn lemma_banned_reaches_no_upstream(
    plan: Plan,
    rule: ListenRule,
    host: Seq<char>,
    path: Seq<char>,
    presented: Option<Credentials>,
    random: u64,
)
    requires
        fits(plan, false, true, rule, host, path, presented, random),
    ensures
        plan == (Plan::Respond { status: 403 }),
        !(plan is Forward),
        !(plan is ServeFile),
{
}

/// A denial is metered, not dropped: once an address is banned, a request
/// from it before the ban ends is answered 403 whatever the routes and the
/// credentials are, reaches no upstream, and, recorded with that status,
/// makes a bucket with one request in the class of client errors.
pub proof fn lemma_banned_request_is_denied_and_metered(
    rows: Seq<crate::blacklist::BlacklistEntry>,
    ban: crate::blacklist::BlacklistEntry,
    at: int,
    plan: Plan,
    rule: ListenRule,
    host: Seq<char>,
    path: Seq<char>,
    presented: Option<Credentials>,
    random: u64,
    span: int,
    step: int,
    latency: u64,
)
    requires
        crate::blacklist::distinct_ips(rows),
        at < ban.expires_at,
        span > 0,
        fits(
            plan,
            false,
            banned_in(crate::blacklist::without_ip(rows, ban.ip@).push(ban), ban.ip@, at),
            rule,
            host,
            path,
            presented,
            random,
        ),
    ensures
        plan == (Plan::Respond { status: 403 }),
        !(plan is Forward),
        ({
            let m = crate::window::record_model(
                crate::window::empty_window(),
                span,
                step,
                at,
                403,
                latency,
            );
            let b = crate::window::bucket_start(at, step);
            &&& m.buckets.dom() =~= set![b]
            &&& m.buckets[b].tally.count == 1
            &&& m.buckets[b].tally.s4xx == 1
            &&& m.buckets[b].tally.s2xx == 0
            &&& m.buckets[b].tally.s3xx == 0
            &&& m.buckets[b].tally.s5xx == 0
            &&& m.buckets[b].tally.s0 == 0
        }),
{
    crate::blacklist::lemma_ban_holds_until_end(rows, ban, at);
    crate::window::lemma_first_record(span, step, at, 403, latency);
}

/// A request is forwarded only to an upstream of positive weight, of the
/// first route that takes it.
pub proof fn lemma_forward_goes_to_live_upstream(
    plan: Plan,
    on_whitelist: bool,
    banned: bool,
    rule: ListenRule,
    host: Seq<char>,
    path: Seq<char>,
    presented: Option<Credentials>,
    random: u64,
)
    requires
        fits(plan, on_whitelist, banned, rule, host, path, presented, random),
        plan is Forward,
    ensures
        is_first_match(rule.routes@, host, path, plan->Forward_route as int),
        0 <= plan->Forward_upstream < rule.routes@[plan->Forward_route as int].upstreams@.len(),
        rule.routes@[plan->Forward_route as int].upstreams@[plan->Forward_upstream as int].weight > 0,
{
    if !no_match(rule.routes@, host, path) {
        let j = choose|j: int|
            0 <= j < rule.routes@.len() && crate::router::route_matches(
                #[trigger] rule.routes@[j],
                host,
                path,
            );
        let i = first_matching(rule.routes@, host, path, j);
        let route = rule.routes@[i];
        crate::balancer::lemma_selected_has_weight(
            route.upstreams@,
            draw_of(route.upstreams@, random) as int,
            plan->Forward_upstream as int,
        );
    }
}

/// Where some route matches, one of them is the first.
proof fn first_matching(routes: Seq<Route>, host: Seq<char>, path: Seq<char>, j: int) -> (i: int)
    requires
        0 <= j < routes.len(),
        crate::router::route_matches(routes[j], host, path),
    ensures
        is_first_match(routes, host, path, i),
    decreases j,
{
    if exists|k: int| 0 <= k < j && crate::router::route_matches(#[trigger] routes[k], host, path) {
        let k = choose|k: int|
            0 <= k < j && crate::router::route_matches(#[trigger] routes[k], host, path);
        first_matching(routes, host, path, k)
    } else {
        j
    }
}

} // verus!
