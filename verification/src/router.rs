//! Matching a request against the ordered routes of a listen rule.

use crate::config::Route;
use crate::text::{chars_of, starts_with, str_eq};
use vstd::prelude::*;
use vstd::string::*;

verus! {

/// `host` ends in a port: a colon at place `i` followed by one or more digits
/// and nothing else.
pub open spec fn port_starts_at(host: Seq<char>, i: int) -> bool {
    &&& 0 <= i < host.len() - 1
    &&& host[i] == ':'
    &&& forall|k: int| i < k < host.len() ==> '0' <= #[trigger] host[k] <= '9'
}

/// The host of a `Host` header value: the value without the port at its end,
/// or the whole value where it ends in no port.
pub fn host_without_port<'a>(host: &'a str) -> (name: &'a str)
    ensures
        (exists|i: int| port_starts_at(host@, i)) ==> exists|i: int|
            port_starts_at(host@, i) && name@ == host@.take(i),
        !(exists|i: int| port_starts_at(host@, i)) ==> name@ == host@,
{
    let cs = chars_of(host);
    let n = cs.len();
    let mut i = n;
    while i > 0 && '0' <= cs[i - 1] && cs[i - 1] <= '9'
        invariant
            cs@ == host@,
            n == cs@.len(),
            i <= n,
            forall|k: int| i <= k < n ==> '0' <= #[trigger] cs@[k] <= '9',
        decreases i,
    {
        i -= 1;
    }
    if i > 0 && i < n && cs[i - 1] == ':' {
        let name = host.substring_char(0, i - 1);
        proof {
            assert(port_starts_at(host@, i as int - 1));
        }
        name
    } else {
        proof {
            assert forall|j: int| !port_starts_at(host@, j) by {
                if port_starts_at(host@, j) {
                    // The digits after the colon reach back to place `i` at least.
                }
            }
        }
        host
    }
}

/// A route without a host matches every host; one with a host matches that
/// host exactly.
pub open spec fn host_matches(route: Route, host: Seq<char>) -> bool {
    match route.host {
        None => true,
        Some(h) => h@ == host,
    }
}

/// A route without a path matches every path; one with a path matches the
/// paths that begin with it.
pub open spec fn path_matches(route: Route, path: Seq<char>) -> bool {
    match route.path {
        None => true,
        Some(p) => p@.is_prefix_of(path),
    }
}

/// The route takes the request: its host and its path both match.
pub open spec fn route_matches(route: Route, host: Seq<char>, path: Seq<char>) -> bool {
    host_matches(route, host) && path_matches(route, path)
}

/// `i` is the first route of `routes` that matches.
pub open spec fn is_first_match(routes: Seq<Route>, host: Seq<char>, path: Seq<char>, i: int) -> bool {
    &&& 0 <= i < routes.len()
    &&& route_matches(routes[i], host, path)
    &&& forall|j: int| 0 <= j < i ==> !route_matches(#[trigger] routes[j], host, path)
}

/// No route of `routes` matches.
pub open spec fn no_match(routes: Seq<Route>, host: Seq<char>, path: Seq<char>) -> bool {
    forall|j: int| 0 <= j < routes.len() ==> !route_matches(#[trigger] routes[j], host, path)
}

/// Whether one route matches the request.
pub fn accepts(route: &Route, host: &str, path: &str) -> (yes: bool)
    ensures
        yes == route_matches(*route, host@, path@),
{
    let host_ok = match &route.host {
        None => true,
        Some(h) => str_eq(h.as_str(), host),
    };
    if !host_ok {
        return false;
    }
    match &route.path {
        None => true,
        Some(p) => starts_with(path, p.as_str()),
    }
}

/// The index of the first route, in declaration order, whose host and path
/// prefix match the request; `None` where no route matches.
pub fn match_route(routes: &Vec<Route>, host: &str, path: &str) -> (found: Option<usize>)
    ensures
        match found {
            Some(i) => is_first_match(routes@, host@, path@, i as int),
            None => no_match(routes@, host@, path@),
        },
{
    let mut i: usize = 0;
    while i < routes.len()
        invariant
            i <= routes.len(),
            forall|j: int| 0 <= j < i ==> !route_matches(#[trigger] routes@[j], host@, path@),
        decreases routes.len() - i,
    {
        if accepts(&routes[i], host, path) {
            return Some(i);
        }
        i += 1;
    }
    None
}

/// At most one index is the first match: the result of matching is fixed by
/// the routes, in their order, and the request.
pub proof fn lemma_first_match_unique(
    routes: Seq<Route>,
    host: Seq<char>,
    path: Seq<char>,
    i: int,
    j: int,
)
    requires
        is_first_match(routes, host, path, i),
        is_first_match(routes, host, path, j),
    ensures
        i == j,
{
}

/// A first match and no match exclude each other.
pub proof fn lemma_match_excludes_none(
    routes: Seq<Route>,
    host: Seq<char>,
    path: Seq<char>,
    i: int,
)
    requires
        is_first_match(routes, host, path, i),
    ensures
        !no_match(routes, host, path),
{
}

} // verus!
