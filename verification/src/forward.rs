//! What the forwarder decides before and after it talks to an upstream: the
//! path and the headers that go out, the headers that come back, the status
//! that stands for a failed upstream, and the file that a static route serves.

use crate::config::{Header, Route};
use crate::text::{chars_of, eq_ignore_case, same_ignoring_case, starts_with};
use vstd::prelude::*;
use vstd::string::*;

verus! {

/// How an upstream failed.
#[derive(Debug, Clone, Copy, PartialEq, Eq, Structural)]
pub enum UpstreamFailure {
    ConnectionRefused,
    Timeout,
    MalformedResponse,
}

/// What a route sends its requests to.
#[derive(Debug, Clone, Copy, PartialEq, Eq, Structural)]
pub enum RouteTarget {
    /// One of the route's upstreams.
    Upstreams,
    /// A file below the route's static directory.
    StaticFiles,
    /// Nothing: the route has neither upstreams nor a static directory.
    Nothing,
}

/// What the route sends its requests to.
pub open spec fn target_of(route: Route) -> RouteTarget {
    if route.upstreams@.len() > 0 {
        RouteTarget::Upstreams
    } else if route.static_dir is Some {
        RouteTarget::StaticFiles
    } else {
        RouteTarget::Nothing
    }
}

/// What the route sends its requests to: its upstreams where it has any, else
/// its static directory where it has one.
pub fn route_target(route: &Route) -> (target: RouteTarget)
    ensures
        target == target_of(*route),
{
    if route.upstreams.len() > 0 {
        RouteTarget::Upstreams
    } else if route.static_dir.is_some() {
        RouteTarget::StaticFiles
    } else {
        RouteTarget::Nothing
    }
}

/// The status sent to the client in place of an answer that the upstream did
/// not give: 504 after a timeout, 502 after any other failure.
pub fn failure_status(failure: UpstreamFailure) -> (status: u16)
    ensures
        status == match failure {
            UpstreamFailure::ConnectionRefused => 502u16,
            UpstreamFailure::Timeout => 504u16,
            UpstreamFailure::MalformedResponse => 502u16,
        },
        500 <= status <= 599,
{
    match failure {
        UpstreamFailure::ConnectionRefused => 502,
        UpstreamFailure::Timeout => 504,
        UpstreamFailure::MalformedResponse => 502,
    }
}

/// The part of the request path after the route's prefix; the whole path
/// where the route has no prefix or the path does not begin with it.
pub open spec fn path_below(route: Route, path: Seq<char>) -> Seq<char> {
    match route.path {
        Some(p) => if p@.is_prefix_of(path) {
            path.skip(p@.len() as int)
        } else {
            path
        },
        None => path,
    }
}

/// The path that goes upstream: the request path as it is, or, where the
/// route names a path to pass, that path followed by what the request path
/// has after the route's prefix.
pub open spec fn rewritten(route: Route, path: Seq<char>) -> Seq<char> {
    match route.proxy_pass_path {
        Some(pp) => pp@ + path_below(route, path),
        None => path,
    }
}

/// The part of the request path after the route's prefix.
pub fn path_below_prefix<'a>(route: &Route, path: &'a str) -> (rest: &'a str)
    ensures
        rest@ == path_below(*route, path@),
{
    match &route.path {
        Some(p) => {
            if starts_with(path, p.as_str()) {
                let from = p.as_str().unicode_len();
                let to = path.unicode_len();
                let rest = path.substring_char(from, to);
                rest
            } else {
                path
            }
        },
        None => path,
    }
}

/// The path that goes upstream.
pub fn rewrite_path(route: &Route, path: &str) -> (out: String)
    ensures
        out@ == rewritten(*route, path@),
{
    match &route.proxy_pass_path {
        Some(pp) => {
            let mut out = pp.clone();
            out.append(path_below_prefix(route, path));
            out
        },
        None => String::from_str(path),
    }
}

/// `s` without the slashes at its end.
pub open spec fn without_trailing_slashes(s: Seq<char>) -> Seq<char>
    decreases s.len(),
{
    if s.len() > 0 && s.last() == '/' {
        without_trailing_slashes(s.drop_last())
    } else {
        s
    }
}

/// The address that a request is sent to: the upstream's address without
/// slashes at its end, then the path, then the query after a question mark
/// where there is one.
pub open spec fn target_url(base: Seq<char>, path: Seq<char>, query: Option<Seq<char>>) -> Seq<char> {
    match query {
        Some(q) => without_trailing_slashes(base) + path + seq!['?'] + q,
        None => without_trailing_slashes(base) + path,
    }
}

/// The address that a request is sent to.
pub fn upstream_url(base: &str, path: &str, query: Option<&str>) -> (url: String)
    ensures
        url@ == target_url(
            base@,
            path@,
            match query {
                Some(q) => Some(q@),
                None => None,
            },
        ),
{
    let cs = chars_of(base);
    let mut n = cs.len();
    proof {
        assert(base@.take(n as int) =~= base@);
    }
    while n > 0 && cs[n - 1] == '/'
        invariant
            cs@ == base@,
            n <= cs@.len(),
            without_trailing_slashes(base@) == without_trailing_slashes(base@.take(n as int)),
        decreases n,
    {
        proof {
            assert(base@.take(n as int).drop_last() =~= base@.take(n as int - 1));
        }
        n -= 1;
    }
    let mut url = String::from_str(base.substring_char(0, n));
    url.append(path);
    match query {
        Some(q) => {
            proof {
                reveal_strlit("?");
            }
            url.append("?");
            url.append(q);
        },
        None => {},
    }
    url
}

/// The headers of `hs` with other names than `name`, in their order. Names
/// are compared without regard to case.
pub open spec fn without_name(hs: Seq<Header>, name: Seq<char>) -> Seq<Header> {
    hs.filter(|h: Header| !same_ignoring_case(h.name@, name))
}

/// `hs` after the headers of `set` were set, one after the other: each takes
/// the place of all headers of its name and stands last.
pub open spec fn with_headers(hs: Seq<Header>, set: Seq<Header>) -> Seq<Header>
    decreases set.len(),
{
    if set.len() == 0 {
        hs
    } else {
        without_name(with_headers(hs, set.drop_last()), set.last().name@).push(set.last())
    }
}

fn drop_name(hs: Vec<Header>, name: &str) -> (kept: Vec<Header>)
    ensures
        kept@ == without_name(hs@, name@),
{
    let ghost pred = |h: Header| !same_ignoring_case(h.name@, name@);
    let ghost all = hs@;
    let mut kept: Vec<Header> = Vec::new();
    proof {
        reveal(Seq::filter);
    }
    for h in it: hs
        invariant
            it.seq() == all,
            pred == (|h: Header| !same_ignoring_case(h.name@, name@)),
            kept@ == all.take(it.index() as int).filter(pred),
    {
        proof {
            let k = it.index() as int;
            assert(all.take(k + 1) =~= all.take(k).push(all[k]));
            all.take(k).lemma_filter_push(all[k], pred);
        }
        if !eq_ignore_case(h.name.as_str(), name) {
            kept.push(h);
        }
    }
    proof {
        assert(all.take(all.len() as int) =~= all);
    }
    kept
}

fn copy_header(h: &Header) -> (c: Header)
    ensures
        c == *h,
{
    Header { name: h.name.clone(), value: h.value.clone() }
}

/// Sets the headers of `set` on the request that goes upstream: a header that
/// is set replaces every header of the same name, whatever its case, and is
/// added where there was none.
pub fn apply_set_headers(headers: Vec<Header>, set: &Vec<Header>) -> (out: Vec<Header>)
    ensures
        out@ == with_headers(headers@, set@),
{
    let mut out = headers;
    let mut i: usize = 0;
    while i < set.len()
        invariant
            i <= set.len(),
            out@ == with_headers(headers@, set@.take(i as int)),
        decreases set.len() - i,
    {
        proof {
            assert(set@.take(i as int + 1).drop_last() =~= set@.take(i as int));
        }
        let mut kept = drop_name(out, set[i].name.as_str());
        kept.push(copy_header(&set[i]));
        out = kept;
        i += 1;
    }
    proof {
        assert(set@.take(set@.len() as int) =~= set@);
    }
    out
}

/// The headers that hold for one connection only and are never passed on.
pub open spec fn is_hop_by_hop(name: Seq<char>) -> bool {
    ||| same_ignoring_case(name, "connection"@)
    ||| same_ignoring_case(name, "proxy-connection"@)
    ||| same_ignoring_case(name, "keep-alive"@)
    ||| same_ignoring_case(name, "proxy-authenticate"@)
    ||| same_ignoring_case(name, "proxy-authorization"@)
    ||| same_ignoring_case(name, "te"@)
    ||| same_ignoring_case(name, "trailer"@)
    ||| same_ignoring_case(name, "transfer-encoding"@)
    ||| same_ignoring_case(name, "upgrade"@)
}

/// Whether a header holds for one connection only.
pub fn hop_by_hop(name: &str) -> (yes: bool)
    ensures
        yes == is_hop_by_hop(name@),
{
    eq_ignore_case(name, "connection") || eq_ignore_case(name, "proxy-connection")
        || eq_ignore_case(name, "keep-alive") || eq_ignore_case(name, "proxy-authenticate")
        || eq_ignore_case(name, "proxy-authorization") || eq_ignore_case(name, "te")
        || eq_ignore_case(name, "trailer") || eq_ignore_case(name, "transfer-encoding")
        || eq_ignore_case(name, "upgrade")
}

/// The headers that are passed on: all but those that hold for one connection
/// only, in their order.
pub open spec fn passed_on(hs: Seq<Header>) -> Seq<Header> {
    hs.filter(|h: Header| !is_hop_by_hop(h.name@))
}

/// Takes the hop-by-hop headers out.
pub fn strip_hop_by_hop(headers: Vec<Header>) -> (out: Vec<Header>)
    ensures
        out@ == passed_on(headers@),
{
    let ghost pred = |h: Header| !is_hop_by_hop(h.name@);
    let ghost all = headers@;
    let mut out: Vec<Header> = Vec::new();
    proof {
        reveal(Seq::filter);
    }
    for h in it: headers
        invariant
            it.seq() == all,
            pred == (|h: Header| !is_hop_by_hop(h.name@)),
            out@ == all.take(it.index() as int).filter(pred),
    {
        proof {
            let k = it.index() as int;
            assert(all.take(k + 1) =~= all.take(k).push(all[k]));
            all.take(k).lemma_filter_push(all[k], pred);
        }
        if !hop_by_hop(h.name.as_str()) {
            out.push(h);
        }
    }
    proof {
        assert(all.take(all.len() as int) =~= all);
    }
    out
}

/// The request headers after access control: as they are where the credential
/// header is passed on, and without it where it is not.
pub open spec fn after_gate(hs: Seq<Header>, keep_credentials: bool) -> Seq<Header> {
    if keep_credentials {
        hs
    } else {
        without_name(hs, "authorization"@)
    }
}

/// Takes the credential header out unless it is to be passed on.
pub fn strip_credentials(headers: Vec<Header>, keep_credentials: bool) -> (out: Vec<Header>)
    ensures
        out@ == after_gate(headers@, keep_credentials),
{
    if keep_credentials {
        headers
    } else {
        drop_name(headers, "authorization")
    }
}

/// The header names the host that the client asked for.
pub open spec fn is_host(name: Seq<char>) -> bool {
    same_ignoring_case(name, "host"@)
}

/// The header gives the length of the body as it came.
pub open spec fn is_content_length(name: Seq<char>) -> bool {
    same_ignoring_case(name, "content-length"@)
}

/// The headers of a received message that the sender of the next message
/// writes anew: the host, which is that of the upstream unless the route sets
/// one, and the length of the body.
pub open spec fn without_framing(hs: Seq<Header>) -> Seq<Header> {
    hs.filter(|h: Header| !is_host(h.name@) && !is_content_length(h.name@))
}

/// The headers of the request that goes upstream: the client's headers
/// without those that hold for one connection only, without the host and the
/// length of the body, without the credential header unless it is passed on,
/// and with the route's headers set. A host that the route sets goes upstream.
pub open spec fn upstream_headers(hs: Seq<Header>, route: Route, keep_credentials: bool) -> Seq<
    Header,
> {
    let passed = after_gate(without_framing(passed_on(hs)), keep_credentials);
    match route.set_headers {
        Some(set) => with_headers(passed, set@),
        None => passed,
    }
}

/// The headers of the response that goes to the client: those of the
/// upstream without the ones that hold for one connection only and without
/// the length of the body.
pub open spec fn client_headers(hs: Seq<Header>) -> Seq<Header> {
    passed_on(hs).filter(|h: Header| !is_content_length(h.name@))
}

fn strip_framing(headers: Vec<Header>) -> (out: Vec<Header>)
    ensures
        out@ == without_framing(headers@),
{
    let ghost pred = |h: Header| !is_host(h.name@) && !is_content_length(h.name@);
    let ghost all = headers@;
    let mut out: Vec<Header> = Vec::new();
    proof {
        reveal(Seq::filter);
        assert(all.take(0).filter(pred) =~= Seq::<Header>::empty());
    }
    for h in it: headers
        invariant
            it.seq() == all,
            pred == (|h: Header| !is_host(h.name@) && !is_content_length(h.name@)),
            out@ == all.take(it.index() as int).filter(pred),
    {
        proof {
            let k = it.index() as int;
            assert(all.take(k + 1) =~= all.take(k).push(all[k]));
            all.take(k).lemma_filter_push(all[k], pred);
        }
        if !eq_ignore_case(h.name.as_str(), "host") && !eq_ignore_case(
            h.name.as_str(),
            "content-length",
        ) {
            out.push(h);
        }
    }
    proof {
        assert(all.take(all.len() as int) =~= all);
    }
    out
}

/// Prepares the headers of the request that goes upstream.
pub fn prepare_upstream_headers(headers: Vec<Header>, route: &Route, keep_credentials: bool) -> (out:
    Vec<Header>)
    ensures
        out@ == upstream_headers(headers@, *route, keep_credentials),
{
    let passed = strip_credentials(strip_framing(strip_hop_by_hop(headers)), keep_credentials);
    match &route.set_headers {
        Some(set) => apply_set_headers(passed, set),
        None => passed,
    }
}

/// Prepares the headers of the response that goes to the client.
pub fn prepare_client_headers(headers: Vec<Header>) -> (out: Vec<Header>)
    ensures
        out@ == client_headers(headers@),
{
    let passed = strip_hop_by_hop(headers);
    let ghost pred = |h: Header| !is_content_length(h.name@);
    let ghost all = passed@;
    let mut out: Vec<Header> = Vec::new();
    proof {
        reveal(Seq::filter);
        assert(all.take(0).filter(pred) =~= Seq::<Header>::empty());
    }
    for h in it: passed
        invariant
            it.seq() == all,
            pred == (|h: Header| !is_content_length(h.name@)),
            out@ == all.take(it.index() as int).filter(pred),
    {
        proof {
            let k = it.index() as int;
            assert(all.take(k + 1) =~= all.take(k).push(all[k]));
            all.take(k).lemma_filter_push(all[k], pred);
        }
        if !eq_ignore_case(h.name.as_str(), "content-length") {
            out.push(h);
        }
    }
    proof {
        assert(all.take(all.len() as int) =~= all);
    }
    out
}

/// No hop-by-hop header is passed on, every other header is, and nothing is
/// passed on that was not there.
pub proof fn lemma_passed_on(hs: Seq<Header>)
    ensures
        forall|i: int|
            0 <= i < passed_on(hs).len() ==> !is_hop_by_hop((#[trigger] passed_on(hs)[i]).name@)
                && hs.contains(passed_on(hs)[i]),
        forall|i: int|
            0 <= i < hs.len() && !is_hop_by_hop((#[trigger] hs[i]).name@) ==> passed_on(hs).contains(
                hs[i],
            ),
    decreases hs.len(),
{
    reveal(Seq::filter);
    if hs.len() > 0 {
        let shorter = hs.drop_last();
        lemma_passed_on(shorter);
        let f = passed_on(shorter);
    }
}

} // verus!
