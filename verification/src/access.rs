//! The access control gate: whitelist first, then blacklist, then basic
//! authentication. The first rule that applies decides.

use crate::blacklist::{banned_in, is_banned, BlacklistStore};
use crate::config::{ListenRule, Route, WhitelistEntry};
use crate::text::{chars_of, eq_ignore_case, same_ignoring_case, str_eq};
use vstd::prelude::*;
use vstd::string::*;

verus! {

/// Why a request is denied.
#[derive(Debug, Clone, Copy, PartialEq, Eq, Structural)]
pub enum DenyReason {
    Blacklisted,
    Unauthorized,
}

/// What access control says to a request.
#[derive(Debug, Clone, Copy, PartialEq, Eq, Structural)]
pub enum Decision {
    Allow,
    Deny(DenyReason),
    /// Neither list decides and the route asks for basic authentication.
    RequireAuth,
}

/// A user name and password as a client presented them.
#[derive(Debug, Clone)]
pub struct Credentials {
    pub username: String,
    pub password: String,
}

/// `ip` is on the whitelist: some entry holds exactly this address.
pub open spec fn whitelisted(list: Seq<WhitelistEntry>, ip: Seq<char>) -> bool {
    exists|i: int| 0 <= i < list.len() && (#[trigger] list[i]).ip@ == ip
}

/// The route switches basic authentication on for itself.
pub open spec fn route_overrides(route: Route) -> bool {
    route.basic_auth_enable == Some(true)
}

/// No authentication is asked for: the route excludes itself, or the rule has
/// basic authentication off and the route does not switch it on.
pub open spec fn auth_exempt(rule: ListenRule, route: Route) -> bool {
    route.exclude_basic_auth == Some(true) || (!rule.basic_auth_enable && !route_overrides(route))
}

/// The user name that is accepted: the route's where the route switches
/// authentication on and names one, else the rule's.
pub open spec fn expected_username(rule: ListenRule, route: Route) -> Seq<char> {
    if route_overrides(route) && route.basic_auth_username is Some {
        route.basic_auth_username->0@
    } else {
        rule.basic_auth_username@
    }
}

/// The password that is accepted, chosen as the user name is.
pub open spec fn expected_password(rule: ListenRule, route: Route) -> Seq<char> {
    if route_overrides(route) && route.basic_auth_password is Some {
        route.basic_auth_password->0@
    } else {
        rule.basic_auth_password@
    }
}

/// The presented credentials are the expected ones. Missing credentials are
/// never accepted.
pub open spec fn credentials_accepted(
    rule: ListenRule,
    route: Route,
    presented: Option<Credentials>,
) -> bool {
    match presented {
        None => false,
        Some(c) => c.username@ == expected_username(rule, route) && c.password@
            == expected_password(rule, route),
    }
}

/// The decision before credentials are looked at.
pub open spec fn admission(on_whitelist: bool, banned: bool, exempt: bool) -> Decision {
    if on_whitelist {
        Decision::Allow
    } else if banned {
        Decision::Deny(DenyReason::Blacklisted)
    } else if exempt {
        Decision::Allow
    } else {
        Decision::RequireAuth
    }
}

/// The decision on presented credentials.
pub open spec fn authentication(accepted: bool) -> Decision {
    if accepted {
        Decision::Allow
    } else {
        Decision::Deny(DenyReason::Unauthorized)
    }
}

/// The final decision: that of [`admission`], and where it asks for
/// authentication, that of [`authentication`].
pub open spec fn verdict(on_whitelist: bool, banned: bool, exempt: bool, accepted: bool) -> Decision {
    match admission(on_whitelist, banned, exempt) {
        Decision::RequireAuth => authentication(accepted),
        d => d,
    }
}

/// Whether the credential header goes on to the upstream: as the route says,
/// or as the rule says where the route is silent.
pub open spec fn credentials_forwarded(rule: ListenRule, route: Route) -> bool {
    match route.basic_auth_forward_header {
        Some(b) => b,
        None => rule.basic_auth_forward_header,
    }
}

impl DenyReason {
    /// The reason as it is reported: `blacklisted` or `unauthorized`.
    pub fn as_str(&self) -> (text: &'static str)
        ensures
            text@ == match *self {
                DenyReason::Blacklisted => "blacklisted"@,
                DenyReason::Unauthorized => "unauthorized"@,
            },
    {
        match self {
            DenyReason::Blacklisted => "blacklisted",
            DenyReason::Unauthorized => "unauthorized",
        }
    }

    /// The status sent to the client: 403 for a banned address, 401 for
    /// missing or wrong credentials.
    pub fn status(&self) -> (code: u16)
        ensures
            code == match *self {
                DenyReason::Blacklisted => 403u16,
                DenyReason::Unauthorized => 401u16,
            },
    {
        match self {
            DenyReason::Blacklisted => 403,
            DenyReason::Unauthorized => 401,
        }
    }
}

/// Whether `ip` is on the whitelist.
pub fn is_whitelisted(list: &Vec<WhitelistEntry>, ip: &str) -> (yes: bool)
    ensures
        yes == whitelisted(list@, ip@),
{
    let mut i: usize = 0;
    while i < list.len()
        invariant
            i <= list.len(),
            forall|k: int| 0 <= k < i ==> (#[trigger] list@[k]).ip@ != ip@,
        decreases list.len() - i,
    {
        if str_eq(list[i].ip.as_str(), ip) {
            return true;
        }
        i += 1;
    }
    false
}

/// Whether the route asks for no authentication.
pub fn is_exempt(rule: &ListenRule, route: &Route) -> (yes: bool)
    ensures
        yes == auth_exempt(*rule, *route),
{
    let excluded = match route.exclude_basic_auth {
        Some(b) => b,
        None => false,
    };
    let overrides = match route.basic_auth_enable {
        Some(b) => b,
        None => false,
    };
    excluded || (!rule.basic_auth_enable && !overrides)
}

/// Decides on an address before credentials are looked at: a whitelisted
/// address is allowed, a banned one denied, and any other allowed where the
/// route asks for no authentication.
pub fn screen(
    whitelist: &Vec<WhitelistEntry>,
    blacklist: &BlacklistStore,
    now: i64,
    rule: &ListenRule,
    route: &Route,
    ip: &str,
) -> (decision: Decision)
    ensures
        decision == admission(
            whitelisted(whitelist@, ip@),
            banned_in(blacklist.rows(), ip@, now as int),
            auth_exempt(*rule, *route),
        ),
{
    if is_whitelisted(whitelist, ip) {
        Decision::Allow
    } else if is_banned(blacklist, ip, now) {
        Decision::Deny(DenyReason::Blacklisted)
    } else if is_exempt(rule, route) {
        Decision::Allow
    } else {
        Decision::RequireAuth
    }
}

/// Whether the presented credentials are the ones that the rule, or the route
/// in its place, expects.
pub fn credentials_match(rule: &ListenRule, route: &Route, presented: &Option<Credentials>) -> (ok:
    bool)
    ensures
        ok == credentials_accepted(*rule, *route, *presented),
{
    let overrides = match route.basic_auth_enable {
        Some(b) => b,
        None => false,
    };
    match presented {
        None => false,
        Some(c) => {
            let user_ok = match &route.basic_auth_username {
                Some(u) => if overrides {
                    str_eq(c.username.as_str(), u.as_str())
                } else {
                    str_eq(c.username.as_str(), rule.basic_auth_username.as_str())
                },
                None => str_eq(c.username.as_str(), rule.basic_auth_username.as_str()),
            };
            if !user_ok {
                return false;
            }
            match &route.basic_auth_password {
                Some(p) => if overrides {
                    str_eq(c.password.as_str(), p.as_str())
                } else {
                    str_eq(c.password.as_str(), rule.basic_auth_password.as_str())
                },
                None => str_eq(c.password.as_str(), rule.basic_auth_password.as_str()),
            }
        },
    }
}

/// Decides on presented credentials: allowed where they are the expected
/// ones, denied as unauthorized where they are wrong or missing.
pub fn authenticate(rule: &ListenRule, route: &Route, presented: &Option<Credentials>) -> (decision:
    Decision)
    ensures
        decision == authentication(credentials_accepted(*rule, *route, *presented)),
{
    if credentials_match(rule, route, presented) {
        Decision::Allow
    } else {
        Decision::Deny(DenyReason::Unauthorized)
    }
}

/// The decision on a request, first match first: whitelist, blacklist,
/// exemption from authentication, credentials. It never asks for
/// authentication: where that is due, the presented credentials decide.
pub fn decide(
    whitelist: &Vec<WhitelistEntry>,
    blacklist: &BlacklistStore,
    now: i64,
    rule: &ListenRule,
    route: &Route,
    ip: &str,
    presented: &Option<Credentials>,
) -> (decision: Decision)
    ensures
        decision == verdict(
            whitelisted(whitelist@, ip@),
            banned_in(blacklist.rows(), ip@, now as int),
            auth_exempt(*rule, *route),
            credentials_accepted(*rule, *route, *presented),
        ),
        decision != Decision::RequireAuth,
{
    match screen(whitelist, blacklist, now, rule, route, ip) {
        Decision::RequireAuth => authenticate(rule, route, presented),
        Decision::Allow => Decision::Allow,
        Decision::Deny(r) => Decision::Deny(r),
    }
}

/// Whether the credential header of an allowed request is passed on to the
/// upstream (`true`) or taken out before forwarding (`false`).
pub fn forwards_credentials(rule: &ListenRule, route: &Route) -> (keep: bool)
    ensures
        keep == credentials_forwarded(*rule, *route),
{
    match route.basic_auth_forward_header {
        Some(b) => b,
        None => rule.basic_auth_forward_header,
    }
}

/// The header value names the scheme `Basic`, in any case, followed by a space.
pub open spec fn is_basic(header: Seq<char>) -> bool {
    header.len() >= 6 && same_ignoring_case(header.take(6), "Basic "@)
}

/// The encoded credentials of an `Authorization` header value of the scheme
/// `Basic`: what follows the scheme and the space after it. `None` for any
/// other scheme.
pub fn basic_payload<'a>(header: &'a str) -> (payload: Option<&'a str>)
    ensures
        match payload {
            Some(p) => is_basic(header@) && p@ == header@.skip(6),
            None => !is_basic(header@),
        },
{
    let n = header.unicode_len();
    if n < 6 {
        return None;
    }
    let scheme = header.substring_char(0, 6);
    if !eq_ignore_case(scheme, "Basic ") {
        return None;
    }
    let rest = header.substring_char(6, n);
    Some(rest)
}

/// `i` is the place of the first colon in `s`.
pub open spec fn is_first_colon(s: Seq<char>, i: int) -> bool {
    &&& 0 <= i < s.len()
    &&& s[i] == ':'
    &&& forall|j: int| 0 <= j < i ==> s[j] != ':'
}

/// The user name and the password in decoded credentials: what stands before
/// the first colon and what stands after it. `None` where there is no colon.
pub fn split_credentials(decoded: &str) -> (creds: Option<Credentials>)
    ensures
        match creds {
            Some(c) => exists|i: int|
                #![trigger is_first_colon(decoded@, i)]
                is_first_colon(decoded@, i) && c.username@ == decoded@.take(i) && c.password@
                    == decoded@.skip(i + 1),
            None => forall|i: int| 0 <= i < decoded@.len() ==> decoded@[i] != ':',
        },
{
    let cs = chars_of(decoded);
    let mut i: usize = 0;
    while i < cs.len()
        invariant
            cs@ == decoded@,
            i <= cs.len(),
            forall|j: int| 0 <= j < i ==> cs@[j] != ':',
        decreases cs.len() - i,
    {
        if cs[i] == ':' {
            let user = decoded.substring_char(0, i);
            let pass = decoded.substring_char(i + 1, cs.len());
            proof {
                assert(is_first_colon(decoded@, i as int));
            }
            return Some(
                Credentials { username: String::from_str(user), password: String::from_str(pass) },
            );
        }
        i += 1;
    }
    None
}

/// Whitelist precedence: an address on the whitelist is allowed, also where
/// it is banned, and whatever the route or the credentials are.
pub proof fn lemma_whitelist_precedence(banned: bool, exempt: bool, accepted: bool)
    ensures
        verdict(true, banned, exempt, accepted) == Decision::Allow,
        admission(true, banned, exempt) == Decision::Allow,
{
}

/// A ban that has not expired blocks an address that is not whitelisted,
/// whether or not its credentials are right.
pub proof fn lemma_ban_beats_credentials(exempt: bool, accepted: bool)
    ensures
        verdict(false, true, exempt, accepted) == Decision::Deny(DenyReason::Blacklisted),
{
}

/// A request is allowed or denied; a denial for want of authorisation comes only
/// where neither list decides and the route is not exempt.
pub proof fn lemma_verdict_cases(on_whitelist: bool, banned: bool, exempt: bool, accepted: bool)
    ensures
        verdict(on_whitelist, banned, exempt, accepted) != Decision::RequireAuth,
        verdict(on_whitelist, banned, exempt, accepted) == Decision::Deny(DenyReason::Unauthorized)
            <==> !on_whitelist && !banned && !exempt && !accepted,
        verdict(on_whitelist, banned, exempt, accepted) == Decision::Deny(DenyReason::Blacklisted)
            <==> !on_whitelist && banned,
{
}

} // verus!
