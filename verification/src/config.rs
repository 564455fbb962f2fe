//! The configuration snapshot that the proxy serves from: listen rules with
//! their routes and upstreams, the whitelist, and the storage and update
//! settings. A snapshot is read as a whole and replaced as a whole.

use crate::text::{is_blank, str_eq, text_is_blank};
use vstd::prelude::*;
use vstd::string::*;

verus! {

/// An address that is exempt from the blacklist.
#[derive(Debug, Clone)]
pub struct WhitelistEntry {
    pub ip: String,
}

/// A header name with the value to send for it.
#[derive(Debug, Clone)]
pub struct Header {
    pub name: String,
    pub value: String,
}

/// One backend of a route. The weight is relative: weights need not sum to 100.
#[derive(Debug, Clone)]
pub struct Upstream {
    pub url: String,
    pub weight: i32,
}

/// One host and path match within a listen rule.
#[derive(Debug, Clone)]
pub struct Route {
    pub id: Option<String>,
    /// `None` matches every host.
    pub host: Option<String>,
    /// The path prefix; `None` matches every path.
    pub path: Option<String>,
    pub proxy_pass_path: Option<String>,
    /// The headers to set on the request that goes upstream, in the order in
    /// which they are applied. A later one for the same name stands.
    pub set_headers: Option<Vec<Header>>,
    pub static_dir: Option<String>,
    pub exclude_basic_auth: Option<bool>,
    pub basic_auth_enable: Option<bool>,
    pub basic_auth_username: Option<String>,
    pub basic_auth_password: Option<String>,
    pub basic_auth_forward_header: Option<bool>,
    pub upstreams: Vec<Upstream>,
}

/// One bound address with its TLS and authentication defaults.
#[derive(Debug, Clone)]
pub struct ListenRule {
    pub id: Option<String>,
    pub listen_addr: String,
    pub ssl_enable: bool,
    pub cert_file: String,
    pub key_file: String,
    pub basic_auth_enable: bool,
    pub basic_auth_username: String,
    pub basic_auth_password: String,
    pub basic_auth_forward_header: bool,
    pub routes: Vec<Route>,
}

/// Whether requests are kept in a durable store, and where.
#[derive(Debug, Clone)]
pub struct MetricsStorage {
    pub enabled: bool,
    pub db_path: String,
}

/// Whether and how to look for a newer release.
#[derive(Debug, Clone)]
pub struct UpdateConfig {
    pub enabled: bool,
    pub server_url: String,
    pub auto_check: bool,
    pub timeout_ms: i32,
    pub channel: Option<String>,
    pub ignore_prerelease: bool,
}

/// One snapshot of the whole configuration.
#[derive(Debug, Clone)]
pub struct Config {
    pub rules: Vec<ListenRule>,
    pub allow_all_lan: bool,
    pub whitelist: Vec<WhitelistEntry>,
    pub metrics_storage: Option<MetricsStorage>,
    pub update: Option<UpdateConfig>,
}

/// Holds the snapshot in force. Readers borrow it; a reload replaces it whole.
pub struct ConfigStore {
    current: Config,
}

impl ConfigStore {
    /// The snapshot in force.
    pub closed spec fn snapshot(&self) -> Config {
        self.current
    }

    /// A store with no rules and an empty whitelist, open to the local network.
    pub fn new() -> (store: ConfigStore)
        ensures
            store.snapshot().rules@.len() == 0,
            store.snapshot().whitelist@.len() == 0,
            store.snapshot().allow_all_lan,
            store.snapshot().metrics_storage is None,
            store.snapshot().update is None,
    {
        ConfigStore {
            current: Config {
                rules: Vec::new(),
                allow_all_lan: true,
                whitelist: Vec::new(),
                metrics_storage: None,
                update: None,
            },
        }
    }
}

/// The snapshot in force.
pub fn get_config(store: &ConfigStore) -> (config: &Config)
    ensures
        *config == store.snapshot(),
{
    &store.current
}

/// Replaces the snapshot in force by `config`.
pub fn set_config(store: &mut ConfigStore, config: Config)
    ensures
        final(store).snapshot() == config,
{
    store.current = config;
}

/// An identifier is missing when it is absent or blank.
pub open spec fn id_missing(id: Option<String>) -> bool {
    match id {
        None => true,
        Some(s) => is_blank(s@),
    }
}

/// A digit or a letter from `a` to `f`.
pub open spec fn is_lower_hex(c: char) -> bool {
    ('0' <= c <= '9') || ('a' <= c <= 'f')
}

/// The hyphenated form of a UUID: 36 characters, hyphens after the 8th, 12th,
/// 16th and 20th digit, lower-case hexadecimal digits elsewhere.
pub open spec fn is_uuid_text(s: Seq<char>) -> bool {
    &&& s.len() == 36
    &&& forall|i: int|
        0 <= i < 36 ==> if i == 8 || i == 13 || i == 18 || i == 23 {
            #[trigger] s[i] == '-'
        } else {
            is_lower_hex(s[i])
        }
}

/// The text of a new identifier: a UUID text. Where the UUID that was drawn
/// is in use already, zeros follow it, as many as make it differ.
pub open spec fn is_new_id_text(s: Seq<char>) -> bool {
    &&& s.len() >= 36
    &&& is_uuid_text(s.take(36))
    &&& forall|k: int| 36 <= k < s.len() ==> #[trigger] s[k] == '0'
}

/// The identifier at a place of the configuration: that of the rule `i`
/// where `j` is -1, else that of the route `j` of the rule `i`.
pub open spec fn id_at(c: Config, i: int, j: int) -> Option<String> {
    if j < 0 {
        c.rules@[i].id
    } else {
        c.rules@[i].routes@[j].id
    }
}

/// `(i, j)` is a place of the configuration: a rule, or a route of a rule.
pub open spec fn is_place(c: Config, i: int, j: int) -> bool {
    0 <= i < c.rules@.len() && -1 <= j < c.rules@[i].routes@.len()
}

/// The identifiers that are present are pairwise distinct: no two places of
/// the configuration hold the same one.
pub open spec fn ids_distinct(c: Config) -> bool {
    forall|i: int, j: int, k: int, m: int|
        is_place(c, i, j) && is_place(c, k, m) && (i != k || j != m) && !id_missing(
            #[trigger] id_at(c, i, j),
        ) && !id_missing(#[trigger] id_at(c, k, m)) ==> id_at(c, i, j)->0@ != id_at(c, k, m)->0@
}

/// `t` is among the texts of `taken`.
pub open spec fn knows(taken: Seq<String>, t: Seq<char>) -> bool {
    exists|k: int| 0 <= k < taken.len() && (#[trigger] taken[k])@ == t
}

/// Every identifier that is present in the configuration is among `taken`.
pub open spec fn covers(c: Config, taken: Seq<String>) -> bool {
    forall|i: int, j: int|
        is_place(c, i, j) && !id_missing(#[trigger] id_at(c, i, j)) ==> knows(
            taken,
            id_at(c, i, j)->0@,
        )
}

proof fn lemma_knows_more(taken: Seq<String>, x: String, t: Seq<char>)
    ensures
        knows(taken, t) ==> knows(taken.push(x), t),
        knows(taken.push(x), x@),
{
    if knows(taken, t) {
        let k = choose|k: int| 0 <= k < taken.len() && (#[trigger] taken[k])@ == t;
        assert(taken.push(x)[k]@ == t);
    }
    assert(taken.push(x)[taken.len() as int]@ == x@);
}

fn needs_id(id: &Option<String>) -> (b: bool)
    ensures
        b == id_missing(*id),
{
    match id {
        None => true,
        Some(s) => text_is_blank(s.as_str()),
    }
}

/// A newly drawn random identifier (`uuid::Uuid::new_v4`, written out by its
/// `Display`). Whatever was drawn, the text is the hyphenated lower-case form.
/// The call panics only where the operating system cannot supply random bytes.
#[verifier::external_body]
fn fresh_id() -> (id: String)
    ensures
        is_uuid_text(id@),
{
    uuid::Uuid::new_v4().to_string()
}

/// How a route looks after its identifier was filled in: a missing identifier
/// became a new one, a present one stayed, and nothing else changed.
pub open spec fn route_filled(before: Route, after: Route) -> bool {
    &&& after == (Route { id: after.id, ..before })
    &&& id_filled(before.id, after.id)
}

/// A missing identifier became a new one; a present one stayed.
pub open spec fn id_filled(before: Option<String>, after: Option<String>) -> bool {
    if id_missing(before) {
        after is Some && is_new_id_text(after->0@)
    } else {
        after == before
    }
}

/// How a rule looks after the identifiers of the rule and of its routes were
/// filled in.
pub open spec fn rule_filled(before: ListenRule, after: ListenRule) -> bool {
    &&& after == (ListenRule { id: after.id, routes: after.routes, ..before })
    &&& id_filled(before.id, after.id)
    &&& after.routes@.len() == before.routes@.len()
    &&& forall|j: int|
        0 <= j < before.routes@.len() ==> route_filled(
            #[trigger] before.routes@[j],
            after.routes@[j],
        )
}

/// How a configuration looks after all missing identifiers were filled in.
pub open spec fn config_filled(before: Config, after: Config) -> bool {
    &&& after == (Config { rules: after.rules, ..before })
    &&& after.rules@.len() == before.rules@.len()
    &&& forall|i: int|
        0 <= i < before.rules@.len() ==> rule_filled(#[trigger] before.rules@[i], after.rules@[i])
}

fn is_known(taken: &Vec<String>, id: &str) -> (known: bool)
    ensures
        known == knows(taken@, id@),
{
    let mut k: usize = 0;
    while k < taken.len()
        invariant
            k <= taken.len(),
            forall|m: int| 0 <= m < k ==> (#[trigger] taken@[m])@ != id@,
        decreases taken.len() - k,
    {
        if str_eq(taken[k].as_str(), id) {
            return true;
        }
        k += 1;
    }
    false
}

fn longest_of(taken: &Vec<String>) -> (longest: usize)
    ensures
        forall|m: int| 0 <= m < taken@.len() ==> (#[trigger] taken@[m])@.len() <= longest,
{
    let mut longest: usize = 0;
    let mut k: usize = 0;
    while k < taken.len()
        invariant
            k <= taken.len(),
            forall|m: int| 0 <= m < k ==> (#[trigger] taken@[m])@.len() <= longest,
        decreases taken.len() - k,
    {
        let n = taken[k].as_str().unicode_len();
        if n > longest {
            longest = n;
        }
        k += 1;
    }
    longest
}

/// A new identifier that is none of `taken`: a drawn UUID, tested against
/// those that are in use, and made longer than all of them should it be one
/// of them.
fn distinct_id(taken: &Vec<String>) -> (id: String)
    ensures
        is_new_id_text(id@),
        !knows(taken@, id@),
{
    let mut id = fresh_id();
    proof {
        assert(id@.take(36) =~= id@);
    }
    if !is_known(taken, id.as_str()) {
        return id;
    }
    let longest = longest_of(taken);
    while id.as_str().unicode_len() <= longest
        invariant
            is_new_id_text(id@),
        decreases longest + 1 - id@.len(),
    {
        let ghost before = id@;
        proof {
            reveal_strlit("0");
        }
        id.append("0");
        proof {
            assert(id@ =~= before.push('0'));
            assert(id@.take(36) =~= before.take(36));
        }
    }
    id
}

fn present_ids(config: &Config) -> (taken: Vec<String>)
    ensures
        covers(*config, taken@),
{
    let mut taken: Vec<String> = Vec::new();
    let mut i: usize = 0;
    while i < config.rules.len()
        invariant
            i <= config.rules@.len(),
            forall|a: int, b: int|
                is_place(*config, a, b) && a < i && !id_missing(#[trigger] id_at(*config, a, b))
                    ==> knows(taken@, id_at(*config, a, b)->0@),
        decreases config.rules@.len() - i,
    {
        let rule = &config.rules[i];
        let ghost start = taken@;
        if !needs_id(&rule.id) {
            match &rule.id {
                Some(id) => {
                    taken.push(id.clone());
                    proof {
                        assert forall|t: Seq<char>| knows(start, t) implies knows(taken@, t) by {
                            lemma_knows_more(start, taken@.last(), t);
                        }
                        lemma_knows_more(start, taken@.last(), id@);
                    }
                },
                None => {},
            }
        }
        let mut j: usize = 0;
        while j < rule.routes.len()
            invariant
                i < config.rules@.len(),
                *rule == config.rules@[i as int],
                j <= rule.routes@.len(),
                forall|a: int, b: int|
                    is_place(*config, a, b) && (a < i || (a == i && b < j)) && !id_missing(
                        #[trigger] id_at(*config, a, b),
                    ) ==> knows(taken@, id_at(*config, a, b)->0@),
            decreases rule.routes@.len() - j,
        {
            let ghost so_far = taken@;
            if !needs_id(&rule.routes[j].id) {
                match &rule.routes[j].id {
                    Some(id) => {
                        taken.push(id.clone());
                        proof {
                            assert forall|t: Seq<char>| knows(so_far, t) implies knows(taken@, t) by {
                                lemma_knows_more(so_far, taken@.last(), t);
                            }
                            lemma_knows_more(so_far, taken@.last(), id@);
                        }
                    },
                    None => {},
                }
            }
            j += 1;
        }
        i += 1;
    }
    taken
}

fn ensure_config_ids(config: &mut Config)
    ensures
        config_filled(*old(config), *final(config)),
        ids_distinct(*old(config)) ==> ids_distinct(*final(config)),
{
    let mut taken = present_ids(config);
    let mut i: usize = 0;
    while i < config.rules.len()
        invariant
            i <= config.rules@.len(),
            *config == (Config { rules: config.rules, ..*old(config) }),
            config.rules@.len() == old(config).rules@.len(),
            forall|k: int|
                0 <= k < i ==> rule_filled(#[trigger] old(config).rules@[k], config.rules@[k]),
            forall|k: int|
                i <= k < config.rules@.len() ==> config.rules@[k] == old(config).rules@[k],
            covers(*config, taken@),
            ids_distinct(*old(config)) ==> ids_distinct(*config),
        decreases config.rules@.len() - i,
    {
        if needs_id(&config.rules[i].id) {
            let id = distinct_id(&taken);
            let ghost before = *config;
            let ghost known = taken@;
            taken.push(id.clone());
            config.rules[i].id = Some(id);
            proof {
                lemma_place_filled(before, *config, known, taken@, i as int, -1);
            }
        }
        let mut j: usize = 0;
        while j < config.rules[i].routes.len()
            invariant
                i < config.rules@.len(),
                j <= config.rules@[i as int].routes@.len(),
                *config == (Config { rules: config.rules, ..*old(config) }),
                config.rules@.len() == old(config).rules@.len(),
                forall|k: int|
                    0 <= k < i ==> rule_filled(#[trigger] old(config).rules@[k], config.rules@[k]),
                forall|k: int|
                    i < k < config.rules@.len() ==> config.rules@[k] == old(config).rules@[k],
                config.rules@[i as int] == (ListenRule {
                    id: config.rules@[i as int].id,
                    routes: config.rules@[i as int].routes,
                    ..old(config).rules@[i as int]
                }),
                id_filled(old(config).rules@[i as int].id, config.rules@[i as int].id),
                config.rules@[i as int].routes@.len() == old(config).rules@[i as int].routes@.len(),
                forall|m: int|
                    0 <= m < j ==> route_filled(
                        #[trigger] old(config).rules@[i as int].routes@[m],
                        config.rules@[i as int].routes@[m],
                    ),
                forall|m: int|
                    j <= m < config.rules@[i as int].routes@.len() ==> config.rules@[i as int].routes@[m]
                        == old(config).rules@[i as int].routes@[m],
                covers(*config, taken@),
                ids_distinct(*old(config)) ==> ids_distinct(*config),
            decreases config.rules@[i as int].routes@.len() - j,
        {
            if needs_id(&config.rules[i].routes[j].id) {
                let id = distinct_id(&taken);
                let ghost before = *config;
                let ghost known = taken@;
                taken.push(id.clone());
                config.rules[i].routes[j].id = Some(id);
                proof {
                    lemma_place_filled(before, *config, known, taken@, i as int, j as int);
                }
            }
            j += 1;
        }
        i += 1;
    }
}

/// Filling one place with an identifier that is none of those in use keeps
/// the identifiers pairwise distinct, and all of them among those in use.
proof fn lemma_place_filled(
    before: Config,
    after: Config,
    known: Seq<String>,
    taken: Seq<String>,
    i: int,
    j: int,
)
    requires
        is_place(before, i, j),
        covers(before, known),
        after.rules@.len() == before.rules@.len(),
        forall|a: int|
            0 <= a < before.rules@.len() ==> (#[trigger] after.rules@[a]).routes@.len()
                == before.rules@[a].routes@.len(),
        forall|a: int, b: int|
            is_place(before, a, b) && (a != i || b != j) ==> #[trigger] id_at(after, a, b) == id_at(
                before,
                a,
                b,
            ),
        id_at(after, i, j) is Some,
        !knows(known, id_at(after, i, j)->0@),
        taken.len() == known.len() + 1,
        forall|k: int| 0 <= k < known.len() ==> #[trigger] taken[k] == known[k],
        taken[known.len() as int]@ == id_at(after, i, j)->0@,
    ensures
        covers(after, taken),
        ids_distinct(before) ==> ids_distinct(after),
{
    let new_text = id_at(after, i, j)->0@;
    assert forall|a: int, b: int| is_place(after, a, b) && !id_missing(
        #[trigger] id_at(after, a, b),
    ) implies knows(taken, id_at(after, a, b)->0@) by {
        assert(is_place(before, a, b));
        if a == i && b == j {
            assert(taken[known.len() as int]@ == new_text);
        } else {
            assert(id_at(after, a, b) == id_at(before, a, b));
            let t = id_at(before, a, b)->0@;
            assert(knows(known, t));
            let k = choose|k: int| 0 <= k < known.len() && (#[trigger] known[k])@ == t;
            assert(taken[k]@ == t);
        }
    }
    if ids_distinct(before) {
        assert forall|a: int, b: int, k: int, m: int|
            is_place(after, a, b) && is_place(after, k, m) && (a != k || b != m) && !id_missing(
                #[trigger] id_at(after, a, b),
            ) && !id_missing(#[trigger] id_at(after, k, m)) implies id_at(after, a, b)->0@ != id_at(
            after,
            k,
            m,
        )->0@ by {
            assert(is_place(before, a, b) && is_place(before, k, m));
            if a == i && b == j {
                assert(id_at(after, k, m) == id_at(before, k, m));
                assert(knows(known, id_at(before, k, m)->0@));
            } else if k == i && m == j {
                assert(id_at(after, a, b) == id_at(before, a, b));
                assert(knows(known, id_at(before, a, b)->0@));
            } else {
                assert(id_at(after, a, b) == id_at(before, a, b));
                assert(id_at(after, k, m) == id_at(before, k, m));
            }
        }
    }
}

/// A new identifier is not blank: an identifier that was filled in is not missing.
pub proof fn lemma_new_id_is_not_blank(s: Seq<char>)
    requires
        is_new_id_text(s),
    ensures
        !is_blank(s),
{
    assert(is_lower_hex(s.take(36)[0]));
    assert(s[0] == s.take(36)[0]);
}

/// After filling, no identifier is missing.
pub proof fn lemma_filled_has_all_ids(before: Config, after: Config)
    requires
        config_filled(before, after),
    ensures
        forall|i: int| 0 <= i < after.rules@.len() ==> !id_missing((#[trigger] after.rules@[i]).id),
        forall|i: int, j: int|
            0 <= i < after.rules@.len() && 0 <= j < after.rules@[i].routes@.len() ==> !id_missing(
                (#[trigger] after.rules@[i].routes@[j]).id,
            ),
{
    assert forall|i: int| 0 <= i < after.rules@.len() implies !id_missing(
        (#[trigger] after.rules@[i]).id,
    ) by {
        if id_missing(before.rules@[i].id) {
            lemma_new_id_is_not_blank(after.rules@[i].id->0@);
        }
    }
    assert forall|i: int, j: int|
        0 <= i < after.rules@.len() && 0 <= j < after.rules@[i].routes@.len() implies !id_missing(
        (#[trigger] after.rules@[i].routes@[j]).id,
    ) by {
        if id_missing(before.rules@[i].routes@[j].id) {
            lemma_new_id_is_not_blank(after.rules@[i].routes@[j].id->0@);
        }
    }
}

/// Identifiers are assigned once: filling a configuration that was filled
/// before changes no identifier of a rule or a route.
pub proof fn lemma_ids_assigned_once(first: Config, second: Config, third: Config)
    requires
        config_filled(first, second),
        config_filled(second, third),
    ensures
        third.rules@.len() == second.rules@.len(),
        forall|i: int| 0 <= i < second.rules@.len() ==> (#[trigger] third.rules@[i]).id == second.rules@[i].id,
        forall|i: int, j: int|
            0 <= i < second.rules@.len() && 0 <= j < second.rules@[i].routes@.len() ==> (
            #[trigger] third.rules@[i].routes@[j]).id == second.rules@[i].routes@[j].id,
{
    lemma_filled_has_all_ids(first, second);
}

/// Gives every rule and every route that lacks an identifier a newly drawn
/// one. Identifiers that are present stay as they are, and so does everything
/// else in the configuration. Every new identifier is tested against all
/// that are in use: identifiers that were pairwise distinct stay so.
pub fn ensure_config_ids_for_save(config: &mut Config)
    ensures
        config_filled(*old(config), *final(config)),
        ids_distinct(*old(config)) ==> ids_distinct(*final(config)),
{
    ensure_config_ids(config);
}

/// What makes a configuration unusable.
#[derive(Debug, Clone, Copy, PartialEq, Eq, Structural)]
pub enum ConfigError {
    /// A rule has no listen address.
    MissingListenAddress,
    /// A rule asks for TLS and names no certificate or no key.
    MissingCertificate,
    /// An upstream has a weight below zero.
    NegativeWeight,
    /// A route has neither an upstream nor a static directory.
    RouteWithoutTarget,
    /// Two rules or routes share an identifier.
    DuplicateId,
}

/// The rule has no listen address.
pub open spec fn lacks_address(rule: ListenRule) -> bool {
    is_blank(rule.listen_addr@)
}

/// The rule asks for TLS and names no certificate or no key.
pub open spec fn lacks_certificate(rule: ListenRule) -> bool {
    rule.ssl_enable && (is_blank(rule.cert_file@) || is_blank(rule.key_file@))
}

/// Some upstream of the route has a weight below zero.
pub open spec fn has_negative_weight(route: Route) -> bool {
    exists|k: int| 0 <= k < route.upstreams@.len() && (#[trigger] route.upstreams@[k]).weight < 0
}

/// The route has neither an upstream nor a static directory.
pub open spec fn lacks_target(route: Route) -> bool {
    route.upstreams@.len() == 0 && route.static_dir is None
}

/// Some rule has no listen address.
pub open spec fn any_rule_lacks_address(config: Config) -> bool {
    exists|i: int| 0 <= i < config.rules@.len() && lacks_address(#[trigger] config.rules@[i])
}

/// Some rule asks for TLS without a certificate or a key.
pub open spec fn any_rule_lacks_certificate(config: Config) -> bool {
    exists|i: int| 0 <= i < config.rules@.len() && lacks_certificate(#[trigger] config.rules@[i])
}

/// Some route of some rule has an upstream of negative weight.
pub open spec fn any_negative_weight(config: Config) -> bool {
    exists|i: int, j: int|
        0 <= i < config.rules@.len() && 0 <= j < config.rules@[i].routes@.len()
            && has_negative_weight(#[trigger] config.rules@[i].routes@[j])
}

/// Some route of some rule leads nowhere.
pub open spec fn any_route_lacks_target(config: Config) -> bool {
    exists|i: int, j: int|
        0 <= i < config.rules@.len() && 0 <= j < config.rules@[i].routes@.len() && lacks_target(
            #[trigger] config.rules@[i].routes@[j],
        )
}

/// The identifier of something, as a list of one or none.
pub open spec fn id_list(id: Option<String>) -> Seq<Seq<char>> {
    match id {
        Some(s) => seq![s@],
        None => Seq::empty(),
    }
}

/// The identifiers of the routes, in their order.
pub open spec fn route_ids(routes: Seq<Route>) -> Seq<Seq<char>>
    decreases routes.len(),
{
    if routes.len() == 0 {
        Seq::empty()
    } else {
        route_ids(routes.drop_last()) + id_list(routes.last().id)
    }
}

/// The identifiers of the rules and of their routes: each rule's own, then
/// those of its routes, rule after rule.
pub open spec fn all_ids(rules: Seq<ListenRule>) -> Seq<Seq<char>>
    decreases rules.len(),
{
    if rules.len() == 0 {
        Seq::empty()
    } else {
        all_ids(rules.drop_last()) + id_list(rules.last().id) + route_ids(rules.last().routes@)
    }
}

/// Some text stands twice in the list.
pub open spec fn has_repeat(ids: Seq<Seq<char>>) -> bool {
    exists|i: int, j: int| 0 <= i < j < ids.len() && #[trigger] ids[i] == #[trigger] ids[j]
}

/// The first thing that is wrong with a configuration, in the order of the
/// kinds of error; `None` where nothing is.
pub open spec fn first_error(config: Config) -> Option<ConfigError> {
    if any_rule_lacks_address(config) {
        Some(ConfigError::MissingListenAddress)
    } else if any_rule_lacks_certificate(config) {
        Some(ConfigError::MissingCertificate)
    } else if any_negative_weight(config) {
        Some(ConfigError::NegativeWeight)
    } else if any_route_lacks_target(config) {
        Some(ConfigError::RouteWithoutTarget)
    } else if has_repeat(all_ids(config.rules@)) {
        Some(ConfigError::DuplicateId)
    } else {
        None
    }
}

fn rule_lacks_certificate(rule: &ListenRule) -> (bad: bool)
    ensures
        bad == lacks_certificate(*rule),
{
    rule.ssl_enable && (text_is_blank(rule.cert_file.as_str()) || text_is_blank(
        rule.key_file.as_str(),
    ))
}

fn route_has_negative_weight(route: &Route) -> (bad: bool)
    ensures
        bad == has_negative_weight(*route),
{
    let mut k: usize = 0;
    while k < route.upstreams.len()
        invariant
            k <= route.upstreams.len(),
            forall|m: int| 0 <= m < k ==> (#[trigger] route.upstreams@[m]).weight >= 0,
        decreases route.upstreams.len() - k,
    {
        if route.upstreams[k].weight < 0 {
            return true;
        }
        k += 1;
    }
    false
}

fn collect_ids(rules: &Vec<ListenRule>) -> (ids: Vec<String>)
    ensures
        ids@.map_values(|s: String| s@) == all_ids(rules@),
{
    let ghost text = |s: String| s@;
    let mut ids: Vec<String> = Vec::new();
    let mut i: usize = 0;
    while i < rules.len()
        invariant
            i <= rules.len(),
            text == (|s: String| s@),
            ids@.map_values(text) == all_ids(rules@.take(i as int)),
        decreases rules.len() - i,
    {
        let rule = &rules[i];
        let ghost before = ids@.map_values(text);
        match &rule.id {
            Some(id) => {
                ids.push(id.clone());
            },
            None => {},
        }
        let mut j: usize = 0;
        while j < rule.routes.len()
            invariant
                j <= rule.routes.len(),
                text == (|s: String| s@),
                ids@.map_values(text) == before + id_list(rule.id) + route_ids(
                    rule.routes@.take(j as int),
                ),
            decreases rule.routes.len() - j,
        {
            let ghost so_far = ids@.map_values(text);
            match &rule.routes[j].id {
                Some(id) => {
                    ids.push(id.clone());
                },
                None => {},
            }
            proof {
                assert(rule.routes@.take(j as int + 1).drop_last() =~= rule.routes@.take(j as int));
                assert(ids@.map_values(text) =~= so_far + id_list(rule.routes@[j as int].id));
            }
            j += 1;
        }
        proof {
            assert(rule.routes@.take(rule.routes@.len() as int) =~= rule.routes@);
            assert(rules@.take(i as int + 1).drop_last() =~= rules@.take(i as int));
        }
        i += 1;
    }
    proof {
        assert(rules@.take(rules@.len() as int) =~= rules@);
    }
    ids
}

fn any_repeat(ids: &Vec<String>) -> (found: bool)
    ensures
        found == has_repeat(ids@.map_values(|s: String| s@)),
{
    let ghost texts = ids@.map_values(|s: String| s@);
    let mut j: usize = 0;
    while j < ids.len()
        invariant
            j <= ids.len(),
            texts == ids@.map_values(|s: String| s@),
            forall|a: int, b: int| 0 <= a < b < j ==> #[trigger] texts[a] != #[trigger] texts[b],
        decreases ids.len() - j,
    {
        let mut i: usize = 0;
        while i < j
            invariant
                i <= j < ids.len(),
                texts == ids@.map_values(|s: String| s@),
                forall|a: int| 0 <= a < i ==> #[trigger] texts[a] != texts[j as int],
            decreases j - i,
        {
            if crate::text::str_eq(ids[i].as_str(), ids[j].as_str()) {
                proof {
                    assert(texts[i as int] == texts[j as int]);
                }
                return true;
            }
            i += 1;
        }
        j += 1;
    }
    false
}

fn finds_rule_without_address(config: &Config) -> (found: bool)
    ensures
        found == any_rule_lacks_address(*config),
{
    let mut i: usize = 0;
    while i < config.rules.len()
        invariant
            i <= config.rules.len(),
            forall|k: int| 0 <= k < i ==> !lacks_address(#[trigger] config.rules@[k]),
        decreases config.rules.len() - i,
    {
        if text_is_blank(config.rules[i].listen_addr.as_str()) {
            return true;
        }
        i += 1;
    }
    false
}

fn finds_rule_without_certificate(config: &Config) -> (found: bool)
    ensures
        found == any_rule_lacks_certificate(*config),
{
    let mut i: usize = 0;
    while i < config.rules.len()
        invariant
            i <= config.rules.len(),
            forall|k: int| 0 <= k < i ==> !lacks_certificate(#[trigger] config.rules@[k]),
        decreases config.rules.len() - i,
    {
        if rule_lacks_certificate(&config.rules[i]) {
            return true;
        }
        i += 1;
    }
    false
}

fn finds_negative_weight(config: &Config) -> (found: bool)
    ensures
        found == any_negative_weight(*config),
{
    let mut i: usize = 0;
    while i < config.rules.len()
        invariant
            i <= config.rules.len(),
            forall|k: int, m: int|
                0 <= k < i && 0 <= m < config.rules@[k].routes@.len() ==> !has_negative_weight(
                    #[trigger] config.rules@[k].routes@[m],
                ),
        decreases config.rules.len() - i,
    {
        let mut j: usize = 0;
        while j < config.rules[i].routes.len()
            invariant
                i < config.rules.len(),
                j <= config.rules@[i as int].routes@.len(),
                forall|m: int|
                    0 <= m < j ==> !has_negative_weight(#[trigger] config.rules@[i as int].routes@[m]),
            decreases config.rules@[i as int].routes@.len() - j,
        {
            if route_has_negative_weight(&config.rules[i].routes[j]) {
                return true;
            }
            j += 1;
        }
        i += 1;
    }
    false
}

fn finds_route_without_target(config: &Config) -> (found: bool)
    ensures
        found == any_route_lacks_target(*config),
{
    let mut i: usize = 0;
    while i < config.rules.len()
        invariant
            i <= config.rules.len(),
            forall|k: int, m: int|
                0 <= k < i && 0 <= m < config.rules@[k].routes@.len() ==> !lacks_target(
                    #[trigger] config.rules@[k].routes@[m],
                ),
        decreases config.rules.len() - i,
    {
        let mut j: usize = 0;
        while j < config.rules[i].routes.len()
            invariant
                i < config.rules.len(),
                j <= config.rules@[i as int].routes@.len(),
                forall|m: int| 0 <= m < j ==> !lacks_target(#[trigger] config.rules@[i as int].routes@[m]),
            decreases config.rules@[i as int].routes@.len() - j,
        {
            let route = &config.rules[i].routes[j];
            if route.upstreams.len() == 0 && route.static_dir.is_none() {
                return true;
            }
            j += 1;
        }
        i += 1;
    }
    false
}

/// Checks a configuration for what would make it unusable: a rule without a
/// listen address, TLS without a certificate or a key, an upstream of negative
/// weight, a route that leads nowhere, or an identifier that is not unique.
/// Where several things are wrong the error is the first of these kinds.
pub fn validate_config(config: &Config) -> (r: Result<(), ConfigError>)
    ensures
        r == match first_error(*config) {
            Some(e) => Err::<(), ConfigError>(e),
            None => Ok::<(), ConfigError>(()),
        },
{
    if finds_rule_without_address(config) {
        Err(ConfigError::MissingListenAddress)
    } else if finds_rule_without_certificate(config) {
        Err(ConfigError::MissingCertificate)
    } else if finds_negative_weight(config) {
        Err(ConfigError::NegativeWeight)
    } else if finds_route_without_target(config) {
        Err(ConfigError::RouteWithoutTarget)
    } else if any_repeat(&collect_ids(&config.rules)) {
        Err(ConfigError::DuplicateId)
    } else {
        Ok(())
    }
}

/// Every identifier is present: none is absent or blank.
pub open spec fn all_ids_present(c: Config) -> bool {
    forall|i: int, j: int| is_place(c, i, j) ==> !id_missing(#[trigger] id_at(c, i, j))
}

/// `t` is the identifier at a place among the first `n` rules.
pub open spec fn stands_in(c: Config, n: int, t: Seq<char>) -> bool {
    exists|i: int, j: int|
        is_place(c, i, j) && i < n && (#[trigger] id_at(c, i, j)) is Some && id_at(c, i, j)->0@ == t
}

proof fn lemma_route_ids(c: Config, i: int, n: int)
    requires
        0 <= i < c.rules@.len(),
        0 <= n <= c.rules@[i].routes@.len(),
        ids_distinct(c),
        all_ids_present(c),
    ensures
        route_ids(c.rules@[i].routes@.take(n)).no_duplicates(),
        forall|t: Seq<char>|
            route_ids(c.rules@[i].routes@.take(n)).contains(t) ==> exists|j: int|
                0 <= j < n && (#[trigger] id_at(c, i, j)) is Some && id_at(c, i, j)->0@ == t,
    decreases n,
{
    let routes = c.rules@[i].routes@;
    if n > 0 {
        lemma_route_ids(c, i, n - 1);
        let left = route_ids(routes.take(n - 1));
        let last = id_list(routes[n - 1].id);
        assert(routes.take(n).drop_last() =~= routes.take(n - 1));
        assert(routes.take(n).last() == routes[n - 1]);
        assert(route_ids(routes.take(n)) == left + last);
        assert(is_place(c, i, n - 1));
        assert(id_at(c, i, n - 1) == routes[n - 1].id);
        assert forall|a: int, b: int| 0 <= a < left.len() && 0 <= b < last.len() implies left[a]
            != last[b] by {
            assert(left.contains(left[a]));
            let j = choose|j: int|
                0 <= j < n - 1 && (#[trigger] id_at(c, i, j)) is Some && id_at(c, i, j)->0@ == left[a];
            assert(is_place(c, i, j));
            assert(!id_missing(id_at(c, i, j)) && !id_missing(id_at(c, i, n - 1)));
        }
        vstd::seq_lib::lemma_no_dup_in_concat(left, last);
        assert forall|t: Seq<char>| (left + last).contains(t) implies exists|j: int|
            0 <= j < n && (#[trigger] id_at(c, i, j)) is Some && id_at(c, i, j)->0@ == t by {
            let k = choose|k: int| 0 <= k < (left + last).len() && (left + last)[k] == t;
            if k < left.len() {
                assert(left.contains(left[k]));
                let j = choose|j: int|
                    0 <= j < n - 1 && (#[trigger] id_at(c, i, j)) is Some && id_at(c, i, j)->0@ == t;
                assert(id_at(c, i, j) is Some);
            } else {
                assert(id_at(c, i, n - 1) is Some && id_at(c, i, n - 1)->0@ == t);
            }
        }
    } else {
        assert(routes.take(0) =~= Seq::<Route>::empty());
    }
}

/// The place at which an identifier stands, where it stands among the first `n` rules.
proof fn lemma_where_it_stands(c: Config, n: int, t: Seq<char>) -> (p: (int, int))
    requires
        stands_in(c, n, t),
    ensures
        is_place(c, p.0, p.1),
        p.0 < n,
        id_at(c, p.0, p.1) is Some,
        id_at(c, p.0, p.1)->0@ == t,
{
    choose|i: int, j: int|
        is_place(c, i, j) && i < n && (#[trigger] id_at(c, i, j)) is Some && id_at(c, i, j)->0@ == t
}

proof fn lemma_ids_upto(c: Config, n: int)
    requires
        0 <= n <= c.rules@.len(),
        ids_distinct(c),
        all_ids_present(c),
    ensures
        all_ids(c.rules@.take(n)).no_duplicates(),
        forall|t: Seq<char>| all_ids(c.rules@.take(n)).contains(t) ==> stands_in(c, n, t),
    decreases n,
{
    let rules = c.rules@;
    if n > 0 {
        lemma_ids_upto(c, n - 1);
        let rule = rules[n - 1];
        lemma_route_ids(c, n - 1, rule.routes@.len() as int);
        assert(rule.routes@.take(rule.routes@.len() as int) =~= rule.routes@);
        assert(rules.take(n).drop_last() =~= rules.take(n - 1));
        assert(rules.take(n).last() == rule);
        let left = all_ids(rules.take(n - 1));
        let own = id_list(rule.id);
        let below = route_ids(rule.routes@);
        assert(all_ids(rules.take(n)) == left + own + below);
        assert(is_place(c, n - 1, -1));
        assert(id_at(c, n - 1, -1) == rule.id);
        assert forall|a: int| 0 <= a < left.len() implies stands_in(c, n - 1, #[trigger] left[a]) by {
            assert(left.contains(left[a]));
        }
        assert forall|b: int| 0 <= b < below.len() implies exists|m: int|
            0 <= m < rule.routes@.len() && (#[trigger] id_at(c, n - 1, m)) is Some && id_at(
                c,
                n - 1,
                m,
            )->0@ == #[trigger] below[b] by {
            assert(below.contains(below[b]));
        }
        assert forall|a: int, b: int| 0 <= a < left.len() && 0 <= b < own.len() implies left[a]
            != own[b] by {
            let p = lemma_where_it_stands(c, n - 1, left[a]);
            assert(!id_missing(id_at(c, p.0, p.1)) && !id_missing(id_at(c, n - 1, -1)));
        }
        vstd::seq_lib::lemma_no_dup_in_concat(left, own);
        let upper = left + own;
        assert forall|a: int| 0 <= a < upper.len() implies stands_in(c, n, #[trigger] upper[a]) && (
        exists|i: int, j: int|
            is_place(c, i, j) && (i < n - 1 || j == -1) && (#[trigger] id_at(c, i, j)) is Some
                && id_at(c, i, j)->0@ == upper[a]) by {
            if a < left.len() {
                let p = lemma_where_it_stands(c, n - 1, left[a]);
                assert(id_at(c, p.0, p.1) is Some);
            } else {
                assert(id_at(c, n - 1, -1) is Some && id_at(c, n - 1, -1)->0@ == upper[a]);
            }
        }
        assert forall|a: int, b: int| 0 <= a < upper.len() && 0 <= b < below.len() implies upper[a]
            != below[b] by {
            let (i, j) = choose|i: int, j: int|
                is_place(c, i, j) && (i < n - 1 || j == -1) && (#[trigger] id_at(c, i, j)) is Some
                    && id_at(c, i, j)->0@ == upper[a];
            let m = choose|m: int|
                0 <= m < rule.routes@.len() && (#[trigger] id_at(c, n - 1, m)) is Some && id_at(
                    c,
                    n - 1,
                    m,
                )->0@ == below[b];
            assert(is_place(c, n - 1, m));
            assert(!id_missing(id_at(c, i, j)) && !id_missing(id_at(c, n - 1, m)));
        }
        vstd::seq_lib::lemma_no_dup_in_concat(upper, below);
        assert forall|t: Seq<char>| (upper + below).contains(t) implies stands_in(c, n, t) by {
            let k = choose|k: int| 0 <= k < (upper + below).len() && (upper + below)[k] == t;
            if k < upper.len() {
                assert(stands_in(c, n, upper[k]));
            } else {
                let b = k - upper.len();
                let m = choose|m: int|
                    0 <= m < rule.routes@.len() && (#[trigger] id_at(c, n - 1, m)) is Some && id_at(
                        c,
                        n - 1,
                        m,
                    )->0@ == below[b];
                assert(is_place(c, n - 1, m));
                assert(id_at(c, n - 1, m) is Some);
            }
        }
    } else {
        assert(rules.take(0) =~= Seq::<ListenRule>::empty());
    }
}

/// Identifiers that are all present and pairwise distinct pass the check: a
/// configuration whose identifiers were filled in, and were distinct before,
/// is never refused for a repeated identifier.
pub proof fn lemma_distinct_ids_do_not_repeat(c: Config)
    requires
        ids_distinct(c),
        all_ids_present(c),
    ensures
        !has_repeat(all_ids(c.rules@)),
        first_error(c) != Some(ConfigError::DuplicateId),
{
    lemma_ids_upto(c, c.rules@.len() as int);
    assert(c.rules@.take(c.rules@.len() as int) =~= c.rules@);
}

/// After filling, the identifiers pass the check: a configuration whose
/// identifiers were pairwise distinct before they were filled in is never
/// refused for a repeated identifier.
pub proof fn lemma_filled_ids_pass_the_check(before: Config, after: Config)
    requires
        config_filled(before, after),
        ids_distinct(before) ==> ids_distinct(after),
        ids_distinct(before),
    ensures
        all_ids_present(after),
        ids_distinct(after),
        first_error(after) != Some(ConfigError::DuplicateId),
{
    lemma_filled_has_all_ids(before, after);
    assert forall|i: int, j: int| is_place(after, i, j) implies !id_missing(
        #[trigger] id_at(after, i, j),
    ) by {
        if j >= 0 {
            assert(!id_missing(after.rules@[i].routes@[j].id));
        } else {
            assert(!id_missing(after.rules@[i].id));
        }
    }
    lemma_distinct_ids_do_not_repeat(after);
}

} // verus!
