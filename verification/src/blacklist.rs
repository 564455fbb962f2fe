//! The list of banned addresses. A ban ends by itself when its time is up:
//! an expired entry no longer bans, whether or not it was swept away.

use crate::text::str_eq;
use vstd::prelude::*;
use vstd::string::*;

verus! {

/// One banned address.
#[derive(Debug, Clone)]
pub struct BlacklistEntry {
    pub id: i64,
    pub ip: String,
    pub reason: Option<String>,
    /// The second (since the epoch) from which the ban no longer holds.
    pub expires_at: i64,
    pub created_at: i64,
}

/// Why an address could not be banned.
#[derive(Debug, Clone, Copy, PartialEq, Eq, Structural)]
pub enum BlacklistError {
    /// A ban must last at least one hour.
    InvalidDuration,
    /// The end of the ban lies beyond the last second that can be written.
    TimeOutOfRange,
    /// No identifier is left for a new entry.
    IdsExhausted,
}

/// The banned addresses, at most one entry for each.
pub struct BlacklistStore {
    entries: Vec<BlacklistEntry>,
    next_id: i64,
}

/// `ip` is banned at the second `now`: an entry for it has not expired yet.
pub open spec fn banned_in(rows: Seq<BlacklistEntry>, ip: Seq<char>, now: int) -> bool {
    exists|i: int| 0 <= i < rows.len() && (#[trigger] rows[i]).ip@ == ip && rows[i].expires_at > now
}

/// `rows` holds an entry for `ip`, expired or not.
pub open spec fn listed_in(rows: Seq<BlacklistEntry>, ip: Seq<char>) -> bool {
    exists|i: int| 0 <= i < rows.len() && (#[trigger] rows[i]).ip@ == ip
}

/// No address has two entries.
pub open spec fn distinct_ips(rows: Seq<BlacklistEntry>) -> bool {
    forall|i: int, j: int|
        0 <= i < j < rows.len() ==> (#[trigger] rows[i]).ip@ != (#[trigger] rows[j]).ip@
}

/// The entries of `rows` for other addresses than `ip`, in their order.
pub open spec fn without_ip(rows: Seq<BlacklistEntry>, ip: Seq<char>) -> Seq<BlacklistEntry> {
    rows.filter(|e: BlacklistEntry| e.ip@ != ip)
}

/// The entries of `rows` that have not expired at `now`, in their order.
pub open spec fn unexpired(rows: Seq<BlacklistEntry>, now: int) -> Seq<BlacklistEntry> {
    rows.filter(|e: BlacklistEntry| e.expires_at > now)
}

/// The second at which a ban of `hours` hours that starts at `now` ends.
pub open spec fn ban_end(now: int, hours: int) -> int {
    now + hours * 3600
}

/// What a list of rows becomes when they are entered one after the other, a
/// later row for an address replacing the earlier one.
pub open spec fn entered(rows: Seq<BlacklistEntry>) -> Seq<BlacklistEntry>
    decreases rows.len(),
{
    if rows.len() == 0 {
        rows
    } else {
        without_ip(entered(rows.drop_last()), rows.last().ip@).push(rows.last())
    }
}

/// The identifier for the next new entry after `rows` were entered: one more
/// than the greatest identifier seen, and never less than `next`. It stays at
/// the greatest number where no greater one exists.
pub open spec fn next_after(next: int, rows: Seq<BlacklistEntry>) -> int
    decreases rows.len(),
{
    if rows.len() == 0 {
        next
    } else {
        let n = next_after(next, rows.drop_last());
        if rows.last().id < n {
            n
        } else if rows.last().id < i64::MAX {
            rows.last().id + 1
        } else {
            i64::MAX as int
        }
    }
}

/// Removing the entries of one address leaves a list without repeated
/// addresses as such a list, and takes nothing else away.
pub proof fn lemma_without_ip(rows: Seq<BlacklistEntry>, ip: Seq<char>)
    requires
        distinct_ips(rows),
    ensures
        distinct_ips(without_ip(rows, ip)),
        !listed_in(without_ip(rows, ip), ip),
        forall|e: BlacklistEntry|
            #![trigger without_ip(rows, ip).contains(e)]
            without_ip(rows, ip).contains(e) <==> rows.contains(e) && e.ip@ != ip,
    decreases rows.len(),
{
    reveal(Seq::filter);
    if rows.len() > 0 {
        let shorter = rows.drop_last();
        lemma_without_ip(shorter, ip);
        let f = without_ip(shorter, ip);
        let out = without_ip(rows, ip);
        assert forall|i: int, j: int| 0 <= i < j < out.len() implies out[i].ip@ != out[j].ip@ by {
            if j == f.len() {
                assert(f.contains(out[i]));
            }
        }
        assert forall|e: BlacklistEntry| #![trigger out.contains(e)] out.contains(e) <==> rows.contains(
            e,
        ) && e.ip@ != ip by {
            if out.contains(e) {
                let k = choose|k: int| 0 <= k < out.len() && out[k] == e;
                if k < f.len() {
                    assert(f.contains(e));
                }
            }
        }
    }
}

impl BlacklistStore {
    /// The entries, in the order in which they were last entered.
    pub closed spec fn rows(&self) -> Seq<BlacklistEntry> {
        self.entries@
    }

    /// The identifier that the next new entry gets.
    pub closed spec fn next_id(&self) -> int {
        self.next_id as int
    }

    /// The store is in order: no address has two entries.
    pub open spec fn wf(&self) -> bool {
        distinct_ips(self.rows())
    }

    /// An empty list, whose first entry will get the identifier 1.
    pub fn new() -> (store: BlacklistStore)
        ensures
            store.wf(),
            store.rows().len() == 0,
            store.next_id() == 1,
    {
        BlacklistStore { entries: Vec::new(), next_id: 1 }
    }
}

fn copy_text(s: &Option<String>) -> (c: Option<String>)
    ensures
        c == *s,
{
    match s {
        Some(x) => Some(x.clone()),
        None => None,
    }
}

fn copy_entry(e: &BlacklistEntry) -> (c: BlacklistEntry)
    ensures
        c == *e,
{
    BlacklistEntry {
        id: e.id,
        ip: e.ip.clone(),
        reason: copy_text(&e.reason),
        expires_at: e.expires_at,
        created_at: e.created_at,
    }
}

fn drop_ip(entries: Vec<BlacklistEntry>, ip: &str) -> (kept: Vec<BlacklistEntry>)
    ensures
        kept@ == without_ip(entries@, ip@),
{
    let ghost pred = |e: BlacklistEntry| e.ip@ != ip@;
    let ghost all = entries@;
    let mut kept: Vec<BlacklistEntry> = Vec::new();
    proof {
        reveal(Seq::filter);
    }
    for e in it: entries
        invariant
            it.seq() == all,
            pred == (|e: BlacklistEntry| e.ip@ != ip@),
            kept@ == all.take(it.index() as int).filter(pred),
    {
        proof {
            let k = it.index() as int;
            assert(all.take(k + 1) =~= all.take(k).push(all[k]));
            all.take(k).lemma_filter_push(all[k], pred);
        }
        if !str_eq(e.ip.as_str(), ip) {
            kept.push(e);
        }
    }
    proof {
        assert(all.take(all.len() as int) =~= all);
    }
    kept
}

/// Whether `ip` is banned at the second `now`. An entry whose time is up does
/// not ban, also while it is still listed.
pub fn is_banned(store: &BlacklistStore, ip: &str, now: i64) -> (banned: bool)
    ensures
        banned == banned_in(store.rows(), ip@, now as int),
{
    let mut i: usize = 0;
    while i < store.entries.len()
        invariant
            i <= store.entries.len(),
            forall|k: int|
                0 <= k < i ==> !((#[trigger] store.entries@[k]).ip@ == ip@ && store.entries@[k].expires_at
                    > now),
        decreases store.entries.len() - i,
    {
        if store.entries[i].expires_at > now && str_eq(store.entries[i].ip.as_str(), ip) {
            return true;
        }
        i += 1;
    }
    false
}

/// Bans `ip` for `duration_hours` hours from the second `now`. An earlier
/// entry for the address is replaced. The new entry is listed last and is
/// returned as it was stored.
///
/// Fails, and changes nothing, where the duration is not positive, where the
/// end of the ban cannot be written as a second, or where the identifiers are
/// used up.
pub fn ban_at(
    store: &mut BlacklistStore,
    ip: String,
    reason: String,
    duration_hours: i32,
    now: i64,
) -> (r: Result<BlacklistEntry, BlacklistError>)
    requires
        old(store).wf(),
    ensures
        final(store).wf(),
        match r {
            Ok(e) => {
                &&& duration_hours > 0
                &&& ban_end(now as int, duration_hours as int) <= i64::MAX
                &&& old(store).next_id() < i64::MAX
                &&& e.id == old(store).next_id()
                &&& e.ip == ip
                &&& e.reason == Some(reason)
                &&& e.created_at == now
                &&& e.expires_at == ban_end(now as int, duration_hours as int)
                &&& e.expires_at > e.created_at
                &&& final(store).rows() == without_ip(old(store).rows(), ip@).push(e)
                &&& final(store).next_id() == old(store).next_id() + 1
            },
            Err(e) => {
                &&& *final(store) == *old(store)
                &&& e == if duration_hours <= 0 {
                    BlacklistError::InvalidDuration
                } else if ban_end(now as int, duration_hours as int) > i64::MAX {
                    BlacklistError::TimeOutOfRange
                } else {
                    BlacklistError::IdsExhausted
                }
                &&& duration_hours <= 0 || ban_end(now as int, duration_hours as int) > i64::MAX
                    || old(store).next_id() == i64::MAX
            },
        },
{
    if duration_hours <= 0 {
        return Err(BlacklistError::InvalidDuration);
    }
    let span: i64 = (duration_hours as i64) * 3600;
    let expires_at = match now.checked_add(span) {
        Some(t) => t,
        None => {
            return Err(BlacklistError::TimeOutOfRange);
        },
    };
    if store.next_id == i64::MAX {
        return Err(BlacklistError::IdsExhausted);
    }
    let entry = BlacklistEntry {
        id: store.next_id,
        ip,
        reason: Some(reason),
        expires_at,
        created_at: now,
    };
    let stored = copy_entry(&entry);
    let mut entries: Vec<BlacklistEntry> = Vec::new();
    core::mem::swap(&mut entries, &mut store.entries);
    proof {
        lemma_without_ip(entries@, entry.ip@);
    }
    let mut kept = drop_ip(entries, entry.ip.as_str());
    kept.push(stored);
    store.entries = kept;
    store.next_id = store.next_id + 1;
    Ok(entry)
}

/// The seconds that a clock can read: those of the days that fit 32 bits,
/// counted from the first day of the common era.
pub open spec fn is_clock_reading(now: int) -> bool {
    -185_604_722_870_400 <= now < 185_542_587_187_200
}

/// The current second since the epoch (`chrono::Utc::now`, then
/// `timestamp`). Whatever the clock says, the reading lies within the days
/// that chrono can count: the call panics where the system clock stands
/// before 1970 or beyond those days.
#[verifier::external_body]
fn unix_now() -> (now: i64)
    ensures
        is_clock_reading(now as int),
{
    chrono::Utc::now().timestamp()
}

/// Bans `ip` for `duration_hours` hours from now, as [`ban_at`] does from the
/// second it is given. The ban succeeds whenever the duration is positive and
/// an identifier is left: no reading of the clock brings the end of a ban out
/// of range. The entry is the last one listed, runs for the duration asked
/// for, ends after it was made, and replaces any earlier entry for the address.
pub fn add_blacklist_entry(
    store: &mut BlacklistStore,
    ip: String,
    reason: String,
    duration_hours: i32,
) -> (r: Result<BlacklistEntry, BlacklistError>)
    requires
        old(store).wf(),
    ensures
        final(store).wf(),
        r is Ok <==> duration_hours > 0 && old(store).next_id() < i64::MAX,
        match r {
            Ok(e) => {
                &&& e.id == old(store).next_id()
                &&& e.ip == ip
                &&& e.reason == Some(reason)
                &&& is_clock_reading(e.created_at as int)
                &&& e.expires_at == ban_end(e.created_at as int, duration_hours as int)
                &&& e.expires_at > e.created_at
                &&& final(store).rows() == without_ip(old(store).rows(), ip@).push(e)
                &&& final(store).next_id() == old(store).next_id() + 1
            },
            Err(e) => {
                &&& *final(store) == *old(store)
                &&& e == if duration_hours <= 0 {
                    BlacklistError::InvalidDuration
                } else {
                    BlacklistError::IdsExhausted
                }
            },
        },
{
    let now = unix_now();
    ban_at(store, ip, reason, duration_hours, now)
}

/// Lifts the ban on `ip`: its entry is removed. Returns whether there was one.
pub fn remove_blacklist_entry(store: &mut BlacklistStore, ip: &str) -> (removed: bool)
    requires
        old(store).wf(),
    ensures
        final(store).wf(),
        final(store).rows() == without_ip(old(store).rows(), ip@),
        final(store).next_id() == old(store).next_id(),
        removed == listed_in(old(store).rows(), ip@),
        !listed_in(final(store).rows(), ip@),
{
    let mut entries: Vec<BlacklistEntry> = Vec::new();
    core::mem::swap(&mut entries, &mut store.entries);
    let before = entries.len();
    proof {
        lemma_without_ip(entries@, ip@);
        lemma_removed_iff_shorter(entries@, ip@);
    }
    let kept = drop_ip(entries, ip);
    let removed = kept.len() < before;
    store.entries = kept;
    removed
}

/// Removing the entries of an address shortens the list exactly when the
/// address was listed.
pub proof fn lemma_removed_iff_shorter(rows: Seq<BlacklistEntry>, ip: Seq<char>)
    ensures
        without_ip(rows, ip).len() <= rows.len(),
        without_ip(rows, ip).len() < rows.len() <==> listed_in(rows, ip),
    decreases rows.len(),
{
    reveal(Seq::filter);
    if rows.len() > 0 {
        let shorter = rows.drop_last();
        lemma_removed_iff_shorter(shorter, ip);
        if listed_in(rows, ip) {
            let k = choose|k: int| 0 <= k < rows.len() && rows[k].ip@ == ip;
            if k < shorter.len() {
                assert(shorter[k].ip@ == ip);
            }
        }
    }
}

/// All entries, the expired ones too, in the order in which they are listed.
pub fn get_blacklist_entries(store: &BlacklistStore) -> (list: Vec<BlacklistEntry>)
    ensures
        list@ == store.rows(),
{
    let mut list: Vec<BlacklistEntry> = Vec::new();
    let mut i: usize = 0;
    while i < store.entries.len()
        invariant
            i <= store.entries.len(),
            list@ == store.entries@.take(i as int),
        decreases store.entries.len() - i,
    {
        list.push(copy_entry(&store.entries[i]));
        i += 1;
    }
    list
}

/// Replaces the list by `rows`, as read from durable storage. The rows are
/// entered in their order; where an address occurs twice the later row stands.
/// New entries get identifiers above all that were seen.
pub fn refresh_blacklist_cache(store: &mut BlacklistStore, rows: Vec<BlacklistEntry>)
    ensures
        final(store).wf(),
        final(store).rows() == entered(rows@),
        final(store).next_id() == next_after(old(store).next_id(), rows@),
{
    let ghost all = rows@;
    let mut entries: Vec<BlacklistEntry> = Vec::new();
    let mut next: i64 = store.next_id;
    for row in it: rows
        invariant
            it.seq() == all,
            entries@ == entered(all.take(it.index() as int)),
            distinct_ips(entries@),
            next == next_after(old(store).next_id(), all.take(it.index() as int)),
    {
        proof {
            let k = it.index() as int;
            assert(all.take(k + 1).drop_last() =~= all.take(k));
            lemma_without_ip(entries@, row.ip@);
        }
        let mut kept = drop_ip(entries, row.ip.as_str());
        if row.id >= next {
            next = if row.id < i64::MAX {
                row.id + 1
            } else {
                i64::MAX
            };
        }
        kept.push(row);
        entries = kept;
    }
    proof {
        assert(all.take(all.len() as int) =~= all);
    }
    store.entries = entries;
    store.next_id = next;
}

/// Removes the entries that have expired at `now` and returns how many they were.
pub fn sweep_expired(store: &mut BlacklistStore, now: i64) -> (swept: usize)
    requires
        old(store).wf(),
    ensures
        final(store).wf(),
        final(store).rows() == unexpired(old(store).rows(), now as int),
        final(store).next_id() == old(store).next_id(),
        swept == old(store).rows().len() - final(store).rows().len(),
        forall|ip: Seq<char>, at: int|
            at >= now ==> (banned_in(final(store).rows(), ip, at) <==> banned_in(
                old(store).rows(),
                ip,
                at,
            )),
{
    let ghost pred = |e: BlacklistEntry| e.expires_at > now as int;
    let mut entries: Vec<BlacklistEntry> = Vec::new();
    core::mem::swap(&mut entries, &mut store.entries);
    let ghost all = entries@;
    let before = entries.len();
    let mut kept: Vec<BlacklistEntry> = Vec::new();
    proof {
        reveal(Seq::filter);
    }
    for e in it: entries
        invariant
            it.seq() == all,
            pred == (|e: BlacklistEntry| e.expires_at > now as int),
            kept@ == all.take(it.index() as int).filter(pred),
    {
        proof {
            let k = it.index() as int;
            assert(all.take(k + 1) =~= all.take(k).push(all[k]));
            all.take(k).lemma_filter_push(all[k], pred);
        }
        if e.expires_at > now {
            kept.push(e);
        }
    }
    proof {
        assert(all.take(all.len() as int) =~= all);
        lemma_unexpired(all, now as int);
    }
    let swept = before - kept.len();
    store.entries = kept;
    swept
}

/// Sweeping keeps the list in order and changes no answer about a ban at the
/// time of the sweep or later.
pub proof fn lemma_unexpired(rows: Seq<BlacklistEntry>, now: int)
    requires
        distinct_ips(rows),
    ensures
        distinct_ips(unexpired(rows, now)),
        unexpired(rows, now).len() <= rows.len(),
        forall|ip: Seq<char>, at: int|
            at >= now ==> (banned_in(unexpired(rows, now), ip, at) <==> banned_in(rows, ip, at)),
    decreases rows.len(),
{
    reveal(Seq::filter);
    let pred = |e: BlacklistEntry| e.expires_at > now;
    let out = unexpired(rows, now);
    if rows.len() > 0 {
        let shorter = rows.drop_last();
        lemma_unexpired(shorter, now);
        let f = unexpired(shorter, now);
        assert forall|i: int, j: int| 0 <= i < j < out.len() implies out[i].ip@ != out[j].ip@ by {
            if j == f.len() {
                assert(shorter.contains(out[i])) by {
                    lemma_filter_subset(shorter, pred, out[i]);
                }
            }
        }
        assert forall|ip: Seq<char>, at: int| at >= now implies (banned_in(out, ip, at) <==> banned_in(
            rows,
            ip,
            at,
        )) by {
            if banned_in(out, ip, at) {
                let k = choose|k: int| 0 <= k < out.len() && out[k].ip@ == ip && out[k].expires_at > at;
                if k < f.len() {
                    assert(banned_in(shorter, ip, at));
                }
            }
            if banned_in(rows, ip, at) {
                let k = choose|k: int|
                    0 <= k < rows.len() && rows[k].ip@ == ip && rows[k].expires_at > at;
                if k < shorter.len() {
                    assert(shorter[k] == rows[k]);
                    assert(banned_in(shorter, ip, at));
                    let m = choose|m: int| 0 <= m < f.len() && f[m].ip@ == ip && f[m].expires_at > at;
                    assert(out[m] == f[m]);
                } else {
                    assert(out[out.len() - 1] == rows[k]);
                }
            }
        }
    }
}

/// An address all of whose entries have run out is not banned: an expired
/// entry never blocks, whether or not it was swept away.
pub proof fn lemma_expired_never_bans(rows: Seq<BlacklistEntry>, ip: Seq<char>, now: int)
    requires
        forall|i: int| 0 <= i < rows.len() && (#[trigger] rows[i]).ip@ == ip ==> rows[i].expires_at <= now,
    ensures
        !banned_in(rows, ip, now),
{
}

/// A ban holds from the moment it is made until its end, and not from its
/// end on.
pub proof fn lemma_ban_holds_until_end(
    before: Seq<BlacklistEntry>,
    e: BlacklistEntry,
    at: int,
)
    requires
        distinct_ips(before),
    ensures
        banned_in(without_ip(before, e.ip@).push(e), e.ip@, at) <==> at < e.expires_at,
{
    let rows = without_ip(before, e.ip@).push(e);
    if at < e.expires_at {
        assert(rows[rows.len() - 1] == e);
    }
}

/// What a filter keeps was there before.
pub proof fn lemma_filter_subset(
    rows: Seq<BlacklistEntry>,
    pred: spec_fn(BlacklistEntry) -> bool,
    e: BlacklistEntry,
)
    requires
        rows.filter(pred).contains(e),
    ensures
        rows.contains(e),
    decreases rows.len(),
{
    reveal(Seq::filter);
    if rows.len() > 0 {
        let f = rows.drop_last().filter(pred);
        let out = rows.filter(pred);
        let k = choose|k: int| 0 <= k < out.len() && out[k] == e;
        if k < f.len() {
            lemma_filter_subset(rows.drop_last(), pred, e);
        }
    }
}

} // verus!
